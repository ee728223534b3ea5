//! The templates of a prototype: an insertion-ordered map from prototype
//! paths to asset handles.
use vstd::prelude::*;

use indexmap::IndexMap;

use crate::indexed::{
    template_map_entries, template_map_get_index, template_map_index_of, template_map_insert,
    template_map_len, template_map_new, template_map_shift_remove,
};

verus! {

/// A collection of template prototypes for a given prototype: a map from
/// prototype path to asset handle.
///
/// Insertion order matters: it dictates where in the template chain a
/// template lies. Templates are applied in reverse order, so templates that
/// were inserted later may be overwritten by templates that were inserted
/// earlier.
pub struct Templates {
    templates: IndexMap<String, u64>,
}

/// An untyped asset handle: the asset's id, and whether the handle is
/// strong (keeps the asset loaded) or weak.
#[derive(Debug, Clone, Copy, PartialEq, Eq, Structural)]
pub struct UntypedHandle {
    pub id: u64,
    pub strong: bool,
}

/// The strong handle of a stored id, if any (templates hold strong
/// handles only).
pub open spec fn strong_handle(o: Option<u64>) -> Option<UntypedHandle> {
    match o {
        Some(id) => Some(UntypedHandle { id, strong: true }),
        None => None,
    }
}

fn to_strong(o: Option<u64>) -> (r: Option<UntypedHandle>)
    ensures
        r == strong_handle(o),
{
    match o {
        Some(id) => Some(UntypedHandle { id, strong: true }),
        None => None,
    }
}

/// No path occurs twice.
pub open spec fn unique_paths(e: Seq<(Seq<char>, u64)>) -> bool {
    forall|i: int, j: int|
        0 <= i < e.len() && 0 <= j < e.len() && i != j ==> #[trigger] e[i].0 != #[trigger] e[j].0
}

/// The handle stored for a path.
pub open spec fn lookup(e: Seq<(Seq<char>, u64)>, path: Seq<char>) -> Option<u64> {
    if exists|i: int| 0 <= i < e.len() && e[i].0 == path {
        Some(e[choose|i: int| 0 <= i < e.len() && e[i].0 == path].1)
    } else {
        None
    }
}

/// The position of a path.
pub open spec fn position(e: Seq<(Seq<char>, u64)>, path: Seq<char>) -> Option<int> {
    if exists|i: int| 0 <= i < e.len() && e[i].0 == path {
        Some(choose|i: int| 0 <= i < e.len() && e[i].0 == path)
    } else {
        None
    }
}

/// Inserting: an existing path keeps its position and gets the new handle;
/// a new path goes last.
pub open spec fn insert_entry(e: Seq<(Seq<char>, u64)>, path: Seq<char>, handle: u64) -> Seq<
    (Seq<char>, u64),
> {
    match position(e, path) {
        Some(i) => e.update(i, (path, handle)),
        None => e.push((path, handle)),
    }
}

/// Removing: the entries after the removed one keep their order.
pub open spec fn remove_entry(e: Seq<(Seq<char>, u64)>, path: Seq<char>) -> Seq<(Seq<char>, u64)> {
    match position(e, path) {
        Some(i) => e.remove(i),
        None => e,
    }
}

proof fn lemma_position_unique(e: Seq<(Seq<char>, u64)>, path: Seq<char>, i: int)
    requires
        unique_paths(e),
        0 <= i < e.len(),
        e[i].0 == path,
    ensures
        position(e, path) == Some(i),
        lookup(e, path) == Some(e[i].1),
{
    let j = choose|j: int| 0 <= j < e.len() && e[j].0 == path;
    assert(0 <= j < e.len() && e[j].0 == path);
    if j != i {
        assert(e[i].0 != e[j].0);
    }
}

proof fn lemma_absent(e: Seq<(Seq<char>, u64)>, path: Seq<char>)
    requires
        forall|i: int| 0 <= i < e.len() ==> #[trigger] e[i].0 != path,
    ensures
        position(e, path) is None,
        lookup(e, path) is None,
{
}

impl View for Templates {
    type V = Seq<(Seq<char>, u64)>;

    closed spec fn view(&self) -> Seq<(Seq<char>, u64)> {
        template_map_entries(self.templates)
    }
}

impl Templates {
    /// No path occurs twice.
    pub closed spec fn wf(&self) -> bool {
        unique_paths(self@)
    }

    /// An empty collection.
    pub fn new() -> (r: Templates)
        ensures
            r.wf(),
            r@ == Seq::<(Seq<char>, u64)>::empty(),
    {
        Templates { templates: template_map_new() }
    }

    /// The handle of the prototype at the given path.
    pub fn get(&self, path: &str) -> (r: Option<u64>)
        requires
            self.wf(),
        ensures
            r == lookup(self@, path@),
    {
        match template_map_index_of(&self.templates, path) {
            Some(i) => {
                let (_, handle) = template_map_get_index(&self.templates, i);
                proof {
                    lemma_position_unique(self@, path@, i as int);
                }
                Some(handle)
            },
            None => {
                proof {
                    lemma_absent(self@, path@);
                }
                None
            },
        }
    }

    /// Insert a prototype's path and its strong handle (a weak handle is
    /// refused). A path that was already there keeps its place and gets
    /// the new handle; the old (strong) one is returned.
    pub fn insert(&mut self, path: String, handle: UntypedHandle) -> (r: Option<UntypedHandle>)
        requires
            old(self).wf(),
            handle.strong,
        ensures
            final(self).wf(),
            final(self)@ == insert_entry(old(self)@, path@, handle.id),
            r == strong_handle(lookup(old(self)@, path@)),
    {
        let ghost old_e = self@;
        let ghost p = path@;
        let handle = handle.id;
        let r = template_map_insert(&mut self.templates, path, handle);
        proof {
            match r {
                Some(v) => {
                    let i = choose|i: int|
                        0 <= i < old_e.len() && old_e[i].0 == p && v == old_e[i].1
                            && self@ == old_e.update(i, (p, handle));
                    lemma_position_unique(old_e, p, i);
                    assert forall|a: int, b: int|
                        0 <= a < self@.len() && 0 <= b < self@.len() && a != b implies #[trigger] self@[a].0
                        != #[trigger] self@[b].0 by {
                        assert(self@[a].0 == old_e[a].0);
                        assert(self@[b].0 == old_e[b].0);
                    }
                },
                None => {
                    lemma_absent(old_e, p);
                    assert forall|a: int, b: int|
                        0 <= a < self@.len() && 0 <= b < self@.len() && a != b implies #[trigger] self@[a].0
                        != #[trigger] self@[b].0 by {
                        if a < old_e.len() && b < old_e.len() {
                            assert(self@[a] == old_e[a]);
                            assert(self@[b] == old_e[b]);
                        } else if a < old_e.len() {
                            assert(self@[a] == old_e[a]);
                        } else {
                            assert(self@[b] == old_e[b]);
                        }
                    }
                },
            }
        }
        to_strong(r)
    }

    /// Remove the prototype at the given path, returning its (strong)
    /// handle; the other templates keep their order.
    pub fn remove(&mut self, path: &str) -> (r: Option<UntypedHandle>)
        requires
            old(self).wf(),
        ensures
            final(self).wf(),
            final(self)@ == remove_entry(old(self)@, path@),
            r == strong_handle(lookup(old(self)@, path@)),
    {
        let ghost old_e = self@;
        let r = template_map_shift_remove(&mut self.templates, path);
        proof {
            match r {
                Some(v) => {
                    let i = choose|i: int|
                        0 <= i < old_e.len() && old_e[i].0 == path@ && v == old_e[i].1 && self@
                            == old_e.remove(i);
                    lemma_position_unique(old_e, path@, i);
                    assert forall|a: int, b: int|
                        0 <= a < self@.len() && 0 <= b < self@.len() && a != b implies #[trigger] self@[a].0
                        != #[trigger] self@[b].0 by {
                        let oa = if a < i { a } else { a + 1 };
                        let ob = if b < i { b } else { b + 1 };
                        assert(self@[a] == old_e[oa]);
                        assert(self@[b] == old_e[ob]);
                    }
                },
                None => {
                    lemma_absent(old_e, path@);
                },
            }
        }
        to_strong(r)
    }

    /// The templates in the order they were inserted.
    pub fn iter(&self) -> (r: Vec<(String, u64)>)
        ensures
            r@.len() == self@.len(),
            forall|i: int| 0 <= i < r@.len() ==> (#[trigger] r@[i]).0@ == self@[i].0 && r@[i].1 == self@[i].1,
    {
        let n = template_map_len(&self.templates);
        let mut out: Vec<(String, u64)> = Vec::new();
        let mut i: usize = 0;
        while i < n
            invariant
                n == self@.len(),
                i <= n,
                out@.len() == i,
                forall|j: int| 0 <= j < i ==> (#[trigger] out@[j]).0@ == self@[j].0 && out@[j].1 == self@[j].1,
            decreases n - i,
        {
            let entry = template_map_get_index(&self.templates, i);
            out.push(entry);
            i = i + 1;
        }
        out
    }

    /// The number of templates.
    pub fn len(&self) -> (r: usize)
        ensures
            r == self@.len(),
    {
        template_map_len(&self.templates)
    }

    /// Whether there are no templates.
    pub fn is_empty(&self) -> (r: bool)
        ensures
            r == (self@.len() == 0),
    {
        template_map_len(&self.templates) == 0
    }
}

impl Default for Templates {
    fn default() -> (r: Templates)
        ensures
            r.wf(),
            r@ == Seq::<(Seq<char>, u64)>::empty(),
    {
        Templates::new()
    }
}

/// What a read gives back of a write: after inserting a handle for a path,
/// the path gives that handle, and every other path gives what it gave
/// before; a new path goes last and an existing one keeps its position.
pub proof fn law_insert_then_get(e: Seq<(Seq<char>, u64)>, path: Seq<char>, handle: u64, other: Seq<char>)
    requires
        unique_paths(e),
    ensures
        lookup(insert_entry(e, path, handle), path) == Some(handle),
        other != path ==> lookup(insert_entry(e, path, handle), other) == lookup(e, other),
        unique_paths(insert_entry(e, path, handle)),
        lookup(e, path) is None ==> insert_entry(e, path, handle).last() == (path, handle),
        lookup(e, path) is Some ==> insert_entry(e, path, handle).len() == e.len(),
{
    let r = insert_entry(e, path, handle);
    match position(e, path) {
        Some(i) => {
            let i0 = choose|i: int| 0 <= i < e.len() && e[i].0 == path;
            lemma_position_unique(e, path, i0);
            assert forall|a: int, b: int| 0 <= a < r.len() && 0 <= b < r.len() && a != b implies #[trigger] r[a].0
                != #[trigger] r[b].0 by {
                assert(r[a].0 == e[a].0);
                assert(r[b].0 == e[b].0);
            }
            lemma_position_unique(r, path, i);
            if other != path {
                if exists|j: int| 0 <= j < e.len() && e[j].0 == other {
                    let j = choose|j: int| 0 <= j < e.len() && e[j].0 == other;
                    lemma_position_unique(e, other, j);
                    lemma_position_unique(r, other, j);
                } else {
                    assert forall|j: int| 0 <= j < r.len() implies #[trigger] r[j].0 != other by {
                        assert(r[j].0 == e[j].0 || j == i);
                    }
                    lemma_absent(r, other);
                }
            }
        },
        None => {
            assert forall|a: int, b: int| 0 <= a < r.len() && 0 <= b < r.len() && a != b implies #[trigger] r[a].0
                != #[trigger] r[b].0 by {
                if a < e.len() {
                    assert(r[a] == e[a]);
                }
                if b < e.len() {
                    assert(r[b] == e[b]);
                }
            }
            lemma_position_unique(r, path, e.len() as int);
            if other != path {
                if exists|j: int| 0 <= j < e.len() && e[j].0 == other {
                    let j = choose|j: int| 0 <= j < e.len() && e[j].0 == other;
                    lemma_position_unique(e, other, j);
                    lemma_position_unique(r, other, j);
                } else {
                    assert forall|j: int| 0 <= j < r.len() implies #[trigger] r[j].0 != other by {
                        if j < e.len() {
                            assert(r[j] == e[j]);
                        }
                    }
                    lemma_absent(r, other);
                }
            }
        },
    }
}

/// After removing a path, it gives nothing, every other path gives what it
/// gave before, and the remaining templates keep their insertion order.
pub proof fn law_remove_then_get(e: Seq<(Seq<char>, u64)>, path: Seq<char>, other: Seq<char>)
    requires
        unique_paths(e),
    ensures
        lookup(remove_entry(e, path), path) is None,
        other != path ==> lookup(remove_entry(e, path), other) == lookup(e, other),
        unique_paths(remove_entry(e, path)),
        remove_entry(e, path) == e.filter(|x: (Seq<char>, u64)| x.0 != path),
{
    let r = remove_entry(e, path);
    match position(e, path) {
        Some(i) => {
            let i0 = choose|i: int| 0 <= i < e.len() && e[i].0 == path;
            lemma_position_unique(e, path, i0);
            assert forall|a: int, b: int| 0 <= a < r.len() && 0 <= b < r.len() && a != b implies #[trigger] r[a].0
                != #[trigger] r[b].0 by {
                let oa = if a < i { a } else { a + 1 };
                let ob = if b < i { b } else { b + 1 };
                assert(r[a] == e[oa]);
                assert(r[b] == e[ob]);
            }
            assert forall|j: int| 0 <= j < r.len() implies #[trigger] r[j].0 != path by {
                let oj = if j < i { j } else { j + 1 };
                assert(r[j] == e[oj]);
            }
            lemma_absent(r, path);
            if other != path {
                if exists|j: int| 0 <= j < e.len() && e[j].0 == other {
                    let j = choose|j: int| 0 <= j < e.len() && e[j].0 == other;
                    lemma_position_unique(e, other, j);
                    let rj = if j < i { j } else { j - 1 };
                    assert(r[rj] == e[j]);
                    lemma_position_unique(r, other, rj);
                } else {
                    assert forall|j: int| 0 <= j < r.len() implies #[trigger] r[j].0 != other by {
                        let oj = if j < i { j } else { j + 1 };
                        assert(r[j] == e[oj]);
                    }
                    lemma_absent(r, other);
                }
            }
            lemma_filter_remove(e, path, i);
        },
        None => {
            assert forall|j: int| 0 <= j < e.len() implies #[trigger] e[j].0 != path by {}
            lemma_absent(e, path);
            lemma_filter_absent(e, path);
        },
    }
}

proof fn lemma_filter_absent(e: Seq<(Seq<char>, u64)>, path: Seq<char>)
    requires
        forall|j: int| 0 <= j < e.len() ==> #[trigger] e[j].0 != path,
    ensures
        e.filter(|x: (Seq<char>, u64)| x.0 != path) == e,
    decreases e.len(),
{
    reveal(Seq::filter);
    if e.len() > 0 {
        lemma_filter_absent(e.drop_last(), path);
        assert(e.drop_last().push(e.last()) =~= e);
    } else {
        assert(e.filter(|x: (Seq<char>, u64)| x.0 != path) =~= e);
    }
}

proof fn lemma_filter_remove(e: Seq<(Seq<char>, u64)>, path: Seq<char>, i: int)
    requires
        0 <= i < e.len(),
        e[i].0 == path,
        forall|j: int| 0 <= j < e.len() && j != i ==> #[trigger] e[j].0 != path,
    ensures
        e.filter(|x: (Seq<char>, u64)| x.0 != path) == e.remove(i),
    decreases e.len(),
{
    reveal(Seq::filter);
    if i == e.len() - 1 {
        assert(e.drop_last() =~= e.remove(i));
        lemma_filter_absent(e.drop_last(), path);
    } else {
        lemma_filter_remove(e.drop_last(), path, i);
        assert(e.remove(i) =~= e.drop_last().remove(i).push(e.last()));
    }
}

} // verus!
