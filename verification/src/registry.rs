//! The bookkeeping of registered prototypes: which handles and ids are
//! registered, their cached trees, which prototypes depend on which, which
//! failed to register, and which are still being loaded.
use vstd::prelude::*;

use std::collections::{HashMap, HashSet};

use crate::templates::{lookup, position, unique_paths};
use crate::tree::proto_tree::ProtoTree;

verus! {

broadcast use vstd::std_specs::hash::group_hash_axioms;

// ---------------------------------------------------------------------------
// A small map from ids to handles
// ---------------------------------------------------------------------------

/// The entries of an id-to-handle list, as text and handle.
pub open spec fn entries_of(v: Seq<(String, u64)>) -> Seq<(Seq<char>, u64)> {
    v.map_values(|e: (String, u64)| (e.0@, e.1))
}

/// The map an entry list stands for.
pub open spec fn entries_map(e: Seq<(Seq<char>, u64)>) -> Map<Seq<char>, u64> {
    Map::new(|k: Seq<char>| lookup(e, k) is Some, |k: Seq<char>| lookup(e, k)->0)
}

proof fn lemma_lookup_at(e: Seq<(Seq<char>, u64)>, k: Seq<char>, i: int)
    requires
        unique_paths(e),
        0 <= i < e.len(),
        e[i].0 == k,
    ensures
        lookup(e, k) == Some(e[i].1),
        position(e, k) == Some(i),
{
    let j = choose|j: int| 0 <= j < e.len() && e[j].0 == k;
    assert(0 <= j < e.len() && e[j].0 == k);
    if j != i {
        assert(e[i].0 != e[j].0);
    }
}

/// The position of the entry with the given id.
fn find_entry(v: &Vec<(String, u64)>, id: &String) -> (r: Option<usize>)
    requires
        unique_paths(entries_of(v@)),
    ensures
        match r {
            Some(i) => i < v@.len() && v@[i as int].0@ == id@ && lookup(entries_of(v@), id@)
                == Some(v@[i as int].1),
            None => lookup(entries_of(v@), id@) is None,
        },
{
    let ghost e = entries_of(v@);
    let mut i: usize = 0;
    while i < v.len()
        invariant
            i <= v@.len(),
            e == entries_of(v@),
            unique_paths(e),
            forall|j: int| 0 <= j < i ==> #[trigger] e[j].0 != id@,
        decreases v@.len() - i,
    {
        let same = v[i].0.eq(id);
        assert(e[i as int].0 == v@[i as int].0@);
        if same {
            proof {
                lemma_lookup_at(e, id@, i as int);
            }
            return Some(i);
        }
        i = i + 1;
    }
    None
}

/// The map after giving `id` the handle `h`.
fn set_entry(v: &mut Vec<(String, u64)>, id: String, h: u64)
    requires
        unique_paths(entries_of(old(v)@)),
    ensures
        unique_paths(entries_of(final(v)@)),
        entries_map(entries_of(final(v)@)) == entries_map(entries_of(old(v)@)).insert(id@, h),
{
    let ghost e0 = entries_of(v@);
    let ghost k = id@;
    match find_entry(v, &id) {
        Some(i) => {
            v.set(i, (id, h));
            let ghost e = entries_of(v@);
            assert(e =~= e0.update(i as int, (k, h)));
            proof {
                assert forall|a: int, b: int|
                    0 <= a < e.len() && 0 <= b < e.len() && a != b implies #[trigger] e[a].0
                    != #[trigger] e[b].0 by {
                    assert(e[a].0 == e0[a].0);
                    assert(e[b].0 == e0[b].0);
                }
                assert forall|x: Seq<char>| #[trigger] lookup(e, x) == if x == k { Some(h) } else { lookup(e0, x) } by {
                    if x == k {
                        lemma_lookup_at(e, x, i as int);
                    } else if exists|j: int| 0 <= j < e0.len() && e0[j].0 == x {
                        let j = choose|j: int| 0 <= j < e0.len() && e0[j].0 == x;
                        lemma_lookup_at(e0, x, j);
                        lemma_lookup_at(e, x, j);
                    } else {
                        assert forall|j: int| 0 <= j < e.len() implies e[j].0 != x by {
                            assert(e[j].0 == e0[j].0 || j == i);
                        }
                    }
                }
                assert(entries_map(e) =~= entries_map(e0).insert(k, h));
            }
        },
        None => {
            v.push((id, h));
            let ghost e = entries_of(v@);
            assert(e =~= e0.push((k, h)));
            proof {
                assert forall|a: int, b: int|
                    0 <= a < e.len() && 0 <= b < e.len() && a != b implies #[trigger] e[a].0
                    != #[trigger] e[b].0 by {
                    if a < e0.len() {
                        assert(e[a] == e0[a]);
                    }
                    if b < e0.len() {
                        assert(e[b] == e0[b]);
                    }
                    if a == e0.len() && b < e0.len() {
                        assert(e0[b].0 != k);
                    }
                    if b == e0.len() && a < e0.len() {
                        assert(e0[a].0 != k);
                    }
                }
                assert forall|x: Seq<char>| #[trigger] lookup(e, x) == if x == k { Some(h) } else { lookup(e0, x) } by {
                    if x == k {
                        lemma_lookup_at(e, x, e0.len() as int);
                    } else if exists|j: int| 0 <= j < e0.len() && e0[j].0 == x {
                        let j = choose|j: int| 0 <= j < e0.len() && e0[j].0 == x;
                        lemma_lookup_at(e0, x, j);
                        lemma_lookup_at(e, x, j);
                    } else {
                        assert forall|j: int| 0 <= j < e.len() implies e[j].0 != x by {
                            if j < e0.len() {
                                assert(e[j] == e0[j]);
                            }
                        }
                    }
                }
                assert(entries_map(e) =~= entries_map(e0).insert(k, h));
            }
        },
    }
}

/// Remove the entry of `id`, giving back its handle.
fn remove_entry(v: &mut Vec<(String, u64)>, id: &String) -> (r: Option<u64>)
    requires
        unique_paths(entries_of(old(v)@)),
    ensures
        unique_paths(entries_of(final(v)@)),
        r == entries_map(entries_of(old(v)@)).get(id@),
        entries_map(entries_of(final(v)@)) == entries_map(entries_of(old(v)@)).remove(id@),
{
    let ghost e0 = entries_of(v@);
    let ghost k = id@;
    match find_entry(v, id) {
        Some(i) => {
            let (_, h) = v.remove(i);
            let ghost e = entries_of(v@);
            assert(e =~= e0.remove(i as int));
            proof {
                assert forall|a: int, b: int|
                    0 <= a < e.len() && 0 <= b < e.len() && a != b implies #[trigger] e[a].0
                    != #[trigger] e[b].0 by {
                    let oa = if a < i { a } else { a + 1 };
                    let ob = if b < i { b } else { b + 1 };
                    assert(e[a] == e0[oa]);
                    assert(e[b] == e0[ob]);
                }
                assert forall|x: Seq<char>| #[trigger] lookup(e, x) == if x == k { None } else { lookup(e0, x) } by {
                    if exists|j: int| 0 <= j < e0.len() && e0[j].0 == x {
                        let j = choose|j: int| 0 <= j < e0.len() && e0[j].0 == x;
                        lemma_lookup_at(e0, x, j);
                        if x == k {
                            assert(e0[i as int].0 == k);
                            if j != i {
                                assert(e0[i as int].0 != e0[j].0);
                            }
                            assert forall|t: int| 0 <= t < e.len() implies e[t].0 != x by {
                                let ot = if t < i { t } else { t + 1 };
                                assert(e[t] == e0[ot]);
                            }
                        } else {
                            let nj = if j < i { j } else { j - 1 };
                            assert(e[nj] == e0[j]);
                            lemma_lookup_at(e, x, nj);
                        }
                    } else {
                        assert forall|t: int| 0 <= t < e.len() implies e[t].0 != x by {
                            let ot = if t < i { t } else { t + 1 };
                            assert(e[t] == e0[ot]);
                        }
                    }
                }
                assert(entries_map(e) =~= entries_map(e0).remove(k));
            }
            Some(h)
        },
        None => {
            proof {
                assert(entries_map(e0).remove(k) =~= entries_map(e0));
            }
            None
        },
    }
}

// ---------------------------------------------------------------------------
// The load queue
// ---------------------------------------------------------------------------

/// The prototypes currently being loaded, by id and by handle.
pub struct LoadQueue {
    handles: Vec<(String, u64)>,
    ids: HashMap<u64, String>,
}

/// The mathematical value of a load queue.
pub struct LoadQueueView {
    /// The handle queued for each id.
    pub handles: Map<Seq<char>, u64>,
    /// The id queued for each handle.
    pub ids: Map<u64, Seq<char>>,
}

pub open spec fn text_values(m: Map<u64, String>) -> Map<u64, Seq<char>> {
    Map::new(|k: u64| m.contains_key(k), |k: u64| m[k]@)
}

impl View for LoadQueue {
    type V = LoadQueueView;

    closed spec fn view(&self) -> LoadQueueView {
        LoadQueueView { handles: entries_map(entries_of(self.handles@)), ids: text_values(self.ids@) }
    }
}

/// Queueing: the id now maps to the handle and the handle to the id.
pub open spec fn queue_spec(q: LoadQueueView, id: Seq<char>, handle: u64) -> LoadQueueView {
    LoadQueueView { handles: q.handles.insert(id, handle), ids: q.ids.insert(handle, id) }
}

/// Dequeueing: the id's handle, if it had one, leaves both maps.
pub open spec fn deque_spec(q: LoadQueueView, id: Seq<char>) -> (LoadQueueView, Option<u64>) {
    if q.handles.contains_key(id) {
        let h = q.handles[id];
        (LoadQueueView { handles: q.handles.remove(id), ids: q.ids.remove(h) }, Some(h))
    } else {
        (q, None)
    }
}

impl LoadQueue {
    pub closed spec fn wf(&self) -> bool {
        unique_paths(entries_of(self.handles@))
    }

    /// An empty queue.
    pub fn new() -> (r: LoadQueue)
        ensures
            r.wf(),
            r@.handles == Map::<Seq<char>, u64>::empty(),
            r@.ids == Map::<u64, Seq<char>>::empty(),
    {
        let r = LoadQueue { handles: Vec::new(), ids: HashMap::new() };
        assert(r@.handles =~= Map::<Seq<char>, u64>::empty());
        assert(r@.ids =~= Map::<u64, Seq<char>>::empty());
        r
    }

    /// Mark the prototype with the given id and handle as being loaded.
    pub fn queue(&mut self, id: String, handle: u64)
        requires
            old(self).wf(),
        ensures
            final(self).wf(),
            final(self)@ == queue_spec(old(self)@, id@, handle),
    {
        let ghost k = id@;
        let id2 = id.clone();
        set_entry(&mut self.handles, id, handle);
        let ghost old_ids = self.ids@;
        self.ids.insert(handle, id2);
        assert(text_values(self.ids@) =~= text_values(old_ids).insert(handle, k));
    }

    /// Mark the prototype with the given id as loaded, giving back its
    /// handle if it was being loaded.
    pub fn deque(&mut self, id: &String) -> (r: Option<u64>)
        requires
            old(self).wf(),
        ensures
            final(self).wf(),
            (final(self)@, r) == deque_spec(old(self)@, id@),
    {
        let ghost old_ids = self.ids@;
        match remove_entry(&mut self.handles, id) {
            Some(handle) => {
                self.ids.remove(&handle);
                assert(text_values(self.ids@) =~= text_values(old_ids).remove(handle));
                Some(handle)
            },
            None => {
                assert(self@.handles =~= old(self)@.handles);
                None
            },
        }
    }

    /// Whether the prototype with the given id is being loaded.
    pub fn is_queued(&self, id: &String) -> (r: bool)
        requires
            self.wf(),
        ensures
            r == self@.handles.contains_key(id@),
    {
        find_entry(&self.handles, id).is_some()
    }

    /// Whether the prototype with the given handle is being loaded.
    pub fn is_queued_handle(&self, handle: u64) -> (r: bool)
        ensures
            r == self@.ids.contains_key(handle),
    {
        self.ids.contains_key(&handle)
    }

    /// A copy of this queue.
    pub fn duplicate(&self) -> (r: LoadQueue)
        requires
            self.wf(),
        ensures
            r.wf(),
            r@ == self@,
    {
        let mut handles: Vec<(String, u64)> = Vec::new();
        let mut i: usize = 0;
        while i < self.handles.len()
            invariant
                i <= self.handles@.len(),
                entries_of(handles@) == entries_of(self.handles@).take(i as int),
            decreases self.handles@.len() - i,
        {
            let k = self.handles[i].0.clone();
            let h = self.handles[i].1;
            let ghost before = handles@;
            handles.push((k, h));
            assert(handles@ == before.push((k, h)));
            assert(entries_of(handles@) =~= entries_of(before).push((k@, h)));
            assert(entries_of(self.handles@)[i as int] == (k@, h));
            assert(entries_of(handles@) =~= entries_of(self.handles@).take(i + 1));
            i = i + 1;
        }
        assert(entries_of(self.handles@).take(i as int) =~= entries_of(self.handles@));
        let ids = self.ids.clone();
        LoadQueue { handles, ids }
    }
}

impl Default for LoadQueue {
    fn default() -> (r: LoadQueue)
        ensures
            r.wf(),
            r@.handles == Map::<Seq<char>, u64>::empty(),
            r@.ids == Map::<u64, Seq<char>>::empty(),
    {
        LoadQueue::new()
    }
}

/// A prototype that was queued and then dequeued by its id is given back
/// with its handle and is no longer queued, by id or by handle.
pub proof fn law_queue_then_deque(q: LoadQueueView, id: Seq<char>, handle: u64)
    ensures
        deque_spec(queue_spec(q, id, handle), id).1 == Some(handle),
        !deque_spec(queue_spec(q, id, handle), id).0.handles.contains_key(id),
        !deque_spec(queue_spec(q, id, handle), id).0.ids.contains_key(handle),
{
}


// ---------------------------------------------------------------------------
// The registry
// ---------------------------------------------------------------------------

/// Why a prototype cannot be registered.
#[derive(Debug, Clone, Copy, PartialEq, Eq)]
pub enum RegisterConflict {
    /// The prototype's handle is already registered.
    HandleRegistered,
    /// Another prototype with the same id is registered under the given
    /// handle.
    IdRegistered { existing: u64 },
}

/// Tracks registered prototypes: their ids and handles, cached trees,
/// dependents, load states and failures.
pub struct ProtoRegistry {
    /// The id of each registered handle.
    ids: HashMap<u64, String>,
    /// The handle of each registered id.
    handles: Vec<(String, u64)>,
    /// The cached tree of each prototype.
    trees: HashMap<u64, ProtoTree>,
    /// The prototypes that depend on each prototype.
    dependents: HashMap<u64, Vec<u64>>,
    /// The prototypes currently being loaded.
    load_queue: LoadQueue,
    /// The prototypes that failed to be registered.
    failed: HashSet<u64>,
}

/// The mathematical value of a registry.
pub struct RegistryView {
    pub ids: Map<u64, Seq<char>>,
    pub handles: Map<Seq<char>, u64>,
    pub trees: Map<u64, crate::tree::proto_tree::TreeModel>,
    pub dependents: Map<u64, Seq<u64>>,
    pub queue: LoadQueueView,
    pub failed: Set<u64>,
}

pub open spec fn tree_values(m: Map<u64, ProtoTree>) -> Map<u64, crate::tree::proto_tree::TreeModel> {
    Map::new(|k: u64| m.contains_key(k), |k: u64| m[k]@)
}

pub open spec fn seq_values(m: Map<u64, Vec<u64>>) -> Map<u64, Seq<u64>> {
    Map::new(|k: u64| m.contains_key(k), |k: u64| m[k]@)
}

/// The prototypes recorded as depending on `h`, in the order they were
/// recorded.
pub open spec fn dependents_of(r: RegistryView, h: u64) -> Seq<u64> {
    if r.dependents.contains_key(h) {
        r.dependents[h]
    } else {
        Seq::empty()
    }
}

/// A list of dependents with one more: added last unless already there.
pub open spec fn with_dependent(s: Seq<u64>, d: u64) -> Seq<u64> {
    if s.contains(d) {
        s
    } else {
        s.push(d)
    }
}

impl View for ProtoRegistry {
    type V = RegistryView;

    closed spec fn view(&self) -> RegistryView {
        RegistryView {
            ids: text_values(self.ids@),
            handles: entries_map(entries_of(self.handles@)),
            trees: tree_values(self.trees@),
            dependents: seq_values(self.dependents@),
            queue: self.load_queue@,
            failed: self.failed@,
        }
    }
}

/// What registering checks first (unless the prototype is being reloaded):
/// its handle must not be registered yet, and its id must not belong to
/// another handle; an id that is already registered marks the handle as
/// failed.
pub open spec fn register_check(r: RegistryView, handle: u64, id: Seq<char>, is_reload: bool) -> (
    RegistryView,
    Result<(), RegisterConflict>,
) {
    if is_reload {
        (r, Ok(()))
    } else if r.ids.contains_key(handle) {
        (r, Err(RegisterConflict::HandleRegistered))
    } else if r.handles.contains_key(id) {
        let r2 = RegistryView { failed: r.failed.insert(handle), ..r };
        if r.handles[id] != handle {
            (r2, Err(RegisterConflict::IdRegistered { existing: r.handles[id] }))
        } else {
            (r2, Ok(()))
        }
    } else {
        (r, Ok(()))
    }
}

/// What registering records once the tree is built: the handle's id, the
/// id's handle, that the handle has not failed, and that it is loaded.
pub open spec fn register_record(r: RegistryView, handle: u64, id: Seq<char>) -> RegistryView {
    RegistryView {
        ids: r.ids.insert(handle, id),
        handles: r.handles.insert(id, handle),
        failed: r.failed.remove(handle),
        queue: deque_spec(r.queue, id).0,
        ..r
    }
}

/// What unregistering removes: the handle's id, that id's handle, the
/// failure mark, the cached tree and the dependents of the handle.
pub open spec fn unregister_spec(r: RegistryView, handle: u64) -> RegistryView {
    if r.ids.contains_key(handle) {
        RegistryView {
            ids: r.ids.remove(handle),
            handles: r.handles.remove(r.ids[handle]),
            failed: r.failed.remove(handle),
            trees: r.trees.remove(handle),
            dependents: r.dependents.remove(handle),
            ..r
        }
    } else {
        r
    }
}

impl ProtoRegistry {
    pub closed spec fn wf(&self) -> bool {
        &&& unique_paths(entries_of(self.handles@))
        &&& self.load_queue.wf()
        &&& forall|k: u64| #[trigger]
            self.dependents@.contains_key(k) ==> self.dependents@[k]@.no_duplicates()
    }

    /// An empty registry.
    pub fn new() -> (r: ProtoRegistry)
        ensures
            r.wf(),
            r@.ids == Map::<u64, Seq<char>>::empty(),
            r@.handles == Map::<Seq<char>, u64>::empty(),
            r@.trees == Map::<u64, crate::tree::proto_tree::TreeModel>::empty(),
            r@.dependents == Map::<u64, Seq<u64>>::empty(),
            r@.queue.handles == Map::<Seq<char>, u64>::empty(),
            r@.queue.ids == Map::<u64, Seq<char>>::empty(),
            r@.failed == Set::<u64>::empty(),
    {
        let r = ProtoRegistry {
            ids: HashMap::new(),
            handles: Vec::new(),
            trees: HashMap::new(),
            dependents: HashMap::new(),
            load_queue: LoadQueue::new(),
            failed: HashSet::new(),
        };
        assert(r@.ids =~= Map::<u64, Seq<char>>::empty());
        assert(r@.handles =~= Map::<Seq<char>, u64>::empty());
        assert(r@.trees =~= Map::<u64, crate::tree::proto_tree::TreeModel>::empty());
        assert(r@.dependents =~= Map::<u64, Seq<u64>>::empty());
        r
    }

    /// Whether a prototype with the given id is registered.
    pub fn contains(&self, id: &String) -> (r: bool)
        requires
            self.wf(),
        ensures
            r == self@.handles.contains_key(id@),
    {
        find_entry(&self.handles, id).is_some()
    }

    /// Whether a prototype with the given handle is registered.
    pub fn contains_handle(&self, handle: u64) -> (r: bool)
        ensures
            r == self@.ids.contains_key(handle),
    {
        self.ids.contains_key(&handle)
    }

    /// Whether the prototype with the given handle failed to register.
    pub fn contains_failed_handle(&self, handle: u64) -> (r: bool)
        ensures
            r == self@.failed.contains(handle),
    {
        self.failed.contains(&handle)
    }

    /// Record `dependency` as depending on `dependent` (after those already
    /// recorded, and once).
    pub fn add_dependent(&mut self, dependent: u64, dependency: u64)
        requires
            old(self).wf(),
        ensures
            final(self).wf(),
            final(self)@ == (RegistryView {
                dependents: old(self)@.dependents.insert(
                    dependent,
                    with_dependent(dependents_of(old(self)@, dependent), dependency),
                ),
                ..old(self)@
            }),
    {
        let ghost old_v = self@;
        let ghost old_deps = self.dependents@;
        let mut list = match self.dependents.remove(&dependent) {
            Some(list) => list,
            None => Vec::new(),
        };
        let ghost before = list@;
        assert(before == dependents_of(old_v, dependent)) by {
            if !old_deps.contains_key(dependent) {
                assert(before =~= Seq::<u64>::empty());
            }
        }
        let mut found = false;
        let mut i: usize = 0;
        while i < list.len()
            invariant
                i <= list@.len(),
                found == exists|j: int| 0 <= j < i && list@[j] == dependency,
            decreases list@.len() - i,
        {
            if list[i] == dependency {
                found = true;
            }
            i = i + 1;
        }
        if !found {
            list.push(dependency);
        }
        proof {
            if found {
                let j = choose|j: int| 0 <= j < before.len() && before[j] == dependency;
                assert(before.contains(dependency));
            } else {
                assert(!before.contains(dependency));
            }
            assert(list@ == with_dependent(before, dependency));
            if old_deps.contains_key(dependent) {
                assert(old_deps[dependent]@.no_duplicates());
            }
            if !found {
                assert forall|a: int, b: int| 0 <= a < list@.len() && 0 <= b < list@.len() && a != b implies list@[a] != list@[b] by {
                    if a < before.len() && b < before.len() {
                        assert(before.no_duplicates());
                    } else if a < before.len() {
                        assert(before.contains(before[a]));
                    } else {
                        assert(before.contains(before[b]));
                    }
                }
            }
        }
        self.dependents.insert(dependent, list);
        proof {
            assert(seq_values(self.dependents@) =~= seq_values(old_deps).insert(
                dependent,
                with_dependent(dependents_of(old_v, dependent), dependency),
            ));
        }
    }

    /// Cache the tree of the prototype with the given handle, giving back
    /// the tree it had.
    pub fn insert_tree(&mut self, handle: u64, tree: ProtoTree) -> (r: Option<ProtoTree>)
        requires
            old(self).wf(),
        ensures
            final(self).wf(),
            final(self)@ == (RegistryView { trees: old(self)@.trees.insert(handle, tree@), ..old(self)@ }),
            match r {
                Some(t) => old(self)@.trees.contains_key(handle) && t@ == old(self)@.trees[handle],
                None => !old(self)@.trees.contains_key(handle),
            },
    {
        let ghost t = tree@;
        let ghost old_trees = self.trees@;
        let r = self.trees.insert(handle, tree);
        assert(tree_values(self.trees@) =~= tree_values(old_trees).insert(handle, t));
        r
    }

    /// The cached tree of the prototype with the given handle.
    pub fn get_tree(&self, handle: u64) -> (r: Option<&ProtoTree>)
        ensures
            match r {
                Some(t) => self@.trees.contains_key(handle) && t@ == self@.trees[handle],
                None => !self@.trees.contains_key(handle),
            },
    {
        self.trees.get(&handle)
    }

    /// The cached tree of the prototype with the given id.
    pub fn get_tree_by_id(&self, id: &String) -> (r: Option<&ProtoTree>)
        requires
            self.wf(),
        ensures
            match r {
                Some(t) => self@.handles.contains_key(id@) && self@.trees.contains_key(
                    self@.handles[id@],
                ) && t@ == self@.trees[self@.handles[id@]],
                None => !self@.handles.contains_key(id@) || !self@.trees.contains_key(
                    self@.handles[id@],
                ),
            },
    {
        match find_entry(&self.handles, id) {
            Some(i) => self.get_tree(self.handles[i].1),
            None => None,
        }
    }

    /// The queue of prototypes being loaded.
    pub fn load_queue(&self) -> (r: &LoadQueue)
        requires
            self.wf(),
        ensures
            r@ == self@.queue,
            r.wf(),
    {
        &self.load_queue
    }

    /// Mark the prototype with the given id and handle as being loaded.
    pub fn queue_load(&mut self, id: String, handle: u64)
        requires
            old(self).wf(),
        ensures
            final(self).wf(),
            final(self)@ == (RegistryView { queue: queue_spec(old(self)@.queue, id@, handle), ..old(self)@ }),
    {
        self.load_queue.queue(id, handle);
    }

    /// The checks made before building the tree of a prototype being
    /// registered (skipped when it is being reloaded).
    pub fn check_register(&mut self, handle: u64, id: &String, is_reload: bool) -> (r: Result<(), RegisterConflict>)
        requires
            old(self).wf(),
        ensures
            final(self).wf(),
            (final(self)@, r) == register_check(old(self)@, handle, id@, is_reload),
    {
        if is_reload {
            return Ok(());
        }
        if self.ids.contains_key(&handle) {
            return Err(RegisterConflict::HandleRegistered);
        }
        match find_entry(&self.handles, id) {
            Some(i) => {
                let existing = self.handles[i].1;
                self.failed.insert(handle);
                if existing != handle {
                    return Err(RegisterConflict::IdRegistered { existing });
                }
                Ok(())
            },
            None => Ok(()),
        }
    }

    /// Record a prototype whose tree was built: its id and handle, that it
    /// has not failed, and that it is no longer being loaded.
    pub fn record_register(&mut self, handle: u64, id: String)
        requires
            old(self).wf(),
        ensures
            final(self).wf(),
            final(self)@ == register_record(old(self)@, handle, id@),
    {
        let ghost old_ids = self.ids@;
        self.ids.insert(handle, id.clone());
        assert(text_values(self.ids@) =~= text_values(old_ids).insert(handle, id@));
        let id2 = id.clone();
        set_entry(&mut self.handles, id, handle);
        self.failed.remove(&handle);
        self.load_queue.deque(&id2);
    }

    /// Remove a registered prototype, giving back its id and the prototypes
    /// that depend on it (which are to be reloaded), or nothing if it was
    /// not registered.
    pub fn unregister(&mut self, handle: u64) -> (r: Option<(String, Vec<u64>)>)
        requires
            old(self).wf(),
        ensures
            final(self).wf(),
            final(self)@ == unregister_spec(old(self)@, handle),
            match r {
                Some((id, deps)) => {
                    &&& old(self)@.ids.contains_key(handle)
                    &&& id@ == old(self)@.ids[handle]
                    &&& deps@.no_duplicates()
                    &&& deps@ == dependents_of(old(self)@, handle)
                },
                None => !old(self)@.ids.contains_key(handle),
            },
    {
        let ghost old_v = self@;
        let ghost old_ids = self.ids@;
        let ghost old_trees = self.trees@;
        let ghost old_deps = self.dependents@;
        match self.ids.remove(&handle) {
            None => {
                assert(self@ == old_v) by {
                    assert(text_values(self.ids@) =~= text_values(old_ids));
                }
                None
            },
            Some(id) => {
                assert(text_values(self.ids@) =~= text_values(old_ids).remove(handle));
                remove_entry(&mut self.handles, &id);
                self.failed.remove(&handle);
                self.trees.remove(&handle);
                assert(tree_values(self.trees@) =~= tree_values(old_trees).remove(handle));
                let deps = match self.dependents.remove(&handle) {
                    Some(list) => list,
                    None => Vec::new(),
                };
                proof {
                    assert(seq_values(self.dependents@) =~= seq_values(old_deps).remove(handle));
                    if !old_deps.contains_key(handle) {
                        assert(deps@ =~= Seq::<u64>::empty());
                    }
                }
                Some((id, deps))
            },
        }
    }
}

impl Default for ProtoRegistry {
    fn default() -> (r: ProtoRegistry)
        ensures
            r.wf(),
            r@.ids == Map::<u64, Seq<char>>::empty(),
            r@.handles == Map::<Seq<char>, u64>::empty(),
            r@.failed == Set::<u64>::empty(),
    {
        ProtoRegistry::new()
    }
}

/// The registered handles are finitely many.
pub proof fn lemma_registered_finite(r: &ProtoRegistry)
    ensures
        r@.ids.dom().finite(),
{
    vstd::std_specs::hash::axiom_hashmap_view_finite_dom(r.ids);
    assert(r@.ids.dom() =~= r.ids@.dom());
}

/// A prototype that was registered and then unregistered is no longer
/// registered, by handle or by id, and its tree is no longer cached.
pub proof fn law_register_then_unregister(r: RegistryView, handle: u64, id: Seq<char>)
    ensures
        ({
            let after = unregister_spec(register_record(r, handle, id), handle);
            &&& !after.ids.contains_key(handle)
            &&& !after.handles.contains_key(id)
            &&& !after.trees.contains_key(handle)
            &&& !after.failed.contains(handle)
        }),
{
    let reg = register_record(r, handle, id);
    assert(reg.ids.contains_key(handle));
    assert(reg.ids[handle] == id);
}

/// A reload never conflicts, and a successful check of a new prototype
/// changes nothing but (possibly) the failure mark.
pub proof fn law_check_register(r: RegistryView, handle: u64, id: Seq<char>)
    ensures
        register_check(r, handle, id, true) == (r, Ok::<(), RegisterConflict>(())),
        register_check(r, handle, id, false).1 is Err <==> (r.ids.contains_key(handle) || (
        r.handles.contains_key(id) && r.handles[id] != handle)),
{
}

} // verus!
