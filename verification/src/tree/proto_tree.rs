//! The cached tree of one prototype: its own handle, the handles of the
//! templates it inherits, and its children, merged by merge key.
use vstd::prelude::*;

use indexmap::IndexSet;

use crate::indexed::{
    handle_set_clone, handle_set_insert, handle_set_items, handle_set_new, handle_set_to_vec,
};

verus! {

/// A cached tree structure that represents a single prototype.
pub struct ProtoTree {
    /// The stringified ID of this prototype.
    id_str: String,
    /// The asset handle id of this prototype.
    handle: u64,
    /// Whether or not this tree requires an entity to be spawned.
    requires_entity: bool,
    /// The template prototypes, in reverse-application order; the first is
    /// this prototype itself.
    prototypes: IndexSet<u64>,
    /// The merge key of this prototype, for a child that defines one.
    merge_key: Option<String>,
    /// The immediate children of this tree.
    children: Vec<ProtoTree>,
}

/// The mathematical value of a prototype tree.
pub struct TreeModel {
    pub id: Seq<char>,
    pub handle: u64,
    pub requires_entity: bool,
    pub prototypes: Seq<u64>,
    pub merge_key: Option<Seq<char>>,
    pub children: Seq<TreeModel>,
}

impl ProtoTree {
    pub closed spec fn model(self) -> TreeModel
        decreases self,
    {
        TreeModel {
            id: self.id_str@,
            handle: self.handle,
            requires_entity: self.requires_entity,
            prototypes: handle_set_items(self.prototypes),
            merge_key: match self.merge_key {
                Some(k) => Some(k@),
                None => None,
            },
            children: Seq::new(
                self.children@.len(),
                |i: int|
                    {
                        if 0 <= i < self.children@.len() {
                            self.children@[i].model()
                        } else {
                            arbitrary()
                        }
                    },
            ),
        }
    }
}

impl View for ProtoTree {
    type V = TreeModel;

    open spec fn view(&self) -> TreeModel {
        self.model()
    }
}

/// The items of `a` followed by those of `b` that are not already there, in
/// order (what inserting `b` into an insertion-ordered set holding `a` gives).
pub open spec fn extend_unique(a: Seq<u64>, b: Seq<u64>) -> Seq<u64>
    decreases b.len(),
{
    if b.len() == 0 {
        a
    } else {
        let e = extend_unique(a, b.drop_last());
        if e.contains(b.last()) {
            e
        } else {
            e.push(b.last())
        }
    }
}

/// The position of the first child with the given merge key.
pub open spec fn find_merge(children: Seq<TreeModel>, key: Seq<char>) -> Option<int> {
    if exists|i: int|
        0 <= i < children.len() && children[i].merge_key == Some(key) && forall|j: int|
            0 <= j < i ==> children[j].merge_key != Some(key) {
        Some(
            choose|i: int|
                0 <= i < children.len() && children[i].merge_key == Some(key) && forall|j: int|
                    0 <= j < i ==> children[j].merge_key != Some(key),
        )
    } else {
        None
    }
}

/// Appending a child: a child whose merge key is already held by a child is
/// inherited into that child; any other child is added last.
pub open spec fn append_tree(t: TreeModel, c: TreeModel) -> TreeModel
    decreases c, 2int,
{
    match c.merge_key {
        Some(k) => match find_merge(t.children, k) {
            Some(i) => if 0 <= i < t.children.len() {
                TreeModel { children: t.children.update(i, inherit_tree(t.children[i], c)), ..t }
            } else {
                t
            },
            None => TreeModel { children: t.children.push(c), ..t },
        },
        None => TreeModel { children: t.children.push(c), ..t },
    }
}

/// Inheriting a tree: its prototypes are added after ours (without
/// duplicates), it may require an entity, and its children are appended in
/// order.
pub open spec fn inherit_tree(t: TreeModel, u: TreeModel) -> TreeModel
    decreases u, 1int,
{
    append_trees(
        TreeModel {
            prototypes: extend_unique(t.prototypes, u.prototypes),
            requires_entity: t.requires_entity || u.requires_entity,
            ..t
        },
        u.children,
    )
}

/// Appending children in order.
pub open spec fn append_trees(t: TreeModel, cs: Seq<TreeModel>) -> TreeModel
    decreases cs, 0int,
{
    if cs.len() == 0 {
        t
    } else {
        append_tree(append_trees(t, cs.subrange(0, cs.len() - 1)), cs[cs.len() - 1])
    }
}

/// The number of nodes of a tree.
pub open spec fn tree_size(t: TreeModel) -> nat
    decreases t, 1int,
{
    1 + forest_size(t.children)
}

/// The number of nodes of a list of trees.
pub open spec fn forest_size(cs: Seq<TreeModel>) -> nat
    decreases cs, 0int,
{
    if cs.len() == 0 {
        0
    } else {
        forest_size(cs.subrange(0, cs.len() - 1)) + tree_size(cs[cs.len() - 1])
    }
}

pub proof fn lemma_forest_size_concat(a: Seq<TreeModel>, b: Seq<TreeModel>)
    ensures
        forest_size(a + b) == forest_size(a) + forest_size(b),
    decreases b.len(),
{
    if b.len() == 0 {
        assert(a + b =~= a);
    } else {
        let ab = a + b;
        let b0 = b.subrange(0, b.len() - 1);
        assert(ab.subrange(0, ab.len() - 1) =~= a + b0);
        assert(ab[ab.len() - 1] == b[b.len() - 1]);
        lemma_forest_size_concat(a, b0);
    }
}

/// The first tree of a list accounts for its own size.
pub proof fn lemma_forest_size_first(q: Seq<TreeModel>)
    requires
        q.len() > 0,
    ensures
        forest_size(q) == tree_size(q[0]) + forest_size(q.drop_first()),
        forest_size(q.drop_first() + q[0].children) < forest_size(q),
        forest_size(q.drop_first() + q[0].children) + 1 == forest_size(q),
{
    let one = seq![q[0]];
    assert(one + q.drop_first() =~= q);
    lemma_forest_size_concat(one, q.drop_first());
    let e = one.subrange(0, one.len() - 1);
    assert(e =~= Seq::<TreeModel>::empty());
    assert(forest_size(e) == 0);
    assert(one[one.len() - 1] == q[0]);
    assert(forest_size(one) == forest_size(e) + tree_size(one[one.len() - 1]));
    lemma_forest_size_concat(q.drop_first(), q[0].children);
}

proof fn lemma_model_children(t: ProtoTree)
    ensures
        t@.merge_key == (match t.merge_key {
            Some(k) => Some(k@),
            None => None::<Seq<char>>,
        }),
        t@.children.len() == t.children@.len(),
        forall|i: int| 0 <= i < t.children@.len() ==> #[trigger] t@.children[i] == t.children@[i]@,
{
}

impl ProtoTree {
    /// A tree for a prototype with no children and no templates yet.
    pub fn new(handle: u64, merge_key: Option<String>, id: String, requires_entity: bool) -> (r:
        ProtoTree)
        ensures
            r@ == (TreeModel {
                id: id@,
                handle,
                requires_entity,
                prototypes: seq![handle],
                merge_key: match merge_key {
                    Some(k) => Some(k@),
                    None => None,
                },
                children: Seq::empty(),
            }),
    {
        let mut prototypes = handle_set_new();
        handle_set_insert(&mut prototypes, handle);
        assert(handle_set_items(prototypes) =~= seq![handle]);
        let r = ProtoTree {
            id_str: id,
            handle,
            requires_entity,
            prototypes,
            merge_key,
            children: Vec::new(),
        };
        assert(r@.children =~= Seq::<TreeModel>::empty());
        r
    }

    /// The stringified ID of this prototype.
    pub fn id_str(&self) -> (r: &String)
        ensures
            r@ == self@.id,
    {
        &self.id_str
    }

    /// The asset handle id of this prototype.
    pub fn handle(&self) -> (r: u64)
        ensures
            r == self@.handle,
    {
        self.handle
    }

    /// Whether this tree requires an entity to be spawned.
    pub fn requires_entity(&self) -> (r: bool)
        ensures
            r == self@.requires_entity,
    {
        self.requires_entity
    }

    /// The merge key of this tree, if any.
    pub fn merge_key(&self) -> (r: &Option<String>)
        ensures
            match r {
                Some(k) => self@.merge_key == Some(k@),
                None => self@.merge_key is None,
            },
    {
        &self.merge_key
    }

    /// The prototypes of this tree, in reverse-application order.
    pub fn prototypes(&self) -> (r: Vec<u64>)
        ensures
            r@ == self@.prototypes,
    {
        handle_set_to_vec(&self.prototypes)
    }

    /// The immediate children of this tree.
    pub fn children(&self) -> (r: &Vec<ProtoTree>)
        ensures
            r@.len() == self@.children.len(),
            forall|i: int| 0 <= i < r@.len() ==> #[trigger] r@[i]@ == self@.children[i],
    {
        proof {
            lemma_model_children(*self);
        }
        &self.children
    }

    /// A copy of this tree.
    pub fn duplicate(&self) -> (r: ProtoTree)
        ensures
            r@ == self@,
        decreases self@,
    {
        proof {
            lemma_model_children(*self);
        }
        let mut children: Vec<ProtoTree> = Vec::new();
        let mut i: usize = 0;
        while i < self.children.len()
            invariant
                i <= self.children@.len(),
                children@.len() == i,
                self@.children.len() == self.children@.len(),
                forall|j: int|
                    0 <= j < self.children@.len() ==> #[trigger] self@.children[j]
                        == self.children@[j]@,
                forall|j: int| 0 <= j < i ==> #[trigger] children@[j]@ == self@.children[j],
            decreases self.children@.len() - i,
        {
            assert(decreases_to!(self@ => self@.children[i as int]));
            let c = self.children[i].duplicate();
            children.push(c);
            i = i + 1;
        }
        let merge_key = match &self.merge_key {
            Some(k) => Some(k.clone()),
            None => None,
        };
        let r = ProtoTree {
            id_str: self.id_str.clone(),
            handle: self.handle,
            requires_entity: self.requires_entity,
            prototypes: handle_set_clone(&self.prototypes),
            merge_key,
            children,
        };
        proof {
            lemma_model_children(r);
            assert(r@.children =~= self@.children);
        }
        r
    }
}


proof fn lemma_find_merge(children: Seq<TreeModel>, key: Seq<char>, i: int)
    requires
        0 <= i < children.len(),
        children[i].merge_key == Some(key),
        forall|j: int| 0 <= j < i ==> children[j].merge_key != Some(key),
    ensures
        find_merge(children, key) == Some(i),
{
    let c = choose|c: int|
        0 <= c < children.len() && children[c].merge_key == Some(key) && forall|j: int|
            0 <= j < c ==> children[j].merge_key != Some(key);
    assert(0 <= c < children.len() && children[c].merge_key == Some(key) && forall|j: int|
        0 <= j < c ==> children[j].merge_key != Some(key));
    if c < i {
        assert(children[c].merge_key != Some(key));
    }
    if c > i {
        assert(children[i].merge_key != Some(key));
    }
}

impl ProtoTree {
    /// The position of the first child whose merge key is `key`.
    fn find_merge_index(&self, key: &String) -> (r: Option<usize>)
        ensures
            match r {
                Some(i) => i < self@.children.len() && find_merge(self@.children, key@) == Some(
                    i as int,
                ),
                None => find_merge(self@.children, key@) is None,
            },
    {
        proof {
            lemma_model_children(*self);
        }
        let mut i: usize = 0;
        while i < self.children.len()
            invariant
                i <= self.children@.len(),
                self@.children.len() == self.children@.len(),
                forall|j: int|
                    0 <= j < self.children@.len() ==> #[trigger] self@.children[j]
                        == self.children@[j]@,
                forall|j: int| 0 <= j < i ==> self@.children[j].merge_key != Some(key@),
            decreases self.children@.len() - i,
        {
            let child = &self.children[i];
            let found = match &child.merge_key {
                Some(k) => k.eq(key),
                None => false,
            };
            proof {
                lemma_model_children(*child);
                assert(self@.children[i as int] == child@);
                assert(found <==> child@.merge_key == Some(key@));
            }
            if found {
                proof {
                    lemma_find_merge(self@.children, key@, i as int);
                }
                return Some(i);
            }
            i = i + 1;
        }
        None
    }

    /// Append the given tree as a new child of this one: a child with a
    /// merge key that an existing child already has is inherited into that
    /// child instead.
    pub fn append_child(&mut self, tree: ProtoTree)
        ensures
            final(self)@ == append_tree(old(self)@, tree@),
        decreases tree@, 2int,
    {
        proof {
            lemma_model_children(*self);
        }
        let found = match &tree.merge_key {
            Some(k) => self.find_merge_index(k),
            None => None,
        };
        match found {
            Some(i) => {
                let ghost old_children = self.children@;
                let mut child = self.children.remove(i);
                assert(child@ == old(self)@.children[i as int]);
                child.inherit(tree);
                let ghost inherited = child@;
                self.children.insert(i, child);
                assert(self.children@ =~= old_children.update(i as int, self.children@[i as int]));
                proof {
                    lemma_model_children(*self);
                    assert(self@.children =~= old(self)@.children.update(i as int, inherited));
                    assert(self@ =~= append_tree(old(self)@, tree@));
                }
            },
            None => {
                let ghost t = tree@;
                self.children.push(tree);
                proof {
                    lemma_model_children(*self);
                    assert(self@.children =~= old(self)@.children.push(t));
                }
            },
        }
    }

    /// Merge the given tree into this one by inheriting it: its prototypes
    /// follow ours, it may require an entity, and its children are appended.
    pub fn inherit(&mut self, tree: ProtoTree)
        ensures
            final(self)@ == inherit_tree(old(self)@, tree@),
        decreases tree@, 1int,
    {
        let ghost u = tree@;
        proof {
            lemma_model_children(tree);
        }
        let ProtoTree { prototypes, requires_entity, children, .. } = tree;
        let items = handle_set_to_vec(&prototypes);
        let ghost old_protos = handle_set_items(self.prototypes);
        let mut i: usize = 0;
        while i < items.len()
            invariant
                i <= items@.len(),
                items@ == u.prototypes,
                handle_set_items(self.prototypes) == extend_unique(old_protos, items@.take(i as int)),
                self.id_str == old(self).id_str,
                self.handle == old(self).handle,
                self.requires_entity == old(self).requires_entity,
                self.merge_key == old(self).merge_key,
                self.children == old(self).children,
            decreases items@.len() - i,
        {
            assert(items@.take(i + 1).drop_last() =~= items@.take(i as int));
            handle_set_insert(&mut self.prototypes, items[i]);
            i = i + 1;
        }
        assert(items@.take(i as int) =~= u.prototypes);
        self.requires_entity = self.requires_entity || requires_entity;
        let ghost base = self@;
        assert(base == TreeModel {
            prototypes: extend_unique(old(self)@.prototypes, u.prototypes),
            requires_entity: old(self)@.requires_entity || u.requires_entity,
            ..old(self)@
        });
        let mut rest = children;
        let n = rest.len();
        let mut j: usize = 0;
        assert(u.children.take(0) =~= Seq::<TreeModel>::empty());
        #[verifier::loop_isolation(false)]
        while rest.len() > 0
            invariant
                j + rest@.len() == n,
                n == u.children.len(),
                forall|k: int| 0 <= k < rest@.len() ==> #[trigger] rest@[k]@ == u.children[j + k],
                self@ == append_trees(base, u.children.take(j as int)),
            decreases rest@.len(),
        {
            let c = rest.remove(0);
            assert(c@ == u.children[j as int]);
            assert(decreases_to!(u => u.children[j as int]));
            assert(decreases_to!(u => c@));
            self.append_child(c);
            let ghost cs = u.children.take(j + 1);
            assert(cs.subrange(0, cs.len() - 1) =~= u.children.take(j as int));
            assert(cs[cs.len() - 1] == u.children[j as int]);
            j = j + 1;
        }
        assert(u.children.take(j as int) =~= u.children);
    }
}
} // verus!

verus! {

// ---------------------------------------------------------------------------
// Laws
// ---------------------------------------------------------------------------

proof fn lemma_extend_unique(a: Seq<u64>, b: Seq<u64>)
    ensures
        extend_unique(a, b).len() >= a.len(),
        extend_unique(a, b).take(a.len() as int) == a,
        forall|x: u64| #[trigger]
            extend_unique(a, b).contains(x) <==> a.contains(x) || b.contains(x),
        a.no_duplicates() ==> extend_unique(a, b).no_duplicates(),
    decreases b.len(),
{
    if b.len() > 0 {
        let b0 = b.drop_last();
        lemma_extend_unique(a, b0);
        let e = extend_unique(a, b0);
        assert forall|x: u64| b.contains(x) <==> b0.contains(x) || x == b.last() by {
            if b.contains(x) {
                let i = choose|i: int| 0 <= i < b.len() && b[i] == x;
                if i < b.len() - 1 {
                    assert(b0[i] == x);
                }
            }
            if b0.contains(x) {
                let i = choose|i: int| 0 <= i < b0.len() && b0[i] == x;
                assert(b[i] == x);
            }
            if x == b.last() {
                assert(b[b.len() - 1] == x);
            }
        }
        if !e.contains(b.last()) {
            let r = e.push(b.last());
            assert(r.take(a.len() as int) =~= e.take(a.len() as int));
            assert forall|x: u64| r.contains(x) <==> e.contains(x) || x == b.last() by {
                if r.contains(x) {
                    let i = choose|i: int| 0 <= i < r.len() && r[i] == x;
                    if i < e.len() {
                        assert(e[i] == x);
                    }
                }
                if e.contains(x) {
                    let i = choose|i: int| 0 <= i < e.len() && e[i] == x;
                    assert(r[i] == x);
                }
                if x == b.last() {
                    assert(r[r.len() - 1] == x);
                }
            }
        }
    }
}

proof fn lemma_append_tree_keeps(t: TreeModel, c: TreeModel)
    ensures
        append_tree(t, c).id == t.id,
        append_tree(t, c).handle == t.handle,
        append_tree(t, c).requires_entity == t.requires_entity,
        append_tree(t, c).prototypes == t.prototypes,
        append_tree(t, c).merge_key == t.merge_key,
{
    match c.merge_key {
        Some(k) => match find_merge(t.children, k) {
            Some(i) => {},
            None => {},
        },
        None => {},
    }
}

proof fn lemma_append_trees_keeps(t: TreeModel, cs: Seq<TreeModel>)
    ensures
        append_trees(t, cs).id == t.id,
        append_trees(t, cs).handle == t.handle,
        append_trees(t, cs).requires_entity == t.requires_entity,
        append_trees(t, cs).prototypes == t.prototypes,
        append_trees(t, cs).merge_key == t.merge_key,
    decreases cs.len(),
{
    if cs.len() > 0 {
        let prefix = cs.subrange(0, cs.len() - 1);
        lemma_append_trees_keeps(t, prefix);
        lemma_append_tree_keeps(append_trees(t, prefix), cs[cs.len() - 1]);
    }
}

/// Inheriting a tree keeps this tree's own prototypes first and in order
/// (so a tree whose first prototype is itself keeps it first), adds those of
/// the inherited tree that are new, in their order, and never adds one
/// twice; the tree's id, handle and merge key stay, and it requires an
/// entity when either tree does.
pub proof fn law_inherit_prototypes(t: TreeModel, u: TreeModel)
    ensures
        ({
            let r = inherit_tree(t, u);
            &&& r.prototypes == extend_unique(t.prototypes, u.prototypes)
            &&& r.prototypes.len() >= t.prototypes.len()
            &&& r.prototypes.take(t.prototypes.len() as int) == t.prototypes
            &&& forall|x: u64| #[trigger]
                r.prototypes.contains(x) <==> t.prototypes.contains(x) || u.prototypes.contains(x)
            &&& t.prototypes.no_duplicates() ==> r.prototypes.no_duplicates()
            &&& r.id == t.id
            &&& r.handle == t.handle
            &&& r.merge_key == t.merge_key
            &&& r.requires_entity == (t.requires_entity || u.requires_entity)
            &&& t.prototypes.len() > 0 && t.prototypes[0] == t.handle ==> r.prototypes[0]
                == r.handle
        }),
{
    let base = TreeModel {
        prototypes: extend_unique(t.prototypes, u.prototypes),
        requires_entity: t.requires_entity || u.requires_entity,
        ..t
    };
    lemma_append_trees_keeps(base, u.children);
    lemma_extend_unique(t.prototypes, u.prototypes);
    let r = extend_unique(t.prototypes, u.prototypes);
    if t.prototypes.len() > 0 {
        assert(r.take(t.prototypes.len() as int)[0] == r[0]);
    }
}

/// Appending a child adds it last unless a child already holds its merge
/// key, in which case that child inherits it and the number of children
/// stays; the tree's own data is unchanged either way.
pub proof fn law_append_child(t: TreeModel, c: TreeModel)
    ensures
        ({
            let r = append_tree(t, c);
            &&& r.id == t.id
            &&& r.handle == t.handle
            &&& r.requires_entity == t.requires_entity
            &&& r.prototypes == t.prototypes
            &&& r.merge_key == t.merge_key
            &&& match c.merge_key {
                Some(k) => match find_merge(t.children, k) {
                    Some(i) => r.children.len() == t.children.len() && r.children[i]
                        == inherit_tree(t.children[i], c) && forall|j: int|
                        0 <= j < t.children.len() && j != i ==> r.children[j] == t.children[j],
                    None => r.children == t.children.push(c),
                },
                None => r.children == t.children.push(c),
            }
        }),
{
    match c.merge_key {
        Some(k) => match find_merge(t.children, k) {
            Some(i) => {
                let w = choose|w: int|
                    0 <= w < t.children.len() && t.children[w].merge_key == Some(k) && forall|j: int|
                        0 <= j < w ==> t.children[j].merge_key != Some(k);
                assert(0 <= i < t.children.len());
            },
            None => {},
        },
        None => {},
    }
}

/// No two children hold the same merge key.
pub open spec fn merge_keys_unique(children: Seq<TreeModel>) -> bool {
    forall|i: int, j: int|
        0 <= i < children.len() && 0 <= j < children.len() && i != j && (#[trigger] children[i]).merge_key
            is Some ==> children[i].merge_key != (#[trigger] children[j]).merge_key
}

/// Among children with unique merge keys, the search for a key finds the
/// child that holds it.
proof fn lemma_unique_find(children: Seq<TreeModel>, k: Seq<char>, i: int)
    requires
        merge_keys_unique(children),
        0 <= i < children.len(),
        children[i].merge_key == Some(k),
    ensures
        find_merge(children, k) == Some(i),
{
    assert forall|j: int| 0 <= j < i implies children[j].merge_key != Some(k) by {
        assert(children[i].merge_key != children[j].merge_key);
    }
    lemma_find_merge(children, k, i);
}

/// Every child with a merge key is the one the search for that key finds.
proof fn lemma_unique_finds_all(children: Seq<TreeModel>)
    requires
        merge_keys_unique(children),
    ensures
        forall|i: int|
            0 <= i < children.len() && (#[trigger] children[i]).merge_key is Some ==> find_merge(
                children,
                children[i].merge_key->0,
            ) == Some(i),
{
    assert forall|i: int|
        0 <= i < children.len() && (#[trigger] children[i]).merge_key is Some implies find_merge(
        children,
        children[i].merge_key->0,
    ) == Some(i) by {
        lemma_unique_find(children, children[i].merge_key->0, i);
    }
}

proof fn lemma_append_tree_unique(t: TreeModel, c: TreeModel)
    requires
        merge_keys_unique(t.children),
    ensures
        merge_keys_unique(append_tree(t, c).children),
{
    let r = append_tree(t, c);
    match c.merge_key {
        Some(k) => match find_merge(t.children, k) {
            Some(i) => {
                let w = choose|w: int|
                    0 <= w < t.children.len() && t.children[w].merge_key == Some(k) && forall|j: int|
                        0 <= j < w ==> t.children[j].merge_key != Some(k);
                assert(0 <= i < t.children.len());
                law_inherit_prototypes(t.children[i], c);
                assert forall|x: int| 0 <= x < r.children.len() implies (#[trigger] r.children[x]).merge_key
                    == t.children[x].merge_key by {}
            },
            None => {
                assert forall|x: int| 0 <= x < t.children.len() implies (#[trigger] t.children[x]).merge_key
                    != Some(k) by {
                    if t.children[x].merge_key == Some(k) {
                        lemma_unique_find(t.children, k, x);
                    }
                }
                assert(r.children == t.children.push(c));
                assert forall|i: int, j: int|
                    0 <= i < r.children.len() && 0 <= j < r.children.len() && i != j && (
                    #[trigger] r.children[i]).merge_key is Some implies r.children[i].merge_key
                    != (#[trigger] r.children[j]).merge_key by {
                    if i < t.children.len() && j < t.children.len() {
                        assert(t.children[i].merge_key != t.children[j].merge_key);
                    } else if i == t.children.len() {
                        assert(t.children[j].merge_key != Some(k));
                    } else {
                        assert(t.children[i].merge_key != Some(k));
                    }
                }
            },
        },
        None => {
            assert(r.children == t.children.push(c));
            assert forall|i: int, j: int|
                0 <= i < r.children.len() && 0 <= j < r.children.len() && i != j && (
                #[trigger] r.children[i]).merge_key is Some implies r.children[i].merge_key
                != (#[trigger] r.children[j]).merge_key by {
                if i < t.children.len() && j < t.children.len() {
                    assert(t.children[i].merge_key != t.children[j].merge_key);
                }
            }
        },
    }
}

proof fn lemma_append_trees_unique(t: TreeModel, cs: Seq<TreeModel>)
    requires
        merge_keys_unique(t.children),
    ensures
        merge_keys_unique(append_trees(t, cs).children),
    decreases cs.len(),
{
    if cs.len() > 0 {
        let prefix = cs.subrange(0, cs.len() - 1);
        lemma_append_trees_unique(t, prefix);
        lemma_append_tree_unique(append_trees(t, prefix), cs[cs.len() - 1]);
    }
}

/// Appending a child keeps the merge keys of the children unique, and the
/// search for each key then finds the one child that holds it (so a merge
/// key always names one child, as a map from key to child would).
pub proof fn law_append_child_keeps_keys_unique(t: TreeModel, c: TreeModel)
    requires
        merge_keys_unique(t.children),
    ensures
        merge_keys_unique(append_tree(t, c).children),
        forall|i: int|
            0 <= i < append_tree(t, c).children.len() && (#[trigger] append_tree(
                t,
                c,
            ).children[i]).merge_key is Some ==> find_merge(
                append_tree(t, c).children,
                append_tree(t, c).children[i].merge_key->0,
            ) == Some(i),
{
    lemma_append_tree_unique(t, c);
    lemma_unique_finds_all(append_tree(t, c).children);
}

/// Inheriting a tree keeps the merge keys of the children unique.
pub proof fn law_inherit_keeps_keys_unique(t: TreeModel, u: TreeModel)
    requires
        merge_keys_unique(t.children),
    ensures
        merge_keys_unique(inherit_tree(t, u).children),
{
    let base = TreeModel {
        prototypes: extend_unique(t.prototypes, u.prototypes),
        requires_entity: t.requires_entity || u.requires_entity,
        ..t
    };
    assert(base.children == t.children);
    lemma_append_trees_unique(base, u.children);
}

/// One change made to a prototype tree: appending a child or inheriting a
/// tree.
pub enum TreeOp {
    Append(TreeModel),
    Inherit(TreeModel),
}

/// The tree after the changes in order.
pub open spec fn apply_tree_ops(t: TreeModel, ops: Seq<TreeOp>) -> TreeModel
    decreases ops.len(),
{
    if ops.len() == 0 {
        t
    } else {
        let prev = apply_tree_ops(t, ops.drop_last());
        match ops.last() {
            TreeOp::Append(c) => append_tree(prev, c),
            TreeOp::Inherit(u) => inherit_tree(prev, u),
        }
    }
}

/// Every tree made by `ProtoTree::new` (which has no children) and then
/// any appends and inherits, in any order, has children with unique merge
/// keys, and the search for each key finds the one child that holds it.
pub proof fn law_built_trees_keep_keys_unique(t: TreeModel, ops: Seq<TreeOp>)
    requires
        t.children.len() == 0,
    ensures
        merge_keys_unique(apply_tree_ops(t, ops).children),
        forall|i: int|
            0 <= i < apply_tree_ops(t, ops).children.len() && (#[trigger] apply_tree_ops(
                t,
                ops,
            ).children[i]).merge_key is Some ==> find_merge(
                apply_tree_ops(t, ops).children,
                apply_tree_ops(t, ops).children[i].merge_key->0,
            ) == Some(i),
    decreases ops.len(),
{
    if ops.len() > 0 {
        law_built_trees_keep_keys_unique(t, ops.drop_last());
        let prev = apply_tree_ops(t, ops.drop_last());
        match ops.last() {
            TreeOp::Append(c) => law_append_child_keeps_keys_unique(prev, c),
            TreeOp::Inherit(u) => law_inherit_keeps_keys_unique(prev, u),
        }
    }
    lemma_unique_finds_all(apply_tree_ops(t, ops).children);
}

/// Appending children that have no merge key adds them after the existing
/// children, in their order; the tree's own data stays.
pub proof fn law_append_trees_in_order(t: TreeModel, cs: Seq<TreeModel>)
    requires
        forall|i: int| 0 <= i < cs.len() ==> (#[trigger] cs[i]).merge_key is None,
    ensures
        append_trees(t, cs).children == t.children + cs,
        append_trees(t, cs).handle == t.handle,
        append_trees(t, cs).prototypes == t.prototypes,
    decreases cs.len(),
{
    lemma_append_trees_keeps(t, cs);
    if cs.len() > 0 {
        let prefix = cs.subrange(0, cs.len() - 1);
        assert forall|i: int| 0 <= i < prefix.len() implies (#[trigger] prefix[i]).merge_key is None by {
            assert(prefix[i] == cs[i]);
        }
        law_append_trees_in_order(t, prefix);
        let last = cs[cs.len() - 1];
        assert(last.merge_key is None);
        let mid = append_trees(t, prefix);
        assert(append_trees(t, cs) == append_tree(mid, last));
        assert(append_tree(mid, last).children == mid.children.push(last));
        assert((t.children + prefix).push(last) =~= t.children + cs);
    } else {
        assert(t.children + cs =~= t.children);
    }
}

/// Inheriting a tree appends its children in their order: when they have
/// no merge keys, the children become ours followed by its, in order.
pub proof fn law_inherit_appends_children(t: TreeModel, u: TreeModel)
    requires
        forall|i: int| 0 <= i < u.children.len() ==> (#[trigger] u.children[i]).merge_key is None,
    ensures
        inherit_tree(t, u).children == t.children + u.children,
{
    let base = TreeModel {
        prototypes: extend_unique(t.prototypes, u.prototypes),
        requires_entity: t.requires_entity || u.requires_entity,
        ..t
    };
    law_append_trees_in_order(base, u.children);
}

/// Appending a child never moves or replaces a child already there: each
/// keeps its position, handle and id (a child with the same merge key is
/// inherited into the existing one).
pub proof fn law_append_keeps_children(t: TreeModel, c: TreeModel)
    ensures
        append_tree(t, c).children.len() >= t.children.len(),
        forall|i: int|
            0 <= i < t.children.len() ==> (#[trigger] append_tree(t, c).children[i]).handle
                == t.children[i].handle && append_tree(t, c).children[i].id == t.children[i].id,
{
    match c.merge_key {
        Some(k) => match find_merge(t.children, k) {
            Some(i) => {
                if 0 <= i < t.children.len() {
                    law_inherit_prototypes(t.children[i], c);
                }
            },
            None => {},
        },
        None => {},
    }
}

/// Appending several children keeps the children already there in place,
/// with their handles and ids.
pub proof fn law_append_trees_keeps_children(t: TreeModel, cs: Seq<TreeModel>)
    ensures
        append_trees(t, cs).children.len() >= t.children.len(),
        forall|i: int|
            0 <= i < t.children.len() ==> (#[trigger] append_trees(t, cs).children[i]).handle
                == t.children[i].handle && append_trees(t, cs).children[i].id == t.children[i].id,
    decreases cs.len(),
{
    if cs.len() > 0 {
        let prefix = cs.subrange(0, cs.len() - 1);
        law_append_trees_keeps_children(t, prefix);
        let mid = append_trees(t, prefix);
        law_append_keeps_children(mid, cs[cs.len() - 1]);
        assert forall|i: int| 0 <= i < t.children.len() implies (#[trigger] append_trees(t, cs).children[i]).handle
            == t.children[i].handle && append_trees(t, cs).children[i].id == t.children[i].id by {
            assert(mid.children[i].handle == t.children[i].handle);
            assert(append_tree(mid, cs[cs.len() - 1]).children[i].handle == mid.children[i].handle);
        }
    }
}

/// Inheriting a tree keeps our children in place, with their handles and
/// ids; its children come after them or are inherited into them.
pub proof fn law_inherit_keeps_children(t: TreeModel, u: TreeModel)
    ensures
        inherit_tree(t, u).children.len() >= t.children.len(),
        forall|i: int|
            0 <= i < t.children.len() ==> (#[trigger] inherit_tree(t, u).children[i]).handle
                == t.children[i].handle && inherit_tree(t, u).children[i].id == t.children[i].id,
{
    let base = TreeModel {
        prototypes: extend_unique(t.prototypes, u.prototypes),
        requires_entity: t.requires_entity || u.requires_entity,
        ..t
    };
    law_append_trees_keeps_children(base, u.children);
}

} // verus!
