//! The tree of entities a prototype mutates, and the navigation of access
//! operations through it.
use vstd::prelude::*;

use crate::tree::access::{op_wf, ops_model, ops_wf, proto_entity_ops, AccessOp, ChildAccess, EntityAccess, OpModel, ProtoEntity, ProtoEntityList, SiblingAccess};
use crate::tree::proto_tree::{forest_size, lemma_forest_size_first, tree_size, ProtoTree, TreeModel};
use std::collections::VecDeque;

verus! {

// ---------------------------------------------------------------------------
// Children of one node
// ---------------------------------------------------------------------------

/// Metadata about a node's children.
#[derive(Debug)]
pub struct EntityChildren {
    /// The node indexes of this node's children, in order.
    children: Vec<usize>,
    /// The ID of each child, by position.
    ids: Vec<String>,
}

/// The number of positions `p` in `[a, b)` whose id is `id`.
pub open spec fn count_id(ids: Seq<Seq<char>>, id: Seq<char>, a: int, b: int) -> nat
    decreases b - a,
{
    if a >= b {
        0
    } else {
        count_id(ids, id, a, b - 1) + if 0 <= b - 1 < ids.len() && ids[b - 1] == id {
            1nat
        } else {
            0nat
        }
    }
}

/// `p` is the `occ`th position with id `id` in `[lo, hi]`, counting upwards.
pub open spec fn is_nth_up(ids: Seq<Seq<char>>, id: Seq<char>, lo: int, hi: int, occ: int, p: int) -> bool {
    0 <= lo <= p <= hi && p < ids.len() && ids[p] == id && count_id(ids, id, lo, p) + 1 == occ
}

/// `p` is the `occ`th position with id `id` in `[lo, hi]`, counting downwards.
pub open spec fn is_nth_down(ids: Seq<Seq<char>>, id: Seq<char>, lo: int, hi: int, occ: int, p: int) -> bool {
    0 <= lo <= p <= hi && p < ids.len() && ids[p] == id && count_id(ids, id, p + 1, hi + 1) + 1 == occ
}

/// The position of the `occ`th child with id `id` between `start` and `end`
/// (inclusive), searching from `start` towards `end`.
pub open spec fn nth_position(ids: Seq<Seq<char>>, id: Seq<char>, start: int, end: int, occ: int) -> Option<int> {
    if start <= end {
        if exists|p: int| is_nth_up(ids, id, start, end, occ, p) {
            Some(choose|p: int| is_nth_up(ids, id, start, end, occ, p))
        } else {
            None
        }
    } else {
        if exists|p: int| is_nth_down(ids, id, end, start, occ, p) {
            Some(choose|p: int| is_nth_down(ids, id, end, start, occ, p))
        } else {
            None
        }
    }
}

/// The child at a position among siblings; a negative position counts from
/// the last child.
pub open spec fn child_at(children: Seq<usize>, i: int) -> Option<int> {
    let idx = if i < 0 {
        children.len() + i
    } else {
        i
    };
    if 0 <= idx < children.len() {
        Some(children[idx] as int)
    } else {
        None
    }
}

proof fn lemma_count_split(ids: Seq<Seq<char>>, id: Seq<char>, a: int, b: int, c: int)
    requires
        a <= b <= c,
    ensures
        count_id(ids, id, a, c) == count_id(ids, id, a, b) + count_id(ids, id, b, c),
    decreases c - b,
{
    if b < c {
        lemma_count_split(ids, id, a, b, c - 1);
    }
}

proof fn lemma_count_step(ids: Seq<Seq<char>>, id: Seq<char>, a: int, b: int)
    requires
        a < b,
    ensures
        count_id(ids, id, a, b) == count_id(ids, id, a + 1, b) + if 0 <= a < ids.len() && ids[a]
            == id {
            1nat
        } else {
            0nat
        },
{
    lemma_count_split(ids, id, a, a + 1, b);
    assert(count_id(ids, id, a, a) == 0);
}

proof fn lemma_count_beyond(ids: Seq<Seq<char>>, id: Seq<char>, a: int, b: int)
    requires
        a >= ids.len(),
    ensures
        count_id(ids, id, a, b) == 0,
    decreases b - a,
{
    if a < b {
        lemma_count_beyond(ids, id, a, b - 1);
    }
}

proof fn lemma_count_hit(ids: Seq<Seq<char>>, id: Seq<char>, a: int, b: int)
    requires
        0 <= a < b,
        a < ids.len(),
        ids[a] == id,
    ensures
        count_id(ids, id, a, b) >= 1,
{
    lemma_count_split(ids, id, a, a + 1, b);
    assert(count_id(ids, id, a, a) == 0);
}

proof fn lemma_nth_up_unique(ids: Seq<Seq<char>>, id: Seq<char>, lo: int, hi: int, occ: int, p: int, q: int)
    requires
        is_nth_up(ids, id, lo, hi, occ, p),
        is_nth_up(ids, id, lo, hi, occ, q),
    ensures
        p == q,
{
    if p < q {
        lemma_count_split(ids, id, lo, p, q);
        lemma_count_hit(ids, id, p, q);
    }
    if q < p {
        lemma_count_split(ids, id, lo, q, p);
        lemma_count_hit(ids, id, q, p);
    }
}

proof fn lemma_nth_down_unique(ids: Seq<Seq<char>>, id: Seq<char>, lo: int, hi: int, occ: int, p: int, q: int)
    requires
        is_nth_down(ids, id, lo, hi, occ, p),
        is_nth_down(ids, id, lo, hi, occ, q),
    ensures
        p == q,
{
    if p < q {
        lemma_count_split(ids, id, p + 1, q, hi + 1);
        lemma_count_step(ids, id, q, hi + 1);
    }
    if q < p {
        lemma_count_split(ids, id, q + 1, p, hi + 1);
        lemma_count_step(ids, id, p, hi + 1);
    }
}

impl EntityChildren {
    pub closed spec fn ids_view(&self) -> Seq<Seq<char>> {
        self.ids@.map_values(|s: String| s@)
    }

    pub closed spec fn children_view(&self) -> Seq<usize> {
        self.children@
    }

    pub closed spec fn wf(&self) -> bool {
        self.children@.len() == self.ids@.len()
    }

    /// No children.
    pub fn new() -> (r: EntityChildren)
        ensures
            r.wf(),
            r.children_view() == Seq::<usize>::empty(),
            r.ids_view() == Seq::<Seq<char>>::empty(),
    {
        let r = EntityChildren { children: Vec::new(), ids: Vec::new() };
        assert(r.ids_view() =~= Seq::<Seq<char>>::empty());
        r
    }

    /// Insert a new child, given its node index in the whole tree; returns
    /// its position among its siblings.
    pub fn insert(&mut self, child: usize, id: String) -> (r: usize)
        requires
            old(self).wf(),
        ensures
            final(self).wf(),
            r == old(self).children_view().len(),
            final(self).children_view() == old(self).children_view().push(child),
            final(self).ids_view() == old(self).ids_view().push(id@),
    {
        let ghost idm = id@;
        let index = self.children.len();
        self.children.push(child);
        self.ids.push(id);
        assert(self.ids_view() =~= old(self).ids_view().push(idm));
        index
    }

    /// The node index of the `occurrence`th child with the given ID between
    /// positions `start` and `end` (inclusive); the search runs from `start`
    /// towards `end`.
    pub fn get(&self, id: &String, start: usize, end: usize, occurrence: usize) -> (r: Option<usize>)
        requires
            self.wf(),
            occurrence >= 1,
        ensures
            match nth_position(self.ids_view(), id@, start as int, end as int, occurrence as int) {
                Some(p) => 0 <= p < self.children_view().len() && r == Some(self.children_view()[p]),
                None => r is None,
            },
    {
        let len = self.children.len();
        let ghost ids = self.ids_view();
        if len == 0 {
            assert(!exists|p: int| is_nth_up(ids, id@, start as int, end as int, occurrence as int, p));
            assert(!exists|p: int| is_nth_down(ids, id@, end as int, start as int, occurrence as int, p));
            return None;
        }
        if start <= end {
            if start >= len {
                assert(!exists|q: int| is_nth_up(ids, id@, start as int, end as int, occurrence as int, q));
                return None;
            }
            let hi = if end < len - 1 { end } else { len - 1 };
            let mut p = start;
            let mut seen: usize = 0;
            while p <= hi
                invariant
                    len == self.children@.len() == self.ids@.len(),
                    ids == self.ids_view(),
                    hi < len,
                    hi <= end,
                    start <= p <= hi + 1,
                    seen == count_id(ids, id@, start as int, p as int),
                    seen < occurrence,
                decreases hi + 1 - p,
            {
                let hit = self.ids[p].eq(id);
                assert(ids[p as int] == self.ids@[p as int]@);
                assert(hit == (ids[p as int] == id@));
                proof {
                    lemma_count_split(ids, id@, start as int, p as int, p + 1);
                    lemma_count_step(ids, id@, p as int, p + 1);
                    assert(count_id(ids, id@, p + 1, p + 1) == 0);
                }
                if hit {
                    if seen + 1 == occurrence {
                        proof {
                            assert(is_nth_up(ids, id@, start as int, end as int, occurrence as int, p as int));
                            let q = choose|q: int| is_nth_up(ids, id@, start as int, end as int, occurrence as int, q);
                            lemma_nth_up_unique(ids, id@, start as int, end as int, occurrence as int, p as int, q);
                        }
                        return Some(self.children[p]);
                    }
                    seen = seen + 1;
                }
                p = p + 1;
            }
            proof {
                assert forall|q: int| !is_nth_up(ids, id@, start as int, end as int, occurrence as int, q) by {
                    if is_nth_up(ids, id@, start as int, end as int, occurrence as int, q) {
                        assert(q <= hi);
                        lemma_count_split(ids, id@, start as int, q, p as int);
                        lemma_count_hit(ids, id@, q, p as int);
                    }
                }
            }
            None
        } else {
            let top = if start < len - 1 { start } else { len - 1 };
            if top < end {
                assert forall|q: int| !is_nth_down(ids, id@, end as int, start as int, occurrence as int, q) by {}
                return None;
            }
            let mut p = top + 1;
            let mut seen: usize = 0;
            proof {
                if top < start {
                    lemma_count_beyond(ids, id@, top + 1, start + 1);
                }
            }
            while p > end
                invariant
                    len == self.children@.len() == self.ids@.len(),
                    ids == self.ids_view(),
                    end <= top < len,
                    top <= start,
                    end < start,
                    end <= p <= top + 1,
                    seen == count_id(ids, id@, p as int, start + 1),
                    seen < occurrence,
                decreases p - end,
            {
                let q = p - 1;
                let hit = self.ids[q].eq(id);
                assert(ids[q as int] == self.ids@[q as int]@);
                assert(hit == (ids[q as int] == id@));
                proof {
                    lemma_count_split(ids, id@, q as int, p as int, start + 1);
                    assert(count_id(ids, id@, q as int, p as int) == if 0 <= q < ids.len() && ids[q as int] == id@ { 1nat } else { 0nat }) by {
                        assert(count_id(ids, id@, q as int, q as int) == 0);
                    }
                }
                if hit {
                    if seen + 1 == occurrence {
                        proof {
                            assert(is_nth_down(ids, id@, end as int, start as int, occurrence as int, q as int));
                            let w = choose|w: int| is_nth_down(ids, id@, end as int, start as int, occurrence as int, w);
                            lemma_nth_down_unique(ids, id@, end as int, start as int, occurrence as int, q as int, w);
                        }
                        return Some(self.children[q]);
                    }
                    seen = seen + 1;
                }
                p = q;
            }
            proof {
                assert forall|w: int| !is_nth_down(ids, id@, end as int, start as int, occurrence as int, w) by {
                    if is_nth_down(ids, id@, end as int, start as int, occurrence as int, w) {
                        lemma_count_split(ids, id@, p as int, w, start + 1);
                        lemma_count_step(ids, id@, w, start + 1);
                    }
                }
            }
            None
        }
    }

    /// The node index of the child at the given position among its
    /// siblings; a negative position counts from the last child.
    pub fn get_at(&self, child_index: isize) -> (r: Option<usize>)
        ensures
            match child_at(self.children_view(), child_index as int) {
                Some(c) => r == Some(c as usize),
                None => r is None,
            },
    {
        let len = self.children.len();
        if child_index < 0 {
            let back: usize = (-(child_index + 1)) as usize + 1;
            if back > len {
                return None;
            }
            Some(self.children[len - back])
        } else {
            let i = child_index as usize;
            if i < len {
                Some(self.children[i])
            } else {
                None
            }
        }
    }

    /// The child node indexes, in order.
    pub fn iter(&self) -> (r: &Vec<usize>)
        ensures
            r@ == self.children_view(),
    {
        &self.children
    }

    /// The number of children.
    pub fn len(&self) -> (r: usize)
        ensures
            r == self.children_view().len(),
    {
        self.children.len()
    }

    /// Whether there are no children.
    pub fn is_empty(&self) -> (r: bool)
        ensures
            r == (self.children_view().len() == 0),
    {
        self.children.len() == 0
    }
}


// ---------------------------------------------------------------------------
// The tree
// ---------------------------------------------------------------------------

/// Node item stored in an [`EntityTree`]: a single entity (or a single
/// prototype with all template information flattened).
#[derive(Debug)]
pub struct EntityTreeNode {
    id: String,
    index: usize,
    entity: Option<u64>,
    handle: u64,
    requires_entity: bool,
    child_index: usize,
    prototypes: Vec<u64>,
}

impl EntityTreeNode {
    pub closed spec fn id_view(&self) -> Seq<char> {
        self.id@
    }


    pub closed spec fn index_view(&self) -> int {
        self.index as int
    }

    pub closed spec fn entity_view(&self) -> Option<u64> {
        self.entity
    }

    pub closed spec fn handle_view(&self) -> u64 {
        self.handle
    }

    pub closed spec fn requires_entity_view(&self) -> bool {
        self.requires_entity
    }

    pub closed spec fn child_index_view(&self) -> int {
        self.child_index as int
    }

    pub closed spec fn prototypes_view(&self) -> Seq<u64> {
        self.prototypes@
    }

    /// The node's index in its tree.
    pub fn index(&self) -> (r: usize)
        ensures
            r == self.index_view(),
    {
        self.index
    }

    /// The stringified ID of the node's prototype.
    pub fn id(&self) -> (r: &String)
        ensures
            r@ == self.id_view(),
    {
        &self.id
    }

    /// The node's entity, if any.
    pub fn entity(&self) -> (r: Option<u64>)
        ensures
            r == self.entity_view(),
    {
        self.entity
    }

    /// The node's prototype and templates, in the order they are applied
    /// (the reverse of the tree's order).
    pub fn prototypes(&self) -> (r: Vec<u64>)
        ensures
            r@ == self.prototypes_view().reverse(),
    {
        let mut out: Vec<u64> = Vec::new();
        let n = self.prototypes.len();
        let mut i = n;
        while i > 0
            invariant
                i <= n == self.prototypes@.len(),
                out@ == self.prototypes@.subrange(i as int, n as int).reverse(),
            decreases i,
        {
            i = i - 1;
            out.push(self.prototypes[i]);
            assert(out@ =~= self.prototypes@.subrange(i as int, n as int).reverse());
        }
        out
    }
}

/// A tree of all the entities to be mutated by a prototype, numbered in
/// breadth-first order from the root (node 0).
pub struct EntityTree {
    /// All the nodes in the tree.
    nodes: Vec<EntityTreeNode>,
    /// The parent node of each node (none for the root).
    parents: Vec<Option<usize>>,
    /// The children of each node.
    children: Vec<EntityChildren>,
    /// The node being processed.
    current: usize,
}

/// The mathematical value of an entity tree.
pub struct TreeView {
    pub nodes: Seq<EntityTreeNode>,
    pub parents: Seq<Option<usize>>,
    pub children: Seq<Seq<usize>>,
    pub ids: Seq<Seq<Seq<char>>>,
    pub current: int,
}

impl View for EntityTree {
    type V = TreeView;

    closed spec fn view(&self) -> TreeView {
        TreeView {
            nodes: self.nodes@,
            parents: self.parents@,
            children: self.children@.map_values(|c: EntityChildren| c.children_view()),
            ids: self.children@.map_values(|c: EntityChildren| c.ids_view()),
            current: self.current as int,
        }
    }
}

/// The first position of `x` in `s`.
pub open spec fn position_of(s: Seq<usize>, x: int) -> Option<int> {
    if exists|k: int| 0 <= k < s.len() && s[k] == x && forall|j: int| 0 <= j < k ==> s[j] != x {
        Some(choose|k: int| 0 <= k < s.len() && s[k] == x && forall|j: int| 0 <= j < k ==> s[j] != x)
    } else {
        None
    }
}

pub open spec fn abs(n: int) -> int {
    if n < 0 {
        -n
    } else {
        n
    }
}

/// The node at the `occ`th child id `id` of `node`, searching from
/// `start` towards `end`.
pub open spec fn child_by_id(v: TreeView, node: int, id: Seq<char>, start: int, end: int, occ: int) -> Option<int> {
    match nth_position(v.ids[node], id, start, end, occ) {
        Some(p) => Some(v.children[node][p] as int),
        None => None,
    }
}

/// One access step from node `cur`:
/// `Root` goes to node 0; `Parent` to the parent; `ChildAt(i)` to the child
/// at position `i` (negative from the end); `ChildId(id, n)` to the `n`th
/// child `id` (from the last child if `n < 0`); `SiblingAt(o)` to the
/// sibling `o` positions after the current one (before it if `o < 0`), if
/// there is one; `SiblingId(id, n)` to the `n`th sibling `id` after the
/// current one (the `|n|`th before it, going backwards, if `n < 0`); never
/// the current node itself.
pub open spec fn step(v: TreeView, cur: int, op: OpModel) -> Option<int> {
    match op {
        OpModel::Root => Some(0),
        OpModel::Parent => match v.parents[cur] {
            Some(p) => Some(p as int),
            None => None,
        },
        OpModel::ChildAt(i) => child_at(v.children[cur], i),
        OpModel::ChildId(id, n) => {
            let len = v.children[cur].len();
            let last = if len >= 1 {
                len - 1
            } else {
                0
            };
            if n < 0 {
                child_by_id(v, cur, id, last, 0, abs(n))
            } else {
                child_by_id(v, cur, id, 0, last, abs(n))
            }
        },
        OpModel::SiblingAt(o) => match v.parents[cur] {
            Some(p) => match position_of(v.children[p as int], cur) {
                Some(k) => if 0 <= o + k < v.children[p as int].len() {
                    Some(v.children[p as int][o + k] as int)
                } else {
                    None
                },
                None => None,
            },
            None => None,
        },
        OpModel::SiblingId(id, n) => match v.parents[cur] {
            Some(p) => match position_of(v.children[p as int], cur) {
                Some(k) => {
                    let len = v.children[p as int].len();
                    if n < 0 {
                        if k == 0 {
                            None
                        } else {
                            child_by_id(v, p as int, id, k - 1, 0, abs(n))
                        }
                    } else {
                        if k + 1 >= len {
                            None
                        } else {
                            child_by_id(v, p as int, id, k + 1, len - 1, abs(n))
                        }
                    }
                },
                None => None,
            },
            None => None,
        },
    }
}

/// The node reached from `cur` by the operations in order, if every step
/// succeeds.
pub open spec fn navigate(v: TreeView, cur: int, ops: Seq<OpModel>) -> Option<int>
    decreases ops.len(),
{
    if ops.len() == 0 {
        Some(cur)
    } else {
        match navigate(v, cur, ops.drop_last()) {
            Some(c) => step(v, c, ops.last()),
            None => None,
        }
    }
}

proof fn lemma_position_of(s: Seq<usize>, x: int, k: int)
    requires
        0 <= k < s.len(),
        s[k] == x,
        forall|j: int| 0 <= j < k ==> s[j] != x,
    ensures
        position_of(s, x) == Some(k),
{
    let c = choose|c: int| 0 <= c < s.len() && s[c] == x && forall|j: int| 0 <= j < c ==> s[j] != x;
    assert(0 <= c < s.len() && s[c] == x && forall|j: int| 0 <= j < c ==> s[j] != x);
    if c < k {
        assert(s[c] != x);
    }
    if c > k {
        assert(s[k] != x);
    }
}

impl EntityTree {
    /// The nodes are numbered breadth-first from the root, every node but
    /// the root has exactly one parent, which comes before it, and the
    /// children lists and parent links agree.
    pub closed spec fn wf(&self) -> bool {
        let n = self.nodes@.len();
        &&& 1 <= n <= usize::MAX
        &&& self.parents@.len() == n
        &&& self.children@.len() == n
        &&& self.current < n
        &&& forall|i: int| 0 <= i < n ==> (#[trigger] self.nodes@[i]).index == i
        &&& forall|i: int| 0 <= i < n ==> (#[trigger] self.children@[i]).wf()
        &&& forall|i: int, k: int|
            0 <= i < n && 0 <= k < self.children@[i].children_view().len() ==> {
                let c = #[trigger] self.children@[i].children_view()[k];
                &&& c < n
                &&& self.parents@[c as int] == Some(i as usize)
            }
        &&& forall|c: int|
            0 <= c < n && (#[trigger] self.parents@[c]) is Some ==> {
                let p = self.parents@[c]->0;
                &&& p < n
                &&& self.children@[p as int].children_view().contains(c as usize)
            }
        &&& self.parents@[0] is None
        &&& forall|c: int| 1 <= c < n ==> (#[trigger] self.parents@[c]) is Some && self.parents@[c]->0 < c
        &&& numbered_breadth_first(self@.children, n as int)
    }

    /// The first position of `cur` among `siblings`.
    fn position(siblings: &EntityChildren, cur: usize) -> (r: Option<usize>)
        ensures
            match r {
                Some(k) => k < siblings.children_view().len() && position_of(siblings.children_view(), cur as int) == Some(k as int),
                None => position_of(siblings.children_view(), cur as int) is None,
            },
    {
        let v = siblings.iter();
        let mut k: usize = 0;
        while k < v.len()
            invariant
                k <= v@.len(),
                v@ == siblings.children_view(),
                forall|j: int| 0 <= j < k ==> v@[j] != cur,
            decreases v@.len() - k,
        {
            if v[k] == cur {
                proof {
                    lemma_position_of(v@, cur as int, k as int);
                }
                return Some(k);
            }
            k = k + 1;
        }
        None
    }

    /// One access step from node `cur`.
    #[verifier::rlimit(40)]
    fn step_exec(&self, cur: usize, op: &AccessOp) -> (r: Option<usize>)
        requires
            self.wf(),
            cur < self@.nodes.len(),
            op_wf(op.model()),
        ensures
            match step(self@, cur as int, op.model()) {
                Some(i) => r == Some(i as usize) && 0 <= i < self@.nodes.len(),
                None => r is None,
            },
    {
        let n = self.nodes.len();
        match op {
            AccessOp::Root => Some(0),
            AccessOp::Parent => {
                let r = self.parents[cur];
                proof {
                    if let Some(p) = r {
                        assert(self.parents@[cur as int] is Some);
                    }
                }
                r
            },
            AccessOp::Child(ChildAccess::At(index)) => {
                let r = self.children[cur].get_at(*index);
                assert(self@.children[cur as int] == self.children@[cur as int].children_view());
                proof {
                    if let Some(c) = r {
                        let ch = self.children@[cur as int].children_view();
                        let idx = if *index < 0 { ch.len() + *index } else { *index as int };
                        assert(ch[idx] < n);
                    }
                }
                r
            },
            AccessOp::Child(ChildAccess::Id(id, occurrence)) => {
                let siblings = &self.children[cur];
                let last = if siblings.len() >= 1 { siblings.len() - 1 } else { 0 };
                let occ: usize = if *occurrence < 0 {
                    (-(*occurrence + 1)) as usize + 1
                } else {
                    *occurrence as usize
                };
                let (start, end) = if *occurrence < 0 {
                    (last, 0)
                } else {
                    (0, last)
                };
                let r = siblings.get(id, start, end, occ);
                proof {
                    assert(self@.children[cur as int] == siblings.children_view());
                    assert(self@.ids[cur as int] == siblings.ids_view());
                    match nth_position(siblings.ids_view(), id@, start as int, end as int, occ as int) {
                        Some(p) => {
                            assert(siblings.children_view()[p] < n);
                        },
                        None => {},
                    }
                }
                r
            },
            AccessOp::Sibling(SiblingAccess::At(offset)) => {
                match self.parents[cur] {
                    None => None,
                    Some(parent) => {
                        let siblings = &self.children[parent];
                        assert(self@.children[parent as int] == siblings.children_view());
                        match EntityTree::position(siblings, cur) {
                            None => None,
                            Some(k) => {
                                let len = siblings.len();
                                let target: i128 = (k as i128) + (*offset as i128);
                                if target < 0 || target >= len as i128 {
                                    return None;
                                }
                                let index = target as usize;
                                let ch = siblings.iter();
                                let r = ch[index];
                                proof {
                                    assert(ch@[index as int] < n);
                                }
                                Some(r)
                            },
                        }
                    },
                }
            },
            AccessOp::Sibling(SiblingAccess::Id(id, occurrence)) => {
                match self.parents[cur] {
                    None => None,
                    Some(parent) => {
                        let siblings = &self.children[parent];
                        match EntityTree::position(siblings, cur) {
                            None => None,
                            Some(k) => {
                                let occ: usize = if *occurrence < 0 {
                                    (-(*occurrence + 1)) as usize + 1
                                } else {
                                    *occurrence as usize
                                };
                                let len = siblings.len();
                                if *occurrence < 0 && k == 0 {
                                    return None;
                                }
                                if *occurrence > 0 && k + 1 >= len {
                                    return None;
                                }
                                let (start, end) = if *occurrence < 0 {
                                    (k - 1, 0)
                                } else {
                                    (k + 1, len - 1)
                                };
                                let r = siblings.get(id, start, end, occ);
                                proof {
                                    assert(self@.children[parent as int] == siblings.children_view());
                                    assert(self@.ids[parent as int] == siblings.ids_view());
                                    match nth_position(siblings.ids_view(), id@, start as int, end as int, occ as int) {
                                        Some(p) => {
                                            assert(siblings.children_view()[p] < n);
                                        },
                                        None => {},
                                    }
                                }
                                r
                            },
                        }
                    },
                }
            },
        }
    }
}

// ---------------------------------------------------------------------------
// Breadth-first layout of a prototype tree
// ---------------------------------------------------------------------------

/// The subtrees of a queue of trees, in breadth-first order: the first tree,
/// then the rest of the queue followed by the first tree's children.
pub open spec fn bfs_order(q: Seq<TreeModel>) -> Seq<TreeModel>
    decreases forest_size(q),
{
    if q.len() == 0 {
        Seq::empty()
    } else {
        proof {
            lemma_forest_size_first(q);
        }
        seq![q[0]] + bfs_order(q.drop_first() + q[0].children)
    }
}

/// The node index of the first child of node `i` when the nodes are
/// numbered in breadth-first order: the children of each node directly
/// follow those of the node before it, and the root's come right after it.
pub open spec fn child_base(order: Seq<TreeModel>, i: int) -> int
    decreases i,
{
    if i <= 0 {
        1
    } else {
        child_base(order, i - 1) + order[i - 1].children.len()
    }
}

/// The same numbering, read off the children lists of an entity tree.
pub open spec fn first_child(kids: Seq<Seq<usize>>, i: int) -> int
    decreases i,
{
    if i <= 0 {
        1
    } else {
        first_child(kids, i - 1) + kids[i - 1].len()
    }
}

/// The children of every node are the nodes that directly follow the
/// children of the node before it, and the root's come right after it.
#[verifier::opaque]
pub open spec fn numbered_breadth_first(kids: Seq<Seq<usize>>, n: int) -> bool {
    &&& forall|i: int|
        0 <= i < n ==> #[trigger] kids[i] == block(first_child(kids, i), kids[i].len() as int)
    &&& first_child(kids, n) == n
}

/// The consecutive node indexes `base`, `base + 1`, ... (`n` of them).
pub open spec fn block(base: int, n: int) -> Seq<usize> {
    Seq::new(n as nat, |k: int| (base + k) as usize)
}

/// The ids of a list of trees.
pub open spec fn tree_ids(cs: Seq<TreeModel>) -> Seq<Seq<char>> {
    cs.map_values(|c: TreeModel| c.id)
}

/// Node `i` of an entity tree carries the prototype data of `t`.
pub open spec fn node_holds(v: TreeView, i: int, t: TreeModel) -> bool {
    &&& v.nodes[i].id_view() == t.id
    &&& v.nodes[i].handle_view() == t.handle
    &&& v.nodes[i].requires_entity_view() == t.requires_entity
    &&& v.nodes[i].prototypes_view() == t.prototypes
}

/// `v` is the entity tree of the prototype tree `t`: its nodes are the
/// subtrees of `t` in breadth-first order, the children of each node are the
/// nodes of its subtree's children, in order, and only the root has an
/// entity (`root`).
pub open spec fn lays_out(v: TreeView, t: TreeModel, root: Option<u64>) -> bool {
    let order = bfs_order(seq![t]);
    &&& v.nodes.len() == order.len()
    &&& v.current == 0
    &&& v.parents[0] is None
    &&& v.nodes[0].entity_view() == root
    &&& v.nodes[0].child_index_view() == 0
    &&& forall|i: int| 0 <= i < order.len() ==> #[trigger] node_holds(v, i, order[i])
    &&& forall|i: int| 1 <= i < order.len() ==> (#[trigger] v.nodes[i]).entity_view() is None
    &&& forall|i: int|
        0 <= i < order.len() ==> #[trigger] v.children[i] == block(
            child_base(order, i),
            order[i].children.len() as int,
        )
    &&& forall|i: int| 0 <= i < order.len() ==> #[trigger] v.ids[i] == tree_ids(order[i].children)
    &&& forall|c: int|
        1 <= c < order.len() ==> {
            let p = (#[trigger] v.parents[c])->0 as int;
            &&& v.parents[c] is Some
            &&& 0 <= p < order.len()
            &&& child_base(order, p) <= c < child_base(order, p) + order[p].children.len()
            &&& v.nodes[c].child_index_view() == c - child_base(order, p)
        }
}

/// The first trees of a breadth-first order are the queue itself.
pub proof fn lemma_bfs_prefix(q: Seq<TreeModel>)
    ensures
        bfs_order(q).len() >= q.len(),
        bfs_order(q).take(q.len() as int) == q,
    decreases forest_size(q),
{
    if q.len() > 0 {
        let r = q.drop_first() + q[0].children;
        lemma_forest_size_first(q);
        lemma_bfs_prefix(r);
        let b = bfs_order(q);
        assert(b == seq![q[0]] + bfs_order(r));
        assert forall|j: int| 0 <= j < q.len() implies #[trigger] b[j] == q[j] by {
            if j > 0 {
                assert(b[j] == bfs_order(r)[j - 1]);
                assert(bfs_order(r).take(r.len() as int)[j - 1] == r[j - 1]);
            }
        }
        assert(b.take(q.len() as int) =~= q);
    }
}

/// A breadth-first order holds every node of the queued trees once.
pub proof fn lemma_bfs_len(q: Seq<TreeModel>)
    ensures
        bfs_order(q).len() == forest_size(q),
    decreases forest_size(q),
{
    if q.len() > 0 {
        lemma_forest_size_first(q);
        lemma_bfs_len(q.drop_first() + q[0].children);
    }
}

/// An entity tree has one node for each node of its prototype tree.
pub proof fn law_one_node_per_prototype_node(v: TreeView, t: TreeModel, root: Option<u64>)
    requires
        lays_out(v, t, root),
    ensures
        v.nodes.len() == tree_size(t),
{
    lemma_bfs_len(seq![t]);
    let one = seq![t];
    assert(one.subrange(0, one.len() - 1) =~= Seq::<TreeModel>::empty());
    assert(forest_size(one.subrange(0, one.len() - 1)) == 0);
    assert(forest_size(one) == tree_size(t));
}

/// Node bases grow with the node index.
pub proof fn lemma_child_base_mono(order: Seq<TreeModel>, i: int, j: int)
    requires
        0 <= i <= j,
    ensures
        child_base(order, i) <= child_base(order, j),
    decreases j - i,
{
    if i < j {
        lemma_child_base_mono(order, i, j - 1);
    }
}

proof fn lemma_first_child_matches(v: TreeView, order: Seq<TreeModel>, i: int)
    requires
        0 <= i,
        forall|j: int| 0 <= j < i ==> #[trigger] v.children[j].len() == order[j].children.len(),
    ensures
        first_child(v.children, i) == child_base(order, i),
    decreases i,
{
    if i > 0 {
        lemma_first_child_matches(v, order, i - 1);
    }
}

impl EntityTree {
    /// Lay out the given prototype tree breadth-first, giving the root node
    /// the given entity. Other nodes get their entities with
    /// [`EntityTree::set_entity`].
    pub fn new(tree: &ProtoTree, root: Option<u64>) -> (r: EntityTree)
        ensures
            r.wf(),
            lays_out(r@, tree@, root),
    {
        let ghost order = bfs_order(seq![tree@]);
        proof {
            lemma_bfs_prefix(seq![tree@]);
            assert(order.take(1)[0] == tree@);
        }
        let mut nodes: Vec<EntityTreeNode> = Vec::new();
        nodes.push(
            EntityTreeNode {
                id: tree.id_str().clone(),
                index: 0,
                entity: root,
                handle: tree.handle(),
                requires_entity: tree.requires_entity(),
                child_index: 0,
                prototypes: tree.prototypes(),
            },
        );
        let mut parents: Vec<Option<usize>> = Vec::new();
        parents.push(None);
        let mut children: Vec<EntityChildren> = Vec::new();
        let mut queue: VecDeque<(usize, &ProtoTree)> = VecDeque::new();
        queue.push_back((0, tree));
        let ghost mut gq: Seq<TreeModel> = seq![tree@];
        let mut h: usize = 0;
        assert(bfs_order(gq).subrange(0, order.len() as int) =~= order);
        while queue.len() > 0
            invariant
                order == bfs_order(seq![tree@]),
                order.len() >= 1,
                order[0] == tree@,
                nodes@.len() == parents@.len() == h + gq.len(),
                children@.len() == h,
                gq.len() == queue@.len(),
                nodes@.len() == child_base(order, h as int),
                nodes@.len() <= order.len(),
                h <= order.len(),
                bfs_order(gq) == order.subrange(h as int, order.len() as int),
                forall|j: int|
                    0 <= j < queue@.len() ==> (#[trigger] queue@[j]).0 == h + j && queue@[j].1@
                        == gq[j],
                forall|i: int| 0 <= i < nodes@.len() ==> (#[trigger] nodes@[i]).index == i,
                forall|i: int|
                    0 <= i < nodes@.len() ==> {
                        let nd = #[trigger] nodes@[i];
                        &&& nd.id@ == order[i].id
                        &&& nd.handle == order[i].handle
                        &&& nd.requires_entity == order[i].requires_entity
                        &&& nd.prototypes@ == order[i].prototypes
                        &&& i >= 1 ==> nd.entity is None
                    },
                nodes@[0].entity == root,
                nodes@[0].child_index == 0,
                parents@[0] is None,
                forall|i: int|
                    0 <= i < h ==> {
                        let c = #[trigger] children@[i];
                        &&& c.wf()
                        &&& c.children_view() == block(
                            child_base(order, i),
                            order[i].children.len() as int,
                        )
                        &&& c.ids_view() == tree_ids(order[i].children)
                    },
                forall|c: int|
                    1 <= c < nodes@.len() ==> {
                        let p = (#[trigger] parents@[c])->0;
                        &&& parents@[c] is Some
                        &&& p < h
                        &&& p < c
                        &&& child_base(order, p as int) <= c < child_base(order, p as int)
                            + order[p as int].children.len()
                        &&& nodes@[c].child_index == c - child_base(order, p as int)
                    },
            decreases order.len() - h,
        {
            let ghost gq0 = gq;
            let ghost q0 = queue@;
            let (parent_index, t) = queue.pop_front().unwrap();
            let ghost rest = gq0.drop_first();
            let ghost ch = gq0[0].children;
            proof {
                assert(q0[0] == (parent_index, t));
                assert(q0[0].0 == h + 0);
                lemma_forest_size_first(gq0);
                assert(bfs_order(gq0) == seq![gq0[0]] + bfs_order(rest + ch));
                assert(order[h as int] == gq0[0]) by {
                    assert(bfs_order(gq0)[0] == gq0[0]);
                }
                assert(bfs_order(rest + ch) =~= bfs_order(gq0).subrange(1, bfs_order(gq0).len() as int));
                assert(bfs_order(rest + ch) =~= order.subrange(h + 1, order.len() as int));
                assert forall|j: int| 0 <= j < queue@.len() implies (#[trigger] queue@[j]).0 == h + 1 + j && queue@[j].1@ == rest[j] by {
                    assert(queue@[j] == q0[j + 1]);
                }
                lemma_bfs_prefix(rest + ch);
                gq = rest;
            }
            let base = nodes.len();
            let kids = t.children();
            let mut ec = EntityChildren::new();
            let mut k: usize = 0;
            while k < kids.len()
                invariant
                    order == bfs_order(seq![tree@]),
                    order.len() >= 1,
                    order[h as int] == gq0[0],
                    t@ == gq0[0],
                    ch == gq0[0].children,
                    rest == gq0.drop_first(),
                    gq0.len() >= 1,
                    parent_index == h,
                    h < order.len(),
                    kids@.len() == ch.len(),
                    forall|j: int| 0 <= j < kids@.len() ==> #[trigger] kids@[j]@ == ch[j],
                    bfs_order(rest + ch) == order.subrange(h + 1, order.len() as int),
                    bfs_order(rest + ch).len() >= (rest + ch).len(),
                    bfs_order(rest + ch).take((rest + ch).len() as int) == rest + ch,
                    base == child_base(order, h as int),
                    base == h + 1 + rest.len(),
                    k <= ch.len(),
                    nodes@.len() == parents@.len() == base + k,
                    children@.len() == h,
                    gq == rest + ch.take(k as int),
                    gq.len() == queue@.len(),
                    forall|j: int|
                        0 <= j < queue@.len() ==> (#[trigger] queue@[j]).0 == h + 1 + j
                            && queue@[j].1@ == gq[j],
                    forall|i: int| 0 <= i < nodes@.len() ==> (#[trigger] nodes@[i]).index == i,
                    forall|i: int|
                        0 <= i < nodes@.len() ==> {
                            let nd = #[trigger] nodes@[i];
                            &&& nd.id@ == order[i].id
                            &&& nd.handle == order[i].handle
                            &&& nd.requires_entity == order[i].requires_entity
                            &&& nd.prototypes@ == order[i].prototypes
                            &&& i >= 1 ==> nd.entity is None
                        },
                    nodes@[0].entity == root,
                    nodes@[0].child_index == 0,
                    parents@[0] is None,
                    ec.wf(),
                    ec.children_view() == block(base as int, k as int),
                    ec.ids_view() == tree_ids(ch.take(k as int)),
                    forall|i: int|
                        0 <= i < h ==> {
                            let c = #[trigger] children@[i];
                            &&& c.wf()
                            &&& c.children_view() == block(
                                child_base(order, i),
                                order[i].children.len() as int,
                            )
                            &&& c.ids_view() == tree_ids(order[i].children)
                        },
                    forall|c: int|
                        1 <= c < nodes@.len() ==> {
                            let p = (#[trigger] parents@[c])->0;
                            &&& parents@[c] is Some
                            &&& p <= h
                            &&& p < c
                            &&& child_base(order, p as int) <= c < child_base(order, p as int)
                                + order[p as int].children.len()
                            &&& nodes@[c].child_index == c - child_base(order, p as int)
                        },
                decreases ch.len() - k,
            {
                let child = &kids[k];
                let index = nodes.len();
                proof {
                    let b = bfs_order(rest + ch);
                    assert(b.take((rest + ch).len() as int)[rest.len() + k] == (rest + ch)[rest.len() + k]);
                    assert((rest + ch)[rest.len() + k] == ch[k as int]);
                    assert(order[index as int] == b[rest.len() + k]);
                    assert(order[index as int] == ch[k as int]);
                    assert(child@ == ch[k as int]);
                }
                let ghost old_nodes = nodes@;
                let ghost old_parents = parents@;
                let ci = ec.insert(index, child.id_str().clone());
                parents.push(Some(parent_index));
                nodes.push(
                    EntityTreeNode {
                        id: child.id_str().clone(),
                        index,
                        entity: None,
                        handle: child.handle(),
                        requires_entity: child.requires_entity(),
                        child_index: ci,
                        prototypes: child.prototypes(),
                    },
                );
                queue.push_back((index, child));
                proof {
                    assert forall|c: int| 1 <= c < nodes@.len() implies {
                            let p = (#[trigger] parents@[c])->0;
                            &&& parents@[c] is Some
                            &&& p <= h
                            &&& p < c
                            &&& child_base(order, p as int) <= c < child_base(order, p as int)
                                + order[p as int].children.len()
                            &&& nodes@[c].child_index == c - child_base(order, p as int)
                        } by {
                        if c < index {
                            assert(old_parents[c] == parents@[c]);
                            assert(old_nodes[c] == nodes@[c]);
                        }
                    }
                    assert(ec.children_view() =~= block(base as int, k + 1));
                    assert(ch.take(k + 1) =~= ch.take(k as int).push(ch[k as int]));
                    assert(tree_ids(ch.take(k + 1)) =~= tree_ids(ch.take(k as int)).push(
                        ch[k as int].id,
                    ));
                    gq = gq.push(ch[k as int]);
                    assert(gq =~= rest + ch.take(k + 1));
                }
                k = k + 1;
            }
            proof {
                assert(ch.take(k as int) =~= ch);
                assert(child_base(order, h + 1) == base + ch.len());
            }
            children.push(ec);
            h = h + 1;
            proof {
                assert(order.subrange(h as int, order.len() as int) =~= bfs_order(gq));
            }
        }
        proof {
            assert(bfs_order(gq).len() == 0);
            assert(h == order.len());
        }
        let total = nodes.len();
        let ghost v = TreeView {
            nodes: nodes@,
            parents: parents@,
            children: children@.map_values(|c: EntityChildren| c.children_view()),
            ids: children@.map_values(|c: EntityChildren| c.ids_view()),
            current: 0,
        };
        proof {
            let n = order.len() as int;
            assert forall|j: int| 0 <= j < n implies #[trigger] v.children[j].len()
                == order[j].children.len() by {
                assert(children@[j].children_view() == block(
                    child_base(order, j),
                    order[j].children.len() as int,
                ));
            }
            assert forall|i: int| 0 <= i <= n implies #[trigger] first_child(v.children, i) == child_base(
                order,
                i,
            ) by {
                lemma_first_child_matches(v, order, i);
            }
            assert forall|i: int, k: int|
                0 <= i < n && 0 <= k < children@[i].children_view().len() implies {
                    let c = #[trigger] children@[i].children_view()[k];
                    &&& c < n
                    &&& parents@[c as int] == Some(i as usize)
                } by {
                lemma_child_base_mono(order, i + 1, n);
                lemma_child_base_mono(order, 0, i);
                let c = child_base(order, i) + k;
                assert(c < total);
                assert(children@[i].children_view()[k] == c as usize);
                let p = parents@[c]->0 as int;
                assert(parents@[c] is Some);
                if p < i {
                    lemma_child_base_mono(order, p + 1, i);
                } else if p > i {
                    lemma_child_base_mono(order, i + 1, p);
                }
            }
            assert forall|c: int| 0 <= c < n && (#[trigger] parents@[c]) is Some implies {
                    let p = parents@[c]->0;
                    &&& p < n
                    &&& children@[p as int].children_view().contains(c as usize)
                } by {
                let p = parents@[c]->0;
                let k = c - child_base(order, p as int);
                assert(children@[p as int].children_view()[k] == c as usize);
            }
            assert forall|i: int| 0 <= i < n implies #[trigger] v.children[i] == block(
                first_child(v.children, i),
                v.children[i].len() as int,
            ) by {
                assert(first_child(v.children, i) == child_base(order, i));
            }
            assert(first_child(v.children, n) == n);
            assert forall|c: int| 1 <= c < n implies (#[trigger] parents@[c]) is Some && parents@[c]->0 < c by {}
            reveal(numbered_breadth_first);
            assert(numbered_breadth_first(v.children, v.nodes.len() as int));
            assert forall|i: int| 0 <= i < n implies #[trigger] v.ids[i] == tree_ids(order[i].children) by {}
            assert forall|i: int| 0 <= i < n implies #[trigger] node_holds(v, i, order[i]) by {}
        }
        let r = EntityTree { nodes, parents, children, current: 0 };
        assert(r@ == v);
        r
    }
}


/// A request to spawn the entity of a node: the node, the handle of its
/// prototype, its position among its siblings and its parent node.
#[derive(Debug, Clone, Copy, PartialEq, Eq)]
pub struct SpawnRequest {
    pub node: usize,
    pub handle: u64,
    pub child_index: usize,
    pub parent: usize,
}

proof fn lemma_first_child_above(kids: Seq<Seq<usize>>, parents: Seq<Option<usize>>, n: int, i: int)
    requires
        numbered_breadth_first(kids, n),
        n <= usize::MAX,
        0 <= i < n,
        forall|c: int| 1 <= c < n ==> (#[trigger] parents[c]) is Some && parents[c]->0 < c,
        forall|c: int|
            0 <= c < n && (#[trigger] parents[c]) is Some ==> {
                let p = parents[c]->0;
                &&& p < n
                &&& kids[p as int].contains(c as usize)
            },
    ensures
        first_child(kids, i) > i,
{
    if i > 0 {
        reveal(numbered_breadth_first);
        assert(parents[i] is Some);
        let p = parents[i]->0 as int;
        let j = choose|j: int| 0 <= j < kids[p].len() && kids[p][j] == i as usize;
        assert(kids[p] == block(first_child(kids, p), kids[p].len() as int));
        lemma_first_child_mono(kids, p + 1, n);
        assert(kids[p][j] == (first_child(kids, p) + j) as usize);
        lemma_first_child_mono(kids, 0, p);
        assert(first_child(kids, p) + j == i);
        lemma_first_child_mono(kids, p + 1, i);
    }
}

proof fn lemma_first_child_mono(kids: Seq<Seq<usize>>, i: int, j: int)
    requires
        0 <= i <= j,
    ensures
        first_child(kids, i) <= first_child(kids, j),
    decreases j - i,
{
    if i < j {
        lemma_first_child_mono(kids, i, j - 1);
    }
}

impl EntityTree {
    /// The node reached by the given access from the current node, if every
    /// step of it succeeds.
    pub fn get(&self, access: &EntityAccess) -> (r: Option<&EntityTreeNode>)
        requires
            self.wf(),
            ops_wf(access@),
        ensures
            match navigate(self@, self@.current, access@) {
                Some(i) => 0 <= i < self@.nodes.len() && r == Some(&self@.nodes[i]),
                None => r is None,
            },
    {
        let ops = access.ops();
        let mut current = self.current;
        let mut i: usize = 0;
        while i < ops.len()
            invariant
                i <= ops@.len(),
                ops_model(ops@) == access@,
                ops_wf(access@),
                self.wf(),
                current < self@.nodes.len(),
                navigate(self@, self@.current, access@.take(i as int)) == Some(current as int),
            decreases ops@.len() - i,
        {
            assert(access@.take(i + 1).drop_last() =~= access@.take(i as int));
            assert(access@[i as int] == ops@[i as int].model());
            assert(op_wf(access@[i as int]));
            match self.step_exec(current, &ops[i]) {
                Some(next) => {
                    current = next;
                },
                None => {
                    proof {
                        lemma_navigate_stuck(self@, self@.current, access@, i as int);
                    }
                    return None;
                },
            }
            i = i + 1;
        }
        assert(access@.take(i as int) =~= access@);
        Some(&self.nodes[current])
    }

    /// The entity found by the given access from the current node, if the
    /// access reaches a node and that node has an entity.
    pub fn find_entity(&self, access: &EntityAccess) -> (r: Option<u64>)
        requires
            self.wf(),
            ops_wf(access@),
        ensures
            match navigate(self@, self@.current, access@) {
                Some(i) => r == self@.nodes[i].entity_view(),
                None => r is None,
            },
    {
        match self.get(access) {
            Some(node) => node.entity(),
            None => None,
        }
    }

    /// The entity of the current node, if any.
    pub fn entity(&self) -> (r: Option<u64>)
        requires
            self.wf(),
        ensures
            r == self@.nodes[self@.current].entity_view(),
    {
        self.current().entity()
    }

    /// The node being processed.
    pub fn current(&self) -> (r: &EntityTreeNode)
        requires
            self.wf(),
        ensures
            0 <= self@.current < self@.nodes.len(),
            *r == self@.nodes[self@.current],
            r.index_view() == self@.current,
    {
        &self.nodes[self.current]
    }

    /// Make the node with the given index the one being processed.
    pub fn set_current(&mut self, index: usize)
        requires
            old(self).wf(),
            index < old(self)@.nodes.len(),
        ensures
            final(self).wf(),
            final(self)@ == (TreeView { current: index as int, ..old(self)@ }),
    {
        self.current = index;
    }

    /// The number of nodes.
    pub fn len(&self) -> (r: usize)
        requires
            self.wf(),
        ensures
            r == self@.nodes.len(),
            r >= 1,
    {
        self.nodes.len()
    }

    /// The node with the given index.
    pub fn node(&self, index: usize) -> (r: &EntityTreeNode)
        requires
            self.wf(),
            index < self@.nodes.len(),
        ensures
            *r == self@.nodes[index as int],
            r.index_view() == index,
    {
        &self.nodes[index]
    }

    /// The parent node of the node with the given index (none for the root).
    pub fn parent(&self, index: usize) -> (r: Option<usize>)
        requires
            self.wf(),
            index < self@.nodes.len(),
        ensures
            r == self@.parents[index as int],
            index > 0 <==> r is Some,
            r matches Some(p) ==> p < index,
    {
        self.parents[index]
    }

    /// What spawning the entity of the node with the given index takes: a
    /// node other than the root whose prototype requires an entity is
    /// spawned as an instance of its prototype at its position among its
    /// siblings, under its parent's entity.
    pub fn spawn_request(&self, index: usize) -> (r: Option<SpawnRequest>)
        requires
            self.wf(),
            index < self@.nodes.len(),
        ensures
            match r {
                Some(q) => {
                    &&& index > 0
                    &&& self@.nodes[index as int].requires_entity_view()
                    &&& q.node == index
                    &&& q.handle == self@.nodes[index as int].handle_view()
                    &&& q.child_index == self@.nodes[index as int].child_index_view()
                    &&& self@.parents[index as int] == Some(q.parent)
                },
                None => index == 0 || !self@.nodes[index as int].requires_entity_view(),
            },
    {
        if index == 0 || !self.nodes[index].requires_entity {
            return None;
        }
        match self.parents[index] {
            Some(parent) => Some(
                SpawnRequest {
                    node: index,
                    handle: self.nodes[index].handle,
                    child_index: self.nodes[index].child_index,
                    parent,
                },
            ),
            None => None,
        }
    }

    /// Give the node with the given index its entity.
    pub fn set_entity(&mut self, index: usize, entity: u64)
        requires
            old(self).wf(),
            index < old(self)@.nodes.len(),
        ensures
            final(self).wf(),
            final(self)@.nodes.len() == old(self)@.nodes.len(),
            final(self)@.nodes[index as int].entity_view() == Some(entity),
            final(self)@.nodes[index as int].id_view() == old(self)@.nodes[index as int].id_view(),
            final(self)@.nodes[index as int].handle_view() == old(self)@.nodes[index as int].handle_view(),
            final(self)@.nodes[index as int].requires_entity_view() == old(self)@.nodes[index as int].requires_entity_view(),
            final(self)@.nodes[index as int].child_index_view() == old(self)@.nodes[index as int].child_index_view(),
            final(self)@.nodes[index as int].prototypes_view() == old(self)@.nodes[index as int].prototypes_view(),
            forall|i: int| 0 <= i < old(self)@.nodes.len() && i != index ==> final(self)@.nodes[i] == old(self)@.nodes[i],
            final(self)@.parents == old(self)@.parents,
            final(self)@.children == old(self)@.children,
            final(self)@.ids == old(self)@.ids,
            final(self)@.current == old(self)@.current,
    {
        let old_node = &self.nodes[index];
        let node = EntityTreeNode {
            id: old_node.id.clone(),
            index: old_node.index,
            entity: Some(entity),
            handle: old_node.handle,
            requires_entity: old_node.requires_entity,
            child_index: old_node.child_index,
            prototypes: clone_handles(&old_node.prototypes),
        };
        self.nodes.set(index, node);
        proof {
            assert(self@.children == old(self)@.children);
            assert(self@.ids == old(self)@.ids);
        }
    }

    /// The node indexes in breadth-first order from the root.
    pub fn iter(&self) -> (r: Vec<usize>)
        requires
            self.wf(),
        ensures
            r@ == Seq::new(self@.nodes.len(), |i: int| i as usize),
    {
        proof {
            reveal(numbered_breadth_first);
        }
        let ghost v = self@;
        let n = self.nodes.len();
        let mut out: Vec<usize> = Vec::new();
        let mut queue: VecDeque<usize> = VecDeque::new();
        queue.push_back(0);
        let ghost mut f: int = 1;
        proof {
            assert(queue@ =~= block(0, 1));
        }
        while queue.len() > 0
            invariant
                v == self@,
                n == v.nodes.len(),
                numbered_breadth_first(v.children, v.nodes.len() as int),
                out@.len() <= n,
                out@ == block(0, out@.len() as int),
                f == first_child(v.children, out@.len() as int),
                out@.len() <= f,
                queue@ == block(out@.len() as int, f - out@.len()),
                f <= n,
                forall|c: int| 1 <= c < n ==> (#[trigger] v.parents[c]) is Some && v.parents[c]->0 < c,
                forall|c: int|
                    0 <= c < n && (#[trigger] v.parents[c]) is Some ==> {
                        let p = v.parents[c]->0;
                        &&& p < n
                        &&& v.children[p as int].contains(c as usize)
                    },
                v.parents.len() == n,
                v.children.len() == n,
                self.children@.len() == n,
            decreases n - out@.len(),
        {
            let ghost h = out@.len() as int;
            let ghost q0 = queue@;
            let node = queue.pop_front().unwrap();
            proof {
                reveal(numbered_breadth_first);
                assert(q0[0] == node);
                assert(node == h as usize);
                assert(queue@ =~= block(h + 1, f - h - 1));
                lemma_first_child_mono(v.children, h + 1, n as int);
            }
            let kids = self.children[node].iter();
            assert(kids@ == v.children[h]);
            let mut k: usize = 0;
            while k < kids.len()
                invariant
                    kids@ == v.children[h],
                    kids@ == block(f, kids@.len() as int),
                    k <= kids@.len(),
                    queue@ == block(h + 1, f + k - h - 1),
                    h + 1 <= f,
                    f + kids@.len() <= n,
                decreases kids@.len() - k,
            {
                queue.push_back(kids[k]);
                assert(queue@ =~= block(h + 1, f + k + 1 - h - 1));
                k = k + 1;
            }
            out.push(node);
            proof {
                f = f + kids@.len();
                assert(out@ =~= block(0, h + 1));
            }
        }
        proof {
            let h = out@.len() as int;
            if h < n {
                lemma_first_child_above(v.children, v.parents, n as int, h);
            }
            assert(out@ =~= Seq::new(n as nat, |i: int| i as usize));
        }
        out
    }
}

fn clone_handles(v: &Vec<u64>) -> (r: Vec<u64>)
    ensures
        r@ == v@,
{
    let mut r: Vec<u64> = Vec::new();
    let mut i: usize = 0;
    while i < v.len()
        invariant
            i <= v@.len(),
            r@ == v@.take(i as int),
        decreases v@.len() - i,
    {
        r.push(v[i]);
        assert(r@ =~= v@.take(i + 1));
        i = i + 1;
    }
    assert(v@.take(i as int) =~= v@);
    r
}

proof fn lemma_navigate_stuck(v: TreeView, cur: int, ops: Seq<OpModel>, i: int)
    requires
        0 <= i < ops.len(),
        match navigate(v, cur, ops.take(i)) {
            Some(c) => step(v, c, ops[i]) is None,
            None => true,
        },
    ensures
        navigate(v, cur, ops) is None,
    decreases ops.len() - i,
{
    assert(ops.take(i + 1).drop_last() =~= ops.take(i));
    if i + 1 < ops.len() {
        lemma_navigate_stuck(v, cur, ops, i + 1);
    } else {
        assert(ops.take(i + 1) =~= ops);
    }
}


/// The entity a prototype entity reference finds from the current node: its
/// access must be readable and valid, reach a node, and that node must have
/// an entity.
pub open spec fn entity_of(v: TreeView, e: ProtoEntity) -> Option<u64> {
    match proto_entity_ops(e) {
        Some(ops) => if ops_wf(ops) {
            match navigate(v, v.current, ops) {
                Some(n) => v.nodes[n].entity_view(),
                None => None,
            }
        } else {
            None
        },
        None => None,
    }
}

impl EntityTree {
    /// The entities found by a list of references, in order; nothing when
    /// one of them finds none.
    pub fn find_entities(&self, list: &ProtoEntityList) -> (r: Option<Vec<u64>>)
        requires
            self.wf(),
        ensures
            match r {
                Some(out) => out@.len() == list.0@.len() && forall|i: int|
                    0 <= i < out@.len() ==> Some(#[trigger] out@[i]) == entity_of(
                        self@,
                        list.0@[i],
                    ),
                None => exists|i: int|
                    0 <= i < list.0@.len() && #[trigger] entity_of(self@, list.0@[i]) is None,
            },
    {
        let mut out: Vec<u64> = Vec::new();
        let mut i: usize = 0;
        while i < list.0.len()
            invariant
                self.wf(),
                i <= list.0@.len(),
                out@.len() == i,
                forall|j: int| 0 <= j < i ==> Some(#[trigger] out@[j]) == entity_of(self@, list.0@[j]),
            decreases list.0@.len() - i,
        {
            let e = list.0[i].duplicate();
            match EntityAccess::try_from_proto_entity(e) {
                Err(_) => {
                    assert(entity_of(self@, list.0@[i as int]) is None);
                    return None;
                },
                Ok(access) => {
                    if !access.is_valid() {
                        assert(entity_of(self@, list.0@[i as int]) is None);
                        return None;
                    }
                    match self.find_entity(&access) {
                        Some(entity) => out.push(entity),
                        None => {
                            assert(entity_of(self@, list.0@[i as int]) is None);
                            return None;
                        },
                    }
                },
            }
            i = i + 1;
        }
        Some(out)
    }
}


/// From any node, `Root` reaches the root node.
pub proof fn law_root_reaches_root(t: EntityTree, node: int)
    requires
        t.wf(),
        0 <= node < t@.nodes.len(),
    ensures
        navigate(t@, node, seq![OpModel::Root]) == Some(0int),
{
    assert(seq![OpModel::Root].drop_last() =~= Seq::<OpModel>::empty());
    assert(navigate(t@, node, Seq::<OpModel>::empty()) == Some(node));
}

/// Going to a child and back to the parent returns to the node.
pub proof fn law_child_then_parent(t: EntityTree, node: int, k: int)
    requires
        t.wf(),
        0 <= node < t@.nodes.len(),
        0 <= k < t@.children[node].len(),
    ensures
        navigate(t@, node, seq![OpModel::ChildAt(k), OpModel::Parent]) == Some(node),
{
    let ops = seq![OpModel::ChildAt(k), OpModel::Parent];
    assert(ops.drop_last() =~= seq![OpModel::ChildAt(k)]);
    assert(ops.drop_last().drop_last() =~= Seq::<OpModel>::empty());
    let c = t@.children[node][k];
    assert(t@.children[node] == t.children@[node].children_view());
    assert(t.children@[node].children_view()[k] == c);
    assert(step(t@, node, OpModel::ChildAt(k)) == Some(c as int));
    assert(t.parents@[c as int] == Some(node as usize));
    assert(navigate(t@, node, Seq::<OpModel>::empty()) == Some(node));
    assert(navigate(t@, node, seq![OpModel::ChildAt(k)]) == Some(c as int));
}


/// Some position in `[a, b)` holds the `k`th id `id` from `a`, when there
/// are at least `k` of them.
proof fn lemma_count_reaches(ids: Seq<Seq<char>>, id: Seq<char>, a: int, b: int, k: int)
    requires
        0 <= a <= b <= ids.len(),
        1 <= k <= count_id(ids, id, a, b),
    ensures
        exists|p: int| a <= p < b && ids[p] == id && count_id(ids, id, a, p) + 1 == k,
    decreases b - a,
{
    if count_id(ids, id, a, b - 1) >= k {
        lemma_count_reaches(ids, id, a, b - 1, k);
        let p = choose|p: int| a <= p < b - 1 && ids[p] == id && count_id(ids, id, a, p) + 1 == k;
        assert(a <= p < b && ids[p] == id && count_id(ids, id, a, p) + 1 == k);
    } else {
        assert(ids[b - 1] == id && count_id(ids, id, a, b - 1) + 1 == k);
    }
}

/// The ids `id` around a position holding `id`: those before it, itself,
/// and those after it make up all of them.
proof fn lemma_count_around(ids: Seq<Seq<char>>, id: Seq<char>, p: int)
    requires
        0 <= p < ids.len(),
        ids[p] == id,
    ensures
        count_id(ids, id, 0, ids.len() as int) == count_id(ids, id, 0, p) + 1 + count_id(
            ids,
            id,
            p + 1,
            ids.len() as int,
        ),
{
    lemma_count_split(ids, id, 0, p, ids.len() as int);
    lemma_count_step(ids, id, p, ids.len() as int);
}

/// Among the children of a node, let those with the given id be, in order,
/// the children at positions p_1 < ... < p_m (p_k being the position with
/// id `id` that has k - 1 of them before it). Then the child access by id
/// with occurrence `j` reaches the child at p_j when 1 <= j <= m, the child
/// at p_{m+1+j} (the |j|th from the last) when -m <= j <= -1, and nothing
/// when |j| > m.
pub proof fn law_child_by_id(t: EntityTree, node: int, id: Seq<char>, j: int)
    requires
        t.wf(),
        0 <= node < t@.nodes.len(),
        j != 0,
    ensures
        ({
            let ids = t@.ids[node];
            let m = count_id(ids, id, 0, ids.len() as int);
            &&& step(t@, node, OpModel::ChildId(id, j)) is None <==> abs(j) > m
            &&& step(t@, node, OpModel::ChildId(id, j)) matches Some(c) ==> exists|p: int|
                0 <= p < ids.len() && ids[p] == id && count_id(ids, id, 0, p) == (if j > 0 {
                    j - 1
                } else {
                    m + j
                }) && c == t@.children[node][p]
        }),
{
    let ids = t@.ids[node];
    let len = ids.len() as int;
    let m = count_id(ids, id, 0, len);
    assert(t.children@[node].wf());
    assert(t@.children[node].len() == len);
    let last = if len >= 1 {
        len - 1
    } else {
        0
    };
    let r = step(t@, node, OpModel::ChildId(id, j));
    if j > 0 {
        // Searching upwards from the first child.
        if j <= m {
            lemma_count_reaches(ids, id, 0, len, j);
            let p = choose|p: int| 0 <= p < len && ids[p] == id && count_id(ids, id, 0, p) + 1 == j;
            assert(is_nth_up(ids, id, 0, last, j, p));
        }
        match nth_position(ids, id, 0, last, j) {
            Some(p) => {
                assert(is_nth_up(ids, id, 0, last, j, p));
                lemma_count_around(ids, id, p);
                assert(r == Some(t@.children[node][p] as int));
            },
            None => {},
        }
    } else {
        let k = -j;
        if len >= 2 {
            if k <= m {
                lemma_count_reaches(ids, id, 0, len, m - k + 1);
                let p = choose|p: int|
                    0 <= p < len && ids[p] == id && count_id(ids, id, 0, p) + 1 == m - k + 1;
                lemma_count_around(ids, id, p);
                assert(is_nth_down(ids, id, 0, last, k, p));
            }
            match nth_position(ids, id, last, 0, k) {
                Some(p) => {
                    assert(is_nth_down(ids, id, 0, last, k, p));
                    lemma_count_around(ids, id, p);
                    assert(r == Some(t@.children[node][p] as int));
                },
                None => {},
            }
        } else if len == 1 {
            assert(count_id(ids, id, 0, 0) == 0);
            assert(m == count_id(ids, id, 0, 0) + if ids[0] == id {
                1nat
            } else {
                0nat
            });
            if k == 1 && ids[0] == id {
                assert(is_nth_up(ids, id, 0, 0, k, 0));
            }
            match nth_position(ids, id, 0, 0, k) {
                Some(p) => {
                    assert(is_nth_up(ids, id, 0, 0, k, p));
                    assert(p == 0);
                },
                None => {},
            }
        } else {
            assert(m == 0);
        }
    }
}


proof fn lemma_count_around_range(ids: Seq<Seq<char>>, id: Seq<char>, a: int, p: int, b: int)
    requires
        a <= p < b,
        0 <= p < ids.len(),
        ids[p] == id,
    ensures
        count_id(ids, id, a, b) == count_id(ids, id, a, p) + 1 + count_id(ids, id, p + 1, b),
{
    lemma_count_split(ids, id, a, p, b);
    lemma_count_step(ids, id, p, b);
}

/// Searching upwards in `[lo, hi]` for the `occ`th id `id`: found exactly
/// when there are at least `occ` of them, at the position with `occ - 1`
/// of them before it.
proof fn lemma_nth_up(ids: Seq<Seq<char>>, id: Seq<char>, lo: int, hi: int, occ: int)
    requires
        0 <= lo <= hi < ids.len(),
        occ >= 1,
    ensures
        nth_position(ids, id, lo, hi, occ) is None <==> count_id(ids, id, lo, hi + 1) < occ,
        nth_position(ids, id, lo, hi, occ) matches Some(p) ==> lo <= p <= hi && ids[p] == id
            && count_id(ids, id, lo, p) + 1 == occ,
{
    if occ <= count_id(ids, id, lo, hi + 1) {
        lemma_count_reaches(ids, id, lo, hi + 1, occ);
        let p = choose|p: int| lo <= p < hi + 1 && ids[p] == id && count_id(ids, id, lo, p) + 1 == occ;
        assert(is_nth_up(ids, id, lo, hi, occ, p));
    }
    if let Some(p) = nth_position(ids, id, lo, hi, occ) {
        assert(is_nth_up(ids, id, lo, hi, occ, p));
        lemma_count_around_range(ids, id, lo, p, hi + 1);
    }
}

/// Searching downwards from `hi` to `lo` for the `occ`th id `id`: found
/// exactly when there are at least `occ` of them, at the position with
/// `occ - 1` of them after it.
proof fn lemma_nth_down(ids: Seq<Seq<char>>, id: Seq<char>, lo: int, hi: int, occ: int)
    requires
        0 <= lo <= hi < ids.len(),
        occ >= 1,
    ensures
        nth_position(ids, id, hi, lo, occ) is None <==> count_id(ids, id, lo, hi + 1) < occ,
        nth_position(ids, id, hi, lo, occ) matches Some(p) ==> lo <= p <= hi && ids[p] == id
            && count_id(ids, id, p + 1, hi + 1) + 1 == occ,
{
    let m = count_id(ids, id, lo, hi + 1);
    if lo < hi {
        if occ <= m {
            lemma_count_reaches(ids, id, lo, hi + 1, m - occ + 1);
            let p = choose|p: int|
                lo <= p < hi + 1 && ids[p] == id && count_id(ids, id, lo, p) + 1 == m - occ + 1;
            lemma_count_around_range(ids, id, lo, p, hi + 1);
            assert(is_nth_down(ids, id, lo, hi, occ, p));
        }
        if let Some(p) = nth_position(ids, id, hi, lo, occ) {
            assert(is_nth_down(ids, id, lo, hi, occ, p));
            lemma_count_around_range(ids, id, lo, p, hi + 1);
        }
    } else {
        assert(count_id(ids, id, lo, lo) == 0);
        assert(m == count_id(ids, id, lo, lo) + if ids[lo] == id {
            1nat
        } else {
            0nat
        });
        if occ == 1 && ids[lo] == id {
            assert(is_nth_up(ids, id, lo, lo, occ, lo));
        }
        if let Some(p) = nth_position(ids, id, lo, lo, occ) {
            assert(is_nth_up(ids, id, lo, lo, occ, p));
            assert(p == lo);
            assert(count_id(ids, id, lo + 1, lo + 1) == 0);
        }
    }
}

/// An item of a sequence has a first position.
proof fn lemma_position_exists(s: Seq<usize>, x: int, k: int)
    requires
        0 <= k < s.len(),
        s[k] == x,
    ensures
        position_of(s, x) is Some,
    decreases k,
{
    if exists|j: int| 0 <= j < k && s[j] == x {
        let j = choose|j: int| 0 <= j < k && s[j] == x;
        lemma_position_exists(s, x, j);
    } else {
        lemma_position_of(s, x, k);
    }
}

/// Let a node be the child at position k of its parent. The sibling access
/// by id with occurrence `j` looks only at the siblings after it (j > 0,
/// from the next one on) or before it (j < 0, from the previous one back):
/// it reaches the sibling at the position x > k with j - 1 siblings named
/// `id` between the node and it, or the position x < k with |j| - 1 of
/// them between it and the node, and nothing when fewer than |j| siblings
/// on that side are named `id`. It never reaches the node's own position
/// (so the last child named `id` finds no next one).
pub proof fn law_sibling_by_id(t: EntityTree, node: int, id: Seq<char>, j: int)
    requires
        t.wf(),
        0 <= node < t@.nodes.len(),
        t@.parents[node] is Some,
        j != 0,
    ensures
        ({
            let p = t@.parents[node]->0 as int;
            let ids = t@.ids[p];
            let k = position_of(t@.children[p], node)->0;
            let r = step(t@, node, OpModel::SiblingId(id, j));
            &&& position_of(t@.children[p], node) is Some
            &&& j > 0 ==> (r is None <==> count_id(ids, id, k + 1, ids.len() as int) < j)
            &&& j > 0 ==> (r matches Some(c) ==> exists|x: int|
                k < x < ids.len() && ids[x] == id && count_id(ids, id, k + 1, x) == j - 1 && c
                    == t@.children[p][x])
            &&& j < 0 ==> (r is None <==> count_id(ids, id, 0, k) < -j)
            &&& j < 0 ==> (r matches Some(c) ==> exists|x: int|
                0 <= x < k && ids[x] == id && count_id(ids, id, x + 1, k) == -j - 1 && c
                    == t@.children[p][x])
        }),
{
    let p = t@.parents[node]->0 as int;
    assert(t.parents@[node] is Some);
    assert(0 <= p < t@.nodes.len());
    assert(t.children@[p].children_view().contains(node as usize));
    assert(t@.children[p] == t.children@[p].children_view());
    let s = t@.children[p];
    let w = choose|w: int| 0 <= w < s.len() && s[w] == node as usize;
    lemma_position_exists(s, node, w);
    let k = position_of(s, node)->0;
    let ck = choose|c: int| 0 <= c < s.len() && s[c] == node && forall|i: int| 0 <= i < c ==> s[i] != node;
    assert(0 <= k < s.len());
    let ids = t@.ids[p];
    assert(t.children@[p].wf());
    assert(ids.len() == s.len());
    let len = s.len() as int;
    let r = step(t@, node, OpModel::SiblingId(id, j));
    if j > 0 {
        if k + 1 >= len {
            assert(count_id(ids, id, k + 1, len) == 0);
        } else {
            lemma_nth_up(ids, id, k + 1, len - 1, j);
            if let Some(x) = nth_position(ids, id, k + 1, len - 1, j) {
                assert(r == Some(s[x] as int));
            }
        }
    } else {
        if k == 0 {
            assert(count_id(ids, id, 0, 0) == 0);
        } else {
            lemma_nth_down(ids, id, 0, k - 1, -j);
            assert(abs(j) == -j);
            if let Some(x) = nth_position(ids, id, k - 1, 0, -j) {
                assert(r == Some(s[x] as int));
            }
        }
    }
}

/// The entity of the node reached, if a node is reached.
pub open spec fn entity_at(v: TreeView, n: Option<int>) -> Option<u64> {
    match n {
        Some(n) => v.nodes[n].entity_view(),
        None => None,
    }
}

/// A reference to a child, a sibling, the parent or the root finds the
/// entity one step from the current node (a child or sibling of the
/// current node, not of the root); an ancestor one level up is the parent,
/// and zero levels up is the current node itself.
pub proof fn law_reference_steps(v: TreeView, c: ChildAccess, sa: SiblingAccess)
    ensures
        c.wf() ==> entity_of(v, ProtoEntity::Child(c)) == entity_at(v, step(v, v.current, c.model())),
        sa.wf() ==> entity_of(v, ProtoEntity::Sibling(sa)) == entity_at(
            v,
            step(v, v.current, sa.model()),
        ),
        entity_of(v, ProtoEntity::Parent) == entity_at(v, step(v, v.current, OpModel::Parent)),
        entity_of(v, ProtoEntity::Root) == entity_at(v, Some(0int)),
        entity_of(v, ProtoEntity::Ancestor(1)) == entity_of(v, ProtoEntity::Parent),
        entity_of(v, ProtoEntity::Ancestor(0)) == entity_at(v, Some(v.current)),
{
    assert forall|op: OpModel| #[trigger] navigate(v, v.current, seq![op]) == step(v, v.current, op) by {
        assert(seq![op].drop_last() =~= Seq::<OpModel>::empty());
        assert(navigate(v, v.current, Seq::<OpModel>::empty()) == Some(v.current));
    }
    let cm = c.model();
    let sm = sa.model();
    assert(navigate(v, v.current, seq![cm]) == step(v, v.current, cm));
    assert(navigate(v, v.current, seq![sm]) == step(v, v.current, sm));
    assert(navigate(v, v.current, seq![OpModel::Parent]) == step(v, v.current, OpModel::Parent));
    assert(navigate(v, v.current, seq![OpModel::Root]) == step(v, v.current, OpModel::Root));
    if c.wf() {
        assert(ops_wf(seq![cm]));
    }
    if sa.wf() {
        assert(ops_wf(seq![sm]));
    }
    assert(ops_wf(seq![OpModel::Parent]));
    assert(ops_wf(seq![OpModel::Root]));
    assert(Seq::new(1nat, |i: int| OpModel::Parent) =~= seq![OpModel::Parent]);
    assert(Seq::new(0nat, |i: int| OpModel::Parent) =~= Seq::<OpModel>::empty());
    assert(navigate(v, v.current, Seq::<OpModel>::empty()) == Some(v.current));
}

impl ProtoTree {
    /// The entity tree of this prototype tree, with the given root entity.
    pub fn to_entity_tree(&self, root: Option<u64>) -> (r: EntityTree)
        ensures
            r.wf(),
            lays_out(r@, self@, root),
    {
        EntityTree::new(self, root)
    }
}

} // verus!
