//! Building the tree of a prototype from its children and templates, with
//! the registry as the cache of built trees and a check for cycles along
//! the path being built.
use vstd::prelude::*;
use vstd::set_lib::lemma_len_subset;

use crate::derive::attr::texts;
use crate::registry::{dependents_of, with_dependent, ProtoRegistry, RegistryView};
use crate::tree::proto_tree::{append_tree, inherit_tree, ProtoTree, TreeModel};

verus! {

broadcast use vstd::seq_lib::seq_to_set_is_finite;

/// A child of a prototype: its handle and the merge key it is appended
/// with.
#[derive(Debug)]
pub struct ChildInfo {
    pub handle: u64,
    pub merge_key: Option<String>,
}

/// What building a tree reads of a loaded prototype.
#[derive(Debug)]
pub struct PrototypeInfo {
    /// The prototype's id.
    pub id: String,
    /// Whether it requires an entity.
    pub requires_entity: bool,
    /// The handles of its templates, in order.
    pub templates: Vec<u64>,
    /// Its children, in order.
    pub children: Vec<ChildInfo>,
}

pub open spec fn opt_text(o: Option<String>) -> Option<Seq<char>> {
    match o {
        Some(s) => Some(s@),
        None => None,
    }
}

/// The mathematical value of a prototype's information.
pub struct InfoView {
    pub id: Seq<char>,
    pub requires_entity: bool,
    pub templates: Seq<u64>,
    pub children: Seq<(u64, Option<Seq<char>>)>,
}

impl View for PrototypeInfo {
    type V = InfoView;

    open spec fn view(&self) -> InfoView {
        InfoView {
            id: self.id@,
            requires_entity: self.requires_entity,
            templates: self.templates@,
            children: self.children@.map_values(|c: ChildInfo| (c.handle, opt_text(c.merge_key))),
        }
    }
}

/// The loaded prototypes, by handle, as values.
pub open spec fn store_view(s: Seq<(u64, PrototypeInfo)>) -> Seq<(u64, InfoView)> {
    s.map_values(|e: (u64, PrototypeInfo)| (e.0, e.1@))
}

/// The first position of the prototype with the given handle.
pub open spec fn first_index(s: Seq<(u64, InfoView)>, h: u64) -> Option<int> {
    if exists|i: int| 0 <= i < s.len() && s[i].0 == h && forall|j: int| 0 <= j < i ==> s[j].0 != h {
        Some(choose|i: int| 0 <= i < s.len() && s[i].0 == h && forall|j: int| 0 <= j < i ==> s[j].0 != h)
    } else {
        None
    }
}

/// The loaded prototype with the given handle, if there is one.
pub open spec fn lookup(s: Seq<(u64, InfoView)>, h: u64) -> Option<InfoView> {
    match first_index(s, h) {
        Some(i) => Some(s[i].1),
        None => None,
    }
}

/// How a cycle found while building is answered (the answer configured
/// for the build).
#[derive(Debug, Clone, Copy, PartialEq, Eq, Structural)]
pub enum CycleResponse {
    /// The prototype that closes the cycle is skipped.
    Ignore,
    /// The build fails.
    Cancel,
    /// The build fails and the caller panics.
    Panic,
}

/// Why a tree could not be built.
#[derive(Debug)]
pub enum BuildError {
    /// No prototype is loaded for the handle.
    DoesNotExist(u64),
    /// A cycle was found and the build cancelled: the ids along the path,
    /// ending with the one that was already on it.
    ContainsCycle(Vec<String>),
    /// A cycle was found and the answer is to panic (same ids).
    CyclePanic(Vec<String>),
    /// The prototype with the given id has children but requires no entity.
    RequiresEntity(String),
}

pub enum BuildErrorView {
    DoesNotExist(u64),
    ContainsCycle(Seq<Seq<char>>),
    CyclePanic(Seq<Seq<char>>),
    RequiresEntity(Seq<char>),
}

impl View for BuildError {
    type V = BuildErrorView;

    open spec fn view(&self) -> BuildErrorView {
        match self {
            BuildError::DoesNotExist(h) => BuildErrorView::DoesNotExist(*h),
            BuildError::ContainsCycle(c) => BuildErrorView::ContainsCycle(texts(c@)),
            BuildError::CyclePanic(c) => BuildErrorView::CyclePanic(texts(c@)),
            BuildError::RequiresEntity(id) => BuildErrorView::RequiresEntity(id@),
        }
    }
}

pub type BuildOutcome = (RegistryView, Result<TreeModel, BuildErrorView>);

pub open spec fn outcome_of(r: RegistryView, res: Result<ProtoTree, BuildError>) -> BuildOutcome {
    match res {
        Ok(t) => (r, Ok(t@)),
        Err(e) => (r, Err(e@)),
    }
}

/// Building changes only the cached trees and the dependents.
pub open spec fn builds_only(after: RegistryView, before: RegistryView) -> bool {
    &&& after.ids == before.ids
    &&& after.handles == before.handles
    &&& after.failed == before.failed
    &&& after.queue == before.queue
}

/// The tree of a prototype before its children and templates.
pub open spec fn new_tree(h: u64, mk: Option<Seq<char>>, info: InfoView) -> TreeModel {
    TreeModel {
        id: info.id,
        handle: h,
        requires_entity: info.requires_entity,
        prototypes: seq![h],
        merge_key: mk,
        children: Seq::empty(),
    }
}

/// The registry once `dependent` is recorded as depending on `dependency`.
pub open spec fn add_dep(r: RegistryView, dependent: u64, dependency: u64) -> RegistryView {
    RegistryView {
        dependents: r.dependents.insert(
            dependent,
            with_dependent(dependents_of(r, dependent), dependency),
        ),
        ..r
    }
}

/// What a cycle leads to: skipping the prototype that closes it, or
/// failing with the cycle.
pub open spec fn cycle_outcome(r: RegistryView, t: TreeModel, cycle: Seq<Seq<char>>, resp: CycleResponse) -> BuildOutcome {
    match resp {
        CycleResponse::Ignore => (r, Ok(t)),
        CycleResponse::Cancel => (r, Err(BuildErrorView::ContainsCycle(cycle))),
        CycleResponse::Panic => (r, Err(BuildErrorView::CyclePanic(cycle))),
    }
}

/// Building the tree of the prototype `info` with handle `h` and merge key
/// `mk`, with the ids of `path` on the way to it: a cached tree is taken as
/// it is; otherwise its children are appended, then its templates
/// inherited, a tree with children that requires no entity is refused, and
/// the tree is cached.
pub open spec fn build_spec(
    s: Seq<(u64, InfoView)>,
    r: RegistryView,
    h: u64,
    info: InfoView,
    mk: Option<Seq<char>>,
    path: Seq<Seq<char>>,
    resp: CycleResponse,
) -> BuildOutcome
    decreases s.len() - path.len(), 2int, 0int,
{
    if r.trees.contains_key(h) {
        (r, Ok(r.trees[h]))
    } else {
        let t0 = new_tree(h, mk, info);
        let (r1, c) = children_spec(s, r, h, t0, info.children, info.children.len() as int, path, resp);
        match c {
            Err(e) => (r1, Err(e)),
            Ok(t1) => {
                let (r2, u) = templates_spec(s, r1, h, t1, info.templates, info.templates.len() as int, path, resp);
                match u {
                    Err(e) => (r2, Err(e)),
                    Ok(t2) => if !t2.requires_entity && t2.children.len() > 0 {
                        (r2, Err(BuildErrorView::RequiresEntity(info.id)))
                    } else {
                        (RegistryView { trees: r2.trees.insert(h, t2), ..r2 }, Ok(t2))
                    },
                }
            },
        }
    }
}

/// Appending the first `n` children `cs` to the tree `t0` of handle `h`:
/// each child must be loaded, becomes a dependent of `h`, and is either a
/// cycle (its id is on the path) or built and appended. (A path holds no id
/// twice and only ids of loaded prototypes, so it is always shorter than
/// the store when a child is built: the last branch is never taken.)
pub open spec fn children_spec(
    s: Seq<(u64, InfoView)>,
    r: RegistryView,
    h: u64,
    t0: TreeModel,
    cs: Seq<(u64, Option<Seq<char>>)>,
    n: int,
    path: Seq<Seq<char>>,
    resp: CycleResponse,
) -> BuildOutcome
    decreases s.len() - path.len(), 1int, n,
{
    if n <= 0 {
        (r, Ok(t0))
    } else {
        let (r1, prev) = children_spec(s, r, h, t0, cs, n - 1, path, resp);
        match prev {
            Err(e) => (r1, Err(e)),
            Ok(t1) => {
                let c = cs[n - 1];
                match lookup(s, c.0) {
                    None => (r1, Err(BuildErrorView::DoesNotExist(c.0))),
                    Some(ci) => {
                        let r2 = add_dep(r1, c.0, h);
                        if path.contains(ci.id) {
                            cycle_outcome(r2, t1, path.push(ci.id), resp)
                        } else if path.len() < s.len() {
                            let (r3, built) = build_spec(s, r2, c.0, ci, c.1, path.push(ci.id), resp);
                            match built {
                                Err(e) => (r3, Err(e)),
                                Ok(ct) => (r3, Ok(append_tree(t1, ct))),
                            }
                        } else {
                            (r2, Ok(t1))
                        }
                    },
                }
            },
        }
    }
}

/// Inheriting the first `n` templates `ts` into the tree `t0` of handle
/// `h`, in the same way (templates are built without a merge key).
pub open spec fn templates_spec(
    s: Seq<(u64, InfoView)>,
    r: RegistryView,
    h: u64,
    t0: TreeModel,
    ts: Seq<u64>,
    n: int,
    path: Seq<Seq<char>>,
    resp: CycleResponse,
) -> BuildOutcome
    decreases s.len() - path.len(), 1int, n,
{
    if n <= 0 {
        (r, Ok(t0))
    } else {
        let (r1, prev) = templates_spec(s, r, h, t0, ts, n - 1, path, resp);
        match prev {
            Err(e) => (r1, Err(e)),
            Ok(t1) => {
                let th = ts[n - 1];
                match lookup(s, th) {
                    None => (r1, Err(BuildErrorView::DoesNotExist(th))),
                    Some(ti) => {
                        let r2 = add_dep(r1, th, h);
                        if path.contains(ti.id) {
                            cycle_outcome(r2, t1, path.push(ti.id), resp)
                        } else if path.len() < s.len() {
                            let (r3, built) = build_spec(s, r2, th, ti, None, path.push(ti.id), resp);
                            match built {
                                Err(e) => (r3, Err(e)),
                                Ok(tt) => (r3, Ok(inherit_tree(t1, tt))),
                            }
                        } else {
                            (r2, Ok(t1))
                        }
                    },
                }
            },
        }
    }
}

/// Building the tree of the prototype with handle `h`: it must be loaded,
/// and the path starts with its own id.
pub open spec fn build_tree_spec(s: Seq<(u64, InfoView)>, r: RegistryView, h: u64, resp: CycleResponse) -> BuildOutcome {
    match lookup(s, h) {
        None => (r, Err(BuildErrorView::DoesNotExist(h))),
        Some(info) => build_spec(s, r, h, info, None, seq![info.id], resp),
    }
}

/// The ids of the loaded prototypes.
pub open spec fn store_ids(s: Seq<(u64, InfoView)>) -> Seq<Seq<char>> {
    s.map_values(|e: (u64, InfoView)| e.1.id)
}

/// A path of ids: no id twice, each the id of a loaded prototype.
pub open spec fn path_ok(s: Seq<(u64, InfoView)>, path: Seq<Seq<char>>) -> bool {
    &&& path.no_duplicates()
    &&& forall|i: int| 0 <= i < path.len() ==> store_ids(s).contains(#[trigger] path[i])
}

/// A path never holds more ids than there are loaded prototypes.
proof fn lemma_path_bound(s: Seq<(u64, InfoView)>, path: Seq<Seq<char>>)
    requires
        path_ok(s, path),
    ensures
        path.len() <= s.len(),
{
    path.unique_seq_to_set();
    store_ids(s).lemma_cardinality_of_set();
    assert(path.to_set().subset_of(store_ids(s).to_set())) by {
        assert forall|x: Seq<char>| path.to_set().contains(x) implies store_ids(s).to_set().contains(x) by {
            let i = choose|i: int| 0 <= i < path.len() && path[i] == x;
            assert(store_ids(s).contains(path[i]));
        }
    }
    lemma_len_subset(path.to_set(), store_ids(s).to_set());
}

/// Extending a path with the id of a loaded prototype not on it.
proof fn lemma_path_push(s: Seq<(u64, InfoView)>, path: Seq<Seq<char>>, h: u64)
    requires
        path_ok(s, path),
        lookup(s, h) is Some,
        !path.contains(lookup(s, h)->0.id),
    ensures
        path_ok(s, path.push(lookup(s, h)->0.id)),
        path.len() < s.len(),
{
    let id = lookup(s, h)->0.id;
    let i = first_index(s, h)->0;
    let w = choose|w: int| 0 <= w < s.len() && s[w].0 == h && forall|j: int| 0 <= j < w ==> s[j].0 != h;
    assert(0 <= i < s.len());
    assert(store_ids(s)[i] == id);
    let p2 = path.push(id);
    assert forall|a: int| 0 <= a < p2.len() implies store_ids(s).contains(#[trigger] p2[a]) by {
        if a < path.len() {
            assert(p2[a] == path[a]);
        }
    }
    assert forall|a: int, b: int| 0 <= a < p2.len() && 0 <= b < p2.len() && a != b implies p2[a] != p2[b] by {
        if a < path.len() && b < path.len() {
            assert(p2[a] == path[a] && p2[b] == path[b]);
        } else if a < path.len() {
            assert(path.contains(path[a]));
        } else {
            assert(path.contains(path[b]));
        }
    }
    lemma_path_bound(s, p2);
}

proof fn lemma_first_index(s: Seq<(u64, InfoView)>, h: u64, i: int)
    requires
        0 <= i < s.len(),
        s[i].0 == h,
        forall|j: int| 0 <= j < i ==> s[j].0 != h,
    ensures
        first_index(s, h) == Some(i),
{
    let c = choose|c: int| 0 <= c < s.len() && s[c].0 == h && forall|j: int| 0 <= j < c ==> s[j].0 != h;
    assert(0 <= c < s.len() && s[c].0 == h && forall|j: int| 0 <= j < c ==> s[j].0 != h);
    if c < i {
        assert(s[c].0 != h);
    }
    if c > i {
        assert(s[i].0 != h);
    }
}

proof fn lemma_children_err_stays(
    s: Seq<(u64, InfoView)>,
    r: RegistryView,
    h: u64,
    t0: TreeModel,
    cs: Seq<(u64, Option<Seq<char>>)>,
    k: int,
    n: int,
    path: Seq<Seq<char>>,
    resp: CycleResponse,
)
    requires
        0 <= k <= n,
        children_spec(s, r, h, t0, cs, k, path, resp).1 is Err,
    ensures
        children_spec(s, r, h, t0, cs, n, path, resp) == children_spec(s, r, h, t0, cs, k, path, resp),
    decreases n - k,
{
    if n > k {
        lemma_children_err_stays(s, r, h, t0, cs, k, n - 1, path, resp);
    }
}

proof fn lemma_templates_err_stays(
    s: Seq<(u64, InfoView)>,
    r: RegistryView,
    h: u64,
    t0: TreeModel,
    ts: Seq<u64>,
    k: int,
    n: int,
    path: Seq<Seq<char>>,
    resp: CycleResponse,
)
    requires
        0 <= k <= n,
        templates_spec(s, r, h, t0, ts, k, path, resp).1 is Err,
    ensures
        templates_spec(s, r, h, t0, ts, n, path, resp) == templates_spec(s, r, h, t0, ts, k, path, resp),
    decreases n - k,
{
    if n > k {
        lemma_templates_err_stays(s, r, h, t0, ts, k, n - 1, path, resp);
    }
}

/// The position of the loaded prototype with the given handle.
pub fn find_prototype(store: &Vec<(u64, PrototypeInfo)>, h: u64) -> (r: Option<usize>)
    ensures
        match r {
            Some(j) => j < store@.len() && first_index(store_view(store@), h) == Some(j as int),
            None => first_index(store_view(store@), h) is None,
        },
{
    let ghost sv = store_view(store@);
    let mut i: usize = 0;
    while i < store.len()
        invariant
            i <= store@.len(),
            sv == store_view(store@),
            forall|j: int| 0 <= j < i ==> sv[j].0 != h,
        decreases store@.len() - i,
    {
        if store[i].0 == h {
            proof {
                assert(sv[i as int].0 == h);
                lemma_first_index(sv, h, i as int);
            }
            return Some(i);
        }
        assert(sv[i as int].0 != h);
        i = i + 1;
    }
    None
}

/// Whether the id is on the path.
fn path_contains(path: &Vec<String>, id: &String) -> (r: bool)
    ensures
        r == texts(path@).contains(id@),
{
    let mut i: usize = 0;
    while i < path.len()
        invariant
            i <= path@.len(),
            forall|j: int| 0 <= j < i ==> texts(path@)[j] != id@,
        decreases path@.len() - i,
    {
        if path[i].eq(id) {
            assert(texts(path@)[i as int] == id@);
            return true;
        }
        i = i + 1;
    }
    false
}

/// The path with one more id.
fn path_with(path: &Vec<String>, id: &String) -> (r: Vec<String>)
    ensures
        texts(r@) == texts(path@).push(id@),
{
    let mut out: Vec<String> = Vec::new();
    let mut i: usize = 0;
    while i < path.len()
        invariant
            i <= path@.len(),
            out@.len() == i,
            forall|k: int| 0 <= k < i ==> (#[trigger] out@[k])@ == path@[k]@,
        decreases path@.len() - i,
    {
        let item = path[i].clone();
        out.push(item);
        i = i + 1;
    }
    let last = id.clone();
    out.push(last);
    assert(texts(out@) =~= texts(path@).push(id@));
    out
}

fn copy_key(k: &Option<String>) -> (r: Option<String>)
    ensures
        opt_text(r) == opt_text(*k),
{
    match k {
        Some(s) => Some(s.clone()),
        None => None,
    }
}

/// The tree of the loaded prototype `info` with handle `h`, reached with
/// merge key `mk` along `path`.
fn recursive_build(
    reg: &mut ProtoRegistry,
    store: &Vec<(u64, PrototypeInfo)>,
    h: u64,
    info: &PrototypeInfo,
    mk: Option<String>,
    path: &Vec<String>,
    resp: CycleResponse,
) -> (r: Result<ProtoTree, BuildError>)
    requires
        old(reg).wf(),
        path_ok(store_view(store@), texts(path@)),
    ensures
        final(reg).wf(),
        builds_only(final(reg)@, old(reg)@),
        outcome_of(final(reg)@, r) == build_spec(
            store_view(store@),
            old(reg)@,
            h,
            info@,
            opt_text(mk),
            texts(path@),
            resp,
        ),
    decreases store_view(store@).len() - texts(path@).len(), 2int, 0int,
{
    match reg.get_tree(h) {
        Some(t) => {
            return Ok(t.duplicate());
        },
        None => {},
    }
    let ghost r0 = reg@;
    let t0 = ProtoTree::new(h, copy_key(&mk), info.id.clone(), info.requires_entity);
    assert(t0@ == new_tree(h, opt_text(mk), info@));
    let t1 = match recurse_children(reg, store, h, t0, info, path, resp) {
        Ok(t) => t,
        Err(e) => return Err(e),
    };
    let t2 = match recurse_templates(reg, store, h, t1, info, path, resp) {
        Ok(t) => t,
        Err(e) => return Err(e),
    };
    if !t2.requires_entity() && t2.children().len() > 0 {
        return Err(BuildError::RequiresEntity(info.id.clone()));
    }
    let cached = t2.duplicate();
    let _ = reg.insert_tree(h, cached);
    Ok(t2)
}

/// Append the children of `info` to `t0`, the tree of handle `h`.
#[verifier::rlimit(40)]
fn recurse_children(
    reg: &mut ProtoRegistry,
    store: &Vec<(u64, PrototypeInfo)>,
    h: u64,
    t0: ProtoTree,
    info: &PrototypeInfo,
    path: &Vec<String>,
    resp: CycleResponse,
) -> (r: Result<ProtoTree, BuildError>)
    requires
        old(reg).wf(),
        path_ok(store_view(store@), texts(path@)),
    ensures
        final(reg).wf(),
        builds_only(final(reg)@, old(reg)@),
        outcome_of(final(reg)@, r) == children_spec(
            store_view(store@),
            old(reg)@,
            h,
            t0@,
            info@.children,
            info@.children.len() as int,
            texts(path@),
            resp,
        ),
    decreases store_view(store@).len() - texts(path@).len(), 1int, 0int,
{
    let ghost sv = store_view(store@);
    let ghost pv = texts(path@);
    let ghost r0 = reg@;
    let ghost m0 = t0@;
    let ghost cs = info@.children;
    let mut t = t0;
    let mut i: usize = 0;
    while i < info.children.len()
        invariant
            reg.wf(),
            i <= info.children@.len(),
            sv == store_view(store@),
            pv == texts(path@),
            cs == info@.children,
            r0 == old(reg)@,
            m0 == t0@,
            builds_only(reg@, r0),
            path_ok(sv, pv),
            children_spec(sv, r0, h, m0, cs, i as int, pv, resp) == (reg@, Ok::<TreeModel, BuildErrorView>(t@)),
        decreases info.children@.len() - i,
    {
        let c = &info.children[i];
        assert(cs[i as int] == (c.handle, opt_text(c.merge_key)));
        let j = match find_prototype(store, c.handle) {
            Some(j) => j,
            None => {
                proof {
                    assert(lookup(sv, c.handle) is None);
                    assert(children_spec(sv, r0, h, m0, cs, i + 1, pv, resp) == (reg@, Err::<TreeModel, BuildErrorView>(BuildErrorView::DoesNotExist(c.handle))));
                    lemma_children_err_stays(sv, r0, h, m0, cs, i + 1, cs.len() as int, pv, resp);
                }
                return Err(BuildError::DoesNotExist(c.handle));
            },
        };
        let ci = &store[j].1;
        assert(lookup(sv, c.handle) == Some(ci@));
        reg.add_dependent(c.handle, h);
        if path_contains(path, &ci.id) {
            if resp != CycleResponse::Ignore {
                let cycle = path_with(path, &ci.id);
                proof {
                    lemma_children_err_stays(sv, r0, h, m0, cs, i + 1, cs.len() as int, pv, resp);
                }
                if resp == CycleResponse::Cancel {
                    return Err(BuildError::ContainsCycle(cycle));
                } else {
                    return Err(BuildError::CyclePanic(cycle));
                }
            }
        } else {
            proof {
                lemma_path_push(sv, pv, c.handle);
            }
            let next = path_with(path, &ci.id);
            let built = recursive_build(reg, store, c.handle, ci, copy_key(&c.merge_key), &next, resp);
            match built {
                Ok(ct) => {
                    t.append_child(ct);
                },
                Err(e) => {
                    proof {
                        assert(children_spec(sv, r0, h, m0, cs, i + 1, pv, resp) == (reg@, Err::<TreeModel, BuildErrorView>(e@)));
                        lemma_children_err_stays(sv, r0, h, m0, cs, i + 1, cs.len() as int, pv, resp);
                    }
                    return Err(e);
                },
            }
        }
        i = i + 1;
    }
    Ok(t)
}

/// Inherit the templates of `info` into `t0`, the tree of handle `h`.
#[verifier::rlimit(40)]
fn recurse_templates(
    reg: &mut ProtoRegistry,
    store: &Vec<(u64, PrototypeInfo)>,
    h: u64,
    t0: ProtoTree,
    info: &PrototypeInfo,
    path: &Vec<String>,
    resp: CycleResponse,
) -> (r: Result<ProtoTree, BuildError>)
    requires
        old(reg).wf(),
        path_ok(store_view(store@), texts(path@)),
    ensures
        final(reg).wf(),
        builds_only(final(reg)@, old(reg)@),
        outcome_of(final(reg)@, r) == templates_spec(
            store_view(store@),
            old(reg)@,
            h,
            t0@,
            info@.templates,
            info@.templates.len() as int,
            texts(path@),
            resp,
        ),
    decreases store_view(store@).len() - texts(path@).len(), 1int, 0int,
{
    let ghost sv = store_view(store@);
    let ghost pv = texts(path@);
    let ghost r0 = reg@;
    let ghost m0 = t0@;
    let ghost ts = info@.templates;
    let mut t = t0;
    let mut i: usize = 0;
    while i < info.templates.len()
        invariant
            reg.wf(),
            i <= info.templates@.len(),
            sv == store_view(store@),
            pv == texts(path@),
            ts == info@.templates,
            r0 == old(reg)@,
            m0 == t0@,
            builds_only(reg@, r0),
            path_ok(sv, pv),
            templates_spec(sv, r0, h, m0, ts, i as int, pv, resp) == (reg@, Ok::<TreeModel, BuildErrorView>(t@)),
        decreases info.templates@.len() - i,
    {
        let th = info.templates[i];
        let j = match find_prototype(store, th) {
            Some(j) => j,
            None => {
                proof {
                    assert(lookup(sv, th) is None);
                    assert(templates_spec(sv, r0, h, m0, ts, i + 1, pv, resp) == (reg@, Err::<TreeModel, BuildErrorView>(BuildErrorView::DoesNotExist(th))));
                    lemma_templates_err_stays(sv, r0, h, m0, ts, i + 1, ts.len() as int, pv, resp);
                }
                return Err(BuildError::DoesNotExist(th));
            },
        };
        let ti = &store[j].1;
        assert(lookup(sv, th) == Some(ti@));
        reg.add_dependent(th, h);
        if path_contains(path, &ti.id) {
            if resp != CycleResponse::Ignore {
                let cycle = path_with(path, &ti.id);
                proof {
                    lemma_templates_err_stays(sv, r0, h, m0, ts, i + 1, ts.len() as int, pv, resp);
                }
                if resp == CycleResponse::Cancel {
                    return Err(BuildError::ContainsCycle(cycle));
                } else {
                    return Err(BuildError::CyclePanic(cycle));
                }
            }
        } else {
            proof {
                lemma_path_push(sv, pv, th);
            }
            let next = path_with(path, &ti.id);
            let built = recursive_build(reg, store, th, ti, None, &next, resp);
            match built {
                Ok(tt) => {
                    t.inherit(tt);
                },
                Err(e) => {
                    proof {
                        assert(templates_spec(sv, r0, h, m0, ts, i + 1, pv, resp) == (reg@, Err::<TreeModel, BuildErrorView>(e@)));
                        lemma_templates_err_stays(sv, r0, h, m0, ts, i + 1, ts.len() as int, pv, resp);
                    }
                    return Err(e);
                },
            }
        }
        i = i + 1;
    }
    Ok(t)
}

/// Build (or take from the registry's cache) the tree of the loaded
/// prototype with the given handle, answering cycles with `on_cycle`; the
/// built trees are cached in the registry and each child and template is
/// recorded as a dependent of the prototype that uses it.
pub fn build_tree(
    reg: &mut ProtoRegistry,
    store: &Vec<(u64, PrototypeInfo)>,
    handle: u64,
    on_cycle: CycleResponse,
) -> (r: Result<ProtoTree, BuildError>)
    requires
        old(reg).wf(),
    ensures
        final(reg).wf(),
        builds_only(final(reg)@, old(reg)@),
        outcome_of(final(reg)@, r) == build_tree_spec(store_view(store@), old(reg)@, handle, on_cycle),
{
    let ghost sv = store_view(store@);
    let j = match find_prototype(store, handle) {
        Some(j) => j,
        None => return Err(BuildError::DoesNotExist(handle)),
    };
    let info = &store[j].1;
    assert(lookup(sv, handle) == Some(info@));
    let mut path: Vec<String> = Vec::new();
    path.push(info.id.clone());
    proof {
        assert(texts(path@) =~= seq![info@.id]);
        assert(store_ids(sv)[j as int] == info@.id);
        assert(path_ok(sv, texts(path@)));
    }
    recursive_build(reg, store, handle, info, None, &path, on_cycle)
}

proof fn lemma_children_keep(
    s: Seq<(u64, InfoView)>,
    r: RegistryView,
    h: u64,
    t0: TreeModel,
    cs: Seq<(u64, Option<Seq<char>>)>,
    n: int,
    path: Seq<Seq<char>>,
    resp: CycleResponse,
)
    ensures
        children_spec(s, r, h, t0, cs, n, path, resp).1 matches Ok(t) ==> t.handle == t0.handle
            && t.id == t0.id && t.merge_key == t0.merge_key && t.prototypes == t0.prototypes
            && t.requires_entity == t0.requires_entity,
    decreases n,
{
    if n > 0 {
        lemma_children_keep(s, r, h, t0, cs, n - 1, path, resp);
        let (r1, prev) = children_spec(s, r, h, t0, cs, n - 1, path, resp);
        if let Ok(t1) = prev {
            let c = cs[n - 1];
            if let Some(ci) = lookup(s, c.0) {
                let r2 = add_dep(r1, c.0, h);
                if !path.contains(ci.id) && path.len() < s.len() {
                    if let Ok(ct) = build_spec(s, r2, c.0, ci, c.1, path.push(ci.id), resp).1 {
                        crate::tree::proto_tree::law_append_child(t1, ct);
                    }
                }
            }
        }
    }
}

proof fn lemma_templates_keep(
    s: Seq<(u64, InfoView)>,
    r: RegistryView,
    h: u64,
    t0: TreeModel,
    ts: Seq<u64>,
    n: int,
    path: Seq<Seq<char>>,
    resp: CycleResponse,
)
    requires
        t0.prototypes.len() > 0,
    ensures
        templates_spec(s, r, h, t0, ts, n, path, resp).1 matches Ok(t) ==> t.handle == t0.handle
            && t.id == t0.id && t.merge_key == t0.merge_key && t.prototypes.len() > 0
            && t.prototypes[0] == t0.prototypes[0],
    decreases n,
{
    if n > 0 {
        lemma_templates_keep(s, r, h, t0, ts, n - 1, path, resp);
        let (r1, prev) = templates_spec(s, r, h, t0, ts, n - 1, path, resp);
        if let Ok(t1) = prev {
            let th = ts[n - 1];
            if let Some(ti) = lookup(s, th) {
                let r2 = add_dep(r1, th, h);
                if !path.contains(ti.id) && path.len() < s.len() {
                    if let Ok(tt) = build_spec(s, r2, th, ti, None, path.push(ti.id), resp).1 {
                        crate::tree::proto_tree::law_inherit_prototypes(t1, tt);
                        let p = inherit_tree(t1, tt).prototypes;
                        assert(p.take(t1.prototypes.len() as int)[0] == p[0]);
                    }
                }
            }
        }
    }
}

/// A successful build leaves the tree cached under the prototype's handle.
/// A tree built anew (none was cached) has the prototype's handle and id,
/// the merge key it was reached with, the prototype itself as its first
/// prototype, and has no children unless it requires an entity.
pub proof fn law_build_result(
    s: Seq<(u64, InfoView)>,
    r: RegistryView,
    h: u64,
    info: InfoView,
    mk: Option<Seq<char>>,
    path: Seq<Seq<char>>,
    resp: CycleResponse,
)
    ensures
        ({
            let (r2, res) = build_spec(s, r, h, info, mk, path, resp);
            &&& res matches Ok(t) ==> r2.trees.contains_key(h) && r2.trees[h] == t
            &&& !r.trees.contains_key(h) ==> (res matches Ok(t) ==> {
                &&& t.handle == h
                &&& t.id == info.id
                &&& t.merge_key == mk
                &&& t.prototypes.len() > 0 && t.prototypes[0] == h
                &&& t.requires_entity || t.children.len() == 0
            })
        }),
{
    if !r.trees.contains_key(h) {
        let t0 = new_tree(h, mk, info);
        lemma_children_keep(s, r, h, t0, info.children, info.children.len() as int, path, resp);
        let (r1, c) = children_spec(s, r, h, t0, info.children, info.children.len() as int, path, resp);
        if let Ok(t1) = c {
            lemma_templates_keep(s, r1, h, t1, info.templates, info.templates.len() as int, path, resp);
        }
    }
}

proof fn lemma_templates_keep_children(
    s: Seq<(u64, InfoView)>,
    r: RegistryView,
    h: u64,
    t0: TreeModel,
    ts: Seq<u64>,
    n: int,
    path: Seq<Seq<char>>,
    resp: CycleResponse,
)
    ensures
        templates_spec(s, r, h, t0, ts, n, path, resp).1 is Ok ==> ({
            let t = templates_spec(s, r, h, t0, ts, n, path, resp).1->Ok_0;
            &&& t.children.len() >= t0.children.len()
            &&& forall|i: int|
                0 <= i < t0.children.len() ==> (#[trigger] t.children[i]).handle
                    == t0.children[i].handle && t.children[i].id == t0.children[i].id
        }),
    decreases n,
{
    if n > 0 {
        lemma_templates_keep_children(s, r, h, t0, ts, n - 1, path, resp);
        let (r1, prev) = templates_spec(s, r, h, t0, ts, n - 1, path, resp);
        if let Ok(t1) = prev {
            let th = ts[n - 1];
            if let Some(ti) = lookup(s, th) {
                let r2 = add_dep(r1, th, h);
                if !path.contains(ti.id) && path.len() < s.len() {
                    if let Ok(tt) = build_spec(s, r2, th, ti, None, path.push(ti.id), resp).1 {
                        crate::tree::proto_tree::law_inherit_keeps_children(t1, tt);
                        let t = inherit_tree(t1, tt);
                        assert forall|i: int| 0 <= i < t0.children.len() implies (#[trigger] t.children[i]).handle
                            == t0.children[i].handle && t.children[i].id == t0.children[i].id by {
                            assert(t1.children[i].handle == t0.children[i].handle);
                        }
                    }
                }
            }
        }
    }
}

/// A tree built anew starts with the prototype's own children, in order,
/// as appending them to the new tree gives (own children first); its
/// templates come after: their children are added after these or inherited
/// into them, so each of these keeps its place, handle and id.
pub proof fn law_build_own_children_first(
    s: Seq<(u64, InfoView)>,
    r: RegistryView,
    h: u64,
    info: InfoView,
    mk: Option<Seq<char>>,
    path: Seq<Seq<char>>,
    resp: CycleResponse,
)
    requires
        !r.trees.contains_key(h),
    ensures
        build_spec(s, r, h, info, mk, path, resp).1 is Ok ==> ({
            let own = children_spec(
                s,
                r,
                h,
                new_tree(h, mk, info),
                info.children,
                info.children.len() as int,
                path,
                resp,
            ).1;
            let t = build_spec(s, r, h, info, mk, path, resp).1->Ok_0;
            &&& own is Ok
            &&& t.children.len() >= own->Ok_0.children.len()
            &&& forall|i: int|
                0 <= i < own->Ok_0.children.len() ==> (#[trigger] t.children[i]).handle
                    == own->Ok_0.children[i].handle && t.children[i].id == own->Ok_0.children[i].id
        }),
{
    let t0 = new_tree(h, mk, info);
    let (r1, c) = children_spec(s, r, h, t0, info.children, info.children.len() as int, path, resp);
    if let Ok(t1) = c {
        lemma_templates_keep_children(s, r1, h, t1, info.templates, info.templates.len() as int, path, resp);
    }
}

} // verus!
