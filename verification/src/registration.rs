//! Registering, reloading and unregistering prototypes as their assets are
//! created, modified and removed.
use vstd::prelude::*;
use vstd::set_lib::lemma_len_subset;

use crate::registry::{
    dependents_of, lemma_registered_finite, register_check, register_record, unregister_spec, ProtoRegistry,
    RegisterConflict, RegistryView,
};
use crate::tree::builder::{
    build_tree, build_tree_spec, lookup, store_view, BuildError, BuildErrorView,
    CycleResponse, PrototypeInfo,
};

verus! {

/// Why a prototype could not be registered or reloaded.
#[derive(Debug)]
pub enum RegistryError {
    /// No prototype is loaded for the handle.
    DoesNotExist(u64),
    /// The handle, or the prototype's id under another handle, is already
    /// registered.
    AlreadyExists(RegisterConflict),
    /// Its tree could not be built.
    Build(BuildError),
    /// The handle to reload is not registered.
    NotRegistered(u64),
}

pub enum RegistryErrorView {
    DoesNotExist(u64),
    AlreadyExists(RegisterConflict),
    Build(BuildErrorView),
    NotRegistered(u64),
}

impl View for RegistryError {
    type V = RegistryErrorView;

    open spec fn view(&self) -> RegistryErrorView {
        match self {
            RegistryError::DoesNotExist(h) => RegistryErrorView::DoesNotExist(*h),
            RegistryError::AlreadyExists(c) => RegistryErrorView::AlreadyExists(*c),
            RegistryError::Build(e) => RegistryErrorView::Build(e@),
            RegistryError::NotRegistered(h) => RegistryErrorView::NotRegistered(*h),
        }
    }
}

pub open spec fn result_view(r: Result<String, RegistryError>) -> Result<Seq<char>, RegistryErrorView> {
    match r {
        Ok(id) => Ok(id@),
        Err(e) => Err(e@),
    }
}

/// Registering the prototype with handle `h`: it must be loaded; unless it
/// is being reloaded, its handle and id must be free; its tree is built;
/// then its id and handle are recorded, and it is no longer being loaded.
pub open spec fn register_spec(
    s: Seq<(u64, crate::tree::builder::InfoView)>,
    r: RegistryView,
    h: u64,
    is_reload: bool,
    resp: CycleResponse,
) -> (RegistryView, Result<Seq<char>, RegistryErrorView>) {
    match lookup(s, h) {
        None => (r, Err(RegistryErrorView::DoesNotExist(h))),
        Some(info) => {
            let (r1, checked) = register_check(r, h, info.id, is_reload);
            match checked {
                Err(c) => (r1, Err(RegistryErrorView::AlreadyExists(c))),
                Ok(_) => {
                    let (r2, built) = build_tree_spec(s, r1, h, resp);
                    match built {
                        Err(e) => (r2, Err(RegistryErrorView::Build(e))),
                        Ok(_) => (register_record(r2, h, info.id), Ok(info.id)),
                    }
                },
            }
        },
    }
}

/// Register (or, with `is_reload`, register again) the prototype with the
/// given handle, giving back its id.
pub fn register_internal(
    reg: &mut ProtoRegistry,
    store: &Vec<(u64, PrototypeInfo)>,
    handle: u64,
    is_reload: bool,
    on_cycle: CycleResponse,
) -> (r: Result<String, RegistryError>)
    requires
        old(reg).wf(),
    ensures
        final(reg).wf(),
        (final(reg)@, result_view(r)) == register_spec(
            store_view(store@),
            old(reg)@,
            handle,
            is_reload,
            on_cycle,
        ),
        r is Err ==> final(reg)@.ids == old(reg)@.ids,
        r matches Ok(id) ==> {
            &&& lookup(store_view(store@), handle) matches Some(info) && info.id == id@
            &&& final(reg)@.ids == old(reg)@.ids.insert(handle, id@)
            &&& final(reg)@.handles.contains_key(id@) && final(reg)@.handles[id@] == handle
            &&& final(reg)@.trees.contains_key(handle)
        },
{
    let ghost sv = store_view(store@);
    let j = match crate::tree::builder::find_prototype(store, handle) {
        Some(j) => j,
        None => return Err(RegistryError::DoesNotExist(handle)),
    };
    let id = store[j].1.id.clone();
    assert(lookup(sv, handle) == Some(store@[j as int].1@));
    match reg.check_register(handle, &id, is_reload) {
        Ok(()) => {},
        Err(c) => return Err(RegistryError::AlreadyExists(c)),
    }
    let ghost checked = reg@;
    match build_tree(reg, store, handle, on_cycle) {
        Ok(_) => {},
        Err(e) => return Err(RegistryError::Build(e)),
    }
    proof {
        crate::tree::builder::law_build_result(
            sv,
            checked,
            handle,
            store@[j as int].1@,
            None,
            seq![store@[j as int].1@.id],
            on_cycle,
        );
    }
    reg.record_register(handle, id.clone());
    Ok(id)
}

/// Register the prototype with the given handle, giving back its id; it
/// must not be registered yet.
pub fn register(
    reg: &mut ProtoRegistry,
    store: &Vec<(u64, PrototypeInfo)>,
    handle: u64,
    on_cycle: CycleResponse,
) -> (r: Result<String, RegistryError>)
    requires
        old(reg).wf(),
    ensures
        final(reg).wf(),
        (final(reg)@, result_view(r)) == register_spec(
            store_view(store@),
            old(reg)@,
            handle,
            false,
            on_cycle,
        ),
{
    register_internal(reg, store, handle, false, on_cycle)
}

/// Reloading the prototype with handle `h`: refused when it is not
/// registered; otherwise it is unregistered (with the reload of what
/// depends on it) and registered again.
pub open spec fn reload_spec(
    s: Seq<(u64, crate::tree::builder::InfoView)>,
    r: RegistryView,
    h: u64,
    resp: CycleResponse,
) -> (RegistryView, Result<Seq<char>, RegistryErrorView>)
    decreases r.ids.dom().len(), 2int, 0int,
{
    if !r.ids.contains_key(h) {
        (r, Err(RegistryErrorView::NotRegistered(h)))
    } else {
        register_spec(s, unregister_all_spec(s, r, h, resp), h, true, resp)
    }
}

/// Unregistering the prototype with handle `h` (nothing when it is not
/// registered), then reloading each prototype recorded as depending on it,
/// in the order they were recorded, whatever each reload gives.
pub open spec fn unregister_all_spec(
    s: Seq<(u64, crate::tree::builder::InfoView)>,
    r: RegistryView,
    h: u64,
    resp: CycleResponse,
) -> RegistryView
    decreases r.ids.dom().len(), 1int, 0int,
{
    if !r.ids.contains_key(h) {
        r
    } else {
        let deps = dependents_of(r, h);
        reload_deps_spec(s, unregister_spec(r, h), deps, deps.len() as int, r.ids.dom().len(), resp)
    }
}

/// Reloading the first `n` of `deps` in order. (Each reload happens with
/// fewer prototypes registered than `bound`, the number registered before
/// the unregistering, so the last branch is never taken.)
pub open spec fn reload_deps_spec(
    s: Seq<(u64, crate::tree::builder::InfoView)>,
    r: RegistryView,
    deps: Seq<u64>,
    n: int,
    bound: nat,
    resp: CycleResponse,
) -> RegistryView
    decreases bound, 0int, n,
{
    if n <= 0 {
        r
    } else {
        let r1 = reload_deps_spec(s, r, deps, n - 1, bound, resp);
        if r1.ids.dom().len() < bound {
            reload_spec(s, r1, deps[n - 1], resp).0
        } else {
            r1
        }
    }
}

/// Removing a registered prototype then registering it again keeps only
/// handles that were registered before.
proof fn lemma_fewer_registered(a: RegistryView, b: RegistryView, h: u64)
    requires
        b.ids.dom().subset_of(a.ids.dom().remove(h)),
        a.ids.dom().finite(),
        a.ids.contains_key(h),
    ensures
        b.ids.dom().len() < a.ids.dom().len(),
{
    lemma_len_subset(b.ids.dom(), a.ids.dom().remove(h));
}

/// Unregister the prototype with the given handle, then reload each of the
/// prototypes recorded as depending on it (in the order they were recorded;
/// a dependent that cannot be reloaded is left unregistered), giving back
/// its id, or nothing (changing nothing) if it was not registered.
pub fn unregister_internal(
    reg: &mut ProtoRegistry,
    store: &Vec<(u64, PrototypeInfo)>,
    handle: u64,
    on_cycle: CycleResponse,
) -> (r: Option<String>)
    requires
        old(reg).wf(),
    ensures
        final(reg).wf(),
        r is None <==> !old(reg)@.ids.contains_key(handle),
        r is None ==> final(reg)@ == old(reg)@,
        r matches Some(id) ==> id@ == old(reg)@.ids[handle],
        r is Some ==> final(reg)@.ids.dom().subset_of(old(reg)@.ids.dom().remove(handle)),
        final(reg)@ == unregister_all_spec(store_view(store@), old(reg)@, handle, on_cycle),
    decreases old(reg)@.ids.dom().len(), 1int,
{
    proof {
        lemma_registered_finite(reg);
    }
    let ghost before = reg@;
    let (id, dependents) = match reg.unregister(handle) {
        Some(x) => x,
        None => return None,
    };
    let ghost removed = reg@;
    let ghost sv = store_view(store@);
    assert(reg@ == unregister_spec(before, handle));
    assert(reg@.ids.dom() =~= before.ids.dom().remove(handle));
    assert(dependents@ == dependents_of(before, handle));
    let mut i: usize = 0;
    while i < dependents.len()
        invariant
            reg.wf(),
            before == old(reg)@,
            sv == store_view(store@),
            before.ids.contains_key(handle),
            before.ids.dom().finite(),
            dependents@ == dependents_of(before, handle),
            i <= dependents@.len(),
            reg@.ids.dom().subset_of(before.ids.dom().remove(handle)),
            reg@ == reload_deps_spec(sv, removed, dependents@, i as int, before.ids.dom().len(), on_cycle),
        decreases dependents@.len() - i,
    {
        proof {
            lemma_fewer_registered(before, reg@, handle);
        }
        let _ = reload(reg, store, dependents[i], on_cycle);
        i = i + 1;
    }
    Some(id)
}

/// Reload a registered prototype: unregister it (reloading what depends
/// on it), then register it again, giving back its id. Refused when it is
/// not registered. No handle becomes registered that was not before; on
/// success the prototype is registered under its id with its tree cached,
/// and on failure it is left unregistered.
pub fn reload(
    reg: &mut ProtoRegistry,
    store: &Vec<(u64, PrototypeInfo)>,
    handle: u64,
    on_cycle: CycleResponse,
) -> (r: Result<String, RegistryError>)
    requires
        old(reg).wf(),
    ensures
        final(reg).wf(),
        !old(reg)@.ids.contains_key(handle) ==> (r matches Err(RegistryError::NotRegistered(h))
            && h == handle) && final(reg)@ == old(reg)@,
        old(reg)@.ids.contains_key(handle) ==> !(r matches Err(RegistryError::NotRegistered(_))),
        final(reg)@.ids.dom().subset_of(old(reg)@.ids.dom()),
        r matches Ok(id) ==> {
            &&& lookup(store_view(store@), handle) matches Some(info) && info.id == id@
            &&& final(reg)@.ids.contains_key(handle) && final(reg)@.ids[handle] == id@
            &&& final(reg)@.handles.contains_key(id@) && final(reg)@.handles[id@] == handle
            &&& final(reg)@.trees.contains_key(handle)
        },
        r is Err ==> !final(reg)@.ids.contains_key(handle),
        (final(reg)@, result_view(r)) == reload_spec(store_view(store@), old(reg)@, handle, on_cycle),
    decreases old(reg)@.ids.dom().len(), 2int,
{
    let ghost before = reg@;
    match unregister_internal(reg, store, handle, on_cycle) {
        None => Err(RegistryError::NotRegistered(handle)),
        Some(_) => {
            let ghost mid = reg@;
            let r = register_internal(reg, store, handle, true, on_cycle);
            proof {
                if r is Ok {
                    assert(reg@.ids.dom() =~= mid.ids.dom().insert(handle));
                }
            }
            r
        },
    }
}

/// An asset event on a prototype.
#[derive(Debug, Clone, Copy, PartialEq, Eq)]
pub enum ProtoAssetChange {
    /// The prototype asset with the handle was loaded.
    Created(u64),
    /// It was modified.
    Modified(u64),
    /// It was removed.
    Removed(u64),
}

/// What handling an asset event did.
#[derive(Debug)]
pub enum EventOutcome {
    /// The prototype was registered under the id.
    Registered(String),
    /// The prototype was reloaded under the id.
    Reloaded(String),
    /// The prototype was unregistered (its id), or was not registered.
    Unregistered(Option<String>),
    /// Registering (for a created asset) or reloading (for a modified one)
    /// failed.
    Failed(RegistryError),
}

/// Handle one asset event: a created prototype is registered, a modified
/// one reloaded, and a removed one unregistered.
pub fn on_proto_asset_event(
    reg: &mut ProtoRegistry,
    store: &Vec<(u64, PrototypeInfo)>,
    event: ProtoAssetChange,
    on_cycle: CycleResponse,
) -> (r: EventOutcome)
    requires
        old(reg).wf(),
    ensures
        final(reg).wf(),
        match event {
            ProtoAssetChange::Created(h) => {
                let (after, res) = register_spec(store_view(store@), old(reg)@, h, false, on_cycle);
                &&& final(reg)@ == after
                &&& match res {
                    Ok(id) => r matches EventOutcome::Registered(i) && i@ == id,
                    Err(e) => r matches EventOutcome::Failed(f) && f@ == e,
                }
            },
            ProtoAssetChange::Modified(h) => {
                let (after, res) = reload_spec(store_view(store@), old(reg)@, h, on_cycle);
                &&& final(reg)@ == after
                &&& match res {
                    Ok(id) => r matches EventOutcome::Reloaded(i) && i@ == id,
                    Err(e) => r matches EventOutcome::Failed(f) && f@ == e,
                }
            },
            ProtoAssetChange::Removed(h) => {
                &&& final(reg)@ == unregister_all_spec(store_view(store@), old(reg)@, h, on_cycle)
                &&& r matches EventOutcome::Unregistered(o)
                &&& (o is None <==> !old(reg)@.ids.contains_key(h))
                &&& (o matches Some(id) ==> id@ == old(reg)@.ids[h])
            },
        },
{
    match event {
        ProtoAssetChange::Created(h) => match register(reg, store, h, on_cycle) {
            Ok(id) => EventOutcome::Registered(id),
            Err(e) => EventOutcome::Failed(e),
        },
        ProtoAssetChange::Modified(h) => match reload(reg, store, h, on_cycle) {
            Ok(id) => EventOutcome::Reloaded(id),
            Err(e) => EventOutcome::Failed(e),
        },
        ProtoAssetChange::Removed(h) => EventOutcome::Unregistered(
            unregister_internal(reg, store, h, on_cycle),
        ),
    }
}

} // verus!
