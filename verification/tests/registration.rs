use bevy_proto::registration::{
    on_proto_asset_event, register, reload, EventOutcome, ProtoAssetChange, RegistryError,
};
use bevy_proto::registry::{ProtoRegistry, RegisterConflict};
use bevy_proto::tree::builder::{BuildError, ChildInfo, CycleResponse, PrototypeInfo};

fn info(id: &str, children: Vec<u64>) -> PrototypeInfo {
    PrototypeInfo {
        id: String::from(id),
        requires_entity: true,
        templates: Vec::new(),
        children: children.into_iter().map(|handle| ChildInfo { handle, merge_key: None }).collect(),
    }
}

fn store() -> Vec<(u64, PrototypeInfo)> {
    vec![(1, info("parent", vec![2])), (2, info("child", vec![])), (3, info("parent", vec![]))]
}

#[test]
fn register_records_id_and_handle() {
    let mut reg = ProtoRegistry::new();
    assert_eq!(register(&mut reg, &store(), 1, CycleResponse::Cancel).unwrap(), "parent");
    assert!(reg.contains_handle(1));
    assert!(reg.contains(&String::from("parent")));
    assert!(reg.get_tree(1).is_some());
    assert!(matches!(
        register(&mut reg, &store(), 1, CycleResponse::Cancel),
        Err(RegistryError::AlreadyExists(RegisterConflict::HandleRegistered))
    ));
}

#[test]
fn a_taken_id_is_refused_and_marked_failed() {
    let mut reg = ProtoRegistry::new();
    register(&mut reg, &store(), 1, CycleResponse::Cancel).unwrap();
    assert!(matches!(
        register(&mut reg, &store(), 3, CycleResponse::Cancel),
        Err(RegistryError::AlreadyExists(RegisterConflict::IdRegistered { existing: 1 }))
    ));
    assert!(reg.contains_failed_handle(3));
    assert!(!reg.contains_handle(3));
}

#[test]
fn reload_needs_a_registered_prototype() {
    let mut reg = ProtoRegistry::new();
    assert!(matches!(
        reload(&mut reg, &store(), 1, CycleResponse::Cancel),
        Err(RegistryError::NotRegistered(1))
    ));
    register(&mut reg, &store(), 1, CycleResponse::Cancel).unwrap();
    assert_eq!(reload(&mut reg, &store(), 1, CycleResponse::Cancel).unwrap(), "parent");
    assert!(reg.contains_handle(1));
}

#[test]
fn removing_a_dependency_reloads_its_dependents() {
    let mut reg = ProtoRegistry::new();
    register(&mut reg, &store(), 2, CycleResponse::Cancel).unwrap();
    register(&mut reg, &store(), 1, CycleResponse::Cancel).unwrap();
    let without_child = vec![(1, info("parent", vec![2])), (3, info("other", vec![]))];
    match on_proto_asset_event(&mut reg, &without_child, ProtoAssetChange::Removed(2), CycleResponse::Cancel) {
        EventOutcome::Unregistered(Some(id)) => assert_eq!(id, "child"),
        _ => panic!("unexpected outcome"),
    }
    assert!(!reg.contains_handle(2));
    // The parent was reloaded and could not find its child any more.
    assert!(!reg.contains_handle(1));
}

#[test]
fn asset_events_register_and_reload() {
    let mut reg = ProtoRegistry::new();
    match on_proto_asset_event(&mut reg, &store(), ProtoAssetChange::Created(1), CycleResponse::Cancel) {
        EventOutcome::Registered(id) => assert_eq!(id, "parent"),
        _ => panic!("unexpected outcome"),
    }
    match on_proto_asset_event(&mut reg, &store(), ProtoAssetChange::Modified(1), CycleResponse::Cancel) {
        EventOutcome::Reloaded(id) => assert_eq!(id, "parent"),
        _ => panic!("unexpected outcome"),
    }
    match on_proto_asset_event(&mut reg, &store(), ProtoAssetChange::Created(9), CycleResponse::Cancel) {
        EventOutcome::Failed(RegistryError::DoesNotExist(9)) => {}
        _ => panic!("unexpected outcome"),
    }
    let missing = vec![(1, info("parent", vec![7]))];
    let mut reg = ProtoRegistry::new();
    match on_proto_asset_event(&mut reg, &missing, ProtoAssetChange::Created(1), CycleResponse::Cancel) {
        EventOutcome::Failed(RegistryError::Build(BuildError::DoesNotExist(7))) => {}
        _ => panic!("unexpected outcome"),
    }
}

#[test]
fn modifying_a_dependency_reloads_its_dependents() {
    let mut reg = ProtoRegistry::new();
    register(&mut reg, &store(), 2, CycleResponse::Cancel).unwrap();
    register(&mut reg, &store(), 1, CycleResponse::Cancel).unwrap();
    match on_proto_asset_event(&mut reg, &store(), ProtoAssetChange::Modified(2), CycleResponse::Cancel) {
        EventOutcome::Reloaded(id) => assert_eq!(id, "child"),
        _ => panic!("unexpected outcome"),
    }
    assert!(reg.contains_handle(2));
    assert!(reg.contains_handle(1));
    assert_eq!(reg.get_tree(1).map(|t| t.children().len()), Some(1));
    match on_proto_asset_event(&mut reg, &store(), ProtoAssetChange::Removed(9), CycleResponse::Cancel) {
        EventOutcome::Unregistered(None) => {}
        _ => panic!("unexpected outcome"),
    }
    assert!(reg.contains_handle(1) && reg.contains_handle(2));
}
