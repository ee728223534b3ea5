use bevy_proto::registry::ProtoRegistry;
use bevy_proto::tree::builder::{build_tree, BuildError, ChildInfo, CycleResponse, PrototypeInfo};

fn info(id: &str, requires_entity: bool, templates: Vec<u64>, children: Vec<(u64, Option<&str>)>) -> PrototypeInfo {
    PrototypeInfo {
        id: String::from(id),
        requires_entity,
        templates,
        children: children
            .into_iter()
            .map(|(handle, key)| ChildInfo { handle, merge_key: key.map(String::from) })
            .collect(),
    }
}

fn store() -> Vec<(u64, PrototypeInfo)> {
    vec![
        (1, info("root", true, vec![3], vec![(2, None)])),
        (2, info("child", true, vec![], vec![])),
        (3, info("template", false, vec![], vec![])),
        (4, info("looping", true, vec![], vec![(4, None)])),
        (5, info("no_entity", false, vec![], vec![(2, None)])),
        (6, info("missing_child", true, vec![], vec![(9, None)])),
    ]
}

#[test]
fn builds_children_and_templates_and_caches_the_tree() {
    let mut reg = ProtoRegistry::new();
    let tree = build_tree(&mut reg, &store(), 1, CycleResponse::Cancel).unwrap();
    assert_eq!(tree.handle(), 1);
    assert_eq!(tree.id_str(), "root");
    assert_eq!(tree.prototypes(), vec![1, 3]);
    assert_eq!(tree.children().len(), 1);
    assert_eq!(tree.children()[0].handle(), 2);
    assert_eq!(reg.get_tree(1).map(|t| t.prototypes()), Some(vec![1, 3]));
    assert!(reg.get_tree(2).is_some());
    assert!(reg.get_tree(3).is_some());
}

#[test]
fn a_cached_tree_is_returned_as_it_is() {
    let mut reg = ProtoRegistry::new();
    build_tree(&mut reg, &store(), 1, CycleResponse::Cancel).unwrap();
    let again = build_tree(&mut reg, &store(), 1, CycleResponse::Cancel).unwrap();
    assert_eq!(again.prototypes(), vec![1, 3]);
}

#[test]
fn missing_prototypes_are_reported() {
    let mut reg = ProtoRegistry::new();
    assert!(matches!(
        build_tree(&mut reg, &store(), 42, CycleResponse::Cancel),
        Err(BuildError::DoesNotExist(42))
    ));
    assert!(matches!(
        build_tree(&mut reg, &store(), 6, CycleResponse::Cancel),
        Err(BuildError::DoesNotExist(9))
    ));
}

#[test]
fn cycles_follow_the_response() {
    let mut reg = ProtoRegistry::new();
    match build_tree(&mut reg, &store(), 4, CycleResponse::Cancel) {
        Err(BuildError::ContainsCycle(ids)) => assert_eq!(ids, vec!["looping", "looping"]),
        _ => panic!("unexpected outcome"),
    }
    let mut reg = ProtoRegistry::new();
    assert!(matches!(
        build_tree(&mut reg, &store(), 4, CycleResponse::Panic),
        Err(BuildError::CyclePanic(_))
    ));
    let mut reg = ProtoRegistry::new();
    let tree = build_tree(&mut reg, &store(), 4, CycleResponse::Ignore).unwrap();
    assert!(tree.children().is_empty());
}

#[test]
fn children_need_an_entity() {
    let mut reg = ProtoRegistry::new();
    match build_tree(&mut reg, &store(), 5, CycleResponse::Cancel) {
        Err(BuildError::RequiresEntity(id)) => assert_eq!(id, "no_entity"),
        _ => panic!("unexpected outcome"),
    }
    assert!(reg.get_tree(5).is_none());
}
