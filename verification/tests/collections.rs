use bevy_proto::registry::{LoadQueue, ProtoRegistry, RegisterConflict};
use bevy_proto::templates::{Templates, UntypedHandle};
use bevy_proto::tree::proto_tree::ProtoTree;

fn strong(id: u64) -> UntypedHandle {
    UntypedHandle { id, strong: true }
}

fn paths(t: &Templates) -> Vec<(String, u64)> {
    t.iter()
}

#[test]
fn templates_keep_insertion_order() {
    let mut t = Templates::new();
    assert!(t.is_empty());
    assert_eq!(t.insert(String::from("a.ron"), strong(1)), None);
    assert_eq!(t.insert(String::from("b.ron"), strong(2)), None);
    assert_eq!(t.insert(String::from("c.ron"), strong(3)), None);
    assert_eq!(t.len(), 3);
    assert_eq!(
        paths(&t),
        vec![(String::from("a.ron"), 1), (String::from("b.ron"), 2), (String::from("c.ron"), 3)]
    );
}

#[test]
fn templates_replace_in_place() {
    let mut t = Templates::new();
    t.insert(String::from("a.ron"), strong(1));
    t.insert(String::from("b.ron"), strong(2));
    assert_eq!(t.insert(String::from("a.ron"), strong(9)), Some(strong(1)));
    assert_eq!(paths(&t), vec![(String::from("a.ron"), 9), (String::from("b.ron"), 2)]);
    assert_eq!(t.get("a.ron"), Some(9));
    assert_eq!(t.get("z.ron"), None);
}

#[test]
fn templates_removal_keeps_insertion_order() {
    let mut t = Templates::new();
    t.insert(String::from("a.ron"), strong(1));
    t.insert(String::from("b.ron"), strong(2));
    t.insert(String::from("c.ron"), strong(3));
    assert_eq!(t.remove("a.ron"), Some(strong(1)));
    assert_eq!(paths(&t), vec![(String::from("b.ron"), 2), (String::from("c.ron"), 3)]);
    assert_eq!(t.len(), 2);
    assert_eq!(t.remove("a.ron"), None);
    assert_eq!(t.get("a.ron"), None);
}

#[test]
fn load_queue_round_trip() {
    let mut q = LoadQueue::new();
    q.queue(String::from("player"), 5);
    assert!(q.is_queued(&String::from("player")));
    assert!(q.is_queued_handle(5));
    assert_eq!(q.deque(&String::from("player")), Some(5));
    assert!(!q.is_queued(&String::from("player")));
    assert!(!q.is_queued_handle(5));
    assert_eq!(q.deque(&String::from("player")), None);
}

#[test]
fn load_queue_requeue_keeps_old_handle_mark() {
    let mut q = LoadQueue::new();
    q.queue(String::from("player"), 5);
    q.queue(String::from("player"), 6);
    assert_eq!(q.deque(&String::from("player")), Some(6));
    assert!(q.is_queued_handle(5));
    assert!(!q.is_queued_handle(6));
    let copy = q.duplicate();
    assert!(copy.is_queued_handle(5));
}

#[test]
fn registry_register_and_conflicts() {
    let mut r = ProtoRegistry::new();
    let id = String::from("player");
    r.queue_load(id.clone(), 5);
    assert_eq!(r.check_register(5, &id, false), Ok(()));
    r.record_register(5, id.clone());
    assert!(r.contains(&id));
    assert!(r.contains_handle(5));
    assert!(!r.load_queue().is_queued(&id));
    assert_eq!(r.check_register(5, &id, false), Err(RegisterConflict::HandleRegistered));
    assert_eq!(
        r.check_register(6, &id, false),
        Err(RegisterConflict::IdRegistered { existing: 5 })
    );
    assert!(r.contains_failed_handle(6));
    assert_eq!(r.check_register(6, &id, true), Ok(()));
}

#[test]
fn registry_trees_and_dependents() {
    let mut r = ProtoRegistry::new();
    let id = String::from("enemy");
    r.record_register(3, id.clone());
    assert!(r.insert_tree(3, ProtoTree::new(3, None, id.clone(), true)).is_none());
    assert_eq!(r.get_tree(3).map(|t| t.handle()), Some(3));
    assert_eq!(r.get_tree_by_id(&id).map(|t| t.handle()), Some(3));
    r.add_dependent(3, 8);
    r.add_dependent(3, 9);
    r.add_dependent(3, 8);
    let (gone, mut deps) = r.unregister(3).unwrap();
    deps.sort();
    assert_eq!(gone, "enemy");
    assert_eq!(deps, vec![8, 9]);
    assert!(!r.contains_handle(3));
    assert!(!r.contains(&id));
    assert!(r.get_tree(3).is_none());
    assert!(r.unregister(3).is_none());
}
