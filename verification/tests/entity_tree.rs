use bevy_proto::tree::access::{ChildAccess, EntityAccess, ProtoEntity, ProtoEntityList, SiblingAccess};
use bevy_proto::tree::entity_tree::{EntityChildren, EntityTree, SpawnRequest};
use bevy_proto::tree::proto_tree::ProtoTree;

/// root(1) -> [a(2) -> [c(4)], b(3), a2(5, id "a")]
fn sample_tree() -> ProtoTree {
    let mut root = ProtoTree::new(1, None, String::from("root"), true);
    let mut a = ProtoTree::new(2, None, String::from("a"), true);
    let c = ProtoTree::new(4, None, String::from("c"), true);
    a.append_child(c);
    let b = ProtoTree::new(3, None, String::from("b"), false);
    let a2 = ProtoTree::new(5, None, String::from("a"), true);
    root.append_child(a);
    root.append_child(b);
    root.append_child(a2);
    root
}

#[test]
fn nodes_are_numbered_breadth_first() {
    let tree = sample_tree();
    let et = EntityTree::new(&tree, Some(100));
    assert_eq!(et.len(), 5);
    assert_eq!(et.iter(), vec![0, 1, 2, 3, 4]);
    let ids: Vec<String> = (0..5).map(|i| et.node(i).id().clone()).collect();
    assert_eq!(ids, vec!["root", "a", "b", "a", "c"]);
    assert_eq!(et.parent(0), None);
    assert_eq!(et.parent(1), Some(0));
    assert_eq!(et.parent(3), Some(0));
    assert_eq!(et.parent(4), Some(1));
}

#[test]
fn root_has_the_given_entity() {
    let tree = sample_tree();
    let et = EntityTree::new(&tree, Some(100));
    assert_eq!(et.entity(), Some(100));
    assert_eq!(et.node(1).entity(), None);
    assert_eq!(et.find_entity(&EntityAccess::root()), Some(100));
}

#[test]
fn spawn_requests_follow_requirements() {
    let tree = sample_tree();
    let et = EntityTree::new(&tree, None);
    assert_eq!(et.spawn_request(0), None);
    assert_eq!(
        et.spawn_request(1),
        Some(SpawnRequest { node: 1, handle: 2, child_index: 0, parent: 0 })
    );
    assert_eq!(et.spawn_request(2), None);
    assert_eq!(
        et.spawn_request(3),
        Some(SpawnRequest { node: 3, handle: 5, child_index: 2, parent: 0 })
    );
    assert_eq!(
        et.spawn_request(4),
        Some(SpawnRequest { node: 4, handle: 4, child_index: 0, parent: 1 })
    );
}

#[test]
fn navigation_by_index_and_id() {
    let tree = sample_tree();
    let mut et = EntityTree::new(&tree, Some(100));
    for i in 1..5 {
        et.set_entity(i, 100 + i as u64);
    }
    let last = EntityAccess::default().child(ChildAccess::At(-1));
    assert_eq!(et.find_entity(&last), Some(103));
    let second_a = EntityAccess::default().child(ChildAccess::Id(String::from("a"), 2));
    assert_eq!(et.find_entity(&second_a), Some(103));
    let last_a = EntityAccess::default().child(ChildAccess::Id(String::from("a"), -1));
    assert_eq!(et.find_entity(&last_a), Some(103));
    let c = EntityAccess::from_path("a/c");
    assert_eq!(et.find_entity(&c), Some(104));
    let missing = EntityAccess::from_path("b/c");
    assert_eq!(et.find_entity(&missing), None);
    let too_far = EntityAccess::default().child(ChildAccess::At(3));
    assert_eq!(et.find_entity(&too_far), None);
}

#[test]
fn navigation_from_the_current_node() {
    let tree = sample_tree();
    let mut et = EntityTree::new(&tree, Some(100));
    for i in 1..5 {
        et.set_entity(i, 100 + i as u64);
    }
    et.set_current(1);
    assert_eq!(et.entity(), Some(101));
    let parent = EntityAccess::default().parent();
    assert_eq!(et.find_entity(&parent), Some(100));
    let next = EntityAccess::default().sibling(SiblingAccess::At(1));
    assert_eq!(et.find_entity(&next), Some(102));
    let next_a = EntityAccess::default().sibling(SiblingAccess::Id(String::from("a"), 1));
    assert_eq!(et.find_entity(&next_a), Some(103));
    let prev = EntityAccess::default().sibling(SiblingAccess::At(-1));
    assert_eq!(et.find_entity(&prev), None);
    let self_before = EntityAccess::default().sibling(SiblingAccess::Id(String::from("a"), -1));
    assert_eq!(et.find_entity(&self_before), None);
    let two_after = EntityAccess::default().sibling(SiblingAccess::At(2));
    assert_eq!(et.find_entity(&two_after), Some(103));
    let three_after = EntityAccess::default().sibling(SiblingAccess::At(3));
    assert_eq!(et.find_entity(&three_after), None);
    let root_parent = EntityAccess::root().parent();
    assert_eq!(et.find_entity(&root_parent), None);
    et.set_current(3);
    let before_b = EntityAccess::default().sibling(SiblingAccess::Id(String::from("b"), -1));
    assert_eq!(et.find_entity(&before_b), Some(102));
    let first_a_before = EntityAccess::default().sibling(SiblingAccess::Id(String::from("a"), -1));
    assert_eq!(et.find_entity(&first_a_before), Some(101));
    let self_after = EntityAccess::default().sibling(SiblingAccess::Id(String::from("a"), 1));
    assert_eq!(et.find_entity(&self_after), None);
    let back_two = EntityAccess::default().sibling(SiblingAccess::At(-2));
    assert_eq!(et.find_entity(&back_two), Some(101));
}

#[test]
fn entity_lists_are_found_in_order() {
    let tree = sample_tree();
    let mut et = EntityTree::new(&tree, Some(100));
    for i in 1..5 {
        et.set_entity(i, 100 + i as u64);
    }
    let list = ProtoEntityList(vec![
        ProtoEntity::Child(ChildAccess::At(1)),
        ProtoEntity::Root,
        ProtoEntity::EntityPath(String::from("a/c")),
    ]);
    assert_eq!(et.find_entities(&list), Some(vec![102, 100, 104]));
    let bad = ProtoEntityList(vec![ProtoEntity::Parent]);
    assert_eq!(et.find_entities(&bad), None);
}

#[test]
fn node_prototypes_are_in_application_order() {
    let mut root = ProtoTree::new(1, None, String::from("root"), true);
    let template = ProtoTree::new(9, None, String::from("t"), false);
    root.inherit(template);
    let et = EntityTree::new(&root, None);
    assert_eq!(et.node(0).prototypes(), vec![9, 1]);
}

#[test]
fn nodes_know_their_index() {
    let tree = sample_tree();
    let mut et = tree.to_entity_tree(None);
    assert_eq!(et.node(2).index(), 2);
    assert_eq!(et.current().index(), 0);
    et.set_current(4);
    assert_eq!(et.current().index(), 4);
    assert_eq!(et.current().id(), "c");
}

#[test]
fn children_lookup_by_occurrence() {
    let mut children = EntityChildren::new();
    assert_eq!(children.insert(10, String::from("a")), 0);
    assert_eq!(children.insert(11, String::from("b")), 1);
    assert_eq!(children.insert(12, String::from("a")), 2);
    assert_eq!(children.len(), 3);
    assert!(!children.is_empty());
    assert_eq!(children.iter(), &vec![10, 11, 12]);
    let a = String::from("a");
    assert_eq!(children.get(&a, 0, 2, 1), Some(10));
    assert_eq!(children.get(&a, 0, 2, 2), Some(12));
    assert_eq!(children.get(&a, 0, 2, 3), None);
    assert_eq!(children.get(&a, 2, 0, 1), Some(12));
    assert_eq!(children.get(&a, 1, 9, 1), Some(12));
    assert_eq!(children.get_at(-1), Some(12));
    assert_eq!(children.get_at(-4), None);
    assert_eq!(children.get_at(3), None);
}

#[test]
fn child_by_id_counts_matches_from_either_end() {
    let tree = sample_tree();
    let mut et = EntityTree::new(&tree, Some(100));
    for i in 1..5 {
        et.set_entity(i, 100 + i as u64);
    }
    let by_id = |n: isize| EntityAccess::default().child(ChildAccess::Id(String::from("a"), n));
    // children of the root: a(101), b(102), a(103): two named "a".
    assert_eq!(et.find_entity(&by_id(1)), Some(101));
    assert_eq!(et.find_entity(&by_id(2)), Some(103));
    assert_eq!(et.find_entity(&by_id(3)), None);
    assert_eq!(et.find_entity(&by_id(-1)), Some(103));
    assert_eq!(et.find_entity(&by_id(-2)), Some(101));
    assert_eq!(et.find_entity(&by_id(-3)), None);
    let b = EntityAccess::default().child(ChildAccess::Id(String::from("b"), -1));
    assert_eq!(et.find_entity(&b), Some(102));
}
