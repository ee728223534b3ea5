use bevy_proto::tree::access::{
    get_one, AccessOp, ChildAccess, EntityAccess, ProtoEntity, SiblingAccess,
};

fn ops_of(a: &EntityAccess) -> Vec<AccessOp> {
    a.ops().clone()
}

#[test]
fn get_one_is_one() {
    assert_eq!(get_one(), 1);
}

#[test]
fn empty_access_writes_current_dir() {
    assert_eq!(EntityAccess::default().to_path(), ".");
}

#[test]
fn root_access_writes_slash() {
    assert_eq!(EntityAccess::root().to_path(), "/");
}

#[test]
fn child_at_index_path() {
    let a = EntityAccess::root().child(ChildAccess::At(2));
    assert_eq!(a.to_path(), "/@2");
}

#[test]
fn parent_then_child_path() {
    let a = EntityAccess::default().parent().child(ChildAccess::At(1));
    assert_eq!(a.to_path(), "./../@1");
}

#[test]
fn child_id_paths() {
    let first = EntityAccess::default().child(ChildAccess::from_id(String::from("foo")));
    assert_eq!(first.to_path(), "./foo");
    let second_to_last =
        EntityAccess::default().child(ChildAccess::Id(String::from("foo"), -2));
    assert_eq!(second_to_last.to_path(), "./@-2:foo");
}

#[test]
fn sibling_paths() {
    let at = EntityAccess::default().sibling(SiblingAccess::At(1));
    assert_eq!(at.to_path(), "./~1");
    let by_id = EntityAccess::default().sibling(SiblingAccess::from_id(String::from("bar")));
    assert_eq!(by_id.to_path(), "./~bar");
    let second = EntityAccess::default().sibling(SiblingAccess::Id(String::from("bar"), 2));
    assert_eq!(second.to_path(), "./~2:bar");
}

#[test]
fn read_relative_index_path() {
    let a = EntityAccess::from_path("./@1");
    assert_eq!(ops_of(&a), vec![AccessOp::Child(ChildAccess::At(1))]);
}

#[test]
fn read_absolute_path() {
    let a = EntityAccess::from_path("/foo/@-1/..");
    assert_eq!(
        ops_of(&a),
        vec![
            AccessOp::Root,
            AccessOp::Child(ChildAccess::Id(String::from("foo"), 1)),
            AccessOp::Child(ChildAccess::At(-1)),
            AccessOp::Parent,
        ]
    );
}

#[test]
fn read_occurrence_with_spaces() {
    let a = EntityAccess::from_path("@ 3 : baz ");
    assert_eq!(
        ops_of(&a),
        vec![AccessOp::Child(ChildAccess::Id(String::from("baz"), 3))]
    );
}

#[test]
fn read_sibling_segments() {
    let a = EntityAccess::from_path("~2:bar/~-1");
    assert_eq!(
        ops_of(&a),
        vec![
            AccessOp::Sibling(SiblingAccess::Id(String::from("bar"), 2)),
            AccessOp::Sibling(SiblingAccess::At(-1)),
        ]
    );
}

#[test]
fn sibling_by_name_reads_as_first_occurrence() {
    let a = EntityAccess::from_path("~bar");
    assert_eq!(
        ops_of(&a),
        vec![AccessOp::Sibling(SiblingAccess::Id(String::from("bar"), 1))]
    );
}

#[test]
fn unreadable_segment_is_reported() {
    let r = EntityAccess::try_from_path("./@x");
    match r {
        Err(e) => assert_eq!(e.segment, "@x"),
        Ok(_) => panic!("path should not be readable"),
    }
    assert!(EntityAccess::try_from_path("@0:foo").is_err());
}

#[test]
fn zero_sibling_segment_reads_as_an_id() {
    let a = EntityAccess::from_path("~0");
    assert_eq!(
        ops_of(&a),
        vec![AccessOp::Sibling(SiblingAccess::Id(String::from("0"), 1))]
    );
}

#[test]
fn written_path_reads_back() {
    let a = EntityAccess::root()
        .child(ChildAccess::Id(String::from("foo"), -3))
        .parent()
        .sibling(SiblingAccess::At(-2))
        .sibling(SiblingAccess::Id(String::from("bar"), 1))
        .child(ChildAccess::At(7));
    let path = a.to_path();
    let b = EntityAccess::from_path(&path);
    assert_eq!(ops_of(&a), ops_of(&b));
}

#[test]
fn proto_entity_conversions() {
    let anc = EntityAccess::from_proto_entity(ProtoEntity::Ancestor(2));
    assert_eq!(ops_of(&anc), vec![AccessOp::Parent, AccessOp::Parent]);
    let root = EntityAccess::from_proto_entity(ProtoEntity::Root);
    assert_eq!(ops_of(&root), vec![AccessOp::Root]);
    let path = EntityAccess::from_proto_entity(ProtoEntity::EntityPath(String::from("./@1")));
    assert_eq!(ops_of(&path), vec![AccessOp::Child(ChildAccess::At(1))]);
    let bad = EntityAccess::try_from_proto_entity(ProtoEntity::EntityPath(String::from("@q")));
    assert!(bad.is_err());
}

#[test]
fn validity_of_accesses() {
    assert!(EntityAccess::root().is_valid());
    let zero = EntityAccess::default().child(ChildAccess::Id(String::from("a"), 0));
    assert!(!zero.is_valid());
}
