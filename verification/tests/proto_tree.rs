use bevy_proto::tree::proto_tree::ProtoTree;

#[test]
fn new_tree_holds_itself() {
    let t = ProtoTree::new(7, None, String::from("seven"), true);
    assert_eq!(t.prototypes(), vec![7]);
    assert_eq!(t.handle(), 7);
    assert_eq!(t.id_str(), "seven");
    assert!(t.requires_entity());
    assert!(t.children().is_empty());
}

#[test]
fn inherit_appends_new_prototypes_in_order() {
    let mut t = ProtoTree::new(1, None, String::from("one"), false);
    let mut two = ProtoTree::new(2, None, String::from("two"), true);
    two.inherit(ProtoTree::new(3, None, String::from("three"), false));
    t.inherit(two);
    assert_eq!(t.prototypes(), vec![1, 2, 3]);
    assert!(t.requires_entity());
    t.inherit(ProtoTree::new(2, None, String::from("two"), false));
    assert_eq!(t.prototypes(), vec![1, 2, 3]);
}

#[test]
fn children_with_the_same_merge_key_merge() {
    let mut t = ProtoTree::new(1, None, String::from("root"), true);
    t.append_child(ProtoTree::new(2, Some(String::from("k")), String::from("a"), false));
    t.append_child(ProtoTree::new(3, None, String::from("b"), false));
    t.append_child(ProtoTree::new(4, Some(String::from("k")), String::from("c"), true));
    assert_eq!(t.children().len(), 2);
    let merged = &t.children()[0];
    assert_eq!(merged.prototypes(), vec![2, 4]);
    assert!(merged.requires_entity());
    assert_eq!(merged.id_str(), "a");
}

#[test]
fn children_without_merge_keys_are_kept_apart() {
    let mut t = ProtoTree::new(1, None, String::from("root"), true);
    t.append_child(ProtoTree::new(2, None, String::from("a"), false));
    t.append_child(ProtoTree::new(2, None, String::from("a"), false));
    assert_eq!(t.children().len(), 2);
}

#[test]
fn inherited_children_are_merged_by_key() {
    let mut t = ProtoTree::new(1, None, String::from("root"), true);
    t.append_child(ProtoTree::new(2, Some(String::from("k")), String::from("a"), false));
    let mut template = ProtoTree::new(5, None, String::from("tpl"), true);
    template.append_child(ProtoTree::new(6, Some(String::from("k")), String::from("x"), false));
    template.append_child(ProtoTree::new(7, None, String::from("y"), false));
    t.inherit(template);
    assert_eq!(t.prototypes(), vec![1, 5]);
    assert_eq!(t.children().len(), 2);
    assert_eq!(t.children()[0].prototypes(), vec![2, 6]);
    assert_eq!(t.children()[1].handle(), 7);
}

#[test]
fn duplicate_is_equal() {
    let mut t = ProtoTree::new(1, Some(String::from("m")), String::from("root"), true);
    t.append_child(ProtoTree::new(2, None, String::from("a"), false));
    let d = t.duplicate();
    assert_eq!(d.prototypes(), t.prototypes());
    assert_eq!(d.merge_key(), &Some(String::from("m")));
    assert_eq!(d.children().len(), 1);
    assert_eq!(d.children()[0].id_str(), "a");
}

#[test]
fn merge_keys_stay_unique_among_children() {
    let mut t = ProtoTree::new(1, None, String::from("root"), true);
    for (handle, key) in [(2, "k"), (3, "j"), (4, "k"), (5, "j"), (6, "k")] {
        t.append_child(ProtoTree::new(handle, Some(String::from(key)), String::from("c"), false));
    }
    let mut template = ProtoTree::new(9, None, String::from("tpl"), false);
    template.append_child(ProtoTree::new(10, Some(String::from("j")), String::from("d"), false));
    template.append_child(ProtoTree::new(11, Some(String::from("m")), String::from("e"), false));
    t.inherit(template);
    let keys: Vec<Option<String>> = t.children().iter().map(|c| c.merge_key().clone()).collect();
    assert_eq!(
        keys,
        vec![Some(String::from("k")), Some(String::from("j")), Some(String::from("m"))]
    );
    assert_eq!(t.children()[0].prototypes(), vec![2, 4, 6]);
    assert_eq!(t.children()[1].prototypes(), vec![3, 5, 10]);
}
