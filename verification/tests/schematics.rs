use bevy_proto::schematics::{SchematicError, SchematicId};

#[test]
fn next_ids_are_stable() {
    let a = SchematicId::new(1, 2);
    let b = SchematicId::new(1, 2);
    assert_eq!(a.value(), b.value());
    assert_eq!(a.next(7).value(), b.next(7).value());
    assert_eq!(a.clone().value(), a.value());
}

#[test]
fn next_ids_depend_on_the_seed() {
    let a = SchematicId::new(1, 2);
    assert_ne!(a.next(7).value(), a.next(8).value());
    assert_ne!(a.next(7).value(), a.value());
    assert_eq!(a.next(u128::MAX).value(), b_like(&a).next(u128::MAX).value());
}

#[test]
fn error_messages() {
    assert_eq!(
        SchematicError::FromReflectFail.message(),
        "a call to a `FromReflect` method failed"
    );
    let e = SchematicError::TypeMismatch {
        expected: String::from("f32"),
        found: String::from("String"),
    };
    assert_eq!(e.message(), "expected type `f32` but found `String`");
}

fn b_like(a: &SchematicId) -> SchematicId {
    a.clone()
}
