//! The shape of the code a derive generates: which fields the generated
//! input type declares and where each field is read from, which impls are
//! emitted, whether the items are hidden in an anonymous `const`, and where
//! a schematic is inserted.
use vstd::prelude::*;

use crate::derive::fields::{needs_input_field, FieldConfig};
use crate::derive::io::{vis_text, InputType, InputVis, SchematicIo};
use crate::derive::schematic_container::SchematicKind;

verus! {

/// The layout of a generated input type.
#[derive(Debug)]
pub struct InputLayout {
    /// The input type's name.
    pub name: String,
    /// Its visibility, as written.
    pub vis: String,
    /// For each field, whether the input type declares it.
    pub declared: Vec<bool>,
    /// For each field, its position among the declared fields (the input
    /// field it is read from, when it is declared).
    pub input_index: Vec<usize>,
    /// Whether the preload conversion impl is emitted.
    pub preload_impl: bool,
    /// Whether the generated items are hidden in an anonymous `const`.
    pub hidden: bool,
}

/// The number of declared fields before field `j`.
pub open spec fn declared_before(fields: Seq<FieldConfig>, j: int) -> nat
    decreases j,
{
    if j <= 0 {
        0
    } else {
        declared_before(fields, j - 1) + if needs_input_field(fields[j - 1]) {
            1nat
        } else {
            0nat
        }
    }
}

proof fn lemma_declared_before_bound(fields: Seq<FieldConfig>, j: int)
    requires
        0 <= j,
    ensures
        declared_before(fields, j) <= j,
    decreases j,
{
    if j > 0 {
        lemma_declared_before_bound(fields, j - 1);
    }
}

/// The layout of the input type generated for the given fields, when one
/// is generated: its name; its visibility (the one given for it, else the
/// schematic's); the fields it declares (exactly those that need an input
/// field, in order); for each field the number of declared fields before
/// it; the preload impl unless preloading is off; and the anonymous `const`
/// when no visibility (or an empty one) was given for the input type.
pub fn input_layout(io: &SchematicIo, fields: &Vec<FieldConfig>, no_preload: bool) -> (r: Option<
    InputLayout,
>)
    ensures
        r is Some <==> io.input_ty_view() is Generated,
        match r {
            Some(l) => {
                &&& l.name@ == io.input_ty_view()->Generated_0@
                &&& l.vis@ == match io.input_vis_view() {
                    Some(v) => vis_text(v),
                    None => io.vis_view(),
                }
                &&& l.declared@.len() == fields@.len()
                &&& forall|j: int|
                    0 <= j < fields@.len() ==> #[trigger] l.declared@[j] == needs_input_field(
                        fields@[j],
                    )
                &&& l.input_index@.len() == fields@.len()
                &&& forall|j: int|
                    0 <= j < fields@.len() ==> #[trigger] l.input_index@[j] == declared_before(
                        fields@,
                        j,
                    )
                &&& l.preload_impl == !no_preload
                &&& l.hidden == (io.input_vis_view() is None || io.input_vis_view() matches Some(
                    InputVis::Inherited,
                ))
            },
            None => true,
        },
{
    let (name, vis) = match io.generated_input() {
        Some(g) => g,
        None => return None,
    };
    let mut declared: Vec<bool> = Vec::new();
    let mut input_index: Vec<usize> = Vec::new();
    let mut count: usize = 0;
    let mut j: usize = 0;
    while j < fields.len()
        invariant
            j <= fields@.len(),
            declared@.len() == j,
            input_index@.len() == j,
            count == declared_before(fields@, j as int),
            forall|k: int| 0 <= k < j ==> #[trigger] declared@[k] == needs_input_field(fields@[k]),
            forall|k: int| 0 <= k < j ==> #[trigger] input_index@[k] == declared_before(fields@, k),
        decreases fields@.len() - j,
    {
        proof {
            lemma_declared_before_bound(fields@, j as int);
        }
        let needs = fields[j].requires_input_field();
        declared.push(needs);
        input_index.push(count);
        if needs {
            count = count + 1;
        }
        j = j + 1;
    }
    Some(
        InputLayout {
            name,
            vis,
            declared,
            input_index,
            preload_impl: !no_preload,
            hidden: io.hides_output(),
        },
    )
}

/// Where a schematic is put when applied.
#[derive(Debug, Clone, Copy, PartialEq, Eq, Structural)]
pub enum InsertTarget {
    /// Inserted as a resource of the world.
    Resource,
    /// Inserted on the entity (as a component or bundle).
    Component,
}

/// A `resource` schematic is inserted as a resource; any other kind on the
/// entity.
pub fn insert_kind(k: &SchematicKind) -> (r: InsertTarget)
    ensures
        r == if *k == SchematicKind::Resource {
            InsertTarget::Resource
        } else {
            InsertTarget::Component
        },
{
    match k {
        SchematicKind::Resource => InsertTarget::Resource,
        _ => InsertTarget::Component,
    }
}

} // verus!
