//! The container attributes of the `Schematic` derive: the schematic kind.
use vstd::prelude::*;

use crate::derive::attr::{finish, quoted_list, unsupported_arg, unsupported_text, AttrError};
use crate::text::push_str;

verus! {

/// What a schematic is applied as.
#[derive(Debug, Clone, Copy, PartialEq, Eq, Structural)]
pub enum SchematicKind {
    /// Not given: a component.
    Undefined,
    /// `kind = "bundle"`.
    Bundle,
    /// `kind = "resource"`.
    Resource,
}

impl Default for SchematicKind {
    fn default() -> (r: SchematicKind)
        ensures
            r == SchematicKind::Undefined,
    {
        SchematicKind::Undefined
    }
}

/// How a kind is described (nothing when not given).
pub open spec fn kind_text(k: SchematicKind) -> Seq<char> {
    match k {
        SchematicKind::Undefined => Seq::empty(),
        SchematicKind::Bundle => "(kind = \"bundle\")"@,
        SchematicKind::Resource => "(kind = \"resource\")"@,
    }
}

impl SchematicKind {
    pub fn describe(&self) -> (r: String)
        ensures
            r@ == kind_text(*self),
    {
        match self {
            SchematicKind::Undefined => String::new(),
            SchematicKind::Bundle => {
                let mut out: Vec<char> = Vec::new();
                push_str(&mut out, "(kind = \"bundle\")");
                finish(&out)
            },
            SchematicKind::Resource => {
                let mut out: Vec<char> = Vec::new();
                push_str(&mut out, "(kind = \"resource\")");
                finish(&out)
            },
        }
    }
}

/// Attribute information on the container type.
#[derive(Debug, Clone, Copy, PartialEq, Eq)]
pub struct ContainerAttributes {
    kind: SchematicKind,
}

pub open spec fn kind_taken_text(k: SchematicKind) -> Seq<char> {
    "schematic kind already configured as #[schematic"@ + kind_text(k) + "]"@
}

impl ContainerAttributes {
    pub closed spec fn kind_view(&self) -> SchematicKind {
        self.kind
    }

    /// No attribute given.
    pub fn new() -> (r: ContainerAttributes)
        ensures
            r.kind_view() == SchematicKind::Undefined,
    {
        ContainerAttributes { kind: SchematicKind::Undefined }
    }

    /// The schematic's kind.
    pub fn kind(&self) -> (r: &SchematicKind)
        ensures
            *r == self.kind_view(),
    {
        &self.kind
    }

    /// Set the kind from its name, `bundle` or `resource`: only once.
    pub fn try_set_kind(&mut self, name: &String) -> (r: Result<(), AttrError>)
        ensures
            old(self).kind_view() != SchematicKind::Undefined ==> (r matches Err(e) && e.message@
                == kind_taken_text(old(self).kind_view())) && *final(self) == *old(self),
            old(self).kind_view() == SchematicKind::Undefined ==> if name@ == "bundle"@ {
                r is Ok && final(self).kind_view() == SchematicKind::Bundle
            } else if name@ == "resource"@ {
                r is Ok && final(self).kind_view() == SchematicKind::Resource
            } else {
                (r matches Err(e) && e.message@ == unsupported_text(
                    Some(seq!["bundle"@, "resource"@]),
                )) && *final(self) == *old(self)
            },
    {
        if self.kind != SchematicKind::Undefined {
            let d = self.kind.describe();
            let mut out: Vec<char> = Vec::new();
            push_str(&mut out, "schematic kind already configured as #[schematic");
            push_str(&mut out, d.as_str());
            push_str(&mut out, "]");
            return Err(AttrError { message: finish(&out) });
        }
        let mut b: Vec<char> = Vec::new();
        push_str(&mut b, "bundle");
        let bundle = finish(&b);
        let mut rr: Vec<char> = Vec::new();
        push_str(&mut rr, "resource");
        let resource = finish(&rr);
        if name.eq(&bundle) {
            self.kind = SchematicKind::Bundle;
            Ok(())
        } else if name.eq(&resource) {
            self.kind = SchematicKind::Resource;
            Ok(())
        } else {
            let expected = vec![bundle, resource];
            let r = unsupported_arg(Some(&expected));
            assert(expected@.map_values(|s: String| s@) =~= seq!["bundle"@, "resource"@]);
            Err(r)
        }
    }
}

impl Default for ContainerAttributes {
    fn default() -> (r: ContainerAttributes)
        ensures
            r.kind_view() == SchematicKind::Undefined,
    {
        ContainerAttributes::new()
    }
}

} // verus!
