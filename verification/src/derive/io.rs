//! The input and output types of a derived schematic.
use vstd::prelude::*;

use crate::derive::attr::{already_configured, already_configured_text, finish, AttrError, AttrTarget};
use crate::text::push_str;

verus! {

/// The type a schematic is deserialized from.
#[derive(Debug, Clone, PartialEq, Eq)]
pub enum InputType {
    /// `Self`.
    Reflexive,
    /// An existing type (as written), from `from = path::to::Type`.
    Existing(String),
    /// A type to be generated with the given name.
    Generated(String),
}

impl InputType {
    /// The generated input type of a schematic: its name suffixed with
    /// `Input` (`Foo` becomes `FooInput`).
    pub fn new_generated(ident: &String) -> (r: InputType)
        ensures
            r is Generated && r->Generated_0@ == ident@ + "Input"@,
    {
        let mut out: Vec<char> = Vec::new();
        push_str(&mut out, ident.as_str());
        push_str(&mut out, "Input");
        InputType::Generated(finish(&out))
    }
}

/// The type a schematic is applied as.
#[derive(Debug, Clone, PartialEq, Eq)]
pub enum OutputType {
    /// `Self`.
    Reflexive,
    /// The given type (as written), from `into = path::to::Type`.
    Custom(String),
}

/// The visibility of a generated input type.
#[derive(Debug, Clone, PartialEq, Eq)]
pub enum InputVis {
    /// No visibility keyword.
    Inherited,
    /// `pub`.
    Public,
    /// A restricted visibility such as `pub(crate)`, as written.
    Restricted(String),
}

pub open spec fn vis_text(v: InputVis) -> Seq<char> {
    match v {
        InputVis::Inherited => Seq::empty(),
        InputVis::Public => "pub"@,
        InputVis::Restricted(t) => t@,
    }
}

/// The input and output types of a schematic.
pub struct SchematicIo {
    /// The name of the schematic.
    ident: String,
    /// The visibility of the schematic, as written.
    vis: String,
    /// The visibility of the input type, if given.
    input_vis: Option<InputVis>,
    /// The input type.
    input_ty: InputType,
    /// The output type.
    output_ty: OutputType,
}

pub open spec fn input_ty_error_text(current: InputType, value: InputType) -> Seq<char> {
    match current {
        InputType::Existing(ty) => if value is Generated {
            "an input type needs to be generated, but it's already specified as "@ + ty@
        } else {
            "input type already specified as "@ + ty@
        },
        InputType::Generated(id) => "input type already specified as "@ + id@,
        InputType::Reflexive => Seq::empty(),
    }
}

impl SchematicIo {
    pub closed spec fn ident_view(&self) -> Seq<char> {
        self.ident@
    }

    pub closed spec fn vis_view(&self) -> Seq<char> {
        self.vis@
    }

    pub closed spec fn input_vis_view(&self) -> Option<InputVis> {
        self.input_vis
    }

    pub closed spec fn input_ty_view(&self) -> InputType {
        self.input_ty
    }

    pub closed spec fn output_ty_view(&self) -> OutputType {
        self.output_ty
    }

    /// The input and output of a schematic with the given name and
    /// visibility: both `Self`.
    pub fn new(ident: String, vis: String) -> (r: SchematicIo)
        ensures
            r.ident_view() == ident@,
            r.vis_view() == vis@,
            r.input_vis_view() is None,
            r.input_ty_view() == InputType::Reflexive,
            r.output_ty_view() == OutputType::Reflexive,
    {
        SchematicIo {
            ident,
            vis,
            input_vis: None,
            input_ty: InputType::Reflexive,
            output_ty: OutputType::Reflexive,
        }
    }

    /// The name of the schematic.
    pub fn ident(&self) -> (r: &String)
        ensures
            r@ == self.ident_view(),
    {
        &self.ident
    }

    /// The visibility of the schematic.
    pub fn vis(&self) -> (r: &String)
        ensures
            r@ == self.vis_view(),
    {
        &self.vis
    }

    /// The input type.
    pub fn input_ty(&self) -> (r: &InputType)
        ensures
            *r == self.input_ty_view(),
    {
        &self.input_ty
    }

    /// Set the input type: only once.
    pub fn try_set_input_ty(&mut self, value: InputType) -> (r: Result<(), AttrError>)
        ensures
            final(self).ident_view() == old(self).ident_view(),
            final(self).vis_view() == old(self).vis_view(),
            final(self).input_vis_view() == old(self).input_vis_view(),
            final(self).output_ty_view() == old(self).output_ty_view(),
            old(self).input_ty_view() is Reflexive ==> r is Ok && final(self).input_ty_view()
                == value,
            !(old(self).input_ty_view() is Reflexive) ==> (r matches Err(e) && e.message@
                == input_ty_error_text(old(self).input_ty_view(), value)) && final(
                self).input_ty_view() == old(self).input_ty_view(),
    {
        let mut out: Vec<char> = Vec::new();
        match &self.input_ty {
            InputType::Reflexive => {
                self.input_ty = value;
                return Ok(());
            },
            InputType::Existing(ty) => {
                match value {
                    InputType::Generated(_) => push_str(
                        &mut out,
                        "an input type needs to be generated, but it's already specified as ",
                    ),
                    _ => push_str(&mut out, "input type already specified as "),
                }
                push_str(&mut out, ty.as_str());
            },
            InputType::Generated(id) => {
                push_str(&mut out, "input type already specified as ");
                push_str(&mut out, id.as_str());
            },
        }
        Err(AttrError { message: finish(&out) })
    }

    /// The output type.
    pub fn output_ty(&self) -> (r: &OutputType)
        ensures
            *r == self.output_ty_view(),
    {
        &self.output_ty
    }

    /// Set the output type: only once.
    pub fn try_set_output_ty(&mut self, value: OutputType) -> (r: Result<(), AttrError>)
        ensures
            final(self).ident_view() == old(self).ident_view(),
            final(self).vis_view() == old(self).vis_view(),
            final(self).input_vis_view() == old(self).input_vis_view(),
            final(self).input_ty_view() == old(self).input_ty_view(),
            match old(self).output_ty_view() {
                OutputType::Reflexive => r is Ok && final(self).output_ty_view() == value,
                OutputType::Custom(ty) => (r matches Err(e) && e.message@
                    == "output type already specified as "@ + ty@) && final(self).output_ty_view()
                    == old(self).output_ty_view(),
            },
    {
        match &self.output_ty {
            OutputType::Reflexive => {
                self.output_ty = value;
                Ok(())
            },
            OutputType::Custom(ty) => {
                let mut out: Vec<char> = Vec::new();
                push_str(&mut out, "output type already specified as ");
                push_str(&mut out, ty.as_str());
                Err(AttrError { message: finish(&out) })
            },
        }
    }

    /// The visibility of the input type, if given.
    pub fn input_vis(&self) -> (r: &Option<InputVis>)
        ensures
            *r == self.input_vis_view(),
    {
        &self.input_vis
    }

    /// Set the visibility of the input type: only once (a visibility left
    /// empty cannot be reported once set).
    pub fn try_set_input_vis(&mut self, value: InputVis) -> (r: Result<(), AttrError>)
        requires
            !(old(self).input_vis_view() matches Some(InputVis::Inherited)),
        ensures
            final(self).ident_view() == old(self).ident_view(),
            final(self).vis_view() == old(self).vis_view(),
            final(self).input_ty_view() == old(self).input_ty_view(),
            final(self).output_ty_view() == old(self).output_ty_view(),
            match old(self).input_vis_view() {
                None => r is Ok && final(self).input_vis_view() == Some(value),
                Some(v) => (r matches Err(e) && e.message@ == already_configured_text(
                    AttrTarget::InputVisibility,
                    "vis"@,
                    vis_text(v),
                )) && final(self).input_vis_view() == old(self).input_vis_view(),
            },
    {
        match &self.input_vis {
            None => {
                self.input_vis = Some(value);
                Ok(())
            },
            Some(InputVis::Public) => Err(
                already_configured(AttrTarget::InputVisibility, "vis", "pub"),
            ),
            Some(InputVis::Restricted(t)) => Err(
                already_configured(AttrTarget::InputVisibility, "vis", t.as_str()),
            ),
            Some(InputVis::Inherited) => Err(
                already_configured(AttrTarget::InputVisibility, "vis", ""),
            ),
        }
    }
}


impl SchematicIo {
    /// The name and visibility of the input type to generate, when one is
    /// generated: the visibility given for it, else that of the schematic
    /// (so that no private type appears in a public interface).
    pub fn generated_input(&self) -> (r: Option<(String, String)>)
        ensures
            match self.input_ty_view() {
                InputType::Generated(id) => r matches Some((name, vis)) && name@ == id@ && vis@
                    == match self.input_vis_view() {
                    Some(v) => vis_text(v),
                    None => self.vis_view(),
                },
                _ => r is None,
            },
    {
        match &self.input_ty {
            InputType::Generated(id) => {
                let vis = match &self.input_vis {
                    Some(InputVis::Public) => {
                        let mut out: Vec<char> = Vec::new();
                        push_str(&mut out, "pub");
                        finish(&out)
                    },
                    Some(InputVis::Restricted(t)) => t.clone(),
                    Some(InputVis::Inherited) => String::new(),
                    None => self.vis.clone(),
                };
                Some((id.clone(), vis))
            },
            _ => None,
        }
    }
}


/// How a schematic's input is turned into what it is applied as.
#[derive(Debug, Clone, PartialEq, Eq)]
pub enum ConversionPlan {
    /// The input is applied as it is.
    Direct,
    /// The input is converted into the schematic.
    ToSelf,
    /// The input is converted into the schematic, then into the given
    /// output type (as written).
    ToSelfThenOutput(String),
}

pub open spec fn conversion_plan_spec(input: InputType, output: OutputType) -> ConversionPlan {
    match output {
        OutputType::Custom(t) => ConversionPlan::ToSelfThenOutput(t),
        OutputType::Reflexive => if input is Reflexive {
            ConversionPlan::Direct
        } else {
            ConversionPlan::ToSelf
        },
    }
}

impl SchematicIo {
    /// Make sure an input type is generated (for a field attribute that
    /// needs one): nothing to do when one is, else the generated type is
    /// set, which is refused when another input type was given.
    pub fn require_input(&mut self) -> (r: Result<(), AttrError>)
        ensures
            final(self).ident_view() == old(self).ident_view(),
            final(self).vis_view() == old(self).vis_view(),
            final(self).input_vis_view() == old(self).input_vis_view(),
            final(self).output_ty_view() == old(self).output_ty_view(),
            match old(self).input_ty_view() {
                InputType::Generated(_) => r is Ok && final(self).input_ty_view() == old(
                    self).input_ty_view(),
                InputType::Reflexive => r is Ok && final(self).input_ty_view() is Generated
                    && final(self).input_ty_view()->Generated_0@ == old(self).ident_view()
                    + "Input"@,
                InputType::Existing(ty) => (r matches Err(e) && e.message@
                    == "an input type needs to be generated, but it's already specified as "@
                    + ty@) && final(self).input_ty_view() == old(self).input_ty_view(),
            },
    {
        match &self.input_ty {
            InputType::Generated(_) => Ok(()),
            _ => {
                let generated = InputType::new_generated(&self.ident);
                self.try_set_input_ty(generated)
            },
        }
    }

    /// How the input is turned into what the schematic is applied as.
    pub fn conversion_plan(&self) -> (r: ConversionPlan)
        ensures
            r == conversion_plan_spec(self.input_ty_view(), self.output_ty_view()),
    {
        match &self.output_ty {
            OutputType::Custom(t) => ConversionPlan::ToSelfThenOutput(t.clone()),
            OutputType::Reflexive => match &self.input_ty {
                InputType::Reflexive => ConversionPlan::Direct,
                _ => ConversionPlan::ToSelf,
            },
        }
    }

    /// Whether the generated items are kept out of the surrounding scope:
    /// when no visibility (or an empty one) was given for the input type.
    pub fn hides_output(&self) -> (r: bool)
        ensures
            r == (self.input_vis_view() is None || self.input_vis_view() matches Some(
                InputVis::Inherited,
            )),
    {
        match &self.input_vis {
            None => true,
            Some(InputVis::Inherited) => true,
            _ => false,
        }
    }
}

/// The input is applied as it is only when both the input and the output
/// are the schematic itself; any other input (generated or existing) is
/// converted into the schematic, and a custom output is then converted
/// into from the schematic.
pub proof fn law_conversion_plan(input: InputType, output: OutputType)
    ensures
        (conversion_plan_spec(input, output) == ConversionPlan::Direct) <==> (input is Reflexive
            && output is Reflexive),
        output is Reflexive && !(input is Reflexive) ==> conversion_plan_spec(input, output)
            == ConversionPlan::ToSelf,
        output matches OutputType::Custom(t) ==> conversion_plan_spec(input, output)
            == ConversionPlan::ToSelfThenOutput(t),
{
}

} // verus!
