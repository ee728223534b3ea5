//! Attribute arguments: their targets, the messages of refused settings,
//! and how configured arguments are described.
use vstd::prelude::*;

use crate::text::{chars_to_string, push_str};

verus! {

/// The target of an attribute argument (used in error messages).
#[derive(Debug, Clone, Copy, PartialEq, Eq)]
pub enum AttrTarget {
    Field,
    Asset,
    Input,
    InputVisibility,
}

pub open spec fn target_text(t: AttrTarget) -> Seq<char> {
    match t {
        AttrTarget::Field => "field"@,
        AttrTarget::Asset => "asset"@,
        AttrTarget::Input => "input"@,
        AttrTarget::InputVisibility => "input visibility"@,
    }
}

impl Default for AttrTarget {
    fn default() -> (r: AttrTarget)
        ensures
            r == AttrTarget::Field,
    {
        AttrTarget::Field
    }
}

impl AttrTarget {
    /// How the target is named in messages.
    pub fn text(&self) -> (r: String)
        ensures
            r@ == target_text(*self),
    {
        match self {
            AttrTarget::Field => to_string("field"),
            AttrTarget::Asset => to_string("asset"),
            AttrTarget::Input => to_string("input"),
            AttrTarget::InputVisibility => to_string("input visibility"),
        }
    }
}

/// An attribute configuration that cannot be applied, with its message.
#[derive(Debug, Clone, PartialEq, Eq)]
pub struct AttrError {
    pub message: String,
}

/// The text of a string slice as an owned string.
pub fn to_string(s: &str) -> (r: String)
    ensures
        r@ == s@,
{
    let mut out: Vec<char> = Vec::new();
    push_str(&mut out, s);
    let n = out.len();
    assert(out@.subrange(0, n as int) =~= out@);
    chars_to_string(&out, 0, n)
}

/// The text of the given characters as a string.
pub fn finish(out: &Vec<char>) -> (r: String)
    ensures
        r@ == out@,
{
    let n = out.len();
    assert(out@.subrange(0, n as int) =~= out@);
    chars_to_string(out, 0, n)
}

/// The entries separated by `", "`.
pub open spec fn join_entries(entries: Seq<Seq<char>>) -> Seq<char>
    decreases entries.len(),
{
    if entries.len() == 0 {
        Seq::empty()
    } else if entries.len() == 1 {
        entries[0]
    } else {
        join_entries(entries.drop_last()) + ", "@ + entries.last()
    }
}

/// Writes the given attribute entries one after another, with a comma
/// between each two of them (an empty entry still counts as one).
pub fn debug_attribute(entries: &Vec<String>) -> (r: String)
    ensures
        r@ == join_entries(entries@.map_values(|e: String| e@)),
{
    let ghost es = entries@.map_values(|e: String| e@);
    let mut out: Vec<char> = Vec::new();
    let mut needs_comma = false;
    let mut i: usize = 0;
    while i < entries.len()
        invariant
            i <= entries@.len(),
            es == entries@.map_values(|e: String| e@),
            needs_comma == (i > 0),
            out@ == join_entries(es.take(i as int)),
        decreases entries@.len() - i,
    {
        if needs_comma {
            push_str(&mut out, ", ");
        }
        push_str(&mut out, entries[i].as_str());
        needs_comma = true;
        proof {
            assert(es.take(i + 1).drop_last() =~= es.take(i as int));
            if i == 0 {
                assert(es.take(1)[0] == es[0]);
            }
        }
        i = i + 1;
    }
    assert(es.take(i as int) =~= es);
    let n = out.len();
    assert(out@.subrange(0, n as int) =~= out@);
    chars_to_string(&out, 0, n)
}

/// How a configured argument is described: nothing when it is not set,
/// else its name, `" = "` and its value as written.
pub open spec fn arg_text(name: Seq<char>, value: Option<Seq<char>>) -> Seq<char> {
    match value {
        None => Seq::empty(),
        Some(v) => name + " = "@ + v,
    }
}

pub fn arg_description(name: &str, value: Option<&str>) -> (r: String)
    ensures
        r@ == arg_text(
            name@,
            match value {
                Some(v) => Some(v@),
                None => None,
            },
        ),
{
    match value {
        None => String::new(),
        Some(v) => {
            let mut out: Vec<char> = Vec::new();
            push_str(&mut out, name);
            push_str(&mut out, " = ");
            push_str(&mut out, v);
            finish(&out)
        },
    }
}

/// How a boolean is written.
pub open spec fn bool_text(b: bool) -> Seq<char> {
    if b {
        "true"@
    } else {
        "false"@
    }
}

pub fn bool_str(b: bool) -> (r: &'static str)
    ensures
        r@ == bool_text(b),
{
    if b {
        "true"
    } else {
        "false"
    }
}

/// The message for setting an argument that is already set: the target,
/// then the argument as it is configured.
pub open spec fn already_configured_text(target: AttrTarget, name: Seq<char>, value: Seq<char>) -> Seq<char> {
    target_text(target) + " already configured as `"@ + name + " = "@ + value + "`"@
}

pub fn already_configured(target: AttrTarget, name: &str, value: &str) -> (r: AttrError)
    ensures
        r.message@ == already_configured_text(target, name@, value@),
{
    let t = target.text();
    let mut out: Vec<char> = Vec::new();
    push_str(&mut out, t.as_str());
    push_str(&mut out, " already configured as `");
    push_str(&mut out, name);
    push_str(&mut out, " = ");
    push_str(&mut out, value);
    push_str(&mut out, "`");
    AttrError { message: finish(&out) }
}

/// The message for an argument that cannot be combined with another.
pub open spec fn invariant_text(name: Seq<char>, other: Seq<char>) -> Seq<char> {
    "cannot use `"@ + name + "` argument with `"@ + other + "`"@
}

pub fn invariant_error(name: &str, other: &str) -> (r: AttrError)
    ensures
        r.message@ == invariant_text(name@, other@),
{
    let mut out: Vec<char> = Vec::new();
    push_str(&mut out, "cannot use `");
    push_str(&mut out, name);
    push_str(&mut out, "` argument with `");
    push_str(&mut out, other);
    push_str(&mut out, "`");
    AttrError { message: finish(&out) }
}

/// The names, each in double quotes, between brackets and separated by
/// `", "` (names without quotes or backslashes).
pub open spec fn quoted_list(names: Seq<Seq<char>>) -> Seq<char> {
    "["@ + join_entries(names.map_values(|n: Seq<char>| "\""@ + n + "\""@)) + "]"@
}

/// The message for an argument that is not supported.
pub open spec fn unsupported_text(expected: Option<Seq<Seq<char>>>) -> Seq<char> {
    match expected {
        Some(names) => "unsupported argument, expected one of: "@ + quoted_list(names),
        None => "unsupported argument"@,
    }
}

pub fn unsupported_arg(expected: Option<&Vec<String>>) -> (r: AttrError)
    ensures
        r.message@ == unsupported_text(
            match expected {
                Some(v) => Some(v@.map_values(|s: String| s@)),
                None => None,
            },
        ),
{
    match expected {
        None => AttrError { message: to_string("unsupported argument") },
        Some(names) => {
            let mut quoted: Vec<String> = Vec::new();
            let mut i: usize = 0;
            while i < names.len()
                invariant
                    i <= names@.len(),
                    quoted@.len() == i,
                    quoted@.map_values(|s: String| s@) == names@.map_values(|s: String| s@).take(
                        i as int,
                    ).map_values(|n: Seq<char>| "\""@ + n + "\""@),
                decreases names@.len() - i,
            {
                let mut qc: Vec<char> = Vec::new();
                push_str(&mut qc, "\"");
                push_str(&mut qc, names[i].as_str());
                push_str(&mut qc, "\"");
                assert(qc@ =~= "\""@ + names@[i as int]@ + "\""@);
                let q = finish(&qc);
                let ghost before = quoted@;
                quoted.push(q);
                proof {
                    let ns = names@.map_values(|s: String| s@);
                    assert(ns[i as int] == names@[i as int]@);
                    let lhs = quoted@.map_values(|s: String| s@);
                    let rhs = ns.take(i + 1).map_values(|n: Seq<char>| "\""@ + n + "\""@);
                    let prev = ns.take(i as int).map_values(|n: Seq<char>| "\""@ + n + "\""@);
                    assert forall|k: int| 0 <= k < i + 1 implies #[trigger] lhs[k] == rhs[k] by {
                        if k < i {
                            assert(quoted@[k] == before[k]);
                            assert(before.map_values(|s: String| s@)[k] == prev[k]);
                        }
                    }
                    assert(quoted@.map_values(|s: String| s@) =~= ns.take(i + 1).map_values(
                        |n: Seq<char>| "\""@ + n + "\""@,
                    ));
                }
                i = i + 1;
            }
            proof {
                let ns = names@.map_values(|s: String| s@);
                assert(ns.take(i as int) =~= ns);
            }
            let list = debug_attribute(&quoted);
            let mut out: Vec<char> = Vec::new();
            push_str(&mut out, "unsupported argument, expected one of: ");
            push_str(&mut out, "[");
            push_str(&mut out, list.as_str());
            push_str(&mut out, "]");
            AttrError { message: finish(&out) }
        },
    }
}

} // verus!

verus! {

/// Which derive macro is being used.
#[derive(Debug, Clone, Copy, PartialEq, Eq)]
pub enum DeriveType {
    /// The `Schematic` derive macro.
    Schematic,
    /// The `AssetSchematic` derive macro.
    AssetSchematic,
}

pub open spec fn attr_name_text(d: DeriveType) -> Seq<char> {
    match d {
        DeriveType::Schematic => "schematic"@,
        DeriveType::AssetSchematic => "asset_schematic"@,
    }
}

impl DeriveType {
    /// The name of the derive's attribute.
    pub fn attr_name(&self) -> (r: &'static str)
        ensures
            r@ == attr_name_text(*self),
    {
        match self {
            DeriveType::Schematic => "schematic",
            DeriveType::AssetSchematic => "asset_schematic",
        }
    }
}

/// The entries of a description, as text.
pub open spec fn texts(v: Seq<String>) -> Seq<Seq<char>> {
    v.map_values(|e: String| e@)
}

} // verus!
