//! Schematic identifiers and schematic errors.
use vstd::prelude::*;

use std::collections::hash_map::DefaultHasher;
use std::hash::Hasher;
use vstd::std_specs::convert::IntoSpec;
use vstd::std_specs::hash::DefaultHasherAdditionalSpecFns;

use crate::text::{chars_to_string, push_str};

verus! {

// ---------------------------------------------------------------------------
// Identifiers
// ---------------------------------------------------------------------------

/// A unique identifier for a schematic.
///
/// This can be used to generate stable references for items in a
/// schematic, including deeply nested items, by passing the same seed to
/// [`SchematicId::next`].
#[derive(Debug, Hash, PartialEq, Eq)]
pub struct SchematicId(u64);

impl View for SchematicId {
    type V = u64;

    closed spec fn view(&self) -> u64 {
        self.0
    }
}

/// The little-endian bytes of a number.
pub open spec fn le_bytes(x: u64) -> Seq<u8> {
    Seq::new(8, |i: int| ((x >> (8 * i) as u64) & 0xff) as u8)
}

/// The little-endian bytes of a 128-bit number.
pub open spec fn le_bytes128(x: u128) -> Seq<u8> {
    Seq::new(16, |i: int| ((x >> (8 * i) as u128) & 0xff) as u8)
}

/// The hash of the given byte strings, written in order into a fresh hasher.
pub open spec fn hash_of(writes: Seq<Seq<u8>>) -> u64 {
    DefaultHasher::spec_finish(writes)
}

fn write_u64(hasher: &mut DefaultHasher, x: u64)
    ensures
        final(hasher)@ == old(hasher)@.push(le_bytes(x)),
{
    let mut bytes: Vec<u8> = Vec::new();
    let mut i: u64 = 0;
    while i < 8
        invariant
            i <= 8,
            bytes@ == le_bytes(x).take(i as int),
        decreases 8 - i,
    {
        bytes.push(((x >> (8 * i)) & 0xff) as u8);
        assert(bytes@ =~= le_bytes(x).take(i + 1));
        i = i + 1;
    }
    assert(bytes@ =~= le_bytes(x));
    hasher.write(bytes.as_slice());
}

fn write_u128(hasher: &mut DefaultHasher, x: u128)
    ensures
        final(hasher)@ == old(hasher)@.push(le_bytes128(x)),
{
    let mut bytes: Vec<u8> = Vec::new();
    let mut i: u128 = 0;
    while i < 16
        invariant
            i <= 16,
            bytes@ == le_bytes128(x).take(i as int),
        decreases 16 - i,
    {
        bytes.push(((x >> (8 * i)) & 0xff) as u8);
        assert(bytes@ =~= le_bytes128(x).take(i + 1));
        i = i + 1;
    }
    assert(bytes@ =~= le_bytes128(x));
    hasher.write(bytes.as_slice());
}

impl SchematicId {
    /// The identifier of a schematic of the given type (by its type key) in
    /// the prototype with the given handle.
    pub fn new(proto: u64, schematic: u64) -> (r: SchematicId)
        ensures
            r@ == hash_of(seq![le_bytes(proto), le_bytes(schematic)]),
    {
        let mut hasher = DefaultHasher::new();
        write_u64(&mut hasher, proto);
        write_u64(&mut hasher, schematic);
        assert(hasher@ =~= seq![le_bytes(proto), le_bytes(schematic)]);
        SchematicId(hasher.finish())
    }

    /// The hash value of this identifier.
    pub fn value(&self) -> (r: u64)
        ensures
            r == self@,
    {
        self.0
    }

    /// A new identifier from this one and the given seed: the same seed
    /// always gives the same identifier.
    pub fn next(&self, seed: u128) -> (r: SchematicId)
        ensures
            r@ == hash_of(seq![le_bytes(self@), le_bytes128(seed)]),
    {
        let mut hasher = DefaultHasher::new();
        write_u64(&mut hasher, self.0);
        write_u128(&mut hasher, seed);
        assert(hasher@ =~= seq![le_bytes(self@), le_bytes128(seed)]);
        SchematicId(hasher.finish())
    }

    /// A copy of this identifier (a method rather than `Clone`, so that
    /// users do not copy identifiers by accident).
    pub fn clone(&self) -> (r: SchematicId)
        ensures
            r@ == self@,
    {
        SchematicId(self.0)
    }
}

/// Deriving identifiers is deterministic: the same identifier and seed give
/// the same identifier, and identifiers with the same value give the same
/// Two identifiers are the same exactly when they have the same value.
pub proof fn law_id_equal_iff_value(a: SchematicId, b: SchematicId)
    ensures
        (a == b) <==> (a@ == b@),
{
    if a@ == b@ {
        assert(a.0 == b.0);
    }
}

/// identifiers for every seed.
pub proof fn law_next_is_stable(a: SchematicId, b: SchematicId, seed: u128)
    requires
        a@ == b@,
    ensures
        hash_of(seq![le_bytes(a@), le_bytes128(seed)]) == hash_of(
            seq![le_bytes(b@), le_bytes128(seed)],
        ),
{
}

// ---------------------------------------------------------------------------
// Errors
// ---------------------------------------------------------------------------

/// Schematic-related error.
#[derive(Debug, Clone, PartialEq, Eq)]
pub enum SchematicError {
    /// A call to a `FromReflect` method failed.
    FromReflectFail,
    /// An invalid type was passed.
    TypeMismatch { expected: String, found: String },
}

/// The message of a schematic error.
pub open spec fn error_message(e: SchematicError) -> Seq<char> {
    match e {
        SchematicError::FromReflectFail => "a call to a `FromReflect` method failed"@,
        SchematicError::TypeMismatch { expected, found } => "expected type `"@ + expected@
            + "` but found `"@ + found@ + "`"@,
    }
}

impl SchematicError {
    /// The error's message.
    pub fn message(&self) -> (r: String)
        ensures
            r@ == error_message(*self),
    {
        let mut out: Vec<char> = Vec::new();
        match self {
            SchematicError::FromReflectFail => {
                push_str(&mut out, "a call to a `FromReflect` method failed");
            },
            SchematicError::TypeMismatch { expected, found } => {
                push_str(&mut out, "expected type `");
                push_str(&mut out, expected.as_str());
                push_str(&mut out, "` but found `");
                push_str(&mut out, found.as_str());
                push_str(&mut out, "`");
            },
        }
        let n = out.len();
        let r = chars_to_string(&out, 0, n);
        assert(out@.subrange(0, n as int) =~= out@);
        r
    }
}

} // verus!

verus! {

/// A `From`-like conversion of a schematic's input into the schematic,
/// made while the schematic's dependencies are preloaded.
///
/// Every type converts from the types that convert into it.
pub trait FromSchematicPreloadInput<T>: Sized {
    fn from_preload_input(input: T, id: SchematicId) -> Self;
}

impl<S, T: Into<S>> FromSchematicPreloadInput<T> for S {
    /// The input converted by its `Into` conversion.
    fn from_preload_input(input: T, id: SchematicId) -> (r: S)
        ensures
            call_ensures(<T as Into<S>>::into, (input,), r),
            <T as IntoSpec<S>>::obeys_into_spec() ==> r == input.into_spec(),
    {
        input.into()
    }
}

} // verus!
