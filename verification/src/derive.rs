//! The attribute configuration of the `Schematic` and `AssetSchematic`
//! derive macros: what each attribute argument may be set to, in which
//! combinations, and the messages given when a combination is refused.
pub mod asset_container;
pub mod attr;
pub mod fields;
pub mod io;
pub mod layout;
pub mod schematic_container;
