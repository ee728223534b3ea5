//! Prototype trees for entity hierarchies: access paths into a tree of
//! entities, the trees built from prototypes and their templates, and the
//! attribute configuration of the schematic derive macros.
pub mod derive;
pub mod indexed;
pub mod registration;
pub mod registry;
pub mod schematics;
pub mod templates;
pub mod text;
pub mod tree;
