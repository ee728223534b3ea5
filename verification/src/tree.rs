//! Tree structures and accessors for prototypes.
pub mod access;
pub mod builder;
pub mod entity_tree;
pub mod proto_tree;
