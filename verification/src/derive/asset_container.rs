//! The container attributes of the `AssetSchematic` derive: whether the
//! asset skips preloading.
use vstd::prelude::*;

use crate::derive::attr::{already_configured, already_configured_text, bool_str, bool_text, AttrError, AttrTarget};
use crate::derive::fields::flag;

verus! {

/// Attribute information on the container type.
#[derive(Debug, Clone, Copy, PartialEq, Eq)]
pub struct ContainerAttributes {
    no_preload: Option<bool>,
}

impl ContainerAttributes {
    pub closed spec fn no_preload_view(&self) -> Option<bool> {
        self.no_preload
    }

    /// No attribute given.
    pub fn new() -> (r: ContainerAttributes)
        ensures
            r.no_preload_view() is None,
    {
        ContainerAttributes { no_preload: None }
    }

    /// Whether the asset skips preloading.
    pub fn no_preload(&self) -> (r: bool)
        ensures
            r == flag(self.no_preload_view()),
    {
        match self.no_preload {
            Some(v) => v,
            None => false,
        }
    }

    /// Set `no_preload`: only once.
    pub fn try_set_no_preload(&mut self, value: bool) -> (r: Result<(), AttrError>)
        ensures
            match old(self).no_preload_view() {
                None => r is Ok && final(self).no_preload_view() == Some(value),
                Some(v) => (r matches Err(e) && e.message@ == already_configured_text(
                    AttrTarget::Asset,
                    "no_preload"@,
                    bool_text(v),
                )) && *final(self) == *old(self),
            },
    {
        match self.no_preload {
            Some(v) => Err(already_configured(AttrTarget::Asset, "no_preload", bool_str(v))),
            None => {
                self.no_preload = Some(value);
                Ok(())
            },
        }
    }
}

impl Default for ContainerAttributes {
    fn default() -> (r: ContainerAttributes)
        ensures
            r.no_preload_view() is None,
    {
        ContainerAttributes::new()
    }
}

} // verus!
