//! Marshalling layer for the kernel's jail parameter-set interface.
//!
//! The crate models jail parameters as tagged [`value::Val`] values, encodes a
//! parameter set into the flat region list the kernel calls expect, discovers
//! the kernel's parameter schema through sysctl, and decodes the regions the
//! kernel fills back into typed output values.

use vstd::prelude::*;

pub mod errors;
pub mod ops;
pub mod params;
pub mod resolve;
pub mod schema;
pub mod text;
pub mod value;

verus! {

/// Root of the sysctl subtree that describes every jail parameter.
pub const SYSCTL_PREFIX: &'static str = "security.jail.param";

} // verus!
