//! A local, single-user secrets vault library.
//!
//! Stores named records (credentials, notes, TOTP seeds, custom fields)
//! encrypted at rest under a master key, and offers the record model,
//! the encryption pipeline, lookup and merge semantics that a command
//! shell composes.

use vstd::prelude::*;

pub mod bitwarden;
pub mod cipher;
pub mod clap_parsers;
pub mod codec;
pub mod commands;
pub mod errors;
pub mod store;
pub mod text;
pub mod utils;
pub mod vault;

verus! {

/// The prefix of the reserved custom fields, used for computed,
/// non-persisted fields injected into display output.
pub const RESERVED_FIELD_PREFIX: &'static str = ".lprsfield.";

/// The reserved prefix as a runtime value, for prefix checks.
pub fn reserved_prefix_str() -> (r: &'static str)
    ensures
        r@ == RESERVED_FIELD_PREFIX@,
{
    RESERVED_FIELD_PREFIX
}

} // verus!
