//! The core library of the Amiga Disk Engine: the seam its front ends share.
use vstd::prelude::*;

pub mod assemble;
pub mod batch;
pub mod bridge;
pub mod carve;
pub mod cli;
pub mod consolidate;
pub mod convert;
pub mod create;
pub mod find;
pub mod health;
pub mod inspect;
pub mod json;
pub mod json_read;
pub mod layout;
pub mod order;
pub mod scan;
pub mod specs;
pub mod text;
pub mod unpack;

verus! {

/// The version of the engine, as front ends report it.
pub const VERSION: &'static str = "0.1.0";

/// The version of the engine, as front ends report it.
pub fn version() -> (r: &'static str)
    ensures
        r == VERSION,
{
    VERSION
}

} // verus!
