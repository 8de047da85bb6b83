//! Log rotation rules, configuration parsing and rotation state.
use vstd::prelude::*;

pub mod text;
pub mod compress;
pub mod config;
pub mod paths;
pub mod legacy;
pub mod datetime;
pub mod state;
pub mod retention;
pub mod rotator;

verus! {

} // verus!
