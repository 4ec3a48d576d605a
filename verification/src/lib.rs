use vstd::prelude::*;

pub mod bytes;
pub mod path;
pub mod text;
pub mod kind;
pub mod config;
pub mod env;
pub mod log_analyzer;
pub mod policy;
pub mod laws;
pub mod cli;
pub mod interpose;
pub mod profile_laws;

verus! {

} // verus!
