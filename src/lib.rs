//! Layered configuration resolution: a base file, an environment file and
//! prefixed environment variables, merged by precedence into one tree of
//! settings.
use vstd::prelude::*;

pub mod layer;
pub mod profile;
pub mod sources;
pub mod text;
pub mod variables;

verus! {

} // verus!
