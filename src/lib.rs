use vstd::prelude::*;

pub mod coord;
pub mod json;
pub mod number;
pub mod service;
pub mod zone;

verus! {

} // verus!
