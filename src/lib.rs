use vstd::prelude::*;

pub mod error;
pub mod handler;
pub mod laws;
pub mod memory;
pub mod model;
pub mod repository;
pub mod store;

verus! {

} // verus!
