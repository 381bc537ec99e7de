use vstd::prelude::*;

pub mod batch;
pub mod bits;
pub mod column;
pub mod config;
pub mod error;
pub mod filter;
pub mod location;
pub mod merge;
pub mod reader;
mod text;
pub mod writer;

verus! {

} // verus!
