use vstd::prelude::*;

pub mod bitmap;
pub mod command;
pub mod error;
pub mod rank;
pub mod score;
pub mod stats;
pub mod sync;

verus! {

} // verus!
