use vstd::prelude::*;

pub mod daemon;
pub mod flow;
pub mod laws;
pub mod order;
pub mod panel;
pub mod paths;
pub mod procedures;
pub mod screen;
pub mod status;
pub mod store;

verus! {

} // verus!
