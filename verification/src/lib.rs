use vstd::prelude::*;

pub mod calculator;
pub mod controls;
pub mod export;
pub mod plot;
pub mod raster;

verus! {

} // verus!
