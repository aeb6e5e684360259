//! Bin packing: construction, bin-removal exploration and the per-bin
//! separator's control.
pub mod explore;
pub mod lbf;
pub mod separator;
