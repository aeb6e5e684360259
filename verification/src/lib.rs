//! Decision logic of a bin- and strip-packing optimizer: the orders in which
//! items and bins are tried, the bin-removal exploration loop, the separator's
//! strike/iteration control, and the bookkeeping around reports and inputs.
//! Geometry, collision detection and file I/O live outside this crate; they
//! hand the library plain values (keys, counts, flags) and act on what it
//! decides.

pub mod optimizer;
pub mod util;
