//! The optimizers. Bin packing lives in `bpp`.
pub mod bpp;
