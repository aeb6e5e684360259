//! Support: order keys and selections, listeners, export naming, input and
//! output decisions.
pub mod io;
pub mod listener;
pub mod order_key;
pub mod rank;
pub mod svg_exporter;
