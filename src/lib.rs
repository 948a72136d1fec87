//! Pitch detection by the McLeod method: the sign-and-order part of the
//! algorithm (peak scan, key-maximum selection, threshold policy), verified
//! over integer order keys of the normalized square difference values.

pub mod order;
pub mod peak;
pub mod select;

pub use order::{order_key, threshold_key, value_key, value_keys};
pub use peak::detect_peaks;
pub use select::{choose_peak, key_maximum};
