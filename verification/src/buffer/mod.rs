//! Buffers that hold a window of recent items.

pub mod fixed;

pub use fixed::{Fixed, IndexError, Iter};
