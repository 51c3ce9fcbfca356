//! A fixed-capacity circular buffer that overwrites its oldest element when full.
pub mod cb;
pub mod laws;

pub use cb::{CircBuffer, CircBufferDrain, CircBufferIterator};
