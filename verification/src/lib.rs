//! A fixed-capacity ring buffer that evicts its oldest element when full, and a
//! frozen, read-only view of it for lookups by position.

pub mod cursor;
pub mod model;
pub mod ring;

pub use ring::{freeze, new, RingBuffer, RingBufferView};
