//! Core of a fixed-capacity single-producer/single-consumer ring buffer.
//!
//! The ring keeps its elements in `capacity` slots and reserves one slot as a
//! sentinel gap, so that equal read and write positions always mean an empty
//! ring and never a full one.  `try_write` appends at the tail and hands the
//! value back unchanged when the ring is full; `try_read` takes the oldest
//! element; `drain` empties the ring so that every remaining element is
//! released through the ordinary value-drop path.

pub mod layout;
pub mod ring;

pub use layout::size_align;
pub use ring::RingBuffer;
pub use ring::clamp_capacity;
pub use ring::next_position;
pub use ring::occupancy;
