//! A growable, append-only sequence stored as a series of fixed-capacity
//! chunks.
//!
//! Pushing never moves an element that is already stored: a chunk's buffer
//! is allocated once and filled from the front, and a full chunk is followed
//! by a new one. Two lists of the same chunk capacity are joined by moving
//! the chunks of one behind the chunks of the other, without touching an
//! element.

mod chunk;
pub mod iter;
pub mod laws;
pub mod layout;
pub mod list;

pub use iter::Iter;
pub use list::List;
