//! A fixed-capacity ring buffer of variable-length payloads.
//!
//! A [`RingBuffer`] owns a fixed number of slots. A write stores a payload in
//! the slot under the write cursor, and once every slot holds unread data it
//! overwrites the oldest unread entry. A read looks at the slot under the read
//! cursor without clearing it. Both cursors advance modulo the capacity.
//!
//! Every operation is specified against [`RingView`], the mathematical state
//! of a buffer, and the theorems in [`laws`] describe whole runs of writes and
//! reads over that model.

pub mod buffer;
pub mod cursor;
pub mod laws;
pub mod model;
pub mod slot;
pub mod status;

pub use buffer::{RingBuffer, RingBufferPayloadRead};
pub use cursor::increment_index;
pub use model::{RingView, SlotView};
pub use slot::RingBufferData;
pub use status::RingError;
