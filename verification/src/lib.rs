//! A staging byte buffer: a single growable byte container with a
//! contiguous readable region and a contiguous writable region inside one
//! backing allocation.  A producer writes into the spare capacity, a
//! consumer reads from the pending data, and the pending region can be
//! edited in place (delete, insert, replace sub-ranges) without moving
//! bytes that precede it.

mod buffer;
mod laws;
mod moves;

pub use buffer::Buffer;
pub use laws::lemma_delete_boundary;
pub use laws::lemma_region_arithmetic;
pub use laws::lemma_shift_idempotent;
pub use laws::lemma_write_read_round_trip;
