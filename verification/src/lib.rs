//! The arithmetic of double-mapped buffers.
//!
//! A double-mapped buffer is a piece of memory that is mapped twice, at two
//! adjacent address ranges, so that the second range mirrors the first. A
//! ring buffer over such memory needs no wraparound: a slice that starts
//! anywhere in the first range and is as long as the buffer runs on into the
//! second range, where it finds the start of the buffer again.
//!
//! This library holds what can be computed and proved of such a buffer: how
//! many bytes have to be mapped for a number of items, whether what a
//! platform mapped is a double mapping, where the windows for the slices lie,
//! and that reading and writing through them behaves as the mirroring says.
//! It maps no memory and makes no slices; that is left to the code around it.
//!
//! - [`sizing`]: from items to bytes to whole pages.
//! - [`attempt`]: what follows an attempt to map.
//! - [`region`]: a double mapping, and the bytes that its addresses refer to.
//! - [`window`]: windows over a mapping, and reading and writing through them.
//! - [`untyped`]: the buffer with the item size and alignment as numbers.
//! - [`buffer`]: the buffer of items of a type.
//! - [`mirror`]: what the mirroring means for the windows of a buffer.

pub mod attempt;
pub mod buffer;
pub mod error;
pub mod mirror;
pub mod region;
pub mod sizing;
pub mod untyped;
pub mod window;

pub use attempt::{Attempt, Step};
pub use buffer::DoubleMappedBuffer;
pub use error::DoubleMappedBufferError;
pub use region::Region;
pub use untyped::DoubleMappedBufferImpl;
pub use window::Window;
