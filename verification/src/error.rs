use vstd::prelude::*;

verus! {

/// Why a double-mapped buffer could not be created.
#[derive(Debug, Clone, Copy, PartialEq, Eq, Structural)]
pub enum DoubleMappedBufferError {
    /// The requested number of items times the item size does not fit in the
    /// address width, or rounding it up to whole pages does not.
    SizeOverflow,
    /// The items need an alignment larger than a page.
    Unsupported,
    /// The backing storage could not be allocated.
    OutOfMemory,
    /// The two adjacent mappings could not be established.
    MappingFailed,
}

} // verus!
