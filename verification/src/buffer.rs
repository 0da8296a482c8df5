//! The buffer of items of a type: the sizes come from the type, and the
//! windows are the parts from which slices of that type are made.

use crate::error::DoubleMappedBufferError;
use crate::region::Region;
use crate::sizing::{mapping_size, mapping_size_spec};
use crate::untyped::{creation_spec, DoubleMappedBufferImpl};
use crate::window::Window;
use core::marker::PhantomData;
use vstd::arithmetic::power2::is_pow2;
use vstd::prelude::*;

verus! {

/// A double mapping that holds items of type `T`.
///
/// The library computes; it maps no memory. Creating a buffer takes two
/// steps around the mapping: `mapping_size` says how many bytes are to be
/// mapped twice, and `new` takes what the platform answered. The four slice
/// functions then give the windows over the mapping.
#[derive(Debug)]
pub struct DoubleMappedBuffer<T> {
    buffer: DoubleMappedBufferImpl,
    _p: PhantomData<T>,
}

impl<T> DoubleMappedBuffer<T> {
    /// The buffer without its item type.
    pub closed spec fn spec_buffer(&self) -> &DoubleMappedBufferImpl {
        &self.buffer
    }

    /// The address of the first item.
    pub open spec fn spec_addr(&self) -> usize {
        self.buffer().addr()
    }

    /// The number of items in each window.
    pub open spec fn spec_len(&self) -> usize {
        self.buffer().len()
    }

    /// The mapping that holds the items.
    pub open spec fn spec_region(&self) -> Region {
        self.buffer().region()
    }

    /// Every buffer is divided into items of the size of `T`, and its mapping
    /// gives the alignment of `T`.
    #[verifier::type_invariant]
    pub open spec fn wf(&self) -> bool {
        &&& self.buffer().wf()
        &&& self.buffer().item_size() == vstd::layout::size_of::<T>()
        &&& self.buffer().alignment() == vstd::layout::align_of::<T>()
    }

    /// The byte length of one half of the mapping for a buffer of at least
    /// `min_items` items, on a platform whose pages have `page_size` bytes.
    pub fn mapping_size(min_items: usize, page_size: usize) -> (r: Result<
        usize,
        DoubleMappedBufferError,
    >)
        requires
            page_size > 0,
        ensures
            match r {
                Ok(bytes) => mapping_size_spec(
                    min_items as int,
                    vstd::layout::size_of::<T>() as int,
                    vstd::layout::align_of::<T>() as int,
                    page_size as int,
                ) == Ok::<int, DoubleMappedBufferError>(bytes as int),
                Err(e) => mapping_size_spec(
                    min_items as int,
                    vstd::layout::size_of::<T>() as int,
                    vstd::layout::align_of::<T>() as int,
                    page_size as int,
                ) == Err::<int, DoubleMappedBufferError>(e),
            },
    {
        mapping_size(min_items, core::mem::size_of::<T>(), core::mem::align_of::<T>(), page_size)
    }

    /// Makes the buffer of at least `min_items` items from what the platform
    /// answered when it was asked to map `mapping_size(..)` bytes twice: the
    /// base of the mapping, or its error.
    pub fn new(
        min_items: usize,
        page_size: usize,
        mapped: Result<usize, DoubleMappedBufferError>,
    ) -> (r: Result<Self, DoubleMappedBufferError>)
        requires
            min_items > 0,
            vstd::layout::size_of::<T>() > 0,
            is_pow2(page_size as int),
        ensures
            match r {
                Ok(buffer) => {
                    &&& creation_spec(
                        min_items as int,
                        vstd::layout::size_of::<T>() as int,
                        vstd::layout::align_of::<T>() as int,
                        page_size as int,
                        mapped,
                    ) == Ok::<(int, int), DoubleMappedBufferError>(
                        (buffer.addr() as int, buffer.region().byte_length() as int),
                    )
                    &&& buffer.wf()
                    &&& buffer.region().page_size() == page_size
                    &&& buffer.len() >= min_items
                },
                Err(e) => creation_spec(
                    min_items as int,
                    vstd::layout::size_of::<T>() as int,
                    vstd::layout::align_of::<T>() as int,
                    page_size as int,
                    mapped,
                ) == Err::<(int, int), DoubleMappedBufferError>(e),
            },
    {
        broadcast use vstd::layout::align_properties;

        match DoubleMappedBufferImpl::new(
            min_items,
            core::mem::size_of::<T>(),
            core::mem::align_of::<T>(),
            page_size,
            mapped,
        ) {
            Ok(buffer) => Ok(DoubleMappedBuffer { buffer, _p: PhantomData }),
            Err(e) => Err(e),
        }
    }

    /// The window from which the read-only slice of all items is made.
    pub fn slice(&self) -> (w: Window)
        ensures
            w == self.buffer().window(0, false),
            w.addr == self.addr(),
            w.within(self.region()),
            w.addr as int % vstd::layout::align_of::<T>() as int == 0,
    {
        proof {
            use_type_invariant(self);
            self.lemma_window_aligned(0, false);
        }
        self.buffer.window_at(0, false)
    }

    /// The window from which the writable slice of all items is made. It
    /// lies on the same memory as the window of `slice`.
    pub fn slice_mut(&self) -> (w: Window)
        ensures
            w == self.buffer().window(0, true),
            w.addr == self.addr(),
            w.within(self.region()),
            w.addr as int % vstd::layout::align_of::<T>() as int == 0,
    {
        proof {
            use_type_invariant(self);
            self.lemma_window_aligned(0, true);
        }
        self.buffer.window_at(0, true)
    }

    /// The window from which the read-only slice is made that starts
    /// `offset` items after the first. It is as long as the buffer, and runs
    /// on into the second range of the mapping.
    pub fn slice_with_offset(&self, offset: usize) -> (w: Window)
        requires
            offset <= self.len(),
        ensures
            w == self.buffer().window(offset as int, false),
            w.addr == self.addr() + offset * vstd::layout::size_of::<T>(),
            w.within(self.region()),
            w.addr as int % vstd::layout::align_of::<T>() as int == 0,
    {
        proof {
            use_type_invariant(self);
            self.lemma_window_aligned(offset as int, false);
        }
        self.buffer.window_at(offset, false)
    }

    /// The window from which the writable slice is made that starts `offset`
    /// items after the first. It is as long as the buffer, and runs on into
    /// the second range of the mapping.
    pub fn slice_mut_with_offset(&self, offset: usize) -> (w: Window)
        requires
            offset <= self.len(),
        ensures
            w == self.buffer().window(offset as int, true),
            w.addr == self.addr() + offset * vstd::layout::size_of::<T>(),
            w.within(self.region()),
            w.addr as int % vstd::layout::align_of::<T>() as int == 0,
    {
        proof {
            use_type_invariant(self);
            self.lemma_window_aligned(offset as int, true);
        }
        self.buffer.window_at(offset, true)
    }

    /// The number of items in each window.
    #[verifier::when_used_as_spec(spec_len)]
    pub fn len(&self) -> (r: usize)
        ensures
            r == self.len(),
    {
        self.buffer.len()
    }

    /// The address of the first item.
    #[verifier::when_used_as_spec(spec_addr)]
    pub fn addr(&self) -> (r: usize)
        ensures
            r == self.addr(),
    {
        self.buffer.addr()
    }

    /// The mapping that holds the items.
    #[verifier::when_used_as_spec(spec_region)]
    pub fn region(&self) -> (r: Region)
        ensures
            r == self.region(),
    {
        self.buffer.region()
    }

    /// The buffer without its item type.
    #[verifier::when_used_as_spec(spec_buffer)]
    pub fn buffer(&self) -> (r: &DoubleMappedBufferImpl)
        ensures
            r == self.buffer(),
    {
        &self.buffer
    }

    /// The base of the mapping lies on a page boundary, and every window
    /// that starts at most `len` items after the base starts on a boundary of
    /// the alignment of `T`.
    pub proof fn lemma_window_aligned(&self, offset: int, writable: bool)
        requires
            self.wf(),
            0 <= offset <= self.len(),
        ensures
            self.addr() % self.region().page_size() == 0,
            self.addr() as int % vstd::layout::align_of::<T>() as int == 0,
            self.buffer().window(offset, writable).addr as int % vstd::layout::align_of::<T>() as int
                == 0,
            forall|i: int|
                0 <= i ==> #[trigger] self.buffer().window(offset, writable).item_addr(i)
                    % vstd::layout::align_of::<T>() as int == 0,
    {
        broadcast use vstd::layout::align_properties;

        reveal(is_pow2);
        let w = self.buffer().window(offset, writable);
        assert forall|i: int| 0 <= i implies #[trigger] w.item_addr(i) % vstd::layout::align_of::<
            T,
        >() as int == 0 by {
            self.buffer().lemma_window_aligned(offset, writable, i);
        }
        self.buffer().lemma_window_aligned(offset, writable, 0);
        self.buffer().lemma_window(offset, writable);
        assert(w.item_addr(0) == w.addr);
    }
}

} // verus!
