//! The buffer without its item type: a double mapping divided into items of a
//! size and an alignment that are given as numbers.

use crate::error::DoubleMappedBufferError;
use crate::region::{lemma_multiple_of_multiple, lemma_pow2_divides, Region};
use crate::sizing::{lemma_round_up_bounds, mapping_size, mapping_size_spec};
use crate::window::Window;
use vstd::arithmetic::div_mod::{
    lemma_fundamental_div_mod, lemma_fundamental_div_mod_converse, lemma_mod_bound,
};
use vstd::arithmetic::power2::is_pow2;
use vstd::prelude::*;

verus! {

/// A double mapping together with the size and the alignment of the items
/// that it holds.
#[derive(Debug)]
pub struct DoubleMappedBufferImpl {
    region: Region,
    item_size: usize,
    alignment: usize,
}

/// What creating a buffer comes to, given what the platform answered when it
/// was asked for the mapping: the base and the byte length of the mapping, or
/// the reason why there is no buffer.
///
/// The errors of sizing come first. Then an error of the platform is handed
/// on as it is, and a base that cannot be the base of the mapping that was
/// asked for counts as a mapping that failed.
pub open spec fn creation_spec(
    min_items: int,
    item_size: int,
    alignment: int,
    page_size: int,
    mapped: Result<usize, DoubleMappedBufferError>,
) -> Result<(int, int), DoubleMappedBufferError> {
    match mapping_size_spec(min_items, item_size, alignment, page_size) {
        Err(e) => Err(e),
        Ok(byte_length) => match mapped {
            Err(e) => Err(e),
            Ok(base) => if Region::valid(base as int, byte_length, page_size) {
                Ok((base as int, byte_length))
            } else {
                Err(DoubleMappedBufferError::MappingFailed)
            },
        },
    }
}

/// A product of two factors holds each factor's multiples: `count` items of
/// `item_size` bytes fit into `bytes` exactly when `count` is at most the
/// quotient.
pub proof fn lemma_items_fit(count: int, item_size: int, bytes: int)
    requires
        0 <= count,
        0 < item_size,
        0 <= bytes,
    ensures
        count <= bytes / item_size <==> count * item_size <= bytes,
        (bytes / item_size) * item_size <= bytes < (bytes / item_size) * item_size + item_size,
        bytes % item_size == 0 ==> (bytes / item_size) * item_size == bytes,
{
    lemma_fundamental_div_mod(bytes, item_size);
    lemma_mod_bound(bytes, item_size);
    let q = bytes / item_size;
    assert(q * item_size == item_size * q) by (nonlinear_arith);
    if count <= q {
        assert(count * item_size <= q * item_size) by (nonlinear_arith)
            requires
                count <= q,
                0 < item_size,
        ;
    } else {
        assert(count * item_size >= (q + 1) * item_size) by (nonlinear_arith)
            requires
                count >= q + 1,
                0 < item_size,
        ;
        assert((q + 1) * item_size == q * item_size + item_size) by (nonlinear_arith);
    }
}

impl DoubleMappedBufferImpl {
    /// The mapping that holds the items.
    pub closed spec fn spec_region(&self) -> Region {
        self.region
    }

    /// The size of one item in bytes.
    pub closed spec fn spec_item_size(&self) -> usize {
        self.item_size
    }

    /// The alignment that the items need.
    pub closed spec fn spec_alignment(&self) -> usize {
        self.alignment
    }

    /// The address of the first item.
    pub open spec fn spec_addr(&self) -> usize {
        self.region().base()
    }

    /// The number of whole items that fit into one range of the mapping.
    pub open spec fn spec_len(&self) -> usize {
        (self.region().byte_length() / self.item_size()) as usize
    }

    /// Every buffer lies in a double mapping, holds at least one item, and
    /// needs an alignment that the pages of the mapping give.
    #[verifier::type_invariant]
    pub open spec fn wf(&self) -> bool {
        &&& self.region().wf()
        &&& 0 < self.item_size() <= self.region().byte_length()
        &&& is_pow2(self.alignment() as int)
        &&& self.alignment() <= self.region().page_size()
    }

    /// Whether the items fill each range of the mapping to its last byte.
    /// Where they do not, the bytes behind the last item are out of reach,
    /// and the second range does not continue the items of the first.
    pub open spec fn exact(&self) -> bool {
        self.region().byte_length() % self.item_size() == 0
    }

    /// The window of `len` items that starts `offset` items after the base.
    pub open spec fn window(&self, offset: int, writable: bool) -> Window {
        Window {
            addr: (self.addr() + offset * self.item_size()) as usize,
            len: self.len(),
            item_size: self.item_size(),
            writable,
        }
    }

    /// Makes the buffer of at least `min_items` items from what the platform
    /// answered when it was asked to map `mapping_size(..)` bytes twice: the
    /// base of the mapping, or its error.
    pub fn new(
        min_items: usize,
        item_size: usize,
        alignment: usize,
        page_size: usize,
        mapped: Result<usize, DoubleMappedBufferError>,
    ) -> (r: Result<DoubleMappedBufferImpl, DoubleMappedBufferError>)
        requires
            min_items > 0,
            item_size > 0,
            is_pow2(alignment as int),
            is_pow2(page_size as int),
        ensures
            match r {
                Ok(buffer) => {
                    &&& creation_spec(
                        min_items as int,
                        item_size as int,
                        alignment as int,
                        page_size as int,
                        mapped,
                    ) == Ok::<(int, int), DoubleMappedBufferError>(
                        (buffer.addr() as int, buffer.region().byte_length() as int),
                    )
                    &&& buffer.wf()
                    &&& buffer.item_size() == item_size
                    &&& buffer.alignment() == alignment
                    &&& buffer.region().page_size() == page_size
                    &&& buffer.len() >= min_items
                },
                Err(e) => creation_spec(
                    min_items as int,
                    item_size as int,
                    alignment as int,
                    page_size as int,
                    mapped,
                ) == Err::<(int, int), DoubleMappedBufferError>(e),
            },
    {
        proof {
            reveal(is_pow2);
        }
        let byte_length: usize = match mapping_size(min_items, item_size, alignment, page_size) {
            Err(e) => {
                return Err(e);
            },
            Ok(byte_length) => byte_length,
        };
        let base: usize = match mapped {
            Err(e) => {
                return Err(e);
            },
            Ok(base) => base,
        };
        match Region::new(base, byte_length, page_size) {
            None => Err(DoubleMappedBufferError::MappingFailed),
            Some(region) => {
                proof {
                    lemma_round_up_bounds(min_items * item_size, page_size as int);
                    lemma_items_fit(min_items as int, item_size as int, byte_length as int);
                    lemma_items_fit(1, item_size as int, byte_length as int);
                }
                Ok(DoubleMappedBufferImpl { region, item_size, alignment })
            },
        }
    }

    /// The mapping that holds the items.
    #[verifier::when_used_as_spec(spec_region)]
    pub fn region(&self) -> (r: Region)
        ensures
            r == self.region(),
    {
        self.region
    }

    /// The size of one item in bytes.
    #[verifier::when_used_as_spec(spec_item_size)]
    pub fn item_size(&self) -> (r: usize)
        ensures
            r == self.item_size(),
    {
        self.item_size
    }

    /// The alignment that the items need.
    #[verifier::when_used_as_spec(spec_alignment)]
    pub fn alignment(&self) -> (r: usize)
        ensures
            r == self.alignment(),
    {
        self.alignment
    }

    /// The address of the first item.
    #[verifier::when_used_as_spec(spec_addr)]
    pub fn addr(&self) -> (r: usize)
        ensures
            r == self.addr(),
    {
        self.region.base()
    }

    /// The number of whole items that fit into one range of the mapping.
    #[verifier::when_used_as_spec(spec_len)]
    pub fn len(&self) -> (r: usize)
        ensures
            r == self.len(),
    {
        proof {
            use_type_invariant(self);
        }
        self.region.byte_length() / self.item_size
    }

    /// The window of `len` items that starts `offset` items after the base.
    pub fn window_at(&self, offset: usize, writable: bool) -> (w: Window)
        requires
            offset <= self.len(),
        ensures
            w == self.window(offset as int, writable),
            w.addr == self.addr() + offset * self.item_size(),
            w.within(self.region()),
    {
        proof {
            use_type_invariant(self);
            use_type_invariant(&self.region);
            self.lemma_window(offset as int, writable);
        }
        Window {
            addr: self.region.base() + offset * self.item_size,
            len: self.len(),
            item_size: self.item_size,
            writable,
        }
    }

    /// The items of one range take no more than the range, and less than one
    /// item is left behind them; nothing is left where the buffer is exact.
    pub proof fn lemma_len(&self)
        requires
            self.wf(),
        ensures
            self.len() > 0,
            self.len() * self.item_size() <= self.region().byte_length(),
            self.region().byte_length() < self.len() * self.item_size() + self.item_size(),
            self.exact() <==> self.len() * self.item_size() == self.region().byte_length(),
    {
        let bytes = self.region().byte_length() as int;
        let size = self.item_size() as int;
        lemma_items_fit(1, size, bytes);
        lemma_fundamental_div_mod(bytes, size);
        assert((bytes / size) * size == size * (bytes / size)) by (nonlinear_arith);
    }

    /// Where the item size divides the page size, the items fill each range
    /// to its last byte: the bytes of all items are a positive number of
    /// whole pages.
    pub proof fn lemma_exact(&self)
        requires
            self.wf(),
            self.region().page_size() % self.item_size() == 0,
        ensures
            self.exact(),
            self.len() * self.item_size() == self.region().byte_length(),
            (self.len() * self.item_size()) % (self.region().page_size() as int) == 0,
            self.len() * self.item_size() > 0,
    {
        reveal(is_pow2);
        lemma_multiple_of_multiple(
            self.region().byte_length() as int,
            self.region().page_size() as int,
            self.item_size() as int,
        );
        self.lemma_len();
    }

    /// Items whose size is a power of two and at most a page fill each range
    /// to its last byte.
    pub proof fn lemma_exact_for_pow2_items(&self)
        requires
            self.wf(),
            is_pow2(self.item_size() as int),
            self.item_size() <= self.region().page_size(),
        ensures
            self.exact(),
            self.len() * self.item_size() == self.region().byte_length(),
            (self.len() * self.item_size()) % (self.region().page_size() as int) == 0,
            self.len() * self.item_size() > 0,
    {
        lemma_pow2_divides(self.item_size() as int, self.region().page_size() as int);
        self.lemma_exact();
    }

    /// A window that starts at most `len` items after the base lies in the
    /// mapping with every item, its address is computed without overflow,
    /// and it is no longer than a slice may be.
    pub proof fn lemma_window(&self, offset: int, writable: bool)
        requires
            self.wf(),
            0 <= offset <= self.len(),
        ensures
            self.window(offset, writable).addr == self.addr() + offset * self.item_size(),
            offset * self.item_size() <= self.region().byte_length(),
            self.window(offset, writable).within(self.region()),
            self.window(offset, writable).len * self.item_size() <= isize::MAX,
            forall|i: int|
                0 <= i < self.len() ==> self.region().maps(
                    #[trigger] self.window(offset, writable).item_addr(i),
                ) && self.region().maps(
                    self.window(offset, writable).item_addr(i) + self.item_size() - 1,
                ),
    {
        self.lemma_len();
        let size = self.item_size() as int;
        let len = self.len() as int;
        assert(offset * size <= len * size) by (nonlinear_arith)
            requires
                0 <= offset <= len,
                0 < size,
        ;
        let w = self.window(offset, writable);
        assert forall|i: int| 0 <= i < self.len() implies self.region().maps(
            #[trigger] w.item_addr(i),
        ) && self.region().maps(w.item_addr(i) + self.item_size() - 1) by {
            assert(0 <= i * size && i * size + size <= len * size) by (nonlinear_arith)
                requires
                    0 <= i < len,
                    0 < size,
            ;
        }
    }

    /// Every item of every window lies on a boundary of the alignment, where
    /// the item size is a multiple of the alignment.
    pub proof fn lemma_window_aligned(&self, offset: int, writable: bool, i: int)
        requires
            self.wf(),
            0 <= offset <= self.len(),
            0 <= i,
            self.item_size() % self.alignment() == 0,
        ensures
            self.addr() % self.region().page_size() == 0,
            self.addr() % self.alignment() == 0,
            self.window(offset, writable).item_addr(i) % (self.alignment() as int) == 0,
    {
        reveal(is_pow2);
        self.lemma_window(offset, writable);
        self.region().lemma_base_aligned(self.alignment() as int);
        let a = self.alignment() as int;
        let size = self.item_size() as int;
        let base = self.addr() as int;
        lemma_fundamental_div_mod(size, a);
        lemma_fundamental_div_mod(base, a);
        let total = base + (offset + i) * size;
        assert(self.window(offset, writable).item_addr(i) == total) by (nonlinear_arith)
            requires
                self.window(offset, writable).item_addr(i) == base + offset * size + i * size,
                total == base + (offset + i) * size,
        ;
        let q = base / a + (offset + i) * (size / a);
        assert(total == q * a + 0) by (nonlinear_arith)
            requires
                total == base + (offset + i) * size,
                base == a * (base / a),
                size == a * (size / a),
                q == base / a + (offset + i) * (size / a),
        ;
        lemma_fundamental_div_mod_converse(total, a, q, 0);
    }
}

} // verus!
