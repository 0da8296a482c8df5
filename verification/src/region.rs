//! A double mapping: one backing object of `byte_length` bytes that is mapped
//! at two adjacent address ranges, so that the second range mirrors the first.

use crate::sizing::is_power_of_two;
use vstd::arithmetic::div_mod::{
    lemma_fundamental_div_mod, lemma_fundamental_div_mod_converse, lemma_small_mod,
};
use vstd::arithmetic::power2::is_pow2;
use vstd::prelude::*;

verus! {

/// Where a double mapping lies in the address space.
///
/// The backing object is mapped at `[base, base + byte_length)` and once more
/// at `[base + byte_length, base + 2 * byte_length)`.
#[derive(Clone, Copy, Debug)]
pub struct Region {
    base: usize,
    byte_length: usize,
    page_size: usize,
}

/// Powers of two divide each other: the smaller one divides the larger one.
pub proof fn lemma_pow2_divides(small: int, large: int)
    requires
        is_pow2(small),
        is_pow2(large),
        small <= large,
    ensures
        large % small == 0,
    decreases small,
{
    reveal(is_pow2);
    if small == 1 {
    } else {
        lemma_pow2_divides(small / 2, large / 2);
        let half = small / 2;
        let q = (large / 2) / half;
        lemma_fundamental_div_mod(large / 2, half);
        assert(large == small * q) by (nonlinear_arith)
            requires
                large == 2 * (large / 2),
                small == 2 * half,
                large / 2 == half * q,
        ;
        lemma_fundamental_div_mod_converse(large, small, q, 0);
    }
}

/// A multiple of `large` is a multiple of every divisor of `large`.
pub proof fn lemma_multiple_of_multiple(n: int, large: int, small: int)
    requires
        large > 0,
        small > 0,
        n % large == 0,
        large % small == 0,
    ensures
        n % small == 0,
{
    lemma_fundamental_div_mod(n, large);
    lemma_fundamental_div_mod(large, small);
    let a = n / large;
    let b = large / small;
    assert(n == small * (b * a)) by (nonlinear_arith)
        requires
            n == large * a,
            large == small * b,
    ;
    lemma_fundamental_div_mod_converse(n, small, b * a, 0);
}

impl Region {
    /// The first address of the first range.
    pub closed spec fn spec_base(&self) -> usize {
        self.base
    }

    /// The length of the backing object, which is the length of each range.
    pub closed spec fn spec_byte_length(&self) -> usize {
        self.byte_length
    }

    /// The page size of the platform that made the mapping.
    pub closed spec fn spec_page_size(&self) -> usize {
        self.page_size
    }

    /// Whether three numbers describe a double mapping: a page size that is a
    /// power of two, a base that is not null and lies on a page boundary, a
    /// length that is a positive number of whole pages, and both ranges
    /// inside the address space.
    pub open spec fn valid(base: int, byte_length: int, page_size: int) -> bool {
        &&& is_pow2(page_size)
        &&& base > 0
        &&& base % page_size == 0
        &&& byte_length > 0
        &&& byte_length % page_size == 0
        &&& base + 2 * byte_length <= usize::MAX
    }

    /// Every region describes a double mapping.
    #[verifier::type_invariant]
    pub open spec fn wf(&self) -> bool {
        Region::valid(self.base() as int, self.byte_length() as int, self.page_size() as int)
    }

    /// Whether `addr` lies in one of the two ranges.
    pub open spec fn maps(&self, addr: int) -> bool {
        self.base() <= addr < self.base() + 2 * self.byte_length()
    }

    /// The byte of the backing object that `addr` refers to. Both ranges
    /// start at byte 0 of the backing object.
    pub open spec fn backing_offset(&self, addr: int) -> int {
        (addr - self.base()) % (self.byte_length() as int)
    }

    /// The byte that is read at `addr` when the backing object holds `mem`.
    pub open spec fn load(&self, mem: Seq<u8>, addr: int) -> u8 {
        mem[self.backing_offset(addr)]
    }

    /// What the backing object holds after `byte` was written at `addr`.
    pub open spec fn store(&self, mem: Seq<u8>, addr: int, byte: u8) -> Seq<u8> {
        mem.update(self.backing_offset(addr), byte)
    }

    /// Takes what a platform reports of a mapping, and accepts it if it
    /// describes a double mapping.
    pub fn new(base: usize, byte_length: usize, page_size: usize) -> (r: Option<Region>)
        ensures
            r is Some <==> Region::valid(base as int, byte_length as int, page_size as int),
            r matches Some(region) ==> {
                &&& region.wf()
                &&& region.base() == base
                &&& region.byte_length() == byte_length
                &&& region.page_size() == page_size
            },
    {
        if !is_power_of_two(page_size) {
            return None;
        }
        proof {
            reveal(is_pow2);
        }
        if base == 0 || base % page_size != 0 {
            return None;
        }
        if byte_length == 0 || byte_length % page_size != 0 {
            return None;
        }
        if byte_length > (usize::MAX - base) / 2 {
            return None;
        }
        Some(Region { base, byte_length, page_size })
    }

    /// The first address of the first range.
    #[verifier::when_used_as_spec(spec_base)]
    pub fn base(&self) -> (r: usize)
        ensures
            r == self.base(),
    {
        self.base
    }

    /// The length of the backing object, which is the length of each range.
    #[verifier::when_used_as_spec(spec_byte_length)]
    pub fn byte_length(&self) -> (r: usize)
        ensures
            r == self.byte_length(),
    {
        self.byte_length
    }

    /// The page size of the platform that made the mapping.
    #[verifier::when_used_as_spec(spec_page_size)]
    pub fn page_size(&self) -> (r: usize)
        ensures
            r == self.page_size(),
    {
        self.page_size
    }

    /// The first address of the second range.
    pub fn mirror_base(&self) -> (r: usize)
        ensures
            r == self.base() + self.byte_length(),
    {
        proof {
            use_type_invariant(self);
        }
        self.base + self.byte_length
    }

    /// The length of both ranges together: what the mapping takes of the
    /// address space.
    pub fn mapped_length(&self) -> (r: usize)
        ensures
            r == 2 * self.byte_length(),
    {
        proof {
            use_type_invariant(self);
        }
        2 * self.byte_length
    }

    /// The byte of the backing object that `addr` refers to, if `addr` lies in
    /// one of the two ranges.
    pub fn locate(&self, addr: usize) -> (r: Option<usize>)
        ensures
            r is Some <==> self.maps(addr as int),
            r matches Some(offset) ==> offset == self.backing_offset(addr as int),
    {
        proof {
            use_type_invariant(self);
        }
        if addr < self.base || addr - self.base >= 2 * self.byte_length {
            None
        } else {
            Some((addr - self.base) % self.byte_length)
        }
    }

    /// The mirroring of the two ranges: byte `k` of the backing object is
    /// found at `base + k` and at `base + byte_length + k`, and nowhere else.
    pub proof fn lemma_mirror(&self, k: int)
        requires
            self.wf(),
            0 <= k < self.byte_length(),
        ensures
            self.maps(self.base() + k),
            self.maps(self.base() + self.byte_length() + k),
            self.backing_offset(self.base() + k) == k,
            self.backing_offset(self.base() + self.byte_length() + k) == k,
            forall|addr: int|
                self.maps(addr) && #[trigger] self.backing_offset(addr) == k ==> addr
                    == self.base() + k || addr == self.base() + self.byte_length() + k,
    {
        let len = self.byte_length() as int;
        lemma_small_mod(k as nat, len as nat);
        lemma_fundamental_div_mod_converse(len + k, len, 1, k);
        assert forall|addr: int| self.maps(addr) && #[trigger] self.backing_offset(addr) == k implies addr
            == self.base() + k || addr == self.base() + len + k by {
            self.lemma_backing_offset(addr);
        }
    }

    /// The backing offset of a mapped address is its distance from the start
    /// of the range that it lies in.
    pub proof fn lemma_backing_offset(&self, addr: int)
        requires
            self.wf(),
            self.maps(addr),
        ensures
            0 <= self.backing_offset(addr) < self.byte_length(),
            addr < self.base() + self.byte_length() ==> self.backing_offset(addr) == addr
                - self.base(),
            addr >= self.base() + self.byte_length() ==> self.backing_offset(addr) == addr
                - self.base() - self.byte_length(),
    {
        let len = self.byte_length() as int;
        let d = addr - self.base();
        if d < len {
            lemma_small_mod(d as nat, len as nat);
        } else {
            lemma_fundamental_div_mod_converse(d, len, 1, d - len);
        }
    }

    /// The base lies on a boundary of every alignment that is a power of two
    /// and does not exceed the page size.
    pub proof fn lemma_base_aligned(&self, alignment: int)
        requires
            self.wf(),
            is_pow2(alignment),
            alignment <= self.page_size(),
        ensures
            self.base() % self.page_size() == 0,
            self.base() as int % alignment == 0,
    {
        reveal(is_pow2);
        lemma_pow2_divides(alignment, self.page_size() as int);
        lemma_multiple_of_multiple(self.base() as int, self.page_size() as int, alignment);
    }
}

} // verus!
