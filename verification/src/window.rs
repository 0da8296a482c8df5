//! Windows over a double mapping, and what reading and writing through them
//! does to the backing object.

use crate::region::Region;
use vstd::arithmetic::div_mod::{
    lemma_add_mod_noop, lemma_fundamental_div_mod_converse, lemma_mod_bound, lemma_small_mod,
};
use vstd::prelude::*;

verus! {

/// A run of `len` items of `item_size` bytes each that starts at `addr`: the
/// address and the length from which a slice over the mapping is made.
#[derive(Clone, Copy, Debug, PartialEq, Eq, Structural)]
pub struct Window {
    /// The address of the first item.
    pub addr: usize,
    /// The number of items.
    pub len: usize,
    /// The size of one item in bytes.
    pub item_size: usize,
    /// Whether the window may be written through.
    pub writable: bool,
}

/// What the backing object holds after `bytes` were written to the addresses
/// from `addr` upwards, one after the other.
pub open spec fn write_bytes(region: Region, mem: Seq<u8>, addr: int, bytes: Seq<u8>) -> Seq<u8>
    decreases bytes.len(),
{
    if bytes.len() == 0 {
        mem
    } else {
        region.store(
            write_bytes(region, mem, addr, bytes.drop_last()),
            addr + bytes.len() - 1,
            bytes.last(),
        )
    }
}

/// The bytes that are read at the `count` addresses from `addr` upwards.
pub open spec fn read_bytes(region: Region, mem: Seq<u8>, addr: int, count: nat) -> Seq<u8> {
    Seq::new(count, |k: int| region.load(mem, addr + k))
}

/// Going `k` addresses up moves the backing offset `k` bytes up, around the
/// end of the backing object.
pub proof fn lemma_backing_offset_add(region: Region, addr: int, k: int)
    requires
        region.wf(),
    ensures
        region.backing_offset(addr + k) == (region.backing_offset(addr) + k) % (
        region.byte_length() as int),
        0 <= region.backing_offset(addr) < region.byte_length(),
{
    let len = region.byte_length() as int;
    let d = addr - region.base();
    lemma_mod_bound(d, len);
    lemma_add_mod_noop(d, k, len);
    lemma_add_mod_noop(d % len, k, len);
    lemma_small_mod((d % len) as nat, len as nat);
}

/// On a circle of `len` places, `place` lies `k` steps after `start` exactly
/// when walking `k` steps from `start` ends at `place`.
pub proof fn lemma_steps_around(place: int, start: int, k: int, len: int)
    requires
        0 <= place < len,
        0 <= start < len,
        0 <= k < len,
    ensures
        (start + k) % len == place <==> (place - start) % len == k,
        0 <= (place - start) % len < len,
{
    if start + k < len {
        lemma_small_mod((start + k) as nat, len as nat);
    } else {
        lemma_fundamental_div_mod_converse(start + k, len, 1, start + k - len);
    }
    if place >= start {
        lemma_small_mod((place - start) as nat, len as nat);
    } else {
        lemma_fundamental_div_mod_converse(place - start, len, -1, place - start + len);
    }
}

/// Byte by byte, what `write_bytes` leaves in the backing object: the bytes
/// written lie from the backing offset of `addr` upwards, around the end of
/// the backing object, and every other byte is as it was.
pub proof fn lemma_write_bytes(region: Region, mem: Seq<u8>, addr: int, bytes: Seq<u8>, place: int)
    requires
        region.wf(),
        mem.len() == region.byte_length(),
        bytes.len() <= region.byte_length(),
        0 <= place < region.byte_length(),
    ensures
        write_bytes(region, mem, addr, bytes).len() == mem.len(),
        ({
            let k = (place - region.backing_offset(addr)) % (region.byte_length() as int);
            write_bytes(region, mem, addr, bytes)[place] == if k < bytes.len() {
                bytes[k]
            } else {
                mem[place]
            }
        }),
    decreases bytes.len(),
{
    let len = region.byte_length() as int;
    let start = region.backing_offset(addr);
    lemma_backing_offset_add(region, addr, 0);
    let k = (place - start) % len;
    lemma_mod_bound(place - start, len);
    if bytes.len() > 0 {
        let n = bytes.len() as int;
        let before = write_bytes(region, mem, addr, bytes.drop_last());
        lemma_write_bytes(region, mem, addr, bytes.drop_last(), place);
        lemma_backing_offset_add(region, addr, n - 1);
        lemma_steps_around(place, start, n - 1, len);
        assert(write_bytes(region, mem, addr, bytes) == before.update(
            region.backing_offset(addr + n - 1),
            bytes.last(),
        ));
    }
}

/// Bytes written from one address are read back from any address that has
/// the same backing offset.
pub proof fn lemma_read_after_write(
    region: Region,
    mem: Seq<u8>,
    written_at: int,
    read_at: int,
    bytes: Seq<u8>,
)
    requires
        region.wf(),
        mem.len() == region.byte_length(),
        bytes.len() <= region.byte_length(),
        region.backing_offset(written_at) == region.backing_offset(read_at),
    ensures
        read_bytes(region, write_bytes(region, mem, written_at, bytes), read_at, bytes.len())
            == bytes,
{
    let len = region.byte_length() as int;
    let after = write_bytes(region, mem, written_at, bytes);
    let got = read_bytes(region, after, read_at, bytes.len());
    assert forall|k: int| 0 <= k < bytes.len() implies got[k] == bytes[k] by {
        let start = region.backing_offset(written_at);
        lemma_backing_offset_add(region, read_at, k);
        lemma_backing_offset_add(region, written_at, k);
        let place = region.backing_offset(read_at + k);
        lemma_mod_bound(start + k, len);
        lemma_steps_around(place, start, k, len);
        lemma_write_bytes(region, mem, written_at, bytes, place);
    }
    assert(got =~= bytes);
}

/// Reading from two addresses with the same backing offset gives the same
/// bytes.
pub proof fn lemma_read_same_backing(
    region: Region,
    mem: Seq<u8>,
    first: int,
    second: int,
    count: nat,
)
    requires
        region.wf(),
        region.backing_offset(first) == region.backing_offset(second),
    ensures
        read_bytes(region, mem, first, count) == read_bytes(region, mem, second, count),
{
    let a = read_bytes(region, mem, first, count);
    let b = read_bytes(region, mem, second, count);
    assert forall|k: int| 0 <= k < count implies a[k] == b[k] by {
        lemma_backing_offset_add(region, first, k);
        lemma_backing_offset_add(region, second, k);
    }
    assert(a =~= b);
}

/// Writing from two addresses with the same backing offset leaves the same
/// bytes in the backing object.
pub proof fn lemma_write_same_backing(
    region: Region,
    mem: Seq<u8>,
    first: int,
    second: int,
    bytes: Seq<u8>,
)
    requires
        region.wf(),
        region.backing_offset(first) == region.backing_offset(second),
    ensures
        write_bytes(region, mem, first, bytes) == write_bytes(region, mem, second, bytes),
    decreases bytes.len(),
{
    if bytes.len() > 0 {
        lemma_write_same_backing(region, mem, first, second, bytes.drop_last());
        lemma_backing_offset_add(region, first, bytes.len() - 1);
        lemma_backing_offset_add(region, second, bytes.len() - 1);
    }
}

impl Window {
    /// The address of item `i`.
    pub open spec fn item_addr(&self, i: int) -> int {
        self.addr + i * self.item_size
    }

    /// The first address after the last item.
    pub open spec fn end(&self) -> int {
        self.addr + self.len * self.item_size
    }

    /// Whether every byte of the window lies in one of the two ranges of
    /// `region`.
    pub open spec fn within(&self, region: Region) -> bool {
        region.base() <= self.addr && self.end() <= region.base() + 2 * region.byte_length()
    }

    /// The bytes of item `i`, read through the window when the backing object
    /// holds `mem`.
    pub open spec fn read(&self, region: Region, mem: Seq<u8>, i: int) -> Seq<u8> {
        read_bytes(region, mem, self.item_addr(i), self.item_size as nat)
    }

    /// What the backing object holds after `item` was written through the
    /// window as item `i`. Nothing is written through a window that is not
    /// writable.
    pub open spec fn write(&self, region: Region, mem: Seq<u8>, i: int, item: Seq<u8>) -> Seq<u8> {
        if self.writable {
            write_bytes(region, mem, self.item_addr(i), item)
        } else {
            mem
        }
    }
}

} // verus!
