//! What the mirroring of the two ranges means for the windows of a buffer:
//! a window that starts inside the buffer continues into the second range
//! with the items from the start of the first.

use crate::untyped::DoubleMappedBufferImpl;
use crate::window::{lemma_read_after_write, lemma_read_same_backing, lemma_write_same_backing};
use vstd::arithmetic::div_mod::{lemma_fundamental_div_mod_converse, lemma_small_mod};
use vstd::prelude::*;

verus! {

impl DoubleMappedBufferImpl {
    /// Item `i` of the window at `offset` lies on the same bytes of the
    /// backing object as item `(offset + i) % len` of the window at the base,
    /// where the items fill each range to its last byte.
    pub proof fn lemma_same_item(&self, offset: int, i: int)
        requires
            self.wf(),
            self.exact(),
            0 <= offset <= self.len(),
            0 <= i < self.len(),
        ensures
            0 <= (offset + i) % (self.len() as int) < self.len(),
            self.region().backing_offset(self.window(offset, false).item_addr(i))
                == self.region().backing_offset(
                self.window(0, false).item_addr((offset + i) % (self.len() as int)),
            ),
            self.region().backing_offset(self.window(offset, false).item_addr(i)) == ((offset + i)
                % (self.len() as int)) * self.item_size(),
    {
        self.lemma_len();
        self.lemma_window(offset, false);
        self.lemma_window(0, false);
        let n = self.len() as int;
        let s = self.item_size() as int;
        let bytes = self.region().byte_length() as int;
        let j = offset + i;
        let r = if j < n {
            j
        } else {
            j - n
        };
        if j < n {
            lemma_small_mod(j as nat, n as nat);
        } else {
            lemma_fundamental_div_mod_converse(j, n, 1, j - n);
        }
        assert(r == j % n);
        assert(0 <= r * s && r * s + s <= n * s) by (nonlinear_arith)
            requires
                0 <= r < n,
                0 < s,
        ;
        assert(offset * s + i * s == j * s) by (nonlinear_arith)
            requires
                j == offset + i,
        ;
        if j < n {
            lemma_small_mod((j * s) as nat, bytes as nat);
        } else {
            assert(j * s == 1 * bytes + r * s) by (nonlinear_arith)
                requires
                    r == j - n,
                    bytes == n * s,
            ;
            lemma_fundamental_div_mod_converse(j * s, bytes, 1, r * s);
        }
        lemma_small_mod((r * s) as nat, bytes as nat);
        assert(0 * s == 0) by (nonlinear_arith);
    }

    /// Through the window at `offset`, item `i` reads as item
    /// `(offset + i) % len` reads through the window at the base, where the
    /// items fill each range to its last byte.
    pub proof fn lemma_offset_window_reads_rotated(&self, mem: Seq<u8>, offset: int, i: int)
        requires
            self.wf(),
            self.exact(),
            mem.len() == self.region().byte_length(),
            0 <= offset <= self.len(),
            0 <= i < self.len(),
        ensures
            self.window(offset, false).read(self.region(), mem, i) == self.window(0, false).read(
                self.region(),
                mem,
                (offset + i) % (self.len() as int),
            ),
    {
        self.lemma_same_item(offset, i);
        lemma_read_same_backing(
            self.region(),
            mem,
            self.window(offset, false).item_addr(i),
            self.window(0, false).item_addr((offset + i) % (self.len() as int)),
            self.item_size() as nat,
        );
    }

    /// Through the writable window at `offset`, writing item `i` does what
    /// writing item `(offset + i) % len` does through the writable window at
    /// the base, where the items fill each range to its last byte.
    pub proof fn lemma_offset_window_writes_rotated(
        &self,
        mem: Seq<u8>,
        offset: int,
        i: int,
        item: Seq<u8>,
    )
        requires
            self.wf(),
            self.exact(),
            mem.len() == self.region().byte_length(),
            0 <= offset <= self.len(),
            0 <= i < self.len(),
        ensures
            self.window(offset, true).write(self.region(), mem, i, item) == self.window(
                0,
                true,
            ).write(self.region(), mem, (offset + i) % (self.len() as int), item),
    {
        self.lemma_same_item(offset, i);
        lemma_write_same_backing(
            self.region(),
            mem,
            self.window(offset, false).item_addr(i),
            self.window(0, false).item_addr((offset + i) % (self.len() as int)),
            item,
        );
    }

    /// An item that was written through the writable window at the base is
    /// read back through the window at the base.
    pub proof fn lemma_write_then_read(&self, mem: Seq<u8>, i: int, item: Seq<u8>)
        requires
            self.wf(),
            mem.len() == self.region().byte_length(),
            item.len() == self.item_size(),
            0 <= i < self.len(),
        ensures
            self.window(0, false).read(
                self.region(),
                self.window(0, true).write(self.region(), mem, i, item),
                i,
            ) == item,
    {
        lemma_read_after_write(
            self.region(),
            mem,
            self.window(0, true).item_addr(i),
            self.window(0, false).item_addr(i),
            item,
        );
    }

    /// An item that was written at index 0 through the writable window at
    /// the base is read at index 0 through the window at offset `len`, which
    /// lies in the second range, where the items fill each range to its last
    /// byte.
    pub proof fn lemma_write_seen_in_mirror(&self, mem: Seq<u8>, item: Seq<u8>)
        requires
            self.wf(),
            self.exact(),
            mem.len() == self.region().byte_length(),
            item.len() == self.item_size(),
        ensures
            self.window(self.len() as int, false).read(
                self.region(),
                self.window(0, true).write(self.region(), mem, 0, item),
                0,
            ) == item,
    {
        self.lemma_len();
        let n = self.len() as int;
        lemma_fundamental_div_mod_converse(n, n, 1, 0);
        lemma_small_mod(0, n as nat);
        self.lemma_same_item(n, 0);
        self.lemma_same_item(0, 0);
        lemma_read_after_write(
            self.region(),
            mem,
            self.window(0, true).item_addr(0),
            self.window(self.len() as int, false).item_addr(0),
            item,
        );
    }

    /// An item that was written at index 0 through the writable window at
    /// offset `len`, which lies in the second range, is read at index 0
    /// through the window at the base, where the items fill each range to
    /// its last byte.
    pub proof fn lemma_mirror_write_seen(&self, mem: Seq<u8>, item: Seq<u8>)
        requires
            self.wf(),
            self.exact(),
            mem.len() == self.region().byte_length(),
            item.len() == self.item_size(),
        ensures
            self.window(0, false).read(
                self.region(),
                self.window(self.len() as int, true).write(self.region(), mem, 0, item),
                0,
            ) == item,
    {
        self.lemma_len();
        let n = self.len() as int;
        lemma_fundamental_div_mod_converse(n, n, 1, 0);
        lemma_small_mod(0, n as nat);
        self.lemma_same_item(n, 0);
        self.lemma_same_item(0, 0);
        lemma_read_after_write(
            self.region(),
            mem,
            self.window(self.len() as int, true).item_addr(0),
            self.window(0, false).item_addr(0),
            item,
        );
    }
}

} // verus!
