//! How large a mapping has to be: item counts to bytes, bytes to whole pages.

use crate::error::DoubleMappedBufferError;
use vstd::arithmetic::div_mod::{lemma_fundamental_div_mod, lemma_fundamental_div_mod_converse};
use vstd::arithmetic::power2::is_pow2;
use vstd::prelude::*;

verus! {

/// The number of pieces of `unit` needed to hold `n`: the quotient, rounded up.
pub open spec fn div_ceil(n: int, unit: int) -> int {
    if n % unit == 0 {
        n / unit
    } else {
        n / unit + 1
    }
}

/// `n` rounded up to a whole number of units.
pub open spec fn round_up(n: int, unit: int) -> int {
    div_ceil(n, unit) * unit
}

/// What sizing a buffer comes to: the byte length of one half of the mapping,
/// or the reason why there is none.
///
/// The item count times the item size must fit in the address width, the
/// alignment must not exceed the page size, and twice the byte count rounded
/// up to whole pages must fit in the address width again, since the mapping
/// takes two ranges of that length.
pub open spec fn mapping_size_spec(
    min_items: int,
    item_size: int,
    alignment: int,
    page_size: int,
) -> Result<int, DoubleMappedBufferError> {
    if min_items * item_size > usize::MAX {
        Err(DoubleMappedBufferError::SizeOverflow)
    } else if alignment > page_size {
        Err(DoubleMappedBufferError::Unsupported)
    } else if 2 * round_up(min_items * item_size, page_size) > usize::MAX {
        Err(DoubleMappedBufferError::SizeOverflow)
    } else {
        Ok(round_up(min_items * item_size, page_size))
    }
}

/// `round_up(n, unit)` is a multiple of `unit`, is not below `n`, and is less
/// than one unit above it.
pub proof fn lemma_round_up_bounds(n: int, unit: int)
    requires
        n >= 0,
        unit > 0,
    ensures
        round_up(n, unit) % unit == 0,
        n <= round_up(n, unit) < n + unit,
        n % unit == 0 ==> round_up(n, unit) == n,
        n % unit != 0 ==> round_up(n, unit) == n - n % unit + unit,
{
    lemma_fundamental_div_mod(n, unit);
    let q = div_ceil(n, unit);
    assert(round_up(n, unit) == q * unit);
    assert(q * unit == unit * q) by (nonlinear_arith);
    assert(unit * (n / unit + 1) == unit * (n / unit) + unit) by (nonlinear_arith);
    lemma_fundamental_div_mod_converse(q * unit, unit, q, 0);
}

/// No multiple of `unit` lies between `n` and `round_up(n, unit)`: the
/// rounded value is the least multiple that is not below `n`.
pub proof fn lemma_round_up_least(n: int, unit: int, m: int)
    requires
        n >= 0,
        unit > 0,
        m % unit == 0,
        m >= n,
    ensures
        m >= round_up(n, unit),
{
    lemma_round_up_bounds(n, unit);
    lemma_fundamental_div_mod(m, unit);
    lemma_fundamental_div_mod(round_up(n, unit), unit);
    let a = m / unit;
    let b = round_up(n, unit) / unit;
    if a < b {
        assert(unit * a + unit <= unit * b) by (nonlinear_arith)
            requires
                a < b,
                unit > 0,
        ;
    } else {
        assert(unit * a >= unit * b) by (nonlinear_arith)
            requires
                a >= b,
                unit > 0,
        ;
    }
}

/// Whether `n` is a power of two.
pub fn is_power_of_two(n: usize) -> (r: bool)
    ensures
        r == is_pow2(n as int),
{
    if n == 0 {
        proof {
            reveal(is_pow2);
        }
        return false;
    }
    let mut m: usize = n;
    while m % 2 == 0
        invariant
            m > 0,
            is_pow2(m as int) == is_pow2(n as int),
        decreases m,
    {
        proof {
            reveal(is_pow2);
        }
        m = m / 2;
    }
    proof {
        reveal(is_pow2);
    }
    m == 1
}

/// The bytes that `min_items` items of `item_size` bytes take.
pub fn required_bytes(min_items: usize, item_size: usize) -> (r: Result<
    usize,
    DoubleMappedBufferError,
>)
    ensures
        min_items * item_size <= usize::MAX ==> r == Ok::<usize, DoubleMappedBufferError>(
            (min_items * item_size) as usize,
        ),
        min_items * item_size > usize::MAX ==> r == Err::<usize, DoubleMappedBufferError>(
            DoubleMappedBufferError::SizeOverflow,
        ),
{
    match min_items.checked_mul(item_size) {
        Some(bytes) => Ok(bytes),
        None => Err(DoubleMappedBufferError::SizeOverflow),
    }
}

/// `bytes` rounded up to whole pages.
pub fn round_up_to_pages(bytes: usize, page_size: usize) -> (r: Result<
    usize,
    DoubleMappedBufferError,
>)
    requires
        page_size > 0,
    ensures
        round_up(bytes as int, page_size as int) <= usize::MAX ==> r == Ok::<
            usize,
            DoubleMappedBufferError,
        >(round_up(bytes as int, page_size as int) as usize),
        round_up(bytes as int, page_size as int) > usize::MAX ==> r == Err::<
            usize,
            DoubleMappedBufferError,
        >(DoubleMappedBufferError::SizeOverflow),
{
    proof {
        lemma_round_up_bounds(bytes as int, page_size as int);
    }
    let rest: usize = bytes % page_size;
    if rest == 0 {
        Ok(bytes)
    } else {
        match bytes.checked_add(page_size - rest) {
            Some(rounded) => Ok(rounded),
            None => Err(DoubleMappedBufferError::SizeOverflow),
        }
    }
}

/// The byte length of one half of the mapping for a buffer of at least
/// `min_items` items of `item_size` bytes, aligned to `alignment`, on a
/// platform whose pages have `page_size` bytes.
pub fn mapping_size(min_items: usize, item_size: usize, alignment: usize, page_size: usize) -> (r:
    Result<usize, DoubleMappedBufferError>)
    requires
        page_size > 0,
    ensures
        match r {
            Ok(bytes) => mapping_size_spec(
                min_items as int,
                item_size as int,
                alignment as int,
                page_size as int,
            ) == Ok::<int, DoubleMappedBufferError>(bytes as int),
            Err(e) => mapping_size_spec(
                min_items as int,
                item_size as int,
                alignment as int,
                page_size as int,
            ) == Err::<int, DoubleMappedBufferError>(e),
        },
{
    match required_bytes(min_items, item_size) {
        Err(e) => Err(e),
        Ok(bytes) => {
            if alignment > page_size {
                Err(DoubleMappedBufferError::Unsupported)
            } else {
                match round_up_to_pages(bytes, page_size) {
                    Err(e) => Err(e),
                    Ok(rounded) => {
                        if rounded > usize::MAX / 2 {
                            Err(DoubleMappedBufferError::SizeOverflow)
                        } else {
                            Ok(rounded)
                        }
                    },
                }
            }
        },
    }
}

} // verus!
