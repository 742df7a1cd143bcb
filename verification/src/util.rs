//! Byte-level helpers: big-endian integer decoding, range copies and
//! comparisons over byte vectors.

use vstd::prelude::*;

verus! {

/// The big-endian 32-bit integer stored at `off` in `s`.
pub open spec fn be32(s: Seq<u8>, off: int) -> int
    recommends
        0 <= off,
        off + 4 <= s.len(),
{
    0x1000000 * (s[off] as int) + 0x10000 * (s[off + 1] as int) + 0x100 * (s[off + 2] as int) + (
    s[off + 3] as int)
}

/// The big-endian 24-bit integer stored at `off` in `s`.
pub open spec fn be24(s: Seq<u8>, off: int) -> int
    recommends
        0 <= off,
        off + 3 <= s.len(),
{
    0x10000 * (s[off] as int) + 0x100 * (s[off + 1] as int) + (s[off + 2] as int)
}

/// Reads the big-endian 32-bit integer stored at `off` in `data`.
pub fn read_u32_be(data: &Vec<u8>, off: usize) -> (r: u32)
    requires
        off + 4 <= data.len(),
    ensures
        r == be32(data@, off as int),
{
    let b0 = data[off];
    let b1 = data[off + 1];
    let b2 = data[off + 2];
    let b3 = data[off + 3];
    0x1000000 * (b0 as u32) + 0x10000 * (b1 as u32) + 0x100 * (b2 as u32) + (b3 as u32)
}

/// Reads the big-endian 24-bit integer stored at `off` in `data`.
pub fn read_u24_be(data: &Vec<u8>, off: usize) -> (r: u32)
    requires
        off + 3 <= data.len(),
    ensures
        r == be24(data@, off as int),
{
    let b0 = data[off];
    let b1 = data[off + 1];
    let b2 = data[off + 2];
    0x10000 * (b0 as u32) + 0x100 * (b1 as u32) + (b2 as u32)
}

/// Copies `len` bytes of `data` starting at `off` into a fresh vector.
pub fn copy_range(data: &Vec<u8>, off: usize, len: usize) -> (r: Vec<u8>)
    requires
        off + len <= data.len(),
    ensures
        r@ == data@.subrange(off as int, off + len),
{
    let mut r: Vec<u8> = Vec::new();
    let mut i: usize = 0;
    while i < len
        invariant
            i <= len,
            off + len <= data.len(),
            r@.len() == i,
            forall|j: int| 0 <= j < i ==> r@[j] == data@[off + j],
        decreases len - i,
    {
        r.push(data[off + i]);
        i = i + 1;
    }
    assert(r@ =~= data@.subrange(off as int, off + len));
    r
}

/// Compares two byte vectors for equality of their contents.
pub fn bytes_eq(a: &Vec<u8>, b: &Vec<u8>) -> (r: bool)
    ensures
        r <==> a@ == b@,
{
    if a.len() != b.len() {
        assert(a@ != b@);
        return false;
    }
    let n = a.len();
    let mut i: usize = 0;
    while i < n
        invariant
            i <= n,
            n == a@.len(),
            n == b@.len(),
            forall|j: int| 0 <= j < i ==> a@[j] == b@[j],
        decreases n - i,
    {
        if a[i] != b[i] {
            assert(a@ != b@);
            return false;
        }
        i = i + 1;
    }
    assert(a@ =~= b@);
    true
}

/// The index of the first zero byte in `s`, or `s.len()` if none occurs.
pub open spec fn first_zero(s: Seq<u8>) -> int
    decreases s.len(),
{
    if s.len() == 0 {
        0
    } else if s[0] == 0 {
        0
    } else {
        1 + first_zero(s.skip(1))
    }
}

/// The prefix of `s` up to, and not including, its first zero byte.
pub open spec fn null_terminated(s: Seq<u8>) -> Seq<u8> {
    s.take(first_zero(s))
}

pub proof fn lemma_first_zero_bounds(s: Seq<u8>)
    ensures
        0 <= first_zero(s) <= s.len(),
        forall|j: int| 0 <= j < first_zero(s) ==> s[j] != 0,
        first_zero(s) < s.len() ==> s[first_zero(s)] == 0,
    decreases s.len(),
{
    if s.len() > 0 && s[0] != 0 {
        lemma_first_zero_bounds(s.skip(1));
        assert(forall|j: int| 1 <= j < first_zero(s) ==> s[j] == s.skip(1)[j - 1]);
    }
}

/// Copies the bytes of `data` from `off` up to, and not including, the first
/// zero byte at or after `off` (or up to `end` if no zero occurs before it).
pub fn copy_until_zero(data: &Vec<u8>, off: usize, end: usize) -> (r: Vec<u8>)
    requires
        off <= end <= data.len(),
    ensures
        r@ == null_terminated(data@.subrange(off as int, end as int)),
{
    let ghost s = data@.subrange(off as int, end as int);
    proof {
        lemma_first_zero_bounds(s);
    }
    let mut r: Vec<u8> = Vec::new();
    let mut i: usize = off;
    while i < end && data[i] != 0
        invariant
            off <= i <= end <= data.len(),
            s == data@.subrange(off as int, end as int),
            first_zero(s) >= i - off,
            r@.len() == i - off,
            forall|j: int| 0 <= j < i - off ==> r@[j] == s[j],
            0 <= first_zero(s) <= s.len(),
            forall|j: int| 0 <= j < first_zero(s) ==> s[j] != 0,
            first_zero(s) < s.len() ==> s[first_zero(s)] == 0,
        decreases end - i,
    {
        r.push(data[i]);
        i = i + 1;
        proof {
            if first_zero(s) < i - off {
                assert(s[first_zero(s)] == data@[off + first_zero(s)]);
                assert(false);
            }
        }
    }
    proof {
        if i < end {
            assert(s[i - off] == data@[i as int]);
            assert(first_zero(s) <= i - off);
        }
        assert(first_zero(s) == i - off);
        assert(r@ =~= null_terminated(s));
    }
    r
}

} // verus!

