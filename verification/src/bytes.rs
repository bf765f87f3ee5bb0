//! Fixed-width integers in byte strings.

use vstd::prelude::*;

verus! {

pub open spec fn le_u16(s: Seq<u8>, at: int) -> nat {
    (s[at] + 0x100 * s[at + 1]) as nat
}

pub open spec fn le_u32(s: Seq<u8>, at: int) -> nat {
    (s[at] + 0x100 * s[at + 1] + 0x1_0000 * s[at + 2] + 0x100_0000 * s[at + 3]) as nat
}

pub open spec fn le_u64(s: Seq<u8>, at: int) -> nat {
    le_u32(s, at) + 0x1_0000_0000 * le_u32(s, at + 4)
}

pub open spec fn be_u16(s: Seq<u8>, at: int) -> nat {
    (0x100 * s[at] + s[at + 1]) as nat
}

pub open spec fn be_u32(s: Seq<u8>, at: int) -> nat {
    0x1_0000 * be_u16(s, at) + be_u16(s, at + 2)
}

pub fn read_le_u16(s: &[u8], at: usize) -> (r: u16)
    requires
        at + 2 <= s@.len(),
    ensures
        r == le_u16(s@, at as int),
{
    (s[at] as u16) + 0x100u16 * (s[at + 1] as u16)
}

pub fn read_le_u32(s: &[u8], at: usize) -> (r: u32)
    requires
        at + 4 <= s@.len(),
    ensures
        r == le_u32(s@, at as int),
{
    (s[at] as u32) + 0x100u32 * (s[at + 1] as u32) + 0x1_0000u32 * (s[at + 2] as u32)
        + 0x100_0000u32 * (s[at + 3] as u32)
}

pub fn read_le_u64(s: &[u8], at: usize) -> (r: u64)
    requires
        at + 8 <= s@.len(),
    ensures
        r == le_u64(s@, at as int),
{
    assert(s.len() == s@.len());
    let low: u32 = read_le_u32(s, at);
    let high: u32 = read_le_u32(s, at + 4);
    (low as u64) + 0x1_0000_0000u64 * (high as u64)
}

pub fn read_be_u16(s: &[u8], at: usize) -> (r: u16)
    requires
        at + 2 <= s@.len(),
    ensures
        r == be_u16(s@, at as int),
{
    0x100u16 * (s[at] as u16) + (s[at + 1] as u16)
}

pub fn read_be_u32(s: &[u8], at: usize) -> (r: u32)
    requires
        at + 4 <= s@.len(),
    ensures
        r == be_u32(s@, at as int),
{
    assert(s.len() == s@.len());
    let high: u16 = read_be_u16(s, at);
    let low: u16 = read_be_u16(s, at + 2);
    0x1_0000u32 * (high as u32) + (low as u32)
}

/// Whether `part` stands in `s` at position `at`.
pub open spec fn bytes_at(s: Seq<u8>, part: Seq<u8>, at: int) -> bool {
    0 <= at && at + part.len() <= s.len() && s.subrange(at, at + part.len()) == part
}

pub fn has_bytes_at(s: &[u8], part: &[u8], at: usize) -> (r: bool)
    ensures
        r == bytes_at(s@, part@, at as int),
{
    let size: usize = s.len();
    if part.len() > size || at > size - part.len() {
        return false;
    }
    let mut i: usize = 0;
    while i < part.len()
        invariant
            i <= part@.len(),
            size == s@.len(),
            at + part@.len() <= size,
            forall|j: int| 0 <= j < i ==> s@[at + j] == part@[j],
        decreases part@.len() - i,
    {
        if s[at + i] != part[i] {
            proof {
                assert(s@.subrange(at as int, at + part@.len())[i as int] == s@[at + i]);
            }
            return false;
        }
        i = i + 1;
    }
    proof {
        assert(s@.subrange(at as int, at + part@.len()) =~= part@);
    }
    true
}

pub fn slice_between(s: &[u8], from: usize, to: usize) -> (r: &[u8])
    requires
        from <= to <= s@.len(),
    ensures
        r@ == s@.subrange(from as int, to as int),
{
    vstd::slice::slice_subrange(s, from, to)
}

/// Numbers are read in the order in which their bytes are written: the lowest byte first, or the
/// highest.
pub proof fn law_written_numbers_are_read(s: Seq<u8>, at: int, low: u8, high: u8, n: nat, m: nat)
    requires
        0 <= at,
        at + 8 <= s.len(),
        n < 0x1_0000_0000,
        m < 0x1_0000_0000,
    ensures
        s[at] == low && s[at + 1] == high ==> le_u16(s, at) == low + 256 * high,
        s[at] == high && s[at + 1] == low ==> be_u16(s, at) == low + 256 * high,
        le_u16(s, at) + 65_536 * le_u16(s, at + 2) == le_u32(s, at),
        65_536 * be_u16(s, at) + be_u16(s, at + 2) == be_u32(s, at),
        le_u32(s, at) == n && le_u32(s, at + 4) == m ==> le_u64(s, at) == n + 4_294_967_296 * m,
{
}

} // verus!
