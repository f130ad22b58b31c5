//! Big-endian integer encodings shared by the wire formats.

use vstd::prelude::*;
use vstd::arithmetic::div_mod::lemma_fundamental_div_mod_converse;

verus! {

/// Big-endian bytes of a 16-bit value.
pub open spec fn be16(x: u16) -> Seq<u8> {
    seq![(x / 0x100) as u8, (x % 0x100) as u8]
}

/// The 16-bit value of two big-endian bytes.
pub open spec fn be16_value(b0: u8, b1: u8) -> u16 {
    (b0 * 0x100 + b1) as u16
}

/// Big-endian bytes of a 32-bit value.
pub open spec fn be32(x: u32) -> Seq<u8> {
    seq![
        (x / 0x1000000) as u8,
        (x / 0x10000 % 0x100) as u8,
        (x / 0x100 % 0x100) as u8,
        (x % 0x100) as u8,
    ]
}

/// The 32-bit value of four big-endian bytes.
pub open spec fn be32_value(b0: u8, b1: u8, b2: u8, b3: u8) -> u32 {
    (b0 * 0x1000000 + b1 * 0x10000 + b2 * 0x100 + b3) as u32
}

/// The 32-bit value of the first four bytes of a sequence.
pub open spec fn be32_at(s: Seq<u8>, i: int) -> u32 {
    be32_value(s[i], s[i + 1], s[i + 2], s[i + 3])
}

/// The 16-bit value of the two bytes of a sequence at an offset.
pub open spec fn be16_at(s: Seq<u8>, i: int) -> u16 {
    be16_value(s[i], s[i + 1])
}

/// Big-endian bytes of a 64-bit value.
pub open spec fn be64(x: u64) -> Seq<u8> {
    be32((x / 0x1_0000_0000) as u32) + be32((x % 0x1_0000_0000) as u32)
}

/// The 64-bit value of eight big-endian bytes at an offset.
pub open spec fn be64_at(s: Seq<u8>, i: int) -> u64 {
    (be32_at(s, i) * 0x1_0000_0000 + be32_at(s, i + 4)) as u64
}

/// Decoding the big-endian bytes of a value gives the value back.
pub proof fn lemma_be16_roundtrip(x: u16)
    ensures
        be16(x).len() == 2,
        be16_value(be16(x)[0], be16(x)[1]) == x,
{
}

/// Decoding the big-endian bytes of a value gives the value back.
pub proof fn lemma_be32_roundtrip(x: u32)
    ensures
        be32(x).len() == 4,
        be32_value(be32(x)[0], be32(x)[1], be32(x)[2], be32(x)[3]) == x,
{
    assert(x / 0x1000000 * 0x1000000 + x / 0x10000 % 0x100 * 0x10000 + x / 0x100 % 0x100 * 0x100
        + x % 0x100 == x) by (bit_vector);
}

/// Encoding four decoded bytes gives the bytes back.
pub proof fn lemma_be32_bytes(b0: u8, b1: u8, b2: u8, b3: u8)
    ensures
        be32(be32_value(b0, b1, b2, b3)) == seq![b0, b1, b2, b3],
{
    let x = be32_value(b0, b1, b2, b3);
    let xi = b0 * 0x1000000 + b1 * 0x10000 + b2 * 0x100 + b3;
    assert(x == xi);
    lemma_fundamental_div_mod_converse(xi, 0x1000000, b0 as int, b1 * 0x10000 + b2 * 0x100 + b3);
    lemma_fundamental_div_mod_converse(xi, 0x10000, b0 * 0x100 + b1, b2 * 0x100 + b3);
    lemma_fundamental_div_mod_converse(b0 * 0x100 + b1, 0x100, b0 as int, b1 as int);
    lemma_fundamental_div_mod_converse(xi, 0x100, b0 * 0x10000 + b1 * 0x100 + b2, b3 as int);
    lemma_fundamental_div_mod_converse(b0 * 0x10000 + b1 * 0x100 + b2, 0x100, b0 * 0x100 + b1, b2 as int);
    assert(be32(x) =~= seq![b0, b1, b2, b3]);
}

/// Big-endian bytes of a 128-bit value.
pub open spec fn be128(x: u128) -> Seq<u8> {
    be64((x / 0x1_0000_0000_0000_0000) as u64) + be64((x % 0x1_0000_0000_0000_0000) as u64)
}

/// The 128-bit value of sixteen big-endian bytes at an offset.
pub open spec fn be128_at(s: Seq<u8>, i: int) -> u128 {
    (be64_at(s, i) * 0x1_0000_0000_0000_0000 + be64_at(s, i + 8)) as u128
}

/// Decoding the big-endian bytes of a 128-bit value gives it back.
pub proof fn lemma_be128_roundtrip(x: u128, s: Seq<u8>, i: int)
    requires
        0 <= i,
        i + 16 <= s.len(),
        s.subrange(i, i + 16) == be128(x),
    ensures
        be128_at(s, i) == x,
{
    let hi = (x / 0x1_0000_0000_0000_0000) as u64;
    let lo = (x % 0x1_0000_0000_0000_0000) as u64;
    assert(s.subrange(i, i + 8) =~= s.subrange(i, i + 16).subrange(0, 8));
    assert(s.subrange(i + 8, i + 16) =~= s.subrange(i, i + 16).subrange(8, 16));
    assert(be128(x).subrange(0, 8) =~= be64(hi));
    assert(be128(x).subrange(8, 16) =~= be64(lo));
    lemma_be64_roundtrip(hi, s, i);
    lemma_be64_roundtrip(lo, s, i + 8);
}

/// Decoding the big-endian bytes of a 64-bit value gives it back.
pub proof fn lemma_be64_roundtrip(x: u64, s: Seq<u8>, i: int)
    requires
        0 <= i,
        i + 8 <= s.len(),
        s.subrange(i, i + 8) == be64(x),
    ensures
        be64_at(s, i) == x,
{
    let hi = (x / 0x1_0000_0000) as u32;
    let lo = (x % 0x1_0000_0000) as u32;
    lemma_be32_roundtrip(hi);
    lemma_be32_roundtrip(lo);
    assert(s[i] == s.subrange(i, i + 8)[0]);
    assert(s[i + 1] == s.subrange(i, i + 8)[1]);
    assert(s[i + 2] == s.subrange(i, i + 8)[2]);
    assert(s[i + 3] == s.subrange(i, i + 8)[3]);
    assert(s[i + 4] == s.subrange(i, i + 8)[4]);
    assert(s[i + 5] == s.subrange(i, i + 8)[5]);
    assert(s[i + 6] == s.subrange(i, i + 8)[6]);
    assert(s[i + 7] == s.subrange(i, i + 8)[7]);
    assert(be32_at(s, i) == hi);
    assert(be32_at(s, i + 4) == lo);
}

/// Appends the big-endian bytes of a 16-bit value.
pub fn push_be16(buf: &mut Vec<u8>, x: u16)
    ensures
        final(buf)@ == old(buf)@ + be16(x),
{
    buf.push((x / 0x100) as u8);
    buf.push((x % 0x100) as u8);
    assert(buf@ =~= old(buf)@ + be16(x));
}

/// Appends the big-endian bytes of a 32-bit value.
pub fn push_be32(buf: &mut Vec<u8>, x: u32)
    ensures
        final(buf)@ == old(buf)@ + be32(x),
{
    buf.push((x / 0x1000000) as u8);
    buf.push((x / 0x10000 % 0x100) as u8);
    buf.push((x / 0x100 % 0x100) as u8);
    buf.push((x % 0x100) as u8);
    assert(buf@ =~= old(buf)@ + be32(x));
}

/// Appends the big-endian bytes of a 64-bit value.
pub fn push_be64(buf: &mut Vec<u8>, x: u64)
    ensures
        final(buf)@ == old(buf)@ + be64(x),
{
    push_be32(buf, (x / 0x1_0000_0000) as u32);
    push_be32(buf, (x % 0x1_0000_0000) as u32);
    assert(buf@ =~= old(buf)@ + be64(x));
}

/// Appends the big-endian bytes of a 128-bit value.
pub fn push_be128(buf: &mut Vec<u8>, x: u128)
    ensures
        final(buf)@ == old(buf)@ + be128(x),
{
    push_be64(buf, (x / 0x1_0000_0000_0000_0000) as u64);
    push_be64(buf, (x % 0x1_0000_0000_0000_0000) as u64);
    assert(buf@ =~= old(buf)@ + be128(x));
}

/// Appends all bytes of a slice.
pub fn push_all(buf: &mut Vec<u8>, data: &[u8])
    ensures
        final(buf)@ == old(buf)@ + data@,
{
    let mut i: usize = 0;
    while i < data.len()
        invariant
            i <= data@.len(),
            buf@ == old(buf)@ + data@.subrange(0, i as int),
        decreases data@.len() - i,
    {
        buf.push(data[i]);
        i = i + 1;
        assert(buf@ =~= old(buf)@ + data@.subrange(0, i as int));
    }
    assert(data@.subrange(0, data@.len() as int) =~= data@);
}

/// Reads a big-endian 16-bit value at an offset.
pub fn read_be16(data: &[u8], i: usize) -> (r: u16)
    requires
        i + 2 <= data@.len(),
    ensures
        r == be16_at(data@, i as int),
{
    (data[i] as u16) * 0x100 + (data[i + 1] as u16)
}

/// Reads a big-endian 32-bit value at an offset.
pub fn read_be32(data: &[u8], i: usize) -> (r: u32)
    requires
        i + 4 <= data@.len(),
    ensures
        r == be32_at(data@, i as int),
{
    (data[i] as u32) * 0x1000000 + (data[i + 1] as u32) * 0x10000 + (data[i + 2] as u32) * 0x100
        + (data[i + 3] as u32)
}

/// Reads a big-endian 64-bit value at an offset.
pub fn read_be64(data: &[u8], i: usize) -> (r: u64)
    requires
        i + 8 <= data@.len(),
    ensures
        r == be64_at(data@, i as int),
{
    let len = data.len();
    assert(i + 8 <= len);
    let hi = read_be32(data, i);
    let lo = read_be32(data, i + 4);
    assert((hi as int) * 0x1_0000_0000 + (lo as int) <= u64::MAX) by (nonlinear_arith)
        requires
            hi <= 0xffff_ffff,
            lo <= 0xffff_ffff,
    ;
    (hi as u64) * 0x1_0000_0000 + (lo as u64)
}

/// Reads a big-endian 128-bit value at an offset.
pub fn read_be128(data: &[u8], i: usize) -> (r: u128)
    requires
        i + 16 <= data@.len(),
    ensures
        r == be128_at(data@, i as int),
{
    let len = data.len();
    assert(i + 16 <= len);
    let hi = read_be64(data, i);
    let lo = read_be64(data, i + 8);
    assert((hi as int) * 0x1_0000_0000_0000_0000 + (lo as int) <= u128::MAX) by (nonlinear_arith)
        requires
            hi <= 0xffff_ffff_ffff_ffff,
            lo <= 0xffff_ffff_ffff_ffff,
    ;
    (hi as u128) * 0x1_0000_0000_0000_0000 + (lo as u128)
}

/// Whether two 32-byte arrays hold the same bytes.
pub fn bytes32_eq(a: &[u8; 32], b: &[u8; 32]) -> (r: bool)
    ensures
        r == (a@ == b@),
{
    let mut i: usize = 0;
    while i < 32
        invariant
            i <= 32,
            a@.len() == 32,
            b@.len() == 32,
            forall|j: int| 0 <= j < i ==> a@[j] == b@[j],
        decreases 32 - i,
    {
        if a[i] != b[i] {
            return false;
        }
        i = i + 1;
    }
    assert(a@ =~= b@);
    true
}

/// Copies a subrange of a slice into a new vector.
pub fn copy_range(data: &[u8], start: usize, end: usize) -> (r: Vec<u8>)
    requires
        start <= end <= data@.len(),
    ensures
        r@ == data@.subrange(start as int, end as int),
{
    let mut r: Vec<u8> = Vec::new();
    let mut i: usize = start;
    while i < end
        invariant
            start <= i <= end <= data@.len(),
            r@ == data@.subrange(start as int, i as int),
        decreases end - i,
    {
        r.push(data[i]);
        i = i + 1;
        assert(r@ =~= data@.subrange(start as int, i as int));
    }
    r
}

} // verus!
