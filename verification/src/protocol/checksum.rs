//! The CRC-32 checksum (IEEE 802.3, reflected polynomial 0xEDB88320, initial
//! value and final XOR 0xFFFFFFFF) and its detection of single-byte errors.

use vstd::prelude::*;

verus! {

/// One bit step of the reflected CRC-32 register.
pub open spec fn crc_round(c: u32) -> u32 {
    if c & 1u32 == 1u32 {
        (c >> 1u32) ^ 0xEDB8_8320u32
    } else {
        c >> 1u32
    }
}

/// The register after taking in one byte: the byte is XORed into the low
/// bits, then eight bit steps.
pub open spec fn crc_byte(c: u32, b: u8) -> u32 {
    let x = c ^ (b as u32);
    crc_round(crc_round(crc_round(crc_round(crc_round(crc_round(crc_round(crc_round(x))))))))
}

/// The register after taking in a byte string, starting from all ones.
pub open spec fn crc_register(data: Seq<u8>) -> u32
    decreases data.len(),
{
    if data.len() == 0 {
        0xFFFF_FFFFu32
    } else {
        crc_byte(crc_register(data.drop_last()), data.last())
    }
}

/// The CRC-32 of a byte string: the final register, inverted.
pub open spec fn crc32_ieee(data: Seq<u8>) -> u32 {
    !crc_register(data)
}

/// A bit step loses nothing: different registers stay different.
proof fn lemma_round_injective(x: u32, y: u32)
    ensures
        crc_round(x) == crc_round(y) ==> x == y,
{
    assert(crc_round(x) == crc_round(y) ==> x == y) by (bit_vector);
}

/// Taking in a byte loses nothing of `register XOR byte`.
proof fn lemma_byte_injective(c1: u32, b1: u8, c2: u32, b2: u8)
    ensures
        crc_byte(c1, b1) == crc_byte(c2, b2) ==> c1 ^ (b1 as u32) == c2 ^ (b2 as u32),
{
    let x = c1 ^ (b1 as u32);
    let y = c2 ^ (b2 as u32);
    let x1 = crc_round(x);
    let y1 = crc_round(y);
    let x2 = crc_round(x1);
    let y2 = crc_round(y1);
    let x3 = crc_round(x2);
    let y3 = crc_round(y2);
    let x4 = crc_round(x3);
    let y4 = crc_round(y3);
    let x5 = crc_round(x4);
    let y5 = crc_round(y4);
    let x6 = crc_round(x5);
    let y6 = crc_round(y5);
    let x7 = crc_round(x6);
    let y7 = crc_round(y6);
    lemma_round_injective(x7, y7);
    lemma_round_injective(x6, y6);
    lemma_round_injective(x5, y5);
    lemma_round_injective(x4, y4);
    lemma_round_injective(x3, y3);
    lemma_round_injective(x2, y2);
    lemma_round_injective(x1, y1);
    lemma_round_injective(x, y);
}

/// After the position where two strings of one length differ in one byte,
/// every prefix leaves the register different.
proof fn lemma_registers_differ(a: Seq<u8>, b: Seq<u8>, i: int, k: int)
    requires
        a.len() == b.len(),
        0 <= i < k <= a.len(),
        a.take(i) == b.take(i),
        a[i] != b[i],
        forall|j: int| i < j < a.len() ==> a[j] == b[j],
    ensures
        crc_register(a.take(k)) != crc_register(b.take(k)),
    decreases k,
{
    assert(a.take(k).drop_last() =~= a.take(k - 1));
    assert(b.take(k).drop_last() =~= b.take(k - 1));
    let ca = crc_register(a.take(k - 1));
    let cb = crc_register(b.take(k - 1));
    let xa = a[k - 1];
    let xb = b[k - 1];
    lemma_byte_injective(ca, xa, cb, xb);
    if k == i + 1 {
        assert(ca == cb);
        assert(xa != xb);
        assert(ca ^ (xa as u32) != ca ^ (xb as u32)) by (bit_vector)
            requires
                xa != xb,
        ;
    } else {
        lemma_registers_differ(a, b, i, k - 1);
        assert(xa == xb);
        assert(ca ^ (xa as u32) != cb ^ (xa as u32)) by (bit_vector)
            requires
                ca != cb,
        ;
    }
}

/// CRC-32 detects every change of a single byte: two byte strings of one
/// length that differ in exactly one position have different checksums.
pub proof fn law_crc32_detects_single_byte_change(a: Seq<u8>, b: Seq<u8>, i: int)
    requires
        a.len() == b.len(),
        0 <= i < a.len(),
        a[i] != b[i],
        forall|j: int| 0 <= j < a.len() && j != i ==> a[j] == b[j],
    ensures
        crc32_ieee(a) != crc32_ieee(b),
{
    assert(a.take(i) =~= b.take(i));
    lemma_registers_differ(a, b, i, a.len() as int);
    assert(a.take(a.len() as int) =~= a);
    assert(b.take(b.len() as int) =~= b);
    let ra = crc_register(a);
    let rb = crc_register(b);
    assert(!ra != !rb) by (bit_vector)
        requires
            ra != rb,
    ;
}

} // verus!
