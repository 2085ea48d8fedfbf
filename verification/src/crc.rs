//! Mode S CRC-24.
//!
//! The last 24 bits of every Mode S frame are a parity field. Running the
//! whole frame through the generator leaves zero for an undamaged DF17.
//! The generator `0xFFF409` has bits 23..12 set, plus 10, 3 and 0.
use crate::bits::bit_at;
use vstd::prelude::*;

verus! {

/// Mode S CRC-24 generator polynomial.
pub const POLY: u32 = 0x00FF_F409;

/// One bit of polynomial long division: shift `bit` into the register and
/// subtract the generator when a one falls out of the top.
pub open spec fn crc_step(crc: u32, bit: u32) -> u32 {
    let shifted = ((crc << 1u32) & 0x00FF_FFFFu32) | bit;
    if (crc >> 23u32) & 1u32 != 0 {
        shifted ^ POLY
    } else {
        shifted
    }
}

/// The register after the first `n` bits of `data` have been shifted in.
pub open spec fn crc_bits(data: Seq<u8>, n: nat) -> u32
    decreases n,
{
    if n == 0 {
        0
    } else {
        crc_step(crc_bits(data, (n - 1) as nat), bit_at(data, n - 1) as u32)
    }
}

/// The CRC-24 remainder of a whole byte sequence.
pub open spec fn crc24_spec(data: Seq<u8>) -> u32 {
    crc_bits(data, data.len() * 8)
}

proof fn lemma_step_bounded(crc: u32, bit: u32)
    requires
        crc < 0x0100_0000,
        bit <= 1,
    ensures
        crc_step(crc, bit) < 0x0100_0000,
{
    assert(crc < 0x0100_0000 && bit <= 1 ==> ((crc << 1u32) & 0x00FF_FFFFu32) | bit < 0x0100_0000u32)
        by (bit_vector);
    assert(crc < 0x0100_0000 && bit <= 1 ==> (((crc << 1u32) & 0x00FF_FFFFu32) | bit) ^ 0x00FF_F409u32
        < 0x0100_0000u32) by (bit_vector);
}

/// The register never holds more than 24 bits.
pub proof fn lemma_crc_bits_bounded(data: Seq<u8>, n: nat)
    requires
        n <= data.len() * 8,
    ensures
        crc_bits(data, n) < 0x0100_0000,
    decreases n,
{
    if n > 0 {
        lemma_crc_bits_bounded(data, (n - 1) as nat);
        crate::bits::lemma_bit_at_is_bit(data, n - 1);
        lemma_step_bounded(crc_bits(data, (n - 1) as nat), bit_at(data, n - 1) as u32);
    }
}

/// Compute the CRC-24 over `data`. A frame that includes its own parity field
/// leaves 0 when undamaged.
pub fn crc24(data: &[u8]) -> (crc: u32)
    requires
        data@.len() * 8 <= usize::MAX,
    ensures
        crc == crc24_spec(data@),
        crc < 0x0100_0000,
{
    let mut crc: u32 = 0;
    let mut j: usize = 0;
    while j < data.len()
        invariant
            j <= data@.len(),
            data@.len() * 8 <= usize::MAX,
            crc == crc_bits(data@, (j * 8) as nat),
            crc < 0x0100_0000,
        decreases data@.len() - j,
    {
        let byte = data[j];
        let mut k: u8 = 0;
        while k < 8
            invariant
                k <= 8,
                j < data@.len(),
                data@.len() * 8 <= usize::MAX,
                byte == data@[j as int],
                crc == crc_bits(data@, (j * 8 + k) as nat),
                crc < 0x0100_0000,
            decreases 8 - k,
        {
            let shift: u8 = 7 - k;
            let bit: u32 = ((byte >> shift) & 1u8) as u32;
            proof {
                let i = (j * 8 + k) as int;
                assert(i / 8 == j as int);
                assert(i % 8 == k as int);
                assert(bit == bit_at(data@, i) as u32);
                crate::bits::lemma_bit_at_is_bit(data@, i);
                lemma_step_bounded(crc, bit);
            }
            let msb = (crc >> 23u32) & 1u32;
            crc = ((crc << 1u32) & 0x00FF_FFFFu32) | bit;
            if msb != 0 {
                crc = crc ^ POLY;
            }
            k = k + 1;
        }
        j = j + 1;
    }
    proof {
        assert(crc < 0x0100_0000 ==> crc & 0x00FF_FFFFu32 == crc) by (bit_vector);
    }
    crc & 0x00FF_FFFF
}

/// True for the downlink formats whose parity has the aircraft address XORed
/// into it, so the CRC remainder *is* the address and cannot validate the frame.
pub open spec fn remainder_is_address_spec(df: u8) -> bool {
    df == 0 || df == 4 || df == 5 || df == 16 || df == 20 || df == 21
}

/// True for the address-overlaid downlink formats (DF0/4/5/16/20/21).
pub fn remainder_is_address(df: u8) -> (r: bool)
    ensures
        r == remainder_is_address_spec(df),
{
    df == 0 || df == 4 || df == 5 || df == 16 || df == 20 || df == 21
}

/// The syndrome of a frame: what the CRC leaves behind. Zero means clean.
pub fn syndrome(data: &[u8]) -> (s: u32)
    requires
        data@.len() * 8 <= usize::MAX,
    ensures
        s == crc24_spec(data@),
{
    crc24(data)
}

/// Bytewise exclusive or of two sequences of the same length.
pub open spec fn xor_seq(a: Seq<u8>, b: Seq<u8>) -> Seq<u8> {
    Seq::new(a.len(), |i: int| a[i] ^ b[i])
}

proof fn lemma_step_linear(c1: u32, b1: u32, c2: u32, b2: u32)
    requires
        c1 < 0x0100_0000,
        c2 < 0x0100_0000,
        b1 <= 1,
        b2 <= 1,
    ensures
        crc_step(c1 ^ c2, b1 ^ b2) == crc_step(c1, b1) ^ crc_step(c2, b2),
{
    let p = POLY;
    assert(p == 0x00FF_F409u32 && c1 < 0x0100_0000u32 && c2 < 0x0100_0000u32 && b1 <= 1u32 && b2
        <= 1u32 ==> ({
        let s1 = ((c1 << 1u32) & 0x00FF_FFFFu32) | b1;
        let s2 = ((c2 << 1u32) & 0x00FF_FFFFu32) | b2;
        let s = (((c1 ^ c2) << 1u32) & 0x00FF_FFFFu32) | (b1 ^ b2);
        let r1 = if (c1 >> 23u32) & 1u32 != 0 { s1 ^ p } else { s1 };
        let r2 = if (c2 >> 23u32) & 1u32 != 0 { s2 ^ p } else { s2 };
        let r = if ((c1 ^ c2) >> 23u32) & 1u32 != 0 { s ^ p } else { s };
        r == r1 ^ r2
    })) by (bit_vector);
}

proof fn lemma_bit_at_xor(a: Seq<u8>, b: Seq<u8>, i: int)
    requires
        a.len() == b.len(),
        0 <= i < a.len() * 8,
    ensures
        bit_at(xor_seq(a, b), i) == bit_at(a, i) ^ bit_at(b, i),
{
    let x = a[i / 8];
    let y = b[i / 8];
    let s = (7 - i % 8) as u8;
    assert(((x ^ y) >> s) & 1u8 == ((x >> s) & 1u8) ^ ((y >> s) & 1u8)) by (bit_vector);
}

proof fn lemma_crc_bits_linear(a: Seq<u8>, b: Seq<u8>, n: nat)
    requires
        a.len() == b.len(),
        n <= a.len() * 8,
    ensures
        crc_bits(xor_seq(a, b), n) == crc_bits(a, n) ^ crc_bits(b, n),
    decreases n,
{
    if n > 0 {
        let m = (n - 1) as nat;
        lemma_crc_bits_linear(a, b, m);
        lemma_crc_bits_bounded(a, m);
        lemma_crc_bits_bounded(b, m);
        lemma_bit_at_xor(a, b, m as int);
        crate::bits::lemma_bit_at_is_bit(a, m as int);
        crate::bits::lemma_bit_at_is_bit(b, m as int);
        let ba = bit_at(a, m as int);
        let bb = bit_at(b, m as int);
        assert((ba ^ bb) as u32 == (ba as u32) ^ (bb as u32)) by (bit_vector);
        lemma_step_linear(crc_bits(a, m), ba as u32, crc_bits(b, m), bb as u32);
    } else {
        assert(0u32 ^ 0u32 == 0u32) by (bit_vector);
    }
}

/// Law: the CRC is linear. The remainder of `a xor b` is the xor of the two
/// remainders, for any two byte sequences of the same length.
pub proof fn lemma_crc24_linear(a: Seq<u8>, b: Seq<u8>)
    requires
        a.len() == b.len(),
    ensures
        crc24_spec(xor_seq(a, b)) == crc24_spec(a) ^ crc24_spec(b),
{
    lemma_crc_bits_linear(a, b, a.len() * 8);
}

/// Law: the syndrome of a damaged clean frame is the syndrome of the error
/// pattern alone, independent of the message it damaged.
pub proof fn lemma_syndrome_depends_only_on_error(frame: Seq<u8>, error: Seq<u8>)
    requires
        frame.len() == error.len(),
        crc24_spec(frame) == 0,
    ensures
        crc24_spec(xor_seq(frame, error)) == crc24_spec(error),
{
    lemma_crc24_linear(frame, error);
    let e = crc24_spec(error);
    assert(0u32 ^ e == e) by (bit_vector);
}

/// The error pattern with only bit `k` set, over `len` bytes.
pub open spec fn one_hot(len: nat, k: int) -> Seq<u8> {
    Seq::new(len, |i: int| if i == k / 8 { 1u8 << ((7 - k % 8) as u8) } else { 0u8 })
}

/// Flip bit `k` of `data`, as a damaged transmission would.
pub open spec fn flip_bit(data: Seq<u8>, k: int) -> Seq<u8> {
    data.update(k / 8, data[k / 8] ^ (1u8 << ((7 - k % 8) as u8)))
}

proof fn lemma_one_hot_bits(len: nat, k: int, i: int)
    requires
        0 <= k < len * 8,
        0 <= i < len * 8,
    ensures
        bit_at(one_hot(len, k), i) == (if i == k { 1u8 } else { 0u8 }),
{
    let s = (7 - k % 8) as u8;
    let t = (7 - i % 8) as u8;
    if i / 8 == k / 8 {
        assert(s < 8 && t < 8 ==> (((1u8 << s) >> t) & 1u8 == 1u8 <==> s == t)) by (bit_vector);
        assert(s < 8 && t < 8 ==> (((1u8 << s) >> t) & 1u8 <= 1u8)) by (bit_vector);
        if i != k {
            assert(i % 8 != k % 8);
        }
    } else {
        assert(i != k);
        assert((0u8 >> t) & 1u8 == 0u8) by (bit_vector);
    }
}

proof fn lemma_one_hot_crc_bits(len: nat, k: int, n: nat)
    requires
        0 <= k < len * 8,
        n <= len * 8,
    ensures
        n <= k ==> crc_bits(one_hot(len, k), n) == 0,
        n > k ==> crc_bits(one_hot(len, k), n) != 0,
    decreases n,
{
    let e = one_hot(len, k);
    if n > 0 {
        let m = (n - 1) as nat;
        lemma_one_hot_crc_bits(len, k, m);
        lemma_one_hot_bits(len, k, m as int);
        lemma_crc_bits_bounded(e, m);
        let c = crc_bits(e, m);
        if n <= k {
            assert(crc_step(0u32, 0u32) == 0u32) by (bit_vector);
        } else if m == k {
            assert(crc_step(0u32, 1u32) == 1u32) by (bit_vector);
        } else {
            assert(c != 0 && c < 0x0100_0000u32 ==> crc_step(c, 0u32) != 0u32) by (bit_vector);
        }
    }
}

/// Law: every single-bit error in a clean frame is detected.
pub proof fn lemma_single_bit_error_detected(frame: Seq<u8>, k: int)
    requires
        crc24_spec(frame) == 0,
        0 <= k < frame.len() * 8,
    ensures
        crc24_spec(flip_bit(frame, k)) != 0,
{
    let e = one_hot(frame.len(), k);
    assert(flip_bit(frame, k) =~= xor_seq(frame, e)) by {
        assert forall|i: int| 0 <= i < frame.len() implies #[trigger] flip_bit(frame, k)[i]
            == xor_seq(frame, e)[i] by {
            let x = frame[i];
            assert(x ^ 0u8 == x) by (bit_vector);
        }
    }
    lemma_syndrome_depends_only_on_error(frame, e);
    lemma_one_hot_crc_bits(frame.len(), k, frame.len() * 8);
}

} // verus!
