//! Bit extraction from a Mode S frame.
//!
//! ICAO documents number message bits 1..112. This module is 0-based: every
//! call site that quotes a spec bit number subtracts one and says so.
use vstd::prelude::*;

verus! {

/// Bit `i` of `data`, 0-based and MSB-first within each byte.
pub open spec fn bit_at(data: Seq<u8>, i: int) -> u8 {
    (data[i / 8] >> ((7 - i % 8) as u8)) & 1u8
}

/// The unsigned integer spelled by `count` bits starting at `offset`, MSB-first.
pub open spec fn bits_value(data: Seq<u8>, offset: int, count: nat) -> nat
    decreases count,
{
    if count == 0 {
        0
    } else {
        2 * bits_value(data, offset, (count - 1) as nat) + bit_at(data, offset + count - 1) as nat
    }
}

/// A bit is always 0 or 1.
pub proof fn lemma_bit_at_is_bit(data: Seq<u8>, i: int)
    requires
        0 <= i < data.len() * 8,
    ensures
        bit_at(data, i) <= 1,
{
    let b = data[i / 8];
    let s = (7 - i % 8) as u8;
    assert((b >> s) & 1u8 <= 1u8) by (bit_vector);
}

/// `count` bits never spell a value of `2^count` or more.
pub proof fn lemma_bits_value_bound(data: Seq<u8>, offset: int, count: nat)
    requires
        0 <= offset,
        offset + count <= data.len() * 8,
    ensures
        bits_value(data, offset, count) < vstd::arithmetic::power2::pow2(count),
    decreases count,
{
    if count > 0 {
        lemma_bits_value_bound(data, offset, (count - 1) as nat);
        lemma_bit_at_is_bit(data, offset + count - 1);
        vstd::arithmetic::power2::lemma_pow2_unfold(count);
    } else {
        vstd::arithmetic::power2::lemma2_to64();
    }
}

/// Extract `count` bits (at most 32) starting at 0-based bit `offset`, MSB-first.
///
/// A range that runs past the end of `data` is a programming error, not a data
/// error: frame lengths are validated before decoding.
pub fn get(data: &[u8], offset: usize, count: usize) -> (value: u32)
    requires
        count <= 32,
        offset + count <= data@.len() * 8,
        offset + count <= usize::MAX,
    ensures
        value as nat == bits_value(data@, offset as int, count as nat),
{
    let mut value: u32 = 0;
    let mut i: usize = 0;
    while i < count
        invariant
            i <= count,
            count <= 32,
            offset + count <= data@.len() * 8,
            offset + count <= usize::MAX,
            value as nat == bits_value(data@, offset as int, i as nat),
        decreases count - i,
    {
        let bit = offset + i;
        let byte = data[bit / 8];
        let shift: u8 = (7 - (bit % 8)) as u8;
        let b: u8 = (byte >> shift) & 1u8;
        proof {
            lemma_bit_at_is_bit(data@, bit as int);
            lemma_bits_value_bound(data@, offset as int, i as nat);
            vstd::arithmetic::power2::lemma_pow2_strictly_increases(i as nat, 32);
            vstd::arithmetic::power2::lemma2_to64();
            assert(value < 0x8000_0000u32);
            let v = value;
            let bb = b as u32;
            assert(v < 0x8000_0000u32 && bb <= 1 ==> ((v << 1) | bb) == 2 * v + bb) by (bit_vector);
        }
        value = (value << 1) | (b as u32);
        i = i + 1;
    }
    value
}

/// Extract a single bit as a bool.
pub fn flag(data: &[u8], offset: usize) -> (set: bool)
    requires
        offset < data@.len() * 8,
        offset < usize::MAX,
    ensures
        set == (bit_at(data@, offset as int) == 1),
{
    let v = get(data, offset, 1);
    proof {
        reveal_with_fuel(bits_value, 2);
        lemma_bit_at_is_bit(data@, offset as int);
    }
    v == 1
}

/// Element `i` of `bits`, or 0 past the end (a short trailing chunk is zero-padded).
pub open spec fn bit_or_zero(bits: Seq<u8>, i: int) -> u8 {
    if 0 <= i < bits.len() {
        bits[i]
    } else {
        0
    }
}

/// The byte that the first `k` of the eight bits at `start` shift in, MSB-first.
pub open spec fn pack_prefix(bits: Seq<u8>, start: int, k: nat) -> u8
    decreases k,
{
    if k == 0 {
        0
    } else {
        (pack_prefix(bits, start, (k - 1) as nat) << 1u8) | bit_or_zero(bits, start + k - 1)
    }
}

/// Byte `j` of the packed form of `bits`.
pub open spec fn packed_byte(bits: Seq<u8>, j: int) -> u8 {
    pack_prefix(bits, 8 * j, 8)
}

/// Number of bytes `bits` packs into: a trailing partial byte counts.
pub open spec fn packed_len(n: nat) -> nat {
    (n + 7) / 8
}

/// Pack a slice of 0/1 bytes into bytes, MSB-first. A trailing partial byte
/// is left-aligned, as a truncated frame would appear on the wire.
pub fn pack(bits: &[u8]) -> (out: Vec<u8>)
    ensures
        out@.len() == packed_len(bits@.len() as nat),
        forall|j: int| 0 <= j < out@.len() ==> #[trigger] out@[j] == packed_byte(bits@, j),
        out@ == packed(bits@),
{
    let mut out: Vec<u8> = Vec::new();
    let n = bits.len();
    let mut start: usize = 0;
    while start < n
        invariant
            n == bits@.len(),
            start <= n,
            start % 8 == 0 || start == n,
            out@.len() == packed_len(start as nat),
            forall|j: int| 0 <= j < out@.len() ==> #[trigger] out@[j] == packed_byte(bits@, j),
        decreases n - start,
    {
        let take: usize = if n - start < 8 {
            n - start
        } else {
            8
        };
        let mut byte: u8 = 0;
        let mut i: usize = 0;
        while i < 8
            invariant
                i <= 8,
                n == bits@.len(),
                start < n,
                take <= 8,
                take == n - start || take == 8,
                start + take <= n,
                byte == pack_prefix(bits@, start as int, i as nat),
            decreases 8 - i,
        {
            let b: u8 = if i < take {
                bits[start + i]
            } else {
                0
            };
            byte = (byte << 1u8) | b;
            i = i + 1;
        }
        proof {
            assert(start as int / 8 == out@.len());
            assert(packed_byte(bits@, out@.len() as int) == byte);
        }
        out.push(byte);
        start = start + take;
    }
    proof {
        assert(out@ =~= packed(bits@));
    }
    out
}

/// Unpacked form of `bytes`: bit `i` of the stream, as 0 or 1.
pub open spec fn unpacked(bytes: Seq<u8>) -> Seq<u8> {
    Seq::new(bytes.len() * 8, |i: int| bit_at(bytes, i))
}

/// Unpack bytes into 0/1 bytes, MSB-first. Inverse of [`pack`].
pub fn unpack(bytes: &[u8]) -> (out: Vec<u8>)
    requires
        bytes@.len() * 8 <= usize::MAX,
    ensures
        out@ == unpacked(bytes@),
{
    let mut out: Vec<u8> = Vec::new();
    let mut j: usize = 0;
    while j < bytes.len()
        invariant
            j <= bytes@.len(),
            bytes@.len() * 8 <= usize::MAX,
            out@.len() == j * 8,
            forall|i: int| 0 <= i < out@.len() ==> #[trigger] out@[i] == bit_at(bytes@, i),
        decreases bytes@.len() - j,
    {
        let byte = bytes[j];
        let mut k: u8 = 0;
        while k < 8
            invariant
                k <= 8,
                j < bytes@.len(),
                byte == bytes@[j as int],
                out@.len() == j * 8 + k,
                forall|i: int| 0 <= i < out@.len() ==> #[trigger] out@[i] == bit_at(bytes@, i),
            decreases 8 - k,
        {
            let shift: u8 = 7 - k;
            out.push((byte >> shift) & 1u8);
            proof {
                let i = (j * 8 + k) as int;
                assert(i / 8 == j as int);
                assert(i % 8 == k as int);
            }
            k = k + 1;
        }
        j = j + 1;
    }
    proof {
        assert(out@ =~= unpacked(bytes@));
    }
    out
}

/// Re-packing eight unpacked bits gives the byte back.
proof fn lemma_pack_byte_of_unpacked(bytes: Seq<u8>, j: int)
    requires
        0 <= j < bytes.len(),
    ensures
        packed_byte(unpacked(bytes), j) == bytes[j],
{
    let u = unpacked(bytes);
    let x = bytes[j];
    assert forall|k: int| 0 <= k < 8 implies #[trigger] bit_or_zero(u, 8 * j + k) == (x >> ((7 - k) as u8)) & 1u8 by {
        let i = 8 * j + k;
        assert(i / 8 == j);
        assert(i % 8 == k);
    }
    let b0 = bit_or_zero(u, 8 * j);
    let b1 = bit_or_zero(u, 8 * j + 1);
    let b2 = bit_or_zero(u, 8 * j + 2);
    let b3 = bit_or_zero(u, 8 * j + 3);
    let b4 = bit_or_zero(u, 8 * j + 4);
    let b5 = bit_or_zero(u, 8 * j + 5);
    let b6 = bit_or_zero(u, 8 * j + 6);
    let b7 = bit_or_zero(u, 8 * j + 7);
    let p1 = pack_prefix(u, 8 * j, 1);
    let p2 = pack_prefix(u, 8 * j, 2);
    let p3 = pack_prefix(u, 8 * j, 3);
    let p4 = pack_prefix(u, 8 * j, 4);
    let p5 = pack_prefix(u, 8 * j, 5);
    let p6 = pack_prefix(u, 8 * j, 6);
    let p7 = pack_prefix(u, 8 * j, 7);
    let p8 = pack_prefix(u, 8 * j, 8);
    reveal_with_fuel(pack_prefix, 2);
    assert(p1 == (0u8 << 1u8) | b0);
    assert(p8 == x) by (bit_vector)
        requires
            b0 == (x >> 7u8) & 1u8,
            b1 == (x >> 6u8) & 1u8,
            b2 == (x >> 5u8) & 1u8,
            b3 == (x >> 4u8) & 1u8,
            b4 == (x >> 3u8) & 1u8,
            b5 == (x >> 2u8) & 1u8,
            b6 == (x >> 1u8) & 1u8,
            b7 == (x >> 0u8) & 1u8,
            p1 == (0u8 << 1u8) | b0,
            p2 == (p1 << 1u8) | b1,
            p3 == (p2 << 1u8) | b2,
            p4 == (p3 << 1u8) | b3,
            p5 == (p4 << 1u8) | b4,
            p6 == (p5 << 1u8) | b5,
            p7 == (p6 << 1u8) | b6,
            p8 == (p7 << 1u8) | b7,
    ;
}

/// Law: packing what `unpack` produced gives the same bytes back.
pub proof fn lemma_pack_unpack_round_trip(bytes: Seq<u8>)
    ensures
        packed_len(unpacked(bytes).len()) == bytes.len(),
        forall|j: int| 0 <= j < bytes.len() ==> #[trigger] packed_byte(unpacked(bytes), j) == bytes[j],
{
    assert(packed_len(unpacked(bytes).len()) == bytes.len()) by (nonlinear_arith)
        requires
            unpacked(bytes).len() == bytes.len() * 8,
    ;
    assert forall|j: int| 0 <= j < bytes.len() implies #[trigger] packed_byte(unpacked(bytes), j)
        == bytes[j] by {
        lemma_pack_byte_of_unpacked(bytes, j);
    }
}

/// What `pack` produces from `bits`.
pub open spec fn packed(bits: Seq<u8>) -> Seq<u8> {
    Seq::new(packed_len(bits.len() as nat), |j: int| packed_byte(bits, j))
}

/// Unpacking the byte packed from eight 0/1 bits gives those bits back.
proof fn lemma_unpack_packed_byte(bits: Seq<u8>, j: int)
    requires
        0 <= j,
        8 * j + 8 <= bits.len(),
        forall|i: int| 0 <= i < bits.len() ==> #[trigger] bits[i] <= 1,
    ensures
        forall|k: int| 0 <= k < 8 ==> (packed_byte(bits, j) >> ((7 - k) as u8)) & 1u8 == #[trigger] bits[8 * j + k],
{
    let b0 = bits[8 * j];
    let b1 = bits[8 * j + 1];
    let b2 = bits[8 * j + 2];
    let b3 = bits[8 * j + 3];
    let b4 = bits[8 * j + 4];
    let b5 = bits[8 * j + 5];
    let b6 = bits[8 * j + 6];
    let b7 = bits[8 * j + 7];
    let p1 = pack_prefix(bits, 8 * j, 1);
    let p2 = pack_prefix(bits, 8 * j, 2);
    let p3 = pack_prefix(bits, 8 * j, 3);
    let p4 = pack_prefix(bits, 8 * j, 4);
    let p5 = pack_prefix(bits, 8 * j, 5);
    let p6 = pack_prefix(bits, 8 * j, 6);
    let p7 = pack_prefix(bits, 8 * j, 7);
    let x = pack_prefix(bits, 8 * j, 8);
    reveal_with_fuel(pack_prefix, 2);
    assert(p1 == (0u8 << 1u8) | b0);
    assert(b0 <= 1 && b1 <= 1 && b2 <= 1 && b3 <= 1 && b4 <= 1 && b5 <= 1 && b6 <= 1 && b7 <= 1);
    assert((x >> 7u8) & 1u8 == b0 && (x >> 6u8) & 1u8 == b1 && (x >> 5u8) & 1u8 == b2 && (x >> 4u8) & 1u8
        == b3 && (x >> 3u8) & 1u8 == b4 && (x >> 2u8) & 1u8 == b5 && (x >> 1u8) & 1u8 == b6 && (x >> 0u8)
        & 1u8 == b7) by (bit_vector)
        requires
            b0 <= 1 && b1 <= 1 && b2 <= 1 && b3 <= 1 && b4 <= 1 && b5 <= 1 && b6 <= 1 && b7 <= 1,
            p1 == (0u8 << 1u8) | b0,
            p2 == (p1 << 1u8) | b1,
            p3 == (p2 << 1u8) | b2,
            p4 == (p3 << 1u8) | b3,
            p5 == (p4 << 1u8) | b4,
            p6 == (p5 << 1u8) | b5,
            p7 == (p6 << 1u8) | b6,
            x == (p7 << 1u8) | b7,
    ;
    assert forall|k: int| 0 <= k < 8 implies (packed_byte(bits, j) >> ((7 - k) as u8)) & 1u8
        == #[trigger] bits[8 * j + k] by {
        if k == 0 {
        } else if k == 1 {
        } else if k == 2 {
        } else if k == 3 {
        } else if k == 4 {
        } else if k == 5 {
        } else if k == 6 {
        } else {
            assert(k == 7);
        }
    }
}

/// Law: unpacking what `pack` produced from whole bytes of 0/1 bits gives
/// the bits back.
pub proof fn lemma_unpack_pack_round_trip(bits: Seq<u8>)
    requires
        bits.len() % 8 == 0,
        forall|i: int| 0 <= i < bits.len() ==> #[trigger] bits[i] <= 1,
    ensures
        unpacked(packed(bits)) == bits,
{
    let p = packed(bits);
    assert(p.len() * 8 == bits.len()) by (nonlinear_arith)
        requires
            p.len() == (bits.len() + 7) / 8,
            bits.len() % 8 == 0,
    ;
    assert forall|i: int| 0 <= i < bits.len() implies #[trigger] unpacked(p)[i] == bits[i] by {
        let j = i / 8;
        let k = i % 8;
        assert(8 * j + k == i);
        assert(8 * j + 8 <= bits.len()) by (nonlinear_arith)
            requires
                0 <= i < bits.len(),
                bits.len() % 8 == 0,
                j == i / 8,
        ;
        lemma_unpack_packed_byte(bits, j);
        assert(bits[8 * j + k] == (packed_byte(bits, j) >> ((7 - k) as u8)) & 1u8);
        assert(p[j] == packed_byte(bits, j));
    }
    assert(unpacked(p) =~= bits);
}

} // verus!
