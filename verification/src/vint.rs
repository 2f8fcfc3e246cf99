//! Variable-length integers of the tag codec.
//!
//! Three encodings share one big-endian core:
//! - element identifiers: 1 to 4 bytes, the leading-zero count of the first
//!   byte gives the length, the marker bit is part of the identifier value;
//! - element sizes: 1 to 8 bytes in the same scheme, the marker bit is
//!   stripped from the value; the all-ones data pattern is reserved for
//!   "size unknown";
//! - unsigned scalar payloads: the minimal big-endian representation,
//!   1 to 8 bytes.

use vstd::prelude::*;

verus! {

use vstd::arithmetic::div_mod::lemma_div_is_ordered;
use vstd::arithmetic::div_mod::lemma_multiply_divide_lt;
use vstd::arithmetic::div_mod::lemma_div_multiples_vanish;

/// 256^n, the number of values that fit in n bytes.
pub open spec fn pow256(n: nat) -> nat
    decreases n,
{
    if n == 0 {
        1
    } else {
        256 * pow256((n - 1) as nat)
    }
}

/// 128^n; pow128(n) is the marker bit of an n-byte size field.
pub open spec fn pow128(n: nat) -> nat
    decreases n,
{
    if n == 0 {
        1
    } else {
        128 * pow128((n - 1) as nat)
    }
}

/// The concrete values of pow256 and pow128 up to eight bytes.
pub proof fn lemma_pow_values()
    ensures
        pow256(1) == 0x100,
        pow256(2) == 0x1_0000,
        pow256(3) == 0x100_0000,
        pow256(4) == 0x1_0000_0000,
        pow256(5) == 0x100_0000_0000,
        pow256(6) == 0x1_0000_0000_0000,
        pow256(7) == 0x100_0000_0000_0000,
        pow256(8) == 0x1_0000_0000_0000_0000,
        pow128(1) == 0x80,
        pow128(2) == 0x4000,
        pow128(3) == 0x20_0000,
        pow128(4) == 0x1000_0000,
        pow128(5) == 0x8_0000_0000,
        pow128(6) == 0x400_0000_0000,
        pow128(7) == 0x2_0000_0000_0000,
        pow128(8) == 0x100_0000_0000_0000,
{
    reveal_with_fuel(pow256, 9);
    reveal_with_fuel(pow128, 9);
}

/// The n low-order bytes of v, big-endian: the last byte is v % 256.
pub open spec fn be_bytes(v: nat, n: nat) -> Seq<u8>
    decreases n,
{
    if n == 0 {
        Seq::empty()
    } else {
        be_bytes(v / 256, (n - 1) as nat).push((v % 256) as u8)
    }
}

/// The unsigned value of a big-endian byte string.
pub open spec fn be_value(s: Seq<u8>) -> nat
    decreases s.len(),
{
    if s.len() == 0 {
        0
    } else {
        be_value(s.drop_last()) * 256 + s.last() as nat
    }
}

pub broadcast proof fn lemma_be_bytes_len(v: nat, n: nat)
    ensures
        #[trigger] be_bytes(v, n).len() == n,
    decreases n,
{
    if n > 0 {
        lemma_be_bytes_len(v / 256, (n - 1) as nat);
    }
}

pub broadcast proof fn lemma_be_value_bound(s: Seq<u8>)
    ensures
        #[trigger] be_value(s) < pow256(s.len()),
    decreases s.len(),
{
    if s.len() > 0 {
        lemma_be_value_bound(s.drop_last());
    }
}

/// Decoding inverts encoding: the value of the n-byte representation of v
/// is v itself, whenever v fits in n bytes.
pub proof fn lemma_be_value_of_bytes(v: nat, n: nat)
    requires
        v < pow256(n),
    ensures
        be_value(be_bytes(v, n)) == v,
    decreases n,
{
    if n > 0 {
        assert(v / 256 < pow256((n - 1) as nat)) by {
            lemma_multiply_divide_lt(v as int, 256, pow256((n - 1) as nat) as int);
        }
        lemma_be_value_of_bytes(v / 256, (n - 1) as nat);
        lemma_be_bytes_len(v / 256, (n - 1) as nat);
        let s = be_bytes(v, n);
        assert(s.drop_last() == be_bytes(v / 256, (n - 1) as nat));
    }
}

/// The first byte of an n-byte big-endian representation holds the high
/// 8 bits: it is v / 256^(n-1), whenever v fits in n bytes.
pub proof fn lemma_be_bytes_first(v: nat, n: nat)
    requires
        n >= 1,
        v < pow256(n),
    ensures
        be_bytes(v, n)[0] == v / pow256((n - 1) as nat),
    decreases n,
{
    lemma_be_bytes_len(v / 256, (n - 1) as nat);
    if n == 1 {
        assert(v / pow256(0) == v);
    } else {
        assert(v / 256 < pow256((n - 1) as nat)) by {
            lemma_multiply_divide_lt(v as int, 256, pow256((n - 1) as nat) as int);
        }
        lemma_be_bytes_first(v / 256, (n - 1) as nat);
        assert(be_bytes(v, n)[0] == be_bytes(v / 256, (n - 1) as nat)[0]);
        assert((v / 256) / pow256((n - 2) as nat) == v / (256 * pow256((n - 2) as nat))) by {
            vstd::arithmetic::div_mod::lemma_div_denominator(
                v as int,
                256,
                pow256((n - 2) as nat) as int,
            );
        }
        assert(pow256((n - 1) as nat) == 256 * pow256((n - 2) as nat));
    }
}

/// Byte length of the minimal big-endian representation of v (1 to 8 for
/// any v below 256^8).
pub open spec fn uint_len(v: nat) -> nat {
    if v < 0x100 {
        1
    } else if v < 0x1_0000 {
        2
    } else if v < 0x100_0000 {
        3
    } else if v < 0x1_0000_0000 {
        4
    } else if v < 0x100_0000_0000 {
        5
    } else if v < 0x1_0000_0000_0000 {
        6
    } else if v < 0x100_0000_0000_0000 {
        7
    } else {
        8
    }
}

/// The minimal big-endian encoding of an unsigned scalar payload.
pub open spec fn enc_uint(v: nat) -> Seq<u8> {
    be_bytes(v, uint_len(v))
}

pub proof fn lemma_uint_len(v: u64)
    ensures
        1 <= uint_len(v as nat) <= 8,
        (v as nat) < pow256(uint_len(v as nat)),
{
    lemma_pow_values();
}

// ---------------------------------------------------------------------
// Element identifiers
// ---------------------------------------------------------------------

/// Byte length of an identifier, implied by its own value range: the high
/// byte of a valid identifier carries the length marker. 0 means the value
/// is not a valid identifier.
pub open spec fn id_len(id: u32) -> nat {
    if 0x80 <= id <= 0xFF {
        1
    } else if 0x4000 <= id <= 0x7FFF {
        2
    } else if 0x20_0000 <= id <= 0x3F_FFFF {
        3
    } else if 0x1000_0000 <= id <= 0x1FFF_FFFF {
        4
    } else {
        0
    }
}

pub open spec fn id_valid(id: u32) -> bool {
    id_len(id) != 0
}

/// The encoding of an identifier: its big-endian bytes, marker included.
pub open spec fn enc_id(id: u32) -> Seq<u8> {
    be_bytes(id as nat, id_len(id))
}

/// Identifier length read off the first byte of an encoding; 0 for a byte
/// that cannot start an identifier.
pub open spec fn id_len_from_first(b0: u8) -> nat {
    if b0 >= 0x80 {
        1
    } else if b0 >= 0x40 {
        2
    } else if b0 >= 0x20 {
        3
    } else if b0 >= 0x10 {
        4
    } else {
        0
    }
}

/// The first byte of a valid identifier's encoding announces its length.
pub proof fn lemma_enc_id_first(id: u32)
    requires
        id_valid(id),
    ensures
        enc_id(id).len() == id_len(id),
        id_len_from_first(enc_id(id)[0]) == id_len(id),
        be_value(enc_id(id)) == id as nat,
{
    let n = id_len(id);
    lemma_pow_values();
    lemma_be_bytes_len(id as nat, n);
    lemma_be_value_of_bytes(id as nat, n);
    lemma_be_bytes_first(id as nat, n);
    let b0 = enc_id(id)[0];
    if n == 2 {
        assert(b0 == id as nat / 0x100);
        assert(0x40 <= id as nat / 0x100 < 0x80) by {
            lemma_div_is_ordered(0x4000, id as int, 0x100);
            lemma_multiply_divide_lt(id as int, 0x100, 0x80);
        }
    } else if n == 3 {
        assert(b0 == id as nat / 0x1_0000);
        assert(0x20 <= id as nat / 0x1_0000 < 0x40) by {
            lemma_div_is_ordered(0x20_0000, id as int, 0x1_0000);
            lemma_multiply_divide_lt(id as int, 0x1_0000, 0x40);
        }
    } else if n == 4 {
        assert(b0 == id as nat / 0x100_0000);
        assert(0x10 <= id as nat / 0x100_0000 < 0x20) by {
            lemma_div_is_ordered(0x1000_0000, id as int, 0x100_0000);
            lemma_multiply_divide_lt(id as int, 0x100_0000, 0x20);
        }
    }
}

// ---------------------------------------------------------------------
// Element sizes
// ---------------------------------------------------------------------

/// Byte length of a size field holding the value v: the minimal length
/// whose all-ones data pattern (reserved for "unknown") is not touched.
pub open spec fn size_len(v: nat) -> nat {
    if v < 0x7F {
        1
    } else if v < 0x3FFF {
        2
    } else if v < 0x1F_FFFF {
        3
    } else if v < 0xFFF_FFFF {
        4
    } else if v < 0x7_FFFF_FFFF {
        5
    } else if v < 0x3FF_FFFF_FFFF {
        6
    } else if v < 0x1_FFFF_FFFF_FFFF {
        7
    } else {
        8
    }
}

/// The largest size value the codec can write: 2^56 - 2, one below the
/// 8-byte all-ones pattern.
pub open spec fn size_max() -> nat {
    0xFF_FFFF_FFFF_FFFE
}

/// The encoding of a known size: marker bit plus value, big-endian.
pub open spec fn enc_size(v: nat) -> Seq<u8> {
    be_bytes(pow128(size_len(v)) + v, size_len(v))
}

/// Size-field length read off its first byte; 0 for the byte 0x00, which
/// would announce a length beyond 8 bytes.
pub open spec fn size_len_from_first(b0: u8) -> nat {
    if b0 >= 0x80 {
        1
    } else if b0 >= 0x40 {
        2
    } else if b0 >= 0x20 {
        3
    } else if b0 >= 0x10 {
        4
    } else if b0 >= 0x08 {
        5
    } else if b0 >= 0x04 {
        6
    } else if b0 >= 0x02 {
        7
    } else if b0 >= 0x01 {
        8
    } else {
        0
    }
}

/// The data bits of an n-byte size field whose raw big-endian value is w.
pub open spec fn size_data(w: nat, n: nat) -> int {
    w - pow128(n)
}

/// Facts tying the encoding of a known size to its decoding: length,
/// first-byte marker, and recovered value.
pub proof fn lemma_enc_size(v: nat)
    requires
        v <= size_max(),
    ensures
        enc_size(v).len() == size_len(v),
        1 <= size_len(v) <= 8,
        size_len_from_first(enc_size(v)[0]) == size_len(v),
        be_value(enc_size(v)) == pow128(size_len(v)) + v,
        v < pow128(size_len(v)) - 1,
{
    let n = size_len(v);
    let w = pow128(n) + v;
    lemma_pow_values();
    assert(w < pow256(n));
    lemma_be_bytes_len(w, n);
    lemma_be_value_of_bytes(w, n);
    lemma_be_bytes_first(w, n);
    let b0 = enc_size(v)[0];
    if n == 1 {
        assert(b0 == w);
    } else {
        let d = pow256((n - 1) as nat);
        assert(b0 == w / d);
        let lo: int = if n == 2 {
            0x40
        } else if n == 3 {
            0x20
        } else if n == 4 {
            0x10
        } else if n == 5 {
            0x08
        } else if n == 6 {
            0x04
        } else if n == 7 {
            0x02
        } else {
            0x01
        };
        assert(pow128(n) == lo * d);
        assert(lo <= w / d < 2 * lo) by {
            lemma_div_multiples_vanish(lo, d as int);
            lemma_div_is_ordered(lo * d, w as int, d as int);
            lemma_multiply_divide_lt(w as int, d as int, 2 * lo);
        }
    }
}

// ---------------------------------------------------------------------
// Executable encoders and decoders for the shared big-endian core
// ---------------------------------------------------------------------

/// Append the n-byte big-endian representation of v.
pub fn write_be(out: &mut Vec<u8>, v: u64, n: usize)
    ensures
        final(out)@ == old(out)@ + be_bytes(v as nat, n as nat),
    decreases n,
{
    if n == 0 {
        assert(out@ =~= old(out)@ + be_bytes(v as nat, 0));
    } else {
        write_be(out, v / 256, n - 1);
        out.push((v % 256) as u8);
        assert(out@ =~= old(out)@ + be_bytes(v as nat, n as nat));
    }
}

/// Read n bytes big-endian starting at pos.
pub fn read_be(data: &Vec<u8>, pos: usize, n: usize) -> (r: u64)
    requires
        pos + n <= data@.len(),
        n <= 8,
    ensures
        r as nat == be_value(data@.subrange(pos as int, pos + n)),
{
    let dlen: usize = data.len();
    let mut acc: u64 = 0;
    let mut i: usize = 0;
    assert(data@.subrange(pos as int, pos as int) =~= Seq::<u8>::empty());
    while i < n
        invariant
            i <= n,
            n <= 8,
            pos + n <= dlen,
            dlen == data@.len(),
            acc as nat == be_value(data@.subrange(pos as int, pos + i)),
            (acc as nat) < pow256(i as nat),
        decreases n - i,
    {
        proof {
            let pre = data@.subrange(pos as int, pos + i);
            let post = data@.subrange(pos as int, pos + i + 1);
            assert(post.drop_last() =~= pre);
            assert(post.last() == data@[pos + i]);
            lemma_pow_values();
                    assert(pow256(i as nat) <= pow256(7)) by {
                lemma_pow256_increases(i as nat, 7);
            }
        }
        acc = acc * 256 + (data[pos + i] as u64);
        i = i + 1;
    }
    acc
}

pub proof fn lemma_pow256_increases(a: nat, b: nat)
    requires
        a <= b,
    ensures
        pow256(a) <= pow256(b),
    decreases b,
{
    if a < b {
        lemma_pow256_increases(a, (b - 1) as nat);
        assert(pow256(b) == 256 * pow256((b - 1) as nat));
    }
}

/// Byte length of the minimal big-endian representation of v.
pub fn uint_len_exec(v: u64) -> (n: usize)
    ensures
        n as nat == uint_len(v as nat),
        1 <= n <= 8,
{
    if v < 0x100 {
        1
    } else if v < 0x1_0000 {
        2
    } else if v < 0x100_0000 {
        3
    } else if v < 0x1_0000_0000 {
        4
    } else if v < 0x100_0000_0000 {
        5
    } else if v < 0x1_0000_0000_0000 {
        6
    } else if v < 0x100_0000_0000_0000 {
        7
    } else {
        8
    }
}

/// Append the minimal big-endian encoding of an unsigned scalar payload.
pub fn write_uint(out: &mut Vec<u8>, v: u64)
    ensures
        final(out)@ == old(out)@ + enc_uint(v as nat),
{
    let n = uint_len_exec(v);
    write_be(out, v, n);
}

/// Append the encoding of an identifier.
pub fn write_id(out: &mut Vec<u8>, id: u32)
    requires
        id_valid(id),
    ensures
        final(out)@ == old(out)@ + enc_id(id),
{
    let n: usize = if id <= 0xFF {
        1
    } else if id <= 0x7FFF {
        2
    } else if id <= 0x3F_FFFF {
        3
    } else {
        4
    };
    write_be(out, id as u64, n);
}

/// Append the encoding of a known size.
pub fn write_size(out: &mut Vec<u8>, v: u64)
    requires
        v as nat <= size_max(),
    ensures
        final(out)@ == old(out)@ + enc_size(v as nat),
{
    let n: usize = size_len_exec(v);
    let marker: u64 = if n == 1 {
        0x80
    } else if n == 2 {
        0x4000
    } else if n == 3 {
        0x20_0000
    } else if n == 4 {
        0x1000_0000
    } else if n == 5 {
        0x8_0000_0000
    } else if n == 6 {
        0x400_0000_0000
    } else if n == 7 {
        0x2_0000_0000_0000
    } else {
        0x100_0000_0000_0000
    };
    proof {
        lemma_pow_values();
        assert(marker as nat == pow128(n as nat));
    }
    write_be(out, marker + v, n);
}


/// Byte length of a size field holding v.
pub fn size_len_exec(v: u64) -> (n: usize)
    ensures
        n as nat == size_len(v as nat),
        1 <= n <= 8,
{
    if v < 0x7F {
        1
    } else if v < 0x3FFF {
        2
    } else if v < 0x1F_FFFF {
        3
    } else if v < 0xFFF_FFFF {
        4
    } else if v < 0x7_FFFF_FFFF {
        5
    } else if v < 0x3FF_FFFF_FFFF {
        6
    } else if v < 0x1_FFFF_FFFF_FFFF {
        7
    } else {
        8
    }
}

/// A larger value never has a shorter minimal representation.
pub proof fn lemma_uint_len_mono(a: nat, b: nat)
    requires
        a <= b,
    ensures
        uint_len(a) <= uint_len(b),
{
}

/// A larger value never has a shorter size field.
pub proof fn lemma_size_len_mono(a: nat, b: nat)
    requires
        a <= b,
    ensures
        size_len(a) <= size_len(b),
{
}

} // verus!

