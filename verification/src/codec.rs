//! The tag codec: one element header at a time.
//!
//! An element is encoded as identifier, then size, then payload. The codec
//! reads and writes the identifier and size fields and leaves the payload to
//! its callers: scalars take it literally, master elements hand the bounded
//! sub-range to the parser. The reserved all-ones size pattern decodes as
//! "size unknown"; this format's writer never produces it, but the reader
//! tolerates it by letting the element run to the end of its enclosure.

use vstd::prelude::*;

verus! {

use crate::vint::{
    be_value,
    enc_id,
    enc_size,
    id_len,
    id_len_from_first,
    id_valid,
    lemma_be_value_bound,
    lemma_enc_id_first,
    lemma_enc_size,
    lemma_pow_values,
    pow128,
    pow256,
    read_be,
    size_len,
    size_len_from_first,
    size_max,
    write_id,
    write_size,
};

/// Why a byte range does not decode.
#[derive(Clone, Copy, Debug, PartialEq, Eq, Structural)]
pub enum ParseError {
    /// An identifier or size field is not decodable, or a scalar payload
    /// breaks the registry's length rules.
    MalformedTag,
    /// The stream ends inside an identifier or size field.
    UnexpectedEof,
    /// A declared size runs past the end of the enclosing range.
    TruncatedElement,
}

/// A decoded size field.
#[derive(Clone, Copy, Debug, PartialEq, Eq, Structural)]
pub enum ElementSize {
    /// An ordinary size in bytes.
    Known(u64),
    /// The reserved pattern: the element runs to the end of its enclosure.
    Unknown,
}

/// What reading an identifier at `pos` (bounded by `limit`) yields: the
/// identifier and the position just past it.
pub open spec fn spec_read_id(s: Seq<u8>, pos: nat, limit: nat) -> Result<
    (u32, nat),
    ParseError,
> {
    if pos >= limit || limit > s.len() {
        Err(ParseError::UnexpectedEof)
    } else {
        let n = id_len_from_first(s[pos as int]);
        if n == 0 {
            Err(ParseError::MalformedTag)
        } else if pos + n > limit {
            Err(ParseError::UnexpectedEof)
        } else {
            Ok((be_value(s.subrange(pos as int, (pos + n) as int)) as u32, (pos + n) as nat))
        }
    }
}

/// What reading a size field at `pos` yields: the size and the position
/// just past the field.
pub open spec fn spec_read_size(s: Seq<u8>, pos: nat, limit: nat) -> Result<
    (ElementSize, nat),
    ParseError,
> {
    if pos >= limit || limit > s.len() {
        Err(ParseError::UnexpectedEof)
    } else {
        let n = size_len_from_first(s[pos as int]);
        if n == 0 {
            Err(ParseError::MalformedTag)
        } else if pos + n > limit {
            Err(ParseError::UnexpectedEof)
        } else {
            let w = be_value(s.subrange(pos as int, (pos + n) as int));
            let data = w - pow128(n);
            if data == pow128(n) - 1 {
                Ok((ElementSize::Unknown, (pos + n) as nat))
            } else {
                Ok((ElementSize::Known(data as u64), (pos + n) as nat))
            }
        }
    }
}

/// What reading a whole element header (identifier, then size) yields.
pub open spec fn spec_read_header(s: Seq<u8>, pos: nat, limit: nat) -> Result<
    (u32, ElementSize, nat),
    ParseError,
> {
    match spec_read_id(s, pos, limit) {
        Err(e) => Err(e),
        Ok((id, p1)) => match spec_read_size(s, p1, limit) {
            Err(e) => Err(e),
            Ok((size, p2)) => Ok((id, size, p2)),
        },
    }
}

/// A successful header read always advances by at least two bytes and stays
/// within the limit.
pub proof fn lemma_read_header_progress(s: Seq<u8>, pos: nat, limit: nat)
    ensures
        spec_read_header(s, pos, limit) matches Ok((id, size, p2)) ==> pos + 2 <= p2 <= limit
            && limit <= s.len(),
{
}

/// Reading an encoded identifier recovers it.
pub proof fn lemma_read_id_of_enc(id: u32, s: Seq<u8>, pos: nat, limit: nat)
    requires
        id_valid(id),
        pos + id_len(id) <= limit <= s.len(),
        s.subrange(pos as int, (pos + id_len(id)) as int) == enc_id(id),
    ensures
        spec_read_id(s, pos, limit) == Ok::<_, ParseError>((id, (pos + id_len(id)) as nat)),
{
    lemma_enc_id_first(id);
    lemma_pow_values();
    let n = id_len(id);
    assert(s[pos as int] == enc_id(id)[0]);
    assert(id_len_from_first(s[pos as int]) == n);
    let sub = s.subrange(pos as int, (pos + n) as int);
    assert(be_value(sub) == id as nat);
}

/// Reading an encoded known size recovers it.
pub proof fn lemma_read_size_of_enc(v: nat, s: Seq<u8>, pos: nat, limit: nat)
    requires
        v <= size_max(),
        pos + size_len(v) <= limit <= s.len(),
        s.subrange(pos as int, (pos + size_len(v)) as int) == enc_size(v),
    ensures
        spec_read_size(s, pos, limit) == Ok::<_, ParseError>(
            (ElementSize::Known(v as u64), (pos + size_len(v)) as nat),
        ),
{
    lemma_enc_size(v);
    lemma_pow_values();
    let n = size_len(v);
    assert(s[pos as int] == enc_size(v)[0]);
    assert(size_len_from_first(s[pos as int]) == n);
    let sub = s.subrange(pos as int, (pos + n) as int);
    assert(be_value(sub) == pow128(n) + v);
}

/// Read an identifier field.
pub fn read_id(data: &Vec<u8>, pos: usize, limit: usize) -> (r: Result<(u32, usize), ParseError>)
    requires
        limit <= data@.len(),
    ensures
        match r {
            Ok((id, p)) => spec_read_id(data@, pos as nat, limit as nat) == Ok::<_, ParseError>(
                (id, p as nat),
            ) && pos < p <= limit,
            Err(e) => spec_read_id(data@, pos as nat, limit as nat) == Err::<(u32, nat), _>(e),
        },
{
    if pos >= limit {
        return Err(ParseError::UnexpectedEof);
    }
    let b0 = data[pos];
    let n: usize = if b0 >= 0x80 {
        1
    } else if b0 >= 0x40 {
        2
    } else if b0 >= 0x20 {
        3
    } else if b0 >= 0x10 {
        4
    } else {
        return Err(ParseError::MalformedTag);
    };
    if n > limit - pos {
        return Err(ParseError::UnexpectedEof);
    }
    let w = read_be(data, pos, n);
    proof {
        lemma_be_value_bound(data@.subrange(pos as int, (pos + n) as int));
        lemma_pow_values();
        crate::vint::lemma_pow256_increases(n as nat, 4);
    }
    Ok((w as u32, pos + n))
}

/// Read a size field.
pub fn read_size(data: &Vec<u8>, pos: usize, limit: usize) -> (r: Result<
    (ElementSize, usize),
    ParseError,
>)
    requires
        limit <= data@.len(),
    ensures
        match r {
            Ok((size, p)) => spec_read_size(data@, pos as nat, limit as nat) == Ok::<
                _,
                ParseError,
            >((size, p as nat)) && pos < p <= limit,
            Err(e) => spec_read_size(data@, pos as nat, limit as nat) == Err::<
                (ElementSize, nat),
                _,
            >(e),
        },
{
    if pos >= limit {
        return Err(ParseError::UnexpectedEof);
    }
    let b0 = data[pos];
    let n: usize = if b0 >= 0x80 {
        1
    } else if b0 >= 0x40 {
        2
    } else if b0 >= 0x20 {
        3
    } else if b0 >= 0x10 {
        4
    } else if b0 >= 0x08 {
        5
    } else if b0 >= 0x04 {
        6
    } else if b0 >= 0x02 {
        7
    } else if b0 >= 0x01 {
        8
    } else {
        return Err(ParseError::MalformedTag);
    };
    if n > limit - pos {
        return Err(ParseError::UnexpectedEof);
    }
    let w = read_be(data, pos, n);
    let marker: u64 = if n == 1 {
        0x80
    } else if n == 2 {
        0x4000
    } else if n == 3 {
        0x20_0000
    } else if n == 4 {
        0x1000_0000
    } else if n == 5 {
        0x8_0000_0000
    } else if n == 6 {
        0x400_0000_0000
    } else if n == 7 {
        0x2_0000_0000_0000
    } else {
        0x100_0000_0000_0000
    };
    proof {
        lemma_pow_values();
        assert(marker as nat == pow128(n as nat));
        lemma_be_value_bound(data@.subrange(pos as int, (pos + n) as int));
        crate::vint::lemma_pow256_increases(n as nat, 8);
        lemma_be_first_ge_marker(data@, pos as nat, n as nat);
    }
    let d = w - marker;
    if d == marker - 1 {
        Ok((ElementSize::Unknown, pos + n))
    } else {
        Ok((ElementSize::Known(d), pos + n))
    }
}

/// A size field's raw value is at least its marker: the first byte alone
/// puts it there.
proof fn lemma_be_first_ge_marker(s: Seq<u8>, pos: nat, n: nat)
    requires
        1 <= n <= 8,
        pos + n <= s.len(),
        size_len_from_first(s[pos as int]) == n,
    ensures
        be_value(s.subrange(pos as int, (pos + n) as int)) >= pow128(n),
    decreases n,
{
    let sub = s.subrange(pos as int, (pos + n) as int);
    lemma_be_first_times(sub);
    lemma_pow_values();
    let b0 = sub[0];
    assert(b0 == s[pos as int]);
    assert(be_value(sub) >= b0 as nat * pow256((n - 1) as nat));
    if n == 1 {
        assert(b0 >= 0x80);
    } else if n == 2 {
        assert(b0 >= 0x40);
        assert(b0 as nat * pow256(1) >= 0x40 * 0x100) by (nonlinear_arith)
            requires
                b0 >= 0x40,
                pow256(1) == 0x100,
        ;
    } else if n == 3 {
        assert(b0 as nat * pow256(2) >= 0x20 * 0x1_0000) by (nonlinear_arith)
            requires
                b0 >= 0x20,
                pow256(2) == 0x1_0000,
        ;
    } else if n == 4 {
        assert(b0 as nat * pow256(3) >= 0x10 * 0x100_0000) by (nonlinear_arith)
            requires
                b0 >= 0x10,
                pow256(3) == 0x100_0000,
        ;
    } else if n == 5 {
        assert(b0 as nat * pow256(4) >= 0x08 * 0x1_0000_0000) by (nonlinear_arith)
            requires
                b0 >= 0x08,
                pow256(4) == 0x1_0000_0000,
        ;
    } else if n == 6 {
        assert(b0 as nat * pow256(5) >= 0x04 * 0x100_0000_0000) by (nonlinear_arith)
            requires
                b0 >= 0x04,
                pow256(5) == 0x100_0000_0000,
        ;
    } else if n == 7 {
        assert(b0 as nat * pow256(6) >= 0x02 * 0x1_0000_0000_0000) by (nonlinear_arith)
            requires
                b0 >= 0x02,
                pow256(6) == 0x1_0000_0000_0000,
        ;
    } else {
        assert(b0 as nat * pow256(7) >= 1 * 0x100_0000_0000_0000) by (nonlinear_arith)
            requires
                b0 >= 0x01,
                pow256(7) == 0x100_0000_0000_0000,
        ;
    }
}

/// The value of a big-endian string is at least its first byte shifted into
/// place.
proof fn lemma_be_first_times(s: Seq<u8>)
    requires
        s.len() >= 1,
    ensures
        be_value(s) >= s[0] as nat * pow256((s.len() - 1) as nat),
    decreases s.len(),
{
    if s.len() == 1 {
        assert(s.drop_last().len() == 0);
        assert(be_value(s.drop_last()) == 0);
        assert(s.last() == s[0]);
        assert(pow256(0) == 1);
        assert(pow256((s.len() - 1) as nat) == 1);
        assert(be_value(s) == be_value(s.drop_last()) * 256 + s.last() as nat);
        assert(s[0] as nat * pow256((s.len() - 1) as nat) == s[0] as nat) by (nonlinear_arith)
            requires
                pow256((s.len() - 1) as nat) == 1,
        ;
        assert(be_value(s) >= s[0] as nat * pow256((s.len() - 1) as nat));
    } else {
        lemma_be_first_times(s.drop_last());
        assert(s.drop_last()[0] == s[0]);
        let k = (s.len() - 2) as nat;
        assert(be_value(s.drop_last()) >= s[0] as nat * pow256(k));
        assert(be_value(s) == be_value(s.drop_last()) * 256 + s.last() as nat);
        assert(be_value(s.drop_last()) * 256 >= (s[0] as nat * pow256(k)) * 256) by (
        nonlinear_arith)
            requires
                be_value(s.drop_last()) >= s[0] as nat * pow256(k),
        ;
        assert((s[0] as nat * pow256(k)) * 256 == s[0] as nat * (256 * pow256(k))) by (
        nonlinear_arith);
        assert(256 * pow256(k) == pow256((k + 1) as nat));
        assert(s[0] as nat * (256 * pow256(k)) == s[0] as nat * pow256((k + 1) as nat));
        assert((k + 1) as nat == (s.len() - 1) as nat);
        assert(be_value(s) >= s[0] as nat * pow256((s.len() - 1) as nat));
    }
}

/// Read an element header: identifier, then size.
pub fn read_header(data: &Vec<u8>, pos: usize, limit: usize) -> (r: Result<
    (u32, ElementSize, usize),
    ParseError,
>)
    requires
        limit <= data@.len(),
    ensures
        match r {
            Ok((id, size, p)) => spec_read_header(data@, pos as nat, limit as nat) == Ok::<
                _,
                ParseError,
            >((id, size, p as nat)) && pos + 2 <= p <= limit,
            Err(e) => spec_read_header(data@, pos as nat, limit as nat) == Err::<
                (u32, ElementSize, nat),
                _,
            >(e),
        },
{
    match read_id(data, pos, limit) {
        Err(e) => Err(e),
        Ok((id, p1)) => match read_size(data, p1, limit) {
            Err(e) => Err(e),
            Ok((size, p2)) => Ok((id, size, p2)),
        },
    }
}

/// Append an element header with a known payload size.
pub fn write_header(out: &mut Vec<u8>, id: u32, size: u64)
    requires
        id_valid(id),
        size as nat <= size_max(),
    ensures
        final(out)@ == old(out)@ + enc_id(id) + enc_size(size as nat),
{
    write_id(out, id);
    write_size(out, size);
}

} // verus!
