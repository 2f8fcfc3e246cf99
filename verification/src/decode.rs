//! Decoding byte ranges back into element trees.
//!
//! `spec_decode_elem` is the mathematical reading of one element at a
//! position; the executable decoder is proved to follow it exactly, and
//! `lemma_decode_of_enc_elem` proves that decoding inverts the encoder.
//!
//! Unknown identifiers are tolerated, never errors: a payload that itself
//! parses cleanly as a run of elements is walked as an unregistered master
//! element, anything else surfaces as an opaque scalar. A declared size of
//! zero parses as present with an empty payload; a declared size that runs
//! past the enclosure is a `TruncatedElement`.

use vstd::prelude::*;

verus! {

use crate::codec::{read_header, spec_read_header, ElementSize, ParseError};
use crate::element::{
    children_valid,
    events_of,
    elem_valid,
    enc_children,
    enc_elem,
    lemma_models_push,
    models,
    Element,
    SpecElement,
};
use crate::schema::{kind_of, spec_kind_of, ElementKind};
use crate::vint::{
    be_value,
    enc_id,
    enc_size,
    enc_uint,
    id_len,
    id_valid,
    lemma_be_bytes_len,
    lemma_be_value_bound,
    lemma_be_value_of_bytes,
    lemma_enc_size,
    lemma_pow_values,
    lemma_pow256_increases,
    lemma_uint_len,
    read_be,
    size_len,
    size_max,
    uint_len,
};

/// The mathematical reading of one element at `pos`, bounded by `limit`.
pub open spec fn spec_decode_elem(s: Seq<u8>, pos: nat, limit: nat) -> Result<
    (SpecElement, nat),
    ParseError,
>
    decreases limit - pos, 1nat,
{
    match spec_read_header(s, pos, limit) {
        Err(e) => Err(e),
        Ok((id, size, p2)) => {
            let end = match size {
                ElementSize::Known(n) => p2 + n as nat,
                ElementSize::Unknown => limit,
            };
            if end > limit || end < p2 {
                Err(ParseError::TruncatedElement)
            } else {
                match spec_kind_of(id) {
                    Some(ElementKind::UInt) => if end - p2 > 8 {
                        Err(ParseError::MalformedTag)
                    } else {
                        Ok(
                            (
                                SpecElement::UInt {
                                    id,
                                    value: be_value(s.subrange(p2 as int, end as int)) as u64,
                                },
                                end,
                            ),
                        )
                    },
                    Some(ElementKind::Text) => Ok(
                        (SpecElement::Bytes { id, data: s.subrange(p2 as int, end as int) }, end),
                    ),
                    Some(ElementKind::Binary) => Ok(
                        (SpecElement::Bytes { id, data: s.subrange(p2 as int, end as int) }, end),
                    ),
                    Some(ElementKind::Master) => match spec_decode_children(s, p2, end) {
                        Ok(cs) => Ok((SpecElement::Master { id, children: cs }, end)),
                        Err(e) => Err(e),
                    },
                    None => match spec_decode_children(s, p2, end) {
                        Ok(cs) => Ok((SpecElement::Master { id, children: cs }, end)),
                        Err(_) => Ok(
                            (
                                SpecElement::Bytes { id, data: s.subrange(p2 as int, end as int) },
                                end,
                            ),
                        ),
                    },
                }
            }
        },
    }
}

/// The mathematical reading of a run of sibling elements filling
/// `pos .. limit` exactly.
pub open spec fn spec_decode_children(s: Seq<u8>, pos: nat, limit: nat) -> Result<
    Seq<SpecElement>,
    ParseError,
>
    decreases limit - pos, 2nat,
{
    if pos >= limit {
        Ok(Seq::empty())
    } else {
        match spec_decode_elem(s, pos, limit) {
            Err(e) => Err(e),
            Ok((e, p)) => if p <= pos || p > limit {
                Err(ParseError::MalformedTag)
            } else {
                match spec_decode_children(s, p, limit) {
                    Err(er) => Err(er),
                    Ok(rest) => Ok(seq![e] + rest),
                }
            },
        }
    }
}

/// A successful element read always advances by at least the header and
/// stays within the limit.
pub proof fn lemma_decode_elem_progress(s: Seq<u8>, pos: nat, limit: nat)
    ensures
        spec_decode_elem(s, pos, limit) matches Ok((e, p)) ==> pos + 2 <= p <= limit,
{
    crate::codec::lemma_read_header_progress(s, pos, limit);
}

/// Copy the byte range `lo .. hi` out of `data`.
pub fn copy_range(data: &Vec<u8>, lo: usize, hi: usize) -> (r: Vec<u8>)
    requires
        lo <= hi <= data@.len(),
    ensures
        r@ == data@.subrange(lo as int, hi as int),
{
    let mut r: Vec<u8> = Vec::new();
    let mut j: usize = lo;
    assert(r@ =~= data@.subrange(lo as int, lo as int));
    while j < hi
        invariant
            lo <= j <= hi <= data@.len(),
            r@ == data@.subrange(lo as int, j as int),
        decreases hi - j,
    {
        r.push(data[j]);
        assert(r@ =~= data@.subrange(lo as int, j + 1));
        j = j + 1;
    }
    r
}

/// Decode one element at `pos`, bounded by `limit`.
pub fn decode_elem(data: &Vec<u8>, pos: usize, limit: usize) -> (r: Result<
    (Element, usize),
    ParseError,
>)
    requires
        limit <= data@.len(),
    ensures
        match r {
            Ok((e, p)) => spec_decode_elem(data@, pos as nat, limit as nat) == Ok::<_, ParseError>(
                ((e.model(), p as nat)),
            ) && pos + 2 <= p <= limit,
            Err(er) => spec_decode_elem(data@, pos as nat, limit as nat) == Err::<
                (SpecElement, nat),
                _,
            >(er),
        },
    decreases limit - pos, 1int,
{
    let (id, size, p2) = match read_header(data, pos, limit) {
        Ok(t) => t,
        Err(e) => {
            return Err(e);
        },
    };
    let end: usize = match size {
        ElementSize::Known(n) => {
            if n > (limit - p2) as u64 {
                return Err(ParseError::TruncatedElement);
            }
            p2 + (n as usize)
        },
        ElementSize::Unknown => limit,
    };
    match kind_of(id) {
        Some(ElementKind::UInt) => {
            if end - p2 > 8 {
                return Err(ParseError::MalformedTag);
            }
            let v = read_be(data, p2, end - p2);
            proof {
                lemma_be_value_bound(data@.subrange(p2 as int, end as int));
                lemma_pow256_increases((end - p2) as nat, 8);
                lemma_pow_values();
            }
            Ok((Element::UInt { id, value: v }, end))
        },
        Some(ElementKind::Text) => {
            let d = copy_range(data, p2, end);
            Ok((Element::Bytes { id, data: d }, end))
        },
        Some(ElementKind::Binary) => {
            let d = copy_range(data, p2, end);
            Ok((Element::Bytes { id, data: d }, end))
        },
        Some(ElementKind::Master) => {
            match decode_children(data, p2, end) {
                Ok(cs) => Ok((Element::Master { id, children: cs }, end)),
                Err(e) => Err(e),
            }
        },
        None => {
            match decode_children(data, p2, end) {
                Ok(cs) => Ok((Element::Master { id, children: cs }, end)),
                Err(_) => {
                    let d = copy_range(data, p2, end);
                    Ok((Element::Bytes { id, data: d }, end))
                },
            }
        },
    }
}

/// Decode the run of sibling elements filling `pos .. limit`.
pub fn decode_children(data: &Vec<u8>, pos: usize, limit: usize) -> (r: Result<
    Vec<Element>,
    ParseError,
>)
    requires
        limit <= data@.len(),
    ensures
        match r {
            Ok(cs) => spec_decode_children(data@, pos as nat, limit as nat) == Ok::<_, ParseError>(
                models(cs@),
            ),
            Err(e) => spec_decode_children(data@, pos as nat, limit as nat) == Err::<
                Seq<SpecElement>,
                _,
            >(e),
        },
    decreases limit - pos, 2int,
{
    let mut cs: Vec<Element> = Vec::new();
    let mut cur: usize = pos;
    proof {
        assert(models(cs@) =~= Seq::<SpecElement>::empty());
        match spec_decode_children(data@, pos as nat, limit as nat) {
            Ok(rest) => {
                assert(models(cs@) + rest =~= rest);
            },
            Err(_) => {},
        }
    }
    while cur < limit
        invariant
            limit <= data@.len(),
            pos <= cur,
            spec_decode_children(data@, cur as nat, limit as nat) matches Ok(rest) ==>
                spec_decode_children(data@, pos as nat, limit as nat) == Ok::<_, ParseError>(
                    models(cs@) + rest,
                ),
            spec_decode_children(data@, cur as nat, limit as nat) matches Err(e) ==>
                spec_decode_children(data@, pos as nat, limit as nat) == Err::<
                    Seq<SpecElement>,
                    _,
                >(e),
        decreases limit - cur,
    {
        match decode_elem(data, cur, limit) {
            Err(e) => {
                return Err(e);
            },
            Ok((e, p)) => {
                proof {
                    lemma_models_push(cs@, e);
                    let rest0 = spec_decode_children(data@, cur as nat, limit as nat);
                    let tail = spec_decode_children(data@, p as nat, limit as nat);
                    match tail {
                        Ok(t) => {
                            assert(rest0 == Ok::<_, ParseError>(seq![e.model()] + t));
                            assert(models(cs@) + (seq![e.model()] + t) =~= models(cs@.push(e))
                                + t);
                        },
                        Err(_) => {},
                    }
                }
                cs.push(e);
                cur = p;
            },
        }
    }
    proof {
        assert(spec_decode_children(data@, cur as nat, limit as nat) == Ok::<_, ParseError>(
            Seq::<SpecElement>::empty(),
        ));
        assert(models(cs@) + Seq::<SpecElement>::empty() =~= models(cs@));
    }
    Ok(cs)
}


/// A writable element encodes to at least its two header bytes.
pub proof fn lemma_enc_elem_min(e: SpecElement)
    requires
        elem_valid(e),
    ensures
        enc_elem(e).len() >= 2,
{
    let id = e.id();
    crate::vint::lemma_be_bytes_len(id as nat, id_len(id));
    match e {
        SpecElement::UInt { id, value } => {
            let l = uint_len(value as nat);
            lemma_enc_size(l);
        },
        SpecElement::Bytes { id, data } => {
            lemma_enc_size(data.len());
        },
        SpecElement::Master { id, children } => {
            lemma_enc_size(enc_children(children).len());
        },
    }
}

/// Decoding inverts encoding, one element at a time: wherever a writable
/// element's encoding sits in a stream, decoding there yields that element
/// and stops exactly at its last byte.
pub proof fn lemma_decode_of_enc_elem(e: SpecElement, s: Seq<u8>, pos: nat, limit: nat)
    requires
        elem_valid(e),
        pos + enc_elem(e).len() <= limit <= s.len(),
        s.subrange(pos as int, (pos + enc_elem(e).len()) as int) == enc_elem(e),
    ensures
        spec_decode_elem(s, pos, limit) == Ok::<_, ParseError>(
            (e, (pos + enc_elem(e).len()) as nat),
        ),
    decreases e,
{
    let te = enc_elem(e);
    let id = e.id();
    let a = enc_id(id);
    let lp: nat = match e {
        SpecElement::UInt { value, .. } => uint_len(value as nat),
        SpecElement::Bytes { data, .. } => data.len(),
        SpecElement::Master { children, .. } => enc_children(children).len(),
    };
    let b = enc_size(lp);
    let c: Seq<u8> = match e {
        SpecElement::UInt { value, .. } => enc_uint(value as nat),
        SpecElement::Bytes { data, .. } => data,
        SpecElement::Master { children, .. } => enc_children(children),
    };
    assert(te == a + b + c);
    assert(id_valid(id));
    crate::vint::lemma_be_bytes_len(id as nat, id_len(id));
    assert(a.len() == id_len(id));
    match e {
        SpecElement::UInt { value, .. } => {
            lemma_uint_len(value);
            crate::vint::lemma_be_bytes_len(value as nat, uint_len(value as nat));
        },
        SpecElement::Bytes { .. } => {},
        SpecElement::Master { .. } => {},
    }
    assert(c.len() == lp);
    assert(lp <= size_max()) by {
        lemma_pow_values();
    }
    lemma_enc_size(lp);
    assert(b.len() == size_len(lp));
    let p1 = pos + a.len();
    let p2 = p1 + b.len();
    let end = p2 + lp;
    assert(end == pos + te.len());
    assert(s.subrange(pos as int, p1 as int) =~= a) by {
        assert forall|j: int| 0 <= j < a.len() implies s.subrange(pos as int, p1 as int)[j] == a[j] by {
            assert(te[j] == s.subrange(pos as int, (pos + te.len()) as int)[j]);
            assert(te[j] == a[j]);
        }
    }
    assert(s.subrange(p1 as int, p2 as int) =~= b) by {
        assert forall|j: int| 0 <= j < b.len() implies s.subrange(p1 as int, p2 as int)[j] == b[j] by {
            let k = p1 - pos + j;
            assert(te[k] == s.subrange(pos as int, (pos + te.len()) as int)[k]);
            assert(te[k] == b[j]);
        }
    }
    assert(s.subrange(p2 as int, end as int) =~= c) by {
        assert forall|j: int| 0 <= j < c.len() implies s.subrange(p2 as int, end as int)[j] == c[j] by {
            let k = p2 - pos + j;
            assert(te[k] == s.subrange(pos as int, (pos + te.len()) as int)[k]);
            assert(te[k] == c[j]);
        }
    }
    crate::codec::lemma_read_id_of_enc(id, s, pos, limit);
    crate::codec::lemma_read_size_of_enc(lp, s, p1, limit);
    assert(spec_read_header(s, pos, limit) == Ok::<_, ParseError>(
        (id, ElementSize::Known(lp as u64), p2),
    ));
    match e {
        SpecElement::UInt { value, .. } => {
            assert(spec_kind_of(id) == Some(ElementKind::UInt));
            assert(end - p2 == uint_len(value as nat) <= 8);
            lemma_be_value_of_bytes(value as nat, uint_len(value as nat));
            assert(be_value(s.subrange(p2 as int, end as int)) == value as nat);
        },
        SpecElement::Bytes { data, .. } => {
            assert(s.subrange(p2 as int, end as int) == data);
        },
        SpecElement::Master { children, .. } => {
            lemma_decode_of_enc_children(children, s, p2, end);
        },
    }
}

/// Decoding inverts encoding for a run of siblings filling a range exactly.
pub proof fn lemma_decode_of_enc_children(cs: Seq<SpecElement>, s: Seq<u8>, pos: nat, limit: nat)
    requires
        children_valid(cs),
        pos + enc_children(cs).len() == limit <= s.len(),
        s.subrange(pos as int, limit as int) == enc_children(cs),
    ensures
        spec_decode_children(s, pos, limit) == Ok::<_, ParseError>(cs),
    decreases cs,
{
    if cs.len() == 0 {
        assert(pos == limit);
        assert(cs =~= Seq::<SpecElement>::empty());
    } else {
        let e0 = cs[0];
        let rest = cs.subrange(1, cs.len() as int);
        assert(enc_children(cs) == enc_elem(e0) + enc_children(rest));
        let l0 = enc_elem(e0).len();
        assert(elem_valid(e0));
        lemma_enc_elem_min(e0);
        let tc = enc_children(cs);
        assert(s.subrange(pos as int, (pos + l0) as int) =~= enc_elem(e0)) by {
            assert forall|j: int| 0 <= j < l0 implies s.subrange(pos as int, (pos + l0) as int)[j]
                == enc_elem(e0)[j] by {
                assert(tc[j] == s.subrange(pos as int, limit as int)[j]);
                assert(tc[j] == enc_elem(e0)[j]);
            }
        }
        lemma_decode_of_enc_elem(e0, s, pos, limit);
        let p = pos + l0;
        assert(s.subrange(p as int, limit as int) =~= enc_children(rest)) by {
            assert forall|j: int| 0 <= j < enc_children(rest).len() implies s.subrange(
                p as int,
                limit as int,
            )[j] == enc_children(rest)[j] by {
                let k = l0 + j;
                assert(tc[k] == s.subrange(pos as int, limit as int)[k]);
                assert(tc[k] == enc_children(rest)[j]);
            }
        }
        lemma_decode_of_enc_children(rest, s, p, limit);
        assert(spec_decode_children(s, pos, limit) == Ok::<_, ParseError>(seq![e0] + rest));
        assert(seq![e0] + rest =~= cs);
    }
}

/// Round trip: parsing a serialized element yields the element back, so
/// the flattened depth-first event sequence of what the parser reports
/// equals that of the document that was written.
pub proof fn lemma_round_trip(e: SpecElement)
    requires
        elem_valid(e),
    ensures
        spec_decode_elem(enc_elem(e), 0, enc_elem(e).len()) == Ok::<_, ParseError>(
            (e, enc_elem(e).len()),
        ),
        spec_decode_elem(enc_elem(e), 0, enc_elem(e).len()) matches Ok((d, _)) && events_of(d)
            == events_of(e),
{
    let bytes = enc_elem(e);
    assert(bytes.subrange(0, bytes.len() as int) =~= bytes);
    lemma_decode_of_enc_elem(e, bytes, 0, bytes.len());
}


/// Unknown-element tolerance: a master element with an unregistered
/// identifier, holding arbitrary well-formed children, can stand anywhere
/// in a run of known siblings without changing their parse results: the
/// spliced run decodes as a whole, the foreign element surfaces as a
/// walked master, and the siblings on either side decode to the same trees
/// as before.
pub proof fn lemma_unknown_element_tolerance(
    pre: Seq<SpecElement>,
    f: SpecElement,
    post: Seq<SpecElement>,
)
    requires
        children_valid(pre),
        children_valid(post),
        elem_valid(f),
        f is Master,
        spec_kind_of(f.id()) is None,
    ensures
        spec_decode_children(
            enc_children(pre + seq![f] + post),
            0,
            enc_children(pre + seq![f] + post).len(),
        ) == Ok::<_, ParseError>(pre + seq![f] + post),
{
    let all = pre + seq![f] + post;
    assert forall|i: int| 0 <= i < all.len() implies elem_valid(#[trigger] all[i]) by {
        if i < pre.len() {
            assert(all[i] == pre[i]);
        } else if i == pre.len() {
            assert(all[i] == f);
        } else {
            assert(all[i] == post[i - pre.len() - 1]);
        }
    }
    let bytes = enc_children(all);
    assert(bytes.subrange(0, bytes.len() as int) =~= bytes);
    lemma_decode_of_enc_children(all, bytes, 0, bytes.len());
}


/// Wherever a writable element's encoding sits, reading a header there
/// yields its identifier and payload size.
pub proof fn lemma_read_header_of_enc(e: SpecElement, s: Seq<u8>, pos: nat, limit: nat)
    requires
        elem_valid(e),
        pos + enc_elem(e).len() <= limit <= s.len(),
        s.subrange(pos as int, (pos + enc_elem(e).len()) as int) == enc_elem(e),
    ensures
        spec_read_header(s, pos, limit) == Ok::<_, ParseError>(
            (
                e.id(),
                ElementSize::Known(crate::element::plen(e) as u64),
                pos + id_len(e.id()) + size_len(crate::element::plen(e)),
            ),
        ),
{
    let te = enc_elem(e);
    let id = e.id();
    let a = enc_id(id);
    let lp = crate::element::plen(e);
    let b = enc_size(lp);
    let c: Seq<u8> = match e {
        SpecElement::UInt { value, .. } => enc_uint(value as nat),
        SpecElement::Bytes { data, .. } => data,
        SpecElement::Master { children, .. } => enc_children(children),
    };
    assert(te == a + b + c);
    assert(id_valid(id));
    crate::vint::lemma_be_bytes_len(id as nat, id_len(id));
    match e {
        SpecElement::UInt { value, .. } => {
            lemma_uint_len(value);
            crate::vint::lemma_be_bytes_len(value as nat, uint_len(value as nat));
        },
        SpecElement::Bytes { .. } => {},
        SpecElement::Master { .. } => {},
    }
    assert(c.len() == lp);
    assert(lp <= size_max()) by {
        lemma_pow_values();
    }
    lemma_enc_size(lp);
    let p1 = pos + a.len();
    let p2 = p1 + b.len();
    assert(s.subrange(pos as int, p1 as int) =~= a) by {
        assert forall|j: int| 0 <= j < a.len() implies s.subrange(pos as int, p1 as int)[j] == a[j] by {
            assert(te[j] == s.subrange(pos as int, (pos + te.len()) as int)[j]);
            assert(te[j] == a[j]);
        }
    }
    assert(s.subrange(p1 as int, p2 as int) =~= b) by {
        assert forall|j: int| 0 <= j < b.len() implies s.subrange(p1 as int, p2 as int)[j] == b[j] by {
            let k = p1 - pos + j;
            assert(te[k] == s.subrange(pos as int, (pos + te.len()) as int)[k]);
            assert(te[k] == b[j]);
        }
    }
    crate::codec::lemma_read_id_of_enc(id, s, pos, limit);
    crate::codec::lemma_read_size_of_enc(lp, s, p1, limit);
}


/// Size-boundary, first half: an element declaring size zero parses as
/// present with an empty payload — a decoded element, not an absence.
pub proof fn lemma_size_zero_present(id: u32)
    requires
        spec_kind_of(id) == Some(ElementKind::Text) || spec_kind_of(id) == Some(
            ElementKind::Binary,
        ),
    ensures
        ({
            let e = SpecElement::Bytes { id, data: Seq::empty() };
            spec_decode_elem(enc_elem(e), 0, enc_elem(e).len()) == Ok::<_, ParseError>(
                (e, enc_elem(e).len()),
            )
        }),
{
    let e = SpecElement::Bytes { id, data: Seq::empty() };
    lemma_pow_values();
    lemma_round_trip(e);
}

/// Size-boundary, second half: a declared size that exceeds the
/// remaining stream yields `TruncatedElement`; nothing past the end is
/// read.
pub proof fn lemma_oversize_truncated(s: Seq<u8>, pos: nat, limit: nat)
    requires
        spec_read_header(s, pos, limit) matches Ok((id, size, p2)) && size matches
            ElementSize::Known(n) && p2 + n > limit,
    ensures
        spec_decode_elem(s, pos, limit) == Err::<(SpecElement, nat), _>(
            ParseError::TruncatedElement,
        ),
{
}

} // verus!



