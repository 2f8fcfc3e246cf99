//! The properties that tie the writer and the reader together: every
//! index record of a written document points at the first identifier byte
//! of its entry, fetching through the index returns that entry on the
//! first attempt, and a document stripped of its index answers every
//! lookup identically through the linear scan.

use vstd::prelude::*;

verus! {

use crate::case::{
    case_shape_with,
    entries_of_children,
    entries_of_elem,
    is_indexable,
    payload_start,
    record_of,
    shift_rec,
    shift_recs,
    uid_of,
    uid_of_children,
    SpecEntry,
    SpecIndexRecord,
};
use crate::element::{
    children_valid,
    elem_valid,
    enc_children,
    enc_elem,
    SpecElement,
};
use crate::vint::{id_len, size_len};

/// Every entry of one element sits inside its encoding: the record's
/// position (relative to `base`) is the offset of the entry's own
/// encoding, and the record's fields are the entry's.
pub proof fn lemma_located_elem(e: SpecElement, base: nat, k: int)
    requires
        elem_valid(e),
        0 <= k < entries_of_elem(e, base).len(),
    ensures
        ({
            let es = entries_of_elem(e, base);
            &&& es[k].rec.position >= base
            &&& es[k].rec.position - base + enc_elem(es[k].elem).len() <= enc_elem(e).len()
            &&& enc_elem(e).subrange(
                es[k].rec.position - base,
                es[k].rec.position - base + enc_elem(es[k].elem).len(),
            ) == enc_elem(es[k].elem)
            &&& elem_valid(es[k].elem)
            &&& uid_of(es[k].elem) == Some(es[k].rec.uid)
            &&& es[k].elem.id() == es[k].rec.target_id
            &&& is_indexable(es[k].rec.target_id)
        }),
    decreases e,
{
    let es = entries_of_elem(e, base);
    match e {
        SpecElement::Master { id, children } => {
            if is_indexable(id) && uid_of_children(children) is Some {
                assert(k == 0);
                assert(es[0].elem == e && es[0].rec == record_of(e, base));
                assert(enc_elem(e).subrange(0, enc_elem(e).len() as int) =~= enc_elem(e));
            } else {
                let ps = payload_start(e);
                let inner = entries_of_children(children, base + ps);
                assert(es == inner);
                lemma_located_children(children, (base + ps) as nat, k);
                let te = enc_elem(e);
                let a = crate::vint::enc_id(id);
                let b = crate::vint::enc_size(enc_children(children).len());
                let c = enc_children(children);
                assert(te == a + b + c);
                crate::vint::lemma_be_bytes_len(id as nat, id_len(id));
                crate::vint::lemma_be_bytes_len(
                    crate::vint::pow128(size_len(c.len())) + c.len(),
                    size_len(c.len()),
                );
                assert(a.len() + b.len() == ps);
                assert(te.len() == ps + c.len());
                let p = es[k].rec.position;
                let l = enc_elem(es[k].elem).len();
                let x = p - (base + ps);
                assert(c.subrange(x, x + l) == enc_elem(es[k].elem));
                assert(te.subrange(p - base, p - base + l) =~= enc_elem(es[k].elem)) by {
                    assert forall|j: int| 0 <= j < l implies te.subrange(p - base, p - base + l)[j]
                        == enc_elem(es[k].elem)[j] by {
                        assert(te[ps + x + j] == c[x + j]);
                        assert(c.subrange(x, x + l)[j] == c[x + j]);
                    }
                }
            }
        },
        _ => {},
    }
}

/// Every entry of a run of siblings sits inside the run's encoding.
pub proof fn lemma_located_children(cs: Seq<SpecElement>, base: nat, k: int)
    requires
        children_valid(cs),
        0 <= k < entries_of_children(cs, base).len(),
    ensures
        ({
            let es = entries_of_children(cs, base);
            &&& es[k].rec.position >= base
            &&& es[k].rec.position - base + enc_elem(es[k].elem).len() <= enc_children(cs).len()
            &&& enc_children(cs).subrange(
                es[k].rec.position - base,
                es[k].rec.position - base + enc_elem(es[k].elem).len(),
            ) == enc_elem(es[k].elem)
            &&& elem_valid(es[k].elem)
            &&& uid_of(es[k].elem) == Some(es[k].rec.uid)
            &&& es[k].elem.id() == es[k].rec.target_id
            &&& is_indexable(es[k].rec.target_id)
        }),
    decreases cs,
{
    let es = entries_of_children(cs, base);
    let rest = cs.subrange(1, cs.len() as int);
    let first = entries_of_elem(cs[0], base);
    let l0 = enc_elem(cs[0]).len();
    let later = entries_of_children(rest, base + l0);
    assert(es == first + later);
    let tc = enc_children(cs);
    assert(tc == enc_elem(cs[0]) + enc_children(rest));
    assert(elem_valid(cs[0]));
    if k < first.len() {
        lemma_located_elem(cs[0], base, k);
        assert(es[k] == first[k]);
        let p = es[k].rec.position;
        let l = enc_elem(es[k].elem).len();
        assert(enc_elem(cs[0]).subrange(p - base, p - base + l) == enc_elem(es[k].elem));
        assert(tc.subrange(p - base, p - base + l) =~= enc_elem(es[k].elem)) by {
            assert forall|j: int| 0 <= j < l implies tc.subrange(p - base, p - base + l)[j]
                == enc_elem(es[k].elem)[j] by {
                assert(tc[p - base + j] == enc_elem(cs[0])[p - base + j]);
                assert(enc_elem(cs[0]).subrange(p - base, p - base + l)[j] == enc_elem(cs[0])[p
                    - base + j]);
            }
        }
    } else {
        assert(forall|i: int| 0 <= i < rest.len() ==> rest[i] == cs[i + 1]);
        assert(children_valid(rest)) by {
            assert forall|i: int| 0 <= i < rest.len() implies elem_valid(#[trigger] rest[i]) by {
                assert(rest[i] == cs[i + 1]);
            }
        }
        lemma_located_children(rest, (base + l0) as nat, k - first.len());
        assert(es[k] == later[k - first.len()]);
        let p = es[k].rec.position;
        let l = enc_elem(es[k].elem).len();
        let x = p - (base + l0);
        assert(enc_children(rest).subrange(x, x + l) == enc_elem(es[k].elem));
        assert(tc.subrange(p - base, p - base + l) =~= enc_elem(es[k].elem)) by {
            assert forall|j: int| 0 <= j < l implies tc.subrange(p - base, p - base + l)[j]
                == enc_elem(es[k].elem)[j] by {
                assert(tc[l0 + x + j] == enc_children(rest)[x + j]);
                assert(enc_children(rest).subrange(x, x + l)[j] == enc_children(rest)[x + j]);
            }
        }
    }
}


// ---------------------------------------------------------------------
// Subrange plumbing
// ---------------------------------------------------------------------

/// A concatenation splits into its two parts.
pub proof fn lemma_split_concat(s: Seq<u8>, a: Seq<u8>, b: Seq<u8>)
    requires
        s == a + b,
    ensures
        s.subrange(0, a.len() as int) == a,
        s.subrange(a.len() as int, s.len() as int) == b,
{
    assert(s.subrange(0, a.len() as int) =~= a);
    assert(s.subrange(a.len() as int, s.len() as int) =~= b);
}

/// A subrange of an embedded string is the same subrange of the whole.
pub proof fn lemma_subrange_nest(s: Seq<u8>, o: int, t: Seq<u8>, x: int, y: int)
    requires
        0 <= o,
        o + t.len() <= s.len(),
        s.subrange(o, o + t.len()) == t,
        0 <= x <= y <= t.len(),
    ensures
        s.subrange(o + x, o + y) == t.subrange(x, y),
{
    assert(s.subrange(o + x, o + y) =~= t.subrange(x, y)) by {
        assert forall|j: int| 0 <= j < y - x implies s.subrange(o + x, o + y)[j] == t.subrange(
            x,
            y,
        )[j] by {
            assert(t[x + j] == s.subrange(o, o + t.len())[x + j]);
        }
    }
}

// ---------------------------------------------------------------------
// Unique identifiers and the record table
// ---------------------------------------------------------------------

/// No two entries of a document share an `EntryUID`.
pub open spec fn uids_unique(es: Seq<SpecEntry>) -> bool {
    forall|i: int, j: int|
        0 <= i < j < es.len() ==> (#[trigger] es[i].rec).uid != (#[trigger] es[j].rec).uid
}

/// With distinct identifiers, the table lookup finds exactly record k.
pub proof fn lemma_find_rec_hit(rs: Seq<SpecIndexRecord>, k: int)
    requires
        0 <= k < rs.len(),
        forall|i: int, j: int|
            0 <= i < j < rs.len() ==> (#[trigger] rs[i]).uid != (#[trigger] rs[j]).uid,
    ensures
        crate::reader::find_rec(rs, rs[k].uid) == Some(rs[k]),
    decreases rs,
{
    if k == 0 {
    } else {
        assert(rs[0].uid != rs[k].uid);
        let rest = rs.subrange(1, rs.len() as int);
        assert(forall|i: int| 0 <= i < rest.len() ==> rest[i] == rs[i + 1]);
        assert forall|i: int, j: int| 0 <= i < j < rest.len() implies (#[trigger] rest[i]).uid != (
        #[trigger] rest[j]).uid by {
            assert(rest[i] == rs[i + 1] && rest[j] == rs[j + 1]);
        }
        lemma_find_rec_hit(rest, k - 1);
        assert(rest[k - 1] == rs[k]);
    }
}

/// A lookup for an identifier no record carries finds nothing.
pub proof fn lemma_find_rec_miss(rs: Seq<SpecIndexRecord>, uid: u64)
    requires
        forall|i: int| 0 <= i < rs.len() ==> (#[trigger] rs[i]).uid != uid,
    ensures
        crate::reader::find_rec(rs, uid) is None,
    decreases rs,
{
    if rs.len() > 0 {
        let rest = rs.subrange(1, rs.len() as int);
        assert forall|i: int| 0 <= i < rest.len() implies (#[trigger] rest[i]).uid != uid by {
            assert(rest[i] == rs[i + 1]);
        }
        lemma_find_rec_miss(rest, uid);
    }
}


// ---------------------------------------------------------------------
// Extraction inverts construction of the Index element
// ---------------------------------------------------------------------

/// Reading one written `IndexEntry` back yields its record.
proof fn lemma_rec_of_entry_inverts(r: SpecIndexRecord)
    requires
        r.position <= u64::MAX,
    ensures
        crate::reader::rec_of_entry(crate::case::entry_elem(r)) == Some(r),
{
    let cs = crate::case::entry_children(r);
    reveal_with_fuel(crate::reader::uint_child, 4);
    reveal_with_fuel(crate::reader::bytes_child, 7);
    assert(cs.subrange(1, 6).subrange(1, 5) =~= cs.subrange(2, 6));
    assert(cs.subrange(2, 6).subrange(1, 4) =~= cs.subrange(3, 6));
    assert(cs.subrange(3, 6).subrange(1, 3) =~= cs.subrange(4, 6));
    assert(cs.subrange(4, 6).subrange(1, 2) =~= cs.subrange(5, 6));
    assert(crate::reader::uint_child(cs, crate::schema::ID_INDEX_TARGET_UID) == Some(r.uid));
    assert(crate::reader::uint_child(cs, crate::schema::ID_INDEX_TARGET_ID) == Some(
        r.target_id as u64,
    ));
    assert(crate::reader::uint_child(cs, crate::schema::ID_INDEX_POSITION) == Some(
        r.position as u64,
    ));
    assert(crate::reader::bytes_child(cs, crate::schema::ID_INDEX_TARGET) == Some(r.label));
    assert(crate::reader::bytes_child(cs, crate::schema::ID_INDEX_TARGET_REGION) == Some(
        r.region,
    ));
    assert((r.target_id as u64) as u32 == r.target_id);
    assert((r.position as u64) as nat == r.position);
    assert(crate::reader::rec_of_entry(crate::case::entry_elem(r)) matches Some(rr) && rr =~= r);
}

/// Reading a written `Index` element back yields the record table it was
/// built from.
pub proof fn lemma_extract_inverts(rs: Seq<SpecIndexRecord>)
    requires
        forall|i: int| 0 <= i < rs.len() ==> (#[trigger] rs[i]).position <= u64::MAX,
    ensures
        crate::reader::spec_extract_records(crate::case::index_elem(rs)) == rs,
{
    lemma_recs_of_entries_inverts(rs);
}

proof fn lemma_recs_of_entries_inverts(rs: Seq<SpecIndexRecord>)
    requires
        forall|i: int| 0 <= i < rs.len() ==> (#[trigger] rs[i]).position <= u64::MAX,
    ensures
        crate::reader::recs_of_entries(crate::case::entry_elems(rs)) == rs,
    decreases rs,
{
    let es = crate::case::entry_elems(rs);
    if rs.len() == 0 {
        assert(rs =~= Seq::<SpecIndexRecord>::empty());
        assert(crate::reader::recs_of_entries(es) =~= Seq::<SpecIndexRecord>::empty());
    } else {
        let rest = rs.subrange(1, rs.len() as int);
        assert(forall|i: int| 0 <= i < rest.len() ==> rest[i] == rs[i + 1]);
        assert(es[0] == crate::case::entry_elem(rs[0]));
        assert(es.subrange(1, es.len() as int) =~= crate::case::entry_elems(rest)) by {
            crate::case::lemma_entry_elems(rs);
            crate::case::lemma_entry_elems(rest);
            assert forall|i: int| 0 <= i < rest.len() implies es.subrange(1, es.len() as int)[i]
                == crate::case::entry_elems(rest)[i] by {
                assert(es[i + 1] == crate::case::entry_elem(rs[i + 1]));
            }
        }
        lemma_rec_of_entry_inverts(rs[0]);
        assert forall|i: int| 0 <= i < rest.len() implies (#[trigger] rest[i]).position
            <= u64::MAX by {
            assert(rest[i] == rs[i + 1]);
        }
        lemma_recs_of_entries_inverts(rest);
        assert(crate::reader::recs_of_entries(es) =~= rs);
    }
}


// ---------------------------------------------------------------------
// The linear scan agrees with the index walk
// ---------------------------------------------------------------------

/// What the scan finds inside one element is an entry the index walk
/// records, and where the scan finds nothing, no record carries the
/// identifier.
pub proof fn lemma_scan_entries_elem(e: SpecElement, base: nat, uid: u64)
    ensures
        ({
            let es = entries_of_elem(e, base);
            match crate::reader::find_entry_in(e, uid) {
                Some(x) => exists|k: int|
                    0 <= k < es.len() && (#[trigger] es[k]).elem == x && es[k].rec.uid == uid,
                None => forall|k: int| 0 <= k < es.len() ==> (#[trigger] es[k]).rec.uid != uid,
            }
        }),
    decreases e,
{
    let es = entries_of_elem(e, base);
    match e {
        SpecElement::Master { id, children } => {
            if is_indexable(id) && uid_of_children(children) is Some {
                if uid_of_children(children) == Some(uid) {
                    assert(es[0].elem == e && es[0].rec.uid == uid);
                } else {
                    assert(es[0].rec == record_of(e, base));
                }
            } else {
                lemma_scan_entries_children(children, (base + payload_start(e)) as nat, uid);
            }
        },
        _ => {},
    }
}

pub proof fn lemma_scan_entries_children(cs: Seq<SpecElement>, base: nat, uid: u64)
    ensures
        ({
            let es = entries_of_children(cs, base);
            match crate::reader::find_entry_children(cs, uid) {
                Some(x) => exists|k: int|
                    0 <= k < es.len() && (#[trigger] es[k]).elem == x && es[k].rec.uid == uid,
                None => forall|k: int| 0 <= k < es.len() ==> (#[trigger] es[k]).rec.uid != uid,
            }
        }),
    decreases cs,
{
    let es = entries_of_children(cs, base);
    if cs.len() == 0 {
    } else {
        let rest = cs.subrange(1, cs.len() as int);
        let first = entries_of_elem(cs[0], base);
        let later = entries_of_children(rest, base + enc_elem(cs[0]).len());
        assert(es == first + later);
        lemma_scan_entries_elem(cs[0], base, uid);
        lemma_scan_entries_children(rest, (base + enc_elem(cs[0]).len()) as nat, uid);
        match crate::reader::find_entry_in(cs[0], uid) {
            Some(x) => {
                let k0 = choose|k: int|
                    0 <= k < first.len() && (#[trigger] first[k]).elem == x && first[k].rec.uid
                        == uid;
                assert(es[k0] == first[k0]);
            },
            None => {
                match crate::reader::find_entry_children(rest, uid) {
                    Some(x) => {
                        let k0 = choose|k: int|
                            0 <= k < later.len() && (#[trigger] later[k]).elem == x
                                && later[k].rec.uid == uid;
                        assert(es[first.len() + k0] == later[k0]);
                    },
                    None => {
                        assert forall|k: int| 0 <= k < es.len() implies (#[trigger] es[k]).rec.uid
                            != uid by {
                            if k < first.len() {
                                assert(es[k] == first[k]);
                            } else {
                                assert(es[k] == later[k - first.len()]);
                            }
                        }
                    },
                }
            },
        }
    }
}


// ---------------------------------------------------------------------
// Opening a written document
// ---------------------------------------------------------------------

/// Opening a document the writer produced finds the index: the record
/// table is exactly the body walk's records shifted to where the body
/// landed, and the remaining body range is the rest of `GameCase`.
#[verifier::rlimit(80)]
pub proof fn lemma_open_written(bytes: Seq<u8>, ix: SpecElement, body: Seq<SpecElement>)
    requires
        case_shape_with(bytes, ix, body),
        children_valid(body),
    ensures
        ({
            let delta = (bytes.len() - enc_children(body).len()) as nat;
            crate::reader::spec_open(bytes) == Ok::<_, crate::codec::ParseError>(
                (
                    shift_recs(crate::case::recs_of(entries_of_children(body, 0)), delta),
                    true,
                    delta,
                    bytes.len(),
                ),
            )
        }),
{
    let hdr = crate::case::spec_ebml_header();
    let gc = crate::case::spec_gamecase(ix, body);
    let hb = enc_elem(hdr);
    let g = enc_elem(gc);
    let ch = seq![ix] + body;
    assert(ch[0] == ix);
    let c = enc_children(ch);
    crate::element::lemma_enc_children_cons(ix, body);
    assert(c == enc_elem(ix) + enc_children(body));
    let a = crate::vint::enc_id(crate::schema::ID_GAME_CASE);
    let b = crate::vint::enc_size(c.len());
    assert(g == a + b + c);
    crate::vint::lemma_be_bytes_len(
        crate::schema::ID_GAME_CASE as nat,
        id_len(crate::schema::ID_GAME_CASE),
    );
    crate::vint::lemma_be_bytes_len(
        crate::vint::pow128(size_len(c.len())) + c.len(),
        size_len(c.len()),
    );
    assert(a.len() == 2);
    assert(b.len() == size_len(c.len()));
    // split the document
    lemma_split_concat(bytes, hb, g);
    // the header element decodes first
    crate::decode::lemma_decode_of_enc_elem(hdr, bytes, 0, bytes.len());
    assert(hdr.id() == crate::schema::ID_EBML);
    // the GameCase header follows
    assert(g == (a + b) + c);
    lemma_split_concat(g, a + b, c);
    lemma_split_concat(a + b, a, b);
    lemma_subrange_nest(g, 0, a + b, 0, a.len() as int);
    lemma_subrange_nest(g, 0, a + b, a.len() as int, (a + b).len() as int);
    lemma_subrange_nest(bytes, hb.len() as int, g, 0, a.len() as int);
    crate::codec::lemma_read_id_of_enc(
        crate::schema::ID_GAME_CASE,
        bytes,
        hb.len() as nat,
        bytes.len(),
    );
    lemma_subrange_nest(bytes, hb.len() as int, g, a.len() as int, (a.len() + b.len()) as int);
    crate::codec::lemma_read_size_of_enc(c.len(), bytes, (hb.len() + a.len()) as nat, bytes.len());
    let p2 = hb.len() + a.len() + b.len();
    assert(crate::codec::spec_read_header(bytes, hb.len() as nat, bytes.len()) == Ok::<
        _,
        crate::codec::ParseError,
    >(
        (
            crate::schema::ID_GAME_CASE,
            crate::codec::ElementSize::Known(c.len() as u64),
            p2 as nat,
        ),
    ));
    assert(p2 + c.len() == bytes.len());
    // the Index element leads the children
    assert(elem_valid(ix)) by {
        assert(crate::element::children_valid(ch));
        assert(ch[0] == ix);
    }
    let xi = enc_elem(ix);
    lemma_split_concat(c, xi, enc_children(body));
    lemma_subrange_nest(g, (a.len() + b.len()) as int, c, 0, xi.len() as int);
    lemma_subrange_nest(
        bytes,
        hb.len() as int,
        g,
        (a.len() + b.len()) as int,
        (a.len() + b.len() + xi.len()) as int,
    );
    assert(bytes.subrange(p2 as int, (p2 + xi.len()) as int) == xi);
    crate::decode::lemma_decode_of_enc_elem(ix, bytes, p2 as nat, bytes.len());
    let pb = p2 + xi.len();
    // peeking the first child's header sees the Index identifier
    let rs = shift_recs(
        crate::case::recs_of(entries_of_children(body, 0)),
        (bytes.len() - enc_children(body).len()) as nat,
    );
    assert(ix == crate::case::index_elem(rs));
    let ai = crate::vint::enc_id(crate::schema::ID_INDEX);
    let ci = enc_children(crate::case::entry_elems(rs));
    let bi = crate::vint::enc_size(ci.len());
    assert(xi == ai + bi + ci);
    crate::vint::lemma_be_bytes_len(
        crate::schema::ID_INDEX as nat,
        id_len(crate::schema::ID_INDEX),
    );
    crate::vint::lemma_be_bytes_len(
        crate::vint::pow128(size_len(ci.len())) + ci.len(),
        size_len(ci.len()),
    );
    assert(xi == (ai + bi) + ci);
    lemma_split_concat(xi, ai + bi, ci);
    lemma_split_concat(ai + bi, ai, bi);
    lemma_subrange_nest(xi, 0, ai + bi, 0, ai.len() as int);
    lemma_subrange_nest(bytes, p2 as int, xi, 0, ai.len() as int);
    crate::codec::lemma_read_id_of_enc(crate::schema::ID_INDEX, bytes, p2 as nat, bytes.len());
    lemma_subrange_nest(xi, 0, ai + bi, ai.len() as int, (ai + bi).len() as int);
    lemma_subrange_nest(bytes, p2 as int, xi, ai.len() as int, (ai.len() + bi.len()) as int);
    crate::codec::lemma_read_size_of_enc(ci.len(), bytes, (p2 + ai.len()) as nat, bytes.len());
    assert(crate::codec::spec_read_header(bytes, p2 as nat, bytes.len()) matches Ok((cid, _, _))
        && cid == crate::schema::ID_INDEX);
    // the record table comes back out of the Index element
    assert(crate::reader::spec_extract_records(ix) == rs) by {
        crate::case::lemma_shift_recs(
            crate::case::recs_of(entries_of_children(body, 0)),
            (bytes.len() - enc_children(body).len()) as nat,
        );
        assert forall|i: int| 0 <= i < rs.len() implies (#[trigger] rs[i]).position
            <= u64::MAX by {
            assert(rs[i] == crate::case::shift_rec(
                crate::case::recs_of(entries_of_children(body, 0))[i],
                (bytes.len() - enc_children(body).len()) as nat,
            ));
        }
        lemma_extract_inverts(rs);
    }
    assert(pb == (bytes.len() - enc_children(body).len()) as nat);
}


// ---------------------------------------------------------------------
// Index correctness
// ---------------------------------------------------------------------

/// The body of a written document sits at the end of the stream; its
/// offset is what the index records were shifted by.
proof fn lemma_body_at_tail(bytes: Seq<u8>, ix: SpecElement, body: Seq<SpecElement>)
    requires
        case_shape_with(bytes, ix, body),
    ensures
        ({
            let delta = (bytes.len() - enc_children(body).len()) as nat;
            &&& delta + enc_children(body).len() == bytes.len()
            &&& bytes.subrange(delta as int, bytes.len() as int) == enc_children(body)
        }),
{
    let hb = enc_elem(crate::case::spec_ebml_header());
    let gc = crate::case::spec_gamecase(ix, body);
    let ch = seq![ix] + body;
    let c = enc_children(ch);
    crate::element::lemma_enc_children_cons(ix, body);
    let a = crate::vint::enc_id(crate::schema::ID_GAME_CASE);
    let b = crate::vint::enc_size(c.len());
    assert(enc_elem(gc) == a + b + c);
    assert(bytes =~= (hb + a + b + enc_elem(ix)) + enc_children(body));
    lemma_split_concat(bytes, hb + a + b + enc_elem(ix), enc_children(body));
}

/// Index correctness: in a document this writer produced, every record's
/// position resolves on the first attempt — the element decoded there is
/// the body entry itself, its identifier is the record's, and its
/// `EntryUID` is the record's — so a fetch through the index returns that
/// entry without any fallback.
pub proof fn lemma_index_correctness(
    bytes: Seq<u8>,
    ix: SpecElement,
    body: Seq<SpecElement>,
    k: int,
)
    requires
        case_shape_with(bytes, ix, body),
        children_valid(body),
        uids_unique(entries_of_children(body, 0)),
        0 <= k < entries_of_children(body, 0).len(),
    ensures
        ({
            let delta = (bytes.len() - enc_children(body).len()) as nat;
            let es = entries_of_children(body, 0);
            let records = shift_recs(crate::case::recs_of(es), delta);
            &&& crate::reader::spec_open(bytes) == Ok::<_, crate::codec::ParseError>(
                (records, true, delta, bytes.len()),
            )
            &&& crate::reader::find_rec(records, es[k].rec.uid) == Some(
                crate::case::shift_rec(es[k].rec, delta),
            )
            &&& crate::reader::spec_validate_at(
                bytes,
                crate::case::shift_rec(es[k].rec, delta),
                es[k].rec.uid,
            ) == Some(es[k].elem)
            &&& crate::reader::spec_fetch_from(
                bytes,
                records,
                true,
                delta,
                bytes.len(),
                es[k].rec.uid,
            ) == Ok::<_, crate::reader::FetchError>(es[k].elem)
        }),
{
    lemma_open_written(bytes, ix, body);
    lemma_body_at_tail(bytes, ix, body);
    let delta = (bytes.len() - enc_children(body).len()) as nat;
    let es = entries_of_children(body, 0);
    let rs = crate::case::recs_of(es);
    let records = shift_recs(rs, delta);
    crate::case::lemma_recs_of(es);
    crate::case::lemma_shift_recs(rs, delta);
    assert(records[k] == crate::case::shift_rec(es[k].rec, delta));
    assert forall|i: int, j: int| 0 <= i < j < records.len() implies (#[trigger] records[i]).uid
        != (#[trigger] records[j]).uid by {
        assert(records[i] == crate::case::shift_rec(rs[i], delta));
        assert(records[j] == crate::case::shift_rec(rs[j], delta));
        assert(rs[i] == es[i].rec && rs[j] == es[j].rec);
    }
    lemma_find_rec_hit(records, k);
    assert(records[k].uid == es[k].rec.uid);
    // the entry decodes at its absolute position
    lemma_located_children(body, 0, k);
    let p = es[k].rec.position;
    let l = enc_elem(es[k].elem).len();
    lemma_subrange_nest(
        bytes,
        delta as int,
        enc_children(body),
        p as int,
        (p + l) as int,
    );
    crate::decode::lemma_decode_of_enc_elem(es[k].elem, bytes, (delta + p) as nat, bytes.len());
    assert(records[k].position == p + delta);
    assert(crate::reader::spec_validate_at(bytes, records[k], es[k].rec.uid) == Some(es[k].elem));
}

/// Fallback correctness: strip the `Index` element from a written
/// document and reopen it, and every lookup answers identically through
/// the linear scan.
/// Opening a document whose `GameCase` holds the body alone finds no
/// index and leaves the whole body to scan.
proof fn lemma_open_stripped(body: Seq<SpecElement>, bytes2: Seq<u8>)
    requires
        children_valid(body),
        enc_children(body).len() <= crate::vint::size_max(),
        bytes2 == enc_elem(crate::case::spec_ebml_header()) + enc_elem(
            SpecElement::Master { id: crate::schema::ID_GAME_CASE, children: body },
        ),
        body.len() > 0 ==> body[0].id() != crate::schema::ID_INDEX,
    ensures
        ({
            let delta2 = (bytes2.len() - enc_children(body).len()) as nat;
            &&& crate::reader::spec_open(bytes2) == Ok::<_, crate::codec::ParseError>(
                (Seq::<SpecIndexRecord>::empty(), false, delta2, bytes2.len()),
            )
            &&& delta2 + enc_children(body).len() == bytes2.len()
            &&& bytes2.subrange(delta2 as int, bytes2.len() as int) == enc_children(body)
        }),
{
    let hdr = crate::case::spec_ebml_header();
    let hb = enc_elem(hdr);
    let gc2 = SpecElement::Master { id: crate::schema::ID_GAME_CASE, children: body };
    let c2 = enc_children(body);
    let a = crate::vint::enc_id(crate::schema::ID_GAME_CASE);
    let b2 = crate::vint::enc_size(c2.len());
    assert(enc_elem(gc2) == a + b2 + c2);
    assert(elem_valid(gc2));
    assert(elem_valid(hdr)) by {
        crate::case::lemma_header_element_valid();
    }
    lemma_split_concat(bytes2, hb, enc_elem(gc2));
    crate::decode::lemma_decode_of_enc_elem(hdr, bytes2, 0, bytes2.len());
    assert(enc_elem(gc2) == (a + b2) + c2);
    lemma_split_concat(enc_elem(gc2), a + b2, c2);
    lemma_split_concat(a + b2, a, b2);
    crate::vint::lemma_be_bytes_len(
        crate::schema::ID_GAME_CASE as nat,
        id_len(crate::schema::ID_GAME_CASE),
    );
    crate::vint::lemma_be_bytes_len(
        crate::vint::pow128(size_len(c2.len())) + c2.len(),
        size_len(c2.len()),
    );
    lemma_subrange_nest(enc_elem(gc2), 0, a + b2, 0, a.len() as int);
    lemma_subrange_nest(bytes2, hb.len() as int, enc_elem(gc2), 0, a.len() as int);
    crate::codec::lemma_read_id_of_enc(
        crate::schema::ID_GAME_CASE,
        bytes2,
        hb.len() as nat,
        bytes2.len(),
    );
    lemma_subrange_nest(enc_elem(gc2), 0, a + b2, a.len() as int, (a + b2).len() as int);
    lemma_subrange_nest(
        bytes2,
        hb.len() as int,
        enc_elem(gc2),
        a.len() as int,
        (a.len() + b2.len()) as int,
    );
    crate::codec::lemma_read_size_of_enc(
        c2.len(),
        bytes2,
        (hb.len() + a.len()) as nat,
        bytes2.len(),
    );
    let p22 = hb.len() + a.len() + b2.len();
    assert(p22 + c2.len() == bytes2.len());
    lemma_subrange_nest(
        bytes2,
        hb.len() as int,
        enc_elem(gc2),
        (a.len() + b2.len()) as int,
        enc_elem(gc2).len() as int,
    );
    assert(bytes2.subrange(p22 as int, bytes2.len() as int) == c2);
    if body.len() > 0 {
        assert(elem_valid(body[0]));
        let l0 = enc_elem(body[0]).len();
        assert(c2 == enc_elem(body[0]) + enc_children(body.subrange(1, body.len() as int)));
        lemma_split_concat(c2, enc_elem(body[0]), enc_children(body.subrange(1, body.len() as int)));
        lemma_subrange_nest(bytes2, p22 as int, c2, 0, l0 as int);
        crate::decode::lemma_read_header_of_enc(body[0], bytes2, p22 as nat, bytes2.len());
    }
}

/// Fallback correctness: strip the `Index` element from a written
/// document and reopen it, and every lookup answers identically through
/// the linear scan.
pub proof fn lemma_fallback_correctness(
    bytes: Seq<u8>,
    ix: SpecElement,
    body: Seq<SpecElement>,
    bytes2: Seq<u8>,
    uid: u64,
)
    requires
        case_shape_with(bytes, ix, body),
        children_valid(body),
        uids_unique(entries_of_children(body, 0)),
        bytes2 == enc_elem(crate::case::spec_ebml_header()) + enc_elem(
            SpecElement::Master { id: crate::schema::ID_GAME_CASE, children: body },
        ),
        body.len() > 0 ==> body[0].id() != crate::schema::ID_INDEX,
    ensures
        ({
            let delta = (bytes.len() - enc_children(body).len()) as nat;
            let records = shift_recs(crate::case::recs_of(entries_of_children(body, 0)), delta);
            let delta2 = (bytes2.len() - enc_children(body).len()) as nat;
            &&& crate::reader::spec_open(bytes2) == Ok::<_, crate::codec::ParseError>(
                (Seq::<SpecIndexRecord>::empty(), false, delta2, bytes2.len()),
            )
            &&& crate::reader::spec_fetch_from(bytes, records, true, delta, bytes.len(), uid)
                == crate::reader::spec_fetch_from(
                bytes2,
                Seq::<SpecIndexRecord>::empty(),
                false,
                delta2,
                bytes2.len(),
                uid,
            )
        }),
{
    assert(enc_children(body).len() <= crate::vint::size_max()) by {
        let ch = seq![ix] + body;
        crate::element::lemma_enc_children_cons(ix, body);
        assert(enc_children(ch).len() == enc_elem(ix).len() + enc_children(body).len());
    }
    lemma_open_stripped(body, bytes2);
    let delta = (bytes.len() - enc_children(body).len()) as nat;
    let delta2 = (bytes2.len() - enc_children(body).len()) as nat;
    // both scans decode the same body
    lemma_body_at_tail(bytes, ix, body);
    crate::decode::lemma_decode_of_enc_children(body, bytes, delta, bytes.len());
    crate::decode::lemma_decode_of_enc_children(body, bytes2, delta2, bytes2.len());
    // and the same entry answers on both sides
    let es = entries_of_children(body, 0);
    let rs = crate::case::recs_of(es);
    let records = shift_recs(rs, delta);
    crate::case::lemma_recs_of(es);
    crate::case::lemma_shift_recs(rs, delta);
    lemma_scan_entries_children(body, 0, uid);
    if exists|k: int| 0 <= k < es.len() && (#[trigger] es[k]).rec.uid == uid {
        let k = choose|k: int| 0 <= k < es.len() && (#[trigger] es[k]).rec.uid == uid;
        lemma_index_correctness(bytes, ix, body, k);
        match crate::reader::find_entry_children(body, uid) {
            Some(x) => {
                let k2 = choose|j: int|
                    0 <= j < es.len() && (#[trigger] es[j]).elem == x && es[j].rec.uid == uid;
                assert(k2 == k);
                assert(x == es[k].elem);
            },
            None => {
                assert(es[k].rec.uid != uid);
            },
        }
    } else {
        assert forall|i: int| 0 <= i < records.len() implies (#[trigger] records[i]).uid != uid by {
            assert(records[i] == crate::case::shift_rec(rs[i], delta));
            assert(rs[i] == es[i].rec);
            assert(es[i].rec.uid != uid);
        }
        lemma_find_rec_miss(records, uid);
        match crate::reader::find_entry_children(body, uid) {
            Some(x) => {
                let k2 = choose|j: int|
                    0 <= j < es.len() && (#[trigger] es[j]).elem == x && es[j].rec.uid == uid;
                assert(false);
            },
            None => {},
        }
    }
}


/// A written document parses as a whole: the stream is exactly the
/// header element followed by the `GameCase` element.
pub proof fn lemma_written_case_parses(bytes: Seq<u8>, ix: SpecElement, body: Seq<SpecElement>)
    requires
        case_shape_with(bytes, ix, body),
        children_valid(body),
    ensures
        crate::decode::spec_decode_children(bytes, 0, bytes.len()) == Ok::<
            _,
            crate::codec::ParseError,
        >(
            seq![
                crate::case::spec_ebml_header(),
                crate::case::spec_gamecase(ix, body),
            ],
        ),
{
    let hdr = crate::case::spec_ebml_header();
    let gc = crate::case::spec_gamecase(ix, body);
    let both = seq![hdr, gc];
    assert(both[0] == hdr && both[1] == gc);
    assert(children_valid(both)) by {
        assert forall|i: int| 0 <= i < 2 implies elem_valid(#[trigger] both[i]) by {}
    }
    assert(both =~= seq![hdr] + seq![gc]);
    crate::element::lemma_enc_children_cons(hdr, seq![gc]);
    assert(seq![gc] =~= seq![gc] + Seq::<SpecElement>::empty());
    crate::element::lemma_enc_children_cons(gc, Seq::<SpecElement>::empty());
    assert(crate::element::enc_children(Seq::<SpecElement>::empty()) =~= Seq::<u8>::empty());
    assert(enc_children(both) =~= bytes);
    assert(bytes.subrange(0, bytes.len() as int) =~= bytes);
    crate::decode::lemma_decode_of_enc_children(both, bytes, 0, bytes.len());
}

} // verus!






