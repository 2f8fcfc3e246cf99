//! The index builder and the document writer.
//!
//! While the body is serialized depth first, the writer records the
//! absolute byte offset of every element that carries an `EntryUID` — every
//! game-data entry and manual entry — the moment its identifier is about to
//! be written. The `Index` master element built from those records is
//! placed as the first child of `GameCase`, before the body, so a reader
//! finds it without scanning; its positions count from the start of the
//! document and point at the first byte of each entry's identifier field.

use vstd::prelude::*;

verus! {

use crate::element::{
    children_valid,
    elem_valid,
    enc_children,
    enc_elem,
    encode_children,
    encode_elem,
    lemma_enc_children_snoc,
    lemma_models,
    models,
    Element,
    SpecElement,
};
use crate::schema::{
    ID_ENTRY_UID,
    ID_GAME_DATA_ENTRY,
    ID_MANUAL_ENTRY,
    ID_REGION,
    ID_ROM_FILE_NAME,
};
use crate::vint::{id_len, size_len, size_max, uint_len};

/// The elements the index points at: those that carry an `EntryUID`.
pub open spec fn is_indexable(id: u32) -> bool {
    id == ID_GAME_DATA_ENTRY || id == ID_MANUAL_ENTRY
}

/// One index record: an entry's unique identifier, its schema identifier,
/// its absolute byte position, and the human-readable fields stored
/// beside them.
pub struct IndexRecord {
    pub uid: u64,
    pub target_id: u32,
    pub position: u64,
    pub label: Vec<u8>,
    pub region: Vec<u8>,
}

/// The mathematical form of an index record.
#[verifier::ext_equal]
pub struct SpecIndexRecord {
    pub uid: u64,
    pub target_id: u32,
    pub position: nat,
    pub label: Seq<u8>,
    pub region: Seq<u8>,
}

impl IndexRecord {
    pub open spec fn model(self) -> SpecIndexRecord {
        SpecIndexRecord {
            uid: self.uid,
            target_id: self.target_id,
            position: self.position as nat,
            label: self.label@,
            region: self.region@,
        }
    }
}

/// The mathematical values of a sequence of records.
pub open spec fn rec_models(s: Seq<IndexRecord>) -> Seq<SpecIndexRecord>
    decreases s,
{
    if s.len() == 0 {
        Seq::empty()
    } else {
        seq![s[0].model()] + rec_models(s.subrange(1, s.len() as int))
    }
}

/// `rec_models` maps the sequence pointwise.
pub broadcast proof fn lemma_rec_models(s: Seq<IndexRecord>)
    ensures
        (#[trigger] rec_models(s)).len() == s.len(),
        forall|i: int| 0 <= i < s.len() ==> rec_models(s)[i] == s[i].model(),
    decreases s,
{
    if s.len() > 0 {
        lemma_rec_models(s.subrange(1, s.len() as int));
    }
}

/// `rec_models` commutes with push.
pub proof fn lemma_rec_models_push(s: Seq<IndexRecord>, x: IndexRecord)
    ensures
        rec_models(s.push(x)) == rec_models(s).push(x.model()),
    decreases s,
{
    if s.len() == 0 {
        assert(s.push(x) =~= seq![x]);
        assert(seq![x].subrange(1, 1) =~= Seq::<IndexRecord>::empty());
        assert(rec_models(seq![x].subrange(1, 1)) =~= Seq::<SpecIndexRecord>::empty());
        assert(rec_models(seq![x]) =~= seq![x.model()]);
        assert(rec_models(s) =~= Seq::<SpecIndexRecord>::empty());
        assert(rec_models(s).push(x.model()) =~= seq![x.model()]);
    } else {
        let t = s.push(x);
        assert(t[0] == s[0]);
        assert(t.subrange(1, t.len() as int) =~= s.subrange(1, s.len() as int).push(x));
        lemma_rec_models_push(s.subrange(1, s.len() as int), x);
        assert(rec_models(t) =~= rec_models(s).push(x.model()));
    }
}

// ---------------------------------------------------------------------
// What the index of a body is: the walk
// ---------------------------------------------------------------------

/// The `EntryUID` of an element: the first unsigned-integer child so
/// named, among the direct children.
pub open spec fn uid_of_children(cs: Seq<SpecElement>) -> Option<u64>
    decreases cs,
{
    if cs.len() == 0 {
        None
    } else {
        match cs[0] {
            SpecElement::UInt { id, value } => if id == ID_ENTRY_UID {
                Some(value)
            } else {
                uid_of_children(cs.subrange(1, cs.len() as int))
            },
            _ => uid_of_children(cs.subrange(1, cs.len() as int)),
        }
    }
}

pub open spec fn uid_of(e: SpecElement) -> Option<u64> {
    match e {
        SpecElement::Master { children, .. } => uid_of_children(children),
        _ => None,
    }
}

/// The first text or binary descendant with a given identifier, depth
/// first; the writer uses it for the index's human-readable fields.
pub open spec fn find_text_in(e: SpecElement, id: u32) -> Option<Seq<u8>>
    decreases e,
{
    match e {
        SpecElement::Bytes { id: i, data } => if i == id {
            Some(data)
        } else {
            None
        },
        SpecElement::Master { children, .. } => find_text_children(children, id),
        SpecElement::UInt { .. } => None,
    }
}

pub open spec fn find_text_children(cs: Seq<SpecElement>, id: u32) -> Option<Seq<u8>>
    decreases cs,
{
    if cs.len() == 0 {
        None
    } else {
        match find_text_in(cs[0], id) {
            Some(d) => Some(d),
            None => find_text_children(cs.subrange(1, cs.len() as int), id),
        }
    }
}

pub open spec fn opt_bytes(o: Option<Seq<u8>>) -> Seq<u8> {
    match o {
        Some(d) => d,
        None => Seq::empty(),
    }
}

/// Where an element's payload begins, relative to its first identifier
/// byte.
pub open spec fn payload_start(e: SpecElement) -> nat {
    match e {
        SpecElement::UInt { id, value } => id_len(id) + size_len(uint_len(value as nat)),
        SpecElement::Bytes { id, data } => id_len(id) + size_len(data.len()),
        SpecElement::Master { id, children } => id_len(id) + size_len(
            enc_children(children).len(),
        ),
    }
}

/// An indexable entry found by the walk: its record and the element it
/// points at.
#[verifier::ext_equal]
pub struct SpecEntry {
    pub rec: SpecIndexRecord,
    pub elem: SpecElement,
}

/// The record the writer makes for one indexable element sitting at
/// `base`.
pub open spec fn record_of(e: SpecElement, base: nat) -> SpecIndexRecord {
    SpecIndexRecord {
        uid: match uid_of(e) {
            Some(u) => u,
            None => 0,
        },
        target_id: e.id(),
        position: base,
        label: opt_bytes(
            match e {
                SpecElement::Master { children, .. } => find_text_children(
                    children,
                    ID_ROM_FILE_NAME,
                ),
                _ => None,
            },
        ),
        region: opt_bytes(
            match e {
                SpecElement::Master { children, .. } => find_text_children(children, ID_REGION),
                _ => None,
            },
        ),
    }
}

/// The indexable entries inside one element whose identifier byte sits at
/// `base`, in writing order.
pub open spec fn entries_of_elem(e: SpecElement, base: nat) -> Seq<SpecEntry>
    decreases e,
{
    match e {
        SpecElement::Master { id, children } => if is_indexable(id) && uid_of_children(
            children,
        ) is Some {
            seq![SpecEntry { rec: record_of(e, base), elem: e }]
        } else {
            entries_of_children(children, base + payload_start(e))
        },
        _ => Seq::empty(),
    }
}

/// The indexable entries of a run of siblings whose first identifier byte
/// sits at `base`.
pub open spec fn entries_of_children(cs: Seq<SpecElement>, base: nat) -> Seq<SpecEntry>
    decreases cs,
{
    if cs.len() == 0 {
        Seq::empty()
    } else {
        entries_of_elem(cs[0], base) + entries_of_children(
            cs.subrange(1, cs.len() as int),
            base + enc_elem(cs[0]).len(),
        )
    }
}

/// The records of a sequence of entries.
pub open spec fn recs_of(es: Seq<SpecEntry>) -> Seq<SpecIndexRecord>
    decreases es,
{
    if es.len() == 0 {
        Seq::empty()
    } else {
        seq![es[0].rec] + recs_of(es.subrange(1, es.len() as int))
    }
}

pub broadcast proof fn lemma_recs_of(es: Seq<SpecEntry>)
    ensures
        (#[trigger] recs_of(es)).len() == es.len(),
        forall|i: int| 0 <= i < es.len() ==> recs_of(es)[i] == es[i].rec,
    decreases es,
{
    if es.len() > 0 {
        lemma_recs_of(es.subrange(1, es.len() as int));
    }
}

/// `recs_of` distributes over concatenation.
pub proof fn lemma_recs_of_app(a: Seq<SpecEntry>, b: Seq<SpecEntry>)
    ensures
        recs_of(a + b) == recs_of(a) + recs_of(b),
    decreases a,
{
    if a.len() == 0 {
        assert(a + b =~= b);
        assert(recs_of(a) + recs_of(b) =~= recs_of(b));
    } else {
        let t = a + b;
        assert(t[0] == a[0]);
        assert(t.subrange(1, t.len() as int) =~= a.subrange(1, a.len() as int) + b);
        lemma_recs_of_app(a.subrange(1, a.len() as int), b);
        assert(recs_of(t) =~= recs_of(a) + recs_of(b));
    }
}

/// Splitting a run of siblings splits its entries, with the base moved
/// past the first part.
pub proof fn lemma_entries_children_app(s1: Seq<SpecElement>, s2: Seq<SpecElement>, base: nat)
    ensures
        entries_of_children(s1 + s2, base) == entries_of_children(s1, base) + entries_of_children(
            s2,
            base + enc_children(s1).len(),
        ),
    decreases s1,
{
    if s1.len() == 0 {
        assert(s1 + s2 =~= s2);
        assert(entries_of_children(s1, base) + entries_of_children(s2, base) =~= entries_of_children(
            s2,
            base,
        ));
    } else {
        let t = s1 + s2;
        let r1 = s1.subrange(1, s1.len() as int);
        assert(t[0] == s1[0]);
        assert(t.subrange(1, t.len() as int) =~= r1 + s2);
        lemma_entries_children_app(r1, s2, base + enc_elem(s1[0]).len());
        assert(enc_children(s1).len() == enc_elem(s1[0]).len() + enc_children(r1).len());
        assert(entries_of_children(t, base) =~= entries_of_children(s1, base)
            + entries_of_children(s2, base + enc_children(s1).len()));
    }
}

/// Appending one sibling appends its entries.
pub proof fn lemma_entries_children_snoc(s: Seq<SpecElement>, i: int, base: nat)
    requires
        0 <= i < s.len(),
    ensures
        entries_of_children(s.subrange(0, i + 1), base) == entries_of_children(
            s.subrange(0, i),
            base,
        ) + entries_of_elem(s[i], base + enc_children(s.subrange(0, i)).len()),
{
    let one = seq![s[i]];
    assert(s.subrange(0, i + 1) =~= s.subrange(0, i) + one);
    lemma_entries_children_app(s.subrange(0, i), one, base);
    let b2 = base + enc_children(s.subrange(0, i)).len();
    assert(one.len() == 1 && one[0] == s[i]);
    assert(one.subrange(1, 1) =~= Seq::<SpecElement>::empty());
    assert(entries_of_children(one.subrange(1, 1), b2 + enc_elem(s[i]).len())
        =~= Seq::<SpecEntry>::empty());
    assert(entries_of_children(one, b2) == entries_of_elem(s[i], b2) + entries_of_children(
        one.subrange(1, 1),
        b2 + enc_elem(one[0]).len(),
    ));
    assert(entries_of_children(one, b2) =~= entries_of_elem(s[i], b2));
}

// ---------------------------------------------------------------------
// Executable walks
// ---------------------------------------------------------------------

/// Find the `EntryUID` among direct children.
pub fn find_uid(children: &Vec<Element>) -> (r: Option<u64>)
    ensures
        r == uid_of_children(models(children@)),
{
    let ghost ms = models(children@);
    let mut i: usize = 0;
    proof {
        lemma_models(children@);
        assert(ms.subrange(0, ms.len() as int) =~= ms);
    }
    while i < children.len()
        invariant
            i <= children@.len(),
            ms == models(children@),
            ms.len() == children@.len(),
            uid_of_children(ms.subrange(i as int, ms.len() as int)) == uid_of_children(ms),
        decreases children@.len() - i,
    {
        proof {
            lemma_models(children@);
            let rest = ms.subrange(i as int, ms.len() as int);
            assert(rest[0] == ms[i as int]);
            assert(rest.subrange(1, rest.len() as int) =~= ms.subrange(i + 1, ms.len() as int));
        }
        match &children[i] {
            Element::UInt { id, value } => {
                if *id == ID_ENTRY_UID {
                    return Some(*value);
                }
            },
            _ => {},
        }
        i = i + 1;
    }
    proof {
        assert(ms.subrange(ms.len() as int, ms.len() as int) =~= Seq::<SpecElement>::empty());
    }
    None
}

/// Find the first text or binary descendant with a given identifier.
pub fn find_text_elem(e: &Element, id: u32) -> (r: Option<Vec<u8>>)
    ensures
        match r {
            Some(v) => find_text_in(e.model(), id) == Some(v@),
            None => find_text_in(e.model(), id) is None,
        },
    decreases e,
{
    match e {
        Element::Bytes { id: i, data } => {
            if *i == id {
                Some(crate::decode::copy_range(data, 0, data.len()))
            } else {
                None
            }
        },
        Element::Master { children, .. } => find_text_vec(children, id),
        Element::UInt { .. } => None,
    }
}

pub fn find_text_vec(children: &Vec<Element>, id: u32) -> (r: Option<Vec<u8>>)
    ensures
        match r {
            Some(v) => find_text_children(models(children@), id) == Some(v@),
            None => find_text_children(models(children@), id) is None,
        },
    decreases children,
{
    let ghost ms = models(children@);
    let mut i: usize = 0;
    proof {
        lemma_models(children@);
        assert(ms.subrange(0, ms.len() as int) =~= ms);
    }
    while i < children.len()
        invariant
            i <= children@.len(),
            ms == models(children@),
            ms.len() == children@.len(),
            find_text_children(ms.subrange(i as int, ms.len() as int), id) == find_text_children(
                ms,
                id,
            ),
        decreases children@.len() - i,
    {
        proof {
            lemma_models(children@);
            let rest = ms.subrange(i as int, ms.len() as int);
            assert(rest[0] == ms[i as int]);
            assert(rest.subrange(1, rest.len() as int) =~= ms.subrange(i + 1, ms.len() as int));
        }
        match find_text_elem(&children[i], id) {
            Some(v) => {
                return Some(v);
            },
            None => {},
        }
        i = i + 1;
    }
    proof {
        assert(ms.subrange(ms.len() as int, ms.len() as int) =~= Seq::<SpecElement>::empty());
    }
    None
}

pub fn opt_vec(o: Option<Vec<u8>>) -> (r: Vec<u8>)
    ensures
        r@ == opt_bytes(
            match o {
                Some(ref v) => Some(v@),
                None => None,
            },
        ),
{
    match o {
        Some(v) => v,
        None => Vec::new(),
    }
}

/// Encode one element, recording an index record — its absolute position
/// taken as the current output length — for every indexable entry inside.
pub fn encode_with_index(out: &mut Vec<u8>, recs: &mut Vec<IndexRecord>, e: &Element)
    requires
        elem_valid(e.model()),
    ensures
        final(out)@ == old(out)@ + enc_elem(e.model()),
        rec_models(final(recs)@) == rec_models(old(recs)@) + recs_of(
            entries_of_elem(e.model(), old(out)@.len() as nat),
        ),
    decreases e,
{
    broadcast use lemma_models;

    match e {
        Element::Master { id, children } => {
            let indexable = *id == ID_GAME_DATA_ENTRY || *id == ID_MANUAL_ENTRY;
            let uid_opt = if indexable {
                find_uid(children)
            } else {
                None
            };
            match uid_opt {
                Some(uid) => {
                    let label = opt_vec(find_text_vec(children, ID_ROM_FILE_NAME));
                    let region = opt_vec(find_text_vec(children, ID_REGION));
                    let rec = IndexRecord {
                        uid,
                        target_id: *id,
                        position: out.len() as u64,
                        label,
                        region,
                    };
                    proof {
                        lemma_rec_models_push(recs@, rec);
                    }
                    recs.push(rec);
                    encode_elem(out, e);
                    proof {
                        let es = entries_of_elem(e.model(), old(out)@.len() as nat);
                        assert(es =~= seq![
                            SpecEntry {
                                rec: record_of(e.model(), old(out)@.len() as nat),
                                elem: e.model(),
                            },
                        ]);
                        assert(recs_of(es.subrange(1, 1)) =~= Seq::<SpecIndexRecord>::empty());
                        assert(recs_of(es) =~= seq![record_of(e.model(), old(out)@.len() as nat)]);
                        assert(rec.model() =~= record_of(e.model(), old(out)@.len() as nat));
                        assert(rec_models(recs@) =~= rec_models(old(recs)@) + recs_of(es));
                    }
                },
                None => {
                    let mut buf: Vec<u8> = Vec::new();
                    encode_children(&mut buf, children);
                    crate::vint::write_id(out, *id);
                    crate::vint::write_size(out, buf.len() as u64);
                    proof {
                        crate::vint::lemma_be_bytes_len(*id as nat, id_len(*id));
                        let pl = enc_children(models(children@)).len();
                        crate::vint::lemma_be_bytes_len(
                            crate::vint::pow128(size_len(pl)) + pl,
                            size_len(pl),
                        );
                    }
                    assert(out@.len() == old(out)@.len() + payload_start(e.model()));
                    encode_children_with_index(out, recs, children);
                    proof {
                        assert(out@ =~= old(out)@ + enc_elem(e.model()));
                        assert(entries_of_elem(e.model(), old(out)@.len() as nat)
                            == entries_of_children(
                            models(children@),
                            old(out)@.len() + payload_start(e.model()),
                        ));
                    }
                },
            }
        },
        _ => {
            encode_elem(out, e);
            proof {
                assert(entries_of_elem(e.model(), old(out)@.len() as nat)
                    =~= Seq::<SpecEntry>::empty());
                assert(recs_of(Seq::<SpecEntry>::empty()) =~= Seq::<SpecIndexRecord>::empty());
                assert(rec_models(recs@) =~= rec_models(old(recs)@) + recs_of(
                    entries_of_elem(e.model(), old(out)@.len() as nat),
                ));
            }
        },
    }
}


/// Encode a run of siblings, recording index records at their absolute
/// positions (taken as the current output length).
pub fn encode_children_with_index(out: &mut Vec<u8>, recs: &mut Vec<IndexRecord>, children: &Vec<
    Element,
>)
    requires
        children_valid(models(children@)),
    ensures
        final(out)@ == old(out)@ + enc_children(models(children@)),
        rec_models(final(recs)@) == rec_models(old(recs)@) + recs_of(
            entries_of_children(models(children@), old(out)@.len() as nat),
        ),
    decreases children,
{
    let ghost base0 = old(out)@.len() as nat;
    let mut i: usize = 0;
    proof {
        lemma_models(children@);
        assert(models(children@).subrange(0, 0) =~= Seq::<SpecElement>::empty());
        assert(enc_children(models(children@).subrange(0, 0)) =~= Seq::<u8>::empty());
        assert(out@ =~= old(out)@ + enc_children(models(children@).subrange(0, 0)));
        assert(recs_of(entries_of_children(models(children@).subrange(0, 0), base0))
            =~= Seq::<SpecIndexRecord>::empty());
        assert(rec_models(recs@) =~= rec_models(old(recs)@) + recs_of(
            entries_of_children(models(children@).subrange(0, 0), base0),
        ));
    }
    while i < children.len()
        invariant
            i <= children@.len(),
            children_valid(models(children@)),
            models(children@).len() == children@.len(),
            base0 == old(out)@.len(),
            out@ == old(out)@ + enc_children(models(children@).subrange(0, i as int)),
            rec_models(recs@) == rec_models(old(recs)@) + recs_of(
                entries_of_children(models(children@).subrange(0, i as int), base0),
            ),
        decreases children@.len() - i,
    {
        proof {
            lemma_models(children@);
            assert(models(children@)[i as int] == children@[i as int].model());
            assert(elem_valid(models(children@)[i as int]));
        }
        encode_with_index(out, recs, &children[i]);
        proof {
            let ms = models(children@);
            lemma_enc_children_snoc(ms, i as int);
            lemma_entries_children_snoc(ms, i as int, base0);
            lemma_recs_of_app(
                entries_of_children(ms.subrange(0, i as int), base0),
                entries_of_elem(
                    ms[i as int],
                    base0 + enc_children(ms.subrange(0, i as int)).len(),
                ),
            );
            assert(out@ =~= old(out)@ + enc_children(ms.subrange(0, i + 1)));
            assert(rec_models(recs@) =~= rec_models(old(recs)@) + recs_of(
                entries_of_children(ms.subrange(0, i + 1), base0),
            ));
        }
        i = i + 1;
    }
    proof {
        let ms = models(children@);
        assert(ms.subrange(0, ms.len() as int) =~= ms);
    }
}


// ---------------------------------------------------------------------
// The Index element
// ---------------------------------------------------------------------

/// Why a document cannot be written.
#[derive(Clone, Copy, Debug, PartialEq, Eq, Structural)]
pub enum BuildError {
    /// Some payload, or the document itself, exceeds what a size field
    /// can declare.
    CaseTooLarge,
}

/// The largest value a size field can declare; equals `size_max()`.
pub const SIZE_LIMIT: u64 = 0xFF_FFFF_FFFF_FFFE;

/// The document type string, "gamecase", as UTF-8 bytes.
pub open spec fn spec_doctype() -> Seq<u8> {
    seq![0x67u8, 0x61u8, 0x6du8, 0x65u8, 0x63u8, 0x61u8, 0x73u8, 0x65u8]
}

pub fn doctype_bytes() -> (r: Vec<u8>)
    ensures
        r@ == spec_doctype(),
{
    let mut v: Vec<u8> = Vec::new();
    v.push(0x67);
    v.push(0x61);
    v.push(0x6d);
    v.push(0x65);
    v.push(0x63);
    v.push(0x61);
    v.push(0x73);
    v.push(0x65);
    proof {
        assert(v@ =~= spec_doctype());
    }
    v
}

/// The EBML-style header that opens every document: version, document
/// type, and the version a reader must understand.
pub open spec fn spec_ebml_header() -> SpecElement {
    SpecElement::Master {
        id: crate::schema::ID_EBML,
        children: seq![
            SpecElement::UInt { id: crate::schema::ID_EBML_VERSION, value: 1u64 },
            SpecElement::Bytes { id: crate::schema::ID_DOC_TYPE, data: spec_doctype() },
            SpecElement::UInt { id: crate::schema::ID_DOC_TYPE_VERSION, value: 1u64 },
            SpecElement::UInt { id: crate::schema::ID_DOC_TYPE_READ_VERSION, value: 1u64 },
        ],
    }
}

/// The category label stored beside an index target: the schema name of
/// the entry's element.
pub open spec fn spec_category(id: u32) -> Seq<u8> {
    if id == ID_GAME_DATA_ENTRY {
        seq![
            0x47u8,
            0x61u8,
            0x6du8,
            0x65u8,
            0x44u8,
            0x61u8,
            0x74u8,
            0x61u8,
            0x45u8,
            0x6eu8,
            0x74u8,
            0x72u8,
            0x79u8,
        ]
    } else if id == ID_MANUAL_ENTRY {
        seq![0x4du8, 0x61u8, 0x6eu8, 0x75u8, 0x61u8, 0x6cu8, 0x45u8, 0x6eu8, 0x74u8, 0x72u8, 0x79u8]
    } else {
        Seq::empty()
    }
}

pub fn category_bytes(id: u32) -> (r: Vec<u8>)
    ensures
        r@ == spec_category(id),
{
    let mut v: Vec<u8> = Vec::new();
    if id == ID_GAME_DATA_ENTRY {
        v.push(0x47);
        v.push(0x61);
        v.push(0x6d);
        v.push(0x65);
        v.push(0x44);
        v.push(0x61);
        v.push(0x74);
        v.push(0x61);
        v.push(0x45);
        v.push(0x6e);
        v.push(0x74);
        v.push(0x72);
        v.push(0x79);
        proof {
            assert(v@ =~= spec_category(id));
        }
    } else if id == ID_MANUAL_ENTRY {
        v.push(0x4d);
        v.push(0x61);
        v.push(0x6e);
        v.push(0x75);
        v.push(0x61);
        v.push(0x6c);
        v.push(0x45);
        v.push(0x6e);
        v.push(0x74);
        v.push(0x72);
        v.push(0x79);
        proof {
            assert(v@ =~= spec_category(id));
        }
    } else {
        proof {
            assert(v@ =~= spec_category(id));
        }
    }
    v
}

/// A record with its position moved by `d`: what shifting the whole body
/// by a prefix does to the index.
pub open spec fn shift_rec(r: SpecIndexRecord, d: nat) -> SpecIndexRecord {
    SpecIndexRecord {
        uid: r.uid,
        target_id: r.target_id,
        position: r.position + d,
        label: r.label,
        region: r.region,
    }
}

pub open spec fn shift_recs(rs: Seq<SpecIndexRecord>, d: nat) -> Seq<SpecIndexRecord>
    decreases rs,
{
    if rs.len() == 0 {
        Seq::empty()
    } else {
        seq![shift_rec(rs[0], d)] + shift_recs(rs.subrange(1, rs.len() as int), d)
    }
}

pub broadcast proof fn lemma_shift_recs(rs: Seq<SpecIndexRecord>, d: nat)
    ensures
        (#[trigger] shift_recs(rs, d)).len() == rs.len(),
        forall|i: int| 0 <= i < rs.len() ==> shift_recs(rs, d)[i] == shift_rec(rs[i], d),
    decreases rs,
{
    if rs.len() > 0 {
        lemma_shift_recs(rs.subrange(1, rs.len() as int), d);
    }
}

/// The six children of one `IndexEntry` element.
pub open spec fn entry_children(r: SpecIndexRecord) -> Seq<SpecElement> {
    seq![
        SpecElement::UInt { id: crate::schema::ID_INDEX_TARGET_UID, value: r.uid },
        SpecElement::UInt { id: crate::schema::ID_INDEX_TARGET_ID, value: r.target_id as u64 },
        SpecElement::UInt { id: crate::schema::ID_INDEX_POSITION, value: r.position as u64 },
        SpecElement::Bytes { id: crate::schema::ID_INDEX_TARGET, data: r.label },
        SpecElement::Bytes {
            id: crate::schema::ID_INDEX_TARGET_CATEGORY,
            data: spec_category(r.target_id),
        },
        SpecElement::Bytes { id: crate::schema::ID_INDEX_TARGET_REGION, data: r.region },
    ]
}

pub open spec fn entry_elem(r: SpecIndexRecord) -> SpecElement {
    SpecElement::Master { id: crate::schema::ID_INDEX_ENTRY, children: entry_children(r) }
}

pub open spec fn entry_elems(rs: Seq<SpecIndexRecord>) -> Seq<SpecElement>
    decreases rs,
{
    if rs.len() == 0 {
        Seq::empty()
    } else {
        seq![entry_elem(rs[0])] + entry_elems(rs.subrange(1, rs.len() as int))
    }
}

pub broadcast proof fn lemma_entry_elems(rs: Seq<SpecIndexRecord>)
    ensures
        (#[trigger] entry_elems(rs)).len() == rs.len(),
        forall|i: int| 0 <= i < rs.len() ==> entry_elems(rs)[i] == entry_elem(rs[i]),
    decreases rs,
{
    if rs.len() > 0 {
        lemma_entry_elems(rs.subrange(1, rs.len() as int));
    }
}

/// The `Index` master element carrying one `IndexEntry` per record.
pub open spec fn index_elem(rs: Seq<SpecIndexRecord>) -> SpecElement {
    SpecElement::Master { id: crate::schema::ID_INDEX, children: entry_elems(rs) }
}


// ---------------------------------------------------------------------
// The index only grows as it is pushed further into the file
// ---------------------------------------------------------------------

/// No record's shifted position overflows a 64-bit integer.
pub open spec fn ok_shift(rs: Seq<SpecIndexRecord>, d: nat) -> bool {
    forall|i: int| 0 <= i < rs.len() ==> (#[trigger] rs[i]).position + d <= u64::MAX
}

/// Unfold the six-child entry payload into a sum of lengths.
proof fn lemma_entry_payload_len(r: SpecIndexRecord)
    ensures
        enc_children(entry_children(r)).len() == enc_elem(entry_children(r)[0]).len() + enc_elem(
            entry_children(r)[1],
        ).len() + enc_elem(entry_children(r)[2]).len() + enc_elem(entry_children(r)[3]).len()
            + enc_elem(entry_children(r)[4]).len() + enc_elem(entry_children(r)[5]).len(),
{
    let cs = entry_children(r);
    let c0 = cs[0];
    let c1 = cs[1];
    let c2 = cs[2];
    let c3 = cs[3];
    let c4 = cs[4];
    let c5 = cs[5];
    assert(cs =~= seq![c0] + seq![c1, c2, c3, c4, c5]);
    crate::element::lemma_enc_children_cons(c0, seq![c1, c2, c3, c4, c5]);
    assert(seq![c1, c2, c3, c4, c5] =~= seq![c1] + seq![c2, c3, c4, c5]);
    crate::element::lemma_enc_children_cons(c1, seq![c2, c3, c4, c5]);
    assert(seq![c2, c3, c4, c5] =~= seq![c2] + seq![c3, c4, c5]);
    crate::element::lemma_enc_children_cons(c2, seq![c3, c4, c5]);
    assert(seq![c3, c4, c5] =~= seq![c3] + seq![c4, c5]);
    crate::element::lemma_enc_children_cons(c3, seq![c4, c5]);
    assert(seq![c4, c5] =~= seq![c4] + seq![c5]);
    crate::element::lemma_enc_children_cons(c4, seq![c5]);
    assert(seq![c5] =~= seq![c5] + Seq::<SpecElement>::empty());
    crate::element::lemma_enc_children_cons(c5, Seq::<SpecElement>::empty());
    assert(enc_children(Seq::<SpecElement>::empty()) =~= Seq::<u8>::empty());
}

/// Moving one entry later in the file never shrinks its encoding.
proof fn lemma_entry_len_mono(r: SpecIndexRecord, d1: nat, d2: nat)
    requires
        d1 <= d2,
        r.position + d2 <= u64::MAX,
    ensures
        enc_elem(entry_elem(shift_rec(r, d1))).len() <= enc_elem(entry_elem(shift_rec(r, d2))).len(),
{
    let r1 = shift_rec(r, d1);
    let r2 = shift_rec(r, d2);
    lemma_entry_payload_len(r1);
    lemma_entry_payload_len(r2);
    let p1 = entry_children(r1)[2];
    let p2 = entry_children(r2)[2];
    crate::element::lemma_enc_elem_len(p1);
    crate::element::lemma_enc_elem_len(p2);
    assert((r1.position as u64) as nat == r1.position);
    assert((r2.position as u64) as nat == r2.position);
    crate::vint::lemma_uint_len_mono(r1.position, r2.position);
    assert(crate::element::plen(p1) <= crate::element::plen(p2));
    assert(size_len(crate::element::plen(p1)) <= size_len(crate::element::plen(p2))) by {
        crate::vint::lemma_size_len_mono(crate::element::plen(p1), crate::element::plen(p2));
    }
    assert(enc_elem(p1).len() <= enc_elem(p2).len());
    let e1 = entry_elem(r1);
    let e2 = entry_elem(r2);
    crate::element::lemma_enc_elem_len(e1);
    crate::element::lemma_enc_elem_len(e2);
    assert(crate::element::plen(e1) <= crate::element::plen(e2));
    crate::vint::lemma_size_len_mono(crate::element::plen(e1), crate::element::plen(e2));
}

/// Moving all entries later never shrinks the index body.
proof fn lemma_entries_len_mono(rs: Seq<SpecIndexRecord>, d1: nat, d2: nat)
    requires
        d1 <= d2,
        ok_shift(rs, d2),
    ensures
        enc_children(entry_elems(shift_recs(rs, d1))).len() <= enc_children(
            entry_elems(shift_recs(rs, d2)),
        ).len(),
    decreases rs,
{
    if rs.len() == 0 {
        assert(shift_recs(rs, d1) =~= Seq::<SpecIndexRecord>::empty());
        assert(shift_recs(rs, d2) =~= Seq::<SpecIndexRecord>::empty());
        assert(entry_elems(Seq::<SpecIndexRecord>::empty()) =~= Seq::<SpecElement>::empty());
    } else {
        let rest = rs.subrange(1, rs.len() as int);
        let s1 = shift_recs(rs, d1);
        let s2 = shift_recs(rs, d2);
        assert(s1 == seq![shift_rec(rs[0], d1)] + shift_recs(rest, d1));
        assert(s2 == seq![shift_rec(rs[0], d2)] + shift_recs(rest, d2));
        assert(s1[0] == shift_rec(rs[0], d1));
        assert(s2[0] == shift_rec(rs[0], d2));
        assert(s1.subrange(1, s1.len() as int) =~= shift_recs(rest, d1)) by {
            lemma_shift_recs(rs, d1);
            lemma_shift_recs(rest, d1);
            assert forall|i: int| 0 <= i < rest.len() implies s1.subrange(1, s1.len() as int)[i]
                == shift_recs(rest, d1)[i] by {
                assert(s1[i + 1] == shift_rec(rs[i + 1], d1));
                assert(rest[i] == rs[i + 1]);
            }
        }
        assert(s2.subrange(1, s2.len() as int) =~= shift_recs(rest, d2)) by {
            lemma_shift_recs(rs, d2);
            lemma_shift_recs(rest, d2);
            assert forall|i: int| 0 <= i < rest.len() implies s2.subrange(1, s2.len() as int)[i]
                == shift_recs(rest, d2)[i] by {
                assert(s2[i + 1] == shift_rec(rs[i + 1], d2));
                assert(rest[i] == rs[i + 1]);
            }
        }
        assert(entry_elems(s1) == seq![entry_elem(s1[0])] + entry_elems(shift_recs(rest, d1)));
        assert(entry_elems(s2) == seq![entry_elem(s2[0])] + entry_elems(shift_recs(rest, d2)));
        crate::element::lemma_enc_children_cons(entry_elem(s1[0]), entry_elems(shift_recs(rest, d1)));
        crate::element::lemma_enc_children_cons(entry_elem(s2[0]), entry_elems(shift_recs(rest, d2)));
        assert(rs[0].position + d2 <= u64::MAX);
        lemma_entry_len_mono(rs[0], d1, d2);
        assert(ok_shift(rest, d2)) by {
            assert forall|i: int| 0 <= i < rest.len() implies (#[trigger] rest[i]).position + d2
                <= u64::MAX by {
                assert(rest[i] == rs[i + 1]);
            }
        }
        lemma_entries_len_mono(rest, d1, d2);
    }
}

/// Moving the whole index later in the file never shrinks it.
pub proof fn lemma_index_len_mono(rs: Seq<SpecIndexRecord>, d1: nat, d2: nat)
    requires
        d1 <= d2,
        ok_shift(rs, d2),
    ensures
        enc_elem(index_elem(shift_recs(rs, d1))).len() <= enc_elem(
            index_elem(shift_recs(rs, d2)),
        ).len(),
{
    lemma_entries_len_mono(rs, d1, d2);
    let e1 = index_elem(shift_recs(rs, d1));
    let e2 = index_elem(shift_recs(rs, d2));
    crate::element::lemma_enc_elem_len(e1);
    crate::element::lemma_enc_elem_len(e2);
    crate::vint::lemma_size_len_mono(crate::element::plen(e1), crate::element::plen(e2));
}


// ---------------------------------------------------------------------
// Building the Index element and the whole document
// ---------------------------------------------------------------------

/// The index these records make, shifted by `delta`, fits the format:
/// every shifted position fits 64 bits, every stored field and every
/// entry fits a size field, and so does the index itself.
pub open spec fn index_fits(rms: Seq<SpecIndexRecord>, delta: nat) -> bool {
    &&& ok_shift(rms, delta)
    &&& forall|i: int|
        0 <= i < rms.len() ==> (#[trigger] rms[i]).label.len() <= size_max() && rms[i].region.len()
            <= size_max()
    &&& forall|i: int|
        0 <= i < rms.len() ==> enc_children(
            entry_children(shift_rec(#[trigger] rms[i], delta)),
        ).len() <= size_max()
    &&& enc_children(entry_elems(shift_recs(rms, delta))).len() <= size_max()
}

/// Build the `Index` element for records shifted by `delta`, and its
/// encoding. This succeeds exactly when the index fits the format.
pub fn build_index_elem(recs: &Vec<IndexRecord>, delta: u64) -> (r: Result<
    (Element, Vec<u8>),
    BuildError,
>)
    ensures
        match r {
            Ok((ix, bytes)) => {
                &&& index_fits(rec_models(recs@), delta as nat)
                &&& ix.model() == index_elem(shift_recs(rec_models(recs@), delta as nat))
                &&& elem_valid(ix.model())
                &&& bytes@ == enc_elem(ix.model())
            },
            Err(e) => e == BuildError::CaseTooLarge && !index_fits(
                rec_models(recs@),
                delta as nat,
            ),
        },
{
    let ghost rms = rec_models(recs@);
    let ghost shifted = shift_recs(rms, delta as nat);
    let mut entries: Vec<Element> = Vec::new();
    let mut k: usize = 0;
    proof {
        lemma_rec_models(recs@);
        lemma_shift_recs(rms, delta as nat);
        lemma_entry_elems(shifted);
    }
    while k < recs.len()
        invariant
            k <= recs@.len(),
            rms == rec_models(recs@),
            shifted == shift_recs(rms, delta as nat),
            rms.len() == recs@.len(),
            shifted.len() == rms.len(),
            forall|j: int| 0 <= j < rms.len() ==> rms[j] == recs@[j].model(),
            forall|j: int| 0 <= j < rms.len() ==> shifted[j] == shift_rec(rms[j], delta as nat),
            entries@.len() == k,
            forall|j: int|
                0 <= j < k ==> (#[trigger] entries@[j].model()) == entry_elem(shifted[j]),
            forall|j: int| 0 <= j < k ==> elem_valid(#[trigger] entries@[j].model()),
            forall|j: int| 0 <= j < k ==> (#[trigger] rms[j]).position + delta <= u64::MAX,
            forall|j: int|
                0 <= j < k ==> (#[trigger] rms[j]).label.len() <= size_max() && rms[j].region.len()
                    <= size_max(),
            forall|j: int|
                0 <= j < k ==> enc_children(entry_children(shift_rec(#[trigger] rms[j], delta as nat))).len()
                    <= size_max(),
        decreases recs@.len() - k,
    {
        let rec = &recs[k];
        if rec.position > u64::MAX - delta {
            proof {
                assert(rms[k as int].position + delta > u64::MAX);
                assert(!ok_shift(rms, delta as nat));
            }
            return Err(BuildError::CaseTooLarge);
        }
        if rec.label.len() as u64 > SIZE_LIMIT || rec.region.len() as u64 > SIZE_LIMIT {
            proof {
                assert(rms[k as int].label.len() > size_max() || rms[k as int].region.len()
                    > size_max());
            }
            return Err(BuildError::CaseTooLarge);
        }
        let pos: u64 = rec.position + delta;
        let mut cs: Vec<Element> = Vec::new();
        cs.push(Element::UInt { id: crate::schema::ID_INDEX_TARGET_UID, value: rec.uid });
        cs.push(
            Element::UInt { id: crate::schema::ID_INDEX_TARGET_ID, value: rec.target_id as u64 },
        );
        cs.push(Element::UInt { id: crate::schema::ID_INDEX_POSITION, value: pos });
        cs.push(
            Element::Bytes {
                id: crate::schema::ID_INDEX_TARGET,
                data: crate::decode::copy_range(&rec.label, 0, rec.label.len()),
            },
        );
        cs.push(
            Element::Bytes {
                id: crate::schema::ID_INDEX_TARGET_CATEGORY,
                data: category_bytes(rec.target_id),
            },
        );
        cs.push(
            Element::Bytes {
                id: crate::schema::ID_INDEX_TARGET_REGION,
                data: crate::decode::copy_range(&rec.region, 0, rec.region.len()),
            },
        );
        proof {
            lemma_models(cs@);
            assert(rec.label@.subrange(0, rec.label@.len() as int) =~= rec.label@);
            assert(rec.region@.subrange(0, rec.region@.len() as int) =~= rec.region@);
            assert(models(cs@) =~= entry_children(shifted[k as int]));
            assert(children_valid(entry_children(shifted[k as int])));
        }
        let mut pbuf: Vec<u8> = Vec::new();
        encode_children(&mut pbuf, &cs);
        if pbuf.len() as u64 > SIZE_LIMIT {
            proof {
                assert(enc_children(entry_children(shift_rec(rms[k as int], delta as nat))).len()
                    > size_max());
            }
            return Err(BuildError::CaseTooLarge);
        }
        let entry = Element::Master { id: crate::schema::ID_INDEX_ENTRY, children: cs };
        proof {
            assert(entry.model() =~= entry_elem(shifted[k as int]));
            assert(elem_valid(entry.model()));
        }
        entries.push(entry);
        k = k + 1;
    }
    proof {
        lemma_models(entries@);
        assert(models(entries@) =~= entry_elems(shifted));
        assert(children_valid(entry_elems(shifted)));
    }
    let mut ibuf: Vec<u8> = Vec::new();
    encode_children(&mut ibuf, &entries);
    if ibuf.len() as u64 > SIZE_LIMIT {
        proof {
            assert(enc_children(entry_elems(shift_recs(rms, delta as nat))).len() > size_max());
        }
        return Err(BuildError::CaseTooLarge);
    }
    let mut bytes: Vec<u8> = Vec::new();
    crate::vint::write_id(&mut bytes, crate::schema::ID_INDEX);
    crate::vint::write_size(&mut bytes, ibuf.len() as u64);
    crate::element::append_bytes(&mut bytes, &ibuf);
    let ix = Element::Master { id: crate::schema::ID_INDEX, children: entries };
    proof {
        assert(ix.model() =~= index_elem(shifted));
        assert(elem_valid(ix.model()));
        assert(bytes@ =~= enc_elem(ix.model()));
    }
    Ok((ix, bytes))
}

/// The root element of a written document: the index first, then the
/// body.
pub open spec fn spec_gamecase(ix: SpecElement, body: Seq<SpecElement>) -> SpecElement {
    SpecElement::Master { id: crate::schema::ID_GAME_CASE, children: seq![ix] + body }
}

/// The shape of every written document: the EBML-style header, then one
/// `GameCase` element whose first child is the `Index`; the index records
/// are exactly those of the body walk, shifted to absolute positions (the
/// body starts where the encodings before it end).
pub open spec fn case_shape_with(bytes: Seq<u8>, ix: SpecElement, body: Seq<SpecElement>) -> bool {
    &&& elem_valid(spec_ebml_header())
    &&& elem_valid(spec_gamecase(ix, body))
    &&& bytes == enc_elem(spec_ebml_header()) + enc_elem(spec_gamecase(ix, body))
    &&& enc_children(body).len() <= bytes.len()
    &&& ix == index_elem(
        shift_recs(
            recs_of(entries_of_children(body, 0)),
            (bytes.len() - enc_children(body).len()) as nat,
        ),
    )
    &&& ok_shift(
        recs_of(entries_of_children(body, 0)),
        (bytes.len() - enc_children(body).len()) as nat,
    )
}

pub open spec fn case_shape(bytes: Seq<u8>, body: Seq<SpecElement>) -> bool {
    exists|ix: SpecElement| case_shape_with(bytes, ix, body)
}

/// Serialize a document: the EBML-style header, then `GameCase` holding
/// the `Index` and the body. Index positions are absolute and point at
/// each entry's first identifier byte; the index length is fixed by
/// iterating until the positions it forces agree with the length it has,
/// which only ever grows the index, so the climb stops at a fixed point.
/// The one failure, `CaseTooLarge`, needs a body, a stored field, or the
/// index to outgrow what a size field can declare (about 2^56 bytes), or
/// an absolute position beyond 64 bits.
pub fn serialize_case(body: &Vec<Element>) -> (r: Result<Vec<u8>, BuildError>)
    requires
        children_valid(models(body@)),
    ensures
        match r {
            Ok(bytes) => case_shape(bytes@, models(body@)),
            Err(e) => e == BuildError::CaseTooLarge,
        },
        case_fits(models(body@)) ==> r is Ok,
{
    let mut bodybuf: Vec<u8> = Vec::new();
    let mut recs: Vec<IndexRecord> = Vec::new();
    proof {
        assert(rec_models(recs@) =~= Seq::<SpecIndexRecord>::empty());
    }
    encode_children_with_index(&mut bodybuf, &mut recs, body);
    let ghost rms = rec_models(recs@);
    proof {
        assert(rms =~= Seq::<SpecIndexRecord>::empty() + recs_of(
            entries_of_children(models(body@), 0),
        ));
        assert(rms == recs_of(entries_of_children(models(body@), 0)));
    }
    if bodybuf.len() as u64 > SIZE_LIMIT {
        proof {
            assert(!case_fits(models(body@)));
        }
        return Err(BuildError::CaseTooLarge);
    }
    // the header prefix
    let mut hkids: Vec<Element> = Vec::new();
    hkids.push(Element::UInt { id: crate::schema::ID_EBML_VERSION, value: 1 });
    hkids.push(Element::Bytes { id: crate::schema::ID_DOC_TYPE, data: doctype_bytes() });
    hkids.push(Element::UInt { id: crate::schema::ID_DOC_TYPE_VERSION, value: 1 });
    hkids.push(Element::UInt { id: crate::schema::ID_DOC_TYPE_READ_VERSION, value: 1 });
    proof {
        lemma_models(hkids@);
        assert(models(hkids@) =~= spec_ebml_header()->Master_children);
        assert(children_valid(models(hkids@)));
    }
    proof {
        lemma_header_element_valid();
    }
    let mut hb: Vec<u8> = Vec::new();
    encode_children(&mut hb, &hkids);
    if hb.len() as u64 > SIZE_LIMIT {
        return Err(BuildError::CaseTooLarge);
    }
    let mut prefix: Vec<u8> = Vec::new();
    crate::vint::write_id(&mut prefix, crate::schema::ID_EBML);
    crate::vint::write_size(&mut prefix, hb.len() as u64);
    crate::element::append_bytes(&mut prefix, &hb);
    proof {
        assert(elem_valid(spec_ebml_header()));
        assert(prefix@ =~= enc_elem(spec_ebml_header()));
    }
    if prefix.len() as u64 > SIZE_LIMIT {
        return Err(BuildError::CaseTooLarge);
    }
    // fix the index length by iteration; the index only grows when pushed
    // further into the file, so the length climbs to a fixed point
    let bodylen: u64 = bodybuf.len() as u64;
    let plen_prefix: u64 = prefix.len() as u64;
    let mut ell: u64 = 0;
    loop
        invariant
            children_valid(models(body@)),
            rms == rec_models(recs@),
            rms == recs_of(entries_of_children(models(body@), 0)),
            bodybuf@ == enc_children(models(body@)),
            bodylen == bodybuf@.len(),
            bodylen <= SIZE_LIMIT,
            prefix@ == enc_elem(spec_ebml_header()),
            elem_valid(spec_ebml_header()),
            plen_prefix == prefix@.len(),
            plen_prefix <= SIZE_LIMIT,
            ell <= SIZE_LIMIT,
            case_fits(models(body@)) ==> ell as nat <= ix_budget(rms),
            ok_shift(rms, spec_delta(plen_prefix as nat, bodylen as nat, ell as nat)) ==> ell
                as nat <= spec_ixlen(
                rms,
                spec_delta(plen_prefix as nat, bodylen as nat, ell as nat),
            ),
        decreases SIZE_LIMIT + 1 - ell,
    {
        if ell > SIZE_LIMIT - bodylen {
            proof {
                assert(!case_fits(models(body@)));
            }
            return Err(BuildError::CaseTooLarge);
        }
        let gcsz: u64 = ell + bodylen;
        let szl: usize = crate::vint::size_len_exec(gcsz);
        let delta: u64 = plen_prefix + 2 + szl as u64 + ell;
        assert(delta as nat == spec_delta(plen_prefix as nat, bodylen as nat, ell as nat));
        match build_index_elem(&recs, delta) {
            Err(e) => {
                proof {
                    if case_fits(models(body@)) {
                        lemma_case_fits_index_fits(models(body@), rms, delta as nat);
                        assert(false);
                    }
                }
                return Err(e);
            },
            Ok((ix, ixbytes)) => {
                proof {
                    assert(ixbytes@.len() == spec_ixlen(rms, delta as nat));
                }
                if ixbytes.len() as u64 == ell {
                    // stable: assemble the document
                    let mut out = prefix;
                    crate::vint::write_id(&mut out, crate::schema::ID_GAME_CASE);
                    crate::vint::write_size(&mut out, gcsz);
                    crate::element::append_bytes(&mut out, &ixbytes);
                    crate::element::append_bytes(&mut out, &bodybuf);
                    proof {
                        let bm = models(body@);
                        let gcch = seq![ix.model()] + bm;
                        crate::element::lemma_enc_children_cons(ix.model(), bm);
                        assert(enc_children(gcch).len() == gcsz);
                        assert(children_valid(gcch)) by {
                            assert forall|i: int| 0 <= i < gcch.len() implies elem_valid(
                                #[trigger] gcch[i],
                            ) by {
                                if i == 0 {
                                    assert(gcch[0] == ix.model());
                                } else {
                                    assert(gcch[i] == bm[i - 1]);
                                }
                            }
                        }
                        assert(elem_valid(spec_gamecase(ix.model(), bm)));
                        assert(out@ =~= enc_elem(spec_ebml_header()) + enc_elem(
                            spec_gamecase(ix.model(), bm),
                        ));
                        crate::vint::lemma_be_bytes_len(
                            crate::schema::ID_GAME_CASE as nat,
                            crate::vint::id_len(crate::schema::ID_GAME_CASE),
                        );
                        crate::vint::lemma_be_bytes_len(
                            crate::vint::pow128(size_len(gcsz as nat)) + gcsz as nat,
                            size_len(gcsz as nat),
                        );
                        assert(out@.len() - enc_children(bm).len() == delta);
                        assert(case_shape_with(out@, ix.model(), bm));
                    }
                    return Ok(out);
                }
                if ixbytes.len() as u64 > SIZE_LIMIT {
                    proof {
                        if case_fits(models(body@)) {
                            lemma_ixlen_bound(rms, delta as nat);
                            assert(false);
                        }
                    }
                    return Err(BuildError::CaseTooLarge);
                }
                let newell: u64 = ixbytes.len() as u64;
                proof {
                    lemma_ixlen_bound(rms, delta as nat);
                    // the invariant held with its hypothesis satisfied, so
                    // the length strictly grew; re-establish it for newell
                    assert(ell < newell);
                    let d1 = spec_delta(plen_prefix as nat, bodylen as nat, ell as nat);
                    let d2 = spec_delta(plen_prefix as nat, bodylen as nat, newell as nat);
                    assert(d1 <= d2) by {
                        crate::vint::lemma_size_len_mono(
                            (ell + bodylen) as nat,
                            (newell + bodylen) as nat,
                        );
                    }
                    if ok_shift(rms, d2) {
                        lemma_index_len_mono(rms, d1, d2);
                    }
                }
                ell = newell;
            },
        }
    }
}

/// Where the index the loop builds would land, given the lengths that
/// precede the body: header, `GameCase` identifier and size field, and
/// the index itself.
pub open spec fn spec_delta(prefix: nat, bodylen: nat, ell: nat) -> nat {
    prefix + 2 + size_len(ell + bodylen) + ell
}

/// The length of the index element for records shifted by `d`.
pub open spec fn spec_ixlen(rs: Seq<SpecIndexRecord>, d: nat) -> nat {
    enc_elem(index_elem(shift_recs(rs, d))).len()
}


/// The header element that opens every document is itself writable, and
/// its size is fixed: a 23-byte payload in a 28-byte element.
pub proof fn lemma_header_element_valid()
    ensures
        elem_valid(spec_ebml_header()),
        enc_elem(spec_ebml_header()).len() == 28,
        match spec_ebml_header() {
            SpecElement::Master { children, .. } => enc_children(children).len() == 23,
            _ => false,
        },
{
    crate::element::lemma_enc_elem_len(spec_ebml_header());
    let ch = match spec_ebml_header() {
        SpecElement::Master { children, .. } => children,
        _ => Seq::empty(),
    };
    let c0 = ch[0];
    let c1 = ch[1];
    let c2 = ch[2];
    let c3 = ch[3];
    assert(ch =~= seq![c0] + seq![c1, c2, c3]);
    crate::element::lemma_enc_children_cons(c0, seq![c1, c2, c3]);
    assert(seq![c1, c2, c3] =~= seq![c1] + seq![c2, c3]);
    crate::element::lemma_enc_children_cons(c1, seq![c2, c3]);
    assert(seq![c2, c3] =~= seq![c2] + seq![c3]);
    crate::element::lemma_enc_children_cons(c2, seq![c3]);
    assert(seq![c3] =~= seq![c3] + Seq::<SpecElement>::empty());
    crate::element::lemma_enc_children_cons(c3, Seq::<SpecElement>::empty());
    assert(enc_children(Seq::<SpecElement>::empty()) =~= Seq::<u8>::empty());
    crate::element::lemma_enc_elem_len(c0);
    crate::element::lemma_enc_elem_len(c1);
    crate::element::lemma_enc_elem_len(c2);
    crate::element::lemma_enc_elem_len(c3);
    assert(enc_children(ch).len() <= size_max());
    assert(spec_doctype().len() == 8);
    assert(elem_valid(c0) && elem_valid(c1) && elem_valid(c2) && elem_valid(c3));
    assert(children_valid(ch)) by {
        assert forall|i: int| 0 <= i < ch.len() implies elem_valid(#[trigger] ch[i]) by {
            assert(ch[0] == c0 && ch[1] == c1 && ch[2] == c2 && ch[3] == c3);
        }
    }
}


// ---------------------------------------------------------------------
// When serialization is owed: a budget the index can never outgrow
// ---------------------------------------------------------------------

/// A coarse upper bound on the bytes one index entry can take, wherever
/// in the file it lands: fixed fields and headers never exceed 80 bytes,
/// and the label and region ride along.
pub open spec fn sum_entries(rms: Seq<SpecIndexRecord>) -> nat
    decreases rms,
{
    if rms.len() == 0 {
        0
    } else {
        80 + rms[0].label.len() + rms[0].region.len() + sum_entries(
            rms.subrange(1, rms.len() as int),
        )
    }
}

/// A coarse upper bound on the whole `Index` element.
pub open spec fn ix_budget(rms: Seq<SpecIndexRecord>) -> nat {
    10 + sum_entries(rms)
}

/// A document the writer owes a serialization for: body and index budget
/// fit a size field with room for the fixed framing.
pub open spec fn case_fits(body: Seq<SpecElement>) -> bool {
    enc_children(body).len() + ix_budget(recs_of(entries_of_children(body, 0))) + 64 <= size_max()
}

/// The budget covers each of its entries.
proof fn lemma_sum_entries_each(rms: Seq<SpecIndexRecord>, i: int)
    requires
        0 <= i < rms.len(),
    ensures
        80 + rms[i].label.len() + rms[i].region.len() <= sum_entries(rms),
    decreases rms,
{
    if i > 0 {
        let rest = rms.subrange(1, rms.len() as int);
        assert(rest[i - 1] == rms[i]);
        lemma_sum_entries_each(rest, i - 1);
    }
}

/// One shifted entry never exceeds its budget, and neither does its
/// payload.
proof fn lemma_entry_len_bound(r: SpecIndexRecord, d: nat)
    ensures
        enc_children(entry_children(shift_rec(r, d))).len() <= 70 + r.label.len()
            + r.region.len(),
        enc_elem(entry_elem(shift_rec(r, d))).len() <= 80 + r.label.len() + r.region.len(),
{
    let rr = shift_rec(r, d);
    lemma_entry_payload_len(rr);
    let cs = entry_children(rr);
    crate::element::lemma_enc_elem_len(cs[0]);
    crate::element::lemma_enc_elem_len(cs[1]);
    crate::element::lemma_enc_elem_len(cs[2]);
    crate::element::lemma_enc_elem_len(cs[3]);
    crate::element::lemma_enc_elem_len(cs[4]);
    crate::element::lemma_enc_elem_len(cs[5]);
    let e = entry_elem(rr);
    crate::element::lemma_enc_elem_len(e);
}

/// The index body never exceeds the summed budget, wherever it lands.
proof fn lemma_entries_len_bound(rms: Seq<SpecIndexRecord>, d: nat)
    ensures
        enc_children(entry_elems(shift_recs(rms, d))).len() <= sum_entries(rms),
    decreases rms,
{
    if rms.len() == 0 {
        assert(shift_recs(rms, d) =~= Seq::<SpecIndexRecord>::empty());
        assert(entry_elems(Seq::<SpecIndexRecord>::empty()) =~= Seq::<SpecElement>::empty());
        assert(enc_children(Seq::<SpecElement>::empty()) =~= Seq::<u8>::empty());
    } else {
        let rest = rms.subrange(1, rms.len() as int);
        let sh = shift_recs(rms, d);
        assert(sh == seq![shift_rec(rms[0], d)] + shift_recs(rest, d));
        assert(sh[0] == shift_rec(rms[0], d));
        assert(sh.subrange(1, sh.len() as int) =~= shift_recs(rest, d)) by {
            lemma_shift_recs(rms, d);
            lemma_shift_recs(rest, d);
            assert forall|i: int| 0 <= i < rest.len() implies sh.subrange(1, sh.len() as int)[i]
                == shift_recs(rest, d)[i] by {
                assert(sh[i + 1] == shift_rec(rms[i + 1], d));
                assert(rest[i] == rms[i + 1]);
            }
        }
        assert(entry_elems(sh) == seq![entry_elem(sh[0])] + entry_elems(shift_recs(rest, d)));
        crate::element::lemma_enc_children_cons(entry_elem(sh[0]), entry_elems(shift_recs(rest, d)));
        lemma_entry_len_bound(rms[0], d);
        lemma_entries_len_bound(rest, d);
    }
}

/// The whole `Index` element never exceeds its budget, wherever it lands.
pub proof fn lemma_ixlen_bound(rms: Seq<SpecIndexRecord>, d: nat)
    ensures
        spec_ixlen(rms, d) <= ix_budget(rms),
{
    lemma_entries_len_bound(rms, d);
    let e = index_elem(shift_recs(rms, d));
    crate::element::lemma_enc_elem_len(e);
}

/// Every record of the body walk points inside the body.
pub proof fn lemma_positions_bound(cs: Seq<SpecElement>, base: nat)
    requires
        children_valid(cs),
    ensures
        forall|k: int|
            0 <= k < entries_of_children(cs, base).len() ==> (#[trigger] entries_of_children(
                cs,
                base,
            )[k]).rec.position <= base + enc_children(cs).len(),
{
    assert forall|k: int| 0 <= k < entries_of_children(cs, base).len() implies (
    #[trigger] entries_of_children(cs, base)[k]).rec.position <= base + enc_children(
        cs,
    ).len() by {
        crate::laws::lemma_located_children(cs, base, k);
    }
}


/// Under the writer's budget, the index fits at any landing offset the
/// loop can propose.
proof fn lemma_case_fits_index_fits(body: Seq<SpecElement>, rms: Seq<SpecIndexRecord>, delta: nat)
    requires
        children_valid(body),
        case_fits(body),
        rms == recs_of(entries_of_children(body, 0)),
        delta <= 38 + size_max() + size_max(),
    ensures
        index_fits(rms, delta),
{
    let es = entries_of_children(body, 0);
    lemma_recs_of(es);
    lemma_positions_bound(body, 0);
    assert(ok_shift(rms, delta)) by {
        assert forall|i: int| 0 <= i < rms.len() implies (#[trigger] rms[i]).position + delta
            <= u64::MAX by {
            assert(rms[i] == es[i].rec);
            assert(es[i].rec.position <= enc_children(body).len());
        }
    }
    assert forall|i: int| 0 <= i < rms.len() implies (#[trigger] rms[i]).label.len() <= size_max()
        && rms[i].region.len() <= size_max() by {
        lemma_sum_entries_each(rms, i);
    }
    assert forall|i: int| 0 <= i < rms.len() implies enc_children(
        entry_children(shift_rec(#[trigger] rms[i], delta)),
    ).len() <= size_max() by {
        lemma_entry_len_bound(rms[i], delta);
        lemma_sum_entries_each(rms, i);
    }
    lemma_entries_len_bound(rms, delta);
}

} // verus!







