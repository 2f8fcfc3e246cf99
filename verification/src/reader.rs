//! The random-access reader.
//!
//! `open` parses only up to and including the `Index` element: the
//! EBML-style header, the `GameCase` header, and — when the first child is
//! an `Index` — that one element, from which it builds the in-memory
//! record table. It does not parse the body eagerly. `fetch` seeks to a
//! recorded offset, confirms that the element found there carries the
//! expected schema identifier and the requested `EntryUID`, and only then
//! materializes the entry. A position that does not validate is never
//! trusted: the reader falls back to a full linear scan of the body, which
//! is slower but always correct; a stream without an `Index` takes the
//! scan path for every lookup.

use vstd::prelude::*;

verus! {

use crate::case::{
    is_indexable,
    opt_bytes,
    rec_models,
    uid_of,
    uid_of_children,
    IndexRecord,
    SpecIndexRecord,
};
use crate::codec::{read_header, spec_read_header, ElementSize, ParseError};
use crate::decode::{decode_children, decode_elem, spec_decode_children, spec_decode_elem};
use crate::element::{clone_elem, lemma_models, models, Element, SpecElement};
use crate::schema::{
    ID_EBML,
    ID_GAME_CASE,
    ID_INDEX,
    ID_INDEX_ENTRY,
    ID_INDEX_POSITION,
    ID_INDEX_TARGET,
    ID_INDEX_TARGET_ID,
    ID_INDEX_TARGET_REGION,
    ID_INDEX_TARGET_UID,
};

/// Why a lookup failed.
#[derive(Clone, Copy, Debug, PartialEq, Eq, Structural)]
pub enum FetchError {
    /// No entry with the requested `EntryUID` exists in the document.
    NotFound,
    /// The body does not decode where the lookup had to read it.
    Parse(ParseError),
}

// ---------------------------------------------------------------------
// Direct-child lookups
// ---------------------------------------------------------------------

/// The first unsigned-integer child with a given identifier.
pub open spec fn uint_child(cs: Seq<SpecElement>, id: u32) -> Option<u64>
    decreases cs,
{
    if cs.len() == 0 {
        None
    } else {
        match cs[0] {
            SpecElement::UInt { id: i, value } => if i == id {
                Some(value)
            } else {
                uint_child(cs.subrange(1, cs.len() as int), id)
            },
            _ => uint_child(cs.subrange(1, cs.len() as int), id),
        }
    }
}

/// The first text or binary child with a given identifier.
pub open spec fn bytes_child(cs: Seq<SpecElement>, id: u32) -> Option<Seq<u8>>
    decreases cs,
{
    if cs.len() == 0 {
        None
    } else {
        match cs[0] {
            SpecElement::Bytes { id: i, data } => if i == id {
                Some(data)
            } else {
                bytes_child(cs.subrange(1, cs.len() as int), id)
            },
            _ => bytes_child(cs.subrange(1, cs.len() as int), id),
        }
    }
}

pub fn uint_child_exec(children: &Vec<Element>, id: u32) -> (r: Option<u64>)
    ensures
        r == uint_child(models(children@), id),
{
    let ghost ms = models(children@);
    let mut i: usize = 0;
    proof {
        lemma_models(children@);
        assert(ms.subrange(0, ms.len() as int) =~= ms);
    }
    while i < children.len()
        invariant
            i <= children@.len(),
            ms == models(children@),
            ms.len() == children@.len(),
            uint_child(ms.subrange(i as int, ms.len() as int), id) == uint_child(ms, id),
        decreases children@.len() - i,
    {
        proof {
            lemma_models(children@);
            let rest = ms.subrange(i as int, ms.len() as int);
            assert(rest[0] == ms[i as int]);
            assert(rest.subrange(1, rest.len() as int) =~= ms.subrange(i + 1, ms.len() as int));
        }
        match &children[i] {
            Element::UInt { id: ci, value } => {
                if *ci == id {
                    return Some(*value);
                }
            },
            _ => {},
        }
        i = i + 1;
    }
    proof {
        assert(ms.subrange(ms.len() as int, ms.len() as int) =~= Seq::<SpecElement>::empty());
    }
    None
}

pub fn bytes_child_exec(children: &Vec<Element>, id: u32) -> (r: Option<Vec<u8>>)
    ensures
        match r {
            Some(v) => bytes_child(models(children@), id) == Some(v@),
            None => bytes_child(models(children@), id) is None,
        },
{
    let ghost ms = models(children@);
    let mut i: usize = 0;
    proof {
        lemma_models(children@);
        assert(ms.subrange(0, ms.len() as int) =~= ms);
    }
    while i < children.len()
        invariant
            i <= children@.len(),
            ms == models(children@),
            ms.len() == children@.len(),
            bytes_child(ms.subrange(i as int, ms.len() as int), id) == bytes_child(ms, id),
        decreases children@.len() - i,
    {
        proof {
            lemma_models(children@);
            let rest = ms.subrange(i as int, ms.len() as int);
            assert(rest[0] == ms[i as int]);
            assert(rest.subrange(1, rest.len() as int) =~= ms.subrange(i + 1, ms.len() as int));
        }
        match &children[i] {
            Element::Bytes { id: ci, data } => {
                if *ci == id {
                    return Some(crate::decode::copy_range(data, 0, data.len()));
                }
            },
            _ => {},
        }
        i = i + 1;
    }
    proof {
        assert(ms.subrange(ms.len() as int, ms.len() as int) =~= Seq::<SpecElement>::empty());
    }
    None
}

// ---------------------------------------------------------------------
// Reading the Index element back into records
// ---------------------------------------------------------------------

/// The record one `IndexEntry` element yields; `None` when a required
/// field is missing or out of range — such an entry is ignored, never an
/// error.
pub open spec fn rec_of_entry(e: SpecElement) -> Option<SpecIndexRecord> {
    match e {
        SpecElement::Master { id, children } => if id == ID_INDEX_ENTRY {
            match (uint_child(children, ID_INDEX_TARGET_UID), (
                uint_child(children, ID_INDEX_TARGET_ID),
                uint_child(children, ID_INDEX_POSITION),
            )) {
                (Some(u), (Some(t), Some(p))) => if t <= u32::MAX {
                    Some(
                        SpecIndexRecord {
                            uid: u,
                            target_id: t as u32,
                            position: p as nat,
                            label: opt_bytes(bytes_child(children, ID_INDEX_TARGET)),
                            region: opt_bytes(bytes_child(children, ID_INDEX_TARGET_REGION)),
                        },
                    )
                } else {
                    None
                },
                _ => None,
            }
        } else {
            None
        },
        _ => None,
    }
}

/// The records of an `Index` element's children, in order.
pub open spec fn recs_of_entries(cs: Seq<SpecElement>) -> Seq<SpecIndexRecord>
    decreases cs,
{
    if cs.len() == 0 {
        Seq::empty()
    } else {
        (match rec_of_entry(cs[0]) {
            Some(r) => seq![r],
            None => Seq::empty(),
        }) + recs_of_entries(cs.subrange(1, cs.len() as int))
    }
}

/// The record table of an `Index` element.
pub open spec fn spec_extract_records(ix: SpecElement) -> Seq<SpecIndexRecord> {
    match ix {
        SpecElement::Master { children, .. } => recs_of_entries(children),
        _ => Seq::empty(),
    }
}

/// Read the record table out of a decoded `Index` element.
pub fn extract_records(ix: &Element) -> (r: Vec<IndexRecord>)
    ensures
        rec_models(r@) == spec_extract_records(ix.model()),
{
    let mut out: Vec<IndexRecord> = Vec::new();
    proof {
        assert(rec_models(out@) =~= Seq::<SpecIndexRecord>::empty());
    }
    match ix {
        Element::Master { children, .. } => {
            let ghost ms = models(children@);
            let mut i: usize = 0;
            proof {
                lemma_models(children@);
                assert(ms.subrange(0, ms.len() as int) =~= ms);
                assert(rec_models(out@) + recs_of_entries(ms.subrange(0, 0))
                    =~= Seq::<SpecIndexRecord>::empty());
            }
            while i < children.len()
                invariant
                    i <= children@.len(),
                    ms == models(children@),
                    ms.len() == children@.len(),
                    rec_models(out@) == recs_of_entries(ms.subrange(0, i as int)),
                decreases children@.len() - i,
            {
                proof {
                    lemma_models(children@);
                }
                match &children[i] {
                    Element::Master { id, children: ecs } => {
                        if *id == ID_INDEX_ENTRY {
                            let uo = uint_child_exec(ecs, ID_INDEX_TARGET_UID);
                            let to = uint_child_exec(ecs, ID_INDEX_TARGET_ID);
                            let po = uint_child_exec(ecs, ID_INDEX_POSITION);
                            match (uo, (to, po)) {
                                (Some(u), (Some(t), Some(p))) => {
                                    if t <= u32::MAX as u64 {
                                        let label = crate::case::opt_vec(
                                            bytes_child_exec(ecs, ID_INDEX_TARGET),
                                        );
                                        let region = crate::case::opt_vec(
                                            bytes_child_exec(ecs, ID_INDEX_TARGET_REGION),
                                        );
                                        let rec = IndexRecord {
                                            uid: u,
                                            target_id: t as u32,
                                            position: p,
                                            label,
                                            region,
                                        };
                                        proof {
                                            crate::case::lemma_rec_models_push(out@, rec);
                                            assert(rec.model() =~= rec_of_entry(
                                                ms[i as int],
                                            )->Some_0);
                                        }
                                        out.push(rec);
                                    }
                                },
                                _ => {},
                            }
                        }
                    },
                    _ => {},
                }
                proof {
                    lemma_recs_of_entries_snoc(ms, i as int);
                }
                i = i + 1;
            }
            proof {
                assert(ms.subrange(0, ms.len() as int) =~= ms);
            }
        },
        _ => {},
    }
    out
}

/// One more entry contributes its record, if it has one.
proof fn lemma_recs_of_entries_snoc(s: Seq<SpecElement>, i: int)
    requires
        0 <= i < s.len(),
    ensures
        recs_of_entries(s.subrange(0, i + 1)) == recs_of_entries(s.subrange(0, i)) + (
        match rec_of_entry(s[i]) {
            Some(r) => seq![r],
            None => Seq::<SpecIndexRecord>::empty(),
        }),
    decreases i,
{
    if i == 0 {
        let one = s.subrange(0, 1);
        assert(one[0] == s[0]);
        assert(one.subrange(1, 1) =~= Seq::<SpecElement>::empty());
        assert(recs_of_entries(one.subrange(1, 1)) =~= Seq::<SpecIndexRecord>::empty());
        assert(s.subrange(0, 0) =~= Seq::<SpecElement>::empty());
        assert(recs_of_entries(s.subrange(0, 0)) =~= Seq::<SpecIndexRecord>::empty());
        assert(recs_of_entries(one) =~= recs_of_entries(s.subrange(0, 0)) + (
        match rec_of_entry(s[0]) {
            Some(r) => seq![r],
            None => Seq::<SpecIndexRecord>::empty(),
        }));
    } else {
        let t = s.subrange(0, i + 1);
        let u = s.subrange(0, i);
        assert(t[0] == s[0] && u[0] == s[0]);
        assert(t.subrange(1, t.len() as int) =~= s.subrange(1, s.len() as int).subrange(0, i));
        assert(u.subrange(1, u.len() as int) =~= s.subrange(1, s.len() as int).subrange(0, i - 1));
        lemma_recs_of_entries_snoc(s.subrange(1, s.len() as int), i - 1);
        assert(s.subrange(1, s.len() as int)[i - 1] == s[i]);
        assert(recs_of_entries(t) =~= recs_of_entries(u) + (
        match rec_of_entry(s[i]) {
            Some(r) => seq![r],
            None => Seq::<SpecIndexRecord>::empty(),
        }));
    }
}


// ---------------------------------------------------------------------
// Finding entries: the linear-scan ground truth
// ---------------------------------------------------------------------

/// The first record with the requested identifier.
pub open spec fn find_rec(rs: Seq<SpecIndexRecord>, uid: u64) -> Option<SpecIndexRecord>
    decreases rs,
{
    if rs.len() == 0 {
        None
    } else if rs[0].uid == uid {
        Some(rs[0])
    } else {
        find_rec(rs.subrange(1, rs.len() as int), uid)
    }
}

/// The first indexable element with the requested `EntryUID`, depth
/// first.
pub open spec fn find_entry_in(e: SpecElement, uid: u64) -> Option<SpecElement>
    decreases e,
{
    match e {
        SpecElement::Master { id, children } => if is_indexable(id) && uid_of_children(
            children,
        ) is Some {
            if uid_of_children(children) == Some(uid) {
                Some(e)
            } else {
                None
            }
        } else {
            find_entry_children(children, uid)
        },
        _ => None,
    }
}

pub open spec fn find_entry_children(cs: Seq<SpecElement>, uid: u64) -> Option<SpecElement>
    decreases cs,
{
    if cs.len() == 0 {
        None
    } else {
        match find_entry_in(cs[0], uid) {
            Some(e) => Some(e),
            None => find_entry_children(cs.subrange(1, cs.len() as int), uid),
        }
    }
}

/// What the linear scan of the body range yields for one `EntryUID`.
pub open spec fn spec_scan(s: Seq<u8>, lo: nat, hi: nat, uid: u64) -> Result<
    SpecElement,
    FetchError,
> {
    match spec_decode_children(s, lo, hi) {
        Err(e) => Err(FetchError::Parse(e)),
        Ok(cs) => match find_entry_children(cs, uid) {
            Some(e) => Ok(e),
            None => Err(FetchError::NotFound),
        },
    }
}

/// What validating one index record yields: the element at the recorded
/// position, provided it decodes, carries the expected schema identifier
/// of an indexable category, and holds the requested `EntryUID`. Anything
/// else is the `IndexInconsistency` condition and yields nothing.
pub open spec fn spec_validate_at(s: Seq<u8>, rec: SpecIndexRecord, uid: u64) -> Option<
    SpecElement,
> {
    match spec_decode_elem(s, rec.position, s.len()) {
        Ok((e, p)) => if e.id() == rec.target_id && is_indexable(rec.target_id) && uid_of(e)
            == Some(uid) {
            Some(e)
        } else {
            None
        },
        Err(_) => None,
    }
}

/// What `fetch` yields: the validated index target when the index has a
/// record for the `EntryUID` and its position withstands validation; the
/// linear scan of the body otherwise.
pub open spec fn spec_fetch_from(
    s: Seq<u8>,
    rs: Seq<SpecIndexRecord>,
    has_index: bool,
    lo: nat,
    hi: nat,
    uid: u64,
) -> Result<SpecElement, FetchError> {
    if has_index {
        match find_rec(rs, uid) {
            Some(rec) => match spec_validate_at(s, rec, uid) {
                Some(e) => Ok(e),
                None => spec_scan(s, lo, hi, uid),
            },
            None => spec_scan(s, lo, hi, uid),
        }
    } else {
        spec_scan(s, lo, hi, uid)
    }
}

/// What `open` yields: the record table (when an `Index` leads the
/// `GameCase` children), and the body range left to scan.
pub open spec fn spec_open(s: Seq<u8>) -> Result<
    (Seq<SpecIndexRecord>, bool, nat, nat),
    ParseError,
> {
    match spec_decode_elem(s, 0, s.len()) {
        Err(e) => Err(e),
        Ok((h, p1)) => if h.id() != ID_EBML {
            Err(ParseError::MalformedTag)
        } else {
            match spec_read_header(s, p1, s.len()) {
                Err(e) => Err(e),
                Ok((gid, size, p2)) => if gid != ID_GAME_CASE {
                    Err(ParseError::MalformedTag)
                } else {
                    let end = match size {
                        ElementSize::Known(n) => p2 + n as nat,
                        ElementSize::Unknown => s.len(),
                    };
                    if end > s.len() || end < p2 {
                        Err(ParseError::TruncatedElement)
                    } else {
                        match spec_read_header(s, p2, end) {
                            Ok((cid, csize, cp)) => if cid == ID_INDEX {
                                match spec_decode_elem(s, p2, end) {
                                    Ok((ix, pb)) => Ok((spec_extract_records(ix), true, pb, end)),
                                    Err(_) => Ok((Seq::empty(), false, p2, end)),
                                }
                            } else {
                                Ok((Seq::empty(), false, p2, end))
                            },
                            Err(_) => Ok((Seq::empty(), false, p2, end)),
                        }
                    }
                },
            }
        },
    }
}

// ---------------------------------------------------------------------
// The reader
// ---------------------------------------------------------------------

/// A read-only handle on an opened document.
pub struct CaseReader {
    data: Vec<u8>,
    records: Vec<IndexRecord>,
    has_index: bool,
    body_lo: usize,
    body_hi: usize,
}

impl CaseReader {
    pub closed spec fn wf(self) -> bool {
        self.body_lo <= self.body_hi <= self.data@.len()
    }

    pub closed spec fn spec_data(self) -> Seq<u8> {
        self.data@
    }

    pub closed spec fn spec_records(self) -> Seq<SpecIndexRecord> {
        rec_models(self.records@)
    }

    pub closed spec fn spec_has_index(self) -> bool {
        self.has_index
    }

    pub closed spec fn spec_lo(self) -> nat {
        self.body_lo as nat
    }

    pub closed spec fn spec_hi(self) -> nat {
        self.body_hi as nat
    }

    /// Open a document: parse the header, the `GameCase` header, and the
    /// `Index` element if one leads the children — nothing further.
    pub fn open(data: Vec<u8>) -> (r: Result<CaseReader, ParseError>)
        ensures
            match r {
                Ok(rd) => {
                    &&& rd.wf()
                    &&& rd.spec_data() == data@
                    &&& spec_open(data@) == Ok::<_, ParseError>(
                        (rd.spec_records(), rd.spec_has_index(), rd.spec_lo(), rd.spec_hi()),
                    )
                },
                Err(e) => spec_open(data@) == Err::<(Seq<SpecIndexRecord>, bool, nat, nat), _>(e),
            },
    {
        let n = data.len();
        let (h, p1) = match decode_elem(&data, 0, n) {
            Ok(t) => t,
            Err(e) => {
                return Err(e);
            },
        };
        if h.id() != ID_EBML {
            return Err(ParseError::MalformedTag);
        }
        let (gid, size, p2) = match read_header(&data, p1, n) {
            Ok(t) => t,
            Err(e) => {
                return Err(e);
            },
        };
        if gid != ID_GAME_CASE {
            return Err(ParseError::MalformedTag);
        }
        let end: usize = match size {
            ElementSize::Known(m) => {
                if m > (n - p2) as u64 {
                    return Err(ParseError::TruncatedElement);
                }
                p2 + (m as usize)
            },
            ElementSize::Unknown => n,
        };
        match read_header(&data, p2, end) {
            Ok((cid, _, _)) => {
                if cid == ID_INDEX {
                    match decode_elem(&data, p2, end) {
                        Ok((ix, pb)) => {
                            let records = extract_records(&ix);
                            return Ok(
                                CaseReader {
                                    data,
                                    records,
                                    has_index: true,
                                    body_lo: pb,
                                    body_hi: end,
                                },
                            );
                        },
                        Err(_) => {
                            proof {
                                assert(rec_models(Seq::<IndexRecord>::empty())
                                    =~= Seq::<SpecIndexRecord>::empty());
                            }
                            return Ok(
                                CaseReader {
                                    data,
                                    records: Vec::new(),
                                    has_index: false,
                                    body_lo: p2,
                                    body_hi: end,
                                },
                            );
                        },
                    }
                }
                proof {
                    assert(rec_models(Seq::<IndexRecord>::empty())
                        =~= Seq::<SpecIndexRecord>::empty());
                }
                Ok(CaseReader { data, records: Vec::new(), has_index: false, body_lo: p2, body_hi: end })
            },
            Err(_) => {
                proof {
                    assert(rec_models(Seq::<IndexRecord>::empty())
                        =~= Seq::<SpecIndexRecord>::empty());
                }
                Ok(CaseReader { data, records: Vec::new(), has_index: false, body_lo: p2, body_hi: end })
            },
        }
    }

    /// Whether the document carried an `Index` element.
    pub fn index_present(&self) -> (r: bool)
        ensures
            r == self.spec_has_index(),
    {
        self.has_index
    }

    /// How many records the index table holds.
    pub fn record_count(&self) -> (r: usize)
        ensures
            r == self.spec_records().len(),
    {
        proof {
            crate::case::lemma_rec_models(self.records@);
        }
        self.records.len()
    }

    /// Fetch one entry by its `EntryUID`: seek to the recorded offset,
    /// validate what sits there, and fall back to the linear scan when
    /// the index is missing, silent on the identifier, or inconsistent.
    pub fn fetch(&self, uid: u64) -> (r: Result<Element, FetchError>)
        requires
            self.wf(),
        ensures
            match r {
                Ok(e) => spec_fetch_from(
                    self.spec_data(),
                    self.spec_records(),
                    self.spec_has_index(),
                    self.spec_lo(),
                    self.spec_hi(),
                    uid,
                ) == Ok::<_, FetchError>(e.model()),
                Err(er) => spec_fetch_from(
                    self.spec_data(),
                    self.spec_records(),
                    self.spec_has_index(),
                    self.spec_lo(),
                    self.spec_hi(),
                    uid,
                ) == Err::<SpecElement, _>(er),
            },
    {
        if self.has_index {
            match self.find_record(uid) {
                Some(k) => {
                    match self.validate_at(k, uid) {
                        Some(e) => Ok(e),
                        None => self.scan(uid),
                    }
                },
                None => self.scan(uid),
            }
        } else {
            self.scan(uid)
        }
    }

    /// The position of the first record for a uid, if any.
    fn find_record(&self, uid: u64) -> (r: Option<usize>)
        ensures
            match r {
                Some(k) => k < self.records@.len() && find_rec(rec_models(self.records@), uid)
                    == Some(self.records@[k as int].model()),
                None => find_rec(rec_models(self.records@), uid) is None,
            },
    {
        let ghost rms = rec_models(self.records@);
        let mut i: usize = 0;
        proof {
            crate::case::lemma_rec_models(self.records@);
            assert(rms.subrange(0, rms.len() as int) =~= rms);
        }
        while i < self.records.len()
            invariant
                i <= self.records@.len(),
                rms == rec_models(self.records@),
                rms.len() == self.records@.len(),
                forall|j: int| 0 <= j < rms.len() ==> rms[j] == self.records@[j].model(),
                find_rec(rms.subrange(i as int, rms.len() as int), uid) == find_rec(rms, uid),
            decreases self.records@.len() - i,
        {
            proof {
                let rest = rms.subrange(i as int, rms.len() as int);
                assert(rest[0] == rms[i as int]);
                assert(rest.subrange(1, rest.len() as int) =~= rms.subrange(
                    i + 1,
                    rms.len() as int,
                ));
            }
            if self.records[i].uid == uid {
                return Some(i);
            }
            i = i + 1;
        }
        proof {
            assert(rms.subrange(rms.len() as int, rms.len() as int)
                =~= Seq::<SpecIndexRecord>::empty());
        }
        None
    }

    /// Seek to the k-th record's position and validate what sits there.
    fn validate_at(&self, k: usize, uid: u64) -> (r: Option<Element>)
        requires
            self.wf(),
            k < self.records@.len(),
        ensures
            match r {
                Some(e) => spec_validate_at(self.spec_data(), self.records@[k as int].model(), uid)
                    == Some(e.model()),
                None => spec_validate_at(
                    self.spec_data(),
                    self.records@[k as int].model(),
                    uid,
                ) is None,
            },
    {
        let rec = &self.records[k];
        if rec.position > self.data.len() as u64 {
            return None;
        }
        let pos: usize = rec.position as usize;
        match decode_elem(&self.data, pos, self.data.len()) {
            Ok((e, _)) => {
                if e.id() != rec.target_id {
                    return None;
                }
                if !(rec.target_id == crate::schema::ID_GAME_DATA_ENTRY || rec.target_id
                    == crate::schema::ID_MANUAL_ENTRY) {
                    return None;
                }
                let ok = match &e {
                    Element::Master { children, .. } => {
                        match crate::case::find_uid(children) {
                            Some(u) => u == uid,
                            None => false,
                        }
                    },
                    _ => false,
                };
                if ok {
                    Some(e)
                } else {
                    None
                }
            },
            Err(_) => None,
        }
    }

    /// The full linear scan of the body, the always-correct path.
    fn scan(&self, uid: u64) -> (r: Result<Element, FetchError>)
        requires
            self.wf(),
        ensures
            match r {
                Ok(e) => spec_scan(self.spec_data(), self.spec_lo(), self.spec_hi(), uid) == Ok::<
                    _,
                    FetchError,
                >(e.model()),
                Err(er) => spec_scan(self.spec_data(), self.spec_lo(), self.spec_hi(), uid)
                    == Err::<SpecElement, _>(er),
            },
    {
        match decode_children(&self.data, self.body_lo, self.body_hi) {
            Err(e) => Err(FetchError::Parse(e)),
            Ok(cs) => match find_entry_vec(&cs, uid) {
                Some(e) => Ok(e),
                None => Err(FetchError::NotFound),
            },
        }
    }
}

/// Search one element for an entry, depth first.
pub fn find_entry_elem(e: &Element, uid: u64) -> (r: Option<Element>)
    ensures
        match r {
            Some(out) => find_entry_in(e.model(), uid) == Some(out.model()),
            None => find_entry_in(e.model(), uid) is None,
        },
    decreases e,
{
    match e {
        Element::Master { id, children } => {
            let indexable = *id == crate::schema::ID_GAME_DATA_ENTRY || *id
                == crate::schema::ID_MANUAL_ENTRY;
            if indexable {
                match crate::case::find_uid(children) {
                    Some(u) => {
                        if u == uid {
                            Some(clone_elem(e))
                        } else {
                            None
                        }
                    },
                    None => find_entry_vec(children, uid),
                }
            } else {
                find_entry_vec(children, uid)
            }
        },
        _ => None,
    }
}

/// Search a run of siblings for an entry, depth first.
pub fn find_entry_vec(children: &Vec<Element>, uid: u64) -> (r: Option<Element>)
    ensures
        match r {
            Some(out) => find_entry_children(models(children@), uid) == Some(out.model()),
            None => find_entry_children(models(children@), uid) is None,
        },
    decreases children,
{
    let ghost ms = models(children@);
    let mut i: usize = 0;
    proof {
        lemma_models(children@);
        assert(ms.subrange(0, ms.len() as int) =~= ms);
    }
    while i < children.len()
        invariant
            i <= children@.len(),
            ms == models(children@),
            ms.len() == children@.len(),
            find_entry_children(ms.subrange(i as int, ms.len() as int), uid) == find_entry_children(
                ms,
                uid,
            ),
        decreases children@.len() - i,
    {
        proof {
            lemma_models(children@);
            let rest = ms.subrange(i as int, ms.len() as int);
            assert(rest[0] == ms[i as int]);
            assert(rest.subrange(1, rest.len() as int) =~= ms.subrange(i + 1, ms.len() as int));
        }
        match find_entry_elem(&children[i], uid) {
            Some(e) => {
                return Some(e);
            },
            None => {},
        }
        i = i + 1;
    }
    proof {
        assert(ms.subrange(ms.len() as int, ms.len() as int) =~= Seq::<SpecElement>::empty());
    }
    None
}

} // verus!

