//! The element tree and its encoding.
//!
//! A document is a tree of elements: unsigned-integer scalars, text or
//! binary scalars (both carried as raw bytes), and master elements holding
//! child elements. `enc_elem` is the mathematical form of the on-disk
//! encoding; the executable encoder is proved to produce exactly it.

use vstd::prelude::*;

verus! {

use crate::schema::{spec_kind_of, ElementKind};
use crate::vint::{
    enc_id,
    id_valid,
    enc_size,
    enc_uint,
    id_len,
    lemma_uint_len,
    size_len,
    size_max,
    uint_len,
    uint_len_exec,
    write_be,
    write_id,
    write_size,
};

broadcast use crate::schema::lemma_registered_id_valid;


/// One element of a document tree.
pub enum Element {
    /// An unsigned-integer scalar.
    UInt { id: u32, value: u64 },
    /// A text or binary scalar; text is carried as its UTF-8 bytes.
    Bytes { id: u32, data: Vec<u8> },
    /// A container of child elements.
    Master { id: u32, children: Vec<Element> },
}

/// The mathematical form of an element tree.
pub enum SpecElement {
    UInt { id: u32, value: u64 },
    Bytes { id: u32, data: Seq<u8> },
    Master { id: u32, children: Seq<SpecElement> },
}

impl Element {
    /// The mathematical value of this tree.
    pub open spec fn model(self) -> SpecElement
        decreases self,
    {
        match self {
            Element::UInt { id, value } => SpecElement::UInt { id, value },
            Element::Bytes { id, data } => SpecElement::Bytes { id, data: data@ },
            Element::Master { id, children } => SpecElement::Master {
                id,
                children: models(children@),
            },
        }
    }

    /// The element's identifier.
    pub fn id(&self) -> (r: u32)
        ensures
            r == self.model().id(),
    {
        match self {
            Element::UInt { id, .. } => *id,
            Element::Bytes { id, .. } => *id,
            Element::Master { id, .. } => *id,
        }
    }
}

/// The mathematical values of a sequence of trees.
pub open spec fn models(s: Seq<Element>) -> Seq<SpecElement>
    decreases s,
{
    if s.len() == 0 {
        Seq::empty()
    } else {
        seq![s[0].model()] + models(s.subrange(1, s.len() as int))
    }
}

/// `models` maps the sequence pointwise.
pub broadcast proof fn lemma_models(s: Seq<Element>)
    ensures
        (#[trigger] models(s)).len() == s.len(),
        forall|i: int| 0 <= i < s.len() ==> models(s)[i] == s[i].model(),
    decreases s,
{
    if s.len() > 0 {
        lemma_models(s.subrange(1, s.len() as int));
    }
}

impl SpecElement {
    pub open spec fn id(self) -> u32 {
        match self {
            SpecElement::UInt { id, .. } => id,
            SpecElement::Bytes { id, .. } => id,
            SpecElement::Master { id, .. } => id,
        }
    }
}

/// The encoding of one element: identifier, size, payload.
pub open spec fn enc_elem(e: SpecElement) -> Seq<u8>
    decreases e,
{
    match e {
        SpecElement::UInt { id, value } => enc_id(id) + enc_size(uint_len(value as nat))
            + enc_uint(value as nat),
        SpecElement::Bytes { id, data } => enc_id(id) + enc_size(data.len()) + data,
        SpecElement::Master { id, children } => enc_id(id) + enc_size(enc_children(children).len())
            + enc_children(children),
    }
}

/// The encoding of a sequence of sibling elements, in order.
pub open spec fn enc_children(s: Seq<SpecElement>) -> Seq<u8>
    decreases s,
{
    if s.len() == 0 {
        Seq::empty()
    } else {
        enc_elem(s[0]) + enc_children(s.subrange(1, s.len() as int))
    }
}

/// A tree the codec round-trips: every scalar's identifier is registered
/// with the kind the node uses, every payload fits the size field, and a
/// master element carries either a registered master identifier or an
/// unregistered one (unknown elements are legal and skippable, and the
/// parser walks them).
pub open spec fn elem_valid(e: SpecElement) -> bool
    decreases e,
{
    match e {
        SpecElement::UInt { id, value } => spec_kind_of(id) == Some(ElementKind::UInt),
        SpecElement::Bytes { id, data } => (spec_kind_of(id) == Some(ElementKind::Text)
            || spec_kind_of(id) == Some(ElementKind::Binary)) && data.len() <= size_max(),
        SpecElement::Master { id, children } => (spec_kind_of(id) == Some(ElementKind::Master)
            || (spec_kind_of(id) is None && id_valid(id))) && enc_children(children).len()
            <= size_max() && children_valid(children),
    }
}

pub open spec fn children_valid(s: Seq<SpecElement>) -> bool
    decreases s,
{
    forall|i: int| 0 <= i < s.len() ==> elem_valid(#[trigger] s[i])
}

/// `models` commutes with push.
pub proof fn lemma_models_push(s: Seq<Element>, x: Element)
    ensures
        models(s.push(x)) == models(s).push(x.model()),
    decreases s,
{
    if s.len() == 0 {
        assert(s.push(x) =~= seq![x]);
        assert(seq![x].subrange(1, 1) =~= Seq::<Element>::empty());
        assert(models(seq![x].subrange(1, 1)) =~= Seq::<SpecElement>::empty());
        assert(models(seq![x]) =~= seq![x.model()]);
        assert(models(s) =~= Seq::<SpecElement>::empty());
        assert(models(s).push(x.model()) =~= seq![x.model()]);
    } else {
        let t = s.push(x);
        assert(t[0] == s[0]);
        assert(t.subrange(1, t.len() as int) =~= s.subrange(1, s.len() as int).push(x));
        lemma_models_push(s.subrange(1, s.len() as int), x);
        assert(models(t) =~= models(s).push(x.model()));
    }
}

// ---------------------------------------------------------------------
// Parse events
// ---------------------------------------------------------------------

/// One parse event, as the streaming parser reports them.
pub enum Event {
    /// A master element opens.
    Start { id: u32 },
    /// An unsigned-integer scalar.
    UIntScalar { id: u32, value: u64 },
    /// A text, binary or unknown scalar, with its raw payload.
    BytesScalar { id: u32, data: Vec<u8> },
    /// The most recent unmatched master element closes.
    End { id: u32 },
}

/// The mathematical form of a parse event.
pub enum SpecEvent {
    Start { id: u32 },
    UIntScalar { id: u32, value: u64 },
    BytesScalar { id: u32, data: Seq<u8> },
    End { id: u32 },
}

impl Event {
    pub open spec fn model(self) -> SpecEvent {
        match self {
            Event::Start { id } => SpecEvent::Start { id },
            Event::UIntScalar { id, value } => SpecEvent::UIntScalar { id, value },
            Event::BytesScalar { id, data } => SpecEvent::BytesScalar { id, data: data@ },
            Event::End { id } => SpecEvent::End { id },
        }
    }
}

/// The depth-first event sequence of one element.
pub open spec fn events_of(e: SpecElement) -> Seq<SpecEvent>
    decreases e,
{
    match e {
        SpecElement::UInt { id, value } => seq![SpecEvent::UIntScalar { id, value }],
        SpecElement::Bytes { id, data } => seq![SpecEvent::BytesScalar { id, data }],
        SpecElement::Master { id, children } => seq![SpecEvent::Start { id }] + events_of_children(
            children,
        ) + seq![SpecEvent::End { id }],
    }
}

/// The depth-first event sequence of a sequence of sibling elements.
pub open spec fn events_of_children(s: Seq<SpecElement>) -> Seq<SpecEvent>
    decreases s,
{
    if s.len() == 0 {
        Seq::empty()
    } else {
        events_of(s[0]) + events_of_children(s.subrange(1, s.len() as int))
    }
}

/// The mathematical values of a sequence of events.
pub open spec fn event_models(s: Seq<Event>) -> Seq<SpecEvent>
    decreases s,
{
    if s.len() == 0 {
        Seq::empty()
    } else {
        seq![s[0].model()] + event_models(s.subrange(1, s.len() as int))
    }
}

/// `event_models` commutes with push.
pub proof fn lemma_event_models_push(s: Seq<Event>, x: Event)
    ensures
        event_models(s.push(x)) == event_models(s).push(x.model()),
    decreases s,
{
    if s.len() == 0 {
        assert(s.push(x) =~= seq![x]);
        assert(seq![x].subrange(1, 1) =~= Seq::<Event>::empty());
        assert(event_models(seq![x].subrange(1, 1)) =~= Seq::<SpecEvent>::empty());
        assert(event_models(seq![x]) =~= seq![x.model()]);
        assert(event_models(s) =~= Seq::<SpecEvent>::empty());
        assert(event_models(s).push(x.model()) =~= seq![x.model()]);
    } else {
        let t = s.push(x);
        assert(t[0] == s[0]);
        assert(t.subrange(1, t.len() as int) =~= s.subrange(1, s.len() as int).push(x));
        lemma_event_models_push(s.subrange(1, s.len() as int), x);
        assert(event_models(t) =~= event_models(s).push(x.model()));
    }
}

/// Sibling event sequences concatenate.
pub proof fn lemma_events_children_app(s1: Seq<SpecElement>, s2: Seq<SpecElement>)
    ensures
        events_of_children(s1 + s2) == events_of_children(s1) + events_of_children(s2),
    decreases s1,
{
    if s1.len() == 0 {
        assert(s1 + s2 =~= s2);
        assert(events_of_children(s1) + events_of_children(s2) =~= events_of_children(s2));
    } else {
        let t = s1 + s2;
        assert(t[0] == s1[0]);
        assert(t.subrange(1, t.len() as int) =~= s1.subrange(1, s1.len() as int) + s2);
        lemma_events_children_app(s1.subrange(1, s1.len() as int), s2);
        assert(events_of_children(t) =~= events_of_children(s1) + events_of_children(s2));
    }
}

/// Appending one sibling appends its events.
pub proof fn lemma_events_children_snoc(s: Seq<SpecElement>, i: int)
    requires
        0 <= i < s.len(),
    ensures
        events_of_children(s.subrange(0, i + 1)) == events_of_children(s.subrange(0, i))
            + events_of(s[i]),
{
    let one = seq![s[i]];
    assert(s.subrange(0, i + 1) =~= s.subrange(0, i) + one);
    lemma_events_children_app(s.subrange(0, i), one);
    assert(one.len() == 1 && one[0] == s[i]);
    assert(one.subrange(1, 1) =~= Seq::<SpecElement>::empty());
    assert(events_of_children(one.subrange(1, 1)) =~= Seq::<SpecEvent>::empty());
    assert(events_of_children(one) == events_of(one[0]) + events_of_children(one.subrange(1, 1)));
    assert(events_of_children(one) =~= events_of(s[i]));
}

// ---------------------------------------------------------------------
// Encoding lemmas
// ---------------------------------------------------------------------

/// Sibling encodings concatenate.
pub proof fn lemma_enc_children_app(s1: Seq<SpecElement>, s2: Seq<SpecElement>)
    ensures
        enc_children(s1 + s2) == enc_children(s1) + enc_children(s2),
    decreases s1,
{
    if s1.len() == 0 {
        assert(s1 + s2 =~= s2);
        assert(enc_children(s1) + enc_children(s2) =~= enc_children(s2));
    } else {
        let t = s1 + s2;
        assert(t[0] == s1[0]);
        assert(t.subrange(1, t.len() as int) =~= s1.subrange(1, s1.len() as int) + s2);
        lemma_enc_children_app(s1.subrange(1, s1.len() as int), s2);
        assert(enc_children(t) =~= enc_children(s1) + enc_children(s2));
    }
}

/// Appending one sibling appends its encoding.
pub proof fn lemma_enc_children_snoc(s: Seq<SpecElement>, i: int)
    requires
        0 <= i < s.len(),
    ensures
        enc_children(s.subrange(0, i + 1)) == enc_children(s.subrange(0, i)) + enc_elem(s[i]),
{
    let one = seq![s[i]];
    assert(s.subrange(0, i + 1) =~= s.subrange(0, i) + one);
    lemma_enc_children_app(s.subrange(0, i), one);
    assert(one.len() == 1 && one[0] == s[i]);
    assert(one.subrange(1, 1) =~= Seq::<SpecElement>::empty());
    assert(enc_children(one.subrange(1, 1)) =~= Seq::<u8>::empty());
    assert(enc_children(one) == enc_elem(one[0]) + enc_children(one.subrange(1, 1)));
    assert(enc_children(one) =~= enc_elem(s[i]));
}

// ---------------------------------------------------------------------
// The executable encoder
// ---------------------------------------------------------------------

/// Append a copy of `data`.
pub fn append_bytes(out: &mut Vec<u8>, data: &Vec<u8>)
    ensures
        final(out)@ == old(out)@ + data@,
{
    let mut j: usize = 0;
    while j < data.len()
        invariant
            j <= data@.len(),
            out@ == old(out)@ + data@.subrange(0, j as int),
        decreases data@.len() - j,
    {
        out.push(data[j]);
        assert(out@ =~= old(out)@ + data@.subrange(0, j + 1));
        j = j + 1;
    }
    assert(out@ =~= old(out)@ + data@);
}

/// Encode one element to the end of `out`.
pub fn encode_elem(out: &mut Vec<u8>, e: &Element)
    requires
        elem_valid(e.model()),
    ensures
        final(out)@ == old(out)@ + enc_elem(e.model()),
    decreases e,
{
    broadcast use lemma_models;

    match e {
        Element::UInt { id, value } => {
            proof {
                lemma_uint_len(*value);
            }
            let n = uint_len_exec(*value);
            write_id(out, *id);
            write_size(out, n as u64);
            write_be(out, *value, n);
            assert(out@ =~= old(out)@ + enc_elem(e.model()));
        },
        Element::Bytes { id, data } => {
            write_id(out, *id);
            write_size(out, data.len() as u64);
            append_bytes(out, data);
            assert(out@ =~= old(out)@ + enc_elem(e.model()));
        },
        Element::Master { id, children } => {
            let mut buf: Vec<u8> = Vec::new();
            assert(children_valid(models(children@)) && enc_children(models(children@)).len()
                <= size_max());
            encode_children(&mut buf, children);
            write_id(out, *id);
            write_size(out, buf.len() as u64);
            append_bytes(out, &buf);
            assert(out@ =~= old(out)@ + enc_elem(e.model()));
        },
    }
}

/// Encode a sequence of sibling elements to the end of `out`.
pub fn encode_children(out: &mut Vec<u8>, children: &Vec<Element>)
    requires
        children_valid(models(children@)),
    ensures
        final(out)@ == old(out)@ + enc_children(models(children@)),
    decreases children,
{
    broadcast use lemma_models;

    let mut i: usize = 0;
    while i < children.len()
        invariant
            i <= children@.len(),
            children_valid(models(children@)),
            out@ == old(out)@ + enc_children(models(children@).subrange(0, i as int)),
        decreases children@.len() - i,
    {
        proof {
            lemma_models(children@);
        }
        assert(models(children@)[i as int] == children@[i as int].model());
        encode_elem(out, &children[i]);
        proof {
            lemma_enc_children_snoc(models(children@), i as int);
        }
        i = i + 1;
    }
    assert(models(children@).subrange(0, children@.len() as int) =~= models(children@));
}


/// The payload length of one element.
pub open spec fn plen(e: SpecElement) -> nat {
    match e {
        SpecElement::UInt { value, .. } => uint_len(value as nat),
        SpecElement::Bytes { data, .. } => data.len(),
        SpecElement::Master { children, .. } => enc_children(children).len(),
    }
}

/// The exact length of an element's encoding: identifier, size field,
/// payload.
pub proof fn lemma_enc_elem_len(e: SpecElement)
    ensures
        enc_elem(e).len() == id_len(e.id()) + size_len(plen(e)) + plen(e),
{
    crate::vint::lemma_be_bytes_len(e.id() as nat, id_len(e.id()));
    crate::vint::lemma_be_bytes_len(
        crate::vint::pow128(size_len(plen(e))) + plen(e),
        size_len(plen(e)),
    );
    match e {
        SpecElement::UInt { id, value } => {
            crate::vint::lemma_be_bytes_len(value as nat, uint_len(value as nat));
        },
        SpecElement::Bytes { .. } => {},
        SpecElement::Master { .. } => {},
    }
}

/// One sibling in front of a run contributes its own encoding.
pub proof fn lemma_enc_children_cons(x: SpecElement, rest: Seq<SpecElement>)
    ensures
        enc_children(seq![x] + rest) == enc_elem(x) + enc_children(rest),
{
    let t = seq![x] + rest;
    assert(t[0] == x);
    assert(t.subrange(1, t.len() as int) =~= rest);
    assert(enc_children(t) =~= enc_elem(x) + enc_children(rest));
}


/// A structural copy of one element.
pub fn clone_elem(e: &Element) -> (r: Element)
    ensures
        r.model() == e.model(),
    decreases e,
{
    match e {
        Element::UInt { id, value } => Element::UInt { id: *id, value: *value },
        Element::Bytes { id, data } => {
            let mut d: Vec<u8> = Vec::new();
            let mut j: usize = 0;
            while j < data.len()
                invariant
                    j <= data@.len(),
                    d@ == data@.subrange(0, j as int),
                decreases data@.len() - j,
            {
                d.push(data[j]);
                assert(d@ =~= data@.subrange(0, j + 1));
                j = j + 1;
            }
            assert(d@ =~= data@);
            Element::Bytes { id: *id, data: d }
        },
        Element::Master { id, children } => {
            Element::Master { id: *id, children: clone_children(children) }
        },
    }
}

/// Structural copies of a run of siblings.
pub fn clone_children(children: &Vec<Element>) -> (r: Vec<Element>)
    ensures
        models(r@) == models(children@),
    decreases children,
{
    let mut cs: Vec<Element> = Vec::new();
    let mut j: usize = 0;
    while j < children.len()
        invariant
            j <= children@.len(),
            cs@.len() == j,
            forall|i: int| 0 <= i < j ==> (#[trigger] cs@[i].model()) == children@[i].model(),
        decreases children@.len() - j,
    {
        let c = clone_elem(&children[j]);
        cs.push(c);
        j = j + 1;
    }
    proof {
        lemma_models(cs@);
        lemma_models(children@);
        assert(models(cs@) =~= models(children@));
    }
    cs
}

} // verus!


