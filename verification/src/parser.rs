//! The streaming parser: a pull-based event cursor over a byte stream.
//!
//! The parser is lazy (it consumes only as many bytes as the caller pulls),
//! finite (bounded by the stream length), and not restartable. Nesting is
//! enforced structurally: an `End` event always matches the most recent
//! unmatched `Start`, because the parser records each opened master element
//! on its stack. Schema parent/child legality is deliberately not enforced:
//! permissive parsing keeps the format forward-compatible, and unknown
//! master elements are still walked so their known descendants surface.

use vstd::prelude::*;

verus! {

use crate::codec::{read_header, spec_read_header, ElementSize, ParseError};
use crate::decode::{copy_range, decode_children, spec_decode_children};
use crate::element::{
    children_valid,
    elem_valid,
    enc_children,
    enc_elem,
    event_models,
    events_of,
    events_of_children,
    lemma_event_models_push,
    lemma_events_children_snoc,
    lemma_models,
    models,
    Element,
    Event,
    SpecElement,
    SpecEvent,
};
use crate::schema::{kind_of, spec_kind_of, ElementKind};
use crate::vint::{be_value, lemma_be_value_bound, lemma_pow_values, lemma_pow256_increases, read_be};

/// One open master element: its identifier and where its payload ends.
#[derive(Clone, Copy, Debug, PartialEq, Eq, Structural)]
pub struct OpenFrame {
    pub id: u32,
    pub end: usize,
}

/// The end of the innermost enclosure: the top frame's end, or the end of
/// the stream when no master element is open.
pub open spec fn cur_limit(data: Seq<u8>, stack: Seq<OpenFrame>) -> nat {
    if stack.len() == 0 {
        data.len()
    } else {
        stack.last().end as nat
    }
}

/// What one pull of the parser does.
pub enum SpecStep {
    /// The stream is exhausted and every master element is closed.
    Done,
    /// One event comes out and the cursor moves on.
    Emit { ev: SpecEvent, pos2: nat, stack2: Seq<OpenFrame> },
    /// The stream does not decode at the cursor.
    Fail { err: ParseError },
}

/// The mathematical step function of the parser: what pulling once from
/// state `(pos, stack)` over `data` yields.
pub open spec fn spec_step(data: Seq<u8>, pos: nat, stack: Seq<OpenFrame>) -> SpecStep {
    let limit = cur_limit(data, stack);
    if pos >= limit {
        if stack.len() == 0 {
            SpecStep::Done
        } else {
            SpecStep::Emit {
                ev: SpecEvent::End { id: stack.last().id },
                pos2: pos,
                stack2: stack.drop_last(),
            }
        }
    } else {
        match spec_read_header(data, pos, limit) {
            Err(e) => SpecStep::Fail { err: e },
            Ok((id, size, p2)) => {
                let end = match size {
                    ElementSize::Known(n) => p2 + n as nat,
                    ElementSize::Unknown => limit,
                };
                if end > limit || end < p2 {
                    SpecStep::Fail { err: ParseError::TruncatedElement }
                } else {
                    match spec_kind_of(id) {
                        Some(ElementKind::UInt) => if end - p2 > 8 {
                            SpecStep::Fail { err: ParseError::MalformedTag }
                        } else {
                            SpecStep::Emit {
                                ev: SpecEvent::UIntScalar {
                                    id,
                                    value: be_value(data.subrange(p2 as int, end as int)) as u64,
                                },
                                pos2: end,
                                stack2: stack,
                            }
                        },
                        Some(ElementKind::Text) => SpecStep::Emit {
                            ev: SpecEvent::BytesScalar {
                                id,
                                data: data.subrange(p2 as int, end as int),
                            },
                            pos2: end,
                            stack2: stack,
                        },
                        Some(ElementKind::Binary) => SpecStep::Emit {
                            ev: SpecEvent::BytesScalar {
                                id,
                                data: data.subrange(p2 as int, end as int),
                            },
                            pos2: end,
                            stack2: stack,
                        },
                        Some(ElementKind::Master) => SpecStep::Emit {
                            ev: SpecEvent::Start { id },
                            pos2: p2,
                            stack2: stack.push(OpenFrame { id, end: end as usize }),
                        },
                        None => match spec_decode_children(data, p2, end) {
                            Ok(_) => SpecStep::Emit {
                                ev: SpecEvent::Start { id },
                                pos2: p2,
                                stack2: stack.push(OpenFrame { id, end: end as usize }),
                            },
                            Err(_) => SpecStep::Emit {
                                ev: SpecEvent::BytesScalar {
                                    id,
                                    data: data.subrange(p2 as int, end as int),
                                },
                                pos2: end,
                                stack2: stack,
                            },
                        },
                    }
                }
            },
        }
    }
}

/// One parse event with scalar payloads left in place: a text, binary or
/// unknown scalar surfaces as the byte range of its payload instead of a
/// copy, so a huge stored image can be handed on straight from the
/// underlying stream.
pub enum SpanEvent {
    Start { id: u32 },
    UIntScalar { id: u32, value: u64 },
    BytesSpan { id: u32, lo: usize, hi: usize },
    End { id: u32 },
}

/// A span event stands for a parse event over `data`: equal fields, with
/// the payload read through the recorded range.
pub open spec fn span_event_matches(data: Seq<u8>, got: SpanEvent, ev: SpecEvent) -> bool {
    match ev {
        SpecEvent::Start { id } => got == SpanEvent::Start { id },
        SpecEvent::UIntScalar { id, value } => got == SpanEvent::UIntScalar { id, value },
        SpecEvent::BytesScalar { id, data: d } => match got {
            SpanEvent::BytesSpan { id: gi, lo, hi } => gi == id && lo <= hi <= data.len() && d
                == data.subrange(lo as int, hi as int),
            _ => false,
        },
        SpecEvent::End { id } => got == SpanEvent::End { id },
    }
}

/// The streaming parser over an in-memory byte stream.
pub struct Parser {
    data: Vec<u8>,
    pos: usize,
    stack: Vec<OpenFrame>,
}

impl Parser {
    /// The parser's state is sound: the cursor sits inside the innermost
    /// enclosure and open frames nest.
    pub closed spec fn wf(self) -> bool {
        &&& self.pos as nat <= cur_limit(self.data@, self.stack@)
        &&& forall|i: int|
            0 <= i < self.stack@.len() ==> (#[trigger] self.stack@[i].end) as nat
                <= self.data@.len()
        &&& forall|i: int|
            0 <= i < self.stack@.len() ==> (#[trigger] self.stack@[i].end) as nat <= (if i == 0 {
                self.data@.len()
            } else {
                self.stack@[i - 1].end as nat
            })
    }

    pub closed spec fn spec_data(self) -> Seq<u8> {
        self.data@
    }

    pub closed spec fn spec_pos(self) -> nat {
        self.pos as nat
    }

    pub closed spec fn spec_stack(self) -> Seq<OpenFrame> {
        self.stack@
    }

    /// A fresh parser at the start of a stream.
    pub fn new(data: Vec<u8>) -> (r: Parser)
        ensures
            r.wf(),
            r.spec_data() == data@,
            r.spec_pos() == 0,
            r.spec_stack() == Seq::<OpenFrame>::empty(),
    {
        let r = Parser { data, pos: 0, stack: Vec::new() };
        proof {
            assert(r.stack@ =~= Seq::<OpenFrame>::empty());
        }
        r
    }

    /// How deep the cursor currently is: the number of unmatched `Start`s.
    pub fn depth(&self) -> (r: usize)
        ensures
            r == self.spec_stack().len(),
    {
        self.stack.len()
    }

    /// Pull the next event without materialising scalar payloads: the
    /// bounded range comes back instead of a copy. `Ok(None)` means the
    /// stream is exhausted and well nested; an error applies to the
    /// element at the cursor and the parser does not advance past it.
    #[verifier::rlimit(60)]
    pub fn next_span_event(&mut self) -> (r: Result<Option<SpanEvent>, ParseError>)
        requires
            old(self).wf(),
        ensures
            final(self).wf(),
            final(self).spec_data() == old(self).spec_data(),
            match spec_step(old(self).spec_data(), old(self).spec_pos(), old(self).spec_stack()) {
                SpecStep::Done => r == Ok::<Option<SpanEvent>, ParseError>(None) && final(self).spec_pos() == old(self).spec_pos() && final(self).spec_stack() == old(self).spec_stack(),
                SpecStep::Emit { ev, pos2, stack2 } => (match r {
                    Ok(Some(event)) => span_event_matches(old(self).spec_data(), event, ev),
                    _ => false,
                }) && final(self).spec_pos() == pos2 && final(self).spec_stack() == stack2,
                SpecStep::Fail { err } => r == Err::<Option<SpanEvent>, ParseError>(err),
            },
    {
        let limit: usize = if self.stack.len() == 0 {
            self.data.len()
        } else {
            self.stack[self.stack.len() - 1].end
        };
        if self.pos >= limit {
            if self.stack.len() == 0 {
                return Ok(None);
            }
            let frame = self.stack[self.stack.len() - 1];
            self.stack.pop();
            proof {
                assert(self.stack@ =~= old(self).stack@.drop_last());
            }
            return Ok(Some(SpanEvent::End { id: frame.id }));
        }
        let (id, size, p2) = match read_header(&self.data, self.pos, limit) {
            Ok(t) => t,
            Err(e) => {
                return Err(e);
            },
        };
        let end: usize = match size {
            ElementSize::Known(n) => {
                if n > (limit - p2) as u64 {
                    return Err(ParseError::TruncatedElement);
                }
                p2 + (n as usize)
            },
            ElementSize::Unknown => limit,
        };
        match kind_of(id) {
            Some(ElementKind::UInt) => {
                if end - p2 > 8 {
                    return Err(ParseError::MalformedTag);
                }
                let v = read_be(&self.data, p2, end - p2);
                proof {
                    lemma_be_value_bound(self.data@.subrange(p2 as int, end as int));
                    lemma_pow256_increases((end - p2) as nat, 8);
                    lemma_pow_values();
                }
                self.pos = end;
                Ok(Some(SpanEvent::UIntScalar { id, value: v }))
            },
            Some(ElementKind::Text) => {
                self.pos = end;
                Ok(Some(SpanEvent::BytesSpan { id, lo: p2, hi: end }))
            },
            Some(ElementKind::Binary) => {
                self.pos = end;
                Ok(Some(SpanEvent::BytesSpan { id, lo: p2, hi: end }))
            },
            Some(ElementKind::Master) => {
                self.stack.push(OpenFrame { id, end });
                self.pos = p2;
                Ok(Some(SpanEvent::Start { id }))
            },
            None => {
                match decode_children(&self.data, p2, end) {
                    Ok(_) => {
                        self.stack.push(OpenFrame { id, end });
                        self.pos = p2;
                        Ok(Some(SpanEvent::Start { id }))
                    },
                    Err(_) => {
                        self.pos = end;
                        Ok(Some(SpanEvent::BytesSpan { id, lo: p2, hi: end }))
                    },
                }
            },
        }
    }

    /// Read a payload range out of the underlying stream, for handing a
    /// bounded scalar on without holding the whole document twice.
    pub fn read_span(&self, lo: usize, hi: usize) -> (r: Vec<u8>)
        requires
            lo <= hi <= self.spec_data().len(),
        ensures
            r@ == self.spec_data().subrange(lo as int, hi as int),
    {
        copy_range(&self.data, lo, hi)
    }

    /// Pull the next event with scalar payloads copied out: the
    /// convenience form of `next_span_event`.
    pub fn next_event(&mut self) -> (r: Result<Option<Event>, ParseError>)
        requires
            old(self).wf(),
        ensures
            final(self).wf(),
            final(self).spec_data() == old(self).spec_data(),
            match spec_step(old(self).spec_data(), old(self).spec_pos(), old(self).spec_stack()) {
                SpecStep::Done => r == Ok::<Option<Event>, ParseError>(None) && final(self).spec_pos() == old(self).spec_pos() && final(self).spec_stack() == old(self).spec_stack(),
                SpecStep::Emit { ev, pos2, stack2 } => (match r {
                    Ok(Some(event)) => event.model() == ev,
                    _ => false,
                }) && final(self).spec_pos() == pos2 && final(self).spec_stack() == stack2,
                SpecStep::Fail { err } => r == Err::<Option<Event>, ParseError>(err),
            },
    {
        match self.next_span_event() {
            Err(e) => Err(e),
            Ok(None) => Ok(None),
            Ok(Some(ev)) => Ok(
                Some(
                    match ev {
                        SpanEvent::Start { id } => Event::Start { id },
                        SpanEvent::UIntScalar { id, value } => Event::UIntScalar { id, value },
                        SpanEvent::BytesSpan { id, lo, hi } => Event::BytesScalar {
                            id,
                            data: copy_range(&self.data, lo, hi),
                        },
                        SpanEvent::End { id } => Event::End { id },
                    },
                ),
            ),
        }
    }
}


/// Flatten one element into parse events, depth first.
pub fn append_events(out: &mut Vec<Event>, e: &Element)
    ensures
        event_models(final(out)@) == event_models(old(out)@) + events_of(e.model()),
    decreases e,
{
    match e {
        Element::UInt { id, value } => {
            let ghost before = out@;
            out.push(Event::UIntScalar { id: *id, value: *value });
            proof {
                lemma_event_models_push(before, Event::UIntScalar { id: *id, value: *value });
                assert(event_models(out@) =~= event_models(before) + events_of(e.model()));
            }
        },
        Element::Bytes { id, data } => {
            let d = crate::decode::copy_range(data, 0, data.len());
            let ghost before = out@;
            let ev = Event::BytesScalar { id: *id, data: d };
            proof {
                assert(d@ =~= data@);
            }
            out.push(ev);
            proof {
                lemma_event_models_push(before, ev);
                assert(event_models(out@) =~= event_models(before) + events_of(e.model()));
            }
        },
        Element::Master { id, children } => {
            let ghost before = out@;
            out.push(Event::Start { id: *id });
            proof {
                lemma_event_models_push(before, Event::Start { id: *id });
            }
            append_events_children(out, children);
            let ghost mid = out@;
            out.push(Event::End { id: *id });
            proof {
                lemma_event_models_push(mid, Event::End { id: *id });
                assert(event_models(out@) =~= event_models(before) + events_of(e.model()));
            }
        },
    }
}

/// Flatten a run of sibling elements into parse events.
pub fn append_events_children(out: &mut Vec<Event>, children: &Vec<Element>)
    ensures
        event_models(final(out)@) == event_models(old(out)@) + events_of_children(
            models(children@),
        ),
    decreases children,
{
    let mut i: usize = 0;
    proof {
        assert(models(children@).subrange(0, 0) =~= Seq::<SpecElement>::empty());
        assert(event_models(out@) + events_of_children(models(children@).subrange(0, 0))
            =~= event_models(out@));
    }
    while i < children.len()
        invariant
            i <= children@.len(),
            event_models(out@) == event_models(old(out)@) + events_of_children(
                models(children@).subrange(0, i as int),
            ),
        decreases children@.len() - i,
    {
        proof {
            lemma_models(children@);
        }
        append_events(out, &children[i]);
        proof {
            lemma_events_children_snoc(models(children@), i as int);
            assert(event_models(out@) =~= event_models(old(out)@) + events_of_children(
                models(children@).subrange(0, i + 1),
            ));
        }
        i = i + 1;
    }
    proof {
        lemma_models(children@);
        assert(models(children@).subrange(0, children@.len() as int) =~= models(children@));
    }
}

/// Parse a whole stream into its flat event sequence: the depth-first
/// events of the run of top-level elements that fills the stream.
pub fn parse_events(data: &Vec<u8>) -> (r: Result<Vec<Event>, ParseError>)
    ensures
        match r {
            Ok(evs) => spec_decode_children(data@, 0, data@.len()) matches Ok(cs)
                && event_models(evs@) == events_of_children(cs),
            Err(e) => spec_decode_children(data@, 0, data@.len()) == Err::<Seq<SpecElement>, _>(e),
        },
{
    match decode_children(data, 0, data.len()) {
        Err(e) => Err(e),
        Ok(cs) => {
            let mut out: Vec<Event> = Vec::new();
            proof {
                assert(out@ =~= Seq::<Event>::empty());
                assert(event_models(out@) + events_of_children(models(cs@)) =~= events_of_children(
                    models(cs@),
                ));
            }
            append_events_children(&mut out, &cs);
            Ok(out)
        },
    }
}


/// Validate a byte stream: it decodes as a well-nested run of elements.
/// Errors surface as typed results, never as panics, so partially
/// written or hand-edited files are reported gracefully.
pub fn process_ebml_data(data: &Vec<u8>) -> (r: Result<bool, ParseError>)
    ensures
        match r {
            Ok(b) => b && spec_decode_children(data@, 0, data@.len()) is Ok,
            Err(e) => spec_decode_children(data@, 0, data@.len()) == Err::<Seq<SpecElement>, _>(e),
        },
{
    match decode_children(data, 0, data.len()) {
        Ok(_) => Ok(true),
        Err(e) => Err(e),
    }
}


// ---------------------------------------------------------------------
// Pulling a whole written stream
// ---------------------------------------------------------------------

/// State `(pos1, stack1)` pulls through exactly the events `evs` and then
/// stands at `(pos2, stack2)`.
pub open spec fn reaches(
    data: Seq<u8>,
    pos1: nat,
    stack1: Seq<OpenFrame>,
    pos2: nat,
    stack2: Seq<OpenFrame>,
    evs: Seq<SpecEvent>,
) -> bool
    decreases evs.len(),
{
    if evs.len() == 0 {
        pos1 == pos2 && stack1 == stack2
    } else {
        match spec_step(data, pos1, stack1) {
            SpecStep::Emit { ev, pos2: p, stack2: st } => ev == evs[0] && reaches(
                data,
                p,
                st,
                pos2,
                stack2,
                evs.subrange(1, evs.len() as int),
            ),
            _ => false,
        }
    }
}

/// Pulls compose.
pub proof fn lemma_reaches_trans(
    data: Seq<u8>,
    p1: nat,
    s1: Seq<OpenFrame>,
    p2: nat,
    s2: Seq<OpenFrame>,
    p3: nat,
    s3: Seq<OpenFrame>,
    e1: Seq<SpecEvent>,
    e2: Seq<SpecEvent>,
)
    requires
        reaches(data, p1, s1, p2, s2, e1),
        reaches(data, p2, s2, p3, s3, e2),
    ensures
        reaches(data, p1, s1, p3, s3, e1 + e2),
    decreases e1.len(),
{
    if e1.len() == 0 {
        assert(e1 + e2 =~= e2);
    } else {
        let t = e1 + e2;
        assert(t[0] == e1[0]);
        assert(t.subrange(1, t.len() as int) =~= e1.subrange(1, e1.len() as int) + e2);
        match spec_step(data, p1, s1) {
            SpecStep::Emit { ev, pos2: p, stack2: st } => {
                lemma_reaches_trans(
                    data,
                    p,
                    st,
                    p2,
                    s2,
                    p3,
                    s3,
                    e1.subrange(1, e1.len() as int),
                    e2,
                );
            },
            _ => {},
        }
    }
}

/// Pulling one element's encoding emits its depth-first events and leaves
/// the stack as it was.
proof fn lemma_stream_elem(data: Seq<u8>, e: SpecElement, pos: nat, stack: Seq<OpenFrame>)
    requires
        data.len() <= usize::MAX,
        elem_valid(e),
        pos + enc_elem(e).len() <= cur_limit(data, stack),
        cur_limit(data, stack) <= data.len(),
        data.subrange(pos as int, (pos + enc_elem(e).len()) as int) == enc_elem(e),
    ensures
        reaches(data, pos, stack, pos + enc_elem(e).len(), stack, events_of(e)),
    decreases e,
{
    let limit = cur_limit(data, stack);
    let te = enc_elem(e);
    let id = e.id();
    crate::decode::lemma_enc_elem_min(e);
    crate::decode::lemma_read_header_of_enc(e, data, pos, limit);
    let lp = crate::element::plen(e);
    let a = crate::vint::enc_id(id);
    let b = crate::vint::enc_size(lp);
    let c: Seq<u8> = match e {
        SpecElement::UInt { value, .. } => crate::vint::enc_uint(value as nat),
        SpecElement::Bytes { data: d, .. } => d,
        SpecElement::Master { children, .. } => crate::element::enc_children(children),
    };
    assert(te == a + b + c);
    crate::vint::lemma_be_bytes_len(id as nat, crate::vint::id_len(id));
    crate::vint::lemma_pow_values();
    match e {
        SpecElement::UInt { value, .. } => {
            crate::vint::lemma_uint_len(value);
        },
        _ => {},
    }
    assert(lp <= crate::vint::size_max());
    crate::vint::lemma_enc_size(lp);
    let p2 = pos + a.len() + b.len();
    let end = p2 + c.len();
    assert(c.len() == lp) by {
        match e {
            SpecElement::UInt { value, .. } => {
                crate::vint::lemma_be_bytes_len(value as nat, crate::vint::uint_len(value as nat));
            },
            _ => {},
        }
    }
    assert(end == pos + te.len());
    assert(te == (a + b) + c);
    crate::laws::lemma_split_concat(te, a + b, c);
    crate::laws::lemma_subrange_nest(
        data,
        pos as int,
        te,
        (a + b).len() as int,
        te.len() as int,
    );
    assert(data.subrange(p2 as int, end as int) == c);
    match e {
        SpecElement::UInt { id: _, value } => {
            crate::vint::lemma_uint_len(value);
            crate::vint::lemma_be_value_of_bytes(value as nat, crate::vint::uint_len(value as nat));
            assert(spec_step(data, pos, stack) == SpecStep::Emit {
                ev: SpecEvent::UIntScalar { id, value },
                pos2: end,
                stack2: stack,
            });
            assert(events_of(e) == seq![SpecEvent::UIntScalar { id, value }]);
            assert(events_of(e).subrange(1, 1) =~= Seq::<SpecEvent>::empty());
            assert(reaches(data, end, stack, end, stack, events_of(e).subrange(1, 1)));
            assert(reaches(data, pos, stack, pos + te.len(), stack, events_of(e)));
        },
        SpecElement::Bytes { id: _, data: d } => {
            assert(spec_step(data, pos, stack) == SpecStep::Emit {
                ev: SpecEvent::BytesScalar { id, data: d },
                pos2: end,
                stack2: stack,
            });
            assert(events_of(e) == seq![SpecEvent::BytesScalar { id, data: d }]);
            assert(events_of(e).subrange(1, 1) =~= Seq::<SpecEvent>::empty());
            assert(reaches(data, end, stack, end, stack, events_of(e).subrange(1, 1)));
            assert(reaches(data, pos, stack, pos + te.len(), stack, events_of(e)));
        },
        SpecElement::Master { id: _, children } => {
            let frame = OpenFrame { id, end: end as usize };
            let pushed = stack.push(frame);
            if crate::schema::spec_kind_of(id) is None {
                crate::decode::lemma_decode_of_enc_children(children, data, p2, end);
            }
            assert(spec_step(data, pos, stack) == SpecStep::Emit {
                ev: SpecEvent::Start { id },
                pos2: p2,
                stack2: pushed,
            });
            assert(cur_limit(data, pushed) == end);
            lemma_stream_children(data, children, p2, pushed);
            // closing the frame
            assert(spec_step(data, end, pushed) == SpecStep::Emit {
                ev: SpecEvent::End { id },
                pos2: end,
                stack2: pushed.drop_last(),
            });
            assert(pushed.drop_last() =~= stack);
            let evs_mid = events_of_children(children);
            let ev_start = seq![SpecEvent::Start { id }];
            let ev_end = seq![SpecEvent::End { id }];
            assert(reaches(data, end, stack, end, stack, Seq::<SpecEvent>::empty()));
            assert(ev_end.subrange(1, 1) =~= Seq::<SpecEvent>::empty());
            assert(reaches(data, end, pushed, end, stack, ev_end));
            lemma_reaches_trans(data, p2, pushed, end, pushed, end, stack, evs_mid, ev_end);
            assert((ev_start + (evs_mid + ev_end)).subrange(
                1,
                (ev_start + (evs_mid + ev_end)).len() as int,
            ) =~= evs_mid + ev_end);
            assert((ev_start + (evs_mid + ev_end))[0] == SpecEvent::Start { id });
            assert(reaches(data, pos, stack, end, stack, ev_start + (evs_mid + ev_end)));
            assert(events_of(e) =~= ev_start + (evs_mid + ev_end));
        },
    }
}

/// Pulling a run of siblings emits their events in order.
proof fn lemma_stream_children(data: Seq<u8>, cs: Seq<SpecElement>, pos: nat, stack: Seq<
    OpenFrame,
>)
    requires
        data.len() <= usize::MAX,
        children_valid(cs),
        pos + enc_children(cs).len() <= cur_limit(data, stack),
        cur_limit(data, stack) <= data.len(),
        data.subrange(pos as int, (pos + enc_children(cs).len()) as int) == enc_children(cs),
    ensures
        reaches(data, pos, stack, pos + enc_children(cs).len(), stack, events_of_children(cs)),
    decreases cs,
{
    if cs.len() == 0 {
    } else {
        let rest = cs.subrange(1, cs.len() as int);
        let tc = enc_children(cs);
        assert(tc == enc_elem(cs[0]) + enc_children(rest));
        crate::laws::lemma_split_concat(tc, enc_elem(cs[0]), enc_children(rest));
        crate::laws::lemma_subrange_nest(data, pos as int, tc, 0, enc_elem(cs[0]).len() as int);
        crate::laws::lemma_subrange_nest(
            data,
            pos as int,
            tc,
            enc_elem(cs[0]).len() as int,
            tc.len() as int,
        );
        assert(elem_valid(cs[0]));
        lemma_stream_elem(data, cs[0], pos, stack);
        let mid = pos + enc_elem(cs[0]).len();
        lemma_stream_children(data, rest, mid, stack);
        lemma_reaches_trans(
            data,
            pos,
            stack,
            mid,
            stack,
            pos + tc.len(),
            stack,
            events_of(cs[0]),
            events_of_children(rest),
        );
        assert(events_of_children(cs) == events_of(cs[0]) + events_of_children(rest));
    }
}

/// Round trip through the streaming parser: pulled from the start of a
/// written stream, the parser emits exactly the depth-first events of the
/// document's elements and then reports the end of the stream.
pub proof fn lemma_streaming_round_trip(cs: Seq<SpecElement>)
    requires
        children_valid(cs),
        enc_children(cs).len() <= usize::MAX,
    ensures
        ({
            let data = enc_children(cs);
            &&& reaches(
                data,
                0,
                Seq::<OpenFrame>::empty(),
                data.len(),
                Seq::<OpenFrame>::empty(),
                events_of_children(cs),
            )
            &&& spec_step(data, data.len(), Seq::<OpenFrame>::empty()) == SpecStep::Done
        }),
{
    let data = enc_children(cs);
    assert(data.subrange(0, data.len() as int) =~= data);
    assert(cur_limit(data, Seq::<OpenFrame>::empty()) == data.len());
    lemma_stream_children(data, cs, 0, Seq::<OpenFrame>::empty());
}

} // verus!



