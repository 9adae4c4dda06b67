//! Stream orchestrator: drives the frame splitter, event filter and delta
//! decoder over each incoming chunk, keeps the running aggregate, and
//! yields the events to hand to the sink.
//!
//! The whole decoder is modelled as a fold over the raw byte stream, one
//! byte at a time: a newline closes the pending line and processes it,
//! any other byte extends the pending line. Everything the decoder does
//! is therefore a function of the bytes fed so far, however they were cut
//! into chunks.

use vstd::prelude::*;
use crate::aggregate::Aggregator;
use crate::delta::DeltaModel;
use crate::delta::delta_of_payload;
use crate::delta::decode_delta;
use crate::event::LineClass;
use crate::event::LineEvent;
use crate::event::classify;
use crate::event::classify_line;

verus! {

/// The mathematical state of one stream decoder.
#[verifier::ext_equal]
pub struct DecoderModel {
    /// Bytes of the pending partial line, carried across chunk reads.
    pub carry: Seq<u8>,
    /// All content fragments decoded so far, concatenated in order.
    pub content: Seq<char>,
    /// All reasoning fragments decoded so far, concatenated in order.
    pub reasoning: Seq<char>,
    /// Whether the stream-end sentinel has been seen.
    pub done: bool,
}

/// The state of a decoder that has seen nothing yet.
pub open spec fn init_model() -> DecoderModel {
    DecoderModel {
        carry: Seq::<u8>::empty(),
        content: Seq::<char>::empty(),
        reasoning: Seq::<char>::empty(),
        done: false,
    }
}

/// One event handed to the sink, mathematically.
#[verifier::ext_equal]
pub enum EventModel {
    /// One new content fragment, to be shown as it arrives.
    Content(Seq<char>),
    /// One new reasoning fragment, to be shown as it arrives.
    Reasoning(Seq<char>),
    /// The final aggregate: all content, then all reasoning.
    Complete(Seq<char>, Seq<char>),
}

/// One event handed to the sink.
pub enum StreamEvent {
    /// One new content fragment.
    Content(String),
    /// One new reasoning fragment.
    Reasoning(String),
    /// The final aggregate: the complete content and reasoning buffers.
    Complete(String, String),
}

impl View for StreamEvent {
    type V = EventModel;

    open spec fn view(&self) -> EventModel {
        match self {
            StreamEvent::Content(s) => EventModel::Content(s@),
            StreamEvent::Reasoning(s) => EventModel::Reasoning(s@),
            StreamEvent::Complete(c, r) => EventModel::Complete(c@, r@),
        }
    }
}

/// The views of a sequence of emitted events.
pub open spec fn events_view(evs: Seq<StreamEvent>) -> Seq<EventModel> {
    Seq::new(evs.len(), |i: int| evs[i]@)
}

/// The fragment a decoded field carries: nothing when absent.
pub open spec fn frag_of(f: Option<Seq<char>>) -> Seq<char> {
    match f {
        Some(s) => s,
        None => Seq::<char>::empty(),
    }
}

/// How one classified line changes the decoder: the sentinel stops all
/// further decoding, a data line before the sentinel contributes its
/// decoded fragments, anything else changes nothing. The pending-line
/// buffer is not this step's business.
pub open spec fn class_step(m: DecoderModel, c: LineClass) -> DecoderModel {
    match c {
        LineClass::Done => DecoderModel { done: true, ..m },
        LineClass::Ignored => m,
        LineClass::Data(payload) => if m.done {
            m
        } else {
            let d = delta_of_payload(payload);
            DecoderModel {
                content: m.content + frag_of(d.content),
                reasoning: m.reasoning + frag_of(d.reasoning),
                ..m
            }
        },
    }
}

/// The delta events one classified line emits: the reasoning fragment
/// first, then the content fragment, each only when present. Nothing is
/// emitted once the sentinel has been seen.
pub open spec fn class_events(m: DecoderModel, c: LineClass) -> Seq<EventModel> {
    match c {
        LineClass::Data(payload) => if m.done {
            Seq::<EventModel>::empty()
        } else {
            let d = delta_of_payload(payload);
            (match d.reasoning {
                Some(s) => seq![EventModel::Reasoning(s)],
                None => Seq::<EventModel>::empty(),
            }) + (match d.content {
                Some(s) => seq![EventModel::Content(s)],
                None => Seq::<EventModel>::empty(),
            })
        },
        _ => Seq::<EventModel>::empty(),
    }
}

/// How one complete logical line (raw bytes, without its newline)
/// changes the decoder.
pub open spec fn line_step(m: DecoderModel, raw: Seq<u8>) -> DecoderModel {
    class_step(m, classify(raw))
}

/// The delta events one complete logical line emits.
pub open spec fn line_events(m: DecoderModel, raw: Seq<u8>) -> Seq<EventModel> {
    class_events(m, classify(raw))
}

/// How one byte changes the decoder: a newline closes and processes the
/// pending line, any other byte extends it.
pub open spec fn byte_step(m: DecoderModel, b: u8) -> DecoderModel {
    if b == ('\n' as u8) {
        DecoderModel { carry: Seq::<u8>::empty(), ..line_step(m, m.carry) }
    } else {
        DecoderModel { carry: m.carry.push(b), ..m }
    }
}

/// The delta events one byte emits.
pub open spec fn byte_events(m: DecoderModel, b: u8) -> Seq<EventModel> {
    if b == ('\n' as u8) {
        line_events(m, m.carry)
    } else {
        Seq::<EventModel>::empty()
    }
}

/// The decoder state after a run of bytes.
pub open spec fn feed(m: DecoderModel, bytes: Seq<u8>) -> DecoderModel
    decreases bytes.len(),
{
    if bytes.len() == 0 {
        m
    } else {
        feed(byte_step(m, bytes[0]), bytes.drop_first())
    }
}

/// The delta events a run of bytes emits, in order.
pub open spec fn events_of(m: DecoderModel, bytes: Seq<u8>) -> Seq<EventModel>
    decreases bytes.len(),
{
    if bytes.len() == 0 {
        Seq::<EventModel>::empty()
    } else {
        byte_events(m, bytes[0]) + events_of(byte_step(m, bytes[0]), bytes.drop_first())
    }
}

/// At end of stream the pending partial line, if any, counts as one final
/// logical line.
pub open spec fn flush(m: DecoderModel) -> DecoderModel {
    if m.carry.len() > 0 {
        line_step(m, m.carry)
    } else {
        m
    }
}

/// The decoder state after end of stream: the trailing fragment is
/// processed, nothing is pending, and no further delta can be emitted.
pub open spec fn finished(m: DecoderModel) -> DecoderModel {
    DecoderModel { carry: Seq::<u8>::empty(), done: true, ..flush(m) }
}

/// Everything end of stream emits: the trailing line's deltas, if any,
/// then exactly one final aggregate event with both complete buffers.
pub open spec fn finish_events(m: DecoderModel) -> Seq<EventModel> {
    (if m.carry.len() > 0 {
        line_events(m, m.carry)
    } else {
        Seq::<EventModel>::empty()
    }) + seq![EventModel::Complete(flush(m).content, flush(m).reasoning)]
}

/// The incremental response-stream decoder for one request: feed it the
/// transport's chunks as they arrive, hand each returned event to the
/// sink at once, and call `finish` exactly once at end of stream.
pub struct StreamDecoder {
    carry: Vec<u8>,
    totals: Aggregator,
    done: bool,
}

impl View for StreamDecoder {
    type V = DecoderModel;

    closed spec fn view(&self) -> DecoderModel {
        DecoderModel {
            carry: self.carry@,
            content: self.totals@.content,
            reasoning: self.totals@.reasoning,
            done: self.done,
        }
    }
}

impl StreamDecoder {
    /// A decoder that has seen nothing: empty carry, empty totals.
    pub fn new() -> (d: StreamDecoder)
        ensures
            d@ == init_model(),
    {
        let d = StreamDecoder { carry: Vec::new(), totals: Aggregator::new(), done: false };
        proof {
            assert(d@ =~= init_model());
        }
        d
    }

    /// Applies one classified line to the decoder and returns the delta
    /// events it emits, reasoning fragment first, in emission order.
    fn apply_class(&mut self, ev: LineEvent) -> (out: Vec<StreamEvent>)
        ensures
            final(self)@ == class_step(old(self)@, ev@),
            events_view(out@) == class_events(old(self)@, ev@),
    {
        let mut out: Vec<StreamEvent> = Vec::new();
        assert(events_view(out@) =~= Seq::<EventModel>::empty());
        match ev {
            LineEvent::Done => {
                self.done = true;
                proof {
                    assert(self@ =~= class_step(old(self)@, ev@));
                }
            },
            LineEvent::Ignored => {
                proof {
                    assert(self@ =~= class_step(old(self)@, ev@));
                }
            },
            LineEvent::Data(payload) => {
                if !self.done {
                    let d = decode_delta(payload.as_slice());
                    let ghost dm: DeltaModel = d@;
                    if let Some(r) = d.reasoning {
                        self.totals.append_reasoning(r.as_str());
                        let ghost pre = events_view(out@);
                        out.push(StreamEvent::Reasoning(r));
                        proof {
                            assert(events_view(out@) =~= pre.push(EventModel::Reasoning(
                                frag_of(dm.reasoning),
                            )));
                        }
                    }
                    if let Some(c) = d.content {
                        self.totals.append_content(c.as_str());
                        let ghost pre = events_view(out@);
                        out.push(StreamEvent::Content(c));
                        proof {
                            assert(events_view(out@) =~= pre.push(EventModel::Content(
                                frag_of(dm.content),
                            )));
                        }
                    }
                    proof {
                        assert(self@.content =~= class_step(old(self)@, ev@).content);
                        assert(self@.reasoning =~= class_step(old(self)@, ev@).reasoning);
                        assert(self@ =~= class_step(old(self)@, ev@));
                        assert(events_view(out@) =~= class_events(old(self)@, ev@));
                    }
                } else {
                    proof {
                        assert(self@ =~= class_step(old(self)@, ev@));
                    }
                }
            },
        }
        out
    }

    /// Closes the pending line and processes it: exactly what one newline
    /// byte does to the decoder.
    fn end_line(&mut self) -> (out: Vec<StreamEvent>)
        ensures
            final(self)@ == byte_step(old(self)@, '\n' as u8),
            events_view(out@) == byte_events(old(self)@, '\n' as u8),
    {
        let ev = classify_line(self.carry.as_slice());
        self.carry.clear();
        let out = self.apply_class(ev);
        proof {
            assert(self@ =~= byte_step(old(self)@, '\n' as u8));
        }
        out
    }

    /// Feeds one transport chunk, cut at any byte boundary whatever, and
    /// returns the delta events it completes, in emission order. Each
    /// returned event is to be forwarded to the sink at once.
    pub fn feed_chunk(&mut self, chunk: &[u8]) -> (out: Vec<StreamEvent>)
        ensures
            final(self)@ == feed(old(self)@, chunk@),
            events_view(out@) == events_of(old(self)@, chunk@),
    {
        let ghost m0: DecoderModel = self@;
        let mut out: Vec<StreamEvent> = Vec::new();
        let n = chunk.len();
        assert(chunk@.skip(0) =~= chunk@);
        assert(events_view(out@) =~= Seq::<EventModel>::empty());
        for i in 0..n
            invariant
                n == chunk@.len(),
                feed(m0, chunk@) == feed(self@, chunk@.skip(i as int)),
                events_of(m0, chunk@) == events_view(out@) + events_of(
                    self@,
                    chunk@.skip(i as int),
                ),
        {
            proof {
                assert(chunk@.skip(i as int)[0] == chunk@[i as int]);
                assert(chunk@.skip(i as int).drop_first() =~= chunk@.skip(i as int + 1));
            }
            let ghost pre: DecoderModel = self@;
            let ghost pre_out: Seq<EventModel> = events_view(out@);
            let b = chunk[i];
            if b == ('\n' as u8) {
                let mut evs = self.end_line();
                let ghost evs_v: Seq<EventModel> = events_view(evs@);
                out.append(&mut evs);
                proof {
                    assert(events_view(out@) =~= pre_out + evs_v);
                }
            } else {
                self.carry.push(b);
                proof {
                    assert(self@ =~= byte_step(pre, b));
                    assert(events_view(out@) + byte_events(pre, b) =~= events_view(out@));
                }
            }
            proof {
                assert(events_view(out@) =~= pre_out + byte_events(pre, b));
            }
        }
        proof {
            assert(chunk@.skip(n as int) =~= Seq::<u8>::empty());
            assert(events_of(m0, chunk@) =~= events_view(out@));
        }
        out
    }

    /// End of stream: processes the trailing unterminated line, if any,
    /// and returns its delta events followed by exactly one final
    /// aggregate event carrying both complete buffers, in that order. The
    /// decoder is spent afterwards; it is not reused across requests.
    pub fn finish(&mut self) -> (out: Vec<StreamEvent>)
        ensures
            final(self)@ == finished(old(self)@),
            events_view(out@) == finish_events(old(self)@),
    {
        let mut out: Vec<StreamEvent>;
        if self.carry.len() > 0 {
            let ev = classify_line(self.carry.as_slice());
            self.carry.clear();
            out = self.apply_class(ev);
            proof {
                assert(self@.content =~= flush(old(self)@).content);
                assert(self@.reasoning =~= flush(old(self)@).reasoning);
            }
        } else {
            out = Vec::new();
            assert(events_view(out@) =~= Seq::<EventModel>::empty());
        }
        self.done = true;
        let totals = self.totals.snapshot();
        let ghost pre_out: Seq<EventModel> = events_view(out@);
        out.push(StreamEvent::Complete(totals.0, totals.1));
        proof {
            assert(self@ =~= finished(old(self)@));
            assert(events_view(out@) =~= pre_out.push(EventModel::Complete(
                flush(old(self)@).content,
                flush(old(self)@).reasoning,
            )));
            assert(events_view(out@) =~= finish_events(old(self)@));
        }
        out
    }
}

} // verus!
