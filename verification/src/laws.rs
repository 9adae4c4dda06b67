//! The decoder's laws: what holds of every stream, proved once and for
//! all over the byte-fold model of `stream`.

use vstd::prelude::*;
use crate::delta::DeltaModel;
use crate::frame::split_bytes;
use crate::delta::delta_of_payload;
use crate::delta::lossy_utf8_of;
use crate::delta::payload_fields;
use crate::event::LineClass;
use crate::event::classify;
use crate::stream::DecoderModel;
use crate::stream::EventModel;
use crate::stream::byte_events;
use crate::stream::byte_step;
use crate::stream::class_events;
use crate::stream::class_step;
use crate::stream::events_of;
use crate::stream::feed;
use crate::stream::finish_events;
use crate::stream::finished;
use crate::stream::flush;
use crate::stream::init_model;
use crate::stream::line_events;
use crate::stream::line_step;

verus! {

/// Feeding two byte runs one after the other is feeding them joined:
/// the decoder state and the emitted events depend only on the bytes.
pub proof fn lemma_feed_concat(m: DecoderModel, a: Seq<u8>, b: Seq<u8>)
    ensures
        feed(m, a + b) == feed(feed(m, a), b),
        events_of(m, a + b) == events_of(m, a) + events_of(feed(m, a), b),
    decreases a.len(),
{
    if a.len() == 0 {
        assert(a + b =~= b);
        assert(events_of(m, a) + events_of(m, b) =~= events_of(m, b));
    } else {
        assert((a + b)[0] == a[0]);
        assert((a + b).drop_first() =~= a.drop_first() + b);
        lemma_feed_concat(byte_step(m, a[0]), a.drop_first(), b);
        assert(events_of(m, a + b) =~= events_of(m, a) + events_of(feed(m, a), b));
    }
}

/// The decoder state after a whole run of chunks.
pub open spec fn feed_all(m: DecoderModel, chunks: Seq<Seq<u8>>) -> DecoderModel
    decreases chunks.len(),
{
    if chunks.len() == 0 {
        m
    } else {
        feed_all(feed(m, chunks[0]), chunks.drop_first())
    }
}

/// The events a whole run of chunks emits, in order.
pub open spec fn events_all(m: DecoderModel, chunks: Seq<Seq<u8>>) -> Seq<EventModel>
    decreases chunks.len(),
{
    if chunks.len() == 0 {
        Seq::<EventModel>::empty()
    } else {
        events_of(m, chunks[0]) + events_all(feed(m, chunks[0]), chunks.drop_first())
    }
}

/// Feeding chunk by chunk is feeding the concatenated bytes.
pub proof fn lemma_rechunk(m: DecoderModel, chunks: Seq<Seq<u8>>)
    ensures
        feed_all(m, chunks) == feed(m, chunks.flatten()),
        events_all(m, chunks) == events_of(m, chunks.flatten()),
    decreases chunks.len(),
{
    if chunks.len() == 0 {
        assert(chunks.flatten() =~= Seq::<u8>::empty());
    } else {
        assert(chunks.flatten() == chunks[0] + chunks.drop_first().flatten());
        lemma_rechunk(feed(m, chunks[0]), chunks.drop_first());
        lemma_feed_concat(m, chunks[0], chunks.drop_first().flatten());
    }
}

/// Chunk invariance: however the same bytes are cut into chunks — at any
/// boundaries whatever, mid-line included — the decoder state, the final
/// aggregate and the emitted events are identical.
pub proof fn lemma_chunking_is_irrelevant(
    m: DecoderModel,
    chunks1: Seq<Seq<u8>>,
    chunks2: Seq<Seq<u8>>,
)
    requires
        chunks1.flatten() == chunks2.flatten(),
    ensures
        feed_all(m, chunks1) == feed_all(m, chunks2),
        events_all(m, chunks1) == events_all(m, chunks2),
        finished(feed_all(m, chunks1)) == finished(feed_all(m, chunks2)),
{
    lemma_rechunk(m, chunks1);
    lemma_rechunk(m, chunks2);
}

/// Once the sentinel has been seen, no classified line changes the
/// totals or emits an event.
proof fn lemma_class_after_done(m: DecoderModel, c: LineClass)
    requires
        m.done,
    ensures
        class_step(m, c) == m,
        class_events(m, c) == Seq::<EventModel>::empty(),
{
}

/// The sentinel ends delta emission: whatever bytes arrive after it in
/// the same logical stream, they are not decoded into further deltas —
/// the totals stay as they were, no delta event is emitted, and the
/// final aggregate event carries exactly the totals from before.
pub proof fn lemma_done_stops_deltas(m: DecoderModel, bytes: Seq<u8>)
    requires
        m.done,
    ensures
        feed(m, bytes).done,
        feed(m, bytes).content == m.content,
        feed(m, bytes).reasoning == m.reasoning,
        events_of(m, bytes) == Seq::<EventModel>::empty(),
        finish_events(feed(m, bytes)) == seq![EventModel::Complete(m.content, m.reasoning)],
    decreases bytes.len(),
{
    if bytes.len() == 0 {
        lemma_class_after_done(m, classify(m.carry));
        assert(finish_events(m) =~= seq![EventModel::Complete(m.content, m.reasoning)]);
    } else {
        lemma_class_after_done(m, classify(m.carry));
        lemma_done_stops_deltas(byte_step(m, bytes[0]), bytes.drop_first());
        assert(events_of(m, bytes) =~= Seq::<EventModel>::empty());
    }
}

/// A data line other than the sentinel whose payload decodes to no
/// fragments — malformed JSON, a shape mismatch, or fields absent or
/// empty — leaves the decoder exactly as it was and emits nothing.
pub proof fn lemma_fragmentless_line_is_noop(m: DecoderModel, raw: Seq<u8>)
    requires
        classify(raw) matches LineClass::Data(p) && delta_of_payload(p) == (DeltaModel {
            content: None,
            reasoning: None,
        }),
    ensures
        line_step(m, raw) == m,
        line_events(m, raw) == Seq::<EventModel>::empty(),
{
    if !m.done {
        assert(line_step(m, raw).content =~= m.content);
        assert(line_step(m, raw).reasoning =~= m.reasoning);
        assert(line_step(m, raw) =~= m);
        assert(line_events(m, raw) =~= Seq::<EventModel>::empty());
    }
}

/// Present-but-empty `content` and `reasoning_content` fields produce no
/// delta event and contribute nothing to the aggregate: such a line is a
/// no-op.
pub proof fn lemma_empty_fields_contribute_nothing(m: DecoderModel, raw: Seq<u8>)
    requires
        classify(raw) is Data,
        classify(raw) matches LineClass::Data(p) ==> payload_fields(lossy_utf8_of(p)) matches Some(
            f,
        ) && (f.0 matches Some(s) ==> s.len() == 0) && (f.1 matches Some(s) ==> s.len() == 0),
    ensures
        line_step(m, raw) == m,
        line_events(m, raw) == Seq::<EventModel>::empty(),
{
    lemma_fragmentless_line_is_noop(m, raw);
}

/// Bytes without a newline only lengthen the pending line.
proof fn lemma_feed_no_newline(m: DecoderModel, bytes: Seq<u8>)
    requires
        forall|i: int| 0 <= i < bytes.len() ==> bytes[i] != ('\n' as u8),
    ensures
        feed(m, bytes) == (DecoderModel { carry: m.carry + bytes, ..m }),
        events_of(m, bytes) == Seq::<EventModel>::empty(),
    decreases bytes.len(),
{
    if bytes.len() == 0 {
        assert(m.carry + bytes =~= m.carry);
        assert(feed(m, bytes) =~= (DecoderModel { carry: m.carry + bytes, ..m }));
    } else {
        lemma_feed_no_newline(byte_step(m, bytes[0]), bytes.drop_first());
        assert(m.carry.push(bytes[0]) + bytes.drop_first() =~= m.carry + bytes);
        assert(events_of(m, bytes) =~= Seq::<EventModel>::empty());
    }
}

/// A malformed event embedded between two well-formed stretches of the
/// stream affects nothing: inserting one whole data line whose payload
/// decodes to no fragments (`mal` holds the line's bytes, newline-free
/// and not the sentinel) leaves both the decoder state and the emitted
/// events exactly those of the stream without it.
pub proof fn lemma_malformed_between(m: DecoderModel, a: Seq<u8>, mal: Seq<u8>, b: Seq<u8>)
    requires
        feed(m, a).carry.len() == 0,
        forall|i: int| 0 <= i < mal.len() ==> mal[i] != ('\n' as u8),
        classify(mal) matches LineClass::Data(p) && delta_of_payload(p) == (DeltaModel {
            content: None,
            reasoning: None,
        }),
    ensures
        feed(m, a + mal.push('\n' as u8) + b) == feed(m, a + b),
        events_of(m, a + mal.push('\n' as u8) + b) == events_of(m, a + b),
{
    reveal_with_fuel(events_of, 2);
    reveal_with_fuel(feed, 2);
    let nl = '\n' as u8;
    let m1 = feed(m, a);
    let m2 = feed(m1, mal);
    let line = mal.push(nl);
    lemma_feed_concat(m, a + line, b);
    lemma_feed_concat(m, a, line);
    lemma_feed_no_newline(m1, mal);
    assert(m2.carry =~= mal);
    // The newline closes the malformed line, which is a no-op.
    assert(line =~= mal + seq![nl]);
    lemma_feed_concat(m1, mal, seq![nl]);
    lemma_fragmentless_line_is_noop(m2, mal);
    assert(feed(m2, seq![nl]) == feed(byte_step(m2, nl), seq![nl].drop_first()));
    assert(seq![nl].drop_first() =~= Seq::<u8>::empty());
    assert(byte_step(m2, nl) =~= m1);
    assert(feed(m, a + line) == m1);
    lemma_feed_concat(m, a, b);
    // Events: the inserted line emits nothing.
    assert(events_of(m2, seq![nl]) =~= byte_events(m2, nl));
    assert(byte_events(m2, nl) =~= Seq::<EventModel>::empty());
    assert(events_of(m1, line) =~= Seq::<EventModel>::empty());
    assert(events_of(m, a + line) =~= events_of(m, a));
    assert(events_of(m, a + line + b) =~= events_of(m, a) + events_of(m1, b));
    assert(events_of(m, a + b) =~= events_of(m, a) + events_of(m1, b));
}

/// The decoder state after a run of complete logical lines.
pub open spec fn lines_fold(m: DecoderModel, lines: Seq<Seq<u8>>) -> DecoderModel
    decreases lines.len(),
{
    if lines.len() == 0 {
        m
    } else {
        lines_fold(line_step(m, lines[0]), lines.drop_first())
    }
}

/// Processing lines never reads or writes the pending-line buffer.
proof fn lemma_lines_fold_carry(m: DecoderModel, c: Seq<u8>, lines: Seq<Seq<u8>>)
    ensures
        lines_fold((DecoderModel { carry: c, ..m }), lines) == (DecoderModel {
            carry: c,
            ..lines_fold(m, lines)
        }),
    decreases lines.len(),
{
    if lines.len() > 0 {
        assert(line_step((DecoderModel { carry: c, ..m }), lines[0]) =~= (DecoderModel {
            carry: c,
            ..line_step(m, lines[0])
        }));
        lemma_lines_fold_carry(line_step(m, lines[0]), c, lines.drop_first());
    }
}

/// Lines already cut before a split are carried through it untouched.
proof fn lemma_split_prefix(acc0: Seq<Seq<u8>>, c: Seq<u8>, bytes: Seq<u8>)
    ensures
        split_bytes((acc0, c), bytes).0 == acc0 + split_bytes(
            (Seq::<Seq<u8>>::empty(), c),
            bytes,
        ).0,
        split_bytes((acc0, c), bytes).1 == split_bytes((Seq::<Seq<u8>>::empty(), c), bytes).1,
    decreases bytes.len(),
{
    let e = Seq::<Seq<u8>>::empty();
    if bytes.len() == 0 {
        assert(acc0 + e =~= acc0);
    } else {
        let b = bytes[0];
        let rest = bytes.drop_first();
        if b == ('\n' as u8) {
            lemma_split_prefix(acc0.push(c), Seq::<u8>::empty(), rest);
            lemma_split_prefix(e.push(c), Seq::<u8>::empty(), rest);
            assert(acc0.push(c) + split_bytes((e, Seq::<u8>::empty()), rest).0 =~= acc0 + (e.push(
                c,
            ) + split_bytes((e, Seq::<u8>::empty()), rest).0));
        } else {
            lemma_split_prefix(acc0, c.push(b), rest);
        }
    }
}

/// The orchestrator consumes bytes exactly as the frame splitter cuts
/// them: feeding a run of bytes is processing, in order, the complete
/// logical lines the splitter yields, with the splitter's trailing
/// fragment left as the pending line.
pub proof fn lemma_feed_is_line_processing(m: DecoderModel, bytes: Seq<u8>)
    ensures
        feed(m, bytes) == (DecoderModel {
            carry: split_bytes((Seq::<Seq<u8>>::empty(), m.carry), bytes).1,
            ..lines_fold(m, split_bytes((Seq::<Seq<u8>>::empty(), m.carry), bytes).0)
        }),
    decreases bytes.len(),
{
    let e = Seq::<Seq<u8>>::empty();
    if bytes.len() == 0 {
        assert(feed(m, bytes) =~= (DecoderModel {
            carry: split_bytes((e, m.carry), bytes).1,
            ..lines_fold(m, split_bytes((e, m.carry), bytes).0)
        }));
    } else {
        let b = bytes[0];
        let rest = bytes.drop_first();
        let m1 = byte_step(m, b);
        lemma_feed_is_line_processing(m1, rest);
        if b == ('\n' as u8) {
            lemma_split_prefix(e.push(m.carry), Seq::<u8>::empty(), rest);
            let tail = split_bytes((e, Seq::<u8>::empty()), rest);
            assert(split_bytes((e, m.carry), bytes).0 =~= e.push(m.carry) + tail.0);
            assert((e.push(m.carry) + tail.0)[0] == m.carry);
            assert((e.push(m.carry) + tail.0).drop_first() =~= tail.0);
            assert(lines_fold(m, e.push(m.carry) + tail.0) == lines_fold(
                line_step(m, m.carry),
                tail.0,
            ));
            lemma_lines_fold_carry(line_step(m, m.carry), Seq::<u8>::empty(), tail.0);
            assert(m1 =~= (DecoderModel { carry: Seq::<u8>::empty(), ..line_step(m, m.carry) }));
            lemma_lines_fold_carry(line_step(m, m.carry), m.carry, tail.0);
            assert(feed(m, bytes) =~= (DecoderModel {
                carry: split_bytes((e, m.carry), bytes).1,
                ..lines_fold(m, split_bytes((e, m.carry), bytes).0)
            }));
        } else {
            assert(split_bytes((e, m.carry), bytes) == split_bytes((e, m.carry.push(b)), rest));
            lemma_lines_fold_carry(m, m.carry.push(b), split_bytes((e, m.carry.push(b)), rest).0);
            lemma_lines_fold_carry(m, m.carry, split_bytes((e, m.carry.push(b)), rest).0);
            assert(m1 =~= (DecoderModel { carry: m.carry.push(b), ..m }));
            assert(feed(m, bytes) =~= (DecoderModel {
                carry: split_bytes((e, m.carry), bytes).1,
                ..lines_fold(m, split_bytes((e, m.carry), bytes).0)
            }));
        }
    }
}

/// All content fragments an event run carries, concatenated in order.
pub open spec fn content_of_events(evs: Seq<EventModel>) -> Seq<char>
    decreases evs.len(),
{
    if evs.len() == 0 {
        Seq::<char>::empty()
    } else {
        (match evs[0] {
            EventModel::Content(s) => s,
            _ => Seq::<char>::empty(),
        }) + content_of_events(evs.drop_first())
    }
}

/// All reasoning fragments an event run carries, concatenated in order.
pub open spec fn reasoning_of_events(evs: Seq<EventModel>) -> Seq<char>
    decreases evs.len(),
{
    if evs.len() == 0 {
        Seq::<char>::empty()
    } else {
        (match evs[0] {
            EventModel::Reasoning(s) => s,
            _ => Seq::<char>::empty(),
        }) + reasoning_of_events(evs.drop_first())
    }
}

proof fn lemma_fragments_concat(a: Seq<EventModel>, b: Seq<EventModel>)
    ensures
        content_of_events(a + b) == content_of_events(a) + content_of_events(b),
        reasoning_of_events(a + b) == reasoning_of_events(a) + reasoning_of_events(b),
    decreases a.len(),
{
    if a.len() == 0 {
        assert(a + b =~= b);
        assert(content_of_events(a) + content_of_events(b) =~= content_of_events(b));
        assert(reasoning_of_events(a) + reasoning_of_events(b) =~= reasoning_of_events(b));
    } else {
        assert((a + b)[0] == a[0]);
        assert((a + b).drop_first() =~= a.drop_first() + b);
        lemma_fragments_concat(a.drop_first(), b);
        assert(content_of_events(a + b) =~= content_of_events(a) + content_of_events(b));
        assert(reasoning_of_events(a + b) =~= reasoning_of_events(a) + reasoning_of_events(b));
    }
}

/// One classified line grows each total by exactly the fragments of the
/// events it emits.
proof fn lemma_class_totals(m: DecoderModel, c: LineClass)
    ensures
        class_step(m, c).content == m.content + content_of_events(class_events(m, c)),
        class_step(m, c).reasoning == m.reasoning + reasoning_of_events(class_events(m, c)),
{
    reveal_with_fuel(content_of_events, 3);
    reveal_with_fuel(reasoning_of_events, 3);
    let evs = class_events(m, c);
    match c {
        LineClass::Data(payload) => {
            if m.done {
                assert(m.content + content_of_events(evs) =~= m.content);
                assert(m.reasoning + reasoning_of_events(evs) =~= m.reasoning);
            } else {
                let d = delta_of_payload(payload);
                match d.reasoning {
                    Some(r) => {
                        match d.content {
                            Some(s) => {
                                assert(evs =~= seq![
                                    EventModel::Reasoning(r),
                                    EventModel::Content(s),
                                ]);
                                assert(evs.drop_first() =~= seq![EventModel::Content(s)]);
                                assert(evs.drop_first().drop_first() =~= Seq::<
                                    EventModel,
                                >::empty());
                                assert(content_of_events(evs) =~= s);
                                assert(reasoning_of_events(evs) =~= r);
                            },
                            None => {
                                assert(evs =~= seq![EventModel::Reasoning(r)]);
                                assert(evs.drop_first() =~= Seq::<EventModel>::empty());
                                assert(content_of_events(evs) =~= Seq::<char>::empty());
                                assert(reasoning_of_events(evs) =~= r);
                                assert(m.content + content_of_events(evs) =~= m.content);
                            },
                        }
                    },
                    None => {
                        match d.content {
                            Some(s) => {
                                assert(evs =~= seq![EventModel::Content(s)]);
                                assert(evs.drop_first() =~= Seq::<EventModel>::empty());
                                assert(content_of_events(evs) =~= s);
                                assert(reasoning_of_events(evs) =~= Seq::<char>::empty());
                                assert(m.reasoning + reasoning_of_events(evs) =~= m.reasoning);
                            },
                            None => {
                                assert(evs =~= Seq::<EventModel>::empty());
                                assert(m.content + content_of_events(evs) =~= m.content);
                                assert(m.reasoning + reasoning_of_events(evs) =~= m.reasoning);
                            },
                        }
                    },
                }
            }
        },
        _ => {
            assert(evs =~= Seq::<EventModel>::empty());
            assert(m.content + content_of_events(evs) =~= m.content);
            assert(m.reasoning + reasoning_of_events(evs) =~= m.reasoning);
        },
    }
}

/// Each total is exactly the starting total followed by the fragments of
/// the delta events emitted along the way: nothing is lost, nothing is
/// duplicated, nothing is reordered.
pub proof fn lemma_totals_match_events(m: DecoderModel, bytes: Seq<u8>)
    ensures
        feed(m, bytes).content == m.content + content_of_events(events_of(m, bytes)),
        feed(m, bytes).reasoning == m.reasoning + reasoning_of_events(events_of(m, bytes)),
    decreases bytes.len(),
{
    if bytes.len() == 0 {
        assert(m.content + content_of_events(events_of(m, bytes)) =~= m.content);
        assert(m.reasoning + reasoning_of_events(events_of(m, bytes)) =~= m.reasoning);
    } else {
        let m1 = byte_step(m, bytes[0]);
        lemma_class_totals(m, classify(m.carry));
        lemma_totals_match_events(m1, bytes.drop_first());
        lemma_fragments_concat(byte_events(m, bytes[0]), events_of(m1, bytes.drop_first()));
        assert(feed(m, bytes).content =~= m.content + content_of_events(events_of(m, bytes)));
        assert(feed(m, bytes).reasoning =~= m.reasoning + reasoning_of_events(
            events_of(m, bytes),
        ));
    }
}

/// Everything one whole stream emits: the deltas of its bytes, then what
/// end of stream emits (the trailing line's deltas and the one final
/// aggregate event).
pub open spec fn stream_events(m: DecoderModel, bytes: Seq<u8>) -> Seq<EventModel> {
    events_of(m, bytes) + finish_events(feed(m, bytes))
}

/// Over a whole stream, each final total is exactly the concatenation of
/// the fragments of the delta events emitted, in order.
pub proof fn lemma_aggregate_is_event_concat(m: DecoderModel, bytes: Seq<u8>)
    ensures
        finished(feed(m, bytes)).content == m.content + content_of_events(
            stream_events(m, bytes),
        ),
        finished(feed(m, bytes)).reasoning == m.reasoning + reasoning_of_events(
            stream_events(m, bytes),
        ),
{
    reveal_with_fuel(content_of_events, 2);
    reveal_with_fuel(reasoning_of_events, 2);
    let mf = feed(m, bytes);
    lemma_totals_match_events(m, bytes);
    lemma_class_totals(mf, classify(mf.carry));
    let tail = seq![EventModel::Complete(flush(mf).content, flush(mf).reasoning)];
    assert(content_of_events(tail) =~= Seq::<char>::empty());
    assert(reasoning_of_events(tail) =~= Seq::<char>::empty());
    if mf.carry.len() > 0 {
        lemma_fragments_concat(line_events(mf, mf.carry), tail);
    } else {
        assert(finish_events(mf) =~= tail);
    }
    lemma_fragments_concat(events_of(m, bytes), finish_events(mf));
    assert(finished(feed(m, bytes)).content =~= m.content + content_of_events(
        stream_events(m, bytes),
    ));
    assert(finished(feed(m, bytes)).reasoning =~= m.reasoning + reasoning_of_events(
        stream_events(m, bytes),
    ));
}

proof fn lemma_no_reasoning_events_no_reasoning(evs: Seq<EventModel>)
    requires
        forall|i: int| 0 <= i < evs.len() ==> !(evs[i] is Reasoning),
    ensures
        reasoning_of_events(evs) == Seq::<char>::empty(),
    decreases evs.len(),
{
    if evs.len() > 0 {
        lemma_no_reasoning_events_no_reasoning(evs.drop_first());
        assert(reasoning_of_events(evs) =~= Seq::<char>::empty());
    }
}

/// A stream that emits no reasoning delta — in particular one whose
/// events carry only `content` fields — ends with an empty reasoning
/// aggregate.
pub proof fn lemma_content_only_stream(bytes: Seq<u8>)
    requires
        forall|i: int| 0 <= i < stream_events(init_model(), bytes).len() ==> !(stream_events(
            init_model(),
            bytes,
        )[i] is Reasoning),
    ensures
        finished(feed(init_model(), bytes)).reasoning == Seq::<char>::empty(),
{
    lemma_aggregate_is_event_concat(init_model(), bytes);
    lemma_no_reasoning_events_no_reasoning(stream_events(init_model(), bytes));
    assert(init_model().reasoning + Seq::<char>::empty() =~= Seq::<char>::empty());
}

} // verus!
