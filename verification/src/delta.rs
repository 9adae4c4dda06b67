//! Delta decoder: parses one data payload into a structured delta holding
//! an optional content fragment and an optional reasoning fragment.
//!
//! A payload is expected to be a JSON object with a `choices` array whose
//! first element has a `delta` object with optional `content` and
//! `reasoning_content` string fields. A payload that does not fit this
//! shape yields no fragments at all; it never aborts the stream.

use vstd::prelude::*;

verus! {

/// What `String::from_utf8_lossy` yields on a byte sequence: a function of
/// the bytes alone (invalid sequences become replacement characters).
pub uninterp spec fn lossy_utf8_of(bytes: Seq<u8>) -> Seq<char>;

/// Relies on `String::from_utf8_lossy`: decodes bytes as UTF-8, replacing
/// invalid sequences, never failing.
#[verifier::external_body]
fn decode_utf8_lossy(bytes: &[u8]) -> (s: String)
    ensures
        s@ == lossy_utf8_of(bytes@),
{
    String::from_utf8_lossy(bytes).into_owned()
}

/// What the JSON parse of a payload yields: `None` when the payload is not
/// a JSON document with a `choices[0].delta` object, otherwise the
/// `content` and `reasoning_content` string fields of that object, each
/// `None` when absent or not a string. A function of the characters alone.
pub uninterp spec fn payload_fields(s: Seq<char>) -> Option<(Option<Seq<char>>, Option<Seq<char>>)>;

/// The view of an optional string.
pub open spec fn opt_view(o: Option<String>) -> Option<Seq<char>> {
    match o {
        Some(s) => Some(s@),
        None => None,
    }
}

/// The view of a decoded pair of payload fields.
pub open spec fn fields_view(r: Option<(Option<String>, Option<String>)>) -> Option<
    (Option<Seq<char>>, Option<Seq<char>>),
> {
    match r {
        Some(f) => Some((opt_view(f.0), opt_view(f.1))),
        None => None,
    }
}

/// Relies on `serde_json::from_str` and `serde_json::Value`'s `get` and
/// `as_str` accessors: reads `choices[0].delta.content` and
/// `choices[0].delta.reasoning_content` out of the payload. The outcome
/// depends on the payload's characters alone.
#[verifier::external_body]
fn parse_payload(s: &str) -> (r: Option<(Option<String>, Option<String>)>)
    ensures
        fields_view(r) == payload_fields(s@),
{
    match serde_json::from_str::<serde_json::Value>(s) {
        Ok(v) => match v.get("choices").and_then(|c| c.get(0)).and_then(|c| c.get("delta")) {
            Some(d) => Some(
                (
                    d.get("content").and_then(|f| f.as_str()).map(|f| f.to_string()),
                    d.get("reasoning_content").and_then(|f| f.as_str()).map(|f| f.to_string()),
                ),
            ),
            None => None,
        },
        Err(_) => None,
    }
}

/// The mathematical form of a decoded delta: at most one new content
/// fragment and at most one new reasoning fragment, both non-empty.
pub struct DeltaModel {
    pub content: Option<Seq<char>>,
    pub reasoning: Option<Seq<char>>,
}

/// One decoded delta. An absent field means "no new fragment of that
/// kind"; a present field is never the empty string.
pub struct Delta {
    pub content: Option<String>,
    pub reasoning: Option<String>,
}

impl View for Delta {
    type V = DeltaModel;

    open spec fn view(&self) -> DeltaModel {
        DeltaModel { content: opt_view(self.content), reasoning: opt_view(self.reasoning) }
    }
}

/// An absent or empty field carries no fragment.
pub open spec fn nonempty_only(f: Option<Seq<char>>) -> Option<Seq<char>> {
    match f {
        Some(s) => if s.len() > 0 {
            Some(s)
        } else {
            None
        },
        None => None,
    }
}

/// What the delta decoder yields for a payload: the two fields when the
/// payload parses, with absent and empty fields dropped; nothing otherwise.
pub open spec fn delta_of_payload(payload: Seq<u8>) -> DeltaModel {
    match payload_fields(lossy_utf8_of(payload)) {
        Some(f) => DeltaModel { content: nonempty_only(f.0), reasoning: nonempty_only(f.1) },
        None => DeltaModel { content: None, reasoning: None },
    }
}

/// Builds a delta from the two decoded fields, dropping absent and empty
/// ones: an empty fragment is "nothing new" and must contribute nothing.
pub fn delta_from_fields(content: Option<String>, reasoning: Option<String>) -> (d: Delta)
    ensures
        d@ == (DeltaModel {
            content: nonempty_only(opt_view(content)),
            reasoning: nonempty_only(opt_view(reasoning)),
        }),
{
    Delta { content: keep_nonempty(content), reasoning: keep_nonempty(reasoning) }
}

fn keep_nonempty(f: Option<String>) -> (r: Option<String>)
    ensures
        opt_view(r) == nonempty_only(opt_view(f)),
{
    match f {
        Some(s) => if s.as_str().is_empty() {
            None
        } else {
            Some(s)
        },
        None => None,
    }
}

/// Decode one data payload into a delta. A malformed payload yields a
/// delta with no fragments; the caller goes on with the next event.
pub fn decode_delta(payload: &[u8]) -> (d: Delta)
    ensures
        d@ == delta_of_payload(payload@),
{
    let text = decode_utf8_lossy(payload);
    match parse_payload(text.as_str()) {
        Some(f) => delta_from_fields(f.0, f.1),
        None => Delta { content: None, reasoning: None },
    }
}

} // verus!
