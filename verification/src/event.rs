//! Event filter: classifies one logical line of the server-sent event
//! stream as a data-bearing event, the stream-end sentinel, or noise.

use vstd::prelude::*;
use vstd::slice::{slice_subrange, slice_to_vec};

verus! {

/// The byte values of the SSE data prefix, `"data: "`.
pub open spec fn data_prefix() -> Seq<u8> {
    seq!['d' as u8, 'a' as u8, 't' as u8, 'a' as u8, ':' as u8, ' ' as u8]
}

/// The byte values of the stream-end sentinel payload, `"[DONE]"`.
pub open spec fn done_payload() -> Seq<u8> {
    seq!['[' as u8, 'D' as u8, 'O' as u8, 'N' as u8, 'E' as u8, ']' as u8]
}

/// A logical line with one trailing carriage return removed: SSE line
/// endings may be `\r\n` as well as `\n`.
pub open spec fn strip_cr(line: Seq<u8>) -> Seq<u8> {
    if line.len() > 0 && line.last() == ('\r' as u8) {
        line.drop_last()
    } else {
        line
    }
}

/// Mathematical classification of one logical line.
pub enum LineClass {
    /// A `data: ` line; the payload is everything after the prefix.
    Data(Seq<u8>),
    /// The stream-end sentinel, `data: [DONE]`.
    Done,
    /// Anything else: blank lines, comments, other SSE fields.
    Ignored,
}

/// How a logical line (as raw bytes, without its newline) is classified:
/// only lines beginning with `"data: "` carry an event, and among those the
/// exact payload `"[DONE]"` is the sentinel.
pub open spec fn classify(raw: Seq<u8>) -> LineClass {
    let line = strip_cr(raw);
    if line.len() >= 6 && line.subrange(0, 6) == data_prefix() {
        let payload = line.subrange(6, line.len() as int);
        if payload == done_payload() {
            LineClass::Done
        } else {
            LineClass::Data(payload)
        }
    } else {
        LineClass::Ignored
    }
}

/// Executable classification of one logical line.
pub enum LineEvent {
    /// A `data: ` line carrying the bytes after the prefix.
    Data(Vec<u8>),
    /// The stream-end sentinel, `data: [DONE]`.
    Done,
    /// Anything else.
    Ignored,
}

impl View for LineEvent {
    type V = LineClass;

    open spec fn view(&self) -> LineClass {
        match self {
            LineEvent::Data(p) => LineClass::Data(p@),
            LineEvent::Done => LineClass::Done,
            LineEvent::Ignored => LineClass::Ignored,
        }
    }
}

/// Classify one logical line, handed over as its raw bytes without the
/// terminating newline.
pub fn classify_line(raw: &[u8]) -> (ev: LineEvent)
    ensures
        ev@ == classify(raw@),
{
    let n = raw.len();
    let line: &[u8] = if n > 0 && raw[n - 1] == ('\r' as u8) {
        let l = slice_subrange(raw, 0, n - 1);
        proof {
            assert(l@ =~= strip_cr(raw@));
        }
        l
    } else {
        proof {
            assert(raw@ == strip_cr(raw@));
        }
        raw
    };
    if line.len() < 6 {
        return LineEvent::Ignored;
    }
    if line[0] == ('d' as u8) && line[1] == ('a' as u8) && line[2] == ('t' as u8) && line[3]
        == ('a' as u8) && line[4] == (':' as u8) && line[5] == (' ' as u8) {
        proof {
            assert(line@.subrange(0, 6) =~= data_prefix());
        }
        let payload = slice_subrange(line, 6, line.len());
        if payload.len() == 6 && payload[0] == ('[' as u8) && payload[1] == ('D' as u8)
            && payload[2] == ('O' as u8) && payload[3] == ('N' as u8) && payload[4] == ('E' as u8)
            && payload[5] == (']' as u8) {
            proof {
                assert(payload@ =~= done_payload());
            }
            LineEvent::Done
        } else {
            proof {
                if payload@.len() == done_payload().len() {
                    assert(payload@ != done_payload());
                }
            }
            LineEvent::Data(slice_to_vec(payload))
        }
    } else {
        proof {
            assert(line@.subrange(0, 6) != data_prefix());
        }
        LineEvent::Ignored
    }
}

} // verus!
