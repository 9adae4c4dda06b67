//! End-to-end scenarios for the stream decoder.

use deepseek_stream::stream::{StreamDecoder, StreamEvent};

/// Collects the events of feeding the chunks and finishing the stream.
fn run(chunks: &[&[u8]]) -> Vec<StreamEvent> {
    let mut dec = StreamDecoder::new();
    let mut events: Vec<StreamEvent> = Vec::new();
    for chunk in chunks {
        events.extend(dec.feed_chunk(chunk));
    }
    events.extend(dec.finish());
    events
}

fn as_strings(events: &[StreamEvent]) -> Vec<String> {
    events
        .iter()
        .map(|e| match e {
            StreamEvent::Content(s) => format!("content:{}", s),
            StreamEvent::Reasoning(s) => format!("reasoning:{}", s),
            StreamEvent::Complete(c, r) => format!("complete:{}|{}", c, r),
        })
        .collect()
}

#[test]
fn two_chunk_stream_mid_payload_split() {
    let chunk1: &[u8] = b"data: {\"choices\":[{\"delta\":{\"content\":\"Hel";
    let chunk2: &[u8] =
        b"lo\"}}]}\n\ndata: {\"choices\":[{\"delta\":{\"reasoning_content\":\"thinking\"}}]}\n\ndata: [DONE]\n";
    let events = run(&[chunk1, chunk2]);
    assert_eq!(
        as_strings(&events),
        vec![
            "content:Hello".to_string(),
            "reasoning:thinking".to_string(),
            "complete:Hello|thinking".to_string(),
        ]
    );
}

#[test]
fn rechunking_leaves_the_outcome_unchanged() {
    let bytes: &[u8] =
        b"data: {\"choices\":[{\"delta\":{\"content\":\"a\"}}]}\ndata: {\"choices\":[{\"delta\":{\"reasoning_content\":\"r\",\"content\":\"b\"}}]}\ndata: [DONE]\n";
    let whole = as_strings(&run(&[bytes]));
    // Byte-by-byte delivery.
    let mut dec = StreamDecoder::new();
    let mut events: Vec<StreamEvent> = Vec::new();
    for b in bytes {
        events.extend(dec.feed_chunk(&[*b]));
    }
    events.extend(dec.finish());
    assert_eq!(as_strings(&events), whole);
    // A split in the middle of the second payload.
    let (front, back) = bytes.split_at(70);
    assert_eq!(as_strings(&run(&[front, back])), whole);
    assert_eq!(
        whole,
        vec![
            "content:a".to_string(),
            "reasoning:r".to_string(),
            "content:b".to_string(),
            "complete:ab|r".to_string(),
        ]
    );
}

#[test]
fn malformed_event_between_well_formed_ones() {
    let bytes: &[u8] = b"data: {\"choices\":[{\"delta\":{\"content\":\"one\"}}]}\ndata: {not json at all\ndata: {\"choices\":[{\"delta\":{\"content\":\"two\"}}]}\n";
    let events = run(&[bytes]);
    assert_eq!(
        as_strings(&events),
        vec![
            "content:one".to_string(),
            "content:two".to_string(),
            "complete:onetwo|".to_string(),
        ]
    );
}

#[test]
fn bytes_after_done_are_not_decoded() {
    let bytes: &[u8] =
        b"data: {\"choices\":[{\"delta\":{\"content\":\"kept\"}}]}\ndata: [DONE]\ndata: {\"choices\":[{\"delta\":{\"content\":\"dropped\"}}]}\n";
    let events = run(&[bytes]);
    assert_eq!(
        as_strings(&events),
        vec!["content:kept".to_string(), "complete:kept|".to_string()]
    );
}

#[test]
fn done_split_across_chunks_still_terminates() {
    let events = run(&[b"data: {\"choices\":[{\"delta\":{\"content\":\"x\"}}]}\ndata: [DO",
        b"NE]\ndata: {\"choices\":[{\"delta\":{\"content\":\"y\"}}]}\n"]);
    assert_eq!(
        as_strings(&events),
        vec!["content:x".to_string(), "complete:x|".to_string()]
    );
}

#[test]
fn empty_fields_produce_no_events() {
    let bytes: &[u8] =
        b"data: {\"choices\":[{\"delta\":{\"content\":\"\"}}]}\ndata: {\"choices\":[{\"delta\":{\"reasoning_content\":\"\",\"content\":\"\"}}]}\n";
    let events = run(&[bytes]);
    assert_eq!(as_strings(&events), vec!["complete:|".to_string()]);
}

#[test]
fn content_only_stream_has_empty_reasoning() {
    let bytes: &[u8] =
        b"data: {\"choices\":[{\"delta\":{\"content\":\"a\"}}]}\ndata: {\"choices\":[{\"delta\":{\"content\":\"b\"}}]}\ndata: [DONE]\n";
    let events = run(&[bytes]);
    match events.last().unwrap() {
        StreamEvent::Complete(content, reasoning) => {
            assert_eq!(content, "ab");
            assert_eq!(reasoning, "");
        }
        _ => panic!("the last event must be the final aggregate"),
    }
}

#[test]
fn non_data_lines_are_ignored() {
    let bytes: &[u8] =
        b"event: message\n: a comment\n\nid: 7\ndata: {\"choices\":[{\"delta\":{\"content\":\"z\"}}]}\n";
    let events = run(&[bytes]);
    assert_eq!(
        as_strings(&events),
        vec!["content:z".to_string(), "complete:z|".to_string()]
    );
}

#[test]
fn crlf_lines_are_handled() {
    let bytes: &[u8] =
        b"data: {\"choices\":[{\"delta\":{\"content\":\"ok\"}}]}\r\ndata: [DONE]\r\n";
    let events = run(&[bytes]);
    assert_eq!(
        as_strings(&events),
        vec!["content:ok".to_string(), "complete:ok|".to_string()]
    );
}

#[test]
fn unterminated_final_line_is_processed_at_finish() {
    let bytes: &[u8] = b"data: {\"choices\":[{\"delta\":{\"content\":\"tail\"}}]}";
    let events = run(&[bytes]);
    assert_eq!(
        as_strings(&events),
        vec!["content:tail".to_string(), "complete:tail|".to_string()]
    );
}

#[test]
fn invalid_utf8_is_never_fatal() {
    let mut bytes: Vec<u8> = Vec::new();
    bytes.extend_from_slice(b"data: \xff\xfe\n");
    bytes.extend_from_slice(b"data: {\"choices\":[{\"delta\":{\"content\":\"after\"}}]}\n");
    let events = run(&[bytes.as_slice()]);
    assert_eq!(
        as_strings(&events),
        vec!["content:after".to_string(), "complete:after|".to_string()]
    );
}

#[test]
fn empty_stream_still_completes() {
    let events = run(&[]);
    assert_eq!(as_strings(&events), vec!["complete:|".to_string()]);
}

#[test]
fn reasoning_is_emitted_before_content_of_the_same_event() {
    let bytes: &[u8] =
        b"data: {\"choices\":[{\"delta\":{\"content\":\"c\",\"reasoning_content\":\"r\"}}]}\n";
    let events = run(&[bytes]);
    assert_eq!(
        as_strings(&events),
        vec![
            "reasoning:r".to_string(),
            "content:c".to_string(),
            "complete:c|r".to_string(),
        ]
    );
}
