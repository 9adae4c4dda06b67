//! Component-level tests: frame splitter, event filter, delta decoder,
//! aggregator, and the shared state.

use deepseek_stream::aggregate::Aggregator;
use deepseek_stream::delta::{decode_delta, delta_from_fields};
use deepseek_stream::event::{classify_line, LineEvent};
use deepseek_stream::frame::split_frames;
use deepseek_stream::state::DeepseekState;
use deepseek_stream::state::Message;

#[test]
fn split_carries_partial_lines_across_chunks() {
    let (lines, rest) = split_frames(Vec::new(), b"ab\ncd");
    assert_eq!(lines, vec![b"ab".to_vec()]);
    assert_eq!(rest, b"cd".to_vec());
    let (lines, rest) = split_frames(rest, b"ef\n\ngh\n");
    assert_eq!(lines, vec![b"cdef".to_vec(), b"".to_vec(), b"gh".to_vec()]);
    assert_eq!(rest, Vec::<u8>::new());
}

#[test]
fn split_of_an_empty_chunk_changes_nothing() {
    let (lines, rest) = split_frames(b"pending".to_vec(), b"");
    assert_eq!(lines, Vec::<Vec<u8>>::new());
    assert_eq!(rest, b"pending".to_vec());
}

#[test]
fn classify_data_line() {
    match classify_line(b"data: hello") {
        LineEvent::Data(p) => assert_eq!(p, b"hello".to_vec()),
        _ => panic!("a data line must classify as data"),
    }
}

#[test]
fn classify_done_line() {
    assert!(matches!(classify_line(b"data: [DONE]"), LineEvent::Done));
    assert!(matches!(classify_line(b"data: [DONE]\r"), LineEvent::Done));
}

#[test]
fn classify_ignores_everything_else() {
    assert!(matches!(classify_line(b""), LineEvent::Ignored));
    assert!(matches!(classify_line(b": comment"), LineEvent::Ignored));
    assert!(matches!(classify_line(b"event: x"), LineEvent::Ignored));
    assert!(matches!(classify_line(b"data:no-space"), LineEvent::Ignored));
    assert!(matches!(classify_line(b"data:"), LineEvent::Ignored));
}

#[test]
fn classify_done_needs_the_exact_payload() {
    match classify_line(b"data: [DONE]x") {
        LineEvent::Data(p) => assert_eq!(p, b"[DONE]x".to_vec()),
        _ => panic!("a longer payload is plain data"),
    }
    match classify_line(b"data:  [DONE]") {
        LineEvent::Data(p) => assert_eq!(p, b" [DONE]".to_vec()),
        _ => panic!("an extra space keeps it plain data"),
    }
}

#[test]
fn decode_reads_both_fields_of_the_first_choice() {
    let d = decode_delta(
        b"{\"choices\":[{\"delta\":{\"content\":\"c\",\"reasoning_content\":\"r\"}}]}",
    );
    assert_eq!(d.content.as_deref(), Some("c"));
    assert_eq!(d.reasoning.as_deref(), Some("r"));
}

#[test]
fn decode_consults_only_the_first_choice() {
    let d = decode_delta(
        b"{\"choices\":[{\"delta\":{\"content\":\"first\"}},{\"delta\":{\"content\":\"second\"}}]}",
    );
    assert_eq!(d.content.as_deref(), Some("first"));
    assert_eq!(d.reasoning, None);
}

#[test]
fn decode_of_malformed_payloads_yields_nothing() {
    let cases: Vec<&[u8]> = vec![
        b"not json",
        b"{}",
        b"{\"choices\":[]}",
        b"{\"choices\":\"nope\"}",
        b"[1,2,3]",
        b"{\"choices\":[{}]}",
    ];
    for payload in cases {
        let d = decode_delta(payload);
        assert_eq!(d.content, None);
        assert_eq!(d.reasoning, None);
    }
}

#[test]
fn decode_drops_empty_fields() {
    let d = decode_delta(b"{\"choices\":[{\"delta\":{\"content\":\"\",\"reasoning_content\":\"\"}}]}");
    assert_eq!(d.content, None);
    assert_eq!(d.reasoning, None);
}

#[test]
fn delta_building_drops_absent_and_empty_fields() {
    let d = delta_from_fields(Some(String::new()), None);
    assert_eq!(d.content, None);
    assert_eq!(d.reasoning, None);
    let d = delta_from_fields(Some("x".to_string()), Some("y".to_string()));
    assert_eq!(d.content.as_deref(), Some("x"));
    assert_eq!(d.reasoning.as_deref(), Some("y"));
}

#[test]
fn aggregator_concatenates_in_order() {
    let mut agg = Aggregator::new();
    agg.append_content("Hel");
    agg.append_reasoning("th");
    agg.append_content("lo");
    agg.append_reasoning("inking");
    let (content, reasoning) = agg.snapshot();
    assert_eq!(content, "Hello");
    assert_eq!(reasoning, "thinking");
    // A snapshot is a copy: the totals keep growing afterwards.
    agg.append_content("!");
    let (content, _) = agg.snapshot();
    assert_eq!(content, "Hello!");
}

#[test]
fn state_starts_with_an_empty_system_message() {
    let state = DeepseekState::new("test-key".to_string());
    assert_eq!(state.api_key, "test-key");
    assert_eq!(state.base_url, "https://api.deepseek.com");
    assert_eq!(state.get_system_message(), "");
}

#[test]
fn state_updates_the_system_message_in_place() {
    let mut state = DeepseekState::new("k".to_string());
    state.update_system_message("be brief".to_string());
    assert_eq!(state.get_system_message(), "be brief");
    state.update_system_message("be kind".to_string());
    assert_eq!(state.get_system_message(), "be kind");
    assert_eq!(state.base_url, "https://api.deepseek.com");
}

#[test]
fn messages_carry_role_and_content() {
    let m = Message { role: "user".to_string(), content: "hi".to_string() };
    let c = m.clone();
    assert_eq!(c.role, "user");
    assert_eq!(c.content, "hi");
}
