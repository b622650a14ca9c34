use chat_relay::error::RelayError;
use chat_relay::reassembly::{
    ends_with_bytes, fragment_fits, frame_prefix_bytes, frame_suffix_bytes, starts_with_bytes,
    withheld_count, StreamPhase, StreamReassembler,
};

/// Feeds the fragments and the end of the stream, and returns the text exposed in all.
fn run(fragments: &[&[u8]]) -> Result<String, RelayError> {
    let mut engine = StreamReassembler::new();
    let mut text = String::new();
    for fragment in fragments {
        text.push_str(&engine.push(fragment)?);
    }
    text.push_str(&engine.finish()?);
    Ok(text)
}

#[test]
fn the_frame_is_the_documents_opening_and_closing() {
    assert_eq!(&frame_prefix_bytes()[..], b"{\"generated_text\": \"");
    assert_eq!(&frame_suffix_bytes()[..], b"\"}");
}

#[test]
fn a_whole_document_in_one_fragment_yields_its_text() {
    assert_eq!(run(&[b"{\"generated_text\": \"Hello\"}"]).unwrap(), "Hello");
}

#[test]
fn a_new_engine_awaits_the_prefix() {
    let engine = StreamReassembler::new();
    assert_eq!(engine.phase(), StreamPhase::AwaitingPrefix);
}

#[test]
fn the_prefix_is_dropped_once() {
    let mut engine = StreamReassembler::new();
    assert_eq!(engine.push(b"{\"generated_text\": \"{\"generated_text\": \"x").unwrap(), "{\"generated_text\": \"x");
    assert_eq!(engine.phase(), StreamPhase::Streaming);
    assert_eq!(engine.push(b"{\"generated_text\": \"y").unwrap(), "{\"generated_text\": \"y");
}

#[test]
fn a_prefix_split_over_fragments_is_dropped() {
    let mut engine = StreamReassembler::new();
    assert_eq!(engine.push(b"{\"gen").unwrap(), "");
    assert_eq!(engine.phase(), StreamPhase::AwaitingPrefix);
    assert_eq!(engine.push(b"erated_text\"").unwrap(), "");
    assert_eq!(engine.phase(), StreamPhase::AwaitingPrefix);
    assert_eq!(engine.push(b": \"Hi").unwrap(), "Hi");
    assert_eq!(engine.phase(), StreamPhase::Streaming);
    assert_eq!(engine.finish().unwrap(), "");
    assert_eq!(engine.phase(), StreamPhase::Closed);
}

#[test]
fn bytes_that_only_begin_like_the_prefix_are_text() {
    let mut engine = StreamReassembler::new();
    assert_eq!(engine.push(b"{\"gen").unwrap(), "");
    assert_eq!(engine.push(b"ius\": 1").unwrap(), "{\"genius\": 1");
    assert_eq!(engine.finish().unwrap(), "");
}

#[test]
fn a_stream_that_ends_within_the_prefix_is_text() {
    assert_eq!(run(&[b"{\"gen"]).unwrap(), "{\"gen");
    assert_eq!(run(&[b"{"]).unwrap(), "{");
}

#[test]
fn a_stream_without_frame_is_text() {
    assert_eq!(run(&[b"Ahoy", b"! <|eot", b"_id|>"]).unwrap(), "Ahoy! <|eot_id|>");
}

#[test]
fn an_empty_stream_is_empty_text() {
    assert_eq!(run(&[]).unwrap(), "");
    assert_eq!(run(&[b""]).unwrap(), "");
    assert_eq!(run(&[b"", b""]).unwrap(), "");
}

#[test]
fn the_suffix_waits_for_the_end() {
    let mut engine = StreamReassembler::new();
    assert_eq!(engine.push(b"{\"generated_text\": \"Hi\"}").unwrap(), "Hi");
    assert_eq!(engine.phase(), StreamPhase::AwaitingSuffixConfirm);
    assert_eq!(engine.finish().unwrap(), "");
    assert_eq!(engine.phase(), StreamPhase::Closed);
}

#[test]
fn a_suffix_in_the_middle_is_text() {
    let mut engine = StreamReassembler::new();
    assert_eq!(engine.push(b"{\"generated_text\": \"a\"}").unwrap(), "a");
    assert_eq!(engine.phase(), StreamPhase::AwaitingSuffixConfirm);
    assert_eq!(engine.push(b" b").unwrap(), "\"} b");
    assert_eq!(engine.phase(), StreamPhase::Streaming);
    assert_eq!(engine.push(b"\"}").unwrap(), "");
    assert_eq!(engine.finish().unwrap(), "");
}

#[test]
fn a_suffix_split_over_fragments_is_dropped() {
    let mut engine = StreamReassembler::new();
    assert_eq!(engine.push(b"{\"generated_text\": \"Hi\"").unwrap(), "Hi");
    assert_eq!(engine.phase(), StreamPhase::Streaming);
    assert_eq!(engine.push(b"}").unwrap(), "");
    assert_eq!(engine.phase(), StreamPhase::AwaitingSuffixConfirm);
    assert_eq!(engine.finish().unwrap(), "");
}

#[test]
fn a_quote_at_the_end_of_the_stream_is_text() {
    assert_eq!(run(&[b"say \"hi\""]).unwrap(), "say \"hi\"");
    assert_eq!(run(&[b"\""]).unwrap(), "\"");
}

#[test]
fn a_held_quote_is_released_by_what_follows() {
    let mut engine = StreamReassembler::new();
    assert_eq!(engine.push(b"a\"").unwrap(), "a");
    assert_eq!(engine.push(b"b").unwrap(), "\"b");
    assert_eq!(engine.push(b"\"").unwrap(), "");
    assert_eq!(engine.push(b"\"").unwrap(), "\"");
    assert_eq!(engine.finish().unwrap(), "\"");
}

#[test]
fn only_the_last_suffix_is_dropped() {
    assert_eq!(run(&[b"{\"generated_text\": \"\"}\"}"]).unwrap(), "\"}");
    assert_eq!(run(&[b"\"}"]).unwrap(), "");
    assert_eq!(run(&[b"{\"generated_text\": \"\"}"]).unwrap(), "");
    assert_eq!(run(&[b"{\"generated_text\": \"}"]).unwrap(), "}");
}

#[test]
fn escapes_are_passed_on_as_they_are() {
    assert_eq!(run(&[b"{\"generated_text\": \"a\\nb\\\"c\"}"]).unwrap(), "a\\nb\\\"c");
}

#[test]
fn a_character_split_over_fragments_waits_for_its_bytes() {
    // "é" is C3 A9, "€" is E2 82 AC, "😀" is F0 9F 98 80
    let mut engine = StreamReassembler::new();
    assert_eq!(engine.push(b"{\"generated_text\": \"caf\xC3").unwrap(), "caf");
    assert_eq!(engine.push(b"\xA9 \xE2").unwrap(), "é ");
    assert_eq!(engine.push(b"\x82").unwrap(), "");
    assert_eq!(engine.push(b"\xAC\xF0\x9F\x98").unwrap(), "€");
    assert_eq!(engine.push(b"\x80\"}").unwrap(), "😀");
    assert_eq!(engine.finish().unwrap(), "");
}

#[test]
fn every_delta_is_whole_text_at_every_cut_of_a_character() {
    let stream = "{\"generated_text\": \"é€😀\"}".as_bytes();
    for cut in 0..=stream.len() {
        let mut engine = StreamReassembler::new();
        let first = engine.push(&stream[..cut]).unwrap();
        let second = engine.push(&stream[cut..]).unwrap();
        let last = engine.finish().unwrap();
        assert_eq!(format!("{}{}{}", first, second, last), "é€😀");
    }
}

#[test]
fn text_does_not_depend_on_the_fragment_boundaries() {
    let stream = "{\"generated_text\": \"Ahoy \\\"é€😀\\\"}! \"}".as_bytes();
    let whole = run(&[stream]).unwrap();
    assert_eq!(whole, "Ahoy \\\"é€😀\\\"}! ");
    for i in 0..=stream.len() {
        for j in i..=stream.len() {
            let text = run(&[&stream[..i], &stream[i..j], &stream[j..]]).unwrap();
            assert_eq!(text, whole);
        }
    }
}

#[test]
fn text_fed_byte_by_byte_is_the_same() {
    let stream = "{\"generated_text\": \"\"quoted\" — ünïcödé \"}\"}".as_bytes();
    let whole = run(&[stream]).unwrap();
    let mut engine = StreamReassembler::new();
    let mut text = String::new();
    for byte in stream {
        text.push_str(&engine.push(&[*byte]).unwrap());
    }
    text.push_str(&engine.finish().unwrap());
    assert_eq!(text, whole);
    assert_eq!(text, "\"quoted\" — ünïcödé \"}");
}

#[test]
fn bytes_that_are_no_text_are_a_malformed_frame() {
    let mut engine = StreamReassembler::new();
    assert!(matches!(engine.push(b"ab\xFF\xFF\xFF\xFF"), Err(RelayError::MalformedBackendFrame)));
    assert_eq!(engine.phase(), StreamPhase::Closed);
}

#[test]
fn undecodable_bytes_wait_for_three_more() {
    let mut engine = StreamReassembler::new();
    assert_eq!(engine.push(b"ab\xFF").unwrap(), "ab");
    assert_eq!(engine.push(b"c").unwrap(), "");
    assert_eq!(engine.push(b"d").unwrap(), "");
    assert!(matches!(engine.push(b"e"), Err(RelayError::MalformedBackendFrame)));
}

#[test]
fn a_stream_that_ends_within_a_character_is_a_malformed_frame() {
    let mut engine = StreamReassembler::new();
    assert_eq!(engine.push(b"{\"generated_text\": \"caf\xC3").unwrap(), "caf");
    assert!(matches!(engine.finish(), Err(RelayError::MalformedBackendFrame)));
    assert_eq!(engine.phase(), StreamPhase::Closed);
    assert!(matches!(run(&[b"caf\xC3\"}"]), Err(RelayError::MalformedBackendFrame)));
    assert!(matches!(run(&[b"caf\xC3\""]), Err(RelayError::MalformedBackendFrame)));
}

#[test]
fn overlong_and_surrogate_encodings_are_no_text() {
    assert!(matches!(run(&[b"\xC0\x80"]), Err(RelayError::MalformedBackendFrame)));
    assert!(matches!(run(&[b"\xED\xA0\x80"]), Err(RelayError::MalformedBackendFrame)));
    assert!(matches!(run(&[b"\xF4\x90\x80\x80"]), Err(RelayError::MalformedBackendFrame)));
    assert!(matches!(run(&[b"\x80"]), Err(RelayError::MalformedBackendFrame)));
}

#[test]
fn a_closed_engine_discards_what_comes() {
    let mut engine = StreamReassembler::new();
    assert_eq!(engine.push(b"Hi").unwrap(), "Hi");
    assert_eq!(engine.finish().unwrap(), "");
    assert_eq!(engine.phase(), StreamPhase::Closed);
    assert_eq!(engine.push(b"more").unwrap(), "");
    assert_eq!(engine.finish().unwrap(), "");
    assert_eq!(engine.phase(), StreamPhase::Closed);
}

#[test]
fn the_malformed_frame_error_has_a_message() {
    assert_eq!(RelayError::MalformedBackendFrame.message(), "malformed backend frame");
    assert_eq!(RelayError::BackendInvocationFailure.message(), "backend invocation failed");
}

#[test]
fn prefix_and_suffix_tests_on_bytes() {
    assert!(starts_with_bytes(b"abc", b"ab"));
    assert!(starts_with_bytes(b"abc", b""));
    assert!(starts_with_bytes(b"abc", b"abc"));
    assert!(!starts_with_bytes(b"abc", b"abcd"));
    assert!(!starts_with_bytes(b"abc", b"bc"));
    assert!(ends_with_bytes(b"abc", b"bc"));
    assert!(ends_with_bytes(b"abc", b""));
    assert!(ends_with_bytes(b"abc", b"abc"));
    assert!(!ends_with_bytes(b"abc", b"zabc"));
    assert!(!ends_with_bytes(b"abc", b"ab"));
}

#[test]
fn withheld_bytes_are_the_possible_suffix() {
    assert_eq!(withheld_count(b""), 0);
    assert_eq!(withheld_count(b"abc"), 0);
    assert_eq!(withheld_count(b"abc}"), 0);
    assert_eq!(withheld_count(b"abc\""), 1);
    assert_eq!(withheld_count(b"\""), 1);
    assert_eq!(withheld_count(b"abc\"}"), 2);
    assert_eq!(withheld_count(b"\"}"), 2);
}

#[test]
fn fragments_of_any_real_size_fit() {
    assert!(fragment_fits(b""));
    assert!(fragment_fits(b"{\"generated_text\": \"Hello\"}"));
    assert!(fragment_fits(&vec![0u8; 1 << 20]));
}
