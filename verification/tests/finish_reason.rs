use chat_relay::finish_reason::{truncate_at_marker, FinishClassifier, FinishReason};
use chat_relay::text::{
    chars_of, find_chars, matches_at, partial_chars, starts_with_chars, str_eq, to_ascii_lower,
    to_ascii_lowercase,
};

fn chars(s: &str) -> Vec<char> {
    s.chars().collect()
}

/// Feeds the pieces and the end of the text, and returns the text released in all
/// and the reason.
fn run(marker: &str, pieces: &[&str]) -> (String, Option<FinishReason>) {
    let mut watch = FinishClassifier::new(marker);
    let mut text = String::new();
    let mut reason = None;
    for piece in pieces {
        let (released, r) = watch.accept(piece);
        text.push_str(&released);
        if reason.is_none() {
            reason = r;
        }
    }
    let (released, r) = watch.end();
    text.push_str(&released);
    if reason.is_none() {
        reason = r;
    }
    (text, reason)
}

#[test]
fn reasons_have_their_wire_names() {
    assert_eq!(FinishReason::Stop.as_str(), "stop");
    assert_eq!(FinishReason::Length.as_str(), "length");
}

#[test]
fn text_is_cut_at_the_marker() {
    assert_eq!(truncate_at_marker("Ahoy!<|eot_id|>", "<|eot_id|>"), ("Ahoy!".to_owned(), FinishReason::Stop));
    assert_eq!(truncate_at_marker("a<|end|>b<|end|>c", "<|end|>"), ("a".to_owned(), FinishReason::Stop));
    assert_eq!(truncate_at_marker("<|end|>", "<|end|>"), ("".to_owned(), FinishReason::Stop));
}

#[test]
fn text_is_cut_at_the_marker_behind_wide_characters() {
    assert_eq!(truncate_at_marker("é€😀<|end|>é", "<|end|>"), ("é€😀".to_owned(), FinishReason::Stop));
}

#[test]
fn text_without_marker_is_kept_whole() {
    assert_eq!(truncate_at_marker("Ahoy!", "<|eot_id|>"), ("Ahoy!".to_owned(), FinishReason::Length));
    assert_eq!(truncate_at_marker("Ahoy!<|eot_id|", "<|eot_id|>"), ("Ahoy!<|eot_id|".to_owned(), FinishReason::Length));
    assert_eq!(truncate_at_marker("", "<|eot_id|>"), ("".to_owned(), FinishReason::Length));
}

#[test]
fn a_marker_in_one_piece_ends_the_reply() {
    let mut watch = FinishClassifier::new("<|eot_id|>");
    assert!(!watch.is_done());
    assert_eq!(watch.accept("Ahoy!<|eot_id|> and more"), ("Ahoy!".to_owned(), Some(FinishReason::Stop)));
    assert!(watch.is_done());
    assert_eq!(watch.accept("ignored"), ("".to_owned(), None));
    assert_eq!(watch.end(), ("".to_owned(), None));
}

#[test]
fn the_beginning_of_a_marker_is_held_back() {
    let mut watch = FinishClassifier::new("<|eot_id|>");
    assert_eq!(watch.accept("Ahoy"), ("Ahoy".to_owned(), None));
    assert_eq!(watch.accept("! <|eot"), ("! ".to_owned(), None));
    assert_eq!(watch.accept("_id|>"), ("".to_owned(), Some(FinishReason::Stop)));
    assert!(watch.is_done());
}

#[test]
fn what_was_held_back_is_released_when_it_is_no_marker() {
    let mut watch = FinishClassifier::new("<|eot_id|>");
    assert_eq!(watch.accept("a<|e"), ("a".to_owned(), None));
    assert_eq!(watch.accept("x"), ("<|ex".to_owned(), None));
    assert_eq!(watch.accept("<"), ("".to_owned(), None));
    assert_eq!(watch.accept("<|"), ("<".to_owned(), None));
    assert_eq!(watch.end(), ("<|".to_owned(), Some(FinishReason::Length)));
    assert!(watch.is_done());
}

#[test]
fn the_end_without_marker_is_length() {
    let mut watch = FinishClassifier::new("<|end|>");
    assert_eq!(watch.accept("all of it"), ("all of it".to_owned(), None));
    assert_eq!(watch.end(), ("".to_owned(), Some(FinishReason::Length)));
    assert_eq!(watch.end(), ("".to_owned(), None));
}

#[test]
fn pieces_are_classified_as_the_whole_text_is() {
    let text = "Ahoy, <|eo matey! <|eot_id|> trailing <|eot_id|>";
    let marker = "<|eot_id|>";
    let expected = ("Ahoy, <|eo matey! ".to_owned(), Some(FinishReason::Stop));
    assert_eq!(run(marker, &[text]), expected);
    let bytes = text.as_bytes();
    for i in 0..=bytes.len() {
        for j in i..=bytes.len() {
            let pieces = [&text[..i], &text[i..j], &text[j..]];
            assert_eq!(run(marker, &pieces), expected);
        }
    }
}

#[test]
fn pieces_without_marker_are_released_whole() {
    let text = "<|eot<|eot_id|<|eot_id";
    let expected = (text.to_owned(), Some(FinishReason::Length));
    for i in 0..=text.len() {
        assert_eq!(run("<|eot_id|>", &[&text[..i], &text[i..]]), expected);
    }
    assert_eq!(run("<|eot_id|>", &[]), ("".to_owned(), Some(FinishReason::Length)));
}

#[test]
fn characters_of_a_string() {
    assert_eq!(chars_of("aé😀"), vec!['a', 'é', '😀']);
    assert_eq!(chars_of(""), Vec::<char>::new());
}

#[test]
fn search_finds_the_first_occurrence() {
    assert_eq!(find_chars(&chars("abcabc"), &chars("bc")), Some(1));
    assert_eq!(find_chars(&chars("abcabc"), &chars("abc")), Some(0));
    assert_eq!(find_chars(&chars("abcabc"), &chars("cab")), Some(2));
    assert_eq!(find_chars(&chars("abcabc"), &chars("abcabc")), Some(0));
    assert_eq!(find_chars(&chars("abcabc"), &chars("")), Some(0));
    assert_eq!(find_chars(&chars(""), &chars("")), Some(0));
    assert_eq!(find_chars(&chars("abcabc"), &chars("cb")), None);
    assert_eq!(find_chars(&chars("abc"), &chars("abcd")), None);
    assert_eq!(find_chars(&chars(""), &chars("a")), None);
    assert_eq!(find_chars(&chars("aab"), &chars("ab")), Some(1));
}

#[test]
fn matches_are_tested_in_place() {
    assert!(matches_at(&chars("abc"), &chars("bc"), 1));
    assert!(matches_at(&chars("abc"), &chars(""), 3));
    assert!(!matches_at(&chars("abc"), &chars(""), 4));
    assert!(!matches_at(&chars("abc"), &chars("bc"), 2));
    assert!(!matches_at(&chars("abc"), &chars("bd"), 1));
    assert!(starts_with_chars(&chars("abc"), &chars("ab")));
    assert!(!starts_with_chars(&chars("abc"), &chars("bc")));
}

#[test]
fn the_longest_partial_marker_at_the_end() {
    assert_eq!(partial_chars(&chars("xx<|e"), &chars("<|eot_id|>")), 3);
    assert_eq!(partial_chars(&chars("<|eot_id|"), &chars("<|eot_id|>")), 9);
    assert_eq!(partial_chars(&chars("<|eot_id|>"), &chars("<|eot_id|>")), 0);
    assert_eq!(partial_chars(&chars("abc"), &chars("<|eot_id|>")), 0);
    assert_eq!(partial_chars(&chars(""), &chars("<|eot_id|>")), 0);
    assert_eq!(partial_chars(&chars("abc"), &chars("")), 0);
    assert_eq!(partial_chars(&chars("aa"), &chars("aaa")), 2);
    assert_eq!(partial_chars(&chars("aaaa"), &chars("aaa")), 2);
    assert_eq!(partial_chars(&chars("ab"), &chars("aba")), 2);
    assert_eq!(partial_chars(&chars("aba"), &chars("abab")), 3);
    assert_eq!(partial_chars(&chars("abaa"), &chars("abab")), 1);
}

#[test]
fn ascii_capitals_are_lowered() {
    assert_eq!(to_ascii_lower('A'), 'a');
    assert_eq!(to_ascii_lower('Z'), 'z');
    assert_eq!(to_ascii_lower('a'), 'a');
    assert_eq!(to_ascii_lower('@'), '@');
    assert_eq!(to_ascii_lower('['), '[');
    assert_eq!(to_ascii_lower('É'), 'É');
    assert_eq!(to_ascii_lowercase(&chars("Llama-3-70B É")), chars("llama-3-70b É"));
}

#[test]
fn strings_are_compared_by_their_text() {
    assert!(str_eq("user", "user"));
    assert!(str_eq("", ""));
    assert!(str_eq("é", "é"));
    assert!(!str_eq("user", "User"));
    assert!(!str_eq("user", "users"));
    assert!(!str_eq("", "a"));
}
