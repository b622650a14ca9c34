use crate::text::{chars_of, find, find_chars, partial_chars, partial_len};
use vstd::prelude::*;
use vstd::string::*;

verus! {

/// Why a reply ended.
#[derive(Clone, Copy, Debug, PartialEq, Eq, Structural)]
pub enum FinishReason {
    /// The model's end-of-turn marker was met.
    Stop,
    /// The backend's reply ended without the marker.
    Length,
}

impl FinishReason {
    /// The reason as the wire format names it.
    pub open spec fn text(self) -> Seq<char> {
        match self {
            FinishReason::Stop => "stop"@,
            FinishReason::Length => "length"@,
        }
    }

    /// The reason as the wire format names it.
    pub fn as_str(self) -> (s: &'static str)
        ensures
            s@ == self.text(),
    {
        match self {
            FinishReason::Stop => "stop",
            FinishReason::Length => "length",
        }
    }
}

/// A reply cut at the first end-of-turn marker, with the reason it ended for: `Stop`
/// where the marker stands in it, `Length` where it does not.
pub open spec fn truncated(text: Seq<char>, marker: Seq<char>) -> (Seq<char>, FinishReason) {
    match find(text, marker) {
        Some(k) => (text.take(k), FinishReason::Stop),
        None => (text, FinishReason::Length),
    }
}

/// Cuts a complete reply at the first end-of-turn marker.
pub fn truncate_at_marker(text: &str, marker: &str) -> (r: (String, FinishReason))
    ensures
        r.0@ == truncated(text@, marker@).0,
        r.1 == truncated(text@, marker@).1,
{
    let chars = chars_of(text);
    let needle = chars_of(marker);
    match find_chars(chars.as_slice(), needle.as_slice()) {
        Some(k) => (text.substring_char(0, k).to_owned(), FinishReason::Stop),
        None => (text.to_owned(), FinishReason::Length),
    }
}

/// The state of a classifier: the text held back because it may begin a marker, and
/// whether the reply has ended.
pub struct ClassifierModel {
    pub pending: Seq<char>,
    pub done: bool,
}

/// One move of a classifier: the state it leads to, the text it releases, and the
/// reason, where the reply ends with this move.
pub struct Classified {
    pub next: ClassifierModel,
    pub text: Seq<char>,
    pub reason: Option<FinishReason>,
}

/// The state before any text has arrived.
pub open spec fn initial_classifier() -> ClassifierModel {
    ClassifierModel { pending: Seq::empty(), done: false }
}

/// The state after the reply has ended.
pub open spec fn ended_classifier() -> ClassifierModel {
    ClassifierModel { pending: Seq::empty(), done: true }
}

/// The move made when the text `delta` arrives: with the marker in sight the text
/// before it is released and the reply ends; otherwise all is released but an ending
/// that may begin a marker.
pub open spec fn classify_model(m: ClassifierModel, marker: Seq<char>, delta: Seq<char>)
    -> Classified {
    let t = m.pending + delta;
    if m.done {
        Classified { next: m, text: Seq::empty(), reason: None }
    } else {
        match find(t, marker) {
            Some(k) => Classified {
                next: ended_classifier(),
                text: t.take(k),
                reason: Some(FinishReason::Stop),
            },
            None => {
                let keep = partial_len(t, marker);
                Classified {
                    next: ClassifierModel { pending: t.skip(t.len() - keep), done: false },
                    text: t.take(t.len() - keep),
                    reason: None,
                }
            },
        }
    }
}

/// The move made when the text ends: what was held back is released.
pub open spec fn classify_end_model(m: ClassifierModel) -> Classified {
    if m.done {
        Classified { next: m, text: Seq::empty(), reason: None }
    } else {
        Classified {
            next: ended_classifier(),
            text: m.pending,
            reason: Some(FinishReason::Length),
        }
    }
}

/// Watches the text of a streamed reply for the end-of-turn marker.
pub struct FinishClassifier {
    marker: Vec<char>,
    pending: String,
    done: bool,
}

impl View for FinishClassifier {
    type V = ClassifierModel;

    closed spec fn view(&self) -> ClassifierModel {
        ClassifierModel { pending: self.pending@, done: self.done }
    }
}

impl FinishClassifier {
    /// The marker watched for.
    pub closed spec fn marker(&self) -> Seq<char> {
        self.marker@
    }

    /// A classifier that has seen no text.
    pub fn new(marker: &str) -> (c: FinishClassifier)
        ensures
            c@ == initial_classifier(),
            c.marker() == marker@,
    {
        FinishClassifier { marker: chars_of(marker), pending: String::new(), done: false }
    }

    /// Whether the reply has ended.
    pub fn is_done(&self) -> (d: bool)
        ensures
            d == self@.done,
    {
        self.done
    }

    /// Takes the next piece of text in, and returns what it releases.
    pub fn accept(&mut self, delta: &str) -> (r: (String, Option<FinishReason>))
        ensures
            final(self).marker() == old(self).marker(),
            final(self)@ == classify_model(old(self)@, old(self).marker(), delta@).next,
            r.0@ == classify_model(old(self)@, old(self).marker(), delta@).text,
            r.1 == classify_model(old(self)@, old(self).marker(), delta@).reason,
    {
        if self.done {
            return (String::new(), None);
        }
        self.pending.append(delta);
        let chars = chars_of(self.pending.as_str());
        let n = chars.len();
        match find_chars(chars.as_slice(), self.marker.as_slice()) {
            Some(k) => {
                let out = self.pending.as_str().substring_char(0, k).to_owned();
                self.pending = String::new();
                self.done = true;
                (out, Some(FinishReason::Stop))
            },
            None => {
                let keep = partial_chars(chars.as_slice(), self.marker.as_slice());
                let out = self.pending.as_str().substring_char(0, n - keep).to_owned();
                let held = self.pending.as_str().substring_char(n - keep, n).to_owned();
                self.pending = held;
                (out, None)
            },
        }
    }

    /// Takes the end of the text in, and returns what was held back.
    pub fn end(&mut self) -> (r: (String, Option<FinishReason>))
        ensures
            final(self).marker() == old(self).marker(),
            final(self)@ == classify_end_model(old(self)@).next,
            r.0@ == classify_end_model(old(self)@).text,
            r.1 == classify_end_model(old(self)@).reason,
    {
        if self.done {
            return (String::new(), None);
        }
        let out = self.pending.clone();
        self.pending = String::new();
        self.done = true;
        (out, Some(FinishReason::Length))
    }
}

} // verus!
