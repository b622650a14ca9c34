use crate::buffer::{buffer_advance, buffer_bytes, buffer_len, buffer_new, buffer_put, buffered};
use crate::error::RelayError;
use crate::utf8::{
    decode_or_valid_up_to, lemma_valid_iff_prefix_is_whole, lemma_valid_prefix_len_after_valid,
    lemma_valid_prefix_len_bounds, lemma_valid_prefix_len_maximal, valid_prefix_len,
};
use bytes::BytesMut;
use vstd::prelude::*;
use vstd::slice::slice_subrange;
use vstd::string::*;
use vstd::utf8::*;

verus! {

/// The bytes `{"generated_text": "` that open the backend's streaming document.
pub open spec fn frame_prefix() -> Seq<u8> {
    seq![
        0x7bu8, 0x22u8, 0x67u8, 0x65u8, 0x6eu8, 0x65u8, 0x72u8, 0x61u8, 0x74u8, 0x65u8,
        0x64u8, 0x5fu8, 0x74u8, 0x65u8, 0x78u8, 0x74u8, 0x22u8, 0x3au8, 0x20u8, 0x22u8,
    ]
}

/// The bytes `"}` that close the backend's streaming document.
pub open spec fn frame_suffix() -> Seq<u8> {
    seq![0x22u8, 0x7du8]
}

/// Too few bytes have arrived to tell whether the stream opens with the frame prefix.
pub open spec fn prefix_undecided(seen: Seq<u8>) -> bool {
    seen.len() < frame_prefix().len() && seen.is_prefix_of(frame_prefix())
}

/// The stream without the frame prefix, where it opens with one.
pub open spec fn without_frame_prefix(stream: Seq<u8>) -> Seq<u8> {
    if frame_prefix().is_prefix_of(stream) {
        stream.skip(frame_prefix().len() as int)
    } else {
        stream
    }
}

/// The bytes without the frame suffix, where they end with one.
pub open spec fn without_frame_suffix(bytes: Seq<u8>) -> Seq<u8> {
    if frame_suffix().is_suffix_of(bytes) {
        bytes.take(bytes.len() - frame_suffix().len())
    } else {
        bytes
    }
}

/// What a complete stream carries between its frame prefix and its frame suffix.
pub open spec fn payload(stream: Seq<u8>) -> Seq<u8> {
    without_frame_suffix(without_frame_prefix(stream))
}

/// How many trailing bytes must wait because they may yet prove to be the frame suffix.
pub open spec fn withheld_len(body: Seq<u8>) -> int {
    if frame_suffix().is_suffix_of(body) {
        2
    } else if body.len() > 0 && body.last() == 0x22u8 {
        1
    } else {
        0
    }
}

/// Where a stream stands.
#[derive(Clone, Copy, Debug, PartialEq, Eq, Structural)]
pub enum StreamPhase {
    /// Nothing has been exposed; the frame prefix may still be arriving.
    AwaitingPrefix,
    /// Text is being exposed as it arrives.
    Streaming,
    /// The unexposed bytes end with the frame suffix; the stream may be over.
    AwaitingSuffixConfirm,
    /// The stream has ended or failed; further input is discarded.
    Closed,
}

/// The state of a reassembly: the phase, and the bytes received but not yet exposed.
pub struct ReassemblyModel {
    pub phase: StreamPhase,
    pub held: Seq<u8>,
}

/// One move of a reassembly: the state it leads to and the bytes it exposes, or `None`
/// for a malformed frame.
pub struct ReassemblyStep {
    pub next: ReassemblyModel,
    pub delta: Option<Seq<u8>>,
}

/// The state before any byte has arrived.
pub open spec fn initial_model() -> ReassemblyModel {
    ReassemblyModel { phase: StreamPhase::AwaitingPrefix, held: Seq::empty() }
}

/// The state after the end or a failure.
pub open spec fn closed_model() -> ReassemblyModel {
    ReassemblyModel { phase: StreamPhase::Closed, held: Seq::empty() }
}

/// Exposes what can be exposed of the unexposed body bytes `body`: everything up to the
/// last character boundary before the bytes that may be the frame suffix. Four or more
/// undecodable bytes make the frame malformed.
pub open spec fn settle_model(body: Seq<u8>) -> ReassemblyStep {
    let c = withheld_len(body);
    let checked = body.take(body.len() - c);
    let v = valid_prefix_len(checked);
    if checked.len() - v >= 4 {
        ReassemblyStep { next: closed_model(), delta: None }
    } else {
        ReassemblyStep {
            next: ReassemblyModel {
                phase: if c == 2 {
                    StreamPhase::AwaitingSuffixConfirm
                } else {
                    StreamPhase::Streaming
                },
                held: body.skip(v),
            },
            delta: Some(body.take(v)),
        }
    }
}

/// The move made when the fragment `fragment` arrives.
pub open spec fn push_model(m: ReassemblyModel, fragment: Seq<u8>) -> ReassemblyStep {
    let b = m.held + fragment;
    match m.phase {
        StreamPhase::Closed => ReassemblyStep { next: m, delta: Some(Seq::empty()) },
        StreamPhase::AwaitingPrefix => if prefix_undecided(b) {
            ReassemblyStep {
                next: ReassemblyModel { phase: StreamPhase::AwaitingPrefix, held: b },
                delta: Some(Seq::empty()),
            }
        } else {
            settle_model(without_frame_prefix(b))
        },
        _ => settle_model(b),
    }
}

/// The move made when the backend signals the end of the stream.
pub open spec fn finish_model(m: ReassemblyModel) -> ReassemblyStep {
    let rest = without_frame_suffix(m.held);
    if m.phase == StreamPhase::Closed {
        ReassemblyStep { next: m, delta: Some(Seq::empty()) }
    } else if valid_utf8(rest) {
        ReassemblyStep { next: closed_model(), delta: Some(rest) }
    } else {
        ReassemblyStep { next: closed_model(), delta: None }
    }
}

/// What holds of every state that a reassembly reaches.
pub open spec fn model_wf(m: ReassemblyModel) -> bool {
    match m.phase {
        StreamPhase::AwaitingPrefix => prefix_undecided(m.held),
        StreamPhase::Closed => m.held.len() == 0,
        _ => {
            let c = withheld_len(m.held);
            &&& (m.phase == StreamPhase::AwaitingSuffixConfirm <==> c == 2)
            &&& m.held.len() - c < 4
            &&& valid_prefix_len(m.held.take(m.held.len() - c)) == 0
        },
    }
}

/// Every state that settling leads to is well-formed.
pub proof fn lemma_settle_wf(body: Seq<u8>)
    ensures
        model_wf(settle_model(body).next),
        settle_model(body).delta matches Some(d) ==> valid_utf8(d),
{
    let c = withheld_len(body);
    let checked = body.take(body.len() - c);
    let v = valid_prefix_len(checked);
    lemma_valid_prefix_len_bounds(checked);
    if checked.len() - v < 4 {
        let held = body.skip(v);
        assert(withheld_len(held) == c) by {
            if held.len() >= 1 {
                assert(held.last() == body.last());
            }
            if held.len() >= 2 {
                assert(held[held.len() - 2] == body[body.len() - 2]);
            }
        }
        assert(held.take(held.len() - c) =~= checked.skip(v));
        assert(checked =~= checked.take(v) + checked.skip(v));
        lemma_valid_prefix_len_after_valid(checked.take(v), checked.skip(v));
        assert(body.take(v) =~= checked.take(v));
    }
}

/// Every state that a push leads to is well-formed, and what it exposes is well-formed
/// UTF-8.
pub proof fn lemma_push_wf(m: ReassemblyModel, fragment: Seq<u8>)
    requires
        model_wf(m),
    ensures
        model_wf(push_model(m, fragment).next),
        push_model(m, fragment).delta matches Some(d) ==> valid_utf8(d),
{
    let b = m.held + fragment;
    if m.phase == StreamPhase::AwaitingPrefix {
        lemma_settle_wf(without_frame_prefix(b));
    } else {
        lemma_settle_wf(b);
    }
}

/// The unexposed bytes only grow by the fragment appended behind them and only shrink
/// from the front: after a push they are an ending of what was held and the fragment.
pub proof fn lemma_push_consumes_from_the_front(m: ReassemblyModel, fragment: Seq<u8>)
    requires
        model_wf(m),
        push_model(m, fragment).delta is Some,
    ensures
        exists|k: int|
            0 <= k <= (m.held + fragment).len() && push_model(m, fragment).next.held == (m.held
                + fragment).skip(k),
{
    let b = m.held + fragment;
    let next = push_model(m, fragment).next;
    if m.phase == StreamPhase::Closed {
        assert(next.held =~= b.skip(b.len() as int));
    } else if m.phase == StreamPhase::AwaitingPrefix && prefix_undecided(b) {
        assert(next.held =~= b.skip(0));
    } else {
        let body = if m.phase == StreamPhase::AwaitingPrefix {
            without_frame_prefix(b)
        } else {
            b
        };
        let c = withheld_len(body);
        let v = valid_prefix_len(body.take(body.len() - c));
        lemma_valid_prefix_len_bounds(body.take(body.len() - c));
        assert(next.held =~= b.skip(b.len() - body.len() + v));
    }
}

/// The end leads to the closed state, and what it exposes is well-formed UTF-8.
pub proof fn lemma_finish_wf(m: ReassemblyModel)
    requires
        model_wf(m),
    ensures
        model_wf(finish_model(m).next),
        finish_model(m).next.phase == StreamPhase::Closed,
        finish_model(m).delta matches Some(d) ==> valid_utf8(d),
{
}

/// Whether `s` opens with `p`.
pub fn starts_with_bytes(s: &[u8], p: &[u8]) -> (r: bool)
    ensures
        r == p@.is_prefix_of(s@),
{
    if p.len() > s.len() {
        return false;
    }
    let mut i: usize = 0;
    while i < p.len()
        invariant
            i <= p@.len() <= s@.len(),
            forall|j: int| 0 <= j < i ==> p@[j] == s@[j],
        decreases p@.len() - i,
    {
        if p[i] != s[i] {
            assert(s@.subrange(0, p@.len() as int)[i as int] != p@[i as int]);
            return false;
        }
        i += 1;
    }
    true
}

/// Whether `s` ends with `p`.
pub fn ends_with_bytes(s: &[u8], p: &[u8]) -> (r: bool)
    ensures
        r == p@.is_suffix_of(s@),
{
    if p.len() > s.len() {
        return false;
    }
    let off: usize = s.len() - p.len();
    let mut i: usize = 0;
    while i < p.len()
        invariant
            i <= p@.len() <= s@.len(),
            off == s@.len() - p@.len(),
            s@.len() <= usize::MAX,
            forall|j: int| 0 <= j < i ==> p@[j] == s@[off + j],
        decreases p@.len() - i,
    {
        if p[i] != s[off + i] {
            assert(s@.subrange(off as int, s@.len() as int)[i as int] != p@[i as int]);
            return false;
        }
        i += 1;
    }
    true
}

/// The frame prefix, for comparing.
pub fn frame_prefix_bytes() -> (p: [u8; 20])
    ensures
        p@ == frame_prefix(),
{
    let p: [u8; 20] = [
        0x7b, 0x22, 0x67, 0x65, 0x6e, 0x65, 0x72, 0x61, 0x74, 0x65,
        0x64, 0x5f, 0x74, 0x65, 0x78, 0x74, 0x22, 0x3a, 0x20, 0x22,
    ];
    assert(p@ =~= frame_prefix());
    p
}

/// The frame suffix, for comparing.
pub fn frame_suffix_bytes() -> (p: [u8; 2])
    ensures
        p@ == frame_suffix(),
{
    let p: [u8; 2] = [0x22, 0x7d];
    assert(p@ =~= frame_suffix());
    p
}

/// How many trailing bytes of `body` must wait.
pub fn withheld_count(body: &[u8]) -> (c: usize)
    ensures
        c == withheld_len(body@),
        c <= body@.len(),
{
    let suffix = frame_suffix_bytes();
    if ends_with_bytes(body, suffix.as_slice()) {
        2
    } else if body.len() > 0 && body[body.len() - 1] == 0x22 {
        1
    } else {
        0
    }
}

/// The length of the longest fragment that a reassembly takes in: a quarter of what one
/// allocation can hold, less the few bytes that may be waiting.
pub open spec fn max_fragment_len() -> int {
    isize::MAX / 4 - 20
}

/// Whether a reassembly takes the fragment in.
pub fn fragment_fits(fragment: &[u8]) -> (r: bool)
    ensures
        r == (fragment@.len() <= max_fragment_len()),
{
    fragment.len() <= usize::MAX / 8 - 20
}

/// Reassembles the text of one backend stream from the fragments it arrives in.
pub struct StreamReassembler {
    buf: BytesMut,
    phase: StreamPhase,
}

impl View for StreamReassembler {
    type V = ReassemblyModel;

    closed spec fn view(&self) -> ReassemblyModel {
        ReassemblyModel { phase: self.phase, held: buffered(self.buf) }
    }
}

impl StreamReassembler {
    /// The state is one that a reassembly can reach.
    pub open spec fn wf(&self) -> bool {
        model_wf(self@)
    }

    /// A reassembly that has seen nothing.
    pub fn new() -> (s: StreamReassembler)
        ensures
            s.wf(),
            s@ == initial_model(),
    {
        let s = StreamReassembler { buf: buffer_new(), phase: StreamPhase::AwaitingPrefix };
        assert(s@.held =~= Seq::<u8>::empty());
        s
    }

    /// Where the stream stands.
    pub fn phase(&self) -> (p: StreamPhase)
        ensures
            p == self@.phase,
    {
        self.phase
    }

    fn close(&mut self)
        ensures
            final(self)@ == closed_model(),
    {
        let n = buffer_len(&self.buf);
        buffer_advance(&mut self.buf, n);
        self.phase = StreamPhase::Closed;
        assert(self@.held =~= Seq::<u8>::empty());
    }

    fn settle(&mut self) -> (r: Result<String, RelayError>)
        ensures
            final(self)@ == settle_model(old(self)@.held).next,
            match settle_model(old(self)@.held).delta {
                Some(d) => r matches Ok(s) && s@ == decode_utf8(d),
                None => r matches Err(RelayError::MalformedBackendFrame),
            },
    {
        let ghost body = self@.held;
        let held = buffer_bytes(&self.buf);
        let n = held.len();
        let c = withheld_count(held);
        let checked = slice_subrange(held, 0, n - c);
        proof {
            lemma_valid_prefix_len_bounds(checked@);
            lemma_valid_iff_prefix_is_whole(checked@);
        }
        let first = decode_or_valid_up_to(checked);
        let (v, text) = match first {
            Ok(s) => (n - c, Some(s.to_owned())),
            Err(v) => {
                proof {
                    lemma_valid_prefix_len_maximal(checked@, v as int);
                    if v < valid_prefix_len(checked@) {
                        assert(!valid_utf8(checked@.take(valid_prefix_len(checked@))));
                    }
                }
                if n - c - v >= 4 {
                    (v, None)
                } else {
                    let valid = slice_subrange(checked, 0, v);
                    match decode_or_valid_up_to(valid) {
                        Ok(s) => (v, Some(s.to_owned())),
                        Err(_) => (v, None),
                    }
                }
            },
        };
        assert(v == valid_prefix_len(checked@));
        assert(checked@.take(v as int) =~= body.take(v as int));
        match text {
            Some(s) => {
                buffer_advance(&mut self.buf, v);
                self.phase = if c == 2 {
                    StreamPhase::AwaitingSuffixConfirm
                } else {
                    StreamPhase::Streaming
                };
                Ok(s)
            },
            None => {
                self.close();
                Err(RelayError::MalformedBackendFrame)
            },
        }
    }

    /// Takes the next fragment in, and returns the text that it completes. Bytes that
    /// may still prove to be framing, or that end in the middle of a character, wait
    /// for the fragments to come.
    pub fn push(&mut self, fragment: &[u8]) -> (r: Result<String, RelayError>)
        requires
            old(self).wf(),
            fragment@.len() <= max_fragment_len(),
        ensures
            final(self).wf(),
            final(self)@ == push_model(old(self)@, fragment@).next,
            match push_model(old(self)@, fragment@).delta {
                Some(d) => r matches Ok(s) && s@ == decode_utf8(d) && valid_utf8(d),
                None => r matches Err(RelayError::MalformedBackendFrame),
            },
    {
        if self.phase == StreamPhase::Closed {
            return Ok(String::new());
        }
        buffer_put(&mut self.buf, fragment);
        if self.phase == StreamPhase::AwaitingPrefix {
            let prefix = frame_prefix_bytes();
            let held = buffer_bytes(&self.buf);
            if held.len() < 20 && starts_with_bytes(prefix.as_slice(), held) {
                return Ok(String::new());
            }
            if starts_with_bytes(held, prefix.as_slice()) {
                buffer_advance(&mut self.buf, 20);
            }
        }
        proof {
            lemma_settle_wf(self@.held);
        }
        self.settle()
    }

    /// Takes the end of the stream in, and returns the text that was waiting for it.
    /// A frame suffix that was held back is dropped.
    pub fn finish(&mut self) -> (r: Result<String, RelayError>)
        requires
            old(self).wf(),
        ensures
            final(self).wf(),
            final(self)@ == finish_model(old(self)@).next,
            match finish_model(old(self)@).delta {
                Some(d) => r matches Ok(s) && s@ == decode_utf8(d) && valid_utf8(d),
                None => r matches Err(RelayError::MalformedBackendFrame),
            },
    {
        if self.phase == StreamPhase::Closed {
            return Ok(String::new());
        }
        let suffix = frame_suffix_bytes();
        let held = buffer_bytes(&self.buf);
        let n = held.len();
        let rest = if ends_with_bytes(held, suffix.as_slice()) {
            slice_subrange(held, 0, n - 2)
        } else {
            held
        };
        let decoded = match decode_or_valid_up_to(rest) {
            Ok(s) => Some(s.to_owned()),
            Err(_) => None,
        };
        self.close();
        match decoded {
            Some(s) => Ok(s),
            None => Err(RelayError::MalformedBackendFrame),
        }
    }
}

} // verus!
