use crate::finish_reason::{
    classify_end_model, classify_model, ended_classifier, truncated, FinishReason,
};
use crate::finish_reason_laws::{
    classify_run, lemma_classifier_truncates_at_first_marker, lemma_run_after_end,
};
use crate::reassembly::{finish_model, lemma_push_wf, model_wf, push_model};
use crate::reassembly_laws::{
    decoded, lemma_reassembled_text_is_the_payload, reassemble_text, run_deltas, stream_text,
};
use crate::response::ChunkSpec;
use crate::stream::{
    end_model, final_chunk, fragment_model, initial_stream, text_chunks, StreamFault, StreamModel,
};
use vstd::prelude::*;
use vstd::utf8::decode_utf8;

verus! {

/// What a whole reply sends: its chunks in order, and the error that broke it off, if
/// any.
pub struct Transcript {
    pub chunks: Seq<ChunkSpec>,
    pub failure: Option<StreamFault>,
}

/// What a reply sends from the state `m` on when the backend delivers `fragments` and
/// then ends.
pub open spec fn stream_run(m: StreamModel, marker: Seq<char>, fragments: Seq<Seq<u8>>) -> Transcript
    decreases fragments.len(),
{
    if fragments.len() == 0 {
        Transcript { chunks: end_model(m, marker).chunks, failure: end_model(m, marker).failure }
    } else {
        let step = fragment_model(m, marker, fragments.first());
        match step.failure {
            Some(fault) => Transcript { chunks: step.chunks, failure: Some(fault) },
            None => {
                let rest = stream_run(step.next, marker, fragments.drop_first());
                Transcript { chunks: step.chunks + rest.chunks, failure: rest.failure }
            },
        }
    }
}

/// The text that a chunk adds.
pub open spec fn chunk_text(chunk: ChunkSpec) -> Seq<char> {
    match chunk.content {
        Some(text) => text,
        None => Seq::empty(),
    }
}

/// The text that the chunks add up to.
pub open spec fn contents(chunks: Seq<ChunkSpec>) -> Seq<char>
    decreases chunks.len(),
{
    if chunks.len() == 0 {
        Seq::empty()
    } else {
        chunk_text(chunks.first()) + contents(chunks.drop_first())
    }
}

/// The chunks are those of one whole reply: there is at least one; the first one, and
/// no other, names the assistant where `named` is unset, and none does where it is set;
/// the last one, and no other, carries a reason, which is `reason`.
pub open spec fn well_formed_reply(chunks: Seq<ChunkSpec>, named: bool, reason: FinishReason) -> bool {
    &&& chunks.len() >= 1
    &&& chunks.first().role == !named
    &&& forall|i: int| 1 <= i < chunks.len() ==> !(#[trigger] chunks[i]).role
    &&& chunks.last().finish == Some(reason)
    &&& forall|i: int| 0 <= i < chunks.len() - 1 ==> (#[trigger] chunks[i]).finish is None
}

proof fn lemma_contents_concat(a: Seq<ChunkSpec>, b: Seq<ChunkSpec>)
    ensures
        contents(a + b) == contents(a) + contents(b),
    decreases a.len(),
{
    if a.len() == 0 {
        assert(a + b =~= b);
        assert(contents(a) + contents(b) =~= contents(b));
    } else {
        assert((a + b).first() == a.first());
        assert((a + b).drop_first() =~= a.drop_first() + b);
        lemma_contents_concat(a.drop_first(), b);
        assert(contents(a + b) =~= contents(a) + contents(b));
    }
}

proof fn lemma_contents_of_one(chunk: ChunkSpec)
    ensures
        contents(seq![chunk]) == chunk_text(chunk),
{
    let one = seq![chunk];
    assert(one.drop_first().len() == 0);
    assert(contents(one.drop_first()).len() == 0);
    assert(contents(one) =~= chunk_text(chunk));
}

/// Once a reply is over, nothing more is sent.
proof fn lemma_stream_run_after_end(m: StreamModel, marker: Seq<char>, fragments: Seq<Seq<u8>>)
    requires
        m.done,
    ensures
        stream_run(m, marker, fragments).chunks.len() == 0,
        stream_run(m, marker, fragments).failure is None,
    decreases fragments.len(),
{
    if fragments.len() > 0 {
        lemma_stream_run_after_end(m, marker, fragments.drop_first());
        assert(Seq::<ChunkSpec>::empty() + Seq::<ChunkSpec>::empty() =~= Seq::<ChunkSpec>::empty());
    }
}

/// What the last event of a reply sends, when the reassembly ends well.
proof fn lemma_end_sends_the_rest(m: StreamModel, marker: Seq<char>, bytes: Seq<u8>)
    requires
        !m.done,
        !m.watch.done,
        finish_model(m.frames).delta == Some(bytes),
    ensures
        ({
            let run = classify_run(m.watch, marker, seq![decode_utf8(bytes)]);
            let sent = end_model(m, marker);
            &&& sent.failure is None
            &&& run.1 matches Some(reason) && well_formed_reply(sent.chunks, m.role_sent, reason)
            &&& contents(sent.chunks) == run.0
        }),
{
    let d = decode_utf8(bytes);
    let ds = seq![d];
    let c = classify_model(m.watch, marker, d);
    let e = classify_end_model(c.next);
    let sent = end_model(m, marker);
    assert(ds.drop_first() =~= Seq::<Seq<char>>::empty());
    assert(classify_run(c.next, marker, ds.drop_first()) == (e.text, e.reason));
    match c.reason {
        Some(reason) => {
            lemma_contents_of_one(final_chunk(m.role_sent, c.text, reason));
            assert(c.text + e.text =~= c.text);
        },
        None => {
            let text = text_chunks(m.role_sent, c.text + e.text, false);
            let last = final_chunk(m.role_sent || text.len() > 0, Seq::empty(), FinishReason::Length);
            assert(text.push(last) =~= text + seq![last]);
            lemma_contents_concat(text, seq![last]);
            lemma_contents_of_one(last);
            if text.len() > 0 {
                lemma_contents_of_one(text[0]);
            }
            assert(contents(sent.chunks) =~= c.text + e.text);
        },
    }
}

/// A reply whose reassembly meets no malformed frame sends what the watch for the
/// marker releases of the reassembled text, as one well-formed reply.
proof fn lemma_stream_run_follows_the_watch(
    m: StreamModel,
    marker: Seq<char>,
    fragments: Seq<Seq<u8>>,
)
    requires
        !m.done,
        !m.watch.done,
        model_wf(m.frames),
        run_deltas(m.frames, fragments) is Some,
    ensures
        ({
            let pieces = run_deltas(m.frames, fragments)->0;
            let run = classify_run(m.watch, marker, decoded(pieces));
            let sent = stream_run(m, marker, fragments);
            &&& sent.failure is None
            &&& run.1 matches Some(reason) && well_formed_reply(sent.chunks, m.role_sent, reason)
            &&& contents(sent.chunks) == run.0
        }),
    decreases fragments.len(),
{
    let pieces = run_deltas(m.frames, fragments)->0;
    if fragments.len() == 0 {
        let bytes = finish_model(m.frames).delta->0;
        assert(decoded(pieces) =~= seq![decode_utf8(bytes)]);
        lemma_end_sends_the_rest(m, marker, bytes);
    } else {
        let f = fragments.first();
        let later = fragments.drop_first();
        let pushed = push_model(m.frames, f);
        let bytes = pushed.delta->0;
        let rest = run_deltas(pushed.next, later)->0;
        lemma_push_wf(m.frames, f);
        assert(pieces == seq![bytes] + rest);
        let texts = decoded(pieces);
        assert(texts.first() == decode_utf8(bytes));
        assert(texts.drop_first() =~= decoded(rest));
        let c = classify_model(m.watch, marker, decode_utf8(bytes));
        let step = fragment_model(m, marker, f);
        let tail = stream_run(step.next, marker, later);
        let sent = stream_run(m, marker, fragments);
        match c.reason {
            Some(reason) => {
                assert(c.next == ended_classifier());
                lemma_run_after_end(marker, decoded(rest));
                lemma_stream_run_after_end(step.next, marker, later);
                assert(sent.chunks =~= step.chunks);
                lemma_contents_of_one(final_chunk(m.role_sent, c.text, reason));
                assert(c.text + Seq::<char>::empty() =~= c.text);
            },
            None => {
                lemma_stream_run_follows_the_watch(step.next, marker, later);
                lemma_contents_concat(step.chunks, tail.chunks);
                if step.chunks.len() > 0 {
                    lemma_contents_of_one(step.chunks[0]);
                }
                assert(contents(step.chunks) =~= c.text);
                let run = classify_run(m.watch, marker, texts);
                let reason = run.1->0;
                assert(well_formed_reply(sent.chunks, m.role_sent, reason)) by {
                    let n = step.chunks.len() as int;
                    assert(sent.chunks.len() == n + tail.chunks.len());
                    assert(sent.chunks.last() == tail.chunks.last());
                    assert forall|i: int| 1 <= i < sent.chunks.len() implies !(
                    #[trigger] sent.chunks[i]).role by {
                        if i >= n {
                            assert(sent.chunks[i] == tail.chunks[i - n]);
                        }
                    }
                    assert forall|i: int| 0 <= i < sent.chunks.len() - 1 implies (
                    #[trigger] sent.chunks[i]).finish is None by {
                        if i >= n {
                            assert(sent.chunks[i] == tail.chunks[i - n]);
                        }
                    }
                    if n == 0 {
                        assert(sent.chunks.first() == tail.chunks.first());
                    }
                }
            },
        }
    }
}

/// A streamed reply to a well-formed backend stream, whatever fragments it arrives in:
/// its chunks add up to the stream's text cut at the first end-of-turn marker; its
/// first chunk, and no other, names the assistant; its last chunk, and no other,
/// carries the reason, `stop` where the marker stands in the text and `length` where
/// it does not.
pub proof fn lemma_streamed_reply(marker: Seq<char>, fragments: Seq<Seq<u8>>)
    requires
        marker.len() > 0,
        stream_text(fragments.flatten()) is Some,
    ensures
        ({
            let text = decode_utf8(stream_text(fragments.flatten())->0);
            let sent = stream_run(initial_stream(), marker, fragments);
            &&& sent.failure is None
            &&& contents(sent.chunks) == truncated(text, marker).0
            &&& well_formed_reply(sent.chunks, false, truncated(text, marker).1)
        }),
{
    let m = initial_stream();
    lemma_reassembled_text_is_the_payload(fragments);
    assert(reassemble_text(fragments) is Some);
    let pieces = run_deltas(m.frames, fragments)->0;
    lemma_stream_run_follows_the_watch(m, marker, fragments);
    lemma_classifier_truncates_at_first_marker(marker, decoded(pieces));
}

/// A run of fragments breaks a streamed reply off for one cause alone: a malformed
/// frame, met where the reassembly of those fragments fails too.
pub proof fn lemma_streamed_reply_breaks_off_on_malformed_frames(
    m: StreamModel,
    marker: Seq<char>,
    fragments: Seq<Seq<u8>>,
)
    ensures
        stream_run(m, marker, fragments).failure matches Some(fault) ==> fault
            == StreamFault::MalformedBackendFrame && run_deltas(m.frames, fragments) is None,
    decreases fragments.len(),
{
    if fragments.len() > 0 {
        let step = fragment_model(m, marker, fragments.first());
        if step.failure is None {
            lemma_streamed_reply_breaks_off_on_malformed_frames(
                step.next,
                marker,
                fragments.drop_first(),
            );
            if m.done {
                lemma_stream_run_after_end(m, marker, fragments);
            }
        }
    }
}

} // verus!
