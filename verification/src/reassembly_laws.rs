use crate::reassembly::{
    finish_model, frame_prefix, frame_suffix, initial_model, lemma_finish_wf, lemma_push_wf,
    lemma_settle_wf, model_wf, payload, prefix_undecided, push_model, settle_model,
    withheld_len, without_frame_prefix, without_frame_suffix, ReassemblyModel, StreamPhase,
};
use crate::utf8::{
    lemma_decode_concat, lemma_stalled_prefix_is_final, lemma_valid_iff_prefix_is_whole,
    lemma_valid_prefix_len_bounds, lemma_valid_remainder, valid_prefix_len,
};
use vstd::prelude::*;
use vstd::utf8::*;

verus! {

/// The bytes that a whole run exposes from the state `m` on: each fragment pushed in
/// turn, then the end of the stream. `None` where the run meets a malformed frame.
pub open spec fn run_model(m: ReassemblyModel, fragments: Seq<Seq<u8>>) -> Option<Seq<u8>>
    decreases fragments.len(),
{
    if fragments.len() == 0 {
        finish_model(m).delta
    } else {
        let step = push_model(m, fragments.first());
        match step.delta {
            None => None,
            Some(d) => match run_model(step.next, fragments.drop_first()) {
                None => None,
                Some(rest) => Some(d + rest),
            },
        }
    }
}

/// The bytes that a reassembly exposes in all when it is fed `fragments` from the start.
pub open spec fn reassemble(fragments: Seq<Seq<u8>>) -> Option<Seq<u8>> {
    run_model(initial_model(), fragments)
}

/// What a complete stream says: its payload, where that is well-formed text.
pub open spec fn stream_text(stream: Seq<u8>) -> Option<Seq<u8>> {
    if valid_utf8(payload(stream)) {
        Some(payload(stream))
    } else {
        None
    }
}

/// The state `m` is where a reassembly stands after the bytes `seen`, of which it has
/// exposed `exposed`.
#[verifier::opaque]
spec fn tracks(m: ReassemblyModel, exposed: Seq<u8>, seen: Seq<u8>) -> bool {
    &&& model_wf(m)
    &&& valid_utf8(exposed)
    &&& match m.phase {
        StreamPhase::AwaitingPrefix => m.held == seen && exposed.len() == 0,
        StreamPhase::Closed => false,
        _ => {
            &&& !prefix_undecided(seen)
            &&& exposed + m.held == without_frame_prefix(seen)
            &&& withheld_len(exposed + m.held) <= m.held.len()
        },
    }
}

proof fn lemma_withheld_extends(e: Seq<u8>, held: Seq<u8>, f: Seq<u8>)
    requires
        withheld_len(e + held) <= held.len(),
    ensures
        withheld_len(e + (held + f)) == withheld_len(held + f),
{
    let b = held + f;
    let x = e + b;
    if b.len() >= 1 {
        assert(x.last() == b.last());
    }
    if b.len() >= 2 {
        assert(x[x.len() - 2] == b[b.len() - 2]);
        assert(x.subrange(x.len() - 2, x.len() as int) =~= b.subrange(b.len() - 2, b.len() as int));
    } else if b.len() == 1 {
        if frame_suffix().is_suffix_of(x) {
            assert(x.subrange(x.len() - 2, x.len() as int)[0] == 0x22u8);
            assert(x[x.len() - 2] == 0x22u8);
            assert(e.last() == 0x22u8);
            if held.len() == 0 {
                assert(e + held =~= e);
            } else {
                assert(e + held =~= x);
            }
        }
    } else {
        assert(e + held =~= x);
    }
}

proof fn lemma_suffix_lies_in_held(e: Seq<u8>, held: Seq<u8>)
    requires
        withheld_len(e + held) <= held.len(),
    ensures
        without_frame_suffix(e + held) == e + without_frame_suffix(held),
{
    let x = e + held;
    if frame_suffix().is_suffix_of(x) {
        assert(held.len() >= 2);
        assert(x.subrange(x.len() - 2, x.len() as int) =~= held.subrange(
            held.len() - 2,
            held.len() as int,
        ));
        assert(x.take(x.len() - 2) =~= e + held.take(held.len() - 2));
    } else {
        if frame_suffix().is_suffix_of(held) {
            assert(x.subrange(x.len() - 2, x.len() as int) =~= held.subrange(
                held.len() - 2,
                held.len() as int,
            ));
        }
    }
}

/// What settling exposes of a body stays in front of the payload whatever follows.
proof fn lemma_settled_prefix_survives(x: Seq<u8>, y: Seq<u8>)
    ensures
        x.take(x.len() - withheld_len(x)).is_prefix_of(without_frame_suffix(x + y)),
{
    let z = x + y;
    let c = withheld_len(x);
    let w = without_frame_suffix(z);
    if frame_suffix().is_suffix_of(z) {
        assert(z.subrange(z.len() - 2, z.len() as int)[0] == 0x22u8);
        assert(z.subrange(z.len() - 2, z.len() as int)[1] == 0x7du8);
        if y.len() == 0 {
            assert(z =~= x);
        } else if y.len() == 1 {
            assert(z[z.len() - 2] == x.last());
        }
    }
    assert(x.len() - c <= w.len());
    assert(x.take(x.len() - c) =~= w.subrange(0, x.len() - c));
}

proof fn lemma_body_extends(s: Seq<u8>, f: Seq<u8>)
    requires
        !prefix_undecided(s),
    ensures
        !prefix_undecided(s + f),
        without_frame_prefix(s + f) == without_frame_prefix(s) + f,
{
    let p = frame_prefix();
    let z = s + f;
    if s.len() >= p.len() {
        assert(z.subrange(0, p.len() as int) =~= s.subrange(0, p.len() as int));
        if p.is_prefix_of(s) {
            assert(z.skip(p.len() as int) =~= s.skip(p.len() as int) + f);
        }
    } else {
        assert(!s.is_prefix_of(p));
        let i = choose|i: int| 0 <= i < s.len() && s[i] != p[i];
        assert(0 <= i < s.len() && s[i] != p[i]) by {
            if forall|i: int| 0 <= i < s.len() ==> s[i] == p[i] {
                assert(s =~= p.subrange(0, s.len() as int));
            }
        }
        assert(z[i] == s[i]);
        if p.is_prefix_of(z) {
            assert(z.subrange(0, p.len() as int)[i] == p[i]);
        }
        if z.is_prefix_of(p) {
            assert(p.subrange(0, z.len() as int)[i] == z[i]);
        }
    }
}

/// What a push does to a tracked state: the state it leads to is tracked in turn, and
/// a malformed frame is one that nothing to come could mend.
proof fn lemma_push_from_tracked(
    m: ReassemblyModel,
    exposed: Seq<u8>,
    seen: Seq<u8>,
    f: Seq<u8>,
    y: Seq<u8>,
)
    requires
        tracks(m, exposed, seen),
    ensures
        match push_model(m, f).delta {
            Some(d) => tracks(push_model(m, f).next, exposed + d, seen + f),
            None => !valid_utf8(payload((seen + f) + y)),
        },
{
    reveal(tracks);
    let step = push_model(m, f);
    let b = m.held + f;
    let e = exposed;
    if m.phase == StreamPhase::AwaitingPrefix && prefix_undecided(b) {
        assert(e + Seq::<u8>::empty() =~= e);
    } else {
        // the body of all that was seen, and the part of it not yet exposed
        let body = without_frame_prefix(seen + f);
        let r = if m.phase == StreamPhase::AwaitingPrefix {
            without_frame_prefix(b)
        } else {
            b
        };
        assert(body == e + r && withheld_len(body) == withheld_len(r) && !prefix_undecided(
            seen + f,
        )) by {
            if m.phase == StreamPhase::AwaitingPrefix {
                assert(e + r =~= r);
            } else {
                lemma_body_extends(seen, f);
                assert(e + (m.held + f) =~= (e + m.held) + f);
                lemma_withheld_extends(e, m.held, f);
            }
        }
        assert(step == settle_model(r));
        lemma_settle_wf(r);
        lemma_settle_from_tracked(e, r, y);
        lemma_body_extends(seen + f, y);
    }
}

/// What settling does behind exposed text: the bytes it exposes keep the text
/// well-formed and leave the withheld bytes in place, and a malformed frame is one that
/// nothing to come could mend.
proof fn lemma_settle_from_tracked(e: Seq<u8>, r: Seq<u8>, y: Seq<u8>)
    requires
        valid_utf8(e),
        withheld_len(e + r) == withheld_len(r),
    ensures
        match settle_model(r).delta {
            Some(d) => {
                &&& valid_utf8(e + d)
                &&& (e + d) + settle_model(r).next.held == e + r
                &&& withheld_len(e + r) <= settle_model(r).next.held.len()
            },
            None => !valid_utf8(without_frame_suffix((e + r) + y)),
        },
{
    let body = e + r;
    let c = withheld_len(r);
    let checked = r.take(r.len() - c);
    let v = valid_prefix_len(checked);
    lemma_valid_prefix_len_bounds(checked);
    match settle_model(r).delta {
        None => {
            let pay = without_frame_suffix(body + y);
            lemma_settled_prefix_survives(body, y);
            assert(body.take(body.len() - c) =~= e + checked);
            let tail = pay.skip((e + checked).len() as int);
            assert(pay =~= e + (checked + tail));
            if valid_utf8(pay) {
                lemma_valid_remainder(e, checked + tail);
                lemma_stalled_prefix_is_final(checked, tail);
                lemma_valid_iff_prefix_is_whole(checked + tail);
            }
        },
        Some(d) => {
            assert(d =~= checked.take(v));
            valid_utf8_concat(e, d);
            assert((e + d) + r.skip(v) =~= e + r);
        },
    }
}

/// A run from a tracked state exposes what is left of the text of the whole stream: of
/// the bytes seen so far and the fragments to come.
proof fn lemma_run_from_tracked(
    m: ReassemblyModel,
    exposed: Seq<u8>,
    seen: Seq<u8>,
    fragments: Seq<Seq<u8>>,
)
    requires
        tracks(m, exposed, seen),
    ensures
        valid_utf8(payload(seen + fragments.flatten())) ==> exposed.is_prefix_of(
            payload(seen + fragments.flatten()),
        ),
        run_model(m, fragments) == (if valid_utf8(payload(seen + fragments.flatten())) {
            Some(payload(seen + fragments.flatten()).skip(exposed.len() as int))
        } else {
            None
        }),
    decreases fragments.len(),
{
    let all = seen + fragments.flatten();
    if fragments.len() == 0 {
        assert(all =~= seen);
        lemma_finish_from_tracked(m, exposed, seen);
    } else {
        let f = fragments.first();
        let later = fragments.drop_first();
        assert(all =~= (seen + f) + later.flatten());
        let step = push_model(m, f);
        lemma_push_from_tracked(m, exposed, seen, f, later.flatten());
        match step.delta {
            None => {},
            Some(d) => {
                lemma_run_from_tracked(step.next, exposed + d, seen + f, later);
                let pay = payload(all);
                if valid_utf8(pay) {
                    let ed = exposed + d;
                    let front = pay.subrange(0, ed.len() as int);
                    assert(ed =~= front);
                    assert forall|i: int| 0 <= i < exposed.len() implies exposed[i] == pay[i] by {
                        assert(ed[i] == front[i]);
                    }
                    assert forall|i: int| 0 <= i < d.len() implies d[i] == pay[exposed.len() + i] by {
                        assert(ed[exposed.len() + i] == front[exposed.len() + i]);
                    }
                    assert(exposed =~= pay.subrange(0, exposed.len() as int));
                    assert(d + pay.skip(ed.len() as int) =~= pay.skip(exposed.len() as int));
                }
            },
        }
    }
}

proof fn lemma_finish_from_tracked(m: ReassemblyModel, exposed: Seq<u8>, seen: Seq<u8>)
    requires
        tracks(m, exposed, seen),
    ensures
        exposed.is_prefix_of(payload(seen)),
        finish_model(m).delta == (if valid_utf8(payload(seen)) {
            Some(payload(seen).skip(exposed.len() as int))
        } else {
            None
        }),
{
    reveal(tracks);
    let rest = without_frame_suffix(m.held);
    if m.phase == StreamPhase::AwaitingPrefix {
        assert(without_frame_prefix(seen) == seen);
        assert(payload(seen) == rest);
        assert(rest.skip(0) =~= rest);
    } else {
        lemma_suffix_lies_in_held(exposed, m.held);
        assert(payload(seen) == exposed + rest);
        assert((exposed + rest).skip(exposed.len() as int) =~= rest);
        assert((exposed + rest).subrange(0, exposed.len() as int) =~= exposed);
        if valid_utf8(rest) {
            valid_utf8_concat(exposed, rest);
        }
        if valid_utf8(exposed + rest) {
            lemma_valid_remainder(exposed, rest);
        }
    }
}

/// Reassembly does not depend on how the stream is cut into fragments: a run exposes
/// the text of the whole stream, and fails exactly where that is not well-formed.
pub proof fn lemma_reassembly_ignores_fragment_boundaries(fragments: Seq<Seq<u8>>)
    ensures
        reassemble(fragments) == stream_text(fragments.flatten()),
        reassemble(fragments) == reassemble(seq![fragments.flatten()]),
{
    let one = seq![fragments.flatten()];
    assert(Seq::<u8>::empty() + fragments.flatten() =~= fragments.flatten());
    assert(tracks(initial_model(), Seq::empty(), Seq::empty())) by {
        reveal(tracks);
    }
    lemma_run_from_tracked(initial_model(), Seq::empty(), Seq::empty(), fragments);
    lemma_run_from_tracked(initial_model(), Seq::empty(), Seq::empty(), one);
    one.lemma_flatten_one_element();
    assert(Seq::<u8>::empty() + one.flatten() =~= fragments.flatten());
    let pay = payload(fragments.flatten());
    assert(pay.skip(0) =~= pay);
}

/// What a whole run exposes from the state `m` on, move by move: the bytes of each
/// push, then those of the end of the stream. `None` where the run meets a malformed
/// frame.
pub open spec fn run_deltas(m: ReassemblyModel, fragments: Seq<Seq<u8>>) -> Option<Seq<Seq<u8>>>
    decreases fragments.len(),
{
    if fragments.len() == 0 {
        match finish_model(m).delta {
            None => None,
            Some(d) => Some(seq![d]),
        }
    } else {
        let step = push_model(m, fragments.first());
        match step.delta {
            None => None,
            Some(d) => match run_deltas(step.next, fragments.drop_first()) {
                None => None,
                Some(rest) => Some(seq![d] + rest),
            },
        }
    }
}

/// The texts that the pieces encode, piece by piece.
pub open spec fn decoded(pieces: Seq<Seq<u8>>) -> Seq<Seq<char>> {
    Seq::new(pieces.len(), |i: int| decode_utf8(pieces[i]))
}

/// The moves of a run expose, one after the other, what the run exposes in all; each
/// piece is well-formed UTF-8, and so the texts of the pieces make up the text of the
/// whole.
pub proof fn lemma_run_deltas(m: ReassemblyModel, fragments: Seq<Seq<u8>>)
    requires
        model_wf(m),
    ensures
        run_deltas(m, fragments) is Some <==> run_model(m, fragments) is Some,
        run_deltas(m, fragments) matches Some(pieces) ==> {
            &&& pieces.len() == fragments.len() + 1
            &&& run_model(m, fragments) == Some(pieces.flatten())
            &&& valid_utf8(pieces.flatten())
            &&& forall|i: int| 0 <= i < pieces.len() ==> valid_utf8(#[trigger] pieces[i])
            &&& decoded(pieces).flatten() == decode_utf8(pieces.flatten())
        },
    decreases fragments.len(),
{
    if fragments.len() == 0 {
        lemma_finish_wf(m);
        match finish_model(m).delta {
            None => {},
            Some(d) => {
                let pieces = seq![d];
                pieces.lemma_flatten_one_element();
                assert(decoded(pieces) =~= seq![decode_utf8(d)]);
                decoded(pieces).lemma_flatten_one_element();
            },
        }
    } else {
        let step = push_model(m, fragments.first());
        lemma_push_wf(m, fragments.first());
        match step.delta {
            None => {},
            Some(d) => {
                lemma_run_deltas(step.next, fragments.drop_first());
                match run_deltas(step.next, fragments.drop_first()) {
                    None => {},
                    Some(rest) => {
                        let pieces = seq![d] + rest;
                        assert(pieces.first() == d);
                        assert(pieces.drop_first() =~= rest);
                        assert(pieces.flatten() == d + rest.flatten());
                        lemma_decode_concat(d, rest.flatten());
                        assert(decoded(pieces).first() == decode_utf8(d));
                        assert(decoded(pieces).drop_first() =~= decoded(rest));
                        assert(decoded(pieces).flatten() == decode_utf8(d) + decoded(
                            rest,
                        ).flatten());
                        assert forall|i: int| 0 <= i < pieces.len() implies valid_utf8(
                            #[trigger] pieces[i],
                        ) by {
                            if i > 0 {
                                assert(pieces[i] == rest[i - 1]);
                            }
                        }
                    },
                }
            },
        }
    }
}

/// The text that a reassembly exposes in all when it is fed `fragments` from the start:
/// the texts of its moves, one after the other.
pub open spec fn reassemble_text(fragments: Seq<Seq<u8>>) -> Option<Seq<char>> {
    match run_deltas(initial_model(), fragments) {
        Some(pieces) => Some(decoded(pieces).flatten()),
        None => None,
    }
}

/// The text that a reassembly exposes is the text that the payload of the whole stream
/// encodes, however the stream is cut into fragments; it fails exactly where the
/// payload is not well-formed UTF-8.
pub proof fn lemma_reassembled_text_is_the_payload(fragments: Seq<Seq<u8>>)
    ensures
        reassemble_text(fragments) == match stream_text(fragments.flatten()) {
            Some(p) => Some(decode_utf8(p)),
            None => None,
        },
        reassemble_text(fragments) == reassemble_text(seq![fragments.flatten()]),
{
    let one = seq![fragments.flatten()];
    lemma_reassembly_ignores_fragment_boundaries(fragments);
    lemma_run_deltas(initial_model(), fragments);
    lemma_run_deltas(initial_model(), one);
    one.lemma_flatten_one_element();
    lemma_reassembly_ignores_fragment_boundaries(one);
}

/// A cut through the stream, be it in the middle of a character, loses nothing and
/// exposes nothing that is not text: every piece that the two fragments give rise to
/// is well-formed UTF-8, and together they say what the uncut stream says.
pub proof fn lemma_cut_character_is_reassembled(stream: Seq<u8>, cut: int)
    requires
        0 <= cut <= stream.len(),
    ensures
        reassemble_text(seq![stream.take(cut), stream.skip(cut)]) == reassemble_text(seq![stream]),
        run_deltas(initial_model(), seq![stream.take(cut), stream.skip(cut)]) matches Some(pieces)
            ==> forall|i: int| 0 <= i < pieces.len() ==> valid_utf8(#[trigger] pieces[i]),
{
    let two = seq![stream.take(cut), stream.skip(cut)];
    assert(two.flatten() =~= stream) by {
        let rest = two.drop_first();
        assert(rest.first() == stream.skip(cut));
        assert(rest.drop_first().len() == 0);
        assert(rest.drop_first().flatten().len() == 0);
        assert(rest.flatten() =~= stream.skip(cut));
        assert(two.flatten() == stream.take(cut) + rest.flatten());
    }
    lemma_reassembled_text_is_the_payload(two);
    lemma_run_deltas(initial_model(), two);
}

} // verus!
