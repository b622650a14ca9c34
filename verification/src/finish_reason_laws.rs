use crate::finish_reason::{
    classify_end_model, classify_model, ended_classifier, initial_classifier, truncated,
    ClassifierModel, FinishReason,
};
use crate::text::{
    ends_in_partial, find, lemma_find_is_first, lemma_partial_len, occurs_at, partial_len,
};
use vstd::prelude::*;

verus! {

/// What a whole run releases from the state `m` on, and the reason it ends for: each
/// piece of text accepted in turn, then the end of the text.
pub open spec fn classify_run(m: ClassifierModel, marker: Seq<char>, deltas: Seq<Seq<char>>) -> (
    Seq<char>,
    Option<FinishReason>,
)
    decreases deltas.len(),
{
    if deltas.len() == 0 {
        (classify_end_model(m).text, classify_end_model(m).reason)
    } else {
        let c = classify_model(m, marker, deltas.first());
        let rest = classify_run(c.next, marker, deltas.drop_first());
        (
            c.text + rest.0,
            if c.reason is Some {
                c.reason
            } else {
                rest.1
            },
        )
    }
}

/// The state `m` is where a classifier stands after the text `visible`, of which it has
/// released `released`, with no marker met.
#[verifier::opaque]
spec fn watching(m: ClassifierModel, released: Seq<char>, visible: Seq<char>, marker: Seq<char>)
    -> bool {
    &&& !m.done
    &&& released + m.pending == visible
    &&& forall|j: int| !occurs_at(visible, marker, j)
    &&& forall|h: int| m.pending.len() < h ==> !ends_in_partial(visible, marker, h)
}

/// No marker begins in the released text, whatever follows the visible text.
proof fn lemma_nothing_begins_in_released(
    m: ClassifierModel,
    released: Seq<char>,
    visible: Seq<char>,
    marker: Seq<char>,
    delta: Seq<char>,
    j: int,
)
    requires
        watching(m, released, visible, marker),
        0 <= j < released.len(),
    ensures
        !occurs_at(visible + delta, marker, j),
        j + marker.len() > visible.len() ==> !ends_in_partial(
            visible + delta,
            marker,
            visible.len() + delta.len() - j,
        ),
{
    reveal(watching);
    let after = visible + delta;
    if occurs_at(after, marker, j) {
        if j + marker.len() <= visible.len() {
            assert(visible.subrange(j, j + marker.len()) =~= after.subrange(j, j + marker.len()));
            assert(occurs_at(visible, marker, j));
        } else {
            let h = visible.len() - j;
            assert(visible.skip(visible.len() - h) =~= marker.take(h)) by {
                assert forall|i: int| 0 <= i < h implies visible[j + i] == marker[i] by {
                    assert(after.subrange(j, j + marker.len())[i] == marker[i]);
                }
            }
            assert(ends_in_partial(visible, marker, h));
        }
    }
    let g = after.len() - j;
    if j + marker.len() > visible.len() && ends_in_partial(after, marker, g) {
        let h = visible.len() - j;
        assert(visible.skip(visible.len() - h) =~= marker.take(h)) by {
            assert forall|i: int| 0 <= i < h implies visible[j + i] == marker[i] by {
                assert(after.skip(after.len() - g)[i] == marker.take(g)[i]);
            }
        }
        assert(ends_in_partial(visible, marker, h));
    }
}

/// What accepting a piece of text does to a watching state: either the marker is met,
/// at the first place where it stands in all the text so far, or the state goes on
/// watching.
proof fn lemma_accept_while_watching(
    m: ClassifierModel,
    released: Seq<char>,
    visible: Seq<char>,
    marker: Seq<char>,
    delta: Seq<char>,
)
    requires
        watching(m, released, visible, marker),
    ensures
        ({
            let c = classify_model(m, marker, delta);
            match c.reason {
                Some(r) => {
                    &&& r == FinishReason::Stop
                    &&& c.next == ended_classifier()
                    &&& truncated(visible + delta, marker) == (released + c.text, FinishReason::Stop)
                },
                None => watching(c.next, released + c.text, visible + delta, marker),
            }
        }),
{
    let t = m.pending + delta;
    let after = visible + delta;
    let c = classify_model(m, marker, delta);
    let e = released.len() as int;
    assert(!m.done && released + m.pending == visible) by {
        reveal(watching);
    }
    assert(after =~= released + t);
    assert forall|k: int| 0 <= k implies occurs_at(t, marker, k) == occurs_at(
        after,
        marker,
        e + k,
    ) by {
        if k + marker.len() <= t.len() {
            assert(t.subrange(k, k + marker.len()) =~= after.subrange(
                e + k,
                e + k + marker.len(),
            ));
        }
    }
    assert forall|j: int| j < e implies !occurs_at(after, marker, j) by {
        if 0 <= j {
            lemma_nothing_begins_in_released(m, released, visible, marker, delta, j);
        }
    }
    lemma_find_is_first(t, marker, 0);
    match find(t, marker) {
        Some(k) => {
            lemma_find_is_first(t, marker, k);
            assert(occurs_at(after, marker, e + k));
            assert forall|j: int| 0 <= j < e + k implies !occurs_at(after, marker, j) by {
                if j >= e {
                    assert(occurs_at(t, marker, j - e) == occurs_at(after, marker, e + (j - e)));
                }
            }
            lemma_find_is_first(after, marker, e + k);
            assert(after.take(e + k) =~= released + t.take(k));
        },
        None => {
            let keep = partial_len(t, marker);
            lemma_partial_len(t, marker);
            let next = c.next;
            assert forall|j: int| !occurs_at(after, marker, j) by {
                if j >= e {
                    assert(occurs_at(t, marker, j - e) == occurs_at(after, marker, e + (j - e)));
                }
            }
            assert forall|h: int| next.pending.len() < h implies !ends_in_partial(
                after,
                marker,
                h,
            ) by {
                if ends_in_partial(after, marker, h) {
                    if h <= t.len() {
                        assert(t.skip(t.len() - h) =~= after.skip(after.len() - h));
                        assert(ends_in_partial(t, marker, h));
                    } else {
                        let j = after.len() - h;
                        lemma_nothing_begins_in_released(m, released, visible, marker, delta, j);
                    }
                }
            }
            assert((released + c.text) + next.pending =~= after);
            assert(watching(next, released + c.text, after, marker)) by {
                reveal(watching);
            }
        },
    }
}

/// Once the marker stands in a text, what follows the text does not move the cut.
proof fn lemma_truncated_is_settled(text: Seq<char>, marker: Seq<char>, more: Seq<char>)
    requires
        find(text, marker) is Some,
    ensures
        truncated(text + more, marker) == truncated(text, marker),
{
    let k = find(text, marker)->0;
    let after = text + more;
    lemma_find_is_first(text, marker, k);
    assert(after.subrange(k, k + marker.len()) =~= text.subrange(k, k + marker.len()));
    assert forall|j: int| 0 <= j < k implies !occurs_at(after, marker, j) by {
        if occurs_at(after, marker, j) {
            assert(after.subrange(j, j + marker.len()) =~= text.subrange(j, j + marker.len()));
            assert(occurs_at(text, marker, j));
        }
    }
    lemma_find_is_first(after, marker, k);
    assert(after.take(k) =~= text.take(k));
}

/// After the reply has ended a run releases nothing.
pub proof fn lemma_run_after_end(marker: Seq<char>, deltas: Seq<Seq<char>>)
    ensures
        classify_run(ended_classifier(), marker, deltas) == (Seq::<char>::empty(), None::<FinishReason>),
    decreases deltas.len(),
{
    if deltas.len() > 0 {
        lemma_run_after_end(marker, deltas.drop_first());
        assert(Seq::<char>::empty() + Seq::<char>::empty() =~= Seq::<char>::empty());
    }
}

proof fn lemma_run_while_watching(
    m: ClassifierModel,
    released: Seq<char>,
    visible: Seq<char>,
    marker: Seq<char>,
    deltas: Seq<Seq<char>>,
)
    requires
        watching(m, released, visible, marker),
    ensures
        released + classify_run(m, marker, deltas).0 == truncated(
            visible + deltas.flatten(),
            marker,
        ).0,
        classify_run(m, marker, deltas).1 == Some(
            truncated(visible + deltas.flatten(), marker).1,
        ),
    decreases deltas.len(),
{
    let all = visible + deltas.flatten();
    if deltas.len() == 0 {
        reveal(watching);
        assert(all =~= visible);
        lemma_find_is_first(visible, marker, 0);
    } else {
        let d = deltas.first();
        let later = deltas.drop_first();
        assert(all =~= (visible + d) + later.flatten());
        let c = classify_model(m, marker, d);
        lemma_accept_while_watching(m, released, visible, marker, d);
        let rest = classify_run(c.next, marker, later);
        match c.reason {
            Some(r) => {
                lemma_run_after_end(marker, later);
                lemma_truncated_is_settled(visible + d, marker, later.flatten());
                assert(c.text + rest.0 =~= c.text);
            },
            None => {
                lemma_run_while_watching(c.next, released + c.text, visible + d, marker, later);
                assert(released + (c.text + rest.0) =~= (released + c.text) + rest.0);
            },
        }
    }
}

/// A classifier releases the text up to the first marker and ends with `Stop`, or,
/// where no marker stands in the text, releases all of it and ends with `Length` at
/// its end: however the text is cut into pieces.
pub proof fn lemma_classifier_truncates_at_first_marker(marker: Seq<char>, deltas: Seq<Seq<char>>)
    requires
        marker.len() > 0,
    ensures
        classify_run(initial_classifier(), marker, deltas).0 == truncated(
            deltas.flatten(),
            marker,
        ).0,
        classify_run(initial_classifier(), marker, deltas).1 == Some(
            truncated(deltas.flatten(), marker).1,
        ),
{
    let empty = Seq::<char>::empty();
    assert(watching(initial_classifier(), empty, empty, marker)) by {
        reveal(watching);
        assert(empty + empty =~= empty);
    }
    lemma_run_while_watching(initial_classifier(), empty, empty, marker, deltas);
    assert(empty + deltas.flatten() =~= deltas.flatten());
    assert(empty + classify_run(initial_classifier(), marker, deltas).0 =~= classify_run(
        initial_classifier(),
        marker,
        deltas,
    ).0);
}

} // verus!
