use vstd::prelude::*;
use vstd::utf8::*;

verus! {

/// Length of the longest prefix of `bytes` that is well-formed UTF-8.
pub open spec fn valid_prefix_len(bytes: Seq<u8>) -> int
    decreases bytes.len(),
{
    if bytes.len() > 0 && valid_first_scalar(bytes) {
        length_of_first_scalar(bytes) + valid_prefix_len(pop_first_scalar(bytes))
    } else {
        0
    }
}

/// A well-formed first scalar stays the first scalar whatever follows.
pub proof fn lemma_first_scalar_extends(x: Seq<u8>, y: Seq<u8>)
    requires
        valid_first_scalar(x),
    ensures
        valid_first_scalar(x + y),
        length_of_first_scalar(x + y) == length_of_first_scalar(x),
        decode_first_scalar(x + y) == decode_first_scalar(x),
        pop_first_scalar(x + y) == pop_first_scalar(x) + y,
{
    let z = x + y;
    assert(z[0] == x[0]);
    if x.len() >= 2 {
        assert(z[1] == x[1]);
    }
    if x.len() >= 3 {
        assert(z[2] == x[2]);
    }
    if x.len() >= 4 {
        assert(z[3] == x[3]);
    }
    assert(pop_first_scalar(z) =~= pop_first_scalar(x) + y);
}

/// Four bytes are enough to tell whether a sequence opens with a well-formed scalar.
pub proof fn lemma_first_scalar_within_four(x: Seq<u8>, y: Seq<u8>)
    requires
        x.len() >= 4,
    ensures
        valid_first_scalar(x + y) == valid_first_scalar(x),
{
    let z = x + y;
    assert(z[0] == x[0]);
    assert(z[1] == x[1]);
    assert(z[2] == x[2]);
    assert(z[3] == x[3]);
}

/// The longest well-formed prefix lies within the sequence and is well-formed.
pub proof fn lemma_valid_prefix_len_bounds(bytes: Seq<u8>)
    ensures
        0 <= valid_prefix_len(bytes) <= bytes.len(),
        valid_utf8(bytes.take(valid_prefix_len(bytes))),
    decreases bytes.len(),
{
    if bytes.len() > 0 && valid_first_scalar(bytes) {
        let n = length_of_first_scalar(bytes);
        let rest = pop_first_scalar(bytes);
        lemma_valid_prefix_len_bounds(rest);
        let m = valid_prefix_len(rest);
        let head = bytes.take(n);
        assert(bytes.take(n + m) =~= head + rest.take(m));
        assert(head[0] == bytes[0]);
        if n >= 2 {
            assert(head[1] == bytes[1]);
        }
        if n >= 3 {
            assert(head[2] == bytes[2]);
        }
        if n >= 4 {
            assert(head[3] == bytes[3]);
        }
        lemma_first_scalar_extends(head, rest.take(m));
        assert(pop_first_scalar(head) =~= Seq::<u8>::empty());
        assert(pop_first_scalar(head) + rest.take(m) =~= rest.take(m));
    } else {
        assert(bytes.take(0) =~= Seq::<u8>::empty());
    }
}

/// No well-formed prefix is longer than the longest one.
pub proof fn lemma_valid_prefix_len_maximal(bytes: Seq<u8>, n: int)
    requires
        0 <= n <= bytes.len(),
        valid_utf8(bytes.take(n)),
    ensures
        n <= valid_prefix_len(bytes),
    decreases bytes.len(),
{
    if n > 0 {
        let p = bytes.take(n);
        assert(bytes =~= p + bytes.skip(n));
        lemma_first_scalar_extends(p, bytes.skip(n));
        let k = length_of_first_scalar(p);
        let rest = pop_first_scalar(bytes);
        assert(rest.take(n - k) =~= pop_first_scalar(p));
        lemma_valid_prefix_len_maximal(rest, n - k);
    } else {
        lemma_valid_prefix_len_bounds(bytes);
    }
}

/// A sequence is well-formed exactly when its longest well-formed prefix is all of it.
pub proof fn lemma_valid_iff_prefix_is_whole(bytes: Seq<u8>)
    ensures
        valid_utf8(bytes) <==> valid_prefix_len(bytes) == bytes.len(),
{
    lemma_valid_prefix_len_bounds(bytes);
    assert(bytes.take(bytes.len() as int) =~= bytes);
    if valid_utf8(bytes) {
        lemma_valid_prefix_len_maximal(bytes, bytes.len() as int);
    }
}

/// Behind well-formed bytes the longest well-formed prefix goes on where they end.
pub proof fn lemma_valid_prefix_len_after_valid(e: Seq<u8>, r: Seq<u8>)
    requires
        valid_utf8(e),
    ensures
        valid_prefix_len(e + r) == e.len() + valid_prefix_len(r),
    decreases e.len(),
{
    if e.len() == 0 {
        assert(e + r =~= r);
    } else {
        lemma_first_scalar_extends(e, r);
        lemma_valid_prefix_len_after_valid(pop_first_scalar(e), r);
    }
}

/// Once four bytes or more stand behind the longest well-formed prefix, nothing that
/// follows can lengthen it.
pub proof fn lemma_stalled_prefix_is_final(x: Seq<u8>, y: Seq<u8>)
    requires
        x.len() - valid_prefix_len(x) >= 4,
    ensures
        valid_prefix_len(x + y) == valid_prefix_len(x),
    decreases x.len(),
{
    if valid_first_scalar(x) {
        lemma_first_scalar_extends(x, y);
        lemma_stalled_prefix_is_final(pop_first_scalar(x), y);
    } else {
        lemma_first_scalar_within_four(x, y);
    }
}

/// What follows well-formed bytes in a well-formed sequence is well-formed.
pub proof fn lemma_valid_remainder(e: Seq<u8>, r: Seq<u8>)
    requires
        valid_utf8(e),
        valid_utf8(e + r),
    ensures
        valid_utf8(r),
{
    let b = e + r;
    assert(b.subrange(0, e.len() as int) =~= e);
    assert(b.subrange(e.len() as int, b.len() as int) =~= r);
    if !valid_utf8(r) {
        partial_valid_partial_invalid_utf8(b, e.len() as int);
    }
}

/// Decoding two well-formed sequences one after the other decodes their concatenation.
pub proof fn lemma_decode_concat(a: Seq<u8>, b: Seq<u8>)
    requires
        valid_utf8(a),
        valid_utf8(b),
    ensures
        valid_utf8(a + b),
        decode_utf8(a + b) == decode_utf8(a) + decode_utf8(b),
    decreases a.len(),
{
    valid_utf8_concat(a, b);
    if a.len() == 0 {
        assert(a + b =~= b);
        assert(decode_utf8(a) + decode_utf8(b) =~= decode_utf8(b));
    } else {
        lemma_first_scalar_extends(a, b);
        lemma_decode_concat(pop_first_scalar(a), b);
        assert(decode_utf8(a + b) =~= decode_utf8(a) + decode_utf8(b));
    }
}

/// `core::str::from_utf8`, and `Utf8Error::valid_up_to` where it fails: the text that
/// the bytes encode when they are well-formed UTF-8; otherwise the length of their
/// longest well-formed prefix, as the standard library documents it.
#[verifier::external_body]
pub(crate) fn decode_or_valid_up_to(bytes: &[u8]) -> (r: Result<&str, usize>)
    ensures
        r is Ok <==> valid_utf8(bytes@),
        r matches Ok(s) ==> s@ == decode_utf8(bytes@),
        r matches Err(v) ==> v < bytes@.len() && valid_utf8(bytes@.take(v as int)) && forall|i: int|
            v < i <= bytes@.len() ==> !valid_utf8(#[trigger] bytes@.take(i)),
{
    match core::str::from_utf8(bytes) {
        Ok(s) => Ok(s),
        Err(e) => Err(e.valid_up_to()),
    }
}

} // verus!
