use vstd::prelude::*;
use vstd::string::*;

verus! {

/// `needle` stands in `text` at the offset `k`.
pub open spec fn occurs_at(text: Seq<char>, needle: Seq<char>, k: int) -> bool {
    0 <= k && k + needle.len() <= text.len() && text.subrange(k, k + needle.len()) == needle
}

/// The first offset from `from` on at which `needle` stands in `text`.
pub open spec fn find_from(text: Seq<char>, needle: Seq<char>, from: int) -> Option<int>
    decreases text.len() - from + 1,
{
    if from < 0 || from + needle.len() > text.len() {
        None
    } else if occurs_at(text, needle, from) {
        Some(from)
    } else {
        find_from(text, needle, from + 1)
    }
}

/// The first offset at which `needle` stands in `text`.
pub open spec fn find(text: Seq<char>, needle: Seq<char>) -> Option<int> {
    find_from(text, needle, 0)
}

/// What `find_from` finds is the first occurrence from `from` on, and it finds nothing
/// only where there is none.
pub proof fn lemma_find_from(text: Seq<char>, needle: Seq<char>, from: int)
    requires
        0 <= from,
    ensures
        match find_from(text, needle, from) {
            Some(k) => from <= k && occurs_at(text, needle, k) && forall|j: int|
                from <= j < k ==> !occurs_at(text, needle, j),
            None => forall|j: int| from <= j ==> !occurs_at(text, needle, j),
        },
    decreases text.len() - from + 1,
{
    if from + needle.len() > text.len() {
    } else if occurs_at(text, needle, from) {
    } else {
        lemma_find_from(text, needle, from + 1);
    }
}

/// `find` is the first occurrence, and nothing else is.
pub proof fn lemma_find_is_first(text: Seq<char>, needle: Seq<char>, k: int)
    ensures
        find(text, needle) == Some(k) <==> (occurs_at(text, needle, k) && forall|j: int|
            0 <= j < k ==> !occurs_at(text, needle, j)),
        find(text, needle) is None <==> forall|j: int| !occurs_at(text, needle, j),
{
    lemma_find_from(text, needle, 0);
}

/// The last `h` characters of `text` are the first `h` of `needle`, and not all of it.
pub open spec fn ends_in_partial(text: Seq<char>, needle: Seq<char>, h: int) -> bool {
    0 <= h <= text.len() && h < needle.len() && text.skip(text.len() - h) == needle.take(h)
}

/// The greatest length up to `h` of an ending of `text` that begins `needle`.
pub open spec fn partial_up_to(text: Seq<char>, needle: Seq<char>, h: int) -> int
    decreases h,
{
    if h <= 0 {
        0
    } else if ends_in_partial(text, needle, h) {
        h
    } else {
        partial_up_to(text, needle, h - 1)
    }
}

/// The length of the longest ending of `text` that begins `needle` without completing it.
pub open spec fn partial_len(text: Seq<char>, needle: Seq<char>) -> int {
    partial_up_to(text, needle, needle.len() - 1)
}

/// `partial_up_to` is the longest such ending.
pub proof fn lemma_partial_up_to(text: Seq<char>, needle: Seq<char>, h: int)
    ensures
        0 <= partial_up_to(text, needle, h),
        partial_up_to(text, needle, h) <= h || h < 0,
        partial_up_to(text, needle, h) > 0 ==> ends_in_partial(
            text,
            needle,
            partial_up_to(text, needle, h),
        ),
        forall|j: int|
            partial_up_to(text, needle, h) < j <= h ==> !ends_in_partial(text, needle, j),
    decreases h,
{
    if h <= 0 {
    } else if ends_in_partial(text, needle, h) {
    } else {
        lemma_partial_up_to(text, needle, h - 1);
    }
}

/// `partial_len` is the longest ending of `text` that begins `needle` without
/// completing it.
pub proof fn lemma_partial_len(text: Seq<char>, needle: Seq<char>)
    ensures
        0 <= partial_len(text, needle) <= text.len(),
        partial_len(text, needle) < needle.len() || needle.len() == 0,
        ends_in_partial(text, needle, partial_len(text, needle)) || needle.len() == 0,
        forall|j: int| partial_len(text, needle) < j ==> !ends_in_partial(text, needle, j),
{
    lemma_partial_up_to(text, needle, needle.len() - 1);
    let h = partial_len(text, needle);
    if h == 0 && needle.len() > 0 {
        assert(text.skip(text.len() - 0) =~= needle.take(0));
    }
}

/// The characters of a string, in order.
pub fn chars_of(s: &str) -> (v: Vec<char>)
    ensures
        v@ == s@,
{
    let mut v: Vec<char> = Vec::new();
    let it = s.chars();
    for c in iter: it
        invariant
            iter.seq() == s@,
            v@ == s@.take(iter.index() as int),
    {
        v.push(c);
    }
    v
}

/// Whether `needle` stands in `text` at the offset `k`.
pub fn matches_at(text: &[char], needle: &[char], k: usize) -> (r: bool)
    ensures
        r == occurs_at(text@, needle@, k as int),
{
    if k > text.len() || needle.len() > text.len() - k {
        return false;
    }
    let mut i: usize = 0;
    while i < needle.len()
        invariant
            i <= needle@.len(),
            k + needle@.len() <= text@.len() <= usize::MAX,
            forall|j: int| 0 <= j < i ==> needle@[j] == text@[k + j],
        decreases needle@.len() - i,
    {
        if needle[i] != text[k + i] {
            assert(text@.subrange(k as int, k + needle@.len())[i as int] != needle@[i as int]);
            return false;
        }
        i += 1;
    }
    assert(text@.subrange(k as int, k + needle@.len()) =~= needle@);
    true
}

/// The first offset at which `needle` stands in `text`.
pub fn find_chars(text: &[char], needle: &[char]) -> (r: Option<usize>)
    ensures
        match r {
            Some(k) => find(text@, needle@) == Some(k as int) && k + needle@.len() <= text@.len(),
            None => find(text@, needle@) is None,
        },
{
    if needle.len() > text.len() {
        return None;
    }
    let last: usize = text.len() - needle.len();
    let mut k: usize = 0;
    loop
        invariant
            last == text@.len() - needle@.len(),
            0 <= k <= last,
            find(text@, needle@) == find_from(text@, needle@, k as int),
        decreases last - k,
    {
        if matches_at(text, needle, k) {
            return Some(k);
        }
        if k == last {
            assert(find_from(text@, needle@, k + 1) is None);
            return None;
        }
        k += 1;
    }
}

/// The length of the longest ending of `text` that begins `needle` without completing
/// it.
pub fn partial_chars(text: &[char], needle: &[char]) -> (r: usize)
    ensures
        r == partial_len(text@, needle@),
        r <= text@.len(),
{
    if needle.len() == 0 {
        return 0;
    }
    let mut h: usize = needle.len() - 1;
    while h > 0
        invariant
            h < needle@.len(),
            partial_len(text@, needle@) == partial_up_to(text@, needle@, h as int),
        decreases h,
    {
        if h <= text.len() {
            let at: usize = text.len() - h;
            let mut i: usize = 0;
            let mut same = true;
            while i < h
                invariant_except_break
                    same,
                invariant
                    i <= h < needle@.len(),
                    h <= text@.len() <= usize::MAX,
                    at == text@.len() - h,
                    forall|j: int| 0 <= j < i ==> needle@[j] == text@[at + j],
                ensures
                    same ==> i == h,
                    !same ==> !ends_in_partial(text@, needle@, h as int),
                decreases h - i,
            {
                if needle[i] != text[at + i] {
                    assert(text@.skip(text@.len() - h)[i as int] != needle@.take(h as int)[i as int]);
                    same = false;
                    break;
                }
                i += 1;
            }
            if same {
                assert(text@.skip(text@.len() - h) =~= needle@.take(h as int));
                return h;
            }
        }
        h -= 1;
    }
    0
}

/// The lower-case form of an ASCII capital; any other character unchanged.
pub open spec fn ascii_lower(c: char) -> char {
    if 'A' <= c <= 'Z' {
        ((c as u8) + 32) as char
    } else {
        c
    }
}

/// A text with its ASCII capitals in lower case.
pub open spec fn ascii_lowercase(text: Seq<char>) -> Seq<char> {
    Seq::new(text.len(), |i: int| ascii_lower(text[i]))
}

/// The lower-case form of an ASCII capital; any other character unchanged.
pub fn to_ascii_lower(c: char) -> (r: char)
    ensures
        r == ascii_lower(c),
{
    if 'A' <= c && c <= 'Z' {
        ((c as u8) + 32) as char
    } else {
        c
    }
}

/// A text with its ASCII capitals in lower case.
pub fn to_ascii_lowercase(text: &[char]) -> (v: Vec<char>)
    ensures
        v@ == ascii_lowercase(text@),
{
    let mut v: Vec<char> = Vec::new();
    let mut i: usize = 0;
    while i < text.len()
        invariant
            i <= text@.len(),
            v@ == ascii_lowercase(text@).take(i as int),
        decreases text@.len() - i,
    {
        v.push(to_ascii_lower(text[i]));
        assert(v@ =~= ascii_lowercase(text@).take(i + 1));
        i += 1;
    }
    assert(v@ =~= ascii_lowercase(text@));
    v
}

/// Whether `text` opens with `prefix`.
pub fn starts_with_chars(text: &[char], prefix: &[char]) -> (r: bool)
    ensures
        r == prefix@.is_prefix_of(text@),
{
    matches_at(text, prefix, 0)
}

/// Whether two strings hold the same text.
pub fn str_eq(a: &str, b: &str) -> (r: bool)
    ensures
        r == (a@ == b@),
{
    let x = a.as_bytes();
    let y = b.as_bytes();
    if x.len() != y.len() {
        return false;
    }
    let mut i: usize = 0;
    while i < x.len()
        invariant
            i <= x@.len(),
            x@.len() == y@.len(),
            x@ == vstd::utf8::encode_utf8(a@),
            y@ == vstd::utf8::encode_utf8(b@),
            forall|j: int| 0 <= j < i ==> x@[j] == y@[j],
        decreases x@.len() - i,
    {
        if x[i] != y[i] {
            return false;
        }
        i += 1;
    }
    proof {
        assert(x@ =~= y@);
        vstd::utf8::encode_utf8_decode_utf8(a@);
        vstd::utf8::encode_utf8_decode_utf8(b@);
    }
    true
}

} // verus!
