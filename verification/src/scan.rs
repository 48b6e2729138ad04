//! Searching in sequences: where a pattern stands, and where it comes first.
use vstd::prelude::*;

verus! {

/// `pattern` stands in `s` at position `at`.
pub open spec fn stands_at<T>(s: Seq<T>, at: int, pattern: Seq<T>) -> bool {
    0 <= at && at + pattern.len() <= s.len() && s.subrange(at, at + pattern.len()) == pattern
}

/// The first position from `from` on at which `pattern` stands in `s`, or the
/// end of `s`.
pub open spec fn first_at<T>(s: Seq<T>, from: int, pattern: Seq<T>) -> int
    decreases s.len() - from,
{
    if from >= s.len() {
        s.len() as int
    } else if stands_at(s, from, pattern) {
        from
    } else {
        first_at(s, from + 1, pattern)
    }
}

pub proof fn lemma_first_at<T>(s: Seq<T>, from: int, pattern: Seq<T>)
    requires
        0 <= from <= s.len(),
    ensures
        from <= first_at(s, from, pattern) <= s.len(),
        first_at(s, from, pattern) < s.len() ==> stands_at(
            s,
            first_at(s, from, pattern),
            pattern,
        ),
        forall|k: int| from <= k < first_at(s, from, pattern) ==> !#[trigger] stands_at(
            s,
            k,
            pattern,
        ),
    decreases s.len() - from,
{
    if from < s.len() && !stands_at(s, from, pattern) {
        lemma_first_at(s, from + 1, pattern);
    }
}

/// Whether `pattern` stands in `bytes` at position `at`.
pub fn bytes_stand_at(bytes: &[u8], at: usize, pattern: &[u8]) -> (stands: bool)
    requires
        at <= bytes@.len(),
    ensures
        stands == stands_at(bytes@, at as int, pattern@),
{
    let end: usize = bytes.len();
    if end - at < pattern.len() {
        return false;
    }
    let mut i: usize = 0;
    while i < pattern.len()
        invariant
            i <= pattern@.len(),
            at + pattern@.len() <= bytes@.len() == end,
            forall|k: int| 0 <= k < i ==> bytes@[at + k] == #[trigger] pattern@[k],
        decreases pattern@.len() - i,
    {
        if bytes[at + i] != pattern[i] {
            assert(bytes@.subrange(at as int, at + pattern@.len())[i as int] == bytes@[at + i]);
            return false;
        }
        i += 1;
    }
    assert(bytes@.subrange(at as int, at + pattern@.len()) =~= pattern@);
    true
}

/// The first position from `from` on at which `pattern` stands in `bytes`, or
/// the end of `bytes`.
pub fn find_bytes(bytes: &[u8], from: usize, pattern: &[u8]) -> (at: usize)
    requires
        from <= bytes@.len(),
    ensures
        at == first_at(bytes@, from as int, pattern@),
        from <= at <= bytes@.len(),
{
    let mut i: usize = from;
    while i < bytes.len() && !bytes_stand_at(bytes, i, pattern)
        invariant
            from <= i <= bytes@.len(),
            first_at(bytes@, from as int, pattern@) == first_at(bytes@, i as int, pattern@),
        decreases bytes@.len() - i,
    {
        i += 1;
    }
    i
}

/// Whether `pattern` stands in `chars` at position `at`.
pub fn chars_stand_at(chars: &Vec<char>, at: usize, pattern: &[char]) -> (stands: bool)
    requires
        at <= chars@.len(),
    ensures
        stands == stands_at(chars@, at as int, pattern@),
{
    let end: usize = chars.len();
    if end - at < pattern.len() {
        return false;
    }
    let mut i: usize = 0;
    while i < pattern.len()
        invariant
            i <= pattern@.len(),
            at + pattern@.len() <= chars@.len() == end,
            forall|k: int| 0 <= k < i ==> chars@[at + k] == #[trigger] pattern@[k],
        decreases pattern@.len() - i,
    {
        if chars[at + i] != pattern[i] {
            assert(chars@.subrange(at as int, at + pattern@.len())[i as int] == chars@[at + i]);
            return false;
        }
        i += 1;
    }
    assert(chars@.subrange(at as int, at + pattern@.len()) =~= pattern@);
    true
}

/// The first position from `from` on at which `pattern` stands in `chars`, or
/// the end of `chars`.
pub fn find_chars(chars: &Vec<char>, from: usize, pattern: &[char]) -> (at: usize)
    requires
        from <= chars@.len(),
    ensures
        at == first_at(chars@, from as int, pattern@),
        from <= at <= chars@.len(),
{
    let mut i: usize = from;
    while i < chars.len() && !chars_stand_at(chars, i, pattern)
        invariant
            from <= i <= chars@.len(),
            first_at(chars@, from as int, pattern@) == first_at(chars@, i as int, pattern@),
        decreases chars@.len() - i,
    {
        i += 1;
    }
    i
}

} // verus!
