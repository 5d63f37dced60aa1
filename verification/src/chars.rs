//! Character sequences: conversion from and to strings, whitespace, trimming
//! and substring search.

use vstd::prelude::*;

verus! {

/// Whether `c` is white space in the sense of `char::is_whitespace`.
pub open spec fn is_space(c: char) -> bool {
    let n = c as u32;
    ||| 0x09 <= n <= 0x0D
    ||| n == 0x20
    ||| n == 0x85
    ||| n == 0xA0
    ||| n == 0x1680
    ||| 0x2000 <= n <= 0x200A
    ||| n == 0x2028
    ||| n == 0x2029
    ||| n == 0x202F
    ||| n == 0x205F
    ||| n == 0x3000
}

/// Decides `is_space`.
pub fn is_space_char(c: char) -> (r: bool)
    ensures
        r == is_space(c),
{
    let n: u32 = c as u32;
    (0x09 <= n && n <= 0x0D) || n == 0x20 || n == 0x85 || n == 0xA0 || n == 0x1680 || (0x2000 <= n
        && n <= 0x200A) || n == 0x2028 || n == 0x2029 || n == 0x202F || n == 0x205F || n == 0x3000
}

/// The characters of `s`, in order.
pub fn chars_of(s: &str) -> (v: Vec<char>)
    ensures
        v@ == s@,
{
    let mut v: Vec<char> = Vec::new();
    let mut it = s.chars();
    for c in iter: it
        invariant
            v@ == iter.seq().take(iter.index() as int),
    {
        v.push(c);
    }
    v
}

/// `String::push`: appends `c` to the end of the string and changes nothing
/// else of it.
pub assume_specification[ String::push ](s: &mut String, c: char)
    ensures
        final(s)@ == old(s)@.push(c),
;

/// The string that holds the characters of `v`, in order.
pub fn string_of(v: &Vec<char>) -> (s: String)
    ensures
        s@ == v@,
{
    let mut s = String::new();
    let mut i: usize = 0;
    while i < v.len()
        invariant
            i <= v.len(),
            s@ == v@.take(i as int),
        decreases v.len() - i,
    {
        s.push(v[i]);
        i += 1;
    }
    s
}

/// A copy of the characters of `v` from `lo` up to `hi`.
pub fn slice_of(v: &Vec<char>, lo: usize, hi: usize) -> (r: Vec<char>)
    requires
        lo <= hi <= v.len(),
    ensures
        r@ == v@.subrange(lo as int, hi as int),
{
    let mut r: Vec<char> = Vec::new();
    let mut i: usize = lo;
    while i < hi
        invariant
            lo <= i <= hi <= v.len(),
            r@ == v@.subrange(lo as int, i as int),
        decreases hi - i,
    {
        r.push(v[i]);
        i += 1;
    }
    r
}

/// A copy of `v`.
pub fn copy_of(v: &Vec<char>) -> (r: Vec<char>)
    ensures
        r@ == v@,
{
    let r = slice_of(v, 0, v.len());
    assert(r@ =~= v@);
    r
}

/// Appends the characters of `tail` to `head`.
pub fn append_chars(head: &mut Vec<char>, tail: &Vec<char>)
    ensures
        final(head)@ == old(head)@ + tail@,
{
    let mut i: usize = 0;
    while i < tail.len()
        invariant
            i <= tail.len(),
            head@ == old(head)@ + tail@.take(i as int),
        decreases tail.len() - i,
    {
        head.push(tail[i]);
        i += 1;
    }
}

/// The least index in `from..to` at which `p` holds, or `to` if there is none.
pub open spec fn first_where(p: spec_fn(int) -> bool, from: int, to: int) -> int
    decreases to - from,
{
    if from >= to {
        to
    } else if p(from) {
        from
    } else {
        first_where(p, from + 1, to)
    }
}

/// `first_where` lies in `from..=to`, `p` holds there unless it is `to`, and
/// `p` fails everywhere before it.
pub proof fn lemma_first_where(p: spec_fn(int) -> bool, from: int, to: int)
    requires
        from <= to,
    ensures
        from <= first_where(p, from, to) <= to,
        first_where(p, from, to) < to ==> p(first_where(p, from, to)),
        forall|j: int| from <= j < first_where(p, from, to) ==> !#[trigger] p(j),
    decreases to - from,
{
    if from < to && !p(from) {
        lemma_first_where(p, from + 1, to);
    }
}

/// An index with the three properties of `lemma_first_where` is `first_where`.
pub proof fn lemma_first_where_is(p: spec_fn(int) -> bool, from: int, to: int, r: int)
    requires
        from <= r <= to,
        r < to ==> p(r),
        forall|j: int| from <= j < r ==> !#[trigger] p(j),
    ensures
        first_where(p, from, to) == r,
    decreases to - from,
{
    if from < to && from < r {
        lemma_first_where_is(p, from + 1, to, r);
    }
}

/// `s` without its leading white space.
pub open spec fn trim_start(s: Seq<char>) -> Seq<char> {
    s.subrange(first_where(|i: int| !is_space(s[i]), 0, s.len() as int), s.len() as int)
}

/// The length of `s` without its trailing white space.
pub open spec fn trimmed_len(s: Seq<char>) -> int
    decreases s.len(),
{
    if s.len() == 0 || !is_space(s.last()) {
        s.len() as int
    } else {
        trimmed_len(s.drop_last())
    }
}

/// `s` without its trailing white space.
pub open spec fn trim_end(s: Seq<char>) -> Seq<char> {
    s.subrange(0, trimmed_len(s))
}

/// `s` without its leading and trailing white space.
pub open spec fn trim(s: Seq<char>) -> Seq<char> {
    trim_end(trim_start(s))
}

/// `trimmed_len` is a length within `s`, the character before it is no white
/// space, and all after it are.
pub proof fn lemma_trimmed_len(s: Seq<char>)
    ensures
        0 <= trimmed_len(s) <= s.len(),
        trimmed_len(s) > 0 ==> !is_space(s[trimmed_len(s) - 1]),
        forall|j: int| trimmed_len(s) <= j < s.len() ==> is_space(s[j]),
    decreases s.len(),
{
    if s.len() > 0 && is_space(s.last()) {
        let t = s.drop_last();
        lemma_trimmed_len(t);
        assert forall|j: int| trimmed_len(s) <= j < s.len() implies is_space(s[j]) by {
            if j < t.len() {
                assert(t[j] == s[j]);
            }
        }
    }
}

/// A length with the properties of `lemma_trimmed_len` is `trimmed_len`.
pub proof fn lemma_trimmed_len_is(s: Seq<char>, n: int)
    requires
        0 <= n <= s.len(),
        n > 0 ==> !is_space(s[n - 1]),
        forall|j: int| n <= j < s.len() ==> is_space(s[j]),
    ensures
        trimmed_len(s) == n,
    decreases s.len(),
{
    if s.len() > 0 && is_space(s.last()) {
        let t = s.drop_last();
        assert forall|j: int| n <= j < t.len() implies is_space(t[j]) by {
            assert(t[j] == s[j]);
        }
        if n > 0 {
            assert(t[n - 1] == s[n - 1]);
        }
        lemma_trimmed_len_is(t, n);
    }
}

/// The index of the first character of `v` at or after `lo` and before `hi`
/// that is no white space, or `hi`.
pub fn skip_spaces(v: &Vec<char>, lo: usize, hi: usize) -> (r: usize)
    requires
        lo <= hi <= v.len(),
    ensures
        r == first_where(|i: int| !is_space(v@[i]), lo as int, hi as int),
        lo <= r <= hi,
{
    let mut i: usize = lo;
    while i < hi && is_space_char(v[i])
        invariant
            lo <= i <= hi <= v.len(),
            forall|j: int| lo <= j < i ==> is_space(v@[j]),
        decreases hi - i,
    {
        i += 1;
    }
    proof {
        lemma_first_where_is(|i: int| !is_space(v@[i]), lo as int, hi as int, i as int);
    }
    i
}

/// `v` without leading white space.
pub fn trim_start_chars(v: &Vec<char>) -> (r: Vec<char>)
    ensures
        r@ == trim_start(v@),
{
    let lo = skip_spaces(v, 0, v.len());
    slice_of(v, lo, v.len())
}

/// `v` without trailing white space.
pub fn trim_end_chars(v: &Vec<char>) -> (r: Vec<char>)
    ensures
        r@ == trim_end(v@),
{
    let mut hi: usize = v.len();
    while hi > 0 && is_space_char(v[hi - 1])
        invariant
            hi <= v.len(),
            forall|j: int| hi <= j < v.len() ==> is_space(v@[j]),
        decreases hi,
    {
        hi -= 1;
    }
    proof {
        lemma_trimmed_len_is(v@, hi as int);
    }
    slice_of(v, 0, hi)
}

/// `v` without leading and trailing white space.
pub fn trim_chars(v: &Vec<char>) -> (r: Vec<char>)
    ensures
        r@ == trim(v@),
{
    let start = trim_start_chars(v);
    trim_end_chars(&start)
}

/// Whether `pat` stands in `s` at index `i`.
pub open spec fn has_at(s: Seq<char>, pat: Seq<char>, i: int) -> bool {
    0 <= i && i + pat.len() <= s.len() && s.subrange(i, i + pat.len()) == pat
}

/// The index of the first occurrence of `pat` in `s`, or the length of `s`
/// if there is none.
pub open spec fn first_match(s: Seq<char>, pat: Seq<char>) -> int {
    first_where(|i: int| has_at(s, pat, i), 0, s.len() as int)
}

/// Whether `pat` occurs in `s`.
pub open spec fn contains(s: Seq<char>, pat: Seq<char>) -> bool {
    first_match(s, pat) < s.len()
}

/// `s` with the first occurrence of `pat` replaced by `rep`; `s` itself if
/// `pat` does not occur.
pub open spec fn replace_first(s: Seq<char>, pat: Seq<char>, rep: Seq<char>) -> Seq<char> {
    let i = first_match(s, pat);
    if i < s.len() {
        s.subrange(0, i) + rep + s.subrange(i + pat.len(), s.len() as int)
    } else {
        s
    }
}

/// Decides `has_at`.
pub fn matches_at(v: &Vec<char>, i: usize, pat: &Vec<char>) -> (r: bool)
    requires
        i <= v.len(),
    ensures
        r == has_at(v@, pat@, i as int),
{
    if pat.len() > v.len() - i {
        return false;
    }
    let mut k: usize = 0;
    while k < pat.len()
        invariant
            k <= pat.len(),
            i + pat.len() <= v.len(),
            forall|j: int| 0 <= j < k ==> v@[i + j] == pat@[j],
        decreases pat.len() - k,
    {
        if v[i + k] != pat[k] {
            proof {
                assert(v@.subrange(i as int, i + pat.len())[k as int] == v@[i + k]);
            }
            return false;
        }
        k += 1;
    }
    proof {
        assert(v@.subrange(i as int, i + pat.len()) =~= pat@);
    }
    true
}

/// Computes `first_match`.
pub fn find_chars(v: &Vec<char>, pat: &Vec<char>) -> (r: usize)
    ensures
        r == first_match(v@, pat@),
        r <= v.len(),
{
    let mut i: usize = 0;
    while i < v.len() && !matches_at(v, i, pat)
        invariant
            i <= v.len(),
            forall|j: int| 0 <= j < i ==> !has_at(v@, pat@, j),
        decreases v.len() - i,
    {
        i += 1;
    }
    proof {
        lemma_first_where_is(|j: int| has_at(v@, pat@, j), 0, v.len() as int, i as int);
    }
    i
}

/// Decides `contains`.
pub fn contains_chars(v: &Vec<char>, pat: &Vec<char>) -> (r: bool)
    ensures
        r == contains(v@, pat@),
{
    find_chars(v, pat) < v.len()
}

/// Computes `replace_first`.
pub fn replace_first_chars(v: &Vec<char>, pat: &Vec<char>, rep: &Vec<char>) -> (r: Vec<char>)
    ensures
        r@ == replace_first(v@, pat@, rep@),
{
    let i = find_chars(v, pat);
    if i < v.len() {
        proof {
            lemma_first_where(|j: int| has_at(v@, pat@, j), 0, v.len() as int);
        }
        let mut r = slice_of(v, 0, i);
        append_chars(&mut r, rep);
        let tail = slice_of(v, i + pat.len(), v.len());
        append_chars(&mut r, &tail);
        r
    } else {
        copy_of(v)
    }
}

/// `v` with the characters of `ins` put in before index `k`.
pub fn insert_chars(v: &Vec<char>, k: usize, ins: &Vec<char>) -> (r: Vec<char>)
    requires
        k <= v.len(),
    ensures
        r@ == v@.subrange(0, k as int) + ins@ + v@.subrange(k as int, v.len() as int),
{
    let mut r = slice_of(v, 0, k);
    append_chars(&mut r, ins);
    let tail = slice_of(v, k, v.len());
    append_chars(&mut r, &tail);
    r
}

/// `v` with the characters from `lo` up to `hi` replaced by those of `rep`.
pub fn splice_chars(v: &Vec<char>, lo: usize, hi: usize, rep: &Vec<char>) -> (r: Vec<char>)
    requires
        lo <= hi <= v.len(),
    ensures
        r@ == v@.subrange(0, lo as int) + rep@ + v@.subrange(hi as int, v.len() as int),
{
    let mut r = slice_of(v, 0, lo);
    append_chars(&mut r, rep);
    let tail = slice_of(v, hi, v.len());
    append_chars(&mut r, &tail);
    r
}

} // verus!
