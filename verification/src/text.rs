//! Character-sequence utilities: conversion between `String`/`str` and
//! `Vec<char>`, substring search, and first-occurrence replacement. The
//! marker-patching step of the session is specified with `replace_first_seq`
//! and `find_from`.

use vstd::prelude::*;

verus! {

/// `n` occurs in `h` at position `i`.
pub open spec fn matches_at(h: Seq<char>, n: Seq<char>, i: int) -> bool {
    &&& 0 <= i
    &&& i + n.len() <= h.len()
    &&& forall|j: int| 0 <= j < n.len() ==> h[i + j] == n[j]
}

/// `n` occurs somewhere in `h`.
pub open spec fn contains_seq(h: Seq<char>, n: Seq<char>) -> bool {
    exists|i: int| matches_at(h, n, i)
}

/// The first position at or after `from` where `n` occurs in `h`, if any.
pub open spec fn find_from(h: Seq<char>, n: Seq<char>, from: int) -> Option<int>
    decreases h.len() - from,
    when 0 <= from <= h.len()
{
    if from + n.len() > h.len() {
        None
    } else if matches_at(h, n, from) {
        Some(from)
    } else {
        find_from(h, n, from + 1)
    }
}

/// `h` with the first occurrence of `n` (if any) replaced by `v`.
pub open spec fn replace_first_seq(h: Seq<char>, n: Seq<char>, v: Seq<char>) -> Seq<char> {
    match find_from(h, n, 0) {
        None => h,
        Some(i) => h.subrange(0, i) + v + h.subrange(i + n.len(), h.len() as int),
    }
}

/// What `find_from` returns: the first match position, or a guarantee that
/// there is none at or after `from`.
pub proof fn lemma_find_from(h: Seq<char>, n: Seq<char>, from: int)
    requires
        0 <= from <= h.len(),
    ensures
        match find_from(h, n, from) {
            Some(i) => from <= i && matches_at(h, n, i) && forall|j: int|
                from <= j < i ==> !matches_at(h, n, j),
            None => forall|j: int| from <= j ==> !matches_at(h, n, j),
        },
    decreases h.len() - from,
{
    if from + n.len() > h.len() {
    } else if matches_at(h, n, from) {
    } else {
        lemma_find_from(h, n, from + 1);
    }
}

/// A match found by `find_from` is the first one overall when the search
/// starts at zero, and `find_from` finds a match iff one exists.
pub proof fn lemma_find_from_contains(h: Seq<char>, n: Seq<char>)
    ensures
        find_from(h, n, 0) is Some <==> contains_seq(h, n),
{
    lemma_find_from(h, n, 0);
    if find_from(h, n, 0) is Some {
        let i = find_from(h, n, 0)->0;
        assert(matches_at(h, n, i));
    }
    if contains_seq(h, n) {
        let i = choose|i: int| matches_at(h, n, i);
        if find_from(h, n, 0) is None {
            assert(!matches_at(h, n, i));
        }
    }
}

/// The characters of a string slice, in order.
pub fn str_chars(s: &str) -> (r: Vec<char>)
    ensures
        r@ == s@,
{
    let n: usize = s.unicode_len();
    let mut out: Vec<char> = Vec::new();
    let mut i: usize = 0;
    while i < n
        invariant
            n == s@.len(),
            i <= n,
            out@ == s@.subrange(0, i as int),
        decreases n - i,
    {
        let c = s.get_char(i);
        out.push(c);
        i = i + 1;
        assert(out@ =~= s@.subrange(0, i as int));
    }
    assert(out@ =~= s@);
    out
}

/// Relies on `String: FromIterator<char>`: collecting chars concatenates
/// exactly those chars, in order, into a new string.
#[verifier::external_body]
pub fn chars_to_string(v: &Vec<char>) -> (r: String)
    ensures
        r@ == v@,
{
    v.iter().collect()
}

/// Appends the characters of `s` to `out`.
pub fn push_str_chars(out: &mut Vec<char>, s: &str)
    ensures
        final(out)@ == old(out)@ + s@,
{
    let n: usize = s.unicode_len();
    let mut i: usize = 0;
    while i < n
        invariant
            n == s@.len(),
            i <= n,
            out@ == old(out)@ + s@.subrange(0, i as int),
        decreases n - i,
    {
        let c = s.get_char(i);
        out.push(c);
        i = i + 1;
        assert(out@ =~= old(out)@ + s@.subrange(0, i as int));
    }
    assert(out@ =~= old(out)@ + s@);
}

/// Content equality of two string slices.
pub fn str_eq(a: &str, b: &str) -> (r: bool)
    ensures
        r == (a@ == b@),
{
    let na: usize = a.unicode_len();
    let nb: usize = b.unicode_len();
    if na != nb {
        assert(a@ != b@);
        return false;
    }
    let mut i: usize = 0;
    while i < na
        invariant
            na == a@.len(),
            na == b@.len(),
            i <= na,
            forall|j: int| 0 <= j < i ==> a@[j] == b@[j],
        decreases na - i,
    {
        if a.get_char(i) != b.get_char(i) {
            return false;
        }
        i = i + 1;
    }
    assert(a@ =~= b@);
    true
}

/// Content equality of two strings.
pub fn string_eq(a: &String, b: &String) -> (r: bool)
    ensures
        r == (a@ == b@),
{
    str_eq(a.as_str(), b.as_str())
}

/// A fresh copy of a character vector.
pub fn copy_chars(v: &Vec<char>) -> (r: Vec<char>)
    ensures
        r@ == v@,
{
    let mut out: Vec<char> = Vec::new();
    let mut i: usize = 0;
    while i < v.len()
        invariant
            i <= v@.len(),
            out@ == v@.subrange(0, i as int),
        decreases v@.len() - i,
    {
        out.push(v[i]);
        i = i + 1;
        assert(out@ =~= v@.subrange(0, i as int));
    }
    assert(out@ =~= v@);
    out
}

/// Whether `n` occurs in `h` at position `i`.
fn check_match(h: &Vec<char>, n: &Vec<char>, i: usize) -> (r: bool)
    requires
        i + n@.len() <= h@.len(),
    ensures
        r == matches_at(h@, n@, i as int),
{
    let hl: usize = h.len();
    let mut j: usize = 0;
    while j < n.len()
        invariant
            i + n@.len() <= h@.len(),
            hl == h@.len(),
            j <= n@.len(),
            forall|k: int| 0 <= k < j ==> h@[i + k] == n@[k],
        decreases n@.len() - j,
    {
        if h[i + j] != n[j] {
            return false;
        }
        j = j + 1;
    }
    true
}

/// The first position of `n` in `h`, if any.
pub fn find_sub(h: &Vec<char>, n: &Vec<char>) -> (r: Option<usize>)
    ensures
        match r {
            Some(i) => find_from(h@, n@, 0) == Some(i as int),
            None => find_from(h@, n@, 0) is None,
        },
{
    if n.len() > h.len() {
        return None;
    }
    if n.len() == 0 {
        return Some(0);
    }
    let end: usize = h.len() - n.len();
    let mut i: usize = 0;
    while i <= end
        invariant
            1 <= n@.len() <= h@.len(),
            end == h@.len() - n@.len(),
            end < usize::MAX,
            i <= end + 1,
            find_from(h@, n@, 0) == find_from(h@, n@, i as int),
        decreases end + 1 - i,
    {
        if check_match(h, n, i) {
            return Some(i);
        }
        i = i + 1;
    }
    None
}

/// `h` with the first occurrence of `n` (if any) replaced by `v`.
pub fn replace_first(h: &Vec<char>, n: &Vec<char>, v: &Vec<char>) -> (r: Vec<char>)
    ensures
        r@ == replace_first_seq(h@, n@, v@),
{
    match find_sub(h, n) {
        None => copy_chars(h),
        Some(i) => {
            proof {
                lemma_find_from(h@, n@, 0);
            }
            let mut out: Vec<char> = Vec::new();
            let mut k: usize = 0;
            while k < i
                invariant
                    i + n@.len() <= h@.len(),
                    k <= i,
                    out@ == h@.subrange(0, k as int),
                decreases i - k,
            {
                out.push(h[k]);
                k = k + 1;
                assert(out@ =~= h@.subrange(0, k as int));
            }
            let mut j: usize = 0;
            while j < v.len()
                invariant
                    i + n@.len() <= h@.len(),
                    j <= v@.len(),
                    out@ == h@.subrange(0, i as int) + v@.subrange(0, j as int),
                decreases v@.len() - j,
            {
                out.push(v[j]);
                j = j + 1;
                assert(out@ =~= h@.subrange(0, i as int) + v@.subrange(0, j as int));
            }
            assert(out@ =~= h@.subrange(0, i as int) + v@);
            let hl: usize = h.len();
            assert(i + n@.len() <= hl);
            let mut t: usize = i + n.len();
            while t < h.len()
                invariant
                    i + n@.len() <= t <= h@.len(),
                    out@ == h@.subrange(0, i as int) + v@ + h@.subrange(
                        i + n@.len(),
                        t as int,
                    ),
                decreases h@.len() - t,
            {
                out.push(h[t]);
                t = t + 1;
                assert(out@ =~= h@.subrange(0, i as int) + v@ + h@.subrange(
                    i + n@.len(),
                    t as int,
                ));
            }
            assert(out@ =~= replace_first_seq(h@, n@, v@));
            out
        },
    }
}

/// Whether `pat` occurs in `s`.
pub fn str_contains(s: &str, pat: &str) -> (r: bool)
    ensures
        r == contains_seq(s@, pat@),
{
    let hs = str_chars(s);
    let ns = str_chars(pat);
    let found = find_sub(&hs, &ns);
    proof {
        lemma_find_from_contains(s@, pat@);
    }
    found.is_some()
}

/// The character sequences of a string sequence.
pub open spec fn view_str_seq(s: Seq<String>) -> Seq<Seq<char>>
    decreases s.len(),
{
    if s.len() == 0 {
        Seq::empty()
    } else {
        view_str_seq(s.drop_last()).push(s.last()@)
    }
}

/// The view of a string sequence has the string views pointwise.
pub proof fn lemma_view_str_seq(s: Seq<String>)
    ensures
        view_str_seq(s).len() == s.len(),
        forall|i: int| 0 <= i < s.len() ==> view_str_seq(s)[i] == (#[trigger] s[i])@,
    decreases s.len(),
{
    if s.len() > 0 {
        lemma_view_str_seq(s.drop_last());
        assert forall|i: int| 0 <= i < s.len() implies view_str_seq(s)[i] == (#[trigger] s[i])@
        by {
            if i < s.len() - 1 {
                assert(s.drop_last()[i] == s[i]);
            }
        }
    }
}

/// Concatenation of string sequences concatenates the views.
pub proof fn lemma_view_str_seq_concat(a: Seq<String>, b: Seq<String>)
    ensures
        view_str_seq(a + b) == view_str_seq(a) + view_str_seq(b),
    decreases b.len(),
{
    if b.len() == 0 {
        assert(a + b =~= a);
        assert(view_str_seq(a) + view_str_seq(b) =~= view_str_seq(a));
    } else {
        lemma_view_str_seq_concat(a, b.drop_last());
        assert((a + b).drop_last() =~= a + b.drop_last());
        assert((a + b).last() == b.last());
        assert(view_str_seq(a) + view_str_seq(b) =~= (view_str_seq(a) + view_str_seq(
            b.drop_last(),
        )).push(b.last()@));
    }
}

/// Pushing onto a string sequence pushes the view.
pub proof fn lemma_view_str_seq_push(s: Seq<String>, t: String)
    ensures
        view_str_seq(s.push(t)) == view_str_seq(s).push(t@),
{
    assert(s.push(t).drop_last() =~= s);
    assert(s.push(t).last() == t);
}

/// The character-sequence pairs of a string-pair sequence.
pub open spec fn view_pair_seq(s: Seq<(String, String)>) -> Seq<(Seq<char>, Seq<char>)>
    decreases s.len(),
{
    if s.len() == 0 {
        Seq::empty()
    } else {
        view_pair_seq(s.drop_last()).push((s.last().0@, s.last().1@))
    }
}

/// The view of a string-pair sequence has the pair views pointwise.
pub proof fn lemma_view_pair_seq(s: Seq<(String, String)>)
    ensures
        view_pair_seq(s).len() == s.len(),
        forall|i: int| 0 <= i < s.len() ==> view_pair_seq(s)[i] == ((#[trigger] s[i]).0@, s[i].1@),
    decreases s.len(),
{
    if s.len() > 0 {
        lemma_view_pair_seq(s.drop_last());
        assert forall|i: int| 0 <= i < s.len() implies view_pair_seq(s)[i] == ((
        #[trigger] s[i]).0@, s[i].1@) by {
            if i < s.len() - 1 {
                assert(s.drop_last()[i] == s[i]);
            }
        }
    }
}

/// Pushing onto a string-pair sequence pushes the view.
pub proof fn lemma_view_pair_seq_push(s: Seq<(String, String)>, t: (String, String))
    ensures
        view_pair_seq(s.push(t)) == view_pair_seq(s).push((t.0@, t.1@)),
{
    assert(s.push(t).drop_last() =~= s);
    assert(s.push(t).last() == t);
}

/// Concatenation of string-pair sequences concatenates the views.
pub proof fn lemma_view_pair_seq_concat(a: Seq<(String, String)>, b: Seq<(String, String)>)
    ensures
        view_pair_seq(a + b) == view_pair_seq(a) + view_pair_seq(b),
    decreases b.len(),
{
    if b.len() == 0 {
        assert(a + b =~= a);
        assert(view_pair_seq(a) + view_pair_seq(b) =~= view_pair_seq(a));
    } else {
        lemma_view_pair_seq_concat(a, b.drop_last());
        assert((a + b).drop_last() =~= a + b.drop_last());
        assert((a + b).last() == b.last());
        assert(view_pair_seq(a) + view_pair_seq(b) =~= (view_pair_seq(a) + view_pair_seq(
            b.drop_last(),
        )).push((b.last().0@, b.last().1@)));
    }
}

/// The character sequences of a sequence of character vectors.
pub open spec fn view_chars_seq(s: Seq<Vec<char>>) -> Seq<Seq<char>>
    decreases s.len(),
{
    if s.len() == 0 {
        Seq::empty()
    } else {
        view_chars_seq(s.drop_last()).push(s.last()@)
    }
}

/// The view of a vector-of-chars sequence has the views pointwise.
pub proof fn lemma_view_chars_seq(s: Seq<Vec<char>>)
    ensures
        view_chars_seq(s).len() == s.len(),
        forall|i: int| 0 <= i < s.len() ==> view_chars_seq(s)[i] == (#[trigger] s[i])@,
    decreases s.len(),
{
    if s.len() > 0 {
        lemma_view_chars_seq(s.drop_last());
        assert forall|i: int| 0 <= i < s.len() implies view_chars_seq(s)[i] == (
        #[trigger] s[i])@ by {
            if i < s.len() - 1 {
                assert(s.drop_last()[i] == s[i]);
            }
        }
    }
}

/// Pushing onto a vector-of-chars sequence pushes the view.
pub proof fn lemma_view_chars_seq_push(s: Seq<Vec<char>>, t: Vec<char>)
    ensures
        view_chars_seq(s.push(t)) == view_chars_seq(s).push(t@),
{
    assert(s.push(t).drop_last() =~= s);
    assert(s.push(t).last() == t);
}

} // verus!
