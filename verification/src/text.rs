//! Verified helpers over character sequences.
//!
//! The preprocessor and lexer work on `Vec<char>` so that every text
//! operation they rely on is specified over `Seq<char>`.

use vstd::prelude::*;

verus! {

broadcast use vstd::string::axiom_spec_iter;

/// Collects the characters of a string slice into a vector.
pub fn chars_vec(s: &str) -> (v: Vec<char>)
    ensures
        v@ == s@,
{
    let mut v: Vec<char> = Vec::new();
    for c in it: s.chars()
        invariant
            v@ == it.seq().take(it.index()),
    {
        v.push(c);
    }
    proof {
        assert(v@ =~= s@);
    }
    v
}

/// The first position at or after `from` holding character `c`, if any.
pub open spec fn spec_find(s: Seq<char>, c: char, from: int) -> Option<int>
    decreases s.len() - from,
{
    if from < 0 || from >= s.len() {
        None
    } else if s[from] == c {
        Some(from)
    } else {
        spec_find(s, c, from + 1)
    }
}

/// Where `spec_find` points: at an occurrence of `c`, behind no earlier one.
pub proof fn lemma_spec_find_props(s: Seq<char>, c: char, from: int)
    requires
        0 <= from,
    ensures
        match spec_find(s, c, from) {
            Some(i) => from <= i < s.len() && s[i] == c && (forall|j: int|
                from <= j < i ==> s[j] != c),
            None => forall|j: int| from <= j < s.len() ==> s[j] != c,
        },
    decreases s.len() - from,
{
    if 0 <= from < s.len() && s[from] != c {
        lemma_spec_find_props(s, c, from + 1);
    }
}

/// Finds the first occurrence of `c` in `s` at or after `from`.
pub(crate) fn find_from(s: &Vec<char>, c: char, from: usize) -> (r: Option<usize>)
    ensures
        match r {
            Some(i) => spec_find(s@, c, from as int) == Some(i as int),
            None => spec_find(s@, c, from as int) is None,
        },
{
    let n = s.len();
    let mut i: usize = from;
    while i < n
        invariant
            from <= i,
            n == s@.len(),
            spec_find(s@, c, i as int) == spec_find(s@, c, from as int),
        decreases n - i,
    {
        if s[i] == c {
            return Some(i);
        }
        i = i + 1;
    }
    None
}

/// True when `pat` occurs in `s` starting exactly at position `at`.
pub open spec fn spec_match_at(s: Seq<char>, pat: Seq<char>, at: int) -> bool {
    0 <= at && at + pat.len() <= s.len() && s.subrange(at, at + pat.len() as int) == pat
}

/// Compares `pat` against `s` at position `at`.
pub(crate) fn eq_at(s: &Vec<char>, pat: &Vec<char>, at: usize) -> (b: bool)
    requires
        at <= s@.len(),
        pat@.len() <= s@.len() - at,
    ensures
        b == spec_match_at(s@, pat@, at as int),
{
    let n = s.len();
    let m = pat.len();
    let mut j: usize = 0;
    while j < m
        invariant
            j <= m,
            n == s@.len(),
            m == pat@.len(),
            at + m <= n,
            forall|l: int| 0 <= l < j ==> s@[at + l] == pat@[l],
        decreases m - j,
    {
        if s[at + j] != pat[j] {
            proof {
                assert(s@.subrange(at as int, at + m as int)[j as int] == s@[at + j]);
            }
            return false;
        }
        j = j + 1;
    }
    proof {
        assert(s@.subrange(at as int, at + m as int) =~= pat@);
    }
    true
}

/// The first position at or after `from` where `pat` occurs in `s`, if any.
pub open spec fn spec_find_sub(s: Seq<char>, pat: Seq<char>, from: int) -> Option<int>
    decreases s.len() - from + 1,
{
    if from < 0 || from + pat.len() > s.len() {
        None
    } else if spec_match_at(s, pat, from) {
        Some(from)
    } else {
        spec_find_sub(s, pat, from + 1)
    }
}

/// True when `pat` occurs anywhere in `s`.
pub open spec fn spec_has_sub(s: Seq<char>, pat: Seq<char>) -> bool {
    spec_find_sub(s, pat, 0) is Some
}

/// Reports whether `pat` occurs anywhere in `s`.
pub(crate) fn has_sub(s: &Vec<char>, pat: &Vec<char>) -> (b: bool)
    ensures
        b == spec_has_sub(s@, pat@),
{
    let n = s.len();
    let m = pat.len();
    if m > n {
        return false;
    }
    if m == 0 {
        proof {
            assert(s@.subrange(0, 0) =~= pat@);
            assert(spec_match_at(s@, pat@, 0));
        }
        return true;
    }
    let mut i: usize = 0;
    while i <= n - m
        invariant
            1 <= m <= n,
            n == s@.len(),
            m == pat@.len(),
            i <= n - m + 1,
            spec_find_sub(s@, pat@, i as int) == spec_find_sub(s@, pat@, 0),
        decreases n - i,
    {
        if eq_at(s, pat, i) {
            return true;
        }
        i = i + 1;
    }
    false
}

/// Leftmost, non-overlapping textual replacement: scanning left to right,
/// each occurrence of `pat` becomes `rep`, and inserted text is never
/// rescanned. An empty `pat` changes nothing.
pub open spec fn spec_replace(s: Seq<char>, pat: Seq<char>, rep: Seq<char>) -> Seq<char>
    decreases s.len(),
{
    if pat.len() == 0 || s.len() == 0 {
        s
    } else if spec_match_at(s, pat, 0) {
        rep + spec_replace(s.skip(pat.len() as int), pat, rep)
    } else {
        seq![s[0]] + spec_replace(s.skip(1), pat, rep)
    }
}

/// Copies `s[a..b]` into a fresh vector.
pub(crate) fn copy_range(s: &Vec<char>, a: usize, b: usize) -> (r: Vec<char>)
    requires
        a <= b <= s@.len(),
    ensures
        r@ == s@.subrange(a as int, b as int),
{
    let mut r: Vec<char> = Vec::new();
    let mut i: usize = a;
    while i < b
        invariant
            a <= i <= b <= s@.len(),
            r@ == s@.subrange(a as int, i as int),
        decreases b - i,
    {
        r.push(s[i]);
        proof {
            assert(s@.subrange(a as int, i + 1 as int) =~= s@.subrange(a as int, i as int).push(
                s@[i as int],
            ));
        }
        i = i + 1;
    }
    r
}

/// Appends all of `src` onto `dst`.
pub(crate) fn extend_chars(dst: &mut Vec<char>, src: &Vec<char>)
    ensures
        final(dst)@ == old(dst)@ + src@,
{
    let n = src.len();
    let mut j: usize = 0;
    while j < n
        invariant
            j <= n,
            n == src@.len(),
            dst@ == old(dst)@ + src@.take(j as int),
        decreases n - j,
    {
        dst.push(src[j]);
        proof {
            assert(old(dst)@ + src@.take(j + 1 as int) =~= (old(dst)@ + src@.take(j as int)).push(
                src@[j as int],
            ));
        }
        j = j + 1;
    }
    proof {
        assert(src@.take(n as int) =~= src@);
    }
}

/// Replaces every occurrence of `pat` in `s` by `rep`, leftmost first,
/// without rescanning replaced text.
pub(crate) fn replace_all(s: &Vec<char>, pat: &Vec<char>, rep: &Vec<char>) -> (r: Vec<char>)
    ensures
        r@ == spec_replace(s@, pat@, rep@),
{
    let n = s.len();
    let m = pat.len();
    if m == 0 {
        let r = copy_range(s, 0, n);
        proof {
            assert(s@.subrange(0, n as int) =~= s@);
        }
        return r;
    }
    let mut out: Vec<char> = Vec::new();
    let mut i: usize = 0;
    proof {
        assert(s@.skip(0) =~= s@);
        assert(Seq::<char>::empty() + spec_replace(s@, pat@, rep@) =~= spec_replace(
            s@,
            pat@,
            rep@,
        ));
    }
    while i < n
        invariant
            i <= n,
            n == s@.len(),
            m == pat@.len(),
            m >= 1,
            spec_replace(s@, pat@, rep@) == out@ + spec_replace(s@.skip(i as int), pat@, rep@),
        decreases n - i,
    {
        let ghost tail = s@.skip(i as int);
        let matched = if m <= n - i {
            eq_at(s, pat, i)
        } else {
            false
        };
        if matched {
            let ghost out_pre = out@;
            extend_chars(&mut out, rep);
            proof {
                assert(tail.subrange(0, m as int) =~= s@.subrange(i as int, i + m as int));
                assert(spec_match_at(tail, pat@, 0));
                assert(tail.skip(m as int) =~= s@.skip(i + m as int));
                assert(spec_replace(tail, pat@, rep@) == rep@ + spec_replace(
                    s@.skip(i + m as int),
                    pat@,
                    rep@,
                ));
                assert(out_pre + (rep@ + spec_replace(s@.skip(i + m as int), pat@, rep@)) =~= (
                out_pre + rep@) + spec_replace(s@.skip(i + m as int), pat@, rep@));
            }
            i = i + m;
        } else {
            let ghost out_pre = out@;
            out.push(s[i]);
            proof {
                if m <= n - i {
                    assert(!spec_match_at(s@, pat@, i as int));
                    if spec_match_at(tail, pat@, 0) {
                        assert(tail.subrange(0, m as int) =~= s@.subrange(i as int, i + m as int));
                    }
                } else {
                    assert(!spec_match_at(tail, pat@, 0));
                }
                assert(tail[0] == s@[i as int]);
                assert(tail.skip(1) =~= s@.skip(i + 1 as int));
                assert(spec_replace(tail, pat@, rep@) == seq![s@[i as int]] + spec_replace(
                    s@.skip(i + 1 as int),
                    pat@,
                    rep@,
                ));
                assert(out_pre + (seq![s@[i as int]] + spec_replace(
                    s@.skip(i + 1 as int),
                    pat@,
                    rep@,
                )) =~= out_pre.push(s@[i as int]) + spec_replace(s@.skip(i + 1 as int), pat@, rep@));
            }
            i = i + 1;
        }
    }
    proof {
        assert(s@.skip(n as int) =~= Seq::<char>::empty());
        assert(out@ + Seq::<char>::empty() =~= out@);
    }
    out
}

/// The whitespace characters that separate name tokens: Unicode's
/// white-space set.
pub open spec fn spec_is_ws(c: char) -> bool {
    ||| c == '\u{9}'
    ||| c == '\u{A}'
    ||| c == '\u{B}'
    ||| c == '\u{C}'
    ||| c == '\u{D}'
    ||| c == ' '
    ||| c == '\u{85}'
    ||| c == '\u{A0}'
    ||| c == '\u{1680}'
    ||| c == '\u{2000}'
    ||| c == '\u{2001}'
    ||| c == '\u{2002}'
    ||| c == '\u{2003}'
    ||| c == '\u{2004}'
    ||| c == '\u{2005}'
    ||| c == '\u{2006}'
    ||| c == '\u{2007}'
    ||| c == '\u{2008}'
    ||| c == '\u{2009}'
    ||| c == '\u{200A}'
    ||| c == '\u{2028}'
    ||| c == '\u{2029}'
    ||| c == '\u{202F}'
    ||| c == '\u{205F}'
    ||| c == '\u{3000}'
}

/// Reports whether `c` is a whitespace character.
pub(crate) fn is_ws(c: char) -> (b: bool)
    ensures
        b == spec_is_ws(c),
{
    c == '\u{9}' || c == '\u{A}' || c == '\u{B}' || c == '\u{C}' || c == '\u{D}' || c == ' '
        || c == '\u{85}' || c == '\u{A0}' || c == '\u{1680}' || c == '\u{2000}' || c == '\u{2001}'
        || c == '\u{2002}' || c == '\u{2003}' || c == '\u{2004}' || c == '\u{2005}' || c
        == '\u{2006}' || c == '\u{2007}' || c == '\u{2008}' || c == '\u{2009}' || c == '\u{200A}'
        || c == '\u{2028}' || c == '\u{2029}' || c == '\u{202F}' || c == '\u{205F}' || c
        == '\u{3000}'
}

/// The maximal run of non-whitespace characters at `s`'s end.
pub open spec fn spec_nonws_suffix(s: Seq<char>) -> Seq<char>
    decreases s.len(),
{
    if s.len() == 0 || spec_is_ws(s.last()) {
        Seq::empty()
    } else {
        spec_nonws_suffix(s.drop_last()).push(s.last())
    }
}

/// The last whitespace-delimited token of `s`; empty when `s` holds only
/// whitespace.
pub open spec fn spec_last_token(s: Seq<char>) -> Seq<char>
    decreases s.len(),
{
    if s.len() == 0 {
        Seq::empty()
    } else if spec_is_ws(s.last()) {
        spec_last_token(s.drop_last())
    } else {
        spec_nonws_suffix(s)
    }
}

/// Extracts the last whitespace-delimited token of `s` (empty when there is
/// none).
pub(crate) fn last_token(s: &Vec<char>) -> (r: Vec<char>)
    ensures
        r@ == spec_last_token(s@),
{
    let n = s.len();
    let mut e: usize = n;
    proof {
        assert(s@.take(n as int) =~= s@);
    }
    while e > 0 && is_ws(s[e - 1])
        invariant
            e <= n,
            n == s@.len(),
            spec_last_token(s@.take(e as int)) == spec_last_token(s@),
        decreases e,
    {
        proof {
            assert(s@.take(e as int).drop_last() =~= s@.take(e - 1 as int));
            assert(s@.take(e as int).last() == s@[e - 1]);
        }
        e = e - 1;
    }
    proof {
        assert(s@.take(n as int) =~= s@);
    }
    if e == 0 {
        return Vec::new();
    }
    let mut b: usize = e;
    while b > 0 && !is_ws(s[b - 1])
        invariant
            b <= e <= n,
            n == s@.len(),
            spec_nonws_suffix(s@.take(b as int)) + s@.subrange(b as int, e as int)
                == spec_nonws_suffix(s@.take(e as int)),
        decreases b,
    {
        proof {
            assert(s@.take(b as int).drop_last() =~= s@.take(b - 1 as int));
            assert(s@.take(b as int).last() == s@[b - 1]);
            assert(spec_nonws_suffix(s@.take(b - 1 as int)) + s@.subrange(b - 1 as int, e as int)
                =~= spec_nonws_suffix(s@.take(b - 1 as int)).push(s@[b - 1]) + s@.subrange(
                b as int,
                e as int,
            ));
        }
        b = b - 1;
    }
    proof {
        if b > 0 {
            assert(s@.take(b as int).last() == s@[b - 1]);
        }
        assert(spec_nonws_suffix(s@.take(b as int)) =~= Seq::<char>::empty());
        assert(Seq::<char>::empty() + s@.subrange(b as int, e as int) =~= s@.subrange(
            b as int,
            e as int,
        ));
        assert(!spec_is_ws(s@.take(e as int).last()));
        assert(spec_last_token(s@.take(e as int)) == spec_nonws_suffix(s@.take(e as int)));
    }
    copy_range(s, b, e)
}

/// Compares two character vectors.
pub(crate) fn chars_eq(a: &Vec<char>, b: &Vec<char>) -> (r: bool)
    ensures
        r == (a@ == b@),
{
    let n = a.len();
    if n != b.len() {
        return false;
    }
    let mut j: usize = 0;
    while j < n
        invariant
            j <= n,
            n == a@.len(),
            n == b@.len(),
            forall|l: int| 0 <= l < j ==> a@[l] == b@[l],
        decreases n - j,
    {
        if a[j] != b[j] {
            return false;
        }
        j = j + 1;
    }
    proof {
        assert(a@ =~= b@);
    }
    true
}

} // verus!
