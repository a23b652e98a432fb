//! Splitting path text into `/`-separated segments.
//!
//! Both pattern parsing and request matching view a path as the sequence of
//! segments between slashes.  `split_slash` is the mathematical definition;
//! `split_str` is the executable splitter proved against it.

use vstd::prelude::*;
use vstd::utf8::is_ascii_chars;

verus! {

/// The segments of `s` separated by `'/'`.  Splitting the empty sequence
/// yields one empty segment, and every `'/'` separates two (possibly empty)
/// segments, so the result always holds `(number of slashes) + 1` segments.
pub open spec fn split_slash(s: Seq<char>) -> Seq<Seq<char>>
    decreases s.len(),
{
    if s.len() == 0 {
        seq![Seq::<char>::empty()]
    } else if s[0] == '/' {
        seq![Seq::<char>::empty()] + split_slash(s.skip(1))
    } else {
        let r = split_slash(s.skip(1));
        seq![seq![s[0]] + r[0]] + r.skip(1)
    }
}

pub proof fn lemma_split_len(s: Seq<char>)
    ensures
        split_slash(s).len() >= 1,
    decreases s.len(),
{
    if s.len() == 0 {
    } else {
        lemma_split_len(s.skip(1));
    }
}

/// A sequence without slashes is one single segment.
pub proof fn lemma_split_noslash(s: Seq<char>)
    requires
        forall|i: int| 0 <= i < s.len() ==> s[i] != '/',
    ensures
        split_slash(s) == seq![s],
    decreases s.len(),
{
    if s.len() == 0 {
        assert(split_slash(s) =~~= seq![s]);
    } else {
        lemma_split_noslash(s.skip(1));
        lemma_split_len(s.skip(1));
        assert(seq![s[0]] + s.skip(1) =~= s);
        assert(split_slash(s) =~~= seq![s]);
    }
}

/// Splitting distributes over a slash between two halves.
pub proof fn lemma_split_concat(a: Seq<char>, b: Seq<char>)
    ensures
        split_slash(a + seq!['/'] + b) == split_slash(a) + split_slash(b),
    decreases a.len(),
{
    let s = a + seq!['/'] + b;
    lemma_split_len(b);
    if a.len() == 0 {
        assert(s[0] == '/');
        assert(s.skip(1) =~= b);
        assert(split_slash(s) =~= split_slash(a) + split_slash(b));
    } else {
        lemma_split_concat(a.skip(1), b);
        lemma_split_len(a.skip(1));
        assert(s.skip(1) =~= a.skip(1) + seq!['/'] + b);
        if a[0] == '/' {
            assert(split_slash(a) == seq![Seq::<char>::empty()] + split_slash(a.skip(1)));
            assert(split_slash(s) =~= split_slash(a) + split_slash(b));
        } else {
            let r = split_slash(s.skip(1));
            let ra = split_slash(a.skip(1));
            assert(r == ra + split_slash(b));
            assert(r[0] == ra[0]);
            assert(r.skip(1) =~= ra.skip(1) + split_slash(b));
            assert(split_slash(s) =~= split_slash(a) + split_slash(b));
        }
    }
}

/// When the first slash of `s` stands at `d`, the first segment is
/// everything before it.
pub proof fn lemma_split_first(s: Seq<char>, d: int)
    requires
        0 <= d < s.len(),
        s[d] == '/',
        forall|i: int| 0 <= i < d ==> s[i] != '/',
    ensures
        split_slash(s) == seq![s.take(d)] + split_slash(s.skip(d + 1)),
{
    assert(s =~= s.take(d) + seq!['/'] + s.skip(d + 1));
    lemma_split_concat(s.take(d), s.skip(d + 1));
    lemma_split_noslash(s.take(d));
}

/// Whether two pieces of text hold the same characters.
pub fn str_eq(a: &str, b: &str) -> (r: bool)
    ensures
        r == (a@ == b@),
{
    let n = a.unicode_len();
    let m = b.unicode_len();
    if n != m {
        return false;
    }
    let mut i: usize = 0;
    while i < n
        invariant
            n == a@.len(),
            n == b@.len(),
            i <= n,
            forall|j: int| 0 <= j < i ==> a@[j] == b@[j],
        decreases n - i,
    {
        if a.get_char(i) != b.get_char(i) {
            return false;
        }
        i = i + 1;
    }
    proof {
        assert(a@ =~= b@);
    }
    true
}

/// The character views of a vector of strings.
pub open spec fn seg_views(v: Seq<String>) -> Seq<Seq<char>> {
    v.map_values(|t: String| t@)
}

/// Splits `s[from..to]` into its `/`-separated segments.
pub fn split_str(s: &str, from: usize, to: usize) -> (r: Vec<String>)
    requires
        s.is_ascii(),
        from <= to <= s@.len(),
    ensures
        seg_views(r@) == split_slash(s@.subrange(from as int, to as int)),
        forall|k: int| 0 <= k < r@.len() ==> is_ascii_chars(#[trigger] r@[k]@),
{
    let ghost whole = s@.subrange(from as int, to as int);
    let mut out: Vec<String> = Vec::new();
    let mut seg_start: usize = from;
    let mut i: usize = from;
    while i < to
        invariant
            s.is_ascii(),
            from <= seg_start <= i <= to <= s@.len(),
            whole == s@.subrange(from as int, to as int),
            forall|j: int| seg_start <= j < i ==> s@[j] != '/',
            split_slash(whole) == seg_views(out@) + split_slash(
                s@.subrange(seg_start as int, to as int),
            ),
            forall|k: int| 0 <= k < out@.len() ==> is_ascii_chars(#[trigger] out@[k]@),
        decreases to - i,
    {
        let c = s.get_char(i);
        if c == '/' {
            let piece = s.substring_ascii(seg_start, i).to_owned();
            proof {
                let rest = s@.subrange(seg_start as int, to as int);
                let d = i - seg_start;
                assert(rest[d] == '/');
                assert(forall|j: int| 0 <= j < d ==> rest[j] != '/');
                lemma_split_first(rest, d);
                assert(rest.take(d) =~= s@.subrange(seg_start as int, i as int));
                assert(rest.skip(d + 1) =~= s@.subrange(i + 1, to as int));
            }
            out.push(piece);
            proof {
                assert(seg_views(out@) =~= seg_views(out@.take(out@.len() - 1)) + seq![
                    out@.last()@,
                ]);
                assert(split_slash(whole) == seg_views(out@) + split_slash(
                    s@.subrange(i + 1, to as int),
                ));
            }
            seg_start = i + 1;
        }
        i = i + 1;
    }
    let piece = s.substring_ascii(seg_start, to).to_owned();
    proof {
        let rest = s@.subrange(seg_start as int, to as int);
        lemma_split_noslash(rest);
    }
    out.push(piece);
    proof {
        assert(seg_views(out@) =~= seg_views(out@.take(out@.len() - 1)) + seq![out@.last()@]);
        assert(seg_views(out@) =~= split_slash(whole));
    }
    out
}

} // verus!
