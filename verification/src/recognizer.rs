//! The path recognizer: an index from URI patterns to endpoints.
//!
//! Each registered pattern is kept as a list of pattern segments — static
//! text, a one-segment parameter, or a trailing catch-all.  A request path
//! is split into its segments and matched against every pattern; of the
//! patterns that match, the most specific wins, where at the first
//! differing position a static segment beats a parameter and a parameter
//! beats a catch-all.  This ordering is deterministic and independent of
//! insertion order.

use vstd::prelude::*;
use vstd::utf8::is_ascii_chars;
use crate::method::Method;
use crate::segments::{seg_views, split_slash, split_str};
use crate::uri::{
    core_segs, seg_is_marker, seg_is_valid, seg_is_wild, seg_names, spec_parse, Uri, UriError,
};

verus! {

/// One segment of a registered pattern.
pub enum PatSeg {
    /// Matches exactly this text.
    Static(String),
    /// Matches any one non-empty segment.
    Param,
    /// Matches the whole remainder of the path, slashes included.
    CatchAll,
}

/// The mathematical form of a pattern segment.
pub enum PatSegV {
    Static(Seq<char>),
    Param,
    CatchAll,
}

impl View for PatSeg {
    type V = PatSegV;

    open spec fn view(&self) -> PatSegV {
        match self {
            PatSeg::Static(t) => PatSegV::Static(t@),
            PatSeg::Param => PatSegV::Param,
            PatSeg::CatchAll => PatSegV::CatchAll,
        }
    }
}

/// The views of a vector of pattern segments.
pub open spec fn pat_views(v: Seq<PatSeg>) -> Seq<PatSegV> {
    v.map_values(|p: PatSeg| p@)
}

/// The pattern segment that one text segment declares.
pub open spec fn pat_of_seg(seg: Seq<char>) -> PatSegV {
    if seg.len() > 0 && seg[0] == ':' {
        PatSegV::Param
    } else if seg.len() > 0 && seg[0] == '*' {
        PatSegV::CatchAll
    } else {
        PatSegV::Static(seg)
    }
}

/// The pattern segments declared by accepted pattern text.  A trailing
/// slash declares one final empty static segment.
pub open spec fn pat_segs_of(text: Seq<char>) -> Seq<PatSegV> {
    let mapped = core_segs(text).map_values(|s: Seq<char>| pat_of_seg(s));
    if text.len() > 1 && text.last() == '/' {
        mapped.push(PatSegV::Static(Seq::empty()))
    } else {
        mapped
    }
}

/// A pattern-segment list is usable when it is non-empty and only its
/// last segment may be a catch-all.
pub open spec fn valid_pat(ps: Seq<PatSegV>) -> bool {
    &&& ps.len() >= 1
    &&& forall|i: int| 0 <= i < ps.len() - 1 ==> !((#[trigger] ps[i]) is CatchAll)
}

/// The segments of a request path.
pub open spec fn path_segs(p: Seq<char>) -> Seq<Seq<char>> {
    split_slash(p.skip(1))
}

/// Whether one pattern segment accepts one path segment.
pub open spec fn one_match(ps: PatSegV, s: Seq<char>) -> bool {
    match ps {
        PatSegV::Static(t) => s == t,
        PatSegV::Param => s.len() > 0,
        PatSegV::CatchAll => true,
    }
}

/// Whether a pattern accepts a path, given as segment lists.  Without a
/// catch-all the lists pair up exactly; a final catch-all accepts every
/// longer path as well, consuming the remainder.
pub open spec fn pat_matches(ps: Seq<PatSegV>, ss: Seq<Seq<char>>) -> bool {
    if ps.len() > 0 && ps.last() is CatchAll {
        ss.len() >= ps.len() && forall|i: int| 0 <= i < ps.len() - 1 ==> one_match(
            #[trigger] ps[i],
            ss[i],
        )
    } else {
        ss.len() == ps.len() && forall|i: int| 0 <= i < ps.len() ==> one_match(
            #[trigger] ps[i],
            ss[i],
        )
    }
}

/// Path segments joined back with slashes: what a catch-all captures.
pub open spec fn join_slash(ss: Seq<Seq<char>>) -> Seq<char>
    decreases ss.len(),
{
    if ss.len() == 0 {
        Seq::empty()
    } else if ss.len() == 1 {
        ss[0]
    } else {
        ss[0] + seq!['/'] + join_slash(ss.skip(1))
    }
}

/// The values captured when a pattern accepts a path, in declaration
/// order of the pattern's parameters; a catch-all captures the joined
/// remainder and is always last.
pub open spec fn captures_of(ps: Seq<PatSegV>, ss: Seq<Seq<char>>) -> Seq<Seq<char>>
    decreases ps.len(),
{
    if ps.len() == 0 {
        Seq::empty()
    } else if ps[0] is CatchAll {
        seq![join_slash(ss)]
    } else {
        (match ps[0] {
            PatSegV::Param => seq![ss[0]],
            _ => Seq::<Seq<char>>::empty(),
        }) + captures_of(ps.skip(1), ss.skip(1))
    }
}

/// The specificity rank of a pattern segment: lower is more specific.
pub open spec fn seg_rank(ps: PatSegV) -> int {
    match ps {
        PatSegV::Static(_) => 0,
        PatSegV::Param => 1,
        PatSegV::CatchAll => 2,
    }
}

/// Whether pattern `a` is strictly more specific than pattern `b`: at the
/// first position where their segment kinds differ, `a`'s kind is the
/// more specific one.
pub open spec fn rank_lt(a: Seq<PatSegV>, b: Seq<PatSegV>) -> bool
    decreases a.len(),
{
    if a.len() == 0 || b.len() == 0 {
        false
    } else if seg_rank(a[0]) < seg_rank(b[0]) {
        true
    } else if seg_rank(a[0]) > seg_rank(b[0]) {
        false
    } else {
        rank_lt(a.skip(1), b.skip(1))
    }
}

/// A matching pattern keeps matching after its first non-catch-all
/// segment is peeled off together with the path's first segment.
proof fn lemma_matches_skip(ps: Seq<PatSegV>, ss: Seq<Seq<char>>)
    requires
        pat_matches(ps, ss),
        ps.len() >= 1,
        !(ps[0] is CatchAll),
    ensures
        pat_matches(ps.skip(1), ss.skip(1)),
{
    let pt = ps.skip(1);
    let st = ss.skip(1);
    if ps.len() > 0 && ps.last() is CatchAll {
        assert(ps.len() >= 2);
        assert(pt.last() == ps.last());
        assert(pt.len() > 0 && pt.last() is CatchAll);
        assert(st.len() >= pt.len());
        assert forall|i: int| 0 <= i < pt.len() - 1 implies one_match(#[trigger] pt[i], st[i]) by {
            assert(pt[i] == ps[i + 1]);
            assert(st[i] == ss[i + 1]);
            assert(one_match(ps[i + 1], ss[i + 1]));
        }
    } else {
        if pt.len() > 0 && pt.last() is CatchAll {
            assert(pt.last() == ps.last());
            assert(false);
        }
        assert(st.len() == pt.len());
        assert forall|i: int| 0 <= i < pt.len() implies one_match(#[trigger] pt[i], st[i]) by {
            assert(pt[i] == ps[i + 1]);
            assert(st[i] == ss[i + 1]);
            assert(one_match(ps[i + 1], ss[i + 1]));
        }
    }
}

/// Of two different usable patterns matching one path, exactly one is the
/// more specific: the specificity order decides every tie.
pub proof fn lemma_rank_total(a: Seq<PatSegV>, b: Seq<PatSegV>, ss: Seq<Seq<char>>)
    requires
        valid_pat(a),
        valid_pat(b),
        pat_matches(a, ss),
        pat_matches(b, ss),
        a != b,
    ensures
        rank_lt(a, b) <==> !rank_lt(b, a),
    decreases a.len(),
{
    assert(a.len() >= 1 && b.len() >= 1);
    assert(ss.len() >= 1);
    if seg_rank(a[0]) < seg_rank(b[0]) {
    } else if seg_rank(a[0]) > seg_rank(b[0]) {
    } else {
        if a[0] is CatchAll {
            assert(a.len() == 1 && b.len() == 1);
            assert(b[0] is CatchAll);
            assert(a =~= b);
        } else {
            if a[0] is Static {
                assert(one_match(a[0], ss[0]));
                assert(one_match(b[0], ss[0]));
                assert(a[0] == b[0]);
            } else {
                assert(a[0] is Param && b[0] is Param);
                assert(a[0] == b[0]);
            }
            let at = a.skip(1);
            let bt = b.skip(1);
            lemma_matches_skip(a, ss);
            lemma_matches_skip(b, ss);
            if at.len() == 0 {
                assert(pat_matches(at, ss.skip(1)));
                assert(ss.len() == 1);
                if bt.len() > 0 {
                    if bt.last() is CatchAll {
                        assert(ss.skip(1).len() >= bt.len());
                        assert(false);
                    } else {
                        assert(ss.skip(1).len() == bt.len());
                        assert(false);
                    }
                }
                assert(a =~= b);
            } else if bt.len() == 0 {
                assert(ss.len() == 1);
                if at.last() is CatchAll {
                    assert(ss.skip(1).len() >= at.len());
                    assert(false);
                } else {
                    assert(ss.skip(1).len() == at.len());
                    assert(false);
                }
            } else {
                assert(valid_pat(at)) by {
                    assert forall|i: int| 0 <= i < at.len() - 1 implies !((#[trigger] at[i])
                        is CatchAll) by {
                        assert(at[i] == a[i + 1]);
                    }
                }
                assert(valid_pat(bt)) by {
                    assert forall|i: int| 0 <= i < bt.len() - 1 implies !((#[trigger] bt[i])
                        is CatchAll) by {
                        assert(bt[i] == b[i + 1]);
                    }
                }
                if at == bt {
                    assert forall|i: int| 0 <= i < a.len() implies a[i] == b[i] by {
                        if i > 0 {
                            assert(at[i - 1] == bt[i - 1]);
                        }
                    }
                    assert(a =~= b);
                }
                lemma_rank_total(at, bt, ss.skip(1));
            }
        }
    }
}

/// Specificity is transitive.
proof fn lemma_rank_trans(a: Seq<PatSegV>, b: Seq<PatSegV>, c: Seq<PatSegV>)
    requires
        rank_lt(a, b),
        rank_lt(b, c),
    ensures
        rank_lt(a, c),
    decreases a.len(),
{
    if seg_rank(a[0]) == seg_rank(b[0]) && seg_rank(b[0]) == seg_rank(c[0]) {
        lemma_rank_trans(a.skip(1), b.skip(1), c.skip(1));
    }
}

fn seg_rank_exec(p: &PatSeg) -> (r: u8)
    ensures
        r as int == seg_rank(p@),
{
    match p {
        PatSeg::Static(_) => 0,
        PatSeg::Param => 1,
        PatSeg::CatchAll => 2,
    }
}

fn rank_lt_exec(a: &Vec<PatSeg>, b: &Vec<PatSeg>) -> (r: bool)
    ensures
        r == rank_lt(pat_views(a@), pat_views(b@)),
{
    let av = Ghost(pat_views(a@));
    let bv = Ghost(pat_views(b@));
    let mut i: usize = 0;
    proof {
        assert(av@.skip(0) =~= av@);
        assert(bv@.skip(0) =~= bv@);
    }
    while i < a.len() && i < b.len()
        invariant
            av@ == pat_views(a@),
            bv@ == pat_views(b@),
            i <= a.len() && i <= b.len(),
            av@.len() == a@.len() && bv@.len() == b@.len(),
            rank_lt(av@, bv@) == rank_lt(av@.skip(i as int), bv@.skip(i as int)),
        decreases a.len() - i,
    {
        let ra = seg_rank_exec(&a[i]);
        let rb = seg_rank_exec(&b[i]);
        proof {
            assert(av@.skip(i as int)[0] == av@[i as int]);
            assert(bv@.skip(i as int)[0] == bv@[i as int]);
        }
        if ra < rb {
            return true;
        }
        if ra > rb {
            return false;
        }
        proof {
            assert(av@.skip(i as int).skip(1) =~= av@.skip(i + 1));
            assert(bv@.skip(i as int).skip(1) =~= bv@.skip(i + 1));
        }
        i = i + 1;
    }
    proof {
        assert(av@.skip(i as int).len() == 0 || bv@.skip(i as int).len() == 0);
    }
    false
}

fn pat_seg_eq(a: &PatSeg, b: &PatSeg) -> (r: bool)
    ensures
        r == (a@ == b@),
{
    match (a, b) {
        (PatSeg::Static(x), PatSeg::Static(y)) => *x == *y,
        (PatSeg::Param, PatSeg::Param) => true,
        (PatSeg::CatchAll, PatSeg::CatchAll) => true,
        _ => false,
    }
}

fn pats_equal(a: &Vec<PatSeg>, b: &Vec<PatSeg>) -> (r: bool)
    ensures
        r == (pat_views(a@) == pat_views(b@)),
{
    if a.len() != b.len() {
        proof {
            assert(pat_views(a@).len() != pat_views(b@).len());
        }
        return false;
    }
    let mut i: usize = 0;
    while i < a.len()
        invariant
            a@.len() == b@.len(),
            i <= a.len(),
            forall|j: int| 0 <= j < i ==> pat_views(a@)[j] == pat_views(b@)[j],
        decreases a.len() - i,
    {
        if !pat_seg_eq(&a[i], &b[i]) {
            proof {
                assert(pat_views(a@)[i as int] != pat_views(b@)[i as int]);
            }
            return false;
        }
        i = i + 1;
    }
    proof {
        assert(pat_views(a@) =~= pat_views(b@));
    }
    true
}

fn pat_match_exec(ps: &Vec<PatSeg>, ss: &Vec<String>) -> (r: bool)
    ensures
        r == pat_matches(pat_views(ps@), seg_views(ss@)),
{
    let pv = Ghost(pat_views(ps@));
    let sv = Ghost(seg_views(ss@));
    let plen = ps.len();
    let slen = ss.len();
    let has_catch_all = if plen > 0 {
        match &ps[plen - 1] {
            PatSeg::CatchAll => true,
            _ => false,
        }
    } else {
        false
    };
    proof {
        assert(pv@.len() == plen && sv@.len() == slen);
        if plen > 0 {
            assert(pv@.last() == ps@[plen - 1]@);
        }
    }
    let upto: usize = if has_catch_all {
        if slen < plen {
            return false;
        }
        plen - 1
    } else {
        if slen != plen {
            return false;
        }
        plen
    };
    let mut i: usize = 0;
    while i < upto
        invariant
            pv@ == pat_views(ps@),
            sv@ == seg_views(ss@),
            pv@.len() == ps@.len() && sv@.len() == ss@.len(),
            upto <= plen && plen == ps@.len() && slen == ss@.len(),
            upto <= slen,
            i <= upto,
            forall|j: int| 0 <= j < i ==> one_match(#[trigger] pv@[j], sv@[j]),
        decreases upto - i,
    {
        let ok = match &ps[i] {
            PatSeg::Static(t) => *t == ss[i],
            PatSeg::Param => ss[i].as_str().unicode_len() != 0,
            PatSeg::CatchAll => true,
        };
        proof {
            assert(pv@[i as int] == ps@[i as int]@);
            assert(sv@[i as int] == ss@[i as int]@);
        }
        if !ok {
            proof {
                assert(!one_match(pv@[i as int], sv@[i as int]));
            }
            return false;
        }
        i = i + 1;
    }
    true
}

fn join_from(ss: &Vec<String>, k: usize) -> (r: String)
    requires
        k < ss.len(),
    ensures
        r@ == join_slash(seg_views(ss@).skip(k as int)),
{
    let sv = Ghost(seg_views(ss@));
    let mut out = ss[k].clone();
    let mut i: usize = k + 1;
    proof {
        assert(sv@.subrange(k as int, k + 1) =~= seq![sv@[k as int]]);
        assert(join_slash(sv@.subrange(k as int, k + 1)) == sv@[k as int]);
    }
    while i < ss.len()
        invariant
            sv@ == seg_views(ss@),
            sv@.len() == ss@.len(),
            k < i <= ss@.len(),
            out@ == join_slash(sv@.subrange(k as int, i as int)),
        decreases ss.len() - i,
    {
        let ghost pre = sv@.subrange(k as int, i as int);
        out.append("/");
        out.append(ss[i].as_str());
        proof {
            reveal_strlit("/");
            lemma_join_slash_push(pre, sv@[i as int]);
            assert(sv@.subrange(k as int, i + 1) =~= pre.push(sv@[i as int]));
            assert(out@ == join_slash(sv@.subrange(k as int, i + 1)));
        }
        i = i + 1;
    }
    proof {
        assert(sv@.subrange(k as int, ss@.len() as int) =~= sv@.skip(k as int));
    }
    out
}

/// Joining one more segment appends a slash and the segment.
proof fn lemma_join_slash_push(x: Seq<Seq<char>>, e: Seq<char>)
    requires
        x.len() >= 1,
    ensures
        join_slash(x.push(e)) == join_slash(x) + seq!['/'] + e,
    decreases x.len(),
{
    if x.len() == 1 {
        assert(x.push(e)[0] == x[0]);
        assert(x.push(e).skip(1) =~= seq![e]);
        assert(join_slash(seq![e]) == e);
        assert(join_slash(x.push(e)) == x[0] + seq!['/'] + e);
    } else {
        lemma_join_slash_push(x.skip(1), e);
        assert(x.push(e).skip(1) =~= x.skip(1).push(e));
        assert(x.push(e)[0] == x[0]);
        assert(join_slash(x.push(e)) == x[0] + seq!['/'] + join_slash(x.skip(1).push(e)));
        assert(x[0] + seq!['/'] + (join_slash(x.skip(1)) + seq!['/'] + e) =~= (x[0] + seq!['/']
            + join_slash(x.skip(1))) + seq!['/'] + e);
    }
}

#[verifier::loop_isolation(false)]
fn captures_exec(ps: &Vec<PatSeg>, ss: &Vec<String>) -> (r: Vec<String>)
    requires
        valid_pat(pat_views(ps@)),
        pat_matches(pat_views(ps@), seg_views(ss@)),
    ensures
        seg_views(r@) == captures_of(pat_views(ps@), seg_views(ss@)),
{
    let pv = Ghost(pat_views(ps@));
    let sv = Ghost(seg_views(ss@));
    let mut out: Vec<String> = Vec::new();
    let mut k: usize = 0;
    proof {
        assert(seg_views(out@) =~= Seq::<Seq<char>>::empty());
        assert(pv@.skip(0) =~= pv@);
        assert(sv@.skip(0) =~= sv@);
    }
    while k < ps.len()
        invariant
            pv@ == pat_views(ps@),
            sv@ == seg_views(ss@),
            pv@.len() == ps@.len() && sv@.len() == ss@.len(),
            k <= ps@.len(),
            k <= ss@.len(),
            pat_matches(pv@.skip(k as int), sv@.skip(k as int)),
            captures_of(pv@, sv@) == seg_views(out@) + captures_of(
                pv@.skip(k as int),
                sv@.skip(k as int),
            ),
            forall|j: int| 0 <= j < k ==> !((#[trigger] pv@[j]) is CatchAll),
        decreases ps.len() - k,
    {
        let ghost pk = pv@.skip(k as int);
        let ghost sk = sv@.skip(k as int);
        proof {
            assert(pk[0] == pv@[k as int]);
            assert(pk.skip(1) =~= pv@.skip(k + 1));
            assert(sk.skip(1) =~= sv@.skip(k + 1));
        }
        match &ps[k] {
            PatSeg::Static(_) => {
                proof {
                    assert(pv@[k as int] == ps@[k as int]@);
                    lemma_matches_skip(pk, sk);
                    assert(captures_of(pk, sk) == captures_of(pv@.skip(k + 1), sv@.skip(k + 1)));
                }
            },
            PatSeg::Param => {
                proof {
                    assert(pv@[k as int] == ps@[k as int]@);
                    lemma_matches_skip(pk, sk);
                    if pk.len() > 0 && pk.last() is CatchAll {
                        assert(sk.len() >= pk.len());
                    } else {
                        assert(sk.len() == pk.len());
                    }
                    assert(sk[0] == sv@[k as int]);
                    assert(captures_of(pk, sk) == seq![sv@[k as int]] + captures_of(
                        pv@.skip(k + 1),
                        sv@.skip(k + 1),
                    ));
                }
                out.push(ss[k].clone());
                proof {
                    assert(seg_views(out@) =~= seg_views(out@.take(out@.len() - 1)) + seq![
                        sv@[k as int],
                    ]);
                }
            },
            PatSeg::CatchAll => {
                proof {
                    assert(pv@[k as int] == ps@[k as int]@);
                    assert(captures_of(pk, sk) == seq![join_slash(sk)]);
                    assert(pv@[k as int] is CatchAll);
                    if k < pv@.len() - 1 {
                        assert(!((pv@[k as int]) is CatchAll));
                    }
                    assert(k == pv@.len() - 1);
                    assert(pk.len() == 1);
                    assert(pk.last() == pk[0]);
                    assert(sk.len() >= 1);
                    assert(k < sv@.len());
                }
                let piece = join_from(ss, k);
                out.push(piece);
                proof {
                    assert(seg_views(out@) =~= seg_views(out@.take(out@.len() - 1)) + seq![
                        join_slash(sk),
                    ]);
                    assert(seg_views(out@) =~= captures_of(pv@, sv@));
                }
                return out;
            },
        }
        k = k + 1;
    }
    proof {
        assert(pv@.skip(ps@.len() as int).len() == 0);
        assert(captures_of(pv@.skip(ps@.len() as int), sv@.skip(ps@.len() as int))
            == Seq::<Seq<char>>::empty());
        assert(seg_views(out@) =~= captures_of(pv@, sv@));
    }
    out
}

/// How many values a pattern captures.
pub open spec fn count_params(ps: Seq<PatSegV>) -> nat
    decreases ps.len(),
{
    if ps.len() == 0 {
        0
    } else {
        (if ps[0] is Static {
            0nat
        } else {
            1nat
        }) + count_params(ps.skip(1))
    }
}

/// A matched pattern captures exactly one value per declared parameter.
pub proof fn lemma_captures_len(ps: Seq<PatSegV>, ss: Seq<Seq<char>>)
    requires
        valid_pat(ps),
        pat_matches(ps, ss),
    ensures
        captures_of(ps, ss).len() == count_params(ps),
    decreases ps.len(),
{
    if ps[0] is CatchAll {
        if ps.len() > 1 {
            assert(!((ps[0]) is CatchAll));
        }
        assert(ps.len() == 1);
        assert(ps.skip(1).len() == 0);
        assert(count_params(ps.skip(1)) == 0);
        assert(count_params(ps) == 1);
        assert(captures_of(ps, ss) == seq![join_slash(ss)]);
    } else {
        lemma_matches_skip(ps, ss);
        assert(captures_of(ps, ss) == (match ps[0] {
            PatSegV::Param => seq![ss[0]],
            _ => Seq::<Seq<char>>::empty(),
        }) + captures_of(ps.skip(1), ss.skip(1)));
        assert(count_params(ps) == (if ps[0] is Static {
            0nat
        } else {
            1nat
        }) + count_params(ps.skip(1)));
        if ps.len() == 1 {
            assert(ps.skip(1).len() == 0);
            assert(captures_of(ps.skip(1), ss.skip(1)).len() == 0);
            assert(count_params(ps.skip(1)) == 0);
        } else {
            assert(valid_pat(ps.skip(1))) by {
                assert forall|i: int| 0 <= i < ps.skip(1).len() - 1 implies !((#[trigger] ps.skip(
                    1,
                )[i]) is CatchAll) by {
                    assert(ps.skip(1)[i] == ps[i + 1]);
                }
            }
            lemma_captures_len(ps.skip(1), ss.skip(1));
        }
    }
}

/// The errors that can arise while registering scopes and routes.
#[derive(Clone, Copy, Debug, PartialEq, Eq, Structural)]
pub enum BuildError {
    /// The pattern text was rejected.
    Uri(UriError),
    /// The pattern cannot be told apart from an already registered one:
    /// the two have the same segment structure.
    ConflictingPattern,
    /// The method was already routed on this resource.
    DuplicateMethod,
    /// The resource already has a default (any-method) route.
    DuplicateDefaultRoute,
}

/// Application-wide recognition switches.
pub struct Config {
    /// Whether a `HEAD` request may fall back to the `GET` route.
    pub fallback_head: bool,
    /// Whether an `OPTIONS` request without an `OPTIONS` route is answered
    /// from the resource's method list instead of `MethodNotAllowed`.
    pub fallback_options: bool,
}

impl Default for Config {
    /// `HEAD` falls back to `GET`; fallback `OPTIONS` is off.
    fn default() -> (r: Self)
        ensures
            r.fallback_head,
            !r.fallback_options,
    {
        Config { fallback_head: true, fallback_options: false }
    }
}

/// The route registered for a method, by first occurrence.
pub open spec fn verb_lookup(verbs: Seq<(Method, usize)>, m: Method) -> Option<usize>
    decreases verbs.len(),
{
    if verbs.len() == 0 {
        None
    } else if verbs[0].0 == m {
        Some(verbs[0].1)
    } else {
        verb_lookup(verbs.skip(1), m)
    }
}

/// The `Allow` header value for a method list: the canonical names joined
/// with `", "` in registration order.
pub open spec fn allow_of(verbs: Seq<(Method, usize)>) -> Seq<char>
    decreases verbs.len(),
{
    if verbs.len() == 0 {
        Seq::empty()
    } else if verbs.len() == 1 {
        crate::method::spec_method_name(verbs[0].0)
    } else {
        crate::method::spec_method_name(verbs[0].0) + ", "@ + allow_of(verbs.skip(1))
    }
}

proof fn lemma_allow_push(verbs: Seq<(Method, usize)>, v: (Method, usize))
    requires
        verbs.len() >= 1,
    ensures
        allow_of(verbs.push(v)) == allow_of(verbs) + ", "@ + crate::method::spec_method_name(v.0),
    decreases verbs.len(),
{
    if verbs.len() == 1 {
        assert(verbs.push(v)[0] == verbs[0]);
        assert(verbs.push(v).skip(1) =~= seq![v]);
        assert(allow_of(seq![v]) == crate::method::spec_method_name(v.0));
    } else {
        lemma_allow_push(verbs.skip(1), v);
        assert(verbs.push(v).skip(1) =~= verbs.skip(1).push(v));
        assert(verbs.push(v)[0] == verbs[0]);
        let n0 = crate::method::spec_method_name(verbs[0].0);
        assert(n0 + ", "@ + (allow_of(verbs.skip(1)) + ", "@ + crate::method::spec_method_name(
            v.0,
        )) =~= (n0 + ", "@ + allow_of(verbs.skip(1))) + ", "@ + crate::method::spec_method_name(
            v.0,
        ));
    }
}

/// How a resource answers one request method.
pub enum Resolution {
    /// Dispatch to this route.
    Route(usize),
    /// Synthesize a fallback `OPTIONS` response from the method list.
    FallbackOptions,
    /// No route takes the method.
    NotAllowed,
}

/// What a resource resolves a method to: its own route for the method,
/// else the `GET` route for a `HEAD` request under the `HEAD` fallback,
/// else the default route, else the fallback-`OPTIONS` answer for an
/// `OPTIONS` request when enabled, else `NotAllowed`.
pub open spec fn spec_resolve(
    verbs: Seq<(Method, usize)>,
    default_route: Option<usize>,
    m: Method,
    config: Config,
) -> Resolution {
    if verb_lookup(verbs, m) is Some {
        Resolution::Route(verb_lookup(verbs, m).unwrap())
    } else if config.fallback_head && m == Method::Head && verb_lookup(verbs, Method::Get)
        is Some {
        Resolution::Route(verb_lookup(verbs, Method::Get).unwrap())
    } else if default_route is Some {
        Resolution::Route(default_route.unwrap())
    } else if config.fallback_options && m == Method::Options {
        Resolution::FallbackOptions
    } else {
        Resolution::NotAllowed
    }
}

/// One registered resource: every route under one fully-resolved pattern.
pub struct Resource {
    uri: Uri,
    scope: usize,
    ancestors: Vec<usize>,
    verbs: Vec<(Method, usize)>,
    default_route: Option<usize>,
}

impl Resource {
    /// The parsed pattern the resource is registered at.
    pub closed spec fn spec_uri(&self) -> Uri {
        self.uri
    }

    /// The scope the resource was declared in.
    pub closed spec fn spec_scope(&self) -> usize {
        self.scope
    }

    /// The scope's ancestor chain, root first, the scope itself last.
    pub closed spec fn spec_ancestors(&self) -> Seq<usize> {
        self.ancestors@
    }

    /// The parsed pattern the resource is registered at.
    pub fn uri(&self) -> (r: &Uri)
        ensures
            *r == self.spec_uri(),
    {
        &self.uri
    }

    /// The scope the resource was declared in.
    pub fn scope(&self) -> (r: usize)
        ensures
            r == self.spec_scope(),
    {
        self.scope
    }

    /// The scope's ancestor chain, root first, the scope itself last.
    pub fn ancestors(&self) -> (r: &Vec<usize>)
        ensures
            r@ == self.spec_ancestors(),
    {
        &self.ancestors
    }

    /// The method-to-route table, in registration order.
    pub closed spec fn spec_verbs(&self) -> Seq<(Method, usize)> {
        self.verbs@
    }

    /// The default (any-method) route, if one was registered.
    pub closed spec fn spec_default_route(&self) -> Option<usize> {
        self.default_route
    }

    /// No method is routed twice.
    pub open spec fn wf(&self) -> bool {
        forall|i: int, j: int|
            0 <= i < j < self.spec_verbs().len() ==> (#[trigger] self.spec_verbs()[i]).0 != (
            #[trigger] self.spec_verbs()[j]).0
    }

    /// A fresh resource with no routes.
    pub fn new(uri: Uri, scope: usize, ancestors: Vec<usize>) -> (r: Self)
        ensures
            r.spec_uri() == uri,
            r.spec_scope() == scope,
            r.spec_ancestors() == ancestors@,
            r.spec_verbs() == Seq::<(Method, usize)>::empty(),
            r.spec_default_route() is None,
            r.wf(),
    {
        Resource { uri, scope, ancestors, verbs: Vec::new(), default_route: None }
    }

    /// The route registered for a method.
    pub fn lookup(&self, m: Method) -> (r: Option<usize>)
        ensures
            r == verb_lookup(self.spec_verbs(), m),
    {
        let ghost full = self.verbs@;
        let mut i: usize = 0;
        proof {
            assert(full.skip(0) =~= full);
        }
        while i < self.verbs.len()
            invariant
                full == self.verbs@,
                i <= full.len(),
                verb_lookup(full, m) == verb_lookup(full.skip(i as int), m),
            decreases self.verbs.len() - i,
        {
            proof {
                assert(full.skip(i as int)[0] == full[i as int]);
            }
            if self.verbs[i].0 == m {
                return Some(self.verbs[i].1);
            }
            proof {
                assert(full.skip(i as int).skip(1) =~= full.skip(i + 1));
            }
            i = i + 1;
        }
        None
    }

    /// Routes one handler under each listed method.  Fails when a listed
    /// method is already routed on this resource, or listed twice; a
    /// failed call registers nothing.
    #[verifier::loop_isolation(false)]
    pub fn add_route(&mut self, methods: &Vec<Method>, route_id: usize) -> (r: Result<
        (),
        BuildError,
    >)
        requires
            old(self).wf(),
        ensures
            final(self).wf(),
            final(self).spec_uri() == old(self).spec_uri(),
            final(self).spec_scope() == old(self).spec_scope(),
            final(self).spec_ancestors() == old(self).spec_ancestors(),
            final(self).spec_default_route() == old(self).spec_default_route(),
            match r {
                Ok(()) => {
                    &&& forall|i: int|
                        0 <= i < methods@.len() ==> verb_lookup(
                            old(self).spec_verbs(),
                            #[trigger] methods@[i],
                        ) is None
                    &&& forall|i: int, j: int|
                        0 <= i < j < methods@.len() ==> methods@[i] != methods@[j]
                    &&& final(self).spec_verbs() == old(self).spec_verbs() + methods@.map_values(
                        |m: Method| (m, route_id),
                    )
                },
                Err(BuildError::DuplicateMethod) => {
                    &&& *final(self) == *old(self)
                    &&& final(self).spec_verbs() == old(self).spec_verbs()
                    &&& (exists|i: int|
                        0 <= i < methods@.len() && verb_lookup(
                            old(self).spec_verbs(),
                            #[trigger] methods@[i],
                        ) is Some) || (exists|i: int, j: int|
                        0 <= i < j < methods@.len() && methods@[i] == methods@[j])
                },
                Err(_) => false,
            },
    {
        let ghost olds = self.verbs@;
        let mut i: usize = 0;
        while i < methods.len()
            invariant
                olds == self.verbs@,
                old(self).wf(),
                *self == *old(self),
                i <= methods@.len(),
                forall|t: int|
                    0 <= t < i ==> verb_lookup(olds, #[trigger] methods@[t]) is None,
                forall|t: int, u: int| 0 <= t < u < i ==> methods@[t] != methods@[u],
            decreases methods.len() - i,
        {
            if self.lookup(methods[i]).is_some() {
                return Err(BuildError::DuplicateMethod);
            }
            let mut j: usize = 0;
            while j < i
                invariant
                    i < methods@.len(),
                    j <= i,
                    forall|t: int| 0 <= t < j ==> methods@[t] != methods@[i as int],
                decreases i - j,
            {
                if methods[j] == methods[i] {
                    return Err(BuildError::DuplicateMethod);
                }
                j = j + 1;
            }
            i = i + 1;
        }
        let ghost mapped = methods@.map_values(|m: Method| (m, route_id));
        let mut k: usize = 0;
        while k < methods.len()
            invariant
                k <= methods@.len(),
                mapped == methods@.map_values(|m: Method| (m, route_id)),
                mapped.len() == methods@.len(),
                self.verbs@ == olds + mapped.take(k as int),
                self.uri == old(self).uri,
                self.scope == old(self).scope,
                self.ancestors@ == old(self).ancestors@,
                self.default_route == old(self).default_route,
            decreases methods.len() - k,
        {
            self.verbs.push((methods[k], route_id));
            proof {
                assert(self.verbs@ =~= olds + mapped.take(k + 1));
            }
            k = k + 1;
        }
        proof {
            assert(mapped.take(methods@.len() as int) =~= mapped);
            let news = self.verbs@;
            assert forall|i: int, j: int| 0 <= i < j < news.len() implies (
            #[trigger] news[i]).0 != (#[trigger] news[j]).0 by {
                if j >= olds.len() {
                    assert(news[j] == mapped[j - olds.len()]);
                    assert(news[j].0 == methods@[j - olds.len()]);
                    if i >= olds.len() {
                        assert(news[i].0 == methods@[i - olds.len()]);
                    } else {
                        assert(news[i] == olds[i]);
                        if news[i].0 == news[j].0 {
                            lemma_verb_lookup_contains(olds, i, news[j].0);
                        }
                    }
                }
            }
        }
        Ok(())
    }

    /// Registers the default (any-method) route.  Fails when one is
    /// already registered.
    pub fn set_default_route(&mut self, route_id: usize) -> (r: Result<(), BuildError>)
        requires
            old(self).wf(),
        ensures
            final(self).wf(),
            final(self).spec_uri() == old(self).spec_uri(),
            final(self).spec_scope() == old(self).spec_scope(),
            final(self).spec_ancestors() == old(self).spec_ancestors(),
            final(self).spec_verbs() == old(self).spec_verbs(),
            match r {
                Ok(()) => old(self).spec_default_route() is None
                    && final(self).spec_default_route() == Some(route_id),
                Err(BuildError::DuplicateDefaultRoute) => old(self).spec_default_route() is Some
                    && *final(self) == *old(self) && final(self).spec_default_route() == old(
                    self,
                ).spec_default_route(),
                Err(_) => false,
            },
    {
        if self.default_route.is_some() {
            return Err(BuildError::DuplicateDefaultRoute);
        }
        self.default_route = Some(route_id);
        proof {
            assert(self.spec_verbs() == old(self).spec_verbs());
            assert(self.wf());
        }
        Ok(())
    }

    /// Resolves a request method to a route, exactly as `spec_resolve`
    /// describes.
    pub fn resolve(&self, m: Method, config: &Config) -> (r: Resolution)
        ensures
            r == spec_resolve(self.spec_verbs(), self.spec_default_route(), m, *config),
    {
        match self.lookup(m) {
            Some(id) => Resolution::Route(id),
            None => {
                if config.fallback_head && m == Method::Head {
                    match self.lookup(Method::Get) {
                        Some(id) => {
                            return Resolution::Route(id);
                        },
                        None => {},
                    }
                }
                match self.default_route {
                    Some(id) => Resolution::Route(id),
                    None => {
                        if config.fallback_options && m == Method::Options {
                            Resolution::FallbackOptions
                        } else {
                            Resolution::NotAllowed
                        }
                    },
                }
            },
        }
    }

    /// The `Allow` header value: the routed methods' names, in
    /// registration order, joined with `", "`.
    pub fn allow_value(&self) -> (r: String)
        ensures
            r@ == allow_of(self.spec_verbs()),
    {
        let ghost full = self.verbs@;
        let mut out = String::new();
        let mut i: usize = 0;
        while i < self.verbs.len()
            invariant
                full == self.verbs@,
                i <= full.len(),
                out@ == allow_of(full.take(i as int)),
            decreases self.verbs.len() - i,
        {
            if i > 0 {
                out.append(", ");
            }
            out.append(self.verbs[i].0.name());
            proof {
                reveal_strlit(", ");
                let pre = full.take(i as int);
                if i == 0 {
                    assert(full.take(1) =~= seq![full[0]]);
                    assert(allow_of(full.take(1)) == crate::method::spec_method_name(full[0].0));
                } else {
                    lemma_allow_push(pre, full[i as int]);
                    assert(full.take(i + 1) =~= pre.push(full[i as int]));
                }
            }
            i = i + 1;
        }
        proof {
            assert(full.take(full.len() as int) =~= full);
        }
        out
    }
}

proof fn lemma_count_names(segs: Seq<Seq<char>>)
    ensures
        count_params(segs.map_values(|s: Seq<char>| pat_of_seg(s))) == seg_names(segs).len(),
    decreases segs.len(),
{
    let mapped = segs.map_values(|s: Seq<char>| pat_of_seg(s));
    if segs.len() == 0 {
        assert(mapped.len() == 0);
    } else {
        lemma_count_names(segs.skip(1));
        assert(mapped.skip(1) =~= segs.skip(1).map_values(|s: Seq<char>| pat_of_seg(s)));
        assert(mapped[0] == pat_of_seg(segs[0]));
        assert((mapped[0] is Static) <==> !seg_is_marker(segs[0]));
        assert(seg_names(segs) == (if seg_is_marker(segs[0]) {
            seq![segs[0].skip(1)]
        } else {
            Seq::<Seq<char>>::empty()
        }) + seg_names(segs.skip(1)));
    }
}

proof fn lemma_count_push_static(ps: Seq<PatSegV>, e: Seq<char>)
    ensures
        count_params(ps.push(PatSegV::Static(e))) == count_params(ps),
    decreases ps.len(),
{
    let q = ps.push(PatSegV::Static(e));
    if ps.len() == 0 {
        assert(q.len() == 1);
        assert(q[0] == PatSegV::Static(e));
        assert(q.skip(1) =~= Seq::<PatSegV>::empty());
        assert(count_params(q.skip(1)) == 0);
    } else {
        lemma_count_push_static(ps.skip(1), e);
        assert(q.skip(1) =~= ps.skip(1).push(PatSegV::Static(e)));
        assert(q[0] == ps[0]);
    }
}

/// The pattern segments of accepted text form a usable pattern whose
/// parameter count is the number of declared names.
pub proof fn lemma_pat_segs_of_text(text: Seq<char>)
    requires
        spec_parse(text) is Some,
    ensures
        valid_pat(pat_segs_of(text)),
        count_params(pat_segs_of(text)) == spec_parse(text).unwrap().names.len(),
{
    let core = core_segs(text);
    let mapped = core.map_values(|s: Seq<char>| pat_of_seg(s));
    crate::segments::lemma_split_len(text.skip(1));
    if text.len() > 1 && text.last() == '/' {
        crate::segments::lemma_split_len(text.subrange(1, text.len() - 1));
    }
    assert(core.len() >= 1);
    lemma_count_names(core);
    if text.len() == 1 {
        assert(text.skip(1) =~= Seq::<char>::empty());
        assert(core =~= seq![Seq::<char>::empty()]);
        assert(mapped[0] == pat_of_seg(Seq::<char>::empty()));
        assert(pat_segs_of(text) == mapped);
        assert(valid_pat(mapped)) by {
            assert(mapped.len() == 1);
        }
        assert(seg_names(core) == Seq::<Seq<char>>::empty() + seg_names(core.skip(1)));
        assert(core.skip(1) =~= Seq::<Seq<char>>::empty());
        assert(seg_names(core).len() == 0);
    } else {
        assert(crate::uri::segs_valid(core));
        assert forall|i: int| 0 <= i < mapped.len() implies ((#[trigger] mapped[i]) is CatchAll)
            == seg_is_wild(core[i]) by {
            assert(mapped[i] == pat_of_seg(core[i]));
            assert(seg_is_valid(core[i]));
        }
        if text.last() == '/' {
            assert(!crate::uri::segs_have_wild(core));
            assert forall|i: int| 0 <= i < mapped.len() implies !((#[trigger] mapped[i])
                is CatchAll) by {
                if seg_is_wild(core[i]) {
                    assert(crate::uri::segs_have_wild(core));
                }
            }
            let q = mapped.push(PatSegV::Static(Seq::empty()));
            assert(pat_segs_of(text) == q);
            assert(valid_pat(q)) by {
                assert forall|i: int| 0 <= i < q.len() - 1 implies !((#[trigger] q[i])
                    is CatchAll) by {
                    assert(q[i] == mapped[i]);
                }
            }
            lemma_count_push_static(mapped, Seq::empty());
        } else {
            assert(pat_segs_of(text) == mapped);
            assert(valid_pat(mapped)) by {
                assert forall|i: int| 0 <= i < mapped.len() - 1 implies !((#[trigger] mapped[i])
                    is CatchAll) by {
                    assert(!seg_is_wild(core[i]));
                }
            }
        }
    }
}

fn derive_pat_segs(s: &str) -> (r: Vec<PatSeg>)
    requires
        spec_parse(s@) is Some,
    ensures
        pat_views(r@) == pat_segs_of(s@),
{
    proof {
        assert(is_ascii_chars(s@) && s@.len() >= 1 && s@[0] == '/');
    }
    let n = s.unicode_len();
    let core_end: usize = if n > 1 && s.get_char(n - 1) == '/' {
        n - 1
    } else {
        n
    };
    let segs = split_str(s, 1, core_end);
    let ghost views = seg_views(segs@);
    let ghost core = core_segs(s@);
    proof {
        if core_end < n {
            assert(s@.subrange(1, core_end as int) =~= s@.subrange(1, s@.len() - 1));
        } else {
            assert(s@.subrange(1, core_end as int) =~= s@.skip(1));
        }
        assert(views == core);
    }
    let ghost mapped = core.map_values(|t: Seq<char>| pat_of_seg(t));
    let mut out: Vec<PatSeg> = Vec::new();
    let mut k: usize = 0;
    proof {
        assert(pat_views(out@) =~= mapped.take(0));
    }
    while k < segs.len()
        invariant
            views == seg_views(segs@),
            views == core,
            views.len() == segs@.len(),
            mapped == core.map_values(|t: Seq<char>| pat_of_seg(t)),
            mapped.len() == core.len(),
            k <= segs@.len(),
            pat_views(out@) == mapped.take(k as int),
            forall|t: int| 0 <= t < segs@.len() ==> is_ascii_chars(#[trigger] segs@[t]@),
        decreases segs.len() - k,
    {
        let sg = segs[k].as_str();
        let m = sg.unicode_len();
        proof {
            assert(sg@ == views[k as int]);
            assert(mapped[k as int] == pat_of_seg(views[k as int]));
        }
        let piece: PatSeg = if m > 0 && sg.get_char(0) == ':' {
            PatSeg::Param
        } else if m > 0 && sg.get_char(0) == '*' {
            PatSeg::CatchAll
        } else {
            PatSeg::Static(segs[k].clone())
        };
        proof {
            assert(piece@ == mapped[k as int]);
        }
        let ghost prev = out@;
        let ghost piece_v = piece@;
        out.push(piece);
        proof {
            assert(out@ == prev.push(piece));
            assert(out@.len() == prev.len() + 1);
            assert(pat_views(prev).len() == prev.len());
            assert(k <= mapped.len());
            assert(mapped.take(k as int).len() == k);
            assert(prev.len() == k);
            assert(k + 1 <= mapped.len());
            assert forall|i: int| 0 <= i < out@.len() implies (#[trigger] pat_views(out@)[i])
                == mapped.take(k + 1)[i] by {
                assert(pat_views(out@)[i] == out@[i]@);
                if i < prev.len() {
                    assert(out@[i] == prev[i]);
                    assert(pat_views(prev)[i] == prev[i]@);
                    assert(pat_views(prev)[i] == mapped.take(k as int)[i]);
                    assert(mapped.take(k as int)[i] == mapped[i]);
                    assert(mapped.take(k + 1)[i] == mapped[i]);
                } else {
                    assert(i == k);
                    assert(out@[i]@ == piece_v);
                    assert(piece_v == mapped[k as int]);
                    assert(mapped.take(k + 1)[i] == mapped[i]);
                }
            }
            assert(pat_views(out@).len() == mapped.take(k + 1).len());
            assert(pat_views(out@) =~= mapped.take(k + 1));
        }
        k = k + 1;
    }
    proof {
        assert(mapped.take(core.len() as int) =~= mapped);
    }
    if core_end < n {
        out.push(PatSeg::Static(String::new()));
        proof {
            assert(pat_views(out@) =~= mapped.push(PatSegV::Static(Seq::empty())));
            assert(s@.last() == '/');
            assert(pat_views(out@) == pat_segs_of(s@));
        }
    } else {
        proof {
            if s@.len() > 1 {
                assert(s@.last() != '/');
            } else {
                assert(s@.len() == 1);
            }
            assert(pat_views(out@) == pat_segs_of(s@));
        }
    }
    out
}

/// Why a request cannot be dispatched to a handler.
#[derive(Clone, Copy, Debug, PartialEq, Eq, Structural)]
pub enum RecognizeErrorKind {
    /// No registered pattern accepts the path.
    NotFound,
    /// A pattern accepts the path, but no route takes the method; the
    /// entry is named so that the `Allow` header can be derived from it.
    MethodNotAllowed { entry_id: usize },
    /// The request is `OPTIONS`, the resource has no `OPTIONS` route, and
    /// fallback `OPTIONS` handling is enabled: the caller synthesizes a
    /// response from the entry's method list without invoking a handler.
    FallbackOptions { entry_id: usize },
}

/// A successful recognition: the resource, the resolved route, and the
/// captured parameter values in declaration order.
pub struct RecognizerMatch {
    pub entry_id: usize,
    pub route_id: usize,
    pub captures: Vec<String>,
}

/// Whether request-path text can be matched at all: ASCII, starting with
/// a slash.
pub open spec fn path_ok(p: Seq<char>) -> bool {
    is_ascii_chars(p) && p.len() >= 1 && p[0] == '/'
}

/// The read-only index from registered patterns to resources.  Built by
/// sequential insertion, then queried arbitrarily often.
pub struct Recognizer {
    pats: Vec<Vec<PatSeg>>,
    resources: Vec<Resource>,
}

impl Recognizer {
    /// The registered patterns, as segment lists, in insertion order.
    pub closed spec fn spec_pats(&self) -> Seq<Seq<PatSegV>> {
        Seq::new(self.pats@.len(), |i: int| pat_views(self.pats@[i]@))
    }

    /// The registered resources, in insertion order.
    pub closed spec fn spec_resources(&self) -> Seq<Resource> {
        self.resources@
    }

    /// The number of registered resources.
    pub open spec fn spec_len(&self) -> nat {
        self.spec_resources().len()
    }

    /// Internal consistency: patterns and resources pair up; each pattern
    /// is the segment list of its resource's accepted text; no two
    /// registered patterns share one segment structure.
    pub closed spec fn wf(&self) -> bool {
        &&& self.pats@.len() == self.resources@.len()
        &&& forall|i: int|
            0 <= i < self.resources@.len() ==> valid_pat(#[trigger] self.spec_pats()[i])
        &&& forall|i: int|
            0 <= i < self.resources@.len() ==> {
                let u = (#[trigger] self.resources@[i]).spec_uri();
                &&& spec_parse(u@.text) == Some(u@)
                &&& u.wf()
                &&& self.spec_pats()[i] == pat_segs_of(u@.text)
                &&& self.resources@[i].wf()
            }
        &&& forall|i: int, j: int|
            0 <= i < j < self.resources@.len() ==> self.spec_pats()[i] != self.spec_pats()[j]
    }

    /// Whether the pattern at `i` accepts the path segments `ss`.
    pub open spec fn entry_matches(&self, i: int, ss: Seq<Seq<char>>) -> bool {
        pat_matches(self.spec_pats()[i], ss)
    }

    /// Whether entry `i` is the match that wins: it accepts the path and
    /// is strictly more specific than every other accepting entry.
    pub open spec fn is_best_match(&self, i: int, ss: Seq<Seq<char>>) -> bool {
        &&& 0 <= i < self.spec_len()
        &&& self.entry_matches(i, ss)
        &&& forall|j: int|
            0 <= j < self.spec_len() && j != i && self.entry_matches(j, ss) ==> rank_lt(
                self.spec_pats()[i],
                #[trigger] self.spec_pats()[j],
            )
    }

    /// At most one entry is the winning match for a path.
    pub proof fn lemma_best_unique(&self, e1: int, e2: int, ss: Seq<Seq<char>>)
        requires
            self.wf(),
            self.is_best_match(e1, ss),
            self.is_best_match(e2, ss),
        ensures
            e1 == e2,
    {
        if e1 != e2 {
            assert(self.spec_pats()[e1] != self.spec_pats()[e2]);
            lemma_rank_total(self.spec_pats()[e1], self.spec_pats()[e2], ss);
            assert(rank_lt(self.spec_pats()[e1], self.spec_pats()[e2]));
            assert(rank_lt(self.spec_pats()[e2], self.spec_pats()[e1]));
        }
    }

    /// The consistency facts that hold of each registered entry.
    pub proof fn lemma_wf_entry(&self, i: int)
        requires
            self.wf(),
            0 <= i < self.spec_len(),
        ensures
            self.spec_pats().len() == self.spec_len(),
            self.spec_resources()[i].spec_uri().wf(),
            spec_parse(self.spec_resources()[i].spec_uri()@.text) == Some(
                self.spec_resources()[i].spec_uri()@,
            ),
            self.spec_resources()[i].wf(),
            valid_pat(self.spec_pats()[i]),
            self.spec_pats()[i] == pat_segs_of(self.spec_resources()[i].spec_uri()@.text),
    {
    }

    /// An empty index.
    pub fn new() -> (r: Self)
        ensures
            r.wf(),
            r.spec_len() == 0,
            r.spec_pats().len() == 0,
    {
        let r = Recognizer { pats: Vec::new(), resources: Vec::new() };
        proof {
            assert(r.spec_pats().len() == 0);
        }
        r
    }

    /// The number of registered resources.
    pub fn len(&self) -> (r: usize)
        ensures
            r == self.spec_len(),
    {
        self.resources.len()
    }

    /// The resource registered at an entry.
    pub fn resource(&self, entry_id: usize) -> (r: &Resource)
        requires
            entry_id < self.spec_len(),
        ensures
            *r == self.spec_resources()[entry_id as int],
    {
        &self.resources[entry_id]
    }

    /// Registers a pattern, creating its resource.  Fails when the text
    /// is rejected or when a registered pattern has the same segment
    /// structure; a failed insertion changes nothing.
    #[verifier::loop_isolation(false)]
    pub fn insert(&mut self, pattern: &str, scope: usize, ancestors: Vec<usize>) -> (r: Result<
        usize,
        BuildError,
    >)
        requires
            old(self).wf(),
        ensures
            final(self).wf(),
            match r {
                Ok(id) => {
                    &&& spec_parse(pattern@) is Some
                    &&& id == old(self).spec_len()
                    &&& final(self).spec_pats() == old(self).spec_pats().push(
                        pat_segs_of(pattern@),
                    )
                    &&& final(self).spec_resources().len() == old(self).spec_len() + 1
                    &&& forall|j: int|
                        0 <= j < old(self).spec_len() ==> final(self).spec_resources()[j] == old(self).spec_resources()[j]
                    &&& final(self).spec_resources()[id as int].spec_uri()@ == spec_parse(
                        pattern@,
                    ).unwrap()
                    &&& final(self).spec_resources()[id as int].spec_scope() == scope
                    &&& final(self).spec_resources()[id as int].spec_ancestors() == ancestors@
                    &&& final(self).spec_resources()[id as int].spec_verbs() == Seq::<(
                        Method,
                        usize,
                    )>::empty()
                    &&& final(self).spec_resources()[id as int].spec_default_route() is None
                    &&& forall|j: int|
                        0 <= j < old(self).spec_len() ==> old(self).spec_pats()[j] != pat_segs_of(
                            pattern@,
                        )
                },
                Err(BuildError::Uri(_)) => {
                    &&& spec_parse(pattern@) is None
                    &&& final(self).spec_pats() == old(self).spec_pats()
                    &&& final(self).spec_resources() == old(self).spec_resources()
                },
                Err(BuildError::ConflictingPattern) => {
                    &&& spec_parse(pattern@) is Some
                    &&& exists|j: int|
                        0 <= j < old(self).spec_len() && old(self).spec_pats()[j] == pat_segs_of(
                            pattern@,
                        )
                    &&& final(self).spec_pats() == old(self).spec_pats()
                    &&& final(self).spec_resources() == old(self).spec_resources()
                },
                Err(_) => false,
            },
    {
        let uri = match Uri::parse(pattern) {
            Ok(u) => u,
            Err(e) => {
                return Err(BuildError::Uri(e));
            },
        };
        let segs = derive_pat_segs(pattern);
        let ghost new_pat = pat_segs_of(pattern@);
        let n = self.pats.len();
        let mut j: usize = 0;
        while j < n
            invariant
                j <= n,
                forall|t: int| 0 <= t < j ==> self.spec_pats()[t] != new_pat,
            decreases n - j,
        {
            if pats_equal(&self.pats[j], &segs) {
                proof {
                    assert(self.spec_pats()[j as int] == new_pat);
                }
                return Err(BuildError::ConflictingPattern);
            }
            j = j + 1;
        }
        let resource = Resource::new(uri, scope, ancestors);
        let ghost old_pats = self.spec_pats();
        let ghost old_res = self.resources@;
        self.pats.push(segs);
        self.resources.push(resource);
        proof {
            lemma_pat_segs_of_text(pattern@);
            assert(self.spec_pats() =~= old_pats.push(new_pat));
            assert(self.spec_resources() =~= old_res.push(resource));
            assert forall|i: int, t: int|
                0 <= i < t < self.resources@.len() implies self.spec_pats()[i]
                != self.spec_pats()[t] by {
                if t < old_res.len() {
                } else {
                    assert(self.spec_pats()[t] == new_pat);
                }
            }
        }
        Ok(n)
    }

    /// Resolves a request path and method.  Of the patterns accepting the
    /// path the most specific wins; its resource then resolves the method
    /// as `spec_resolve` describes.  Paths outside ASCII, or without a
    /// leading slash, match nothing.
    #[verifier::loop_isolation(false)]
    pub fn recognize(&self, path: &str, method: Method, config: &Config) -> (r: Result<
        RecognizerMatch,
        RecognizeErrorKind,
    >)
        requires
            self.wf(),
        ensures
            match r {
                Ok(m) => {
                    &&& path_ok(path@)
                    &&& self.is_best_match(m.entry_id as int, path_segs(path@))
                    &&& seg_views(m.captures@) == captures_of(
                        self.spec_pats()[m.entry_id as int],
                        path_segs(path@),
                    )
                    &&& m.captures@.len() == self.spec_resources()[m.entry_id as int].spec_uri()@
                        .names.len()
                    &&& spec_resolve(
                        self.spec_resources()[m.entry_id as int].spec_verbs(),
                        self.spec_resources()[m.entry_id as int].spec_default_route(),
                        method,
                        *config,
                    ) == Resolution::Route(m.route_id)
                },
                Err(RecognizeErrorKind::NotFound) => !path_ok(path@) || forall|j: int|
                    0 <= j < self.spec_len() ==> !self.entry_matches(j, path_segs(path@)),
                Err(RecognizeErrorKind::MethodNotAllowed { entry_id }) => {
                    &&& path_ok(path@)
                    &&& self.is_best_match(entry_id as int, path_segs(path@))
                    &&& spec_resolve(
                        self.spec_resources()[entry_id as int].spec_verbs(),
                        self.spec_resources()[entry_id as int].spec_default_route(),
                        method,
                        *config,
                    ) == Resolution::NotAllowed
                },
                Err(RecognizeErrorKind::FallbackOptions { entry_id }) => {
                    &&& path_ok(path@)
                    &&& self.is_best_match(entry_id as int, path_segs(path@))
                    &&& spec_resolve(
                        self.spec_resources()[entry_id as int].spec_verbs(),
                        self.spec_resources()[entry_id as int].spec_default_route(),
                        method,
                        *config,
                    ) == Resolution::FallbackOptions
                },
            },
    {
        if !path.is_ascii() {
            return Err(RecognizeErrorKind::NotFound);
        }
        let n = path.unicode_len();
        if n == 0 || path.get_char(0) != '/' {
            return Err(RecognizeErrorKind::NotFound);
        }
        let ss = split_str(path, 1, n);
        proof {
            assert(path@.subrange(1, n as int) =~= path@.skip(1));
            assert(seg_views(ss@) == path_segs(path@));
        }
        let ghost ssv = seg_views(ss@);
        let count = self.pats.len();
        let mut best: usize = 0;
        let mut found = false;
        let mut i: usize = 0;
        while i < count
            invariant
                i <= count,
                found ==> best < i && self.entry_matches(best as int, ssv) && forall|j: int|
                    0 <= j < i && j != best && self.entry_matches(j, ssv) ==> rank_lt(
                        self.spec_pats()[best as int],
                        #[trigger] self.spec_pats()[j],
                    ),
                !found ==> forall|j: int| 0 <= j < i ==> !self.entry_matches(j, ssv),
            decreases count - i,
        {
            proof {
                assert(self.spec_pats()[i as int] == pat_views(self.pats@[i as int]@));
            }
            if pat_match_exec(&self.pats[i], &ss) {
                if !found {
                    best = i;
                    found = true;
                } else if rank_lt_exec(&self.pats[i], &self.pats[best]) {
                    proof {
                        assert forall|j: int|
                            0 <= j < i + 1 && j != i && self.entry_matches(j, ssv) implies rank_lt(
                            self.spec_pats()[i as int],
                            #[trigger] self.spec_pats()[j],
                        ) by {
                            if j != best {
                                lemma_rank_trans(
                                    self.spec_pats()[i as int],
                                    self.spec_pats()[best as int],
                                    self.spec_pats()[j],
                                );
                            }
                        }
                    }
                    best = i;
                } else {
                    proof {
                        lemma_rank_total(
                            self.spec_pats()[best as int],
                            self.spec_pats()[i as int],
                            ssv,
                        );
                    }
                }
            }
            i = i + 1;
        }
        if !found {
            return Err(RecognizeErrorKind::NotFound);
        }
        let caps = captures_exec(&self.pats[best], &ss);
        proof {
            lemma_captures_len(self.spec_pats()[best as int], ssv);
            let u = self.spec_resources()[best as int].spec_uri();
            lemma_pat_segs_of_text(u@.text);
            assert(count_params(self.spec_pats()[best as int]) == u@.names.len());
            assert(caps@.len() == seg_views(caps@).len());
        }
        let resource = &self.resources[best];
        match resource.resolve(method, config) {
            Resolution::Route(route_id) => Ok(
                RecognizerMatch { entry_id: best, route_id, captures: caps },
            ),
            Resolution::FallbackOptions => Err(
                RecognizeErrorKind::FallbackOptions { entry_id: best },
            ),
            Resolution::NotAllowed => Err(RecognizeErrorKind::MethodNotAllowed { entry_id: best }),
        }
    }
}

impl Resource {
    /// Every route the resource names lies below `n`.
    pub open spec fn routes_ok(&self, n: nat) -> bool {
        &&& forall|k: int|
            0 <= k < self.spec_verbs().len() ==> (#[trigger] self.spec_verbs()[k]).1 < n
        &&& self.spec_default_route() matches Some(id) ==> id < n
    }
}

proof fn lemma_verb_lookup_bound(verbs: Seq<(Method, usize)>, m: Method, n: nat)
    requires
        forall|k: int| 0 <= k < verbs.len() ==> (#[trigger] verbs[k]).1 < n,
        verb_lookup(verbs, m) is Some,
    ensures
        verb_lookup(verbs, m).unwrap() < n,
    decreases verbs.len(),
{
    if verbs[0].0 == m {
        assert(verbs[0].1 < n);
    } else {
        assert forall|k: int| 0 <= k < verbs.skip(1).len() implies (#[trigger] verbs.skip(
            1,
        )[k]).1 < n by {
            assert(verbs.skip(1)[k] == verbs[k + 1]);
        }
        lemma_verb_lookup_bound(verbs.skip(1), m, n);
    }
}

/// A resolved route of a resource whose routes lie below `n` lies below
/// `n` itself.
pub proof fn lemma_resolve_route_bound(
    verbs: Seq<(Method, usize)>,
    default_route: Option<usize>,
    m: Method,
    config: Config,
    n: nat,
)
    requires
        forall|k: int| 0 <= k < verbs.len() ==> (#[trigger] verbs[k]).1 < n,
        default_route matches Some(id) ==> id < n,
        spec_resolve(verbs, default_route, m, config) is Route,
    ensures
        spec_resolve(verbs, default_route, m, config)->Route_0 < n,
{
    if verb_lookup(verbs, m) is Some {
        lemma_verb_lookup_bound(verbs, m, n);
    } else if config.fallback_head && m == Method::Head && verb_lookup(verbs, Method::Get)
        is Some {
        lemma_verb_lookup_bound(verbs, Method::Get, n);
    }
}

impl Recognizer {
    /// Routes one handler under each listed method at an entry; the
    /// entry's resource enforces that no method is routed twice.
    pub fn add_route_at(
        &mut self,
        entry_id: usize,
        methods: &Vec<Method>,
        route_id: usize,
    ) -> (r: Result<(), BuildError>)
        requires
            old(self).wf(),
            entry_id < old(self).spec_len(),
        ensures
            final(self).wf(),
            final(self).spec_pats() == old(self).spec_pats(),
            final(self).spec_resources().len() == old(self).spec_resources().len(),
            forall|i: int|
                0 <= i < old(self).spec_len() && i != entry_id ==> final(self).spec_resources()[i]
                    == old(self).spec_resources()[i],
            final(self).spec_resources()[entry_id as int].spec_uri() == old(self).spec_resources()[entry_id as int].spec_uri(),
            final(self).spec_resources()[entry_id as int].spec_scope() == old(self).spec_resources()[entry_id as int].spec_scope(),
            final(self).spec_resources()[entry_id as int].spec_ancestors() == old(self).spec_resources()[entry_id as int].spec_ancestors(),
            final(self).spec_resources()[entry_id as int].spec_default_route() == old(self).spec_resources()[entry_id as int].spec_default_route(),
            match r {
                Ok(()) => {
                    &&& forall|i: int|
                        0 <= i < methods@.len() ==> verb_lookup(
                            old(self).spec_resources()[entry_id as int].spec_verbs(),
                            #[trigger] methods@[i],
                        ) is None
                    &&& forall|i: int, j: int|
                        0 <= i < j < methods@.len() ==> methods@[i] != methods@[j]
                    &&& final(self).spec_resources()[entry_id as int].spec_verbs() == old(self).spec_resources()[entry_id as int].spec_verbs() + methods@.map_values(
                        |m: Method| (m, route_id),
                    )
                },
                Err(BuildError::DuplicateMethod) => {
                    &&& final(self).spec_resources() == old(self).spec_resources()
                    &&& final(self).spec_resources()[entry_id as int].spec_verbs() == old(self).spec_resources()[entry_id as int].spec_verbs()
                    &&& (exists|i: int|
                        0 <= i < methods@.len() && verb_lookup(
                            old(self).spec_resources()[entry_id as int].spec_verbs(),
                            #[trigger] methods@[i],
                        ) is Some) || (exists|i: int, j: int|
                        0 <= i < j < methods@.len() && methods@[i] == methods@[j])
                },
                Err(_) => false,
            },
    {
        let r = self.resources[entry_id].add_route(methods, route_id);
        proof {
            assert(self.spec_pats() =~= old(self).spec_pats());
            assert(self.wf()) by {
                assert forall|i: int| 0 <= i < self.resources@.len() implies {
                    let u = (#[trigger] self.resources@[i]).spec_uri();
                    &&& spec_parse(u@.text) == Some(u@)
                    &&& u.wf()
                    &&& self.spec_pats()[i] == pat_segs_of(u@.text)
                    &&& self.resources@[i].wf()
                } by {
                    if i != entry_id {
                        assert(self.resources@[i] == old(self).resources@[i]);
                    }
                }
            }
        }
        r
    }

    /// Registers the default (any-method) route of an entry's resource.
    pub fn set_default_route_at(&mut self, entry_id: usize, route_id: usize) -> (r: Result<
        (),
        BuildError,
    >)
        requires
            old(self).wf(),
            entry_id < old(self).spec_len(),
        ensures
            final(self).wf(),
            final(self).spec_pats() == old(self).spec_pats(),
            final(self).spec_resources().len() == old(self).spec_resources().len(),
            forall|i: int|
                0 <= i < old(self).spec_len() && i != entry_id ==> final(self).spec_resources()[i]
                    == old(self).spec_resources()[i],
            final(self).spec_resources()[entry_id as int].spec_uri() == old(self).spec_resources()[entry_id as int].spec_uri(),
            final(self).spec_resources()[entry_id as int].spec_scope() == old(self).spec_resources()[entry_id as int].spec_scope(),
            final(self).spec_resources()[entry_id as int].spec_ancestors() == old(self).spec_resources()[entry_id as int].spec_ancestors(),
            final(self).spec_resources()[entry_id as int].spec_verbs() == old(self).spec_resources()[entry_id as int].spec_verbs(),
            match r {
                Ok(()) => old(self).spec_resources()[entry_id as int].spec_default_route()
                    is None && final(self).spec_resources()[entry_id as int].spec_default_route()
                    == Some(route_id),
                Err(BuildError::DuplicateDefaultRoute) => old(self).spec_resources()[entry_id as int].spec_default_route() is Some && final(self).spec_resources() == old(self).spec_resources(),
                Err(_) => false,
            },
    {
        let r = self.resources[entry_id].set_default_route(route_id);
        proof {
            assert(self.spec_pats() =~= old(self).spec_pats());
            assert(self.wf()) by {
                assert forall|i: int| 0 <= i < self.resources@.len() implies {
                    let u = (#[trigger] self.resources@[i]).spec_uri();
                    &&& spec_parse(u@.text) == Some(u@)
                    &&& u.wf()
                    &&& self.spec_pats()[i] == pat_segs_of(u@.text)
                    &&& self.resources@[i].wf()
                } by {
                    if i != entry_id {
                        assert(self.resources@[i] == old(self).resources@[i]);
                    }
                }
            }
        }
        r
    }
}

/// The path segments obtained by substituting one value for each of a
/// pattern's parameters, leaving static segments as they are.
pub open spec fn subst_segs(ps: Seq<PatSegV>, vals: Seq<Seq<char>>) -> Seq<Seq<char>>
    decreases ps.len(),
{
    if ps.len() == 0 {
        Seq::empty()
    } else {
        match ps[0] {
            PatSegV::Static(t) => seq![t] + subst_segs(ps.skip(1), vals),
            PatSegV::Param => seq![vals[0]] + subst_segs(ps.skip(1), vals.skip(1)),
            PatSegV::CatchAll => seq![vals[0]],
        }
    }
}

/// Law: a registered pattern accepts the path built from it by
/// substituting one non-empty, slash-free value per declared parameter,
/// and recognition captures exactly those values, each at its declared
/// position.  This holds for named (`:name`) and catch-all (`*name`)
/// parameters alike.
pub proof fn lemma_match_substitution(ps: Seq<PatSegV>, vals: Seq<Seq<char>>)
    requires
        valid_pat(ps),
        count_params(ps) == vals.len(),
        forall|i: int| 0 <= i < vals.len() ==> (#[trigger] vals[i]).len() > 0,
    ensures
        pat_matches(ps, subst_segs(ps, vals)),
        captures_of(ps, subst_segs(ps, vals)) == vals,
    decreases ps.len(),
{
    let ss = subst_segs(ps, vals);
    if ps[0] is CatchAll {
        if ps.len() > 1 {
            assert(!((ps[0]) is CatchAll));
        }
        assert(ps.len() == 1);
        assert(ps.skip(1).len() == 0);
        assert(count_params(ps.skip(1)) == 0);
        assert(count_params(ps) == 1);
        assert(vals.len() == 1);
        assert(ss =~= seq![vals[0]]);
        assert(ps.last() == ps[0]);
        assert(pat_matches(ps, ss));
        assert(join_slash(ss) == vals[0]);
        assert(captures_of(ps, ss) =~= vals);
    } else {
        let tail_vals = if ps[0] is Param {
            vals.skip(1)
        } else {
            vals
        };
        let head = if ps[0] is Param {
            vals[0]
        } else {
            ps[0]->Static_0
        };
        assert(ss == seq![head] + subst_segs(ps.skip(1), tail_vals));
        let tail_ss = subst_segs(ps.skip(1), tail_vals);
        assert(ss.skip(1) =~= tail_ss);
        assert(ss[0] == head);
        if ps.len() == 1 {
            assert(ps.skip(1).len() == 0);
            assert(count_params(ps.skip(1)) == 0);
            assert(count_params(ps) == (if ps[0] is Static {
                0nat
            } else {
                1nat
            }) + count_params(ps.skip(1)));
            assert(tail_ss =~= Seq::<Seq<char>>::empty());
            assert(ss =~= seq![head]);
            assert(!(ps.last() is CatchAll));
            assert(ss.len() == ps.len());
            assert forall|i: int| 0 <= i < ps.len() implies one_match(#[trigger] ps[i], ss[i]) by {
                assert(i == 0);
                if ps[0] is Param {
                    assert(vals[0].len() > 0);
                }
            }
            assert(captures_of(ps.skip(1), ss.skip(1)) == Seq::<Seq<char>>::empty());
            assert(captures_of(ps, ss) =~= vals);
        } else {
            assert(valid_pat(ps.skip(1))) by {
                assert forall|i: int| 0 <= i < ps.skip(1).len() - 1 implies !((#[trigger] ps.skip(
                    1,
                )[i]) is CatchAll) by {
                    assert(ps.skip(1)[i] == ps[i + 1]);
                }
            }
            assert(count_params(ps) == (if ps[0] is Static {
                0nat
            } else {
                1nat
            }) + count_params(ps.skip(1)));
            lemma_match_substitution(ps.skip(1), tail_vals);
            assert(pat_matches(ps, ss)) by {
                if ps.last() is CatchAll {
                    assert(ps.skip(1).last() == ps.last());
                    assert(tail_ss.len() >= ps.skip(1).len());
                    assert(ss.len() >= ps.len());
                    assert forall|i: int| 0 <= i < ps.len() - 1 implies one_match(
                        #[trigger] ps[i],
                        ss[i],
                    ) by {
                        if i == 0 {
                            if ps[0] is Param {
                                assert(vals[0].len() > 0);
                            }
                        } else {
                            assert(ps.skip(1)[i - 1] == ps[i]);
                            assert(tail_ss[i - 1] == ss[i]);
                            assert(one_match(ps.skip(1)[i - 1], tail_ss[i - 1]));
                        }
                    }
                } else {
                    assert(!(ps.skip(1).last() is CatchAll));
                    assert(tail_ss.len() == ps.skip(1).len());
                    assert(ss.len() == ps.len());
                    assert forall|i: int| 0 <= i < ps.len() implies one_match(
                        #[trigger] ps[i],
                        ss[i],
                    ) by {
                        if i == 0 {
                            if ps[0] is Param {
                                assert(vals[0].len() > 0);
                            }
                        } else {
                            assert(ps.skip(1)[i - 1] == ps[i]);
                            assert(tail_ss[i - 1] == ss[i]);
                            assert(one_match(ps.skip(1)[i - 1], tail_ss[i - 1]));
                        }
                    }
                }
            }
            assert(captures_of(ps, ss) == (match ps[0] {
                PatSegV::Param => seq![ss[0]],
                _ => Seq::<Seq<char>>::empty(),
            }) + captures_of(ps.skip(1), ss.skip(1)));
            assert(captures_of(ps.skip(1), ss.skip(1)) == tail_vals);
            if ps[0] is Param {
                assert(captures_of(ps, ss) =~= seq![vals[0]] + vals.skip(1));
                assert(seq![vals[0]] + vals.skip(1) =~= vals);
            } else {
                assert(captures_of(ps, ss) =~= vals);
            }
        }
    }
}

/// Looking a method up succeeds whenever the table holds it.
proof fn lemma_verb_lookup_contains(verbs: Seq<(Method, usize)>, i: int, m: Method)
    requires
        0 <= i < verbs.len(),
        verbs[i].0 == m,
    ensures
        verb_lookup(verbs, m) is Some,
    decreases verbs.len(),
{
    if verbs[0].0 == m {
    } else {
        assert(verbs.skip(1)[i - 1] == verbs[i]);
        lemma_verb_lookup_contains(verbs.skip(1), i - 1, m);
    }
}

} // verus!
