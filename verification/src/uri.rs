//! Parsed, validated URI patterns.
//!
//! A pattern is ASCII text starting with `/`.  Its segments are either
//! static text, a named parameter (`:name`), or a trailing catch-all
//! (`*name`).  Patterns are parsed once at configuration time and are
//! immutable afterwards; `join` concatenates an ancestor prefix and a
//! child pattern, de-duplicating the boundary slash and merging the
//! capture-name sets.

use vstd::prelude::*;
use vstd::utf8::is_ascii_chars;
use crate::captures::CaptureNames;
use crate::segments::{split_slash, split_str};

verus! {

/// The ways pattern text can be rejected.
#[derive(Clone, Copy, Debug, PartialEq, Eq, Structural)]
pub enum UriError {
    /// The text contains a character outside ASCII.
    NotAscii,
    /// The text is empty or does not start with `/`.
    MissingLeadingSlash,
    /// Two slashes stand next to each other, or the text ends in a
    /// segment with no characters.
    EmptySegment,
    /// A `:` or `*` stands somewhere other than the start of a segment.
    InvalidCharacter,
    /// A segment follows the catch-all parameter, or a second catch-all
    /// is declared.
    WildcardAlreadySet,
    /// A `:` or `*` marker is not followed by a name.
    EmptyParameterName,
    /// The same parameter name is declared twice.
    DuplicateParameterName,
}

/// The mathematical content of a pattern: its text, the declared capture
/// names in order, and whether the last of them is a catch-all.
#[verifier::ext_equal]
pub struct UriV {
    pub text: Seq<char>,
    pub names: Seq<Seq<char>>,
    pub has_wildcard: bool,
}

/// The view of the root pattern `/`.
pub open spec fn root_uri_v() -> UriV {
    UriV { text: seq!['/'], names: Seq::empty(), has_wildcard: false }
}

/// Whether `seg` is a parameter segment (`:name` or `*name`).
pub open spec fn seg_is_marker(seg: Seq<char>) -> bool {
    seg.len() > 0 && (seg[0] == ':' || seg[0] == '*')
}

/// Whether `seg` is a catch-all segment (`*name`).
pub open spec fn seg_is_wild(seg: Seq<char>) -> bool {
    seg.len() > 0 && seg[0] == '*'
}

/// A single segment is valid when it is non-empty, no `:` or `*` stands
/// after its first character, and a marker is followed by a name.
pub open spec fn seg_is_valid(seg: Seq<char>) -> bool {
    &&& seg.len() > 0
    &&& forall|j: int| 1 <= j < seg.len() ==> seg[j] != ':' && seg[j] != '*'
    &&& seg_is_marker(seg) ==> seg.len() >= 2
}

/// The declared parameter names of a segment list, in order.
pub open spec fn seg_names(segs: Seq<Seq<char>>) -> Seq<Seq<char>>
    decreases segs.len(),
{
    if segs.len() == 0 {
        Seq::empty()
    } else {
        (if seg_is_marker(segs[0]) {
            seq![segs[0].skip(1)]
        } else {
            Seq::<Seq<char>>::empty()
        }) + seg_names(segs.skip(1))
    }
}

/// Whether some segment of the list is a catch-all.
pub open spec fn segs_have_wild(segs: Seq<Seq<char>>) -> bool {
    exists|k: int| 0 <= k < segs.len() && seg_is_wild(#[trigger] segs[k])
}

/// A segment list is valid when each segment is, only the last segment
/// may be a catch-all, and the declared names are pairwise distinct.
pub open spec fn segs_valid(segs: Seq<Seq<char>>) -> bool {
    &&& forall|k: int| 0 <= k < segs.len() ==> seg_is_valid(#[trigger] segs[k])
    &&& forall|k: int| 0 <= k < segs.len() - 1 ==> !seg_is_wild(#[trigger] segs[k])
    &&& forall|i: int, j: int|
        0 <= i < j < seg_names(segs).len() ==> seg_names(segs)[i] != seg_names(segs)[j]
}

/// The segment list that validation inspects: everything between the
/// leading slash and a trailing slash, split at `/`.
pub open spec fn core_segs(s: Seq<char>) -> Seq<Seq<char>> {
    if s.len() > 1 && s.last() == '/' {
        split_slash(s.subrange(1, s.len() - 1))
    } else {
        split_slash(s.skip(1))
    }
}

/// What parsing pattern text yields: `None` for rejected text, otherwise
/// the pattern's view.  The text of an accepted pattern is kept verbatim.
pub open spec fn spec_parse(s: Seq<char>) -> Option<UriV> {
    if !is_ascii_chars(s) {
        None
    } else if s.len() == 0 || s[0] != '/' {
        None
    } else if s.len() == 1 {
        Some(root_uri_v())
    } else if segs_valid(core_segs(s)) && !(s.last() == '/' && segs_have_wild(core_segs(s))) {
        Some(
            UriV {
                text: s,
                names: seg_names(core_segs(s)),
                has_wildcard: segs_have_wild(core_segs(s)),
            },
        )
    } else {
        None
    }
}

/// The text of a joined pattern: the prefix text followed by the child
/// text, with the boundary slash de-duplicated; a root side disappears.
pub open spec fn join_text(a: Seq<char>, b: Seq<char>) -> Seq<char> {
    if a == seq!['/'] {
        b
    } else if b == seq!['/'] {
        a
    } else if a.len() > 0 && a.last() == '/' {
        a + b.skip(1)
    } else {
        a + b
    }
}

/// Whether a prefix pattern and a child pattern may be joined: nothing
/// may follow the prefix's catch-all, and no capture name may be
/// declared on both sides.
pub open spec fn join_ok(a: UriV, b: UriV) -> bool {
    &&& !(a.has_wildcard && b.text != seq!['/'])
    &&& forall|i: int, j: int|
        0 <= i < a.names.len() && 0 <= j < b.names.len() ==> #[trigger] a.names[i]
            != #[trigger] b.names[j]
}

/// Declared names distribute over concatenation of segment lists.
pub proof fn lemma_seg_names_concat(a: Seq<Seq<char>>, b: Seq<Seq<char>>)
    ensures
        seg_names(a + b) == seg_names(a) + seg_names(b),
    decreases a.len(),
{
    if a.len() == 0 {
        assert(a + b =~= b);
        assert(seg_names(a) + seg_names(b) =~= seg_names(b));
    } else {
        lemma_seg_names_concat(a.skip(1), b);
        assert((a + b).skip(1) =~= a.skip(1) + b);
        assert((a + b)[0] == a[0]);
        assert(seg_names(a + b) =~= seg_names(a) + seg_names(b));
    }
}

/// Declared names of one more segment at the end.
pub proof fn lemma_seg_names_push(a: Seq<Seq<char>>, seg: Seq<char>)
    ensures
        seg_names(a.push(seg)) == seg_names(a) + (if seg_is_marker(seg) {
            seq![seg.skip(1)]
        } else {
            Seq::<Seq<char>>::empty()
        }),
{
    assert(a.push(seg) =~= a + seq![seg]);
    lemma_seg_names_concat(a, seq![seg]);
    let single = seq![seg];
    assert(single.skip(1) =~= Seq::<Seq<char>>::empty());
    assert(seg_names(Seq::<Seq<char>>::empty()) == Seq::<Seq<char>>::empty());
    assert(seg_names(single) == (if seg_is_marker(seg) {
        seq![seg.skip(1)]
    } else {
        Seq::<Seq<char>>::empty()
    }) + seg_names(single.skip(1)));
    assert(seg_names(single) =~= (if seg_is_marker(seg) {
        seq![seg.skip(1)]
    } else {
        Seq::<Seq<char>>::empty()
    }));
}

/// Law: an accepted pattern keeps its text verbatim, so printing a parsed
/// pattern round-trips — re-parsing the printed text accepts it and yields
/// a structurally equal pattern.
pub proof fn lemma_parse_roundtrip(s: Seq<char>)
    requires
        spec_parse(s) is Some,
    ensures
        spec_parse(s).unwrap().text == s,
        spec_parse(spec_parse(s).unwrap().text) == spec_parse(s),
{
    if s.len() == 1 {
        assert(s =~= seq!['/']);
    }
}

/// Splitting the body of joined pattern text splits each side's body.
proof fn lemma_join_core_segs(a: Seq<char>, b: Seq<char>)
    requires
        spec_parse(a) is Some,
        spec_parse(b) is Some,
        a != seq!['/'],
        b != seq!['/'],
    ensures
        core_segs(join_text(a, b)) == core_segs(a) + core_segs(b),
        join_text(a, b).len() > 1,
        join_text(a, b).last() == '/' <==> b.last() == '/',
{
    lemma_slash_led_len(a);
    lemma_slash_led_len(b);
    let t = join_text(a, b);
    let a_core: Seq<char> = if a.last() == '/' {
        a.subrange(1, a.len() - 1)
    } else {
        a.skip(1)
    };
    let b_core: Seq<char> = b.skip(1);
    if a.last() == '/' {
        assert(t =~= a + b.skip(1));
    } else {
        assert(t =~= a + b);
    }
    assert(t.len() > 1);
    assert(t.last() == b.last());
    if b.last() == '/' {
        assert(t.subrange(1, t.len() - 1) =~= a_core + seq!['/'] + b.subrange(1, b.len() - 1));
        crate::segments::lemma_split_concat(a_core, b.subrange(1, b.len() - 1));
        assert(core_segs(t) == split_slash(a_core) + split_slash(b.subrange(1, b.len() - 1)));
        assert(core_segs(b) == split_slash(b.subrange(1, b.len() - 1)));
    } else {
        assert(t.skip(1) =~= a_core + seq!['/'] + b.skip(1));
        crate::segments::lemma_split_concat(a_core, b.skip(1));
        assert(core_segs(t) == split_slash(a_core) + split_slash(b.skip(1)));
        assert(core_segs(b) == split_slash(b.skip(1)));
    }
    assert(core_segs(a) == split_slash(a_core));
}

/// Law: the text of two joinable accepted patterns joins to text that is
/// itself accepted, and the re-parse declares exactly the two patterns'
/// capture names, the prefix's first, with the catch-all carried over.
/// The recognizer re-parses registered text, so captures extracted at
/// dispatch line up with the names merged at configuration time.
pub proof fn lemma_join_reparse(a: UriV, b: UriV)
    requires
        spec_parse(a.text) == Some(a),
        spec_parse(b.text) == Some(b),
        join_ok(a, b),
    ensures
        spec_parse(join_text(a.text, b.text)) is Some,
        spec_parse(join_text(a.text, b.text)).unwrap().names == a.names + b.names,
        spec_parse(join_text(a.text, b.text)).unwrap().has_wildcard == (a.has_wildcard
            || b.has_wildcard),
{
    let root = seq!['/'];
    if a.text == root {
        assert(a == root_uri_v());
        assert(a.names + b.names =~= b.names);
    } else if b.text == root {
        assert(b == root_uri_v());
        assert(a.names + b.names =~= a.names);
    } else {
        lemma_join_core_segs(a.text, b.text);
        let t = join_text(a.text, b.text);
        let ca = core_segs(a.text);
        let cb = core_segs(b.text);
        let ct = core_segs(t);
        assert(ct == ca + cb);
        lemma_seg_names_concat(ca, cb);
        assert(seg_names(ct) == a.names + b.names);
        assert(!a.has_wildcard);
        assert(!segs_have_wild(ca));
        assert(segs_have_wild(ct) == segs_have_wild(cb)) by {
            if segs_have_wild(ct) {
                let k = choose|k: int| 0 <= k < ct.len() && seg_is_wild(#[trigger] ct[k]);
                if k < ca.len() {
                    assert(seg_is_wild(ca[k]));
                    assert(segs_have_wild(ca));
                } else {
                    assert(ct[k] == cb[k - ca.len()]);
                    assert(segs_have_wild(cb));
                }
            }
            if segs_have_wild(cb) {
                let k = choose|k: int| 0 <= k < cb.len() && seg_is_wild(#[trigger] cb[k]);
                assert(ct[k + ca.len()] == cb[k]);
                assert(seg_is_wild(ct[k + ca.len()]));
            }
        }
        assert(segs_valid(ct)) by {
            assert forall|k: int| 0 <= k < ct.len() implies seg_is_valid(#[trigger] ct[k]) by {
                if k < ca.len() {
                    assert(ct[k] == ca[k]);
                } else {
                    assert(ct[k] == cb[k - ca.len()]);
                }
            }
            assert forall|k: int| 0 <= k < ct.len() - 1 implies !seg_is_wild(
                #[trigger] ct[k],
            ) by {
                if k < ca.len() {
                    assert(ct[k] == ca[k]);
                    if seg_is_wild(ca[k]) {
                        assert(segs_have_wild(ca));
                    }
                } else {
                    assert(ct[k] == cb[k - ca.len()]);
                    assert(k - ca.len() < cb.len() - 1);
                }
            }
            let names = seg_names(ct);
            assert forall|i: int, j: int| 0 <= i < j < names.len() implies names[i]
                != names[j] by {
                assert(names == a.names + b.names);
                if j < a.names.len() {
                    assert(names[i] == a.names[i] && names[j] == a.names[j]);
                } else if i >= a.names.len() {
                    assert(names[i] == b.names[i - a.names.len()]);
                    assert(names[j] == b.names[j - a.names.len()]);
                } else {
                    assert(names[i] == a.names[i]);
                    assert(names[j] == b.names[j - a.names.len()]);
                }
            }
        }
        assert(t.len() > 1);
        assert(t[0] == '/');
        assert(is_ascii_chars(t)) by {
            assert(forall|i: int| 0 <= i < t.len() ==> '\0' <= #[trigger] t[i] <= '\u{7f}');
        }
        if t.last() == '/' {
            assert(b.text.last() == '/');
            assert(!segs_have_wild(cb));
            assert(!segs_have_wild(ct));
        }
    }
}

proof fn lemma_slash_led_len(x: Seq<char>)
    requires
        x.len() >= 1,
        x[0] == '/',
        x != seq!['/'],
    ensures
        x.len() >= 2,
{
    if x.len() == 1 {
        assert(x =~= seq!['/']);
    }
}

/// Law: joining prefix texts is associative — mounting a child scope and a
/// grandchild scope yields one prefix text however the joins are grouped.
pub proof fn lemma_join_text_assoc(a: Seq<char>, b: Seq<char>, c: Seq<char>)
    requires
        a.len() >= 1 && a[0] == '/',
        b.len() >= 1 && b[0] == '/',
        c.len() >= 1 && c[0] == '/',
    ensures
        join_text(join_text(a, b), c) == join_text(a, join_text(b, c)),
{
    let root = seq!['/'];
    if a == root {
    } else if b == root {
    } else if c == root {
        lemma_slash_led_len(b);
        if a.last() == '/' {
            assert((a + b.skip(1)).len() >= 2);
            assert(join_text(a, b) != root);
        } else {
            assert((a + b).len() >= 2);
            assert(join_text(a, b) != root);
        }
    } else {
        lemma_slash_led_len(a);
        lemma_slash_led_len(b);
        lemma_slash_led_len(c);
        let ab = join_text(a, b);
        let bc = join_text(b, c);
        if a.last() == '/' {
            assert(ab == a + b.skip(1));
            assert(ab.len() == a.len() + b.len() - 1);
        } else {
            assert(ab == a + b);
        }
        assert(ab.len() >= 2 && ab != root);
        if b.last() == '/' {
            assert(bc == b + c.skip(1));
            assert(bc.len() == b.len() + c.len() - 1);
        } else {
            assert(bc == b + c);
        }
        assert(bc.len() >= 2 && bc != root);
        if a.last() == '/' {
            assert(ab == a + b.skip(1));
            assert(ab.last() == b.last());
            if b.last() == '/' {
                assert(bc == b + c.skip(1));
                assert((a + b.skip(1)) + c.skip(1) =~= a + (b + c.skip(1)).skip(1));
            } else {
                assert(bc == b + c);
                assert((a + b.skip(1)) + c =~= a + (b + c).skip(1));
            }
        } else {
            assert(ab == a + b);
            assert(ab.last() == b.last());
            if b.last() == '/' {
                assert(bc == b + c.skip(1));
                assert((a + b) + c.skip(1) =~= a + (b + c.skip(1)));
            } else {
                assert(bc == b + c);
                assert((a + b) + c =~= a + (b + c));
            }
        }
    }
}

/// Law: for ordinary prefixes (starting with `/`, not themselves `/`, and
/// without a trailing slash) the grandchild's registered prefix is the
/// plain concatenation of the three prefix texts.
pub proof fn lemma_join_text_concat3(a: Seq<char>, b: Seq<char>, c: Seq<char>)
    requires
        a.len() >= 2 && a[0] == '/' && a.last() != '/',
        b.len() >= 2 && b[0] == '/' && b.last() != '/',
        c.len() >= 2 && c[0] == '/' && c.last() != '/',
    ensures
        join_text(join_text(a, b), c) == a + b + c,
{
    let root = seq!['/'];
    assert(a != root && b != root && c != root);
    let ab = join_text(a, b);
    assert(ab == a + b);
    assert(ab.len() >= 2 && ab != root);
    assert(ab.last() == b.last());
    assert(join_text(ab, c) == (a + b) + c);
}

enum UriKind {
    Root,
    Segments(String, Option<CaptureNames>),
}

/// A parsed, validated, immutable URI pattern.
pub struct Uri(UriKind);

impl PartialEq for Uri {
    /// Patterns are compared by their text.
    fn eq(&self, other: &Self) -> bool {
        crate::segments::str_eq(self.as_str(), other.as_str())
    }
}

impl vstd::std_specs::cmp::PartialEqSpecImpl for Uri {
    open spec fn obeys_eq_spec() -> bool {
        true
    }

    open spec fn eq_spec(&self, other: &Uri) -> bool {
        self@.text == other@.text
    }
}

impl View for Uri {
    type V = UriV;

    closed spec fn view(&self) -> UriV {
        match self.0 {
            UriKind::Root => root_uri_v(),
            UriKind::Segments(s, names) => UriV {
                text: s@,
                names: match names {
                    Some(ns) => ns@.names,
                    None => Seq::empty(),
                },
                has_wildcard: match names {
                    Some(ns) => ns@.has_wildcard,
                    None => false,
                },
            },
        }
    }
}

impl Uri {
    /// Well-formedness of a pattern value: ASCII text that starts with a
    /// slash, and unique non-empty capture names that exist only when the
    /// name set is non-empty.
    pub closed spec fn wf(&self) -> bool {
        match self.0 {
            UriKind::Root => true,
            UriKind::Segments(s, names) => {
                &&& is_ascii_chars(s@)
                &&& s@.len() >= 2
                &&& s@[0] == '/'
                &&& match names {
                    Some(ns) => ns.wf() && ns@.names.len() > 0,
                    None => true,
                }
            },
        }
    }

    /// Whether this is the root pattern `/`.
    pub closed spec fn spec_is_root(&self) -> bool {
        self.0 is Root
    }

    /// The well-formedness facts that every caller may use.
    pub proof fn lemma_wf(&self)
        requires
            self.wf(),
        ensures
            is_ascii_chars(self@.text),
            self@.text.len() >= 1,
            self@.text[0] == '/',
            self.spec_is_root() <==> self@.text == seq!['/'],
            forall|i: int, j: int|
                0 <= i < j < self@.names.len() ==> self@.names[i] != self@.names[j],
            forall|i: int| 0 <= i < self@.names.len() ==> self@.names[i].len() > 0,
            self@.names.len() == 0 ==> !self@.has_wildcard,
    {
        match self.0 {
            UriKind::Root => {},
            UriKind::Segments(ref s, ref names) => {
                assert(self@.text.len() >= 2);
                assert(self@.text != seq!['/']);
            },
        }
    }

    /// The root pattern `/`.
    pub fn root() -> (r: Self)
        ensures
            r@ == root_uri_v(),
            r.wf(),
            r.spec_is_root(),
    {
        Uri(UriKind::Root)
    }

    /// The pattern text.  The root pattern prints as `/`; any other
    /// pattern prints exactly as it was declared.
    pub fn as_str(&self) -> (r: &str)
        ensures
            r@ == self@.text,
    {
        match &self.0 {
            UriKind::Root => {
                proof {
                    reveal_strlit("/");
                }
                "/"
            },
            UriKind::Segments(s, _) => s.as_str(),
        }
    }

    /// Parses declared pattern text.  Accepted text is kept verbatim; the
    /// exact outcome, success and failure alike, is `spec_parse`.
    #[verifier::loop_isolation(false)]
    pub fn parse(s: &str) -> (r: Result<Uri, UriError>)
        ensures
            match r {
                Ok(u) => {
                    &&& spec_parse(s@) == Some(u@)
                    &&& u@.text == s@
                    &&& u.wf()
                },
                Err(e) => {
                    &&& spec_parse(s@) is None
                    &&& (e == UriError::NotAscii <==> !is_ascii_chars(s@))
                    &&& (e == UriError::MissingLeadingSlash <==> is_ascii_chars(s@) && (s@.len()
                        == 0 || s@[0] != '/'))
                    &&& (e == UriError::EmptySegment ==> exists|k: int|
                        0 <= k < core_segs(s@).len() && (#[trigger] core_segs(s@)[k]).len() == 0)
                    &&& (e == UriError::InvalidCharacter ==> exists|k: int, j: int|
                        0 <= k < core_segs(s@).len() && 1 <= j < core_segs(s@)[k].len() && (
                        #[trigger] core_segs(s@)[k][j] == ':' || core_segs(s@)[k][j] == '*'))
                    &&& (e == UriError::EmptyParameterName ==> exists|k: int|
                        0 <= k < core_segs(s@).len() && seg_is_marker(#[trigger] core_segs(
                            s@,
                        )[k]) && core_segs(s@)[k].len() == 1)
                    &&& (e == UriError::DuplicateParameterName ==> exists|i: int, j: int|
                        0 <= i < j < seg_names(core_segs(s@)).len() && #[trigger] seg_names(
                            core_segs(s@),
                        )[i] == #[trigger] seg_names(core_segs(s@))[j])
                    &&& (e == UriError::WildcardAlreadySet ==> (exists|k: int|
                        0 <= k < core_segs(s@).len() - 1 && seg_is_wild(#[trigger] core_segs(
                            s@,
                        )[k])) || (s@.last() == '/' && segs_have_wild(core_segs(s@))))
                },
            },
    {
        if !s.is_ascii() {
            return Err(UriError::NotAscii);
        }
        let n = s.unicode_len();
        if n == 0 || s.get_char(0) != '/' {
            return Err(UriError::MissingLeadingSlash);
        }
        if n == 1 {
            proof {
                assert(s@ =~= seq!['/']);
            }
            return Ok(Uri::root());
        }
        let core_end: usize = if s.get_char(n - 1) == '/' {
            n - 1
        } else {
            n
        };
        let segs = split_str(s, 1, core_end);
        let ghost views = crate::segments::seg_views(segs@);
        proof {
            if core_end < n {
                assert(s@.subrange(1, core_end as int) =~= s@.subrange(1, s@.len() - 1));
            } else {
                assert(s@.subrange(1, core_end as int) =~= s@.skip(1));
            }
            assert(views == core_segs(s@));
        }
        let mut names = CaptureNames::new();
        let nsegs = segs.len();
        let mut k: usize = 0;
        proof {
            assert(views.take(0) =~= Seq::<Seq<char>>::empty());
        }
        while k < nsegs
            invariant
                nsegs == segs@.len(),
                k <= nsegs,
                views == crate::segments::seg_views(segs@),
                views.len() == nsegs,
                views == core_segs(s@),
                forall|t: int| 0 <= t < nsegs ==> is_ascii_chars(#[trigger] segs@[t]@),
                names.wf(),
                names@.names == seg_names(views.take(k as int)),
                names@.has_wildcard == segs_have_wild(views.take(k as int)),
                forall|t: int| 0 <= t < k ==> seg_is_valid(#[trigger] views[t]),
                forall|t: int| 0 <= t < k - 1 ==> !seg_is_wild(#[trigger] views[t]),
            decreases nsegs - k,
        {
            let ghost pre = views.take(k as int);
            proof {
                assert(views[k as int] == segs@[k as int]@);
            }
            if names.has_wildcard() {
                proof {
                    let t = choose|t: int| 0 <= t < pre.len() && seg_is_wild(#[trigger] pre[t]);
                    assert(seg_is_wild(views[t]));
                    assert(!segs_valid(core_segs(s@)));
                }
                return Err(UriError::WildcardAlreadySet);
            }
            proof {
                assert forall|t: int| 0 <= t < k implies !seg_is_wild(#[trigger] views[t]) by {
                    if seg_is_wild(views[t]) {
                        assert(pre[t] == views[t]);
                        assert(segs_have_wild(pre));
                    }
                }
            }
            let sg = segs[k].as_str();
            let m = sg.unicode_len();
            proof {
                assert(sg@ == views[k as int]);
            }
            if m == 0 {
                proof {
                    assert(!seg_is_valid(views[k as int]));
                    assert(!segs_valid(core_segs(s@)));
                }
                return Err(UriError::EmptySegment);
            }
            let mut j: usize = 1;
            while j < m
                invariant
                    m == sg@.len(),
                    1 <= j <= m,
                    forall|t: int| 1 <= t < j ==> sg@[t] != ':' && sg@[t] != '*',
                decreases m - j,
            {
                let c = sg.get_char(j);
                if c == ':' || c == '*' {
                    proof {
                        assert(!seg_is_valid(views[k as int]));
                        assert(!segs_valid(core_segs(s@)));
                    }
                    return Err(UriError::InvalidCharacter);
                }
                j = j + 1;
            }
            let c0 = sg.get_char(0);
            if c0 == ':' || c0 == '*' {
                let name = sg.substring_ascii(1, m);
                proof {
                    assert(name@ =~= views[k as int].skip(1));
                }
                match names.push_name(name, c0 == '*') {
                    Ok(()) => {},
                    Err(e) => {
                        proof {
                            if e == UriError::EmptyParameterName {
                                assert(views[k as int].len() == 1);
                                assert(!seg_is_valid(views[k as int]));
                                assert(!segs_valid(core_segs(s@)));
                            } else {
                                assert(e == UriError::DuplicateParameterName);
                                lemma_seg_names_concat(
                                    views.take(k as int),
                                    views.skip(k as int),
                                );
                                assert(views.take(k as int) + views.skip(k as int) =~= views);
                                let tail = views.skip(k as int);
                                assert(tail[0] == views[k as int]);
                                assert(seg_is_marker(tail[0]));
                                assert(seg_names(tail) == seq![tail[0].skip(1)] + seg_names(
                                    tail.skip(1),
                                ));
                                let full = seg_names(views);
                                let p = seg_names(views.take(k as int));
                                assert(full == p + seg_names(tail));
                                assert(full[p.len() as int] == name@);
                                let i = choose|i: int|
                                    0 <= i < p.len() && p[i] == name@;
                                assert(full[i] == name@);
                                assert(!segs_valid(core_segs(s@)));
                            }
                        }
                        return Err(e);
                    },
                }
                proof {
                    assert(views.take(k + 1) =~= views.take(k as int).push(views[k as int]));
                    lemma_seg_names_push(views.take(k as int), views[k as int]);
                    assert(names@.names =~= seg_names(views.take(k + 1)));
                    assert forall|t: int|
                        0 <= t < views.take(k + 1).len() && seg_is_wild(
                            #[trigger] views.take(k + 1)[t],
                        ) implies t == k as int by {
                        if t < k {
                            assert(!segs_have_wild(pre));
                            assert(seg_is_wild(pre[t]));
                        }
                    }
                    if c0 == '*' {
                        assert(seg_is_wild(views[k as int]));
                        assert(views.take(k + 1)[k as int] == views[k as int]);
                        assert(seg_is_wild(views.take(k + 1)[k as int]));
                        assert(segs_have_wild(views.take(k + 1)));
                    } else {
                        if segs_have_wild(views.take(k + 1)) {
                            let t = choose|t: int|
                                0 <= t < views.take(k + 1).len() && seg_is_wild(
                                    #[trigger] views.take(k + 1)[t],
                                );
                            assert(t == k as int);
                            assert(views[k as int][0] == ':');
                        }
                    }
                }
            } else {
                proof {
                    assert(views.take(k + 1) =~= views.take(k as int).push(views[k as int]));
                    lemma_seg_names_push(views.take(k as int), views[k as int]);
                    assert(names@.names =~= seg_names(views.take(k + 1)));
                    if segs_have_wild(views.take(k + 1)) {
                        let t = choose|t: int|
                            0 <= t < views.take(k + 1).len() && seg_is_wild(
                                #[trigger] views.take(k + 1)[t],
                            );
                        assert(0 <= t < pre.len() && seg_is_wild(pre[t]));
                    }
                }
            }
            proof {
                assert(seg_is_valid(views[k as int]));
            }
            k = k + 1;
        }
        proof {
            assert(views.take(nsegs as int) =~= views);
            assert(segs_valid(views)) by {
                assert(forall|t: int| 0 <= t < views.len() ==> seg_is_valid(#[trigger] views[t]));
            }
        }
        if core_end < n && names.has_wildcard() {
            return Err(UriError::WildcardAlreadySet);
        }
        proof {
            if s@.last() == '/' && segs_have_wild(views) {
                assert(core_end < n);
            }
        }
        let text = s.to_owned();
        if names.len() > 0 {
            let u = Uri(UriKind::Segments(text, Some(names)));
            proof {
                assert(u@ =~= spec_parse(s@).unwrap());
            }
            Ok(u)
        } else {
            proof {
                if segs_have_wild(views) {
                    let t = choose|t: int|
                        0 <= t < views.len() && seg_is_wild(#[trigger] views[t]);
                    lemma_seg_names_concat(views.take(t), views.skip(t));
                    assert(views.take(t) + views.skip(t) =~= views);
                    assert(views.skip(t)[0] == views[t]);
                    assert(seg_is_marker(views[t]));
                    assert(seg_names(views.skip(t)).len() >= 1);
                    assert(seg_names(views).len() >= 1);
                }
            }
            let u = Uri(UriKind::Segments(text, None));
            proof {
                assert(u@ =~= spec_parse(s@).unwrap());
            }
            Ok(u)
        }
    }

    /// Builds an independent copy of the pattern.
    pub fn duplicate(&self) -> (r: Self)
        requires
            self.wf(),
        ensures
            r@ == self@,
            r.wf(),
            r.spec_is_root() == self.spec_is_root(),
    {
        match &self.0 {
            UriKind::Root => Uri(UriKind::Root),
            UriKind::Segments(s, names) => {
                let ns = match names {
                    Some(ns) => Some(ns.duplicate()),
                    None => None,
                };
                let r = Uri(UriKind::Segments(s.clone(), ns));
                proof {
                    assert(r@ =~= self@);
                }
                r
            },
        }
    }

    /// Concatenates an ancestor prefix and a child pattern.  The boundary
    /// slash is de-duplicated and the capture-name sets are merged; the
    /// join fails when the prefix already holds a catch-all and anything
    /// follows it, or when a capture name is declared on both sides.
    #[verifier::loop_isolation(false)]
    pub fn join(&self, other: &Uri) -> (r: Result<Uri, UriError>)
        requires
            self.wf(),
            other.wf(),
        ensures
            match r {
                Ok(u) => {
                    &&& u.wf()
                    &&& u@.text == join_text(self@.text, other@.text)
                    &&& u@.names == self@.names + other@.names
                    &&& u@.has_wildcard == (self@.has_wildcard || other@.has_wildcard)
                    &&& !(self@.has_wildcard && !other.spec_is_root())
                    &&& forall|i: int, j: int|
                        0 <= i < self@.names.len() && 0 <= j < other@.names.len()
                            ==> self@.names[i] != other@.names[j]
                },
                Err(UriError::WildcardAlreadySet) => self@.has_wildcard && !other.spec_is_root(),
                Err(UriError::DuplicateParameterName) => {
                    &&& !(self@.has_wildcard && !other.spec_is_root())
                    &&& exists|j: int|
                        0 <= j < other@.names.len() && self@.names.contains(
                            #[trigger] other@.names[j],
                        )
                },
                Err(_) => false,
            },
    {
        proof {
            self.lemma_wf();
            other.lemma_wf();
        }
        match (&self.0, &other.0) {
            (UriKind::Root, _) => {
                let u = other.duplicate();
                proof {
                    assert(self@.names + other@.names =~= other@.names);
                    assert(self@.text == seq!['/']);
                }
                Ok(u)
            },
            (UriKind::Segments(..), UriKind::Root) => {
                let u = self.duplicate();
                proof {
                    assert(self@.names + other@.names =~= self@.names);
                    assert(other@.text == seq!['/']);
                    assert(self@.text != seq!['/']);
                }
                Ok(u)
            },
            (UriKind::Segments(sa, names_a), UriKind::Segments(sb, names_b)) => {
                let wild_a = match names_a {
                    Some(ns) => ns.has_wildcard(),
                    None => false,
                };
                if wild_a {
                    return Err(UriError::WildcardAlreadySet);
                }
                let a_str = sa.as_str();
                let b_str = sb.as_str();
                let na = a_str.unicode_len();
                let nb = b_str.unicode_len();
                let mut text = a_str.to_owned();
                proof {
                    assert(self@.text != seq!['/']);
                    assert(other@.text != seq!['/']);
                }
                if a_str.get_char(na - 1) == '/' {
                    text.append(b_str.substring_ascii(1, nb));
                    proof {
                        assert(text@ =~= self@.text + other@.text.skip(1));
                    }
                } else {
                    text.append(b_str);
                    proof {
                        assert(text@ =~= self@.text + other@.text);
                    }
                }
                proof {
                    assert(text@ == join_text(self@.text, other@.text));
                    assert(is_ascii_chars(text@)) by {
                        assert(forall|i: int|
                            0 <= i < text@.len() ==> '\0' <= #[trigger] text@[i] <= '\u{7f}');
                    }
                }
                let merged: Option<CaptureNames> = match (names_a, names_b) {
                    (None, None) => None,
                    (Some(a), None) => Some(a.duplicate()),
                    (None, Some(b)) => Some(b.duplicate()),
                    (Some(a), Some(b)) => {
                        let mut m = a.duplicate();
                        let blen = b.len();
                        let mut i: usize = 0;
                        proof {
                            assert(m@.names =~= a@.names + b@.names.take(0));
                        }
                        while i < blen
                            invariant
                                i <= blen,
                                m.wf(),
                                m@.names == a@.names + b@.names.take(i as int),
                                m@.has_wildcard == (i == blen && i > 0 && b@.has_wildcard),
                                forall|j: int|
                                    0 <= j < i ==> !a@.names.contains(#[trigger] b@.names[j]),
                            decreases blen - i,
                        {
                            let name = match b.get(i) {
                                Some(v) => v,
                                None => {
                                    proof {
                                        assert(false);
                                    }
                                    return Err(UriError::EmptyParameterName);
                                },
                            };
                            let wild = b.has_wildcard() && i + 1 == blen;
                            match m.push_name(name.as_str(), wild) {
                                Ok(()) => {},
                                Err(e) => {
                                    proof {
                                        assert(e == UriError::DuplicateParameterName);
                                        let pre = a@.names + b@.names.take(i as int);
                                        assert(pre.contains(name@));
                                        let t = choose|t: int|
                                            0 <= t < pre.len() && pre[t] == name@;
                                        if t < a@.names.len() {
                                            assert(a@.names[t] == b@.names[i as int]);
                                            assert(a@.names.contains(b@.names[i as int]));
                                        } else {
                                            let u = t - a@.names.len();
                                            assert(b@.names[u] == b@.names[i as int]);
                                            assert(u < i);
                                        }
                                    }
                                    return Err(UriError::DuplicateParameterName);
                                },
                            }
                            proof {
                                assert(m@.names =~= a@.names + b@.names.take(i + 1));
                                let pre = a@.names + b@.names.take(i as int);
                                assert(!pre.contains(b@.names[i as int]));
                                assert forall|j: int| 0 <= j < i + 1 implies !a@.names.contains(
                                    #[trigger] b@.names[j],
                                ) by {
                                    if j == i {
                                        if a@.names.contains(b@.names[j]) {
                                            let t = choose|t: int|
                                                0 <= t < a@.names.len() && a@.names[t]
                                                    == b@.names[j];
                                            assert(pre[t] == b@.names[j]);
                                            assert(pre.contains(b@.names[j]));
                                        }
                                    }
                                }
                            }
                            i = i + 1;
                        }
                        proof {
                            assert(b@.names.take(blen as int) =~= b@.names);
                        }
                        Some(m)
                    },
                };
                proof {
                    match &merged {
                        Some(ns) => {
                            assert(ns@.names =~= self@.names + other@.names);
                        },
                        None => {},
                    }
                }
                let u = Uri(UriKind::Segments(text, merged));
                proof {
                    assert(u@.names =~= self@.names + other@.names);
                }
                Ok(u)
            },
        }
    }

    /// The declared capture names, or `None` for a purely static pattern.
    pub fn capture_names(&self) -> (r: Option<&CaptureNames>)
        requires
            self.wf(),
        ensures
            match r {
                Some(ns) => ns@.names == self@.names && ns@.has_wildcard == self@.has_wildcard
                    && self@.names.len() > 0 && ns.wf(),
                None => self@.names.len() == 0 && !self@.has_wildcard,
            },
    {
        match &self.0 {
            UriKind::Root => None,
            UriKind::Segments(_, names) => match names {
                Some(ns) => Some(ns),
                None => None,
            },
        }
    }
}

} // verus!
