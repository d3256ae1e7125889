//! The method-indexed path router.
//!
//! Patterns are made of literal segments, named parameters (`:name`) and one
//! trailing wildcard (`*`). Resolution precedence: the most specific match
//! registered for the request method; then the most specific method-agnostic
//! match; for `HEAD`, the whole resolution is retried as `GET`; then a
//! "method not allowed" answer when a different method could serve the path;
//! and "not found" otherwise.

use vstd::prelude::*;

use crate::method::Method;

verus! {

/// One pattern segment, at the specification level.
pub enum SegView {
    Exact(Seq<char>),
    Param(Seq<char>),
    Wildcard,
}

/// One pattern segment.
pub enum Segment {
    Exact(String),
    Param(String),
    Wildcard,
}

impl View for Segment {
    type V = SegView;

    open spec fn view(&self) -> SegView {
        match self {
            Segment::Exact(s) => SegView::Exact(s@),
            Segment::Param(s) => SegView::Param(s@),
            Segment::Wildcard => SegView::Wildcard,
        }
    }
}

/// A parsed path pattern.
pub struct Pattern {
    pub segments: Vec<Segment>,
}

impl View for Pattern {
    type V = Seq<SegView>;

    open spec fn view(&self) -> Seq<SegView> {
        Seq::new(self.segments@.len(), |i: int| self.segments@[i]@)
    }
}

/// The parameters one successful match captured.
pub struct Captures {
    pub params: Vec<(String, String)>,
    pub wildcard: Option<String>,
}

impl View for Captures {
    type V = (Seq<(Seq<char>, Seq<char>)>, Option<Seq<char>>);

    open spec fn view(&self) -> (Seq<(Seq<char>, Seq<char>)>, Option<Seq<char>>) {
        (
            Seq::new(self.params@.len(), |i: int| (self.params@[i].0@, self.params@[i].1@)),
            match self.wildcard {
                Some(ref s) => Some(s@),
                None => None,
            },
        )
    }
}

impl Captures {
    /// A capture set with nothing in it.
    pub fn empty() -> (r: Captures)
        ensures
            r@ == (Seq::<(Seq<char>, Seq<char>)>::empty(), None::<Seq<char>>),
    {
        let r = Captures { params: Vec::new(), wildcard: None };
        proof {
            assert(r@.0 =~= Seq::<(Seq<char>, Seq<char>)>::empty());
        }
        r
    }

    /// The value captured for a named parameter, if there is one.
    pub fn get(&self, key: &str) -> (r: Option<&String>)
        ensures
            (match r {
                Some(v) => spec_get_value(self@.0, key@) == Some(v@),
                None => spec_get_value(self@.0, key@) is None,
            }),
    {
        let k = key.to_owned();
        proof {
            lemma_get_value_first(self@.0, key@);
        }
        let mut i: usize = 0;
        while i < self.params.len()
            invariant
                0 <= i <= self.params@.len(),
                k@ == key@,
                forall|j: int| 0 <= j < i ==> (#[trigger] self@.0[j]).0 != key@,
                (match spec_get_value(self@.0, key@) {
                    Some(v) => exists|fi: int|
                        0 <= fi < self@.0.len() && (#[trigger] self@.0[fi]).0 == key@ && self@.0[fi].1
                            == v && forall|j: int| 0 <= j < fi ==> (#[trigger] self@.0[j]).0 != key@,
                    None => forall|j: int|
                        0 <= j < self@.0.len() ==> (#[trigger] self@.0[j]).0 != key@,
                }),
            decreases self.params@.len() - i,
        {
            if self.params[i].0 == k {
                proof {
                    assert(self@.0[i as int].0 == key@ && self@.0[i as int].1
                        == self.params@[i as int].1@);
                    match spec_get_value(self@.0, key@) {
                        Some(v) => {
                            let fi = choose|fi: int|
                                0 <= fi < self@.0.len() && (#[trigger] self@.0[fi]).0 == key@
                                    && self@.0[fi].1 == v && forall|j: int|
                                    0 <= j < fi ==> (#[trigger] self@.0[j]).0 != key@;
                            assert(fi == i);
                        },
                        None => {
                            assert(self@.0[i as int].0 != key@);
                        },
                    }
                }
                return Some(&self.params[i].1);
            }
            proof {
                assert(self@.0[i as int].0 != key@);
            }
            i = i + 1;
        }
        proof {
            match spec_get_value(self@.0, key@) {
                Some(v) => {
                    let fi = choose|fi: int|
                        0 <= fi < self@.0.len() && (#[trigger] self@.0[fi]).0 == key@
                            && self@.0[fi].1 == v && forall|j: int|
                            0 <= j < fi ==> (#[trigger] self@.0[j]).0 != key@;
                    assert(self@.0[fi].0 != key@);
                },
                None => {},
            }
        }
        None
    }
}

/// The first value stored under `key` in a flat pair list, if any.
pub open spec fn spec_get_value(pairs: Seq<(Seq<char>, Seq<char>)>, key: Seq<char>) -> Option<
    Seq<char>,
>
    decreases pairs.len(),
{
    if pairs.len() == 0 {
        None
    } else if pairs[0].0 == key {
        Some(pairs[0].1)
    } else {
        spec_get_value(pairs.skip(1), key)
    }
}

/// Whether any pair carries `key`.
pub open spec fn spec_has_key(pairs: Seq<(Seq<char>, Seq<char>)>, key: Seq<char>) -> bool {
    spec_get_value(pairs, key) is Some
}

/// `spec_get_value` returns the value of the first pair with the key.
pub proof fn lemma_get_value_first(pairs: Seq<(Seq<char>, Seq<char>)>, key: Seq<char>)
    ensures
        (match spec_get_value(pairs, key) {
            Some(v) => exists|fi: int|
                0 <= fi < pairs.len() && (#[trigger] pairs[fi]).0 == key && pairs[fi].1 == v
                    && forall|j: int| 0 <= j < fi ==> (#[trigger] pairs[j]).0 != key,
            None => forall|j: int| 0 <= j < pairs.len() ==> (#[trigger] pairs[j]).0 != key,
        }),
    decreases pairs.len(),
{
    if pairs.len() > 0 {
        if pairs[0].0 == key {
            assert(0 <= 0 < pairs.len() && pairs[0].0 == key && pairs[0].1 == spec_get_value(
                pairs,
                key,
            ).unwrap() && forall|j: int| 0 <= j < 0 ==> (#[trigger] pairs[j]).0 != key);
        } else {
            lemma_get_value_first(pairs.skip(1), key);
            match spec_get_value(pairs.skip(1), key) {
                Some(v) => {
                    let fi = choose|fi: int|
                        0 <= fi < pairs.skip(1).len() && (#[trigger] pairs.skip(1)[fi]).0 == key
                            && pairs.skip(1)[fi].1 == v && forall|j: int|
                            0 <= j < fi ==> (#[trigger] pairs.skip(1)[j]).0 != key;
                    assert(pairs.skip(1)[fi] == pairs[fi + 1]);
                    assert forall|j: int| 0 <= j < fi + 1 implies (#[trigger] pairs[j]).0
                        != key by {
                        if j > 0 {
                            assert(pairs.skip(1)[j - 1] == pairs[j]);
                        }
                    }
                    assert(0 <= fi + 1 < pairs.len() && pairs[fi + 1].0 == key && pairs[fi + 1].1
                        == v && forall|j: int| 0 <= j < fi + 1 ==> (#[trigger] pairs[j]).0 != key);
                },
                None => {
                    assert forall|j: int| 0 <= j < pairs.len() implies (#[trigger] pairs[j]).0
                        != key by {
                        if j > 0 {
                            assert(pairs.skip(1)[j - 1] == pairs[j]);
                        }
                    }
                },
            }
        }
    }
}

/// The index of the first `/` in `s`, or `-1`.
pub open spec fn spec_find_slash(s: Seq<char>) -> int
    decreases s.len(),
{
    if s.len() == 0 {
        -1
    } else if s[0] == '/' {
        0
    } else {
        let r = spec_find_slash(s.skip(1));
        if r < 0 {
            -1
        } else {
            r + 1
        }
    }
}

/// `spec_find_slash` finds the first slash, and `-1` means there is none.
pub proof fn lemma_find_slash(s: Seq<char>)
    ensures
        -1 <= spec_find_slash(s) < s.len(),
        spec_find_slash(s) >= 0 ==> s[spec_find_slash(s)] == '/',
        forall|j: int|
            0 <= j < s.len() && (j < spec_find_slash(s) || spec_find_slash(s) == -1)
                ==> s[j] != '/',
    decreases s.len(),
{
    if s.len() > 0 && s[0] != '/' {
        lemma_find_slash(s.skip(1));
        assert forall|j: int|
            0 <= j < s.len() && (j < spec_find_slash(s) || spec_find_slash(s) == -1) implies s[j]
            != '/' by {
            if j > 0 {
                assert(s.skip(1)[j - 1] == s[j]);
            }
        }
    }
}

/// A path's nonempty segments, in order.
pub open spec fn spec_split(s: Seq<char>) -> Seq<Seq<char>>
    decreases s.len(),
{
    if s.len() == 0 {
        Seq::<Seq<char>>::empty()
    } else if s[0] == '/' {
        spec_split(s.skip(1))
    } else {
        let f = spec_find_slash(s);
        if 0 < f < s.len() {
            seq![s.take(f)] + spec_split(s.skip(f))
        } else {
            seq![s]
        }
    }
}

/// Segments joined back with `/` separators.
pub open spec fn spec_join(ss: Seq<Seq<char>>) -> Seq<char>
    decreases ss.len(),
{
    if ss.len() == 0 {
        Seq::<char>::empty()
    } else if ss.len() == 1 {
        ss[0]
    } else {
        ss[0] + seq!['/'] + spec_join(ss.skip(1))
    }
}

/// What a pattern captures on a path, segment by segment; `None` when the
/// pattern does not match.
pub open spec fn spec_match(pat: Seq<SegView>, path: Seq<Seq<char>>) -> Option<
    (Seq<(Seq<char>, Seq<char>)>, Option<Seq<char>>),
>
    decreases pat.len(),
{
    if pat.len() == 0 {
        if path.len() == 0 {
            Some((Seq::<(Seq<char>, Seq<char>)>::empty(), None::<Seq<char>>))
        } else {
            None
        }
    } else {
        match pat[0] {
            SegView::Wildcard => Some(
                (Seq::<(Seq<char>, Seq<char>)>::empty(), Some(spec_join(path))),
            ),
            SegView::Exact(s) => if path.len() > 0 && path[0] == s {
                spec_match(pat.skip(1), path.skip(1))
            } else {
                None
            },
            SegView::Param(n) => if path.len() > 0 {
                match spec_match(pat.skip(1), path.skip(1)) {
                    Some(c) => Some((seq![(n, path[0])] + c.0, c.1)),
                    None => None,
                }
            } else {
                None
            },
        }
    }
}

/// How specific one segment is: literals beat parameters beat the wildcard.
pub open spec fn spec_rank(s: SegView) -> int {
    match s {
        SegView::Exact(_) => 2,
        SegView::Param(_) => 1,
        SegView::Wildcard => 0,
    }
}

/// Three-way specificity comparison of two patterns: `1` when `a` is
/// strictly more specific, `-1` when `b` is, `0` on a tie. Segmentwise by
/// rank; a shorter pattern beats a longer one with the same rank prefix.
pub open spec fn spec_cmp(a: Seq<SegView>, b: Seq<SegView>) -> int
    decreases a.len() + b.len(),
{
    if a.len() == 0 && b.len() == 0 {
        0
    } else if a.len() == 0 {
        1
    } else if b.len() == 0 {
        -1
    } else if spec_rank(a[0]) > spec_rank(b[0]) {
        1
    } else if spec_rank(a[0]) < spec_rank(b[0]) {
        -1
    } else {
        spec_cmp(a.skip(1), b.skip(1))
    }
}

/// Whether pattern `a` is strictly more specific than pattern `b`.
pub open spec fn spec_prefer(a: Seq<SegView>, b: Seq<SegView>) -> bool {
    spec_cmp(a, b) == 1
}

/// The comparison is antisymmetric and takes one of three values.
pub proof fn lemma_cmp_antisym(a: Seq<SegView>, b: Seq<SegView>)
    ensures
        spec_cmp(a, b) == -spec_cmp(b, a),
        -1 <= spec_cmp(a, b) <= 1,
    decreases a.len() + b.len(),
{
    if a.len() > 0 && b.len() > 0 && spec_rank(a[0]) == spec_rank(b[0]) {
        lemma_cmp_antisym(a.skip(1), b.skip(1));
    }
}

/// The comparison is transitive, also across ties.
pub proof fn lemma_cmp_trans(a: Seq<SegView>, b: Seq<SegView>, c: Seq<SegView>)
    requires
        spec_cmp(a, b) >= 0,
        spec_cmp(b, c) >= 0,
    ensures
        spec_cmp(a, c) >= 0,
        spec_cmp(a, b) == 1 || spec_cmp(b, c) == 1 ==> spec_cmp(a, c) == 1,
    decreases a.len() + b.len() + c.len(),
{
    lemma_cmp_antisym(a, b);
    lemma_cmp_antisym(b, c);
    lemma_cmp_antisym(a, c);
    if a.len() > 0 && b.len() > 0 && c.len() > 0 && spec_rank(a[0]) == spec_rank(b[0])
        && spec_rank(b[0]) == spec_rank(c[0]) {
        lemma_cmp_trans(a.skip(1), b.skip(1), c.skip(1));
    }
}

/// One registered route.
pub struct RouteEntry<H> {
    pub method: Option<Method>,
    pub pattern: Pattern,
    pub handler: H,
}

/// The router: an ordered list of registrations, resolved by specificity.
pub struct Router<H> {
    pub routes: Vec<RouteEntry<H>>,
}

/// What resolution points at: a registered handler (by registration index),
/// or one of the two fixed pseudo-handlers.
#[derive(Debug, Copy, Clone, Eq, PartialEq, Structural)]
pub enum RouteTarget {
    Endpoint(usize),
    NotFound,
    MethodNotAllowed,
}

/// The outcome of routing one request.
pub struct Selection {
    pub target: RouteTarget,
    pub params: Captures,
}

impl<H> Router<H> {
    /// The method and pattern of each registration, in order.
    pub open spec fn routes_view(self) -> Seq<(Option<Method>, Seq<SegView>)> {
        Seq::new(self.routes@.len(), |i: int| (self.routes@[i].method, self.routes@[i].pattern@))
    }
}

/// Whether registration `i` is for `want` and matches the path.
pub open spec fn spec_route_matches(
    routes: Seq<(Option<Method>, Seq<SegView>)>,
    i: int,
    want: Option<Method>,
    path: Seq<Seq<char>>,
) -> bool {
    0 <= i < routes.len() && routes[i].0 == want && spec_match(routes[i].1, path) is Some
}

/// Whether any registration for `want` matches the path.
pub open spec fn spec_exists_match(
    routes: Seq<(Option<Method>, Seq<SegView>)>,
    want: Option<Method>,
    path: Seq<Seq<char>>,
) -> bool {
    exists|i: int| spec_route_matches(routes, i, want, path)
}

/// Whether registration `i` wins among all registrations for `want` that
/// match the path: strictly more specific than every other, or equally
/// specific and registered earlier.
pub open spec fn spec_is_best(
    routes: Seq<(Option<Method>, Seq<SegView>)>,
    want: Option<Method>,
    path: Seq<Seq<char>>,
    i: int,
) -> bool {
    &&& spec_route_matches(routes, i, want, path)
    &&& forall|j: int|
        spec_route_matches(routes, j, want, path) ==> i == j || spec_prefer(
            routes[i].1,
            (#[trigger] routes[j]).1,
        ) || (!spec_prefer(routes[j].1, routes[i].1) && i < j)
}

/// Whether registration `i` is for a concrete method other than `method`
/// and matches the path.
pub open spec fn spec_is_other(
    routes: Seq<(Option<Method>, Seq<SegView>)>,
    i: int,
    method: Method,
    path: Seq<Seq<char>>,
) -> bool {
    &&& 0 <= i < routes.len()
    &&& routes[i].0 is Some
    &&& routes[i].0 != Some(method)
    &&& spec_match(routes[i].1, path) is Some
}

/// Whether a registration for some concrete method other than `method`
/// matches the path.
pub open spec fn spec_other_method_matches(
    routes: Seq<(Option<Method>, Seq<SegView>)>,
    method: Method,
    path: Seq<Seq<char>>,
) -> bool {
    exists|i: int| spec_is_other(routes, i, method, path)
}

/// The router's full resolution contract, tier by tier.
pub open spec fn spec_route_ok(
    routes: Seq<(Option<Method>, Seq<SegView>)>,
    method: Method,
    path: Seq<Seq<char>>,
    target: RouteTarget,
    caps: (Seq<(Seq<char>, Seq<char>)>, Option<Seq<char>>),
) -> bool
    decreases (if method is Head { 1int } else { 0int }),
{
    if spec_exists_match(routes, Some(method), path) {
        target matches RouteTarget::Endpoint(i) && spec_is_best(routes, Some(method), path, i as int)
            && Some(caps) == spec_match(routes[i as int].1, path)
    } else if spec_exists_match(routes, None, path) {
        target matches RouteTarget::Endpoint(i) && spec_is_best(routes, None, path, i as int)
            && Some(caps) == spec_match(routes[i as int].1, path)
    } else if method is Head {
        spec_route_ok(routes, Method::Get, path, target, caps)
    } else if spec_other_method_matches(routes, method, path) {
        target == RouteTarget::MethodNotAllowed && caps == (
            Seq::<(Seq<char>, Seq<char>)>::empty(),
            None::<Seq<char>>,
        )
    } else {
        target == RouteTarget::NotFound && caps == (
            Seq::<(Seq<char>, Seq<char>)>::empty(),
            None::<Seq<char>>,
        )
    }
}

/// How a path piece reads as a pattern segment.
pub open spec fn spec_classify(piece: Seq<char>) -> SegView {
    if piece.len() >= 1 && piece[0] == ':' {
        SegView::Param(piece.skip(1))
    } else if piece == seq!['*'] {
        SegView::Wildcard
    } else {
        SegView::Exact(piece)
    }
}

/// The pattern a path string denotes.
pub open spec fn spec_parse_pattern(s: Seq<char>) -> Seq<SegView> {
    spec_split(s).map_values(|p: Seq<char>| spec_classify(p))
}

/// A wildcard may only stand at the end.
pub open spec fn spec_pattern_wf(pat: Seq<SegView>) -> bool {
    forall|i: int| 0 <= i < pat.len() && (#[trigger] pat[i]) is Wildcard ==> i == pat.len() - 1
}

/// The index of the first `/` in `s`, scanned from the front.
fn find_slash(s: &str) -> (r: Option<usize>)
    requires
        s.is_ascii(),
    ensures
        (match r {
            Some(i) => i == spec_find_slash(s@),
            None => spec_find_slash(s@) == -1,
        }),
{
    proof {
        lemma_find_slash(s@);
        broadcast use vstd::utf8::is_ascii_chars_nat_bound;

    }
    let n = s.unicode_len();
    let mut i: usize = 0;
    while i < n
        invariant
            0 <= i <= s@.len(),
            n == s@.len(),
            s.is_ascii(),
            forall|j: int| 0 <= j < i ==> s@[j] != '/',
            -1 <= spec_find_slash(s@) < s@.len(),
            spec_find_slash(s@) >= 0 ==> s@[spec_find_slash(s@)] == '/',
            forall|j: int|
                0 <= j < s@.len() && (j < spec_find_slash(s@) || spec_find_slash(s@) == -1)
                    ==> s@[j] != '/',
        decreases s@.len() - i,
    {
        let b = s.get_ascii(i);
        if b == 47 {
            proof {
                broadcast use vstd::utf8::is_ascii_chars_nat_bound;

                assert((s@.index(i as int) as nat) < 128);
                crate::ascii::lemma_ascii_char_roundtrip(s@[i as int]);
                assert(s@[i as int] == ((47u8) as char));
                assert(s@[i as int] == '/');
            }
            return Some(i);
        }
        proof {
            assert(s@[i as int] != '/') by {
                if s@[i as int] == '/' {
                    assert((s@[i as int] as u8) == 47);
                }
            }
        }
        i = i + 1;
    }
    None
}

/// Split a path into its nonempty segments.
pub fn split_path(s: &str) -> (r: Vec<String>)
    requires
        s.is_ascii(),
    ensures
        r.deep_view() == spec_split(s@),
        forall|i: int|
            0 <= i < r.deep_view().len() ==> vstd::utf8::is_ascii_chars(#[trigger] r.deep_view()[i]),
    decreases s@.len(),
{
    let n = s.unicode_len();
    if n == 0 {
        let r: Vec<String> = Vec::new();
        proof {
            assert(r.deep_view() =~= spec_split(s@));
        }
        r
    } else if s.get_ascii(0) == 47 {
        proof {
            broadcast use vstd::utf8::is_ascii_chars_nat_bound;

            assert((s@.index(0) as nat) < 128);
            crate::ascii::lemma_ascii_char_roundtrip(s@[0]);
            assert(s@[0] == '/');
        }
        let rest = s.substring_ascii(1, n);
        let r = split_path(rest);
        proof {
            assert(rest@ =~= s@.skip(1));
        }
        r
    } else {
        proof {
            assert(s@[0] != '/') by {
                broadcast use vstd::utf8::is_ascii_chars_nat_bound;

                assert((s@.index(0) as nat) < 128);
                if s@[0] == '/' {
                    assert((s@[0] as u8) == 47);
                }
            }
            lemma_find_slash(s@);
        }
        match find_slash(s) {
            None => {
                let piece = s.to_owned();
                let mut r: Vec<String> = Vec::new();
                r.push(piece);
                proof {
                    assert(r.deep_view() =~= spec_split(s@));
                }
                r
            },
            Some(f) => {
                let piece = s.substring_ascii(0, f).to_owned();
                let rest = s.substring_ascii(f, n);
                let mut r: Vec<String> = Vec::new();
                r.push(piece);
                let mut tail = split_path(rest);
                proof {
                    assert(rest@ =~= s@.skip(f as int));
                    assert(piece@ =~= s@.take(f as int));
                }
                r.append(&mut tail);
                proof {
                    assert(r.deep_view() =~= spec_split(s@));
                }
                r
            },
        }
    }
}

/// Join path segments back with `/` separators, starting at `qi`.
fn join_from(segs: &Vec<String>, qi: usize) -> (r: String)
    requires
        qi <= segs@.len(),
    ensures
        r@ == spec_join(segs.deep_view().skip(qi as int)),
    decreases segs@.len() - qi,
{
    if qi == segs.len() {
        let r = String::new();
        proof {
            assert(segs.deep_view().skip(qi as int) =~= Seq::<Seq<char>>::empty());
        }
        r
    } else if qi + 1 == segs.len() {
        let r = segs[qi].clone();
        proof {
            assert(segs.deep_view().skip(qi as int).len() == 1);
            assert(segs.deep_view().skip(qi as int)[0] == segs@[qi as int]@);
        }
        r
    } else {
        let mut r = segs[qi].clone();
        r.append("/");
        let rest = join_from(segs, qi + 1);
        r.append(rest.as_str());
        proof {
            reveal_strlit("/");
            let tail = segs.deep_view().skip(qi as int);
            assert(tail.len() >= 2);
            assert(tail[0] == segs@[qi as int]@);
            assert(tail.skip(1) =~= segs.deep_view().skip(qi as int + 1));
            assert("/"@ =~= seq!['/']);
            assert(r@ =~= tail[0] + seq!['/'] + spec_join(tail.skip(1)));
        }
        r
    }
}

impl Pattern {
    /// Parse a path string into a pattern.
    pub fn parse(path: &str) -> (r: Pattern)
        requires
            path.is_ascii(),
        ensures
            r@ == spec_parse_pattern(path@),
    {
        let pieces = split_path(path);
        let mut segments: Vec<Segment> = Vec::new();
        let ghost sv = spec_split(path@);
        let mut i: usize = 0;
        while i < pieces.len()
            invariant
                0 <= i <= pieces@.len(),
                pieces.deep_view() == sv,
                pieces@.len() == sv.len(),
                forall|j: int| 0 <= j < sv.len() ==> vstd::utf8::is_ascii_chars(#[trigger] sv[j]),
                segments@.len() == i,
                forall|j: int| 0 <= j < i ==> #[trigger] segments@[j]@ == spec_classify(sv[j]),
            decreases pieces@.len() - i,
        {
            let piece = &pieces[i];
            let n = piece.as_str().unicode_len();
            proof {
                assert(piece@ == sv[i as int]);
            }
            let seg: Segment = if n >= 1 && piece.as_str().get_ascii(0) == 58 {
                proof {
                    broadcast use vstd::utf8::is_ascii_chars_nat_bound;

                    assert((piece@.index(0) as nat) < 128);
                    crate::ascii::lemma_ascii_char_roundtrip(piece@[0]);
                    assert(piece@[0] == ':');
                }
                Segment::Param(piece.as_str().substring_ascii(1, n).to_owned())
            } else if n == 1 && piece.as_str().get_ascii(0) == 42 {
                proof {
                    broadcast use vstd::utf8::is_ascii_chars_nat_bound;

                    assert((piece@.index(0) as nat) < 128);
                    crate::ascii::lemma_ascii_char_roundtrip(piece@[0]);
                    assert(piece@[0] == '*');
                    assert(piece@ =~= seq!['*']);
                }
                Segment::Wildcard
            } else {
                proof {
                    broadcast use vstd::utf8::is_ascii_chars_nat_bound;

                    if piece@.len() >= 1 {
                        assert((piece@.index(0) as nat) < 128);
                        if piece@[0] == ':' {
                            assert((piece@[0] as u8) == 58);
                        }
                        if piece@ == seq!['*'] {
                            assert(piece@[0] == '*');
                            assert((piece@[0] as u8) == 42);
                        }
                    } else {
                        assert(piece@ != seq!['*']);
                    }
                }
                Segment::Exact(piece.clone())
            };
            proof {
                assert(seg@ == spec_classify(sv[i as int]));
            }
            segments.push(seg);
            i = i + 1;
        }
        let r = Pattern { segments };
        proof {
            assert(r@ =~= spec_parse_pattern(path@));
        }
        r
    }

    /// Match this pattern against path segments, from position `pi` of the
    /// pattern and `qi` of the path.
    fn match_at(&self, pi: usize, segs: &Vec<String>, qi: usize) -> (r: Option<Captures>)
        requires
            pi <= self.segments@.len(),
            qi <= segs@.len(),
        ensures
            (match r {
                Some(c) => spec_match(self@.skip(pi as int), segs.deep_view().skip(qi as int))
                    == Some(c@),
                None => spec_match(self@.skip(pi as int), segs.deep_view().skip(qi as int))
                    is None,
            }),
        decreases self.segments@.len() - pi,
    {
        let ghost patv = self@.skip(pi as int);
        let ghost pathv = segs.deep_view().skip(qi as int);
        if pi == self.segments.len() {
            if qi == segs.len() {
                proof {
                    assert(patv.len() == 0 && pathv.len() == 0);
                }
                Some(Captures::empty())
            } else {
                proof {
                    assert(patv.len() == 0 && pathv.len() != 0);
                }
                None
            }
        } else {
            proof {
                assert(patv[0] == self@[pi as int]);
                assert(patv.skip(1) =~= self@.skip(pi as int + 1));
                if qi < segs@.len() {
                    assert(pathv[0] == segs.deep_view()[qi as int]);
                    assert(pathv.skip(1) =~= segs.deep_view().skip(qi as int + 1));
                }
            }
            match &self.segments[pi] {
                Segment::Wildcard => {
                    let w = join_from(segs, qi);
                    let r = Captures { params: Vec::new(), wildcard: Some(w) };
                    proof {
                        assert(r@.0 =~= Seq::<(Seq<char>, Seq<char>)>::empty());
                    }
                    Some(r)
                },
                Segment::Exact(s) => {
                    if qi < segs.len() && segs[qi] == *s {
                        proof {
                            assert(pathv[0] == s@);
                        }
                        self.match_at(pi + 1, segs, qi + 1)
                    } else {
                        proof {
                            if qi < segs@.len() {
                                assert(pathv[0] != s@);
                            }
                        }
                        None
                    }
                },
                Segment::Param(n) => {
                    if qi < segs.len() {
                        match self.match_at(pi + 1, segs, qi + 1) {
                            Some(c) => {
                                let mut c = c;
                                let ghost cv = c@;
                                c.params.insert(0, (n.clone(), segs[qi].clone()));
                                proof {
                                    assert(c@.0 =~= seq![(n@, pathv[0])] + cv.0);
                                    assert(c@.1 == cv.1);
                                }
                                Some(c)
                            },
                            None => None,
                        }
                    } else {
                        None
                    }
                },
            }
        }
    }
}

/// The specificity rank of one segment.
fn seg_rank(s: &Segment) -> (r: u8)
    ensures
        r as int == spec_rank(s@),
{
    match s {
        Segment::Exact(_) => 2,
        Segment::Param(_) => 1,
        Segment::Wildcard => 0,
    }
}

/// Whether pattern `a` is strictly more specific than pattern `b`, from
/// positions `ai` and `bi` on.
fn prefer_at(a: &Pattern, ai: usize, b: &Pattern, bi: usize) -> (r: bool)
    requires
        ai <= a.segments@.len(),
        bi <= b.segments@.len(),
    ensures
        r == (spec_cmp(a@.skip(ai as int), b@.skip(bi as int)) == 1),
    decreases a.segments@.len() - ai + b.segments@.len() - bi,
{
    proof {
        lemma_cmp_antisym(a@.skip(ai as int), b@.skip(bi as int));
        if ai < a.segments@.len() {
            assert(a@.skip(ai as int)[0] == a@[ai as int]);
            assert(a@.skip(ai as int).skip(1) =~= a@.skip(ai as int + 1));
        }
        if bi < b.segments@.len() {
            assert(b@.skip(bi as int)[0] == b@[bi as int]);
            assert(b@.skip(bi as int).skip(1) =~= b@.skip(bi as int + 1));
        }
    }
    if ai == a.segments.len() && bi == b.segments.len() {
        false
    } else if ai == a.segments.len() {
        true
    } else if bi == b.segments.len() {
        false
    } else {
        let ra = seg_rank(&a.segments[ai]);
        let rb = seg_rank(&b.segments[bi]);
        if ra > rb {
            true
        } else if ra < rb {
            false
        } else {
            prefer_at(a, ai + 1, b, bi + 1)
        }
    }
}

impl<H> Router<H> {
    /// An empty router.
    pub fn new() -> (r: Router<H>)
        ensures
            r.routes_view() =~= Seq::<(Option<Method>, Seq<SegView>)>::empty(),
            r.routes@.len() == 0,
    {
        Router { routes: Vec::new() }
    }

    /// Register a handler for one method and pattern.
    pub fn add(&mut self, path: &str, method: Method, handler: H)
        requires
            path.is_ascii(),
            spec_pattern_wf(spec_parse_pattern(path@)),
        ensures
            final(self).routes@.len() == old(self).routes@.len() + 1,
            forall|i: int|
                0 <= i < old(self).routes@.len() ==> #[trigger] final(self).routes@[i] == old(
                    self,
                ).routes@[i],
            final(self).routes@.last().method == Some(method),
            final(self).routes@.last().pattern@ == spec_parse_pattern(path@),
            final(self).routes@.last().handler == handler,
    {
        let pattern = Pattern::parse(path);
        self.routes.push(RouteEntry { method: Some(method), pattern, handler });
    }

    /// Register a method-agnostic fallback handler for one pattern.
    pub fn add_all(&mut self, path: &str, handler: H)
        requires
            path.is_ascii(),
            spec_pattern_wf(spec_parse_pattern(path@)),
        ensures
            final(self).routes@.len() == old(self).routes@.len() + 1,
            forall|i: int|
                0 <= i < old(self).routes@.len() ==> #[trigger] final(self).routes@[i] == old(
                    self,
                ).routes@[i],
            final(self).routes@.last().method is None,
            final(self).routes@.last().pattern@ == spec_parse_pattern(path@),
            final(self).routes@.last().handler == handler,
    {
        let pattern = Pattern::parse(path);
        self.routes.push(RouteEntry { method: None, pattern, handler });
    }

    /// The handler a selection's endpoint index points at.
    pub fn handler(&self, i: usize) -> (r: &H)
        requires
            i < self.routes@.len(),
        ensures
            r == &self.routes@[i as int].handler,
    {
        &self.routes[i].handler
    }

    /// The most specific registration for `want` that matches the path.
    fn best_match(&self, want: Option<Method>, segs: &Vec<String>) -> (r: Option<(usize, Captures)>)
        ensures
            (match r {
                Some((i, c)) => spec_is_best(self.routes_view(), want, segs.deep_view(), i as int)
                    && Some(c@) == spec_match(self.routes_view()[i as int].1, segs.deep_view()),
                None => !spec_exists_match(self.routes_view(), want, segs.deep_view()),
            }),
    {
        let ghost rv = self.routes_view();
        let ghost sv = segs.deep_view();
        let mut have: bool = false;
        let mut best_i: usize = 0;
        let mut best_caps = Captures::empty();
        let mut idx: usize = 0;
        while idx < self.routes.len()
            invariant
                0 <= idx <= self.routes@.len(),
                rv == self.routes_view(),
                sv == segs.deep_view(),
                rv.len() == self.routes@.len(),
                have ==> best_i < idx && spec_route_matches(rv, best_i as int, want, sv) && Some(
                    best_caps@,
                ) == spec_match(rv[best_i as int].1, sv),
                have ==> forall|j: int|
                    0 <= j < idx && spec_route_matches(rv, j, want, sv) ==> best_i == j
                        || spec_prefer(rv[best_i as int].1, (#[trigger] rv[j]).1) || (!spec_prefer(
                        rv[j].1,
                        rv[best_i as int].1,
                    ) && best_i < j),
                !have ==> forall|j: int| 0 <= j < idx ==> !spec_route_matches(rv, j, want, sv),
            decreases self.routes@.len() - idx,
        {
            let entry = &self.routes[idx];
            let same_method: bool = match (&entry.method, &want) {
                (Some(a), Some(b)) => *a == *b,
                (None, None) => true,
                _ => false,
            };
            proof {
                assert(rv[idx as int].0 == entry.method);
                assert(rv[idx as int].1 == entry.pattern@);
                assert(entry.pattern@.skip(0) =~= entry.pattern@);
                assert(sv.skip(0) =~= sv);
            }
            if same_method {
                match entry.pattern.match_at(0, segs, 0) {
                    Some(caps) => {
                        if !have {
                            have = true;
                            best_i = idx;
                            best_caps = caps;
                        } else {
                            let better = prefer_at(&entry.pattern, 0, &self.routes[best_i].pattern, 0);
                            proof {
                                assert(rv[best_i as int].1.skip(0) =~= rv[best_i as int].1);
                            }
                            if better {
                                proof {
                                    assert forall|j: int|
                                        0 <= j < idx + 1 && spec_route_matches(rv, j, want, sv)
                                            implies idx == j || spec_prefer(
                                            rv[idx as int].1,
                                            (#[trigger] rv[j]).1,
                                        ) || (!spec_prefer(rv[j].1, rv[idx as int].1) && idx
                                            < j) by {
                                        if j < idx {
                                            lemma_cmp_antisym(rv[best_i as int].1, rv[j].1);
                                            lemma_cmp_antisym(rv[idx as int].1, rv[j].1);
                                            if best_i == j {
                                            } else if spec_prefer(rv[best_i as int].1, rv[j].1) {
                                                lemma_cmp_trans(
                                                    rv[idx as int].1,
                                                    rv[best_i as int].1,
                                                    rv[j].1,
                                                );
                                            } else {
                                                lemma_cmp_trans(
                                                    rv[idx as int].1,
                                                    rv[best_i as int].1,
                                                    rv[j].1,
                                                );
                                            }
                                        }
                                    }
                                }
                                best_i = idx;
                                best_caps = caps;
                            } else {
                                proof {
                                    lemma_cmp_antisym(rv[idx as int].1, rv[best_i as int].1);
                                }
                            }
                        }
                    },
                    None => {
                        proof {
                            assert(!spec_route_matches(rv, idx as int, want, sv));
                        }
                    },
                }
            } else {
                proof {
                    assert(rv[idx as int].0 != want);
                    assert(!spec_route_matches(rv, idx as int, want, sv));
                }
            }
            idx = idx + 1;
        }
        if have {
            proof {
                assert(spec_is_best(rv, want, sv, best_i as int));
            }
            Some((best_i, best_caps))
        } else {
            proof {
                assert forall|j: int| !spec_route_matches(rv, j, want, sv) by {
                    if 0 <= j < rv.len() {
                        assert(!spec_route_matches(rv, j, want, sv));
                    }
                }
            }
            None
        }
    }

    /// Whether some registration for a different concrete method matches.
    fn other_method_matches(&self, method: Method, segs: &Vec<String>) -> (r: bool)
        ensures
            r == spec_other_method_matches(self.routes_view(), method, segs.deep_view()),
    {
        let ghost rv = self.routes_view();
        let ghost sv = segs.deep_view();
        let mut idx: usize = 0;
        while idx < self.routes.len()
            invariant
                0 <= idx <= self.routes@.len(),
                rv == self.routes_view(),
                sv == segs.deep_view(),
                rv.len() == self.routes@.len(),
                forall|j: int| 0 <= j < idx ==> !spec_is_other(rv, j, method, sv),
            decreases self.routes@.len() - idx,
        {
            let entry = &self.routes[idx];
            let is_other_method: bool = match &entry.method {
                Some(m) => *m != method,
                None => false,
            };
            proof {
                assert(rv[idx as int].0 == entry.method);
                assert(rv[idx as int].1 == entry.pattern@);
                assert(entry.pattern@.skip(0) =~= entry.pattern@);
                assert(sv.skip(0) =~= sv);
            }
            if is_other_method {
                match entry.pattern.match_at(0, segs, 0) {
                    Some(_) => {
                        proof {
                            assert(spec_is_other(rv, idx as int, method, sv));
                        }
                        return true;
                    },
                    None => {
                        proof {
                            assert(!spec_is_other(rv, idx as int, method, sv));
                        }
                    },
                }
            } else {
                proof {
                    assert(!spec_is_other(rv, idx as int, method, sv));
                }
            }
            idx = idx + 1;
        }
        proof {
            assert forall|j: int| !spec_is_other(rv, j, method, sv) by {
                if 0 <= j < rv.len() {
                    assert(!spec_is_other(rv, j, method, sv));
                }
            }
        }
        false
    }

    /// Resolve already-split path segments for a method.
    fn route_segments(&self, segs: &Vec<String>, method: Method) -> (r: Selection)
        ensures
            spec_route_ok(self.routes_view(), method, segs.deep_view(), r.target, r.params@),
        decreases (if method is Head { 1int } else { 0int }),
    {
        match self.best_match(Some(method), segs) {
            Some((i, caps)) => Selection { target: RouteTarget::Endpoint(i), params: caps },
            None => {
                match self.best_match(None, segs) {
                    Some((i, caps)) => Selection { target: RouteTarget::Endpoint(i), params: caps },
                    None => {
                        if matches!(method, Method::Head) {
                            self.route_segments(segs, Method::Get)
                        } else if self.other_method_matches(method, segs) {
                            Selection {
                                target: RouteTarget::MethodNotAllowed,
                                params: Captures::empty(),
                            }
                        } else {
                            Selection { target: RouteTarget::NotFound, params: Captures::empty() }
                        }
                    },
                }
            },
        }
    }

    /// Resolve a path and method to a handler with captured parameters, or
    /// to one of the two pseudo-handlers.
    pub fn route(&self, path: &str, method: Method) -> (r: Selection)
        requires
            path.is_ascii(),
        ensures
            spec_route_ok(
                self.routes_view(),
                method,
                spec_split(path@),
                r.target,
                r.params@,
            ),
    {
        let segs = split_path(path);
        self.route_segments(&segs, method)
    }
}

/// When exactly one registration carries the request's method and matches
/// the path, routing selects it, with exactly its captured parameters.
pub proof fn lemma_route_unique_match(
    routes: Seq<(Option<Method>, Seq<SegView>)>,
    method: Method,
    path: Seq<Seq<char>>,
    target: RouteTarget,
    caps: (Seq<(Seq<char>, Seq<char>)>, Option<Seq<char>>),
    i: int,
)
    requires
        spec_route_ok(routes, method, path, target, caps),
        spec_route_matches(routes, i, Some(method), path),
        forall|j: int| spec_route_matches(routes, j, Some(method), path) ==> j == i,
    ensures
        target == RouteTarget::Endpoint(i as usize),
        Some(caps) == spec_match(routes[i].1, path),
{
    assert(spec_exists_match(routes, Some(method), path));
    match target {
        RouteTarget::Endpoint(k) => {
            assert(spec_route_matches(routes, k as int, Some(method), path));
        },
        _ => {},
    }
}

/// A `HEAD` request for which no `HEAD`-specific and no method-agnostic
/// registration matches resolves exactly as the same request with `GET`.
pub proof fn lemma_head_falls_back_to_get(
    routes: Seq<(Option<Method>, Seq<SegView>)>,
    path: Seq<Seq<char>>,
    target: RouteTarget,
    caps: (Seq<(Seq<char>, Seq<char>)>, Option<Seq<char>>),
)
    requires
        !spec_exists_match(routes, Some(Method::Head), path),
        !spec_exists_match(routes, None, path),
    ensures
        spec_route_ok(routes, Method::Head, path, target, caps) == spec_route_ok(
            routes,
            Method::Get,
            path,
            target,
            caps,
        ),
{
}

} // verus!
