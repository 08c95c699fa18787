//! File-based routing: page files become URL patterns, and request paths are
//! matched against them.

use vstd::prelude::*;
use crate::media::{extension_of_path, std_path_extension};
use crate::text::{
    chars_eq, chars_of, ends_with, has_prefix, has_suffix, last_index_of, nonempty_pieces, push_all,
    rfind_char, slice, split_nonempty, starts_with, str_eq_chars, string_of, views_of,
};

verus! {

/// One segment of a route pattern.
#[derive(Clone, Debug, PartialEq)]
pub enum Segment {
    /// A literal path segment.
    Static(String),
    /// A `[name]` segment that captures one request segment.
    Param(String),
}

impl View for Segment {
    /// Whether the segment is a parameter, and its text.
    type V = (bool, Seq<char>);

    open spec fn view(&self) -> (bool, Seq<char>) {
        match self {
            Segment::Static(s) => (false, s@),
            Segment::Param(s) => (true, s@),
        }
    }
}

/// A page route discovered under `pages/`.
#[derive(Clone, Debug)]
pub struct Route {
    pub pattern: String,
    pub segments: Vec<Segment>,
    pub file_path: String,
    pub is_api: bool,
    pub is_dynamic: bool,
}

/// The mathematical content of a [`Route`].
pub struct RouteModel {
    pub pattern: Seq<char>,
    pub segments: Seq<(bool, Seq<char>)>,
    pub file_path: Seq<char>,
    pub is_api: bool,
    pub is_dynamic: bool,
}

/// The views of a sequence of segments.
pub open spec fn segment_views(s: Seq<Segment>) -> Seq<(bool, Seq<char>)> {
    Seq::new(s.len(), |i: int| s[i]@)
}

impl View for Route {
    type V = RouteModel;

    open spec fn view(&self) -> RouteModel {
        RouteModel {
            pattern: self.pattern@,
            segments: segment_views(self.segments@),
            file_path: self.file_path@,
            is_api: self.is_api,
            is_dynamic: self.is_dynamic,
        }
    }
}

/// The router: the discovered routes, in matching order.
#[derive(Clone, Default)]
pub struct Router {
    pub routes: Vec<Route>,
}

/// The models of a sequence of routes.
pub open spec fn route_models(rs: Seq<Route>) -> Seq<RouteModel> {
    Seq::new(rs.len(), |i: int| rs[i]@)
}

impl View for Router {
    type V = Seq<RouteModel>;

    open spec fn view(&self) -> Seq<RouteModel> {
        route_models(self.routes@)
    }
}

/// `s` with every backslash turned into a forward slash.
pub open spec fn backslash_to_slash(s: Seq<char>) -> Seq<char> {
    Seq::new(s.len(), |i: int| if s[i] == '\\' { '/' } else { s[i] })
}

/// `s` without its last `.`-suffix (`rsplit_once('.')`'s head, or `s`).
pub open spec fn strip_extension(s: Seq<char>) -> Seq<char> {
    let d = last_index_of(s, '.');
    if d < 0 {
        s
    } else {
        s.take(d)
    }
}

/// The URL pattern of a page, from its path relative to `pages/`.
pub open spec fn route_pattern(rel: Seq<char>) -> Seq<char> {
    let w = strip_extension(backslash_to_slash(rel));
    if w == "index"@ {
        "/"@
    } else if has_suffix(w, "/index"@) {
        "/"@ + w.take(w.len() - 6)
    } else {
        "/"@ + w
    }
}

/// Whether a pattern piece is written `[name]`.
pub open spec fn is_bracketed(p: Seq<char>) -> bool {
    p.len() > 0 && p[0] == '[' && p.last() == ']'
}

/// The segment that a non-empty pattern piece denotes.
pub open spec fn segment_model(p: Seq<char>) -> (bool, Seq<char>) {
    if is_bracketed(p) {
        (true, p.subrange(1, p.len() - 1))
    } else {
        (false, p)
    }
}

/// The segments of a URL pattern.
pub open spec fn pattern_segments(pattern: Seq<char>) -> Seq<(bool, Seq<char>)> {
    let ps = nonempty_pieces(pattern, '/');
    Seq::new(ps.len(), |i: int| segment_model(ps[i]))
}

/// Whether some segment is a parameter.
pub open spec fn has_param(segs: Seq<(bool, Seq<char>)>) -> bool {
    exists|i: int| 0 <= i < segs.len() && segs[i].0
}

/// The route that a page file yields.
pub open spec fn route_model(rel: Seq<char>, file: Seq<char>) -> RouteModel {
    let pattern = route_pattern(rel);
    RouteModel {
        pattern,
        segments: pattern_segments(pattern),
        file_path: file,
        is_api: has_prefix(pattern, "/api/"@),
        is_dynamic: has_param(pattern_segments(pattern)),
    }
}

/// Whether any of the segments is a parameter (executable).
pub fn segments_have_param(segs: &Vec<Segment>) -> (b: bool)
    ensures
        b == has_param(segment_views(segs@)),
{
    let mut i: usize = 0;
    while i < segs.len()
        invariant
            i <= segs.len(),
            forall|j: int| 0 <= j < i ==> !segment_views(segs@)[j].0,
        decreases segs.len() - i,
    {
        match &segs[i] {
            Segment::Param(_) => {
                assert(segment_views(segs@)[i as int].0);
                return true;
            },
            Segment::Static(_) => {},
        }
        i = i + 1;
    }
    false
}

fn route_pattern_of(rel_path: &str) -> (p: Vec<char>)
    ensures
        p@ == route_pattern(rel_path@),
{
    let raw = chars_of(rel_path);
    let mut rel: Vec<char> = Vec::new();
    let mut i: usize = 0;
    while i < raw.len()
        invariant
            i <= raw.len(),
            rel@ == backslash_to_slash(raw@).take(i as int),
        decreases raw.len() - i,
    {
        let c = raw[i];
        if c == '\\' {
            rel.push('/');
        } else {
            rel.push(c);
        }
        i = i + 1;
        assert(rel@ =~= backslash_to_slash(raw@).take(i as int));
    }
    assert(rel@ =~= backslash_to_slash(raw@));
    let w = match rfind_char(&rel, '.') {
        Some(d) => slice(&rel, 0, d),
        None => rel,
    };
    assert(w@ == strip_extension(backslash_to_slash(rel_path@)));
    let index = chars_of("index");
    let slash_index = chars_of("/index");
    let mut out: Vec<char> = Vec::new();
    out.push('/');
    proof {
        reveal_strlit("/");
        reveal_strlit("/index");
    }
    assert(out@ == "/"@);
    if chars_eq(&w, &index) {
        return out;
    }
    if ends_with(&w, &slash_index) {
        let head = slice(&w, 0, w.len() - 6);
        push_all(&mut out, &head);
        return out;
    }
    push_all(&mut out, &w);
    out
}

fn segment_of(piece: &Vec<char>) -> (s: Segment)
    ensures
        s@ == segment_model(piece@),
{
    let n = piece.len();
    if n > 0 && piece[0] == '[' && piece[n - 1] == ']' {
        let name = slice(piece, 1, n - 1);
        Segment::Param(string_of(&name))
    } else {
        Segment::Static(string_of(piece))
    }
}

impl Router {
    /// An empty router.
    pub fn new() -> (r: Self)
        ensures
            r@ == Seq::<RouteModel>::empty(),
    {
        Router { routes: Vec::new() }
    }

    /// Adds the route of one page file, given its path relative to the
    /// pages directory and its full path.
    pub fn add_file_route(&mut self, rel_path: &str, file_path: &str)
        ensures
            final(self)@ == old(self)@.push(route_model(rel_path@, file_path@)),
    {
        let pattern = route_pattern_of(rel_path);
        let pieces = split_nonempty(&pattern, '/');
        let mut segments: Vec<Segment> = Vec::new();
        let mut i: usize = 0;
        while i < pieces.len()
            invariant
                i <= pieces.len(),
                views_of(pieces@) == nonempty_pieces(pattern@, '/'),
                segment_views(segments@) =~= pattern_segments(pattern@).take(i as int),
            decreases pieces.len() - i,
        {
            let seg = segment_of(&pieces[i]);
            assert(pieces@[i as int]@ == views_of(pieces@)[i as int]);
            assert(seg@ == pattern_segments(pattern@)[i as int]);
            let ghost before = segments@;
            segments.push(seg);
            assert(segment_views(segments@) =~= segment_views(before).push(seg@));
            i = i + 1;
            assert(segment_views(segments@) =~= pattern_segments(pattern@).take(i as int));
        }
        assert(segment_views(segments@) =~= pattern_segments(pattern@));
        let is_dynamic = segments_have_param(&segments);
        let api = chars_of("/api/");
        let is_api = starts_with(&pattern, &api);
        let route = Route {
            pattern: string_of(&pattern),
            segments,
            file_path: file_path.to_owned(),
            is_api,
            is_dynamic,
        };
        let ghost before = self.routes@;
        self.routes.push(route);
        assert(route_models(self.routes@) =~= route_models(before).push(route_model(rel_path@, file_path@)));
    }
}

} // verus!

verus! {

/// The sort key of a route: whether it has a parameter, and its length.
pub open spec fn route_key(r: RouteModel) -> (bool, nat) {
    (has_param(r.segments), r.segments.len())
}

/// Whether a route with key `a` is tried before one with key `b`: static
/// routes before dynamic ones, and longer ones first among equals.
pub open spec fn key_before(a: (bool, nat), b: (bool, nat)) -> bool {
    (!a.0 && b.0) || (a.0 == b.0 && a.1 > b.1)
}

/// Whether the routes are in matching order.
pub open spec fn routes_sorted(s: Seq<RouteModel>) -> bool {
    forall|i: int, j: int|
        0 <= i < j < s.len() ==> !key_before(route_key(#[trigger] s[j]), route_key(#[trigger] s[i]))
}

/// The predicate "the route has key `k`".
pub open spec fn key_is(k: (bool, nat)) -> spec_fn(RouteModel) -> bool {
    |r: RouteModel| route_key(r) == k
}

/// `out` is `inp` sorted into matching order, with routes of equal key kept
/// in the order they were given (a stable sort).
pub open spec fn stable_sort_of(out: Seq<RouteModel>, inp: Seq<RouteModel>) -> bool {
    &&& routes_sorted(out)
    &&& forall|k: (bool, nat)| #[trigger] out.filter(key_is(k)) == inp.filter(key_is(k))
}

proof fn lemma_insert_filter(s: Seq<RouteModel>, j: int, x: RouteModel, k: (bool, nat))
    requires
        0 <= j <= s.len(),
        forall|i: int| j <= i < s.len() ==> key_before(route_key(x), route_key(#[trigger] s[i])),
    ensures
        s.insert(j, x).filter(key_is(k)) == if route_key(x) == k {
            s.filter(key_is(k)).push(x)
        } else {
            s.filter(key_is(k))
        },
{
    let p = key_is(k);
    let a = s.take(j);
    let b = s.skip(j);
    assert(s =~= a + b);
    assert(s.insert(j, x) =~= a.push(x) + b);
    Seq::filter_distributes_over_add(a, b, p);
    Seq::filter_distributes_over_add(a.push(x), b, p);
    a.lemma_filter_push(x, p);
    if route_key(x) == k {
        assert(b.all(|r: RouteModel| !p(r))) by {
            assert forall|i: int| 0 <= i < b.len() implies !p(b[i]) by {
                assert(b[i] == s[j + i]);
            }
        }
        b.lemma_all_neg_filter_empty(p);
        assert(b.filter(p) =~= Seq::<RouteModel>::empty());
        assert(a.filter(p).push(x) + b.filter(p) =~= a.filter(p).push(x));
        assert(a.filter(p) + b.filter(p) =~= a.filter(p));
    }
}

fn route_key_of(r: &Route) -> (k: (bool, usize))
    ensures
        k.0 == route_key(r@).0,
        k.1 as nat == route_key(r@).1,
{
    (segments_have_param(&r.segments), r.segments.len())
}

fn key_lt(a: (bool, usize), b: (bool, usize)) -> (r: bool)
    ensures
        r == key_before((a.0, a.1 as nat), (b.0, b.1 as nat)),
{
    (!a.0 && b.0) || (a.0 == b.0 && a.1 > b.1)
}

/// Puts routes into matching order: static routes before dynamic ones,
/// longer routes first, and otherwise the given order (a stable sort).
pub fn sort_routes(routes: Vec<Route>) -> (out: Vec<Route>)
    ensures
        stable_sort_of(route_models(out@), route_models(routes@)),
{
    let ghost orig = route_models(routes@);
    let mut input = routes;
    let mut out: Vec<Route> = Vec::new();
    let ghost mut n: int = 0;
    proof {
        reveal_with_fuel(Seq::filter, 1);
        assert(route_models(input@) =~= orig.skip(0));
        assert forall|k: (bool, nat)|
            #[trigger] route_models(out@).filter(key_is(k)) == orig.take(0).filter(key_is(k)) by {
            assert(route_models(out@) =~= Seq::<RouteModel>::empty());
            assert(orig.take(0) =~= Seq::<RouteModel>::empty());
        }
    }
    while input.len() > 0
        invariant
            0 <= n <= orig.len(),
            route_models(input@) == orig.skip(n),
            routes_sorted(route_models(out@)),
            forall|k: (bool, nat)|
                #[trigger] route_models(out@).filter(key_is(k)) == orig.take(n).filter(key_is(k)),
        decreases input.len(),
    {
        let ghost inp_before = input@;
        let x = input.remove(0);
        proof {
            inp_before.remove_ensures(0);
            assert(x == inp_before[0]);
            assert(route_models(inp_before)[0] == inp_before[0]@);
            assert(route_models(inp_before)[0] == orig.skip(n)[0]);
            assert(route_models(inp_before).len() == inp_before.len());
            assert(n < orig.len());
            assert(orig.skip(n)[0] == orig[n]);
            assert(x@ == orig[n]);
            assert(route_models(input@) =~= orig.skip(n + 1)) by {
                assert forall|i: int| 0 <= i < input@.len() implies route_models(input@)[i]
                    == orig.skip(n + 1)[i] by {
                    assert(input@[i] == inp_before[i + 1]);
                    assert(route_models(input@)[i] == input@[i]@);
                    assert(route_models(inp_before)[i + 1] == inp_before[i + 1]@);
                    assert(route_models(inp_before)[i + 1] == orig.skip(n)[i + 1]);
                    assert(orig.skip(n)[i + 1] == orig[n + i + 1]);
                    assert(orig.skip(n + 1)[i] == orig[n + 1 + i]);
                }
            }
        }
        let kx = route_key_of(&x);
        let mut j: usize = 0;
        while j < out.len()
            invariant
                j <= out.len(),
                kx.0 == route_key(x@).0,
                kx.1 as nat == route_key(x@).1,
                forall|i: int|
                    0 <= i < j ==> !key_before(route_key(x@), route_key(#[trigger] route_models(out@)[i])),
            ensures
                j <= out.len(),
                forall|i: int|
                    0 <= i < j ==> !key_before(route_key(x@), route_key(#[trigger] route_models(out@)[i])),
                j < out.len() ==> key_before(route_key(x@), route_key(route_models(out@)[j as int])),
            decreases out.len() - j,
        {
            let kj = route_key_of(&out[j]);
            assert(route_models(out@)[j as int] == out@[j as int]@);
            if key_lt(kx, kj) {
                break;
            }
            j = j + 1;
        }
        let ghost m = route_models(out@);
        proof {
            assert forall|i: int| j <= i < m.len() implies key_before(route_key(x@), route_key(#[trigger] m[i])) by {
                if i > j {
                    assert(!key_before(route_key(m[i]), route_key(m[j as int])));
                }
            }
        }
        out.insert(j, x);
        proof {
            let m2 = route_models(out@);
            assert(m2 =~= m.insert(j as int, x@));
            assert(orig.take(n + 1) =~= orig.take(n).push(x@));
            assert forall|k: (bool, nat)| #[trigger] m2.filter(key_is(k)) == orig.take(n + 1).filter(key_is(k)) by {
                lemma_insert_filter(m, j as int, x@, k);
                orig.take(n).lemma_filter_push(x@, key_is(k));
                assert(m.filter(key_is(k)) == orig.take(n).filter(key_is(k)));
            }
            assert forall|a: int, b: int| 0 <= a < b < m2.len() implies !key_before(
                route_key(#[trigger] m2[b]),
                route_key(#[trigger] m2[a]),
            ) by {
                if b < j {
                    assert(m2[a] == m[a] && m2[b] == m[b]);
                } else if b == j {
                    assert(m2[a] == m[a]);
                } else if a == j {
                    assert(m2[b] == m[b - 1]);
                } else if a < j {
                    assert(m2[a] == m[a] && m2[b] == m[b - 1]);
                } else {
                    assert(m2[a] == m[a - 1] && m2[b] == m[b - 1]);
                }
            }
            n = n + 1;
        }
    }
    proof {
        assert(orig.skip(n).len() == 0);
        assert(orig.take(n) =~= orig);
    }
    out
}

} // verus!

verus! {

/// The extensions that mark a page component.
pub open spec fn is_page_extension(e: Seq<char>) -> bool {
    e == "titanium"@ || e == "ti"@ || e == "cobalt"@ || e == "co"@ || e == "carbon"@ || e
        == "cbn"@ || e == "html"@
}

/// Whether a file (by its relative path) is a page component: the extension
/// that `Path::extension` finds in it is one of the page extensions.
pub open spec fn is_page_file(rel: Seq<char>) -> bool {
    is_page_extension(std_path_extension(rel))
}

/// The routes that a directory listing yields, in listing order.
pub open spec fn page_routes(files: Seq<(Seq<char>, Seq<char>)>) -> Seq<RouteModel>
    decreases files.len(),
{
    if files.len() == 0 {
        Seq::empty()
    } else {
        let r = page_routes(files.drop_last());
        if is_page_file(files.last().0) {
            r.push(route_model(files.last().0, files.last().1))
        } else {
            r
        }
    }
}

/// The views of a list of string pairs.
pub open spec fn pair_views(v: Seq<(String, String)>) -> Seq<(Seq<char>, Seq<char>)> {
    Seq::new(v.len(), |i: int| (v[i].0@, v[i].1@))
}

/// Whether a relative path names a page component (executable).
pub fn is_page_path(rel: &str) -> (b: bool)
    ensures
        b == is_page_file(rel@),
{
    let e = extension_of_path(rel);
    let ext = chars_of(e.as_str());
    str_eq_chars("titanium", &ext) || str_eq_chars("ti", &ext) || str_eq_chars("cobalt", &ext)
        || str_eq_chars("co", &ext) || str_eq_chars("carbon", &ext) || str_eq_chars("cbn", &ext)
        || str_eq_chars("html", &ext)
}

impl Router {
    /// Rebuilds the routes from a listing of the pages directory: for each
    /// file, its path relative to the directory and its full path, in the
    /// order the walk found them. Page components become routes, which are
    /// then put into matching order.
    pub fn scan_dir(&mut self, page_files: Vec<(String, String)>)
        ensures
            stable_sort_of(final(self)@, page_routes(pair_views(page_files@))),
    {
        self.routes = Vec::new();
        let mut i: usize = 0;
        while i < page_files.len()
            invariant
                i <= page_files.len(),
                self@ == page_routes(pair_views(page_files@).take(i as int)),
            decreases page_files.len() - i,
        {
            let ghost fs = pair_views(page_files@).take(i + 1);
            proof {
                assert(fs.drop_last() =~= pair_views(page_files@).take(i as int));
                assert(fs.last() == (page_files@[i as int].0@, page_files@[i as int].1@));
            }
            let rel = &page_files[i].0;
            let full = &page_files[i].1;
            if is_page_path(rel.as_str()) {
                self.add_file_route(rel.as_str(), full.as_str());
            }
            i = i + 1;
        }
        proof {
            assert(pair_views(page_files@).take(page_files.len() as int) =~= pair_views(page_files@));
        }
        let mut routes: Vec<Route> = Vec::new();
        std::mem::swap(&mut routes, &mut self.routes);
        self.routes = sort_routes(routes);
    }
}

} // verus!

verus! {

/// The name and value pairs of `s` read as
/// `application/x-www-form-urlencoded` data, percent-decoded, as
/// `url::form_urlencoded::parse` yields them.
pub uninterp spec fn form_pairs(s: Seq<char>) -> Seq<(Seq<char>, Seq<char>)>;

/// The first name that form decoding yields, if any.
pub open spec fn form_first_key(s: Seq<char>) -> Option<Seq<char>> {
    if form_pairs(s).len() > 0 {
        Some(form_pairs(s)[0].0)
    } else {
        None
    }
}

/// Calls `url::form_urlencoded::parse` on the bytes of `s` and keeps every
/// pair. Claimed: the pairs are a function of the text, named `form_pairs`.
#[verifier::external_body]
pub(crate) fn form_decode(s: &str) -> (r: Vec<(String, String)>)
    ensures
        pair_views(r@) == form_pairs(s@),
{
    url::form_urlencoded::parse(s.as_bytes()).map(|(k, v)| (k.into_owned(), v.into_owned())).collect()
}

/// Text that form decoding leaves unchanged: no `%`, `+`, `&` or `=`.
pub open spec fn plain_form_text(s: Seq<char>) -> bool {
    s.len() > 0 && forall|i: int|
        0 <= i < s.len() ==> s[i] != '%' && s[i] != '+' && s[i] != '&' && s[i] != '='
}

/// The view of an optional string.
pub open spec fn opt_view(o: Option<String>) -> Option<Seq<char>> {
    match o {
        Some(s) => Some(s@),
        None => None,
    }
}

/// Calls `url::form_urlencoded::parse` on the bytes of `s` and returns the
/// name of its first pair. The contract gives it as the first of
/// `form_pairs`; it also states
/// that there is no pair exactly when `s` holds nothing but `&`, and that
/// text without `%`, `+`, `&` or `=` is its own first name, as the parser's
/// source shows.
#[verifier::external_body]
fn first_form_key(s: &str) -> (r: Option<String>)
    ensures
        opt_view(r) == form_first_key(s@),
        r is None <==> (forall|i: int| 0 <= i < s@.len() ==> s@[i] == '&'),
        plain_form_text(s@) ==> opt_view(r) == Some(s@),
{
    url::form_urlencoded::parse(s.as_bytes()).map(|(k, _)| k.into_owned()).next()
}

/// A captured path parameter: the segment, form-decoded, or the segment
/// itself when decoding yields no name.
pub open spec fn decoded_param(p: Seq<char>) -> Seq<char> {
    match form_first_key(p) {
        Some(k) => k,
        None => p,
    }
}

/// Decodes one captured request segment; a segment without `%`, `+`, `&`
/// or `=` is its own decoding.
pub fn decode_param(s: &str) -> (r: String)
    ensures
        r@ == decoded_param(s@),
        plain_form_text(s@) ==> r@ == s@,
{
    match first_form_key(s) {
        Some(k) => k,
        None => s.to_owned(),
    }
}

/// The request path without one trailing `/` (the root path stays `/`).
pub open spec fn clean_request_path(p: Seq<char>) -> Seq<char> {
    if p.len() > 1 && p.last() == '/' {
        p.drop_last()
    } else {
        p
    }
}

/// The segments of a request path.
pub open spec fn request_segments(p: Seq<char>) -> Seq<Seq<char>> {
    nonempty_pieces(clean_request_path(p), '/')
}

/// Whether a route matches the request segments: same number of segments,
/// and every static segment equal to its request segment.
pub open spec fn route_matches(r: RouteModel, req: Seq<Seq<char>>) -> bool {
    &&& r.segments.len() == req.len()
    &&& forall|i: int| 0 <= i < req.len() && !r.segments[i].0 ==> r.segments[i].1 == req[i]
}

/// The parameters captured by the first `n` segments, in segment order.
pub open spec fn param_pairs(segs: Seq<(bool, Seq<char>)>, req: Seq<Seq<char>>, n: nat) -> Seq<
    (Seq<char>, Seq<char>),
>
    decreases n,
{
    if n == 0 {
        Seq::empty()
    } else {
        let r = param_pairs(segs, req, (n - 1) as nat);
        if segs[n - 1].0 {
            r.push((segs[n - 1].1, decoded_param(req[n - 1])))
        } else {
            r
        }
    }
}

fn match_route(route: &Route, req: &Vec<Vec<char>>) -> (r: Option<Vec<(String, String)>>)
    ensures
        r is Some <==> route_matches(route@, views_of(req@)),
        r matches Some(ps) ==> pair_views(ps@) == param_pairs(
            route@.segments,
            views_of(req@),
            route@.segments.len(),
        ),
{
    let ghost rm = route@;
    let ghost rq = views_of(req@);
    if route.segments.len() != req.len() {
        return None;
    }
    let mut params: Vec<(String, String)> = Vec::new();
    let mut i: usize = 0;
    while i < req.len()
        invariant
            i <= req.len(),
            rm == route@,
            rq == views_of(req@),
            route.segments.len() == req.len(),
            forall|k: int| 0 <= k < i && !rm.segments[k].0 ==> rm.segments[k].1 == rq[k],
            pair_views(params@) == param_pairs(rm.segments, rq, i as nat),
        decreases req.len() - i,
    {
        assert(rm.segments[i as int] == route.segments@[i as int]@);
        assert(rq[i as int] == req@[i as int]@);
        match &route.segments[i] {
            Segment::Static(s) => {
                let sc = chars_of(s.as_str());
                if !chars_eq(&sc, &req[i]) {
                    return None;
                }
            },
            Segment::Param(name) => {
                let piece = string_of(&req[i]);
                let decoded = decode_param(piece.as_str());
                let ghost before = params@;
                params.push((name.clone(), decoded));
                assert(pair_views(params@) =~= pair_views(before).push(
                    (rm.segments[i as int].1, decoded_param(rq[i as int])),
                ));
            },
        }
        i = i + 1;
    }
    Some(params)
}

impl Router {
    /// Finds the first route, in matching order, that matches the request
    /// path, with the parameters it captures (name and decoded value, in
    /// segment order).
    pub fn match_path(&self, request_path: &str) -> (r: Option<(&Route, Vec<(String, String)>)>)
        ensures
            match r {
                Some((route, params)) => exists|i: int|
                    0 <= i < self@.len() && self.routes@[i] == *route && route_matches(
                        self@[i],
                        request_segments(request_path@),
                    ) && (forall|j: int|
                        0 <= j < i ==> !route_matches(self@[j], request_segments(request_path@)))
                        && pair_views(params@) == param_pairs(
                        self@[i].segments,
                        request_segments(request_path@),
                        self@[i].segments.len(),
                    ),
                None => forall|j: int|
                    0 <= j < self@.len() ==> !route_matches(
                        self@[j],
                        request_segments(request_path@),
                    ),
            },
    {
        let p = chars_of(request_path);
        let clean = if p.len() > 1 && p[p.len() - 1] == '/' {
            slice(&p, 0, p.len() - 1)
        } else {
            p
        };
        assert(clean@ =~= clean_request_path(request_path@));
        let req = split_nonempty(&clean, '/');
        let mut i: usize = 0;
        while i < self.routes.len()
            invariant
                i <= self.routes.len(),
                views_of(req@) == request_segments(request_path@),
                forall|j: int|
                    0 <= j < i ==> !route_matches(self@[j], request_segments(request_path@)),
            decreases self.routes.len() - i,
        {
            let route = &self.routes[i];
            assert(self@[i as int] == route@);
            match match_route(route, &req) {
                Some(params) => {
                    return Some((route, params));
                },
                None => {},
            }
            i = i + 1;
        }
        None
    }
}

} // verus!

verus! {

/// Appending a separator adds only an empty piece, which the non-empty
/// pieces leave out.
pub proof fn lemma_pieces_trailing_sep(s: Seq<char>, sep: char)
    ensures
        nonempty_pieces(s.push(sep), sep) == nonempty_pieces(s, sep),
{
    let p = crate::text::split_pieces(s, sep);
    assert(s.push(sep).drop_last() =~= s);
    assert(crate::text::split_pieces(s.push(sep), sep) == p.push(Seq::<char>::empty()));
    p.lemma_filter_push(Seq::<char>::empty(), crate::text::nonempty_pred());
}

/// A trailing slash does not change what a request path matches: the path
/// with one more `/` has the same segments, so `match_path` gives the same
/// route and parameters for both.
pub proof fn law_trailing_slash_ignored(path: Seq<char>)
    ensures
        request_segments(path.push('/')) == request_segments(path),
{
    let q = path.push('/');
    if path.len() == 0 {
        assert(clean_request_path(q) == q);
        lemma_pieces_trailing_sep(path, '/');
        assert(clean_request_path(path) == path);
    } else {
        assert(clean_request_path(q) =~= path);
        if path.len() > 1 && path.last() == '/' {
            lemma_pieces_trailing_sep(path.drop_last(), '/');
            assert(path.drop_last().push('/') =~= path);
        }
    }
}

/// Routing sees only the non-empty segments of a request path: two paths
/// whose `/`-separated non-empty parts are the same have the same request
/// segments, so `match_path` gives the same route and parameters for both
/// (`/about`, `/about/` and `//about` alike).
pub proof fn law_match_sees_only_segments(p: Seq<char>, q: Seq<char>)
    requires
        nonempty_pieces(p, '/') == nonempty_pieces(q, '/'),
    ensures
        request_segments(p) == request_segments(q),
        request_segments(p) == nonempty_pieces(p, '/'),
{
    lemma_request_segments_are_pieces(p);
    lemma_request_segments_are_pieces(q);
}

proof fn lemma_request_segments_are_pieces(p: Seq<char>)
    ensures
        request_segments(p) == nonempty_pieces(p, '/'),
{
    if p.len() > 1 && p.last() == '/' {
        lemma_pieces_trailing_sep(p.drop_last(), '/');
        assert(p.drop_last().push('/') =~= p);
    }
}

/// The seven page extensions all make pages: a file whose extension (as
/// `Path::extension` finds it) is `titanium`, `ti`, `cobalt`, `co`,
/// `carbon`, `cbn` or `html` is a page component, and listing it adds its
/// route after those of the files listed before it; a file with any other
/// extension, or none, adds no route.
pub proof fn law_page_extensions(files: Seq<(Seq<char>, Seq<char>)>, rel: Seq<char>, full: Seq<char>)
    ensures
        ({
            let e = std_path_extension(rel);
            let listed = page_routes(files.push((rel, full)));
            &&& (e == "titanium"@ || e == "ti"@ || e == "cobalt"@ || e == "co"@ || e == "carbon"@
                || e == "cbn"@ || e == "html"@) ==> is_page_file(rel) && listed == page_routes(
                files,
            ).push(route_model(rel, full))
            &&& !(e == "titanium"@ || e == "ti"@ || e == "cobalt"@ || e == "co"@ || e == "carbon"@
                || e == "cbn"@ || e == "html"@) ==> !is_page_file(rel) && listed == page_routes(
                files,
            )
        }),
{
    assert(files.push((rel, full)).drop_last() =~= files);
}

/// Static routes are tried before dynamic ones: in routes in matching
/// order (as `scan_dir` leaves them), no route with a parameter comes
/// before one without.
pub proof fn law_static_before_dynamic(routes: Seq<RouteModel>)
    requires
        routes_sorted(routes),
    ensures
        forall|i: int, j: int|
            0 <= i < j < routes.len() && has_param((#[trigger] routes[i]).segments) ==> has_param(
                (#[trigger] routes[j]).segments,
            ),
{
    assert forall|i: int, j: int|
        0 <= i < j < routes.len() && has_param((#[trigger] routes[i]).segments) implies has_param(
        (#[trigger] routes[j]).segments,
    ) by {
        assert(!key_before(route_key(routes[j]), route_key(routes[i])));
    }
}

} // verus!

verus! {

/// Every page is reachable at its own URL: the route a page file yields
/// matches a request for the route's own pattern (so `match_path` on that
/// path finds a route).
pub proof fn law_page_matches_own_pattern(rel: Seq<char>, file: Seq<char>)
    ensures
        route_matches(route_model(rel, file), request_segments(route_model(rel, file).pattern)),
{
    let p = route_pattern(rel);
    let ps = nonempty_pieces(p, '/');
    assert(nonempty_pieces(clean_request_path(p), '/') == ps) by {
        if p.len() > 1 && p.last() == '/' {
            lemma_pieces_trailing_sep(p.drop_last(), '/');
            assert(p.drop_last().push('/') =~= p);
        }
    }
    let m = route_model(rel, file);
    let req = request_segments(p);
    assert forall|i: int| 0 <= i < req.len() && !m.segments[i].0 implies m.segments[i].1 == req[i] by {
        assert(m.segments[i] == segment_model(ps[i]));
    }
}

} // verus!
