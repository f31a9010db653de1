//! Compiled route matchers and their evaluation against a request header.

use vstd::prelude::*;
use crate::json::Json;
use crate::matchexpr::{RouteMatchV, route_match_from_json, parse_route_match, pairs_view};
use crate::text::{
    lower_seq, eq_ignore_case_spec, eq_ignore_ascii_case, to_ascii_lowercase, str_eq,
    str_starts_with, str_contains, starts_with_spec, contains_seq, find_first,
    lemma_find_first_unique, lemma_find_first, chars_range_to_string, str_chars,
};
use vstd::string::StringExecFns;

verus! {

// ---------------------------------------------------------------------
// The request model: what route matching reads from a request header.
// ---------------------------------------------------------------------

/// The parts of a request header that routing reads: the method, the URI
/// path, the raw query string (without `?`), and the header fields in order.
pub struct HttpRequest {
    pub method: String,
    pub path: String,
    pub query: String,
    pub headers: Vec<(String, String)>,
}

/// The mathematical value of a request header.
pub struct HttpRequestV {
    pub method: Seq<char>,
    pub path: Seq<char>,
    pub query: Seq<char>,
    pub headers: Seq<(Seq<char>, Seq<char>)>,
}

impl View for HttpRequest {
    type V = HttpRequestV;

    open spec fn view(&self) -> HttpRequestV {
        HttpRequestV {
            method: self.method@,
            path: self.path@,
            query: self.query@,
            headers: pairs_view(self.headers@),
        }
    }
}

/// The value of the first header whose name equals `name` up to ASCII case.
pub open spec fn header_lookup(hs: Seq<(Seq<char>, Seq<char>)>, name: Seq<char>) -> Option<
    Seq<char>,
>
    decreases hs.len(),
{
    if hs.len() == 0 {
        None
    } else if eq_ignore_case_spec(hs[0].0, name) {
        Some(hs[0].1)
    } else {
        header_lookup(hs.drop_first(), name)
    }
}

/// The header's value, or the empty string when the header is absent.
pub open spec fn header_or_empty(hs: Seq<(Seq<char>, Seq<char>)>, name: Seq<char>) -> Seq<char> {
    match header_lookup(hs, name) {
        Some(v) => v,
        None => Seq::empty(),
    }
}

/// Looks a header up by name, ASCII-case-insensitively; first match wins.
pub fn header_value<'a>(req: &'a HttpRequest, name: &str) -> (r: Option<&'a String>)
    ensures
        match r {
            Some(v) => header_lookup(req@.headers, name@) == Some(v@),
            None => header_lookup(req@.headers, name@) is None,
        },
{
    let ghost hs = req@.headers;
    let mut i: usize = 0;
    proof {
        assert(hs =~= hs.skip(0));
    }
    while i < req.headers.len()
        invariant
            hs == req@.headers,
            i <= req.headers@.len(),
            hs.len() == req.headers@.len(),
            header_lookup(hs, name@) == header_lookup(hs.skip(i as int), name@),
        decreases req.headers@.len() - i,
    {
        proof {
            assert(hs.skip(i as int)[0] == hs[i as int]);
            assert(hs.skip(i as int).drop_first() =~= hs.skip(i + 1));
        }
        if eq_ignore_ascii_case(req.headers[i].0.as_str(), name) {
            return Some(&req.headers[i].1);
        }
        i = i + 1;
    }
    proof {
        assert(hs.skip(hs.len() as int) =~= Seq::<(Seq<char>, Seq<char>)>::empty());
    }
    None
}

// ---------------------------------------------------------------------
// Query strings.
// ---------------------------------------------------------------------

/// The key/value reading of one `&`-separated piece: empty pieces vanish, a
/// piece without `=` is a key with an empty value.
pub open spec fn qpiece(p: Seq<char>) -> Seq<(Seq<char>, Seq<char>)> {
    if p.len() == 0 {
        Seq::empty()
    } else {
        let e = find_first(p, '=');
        if e < 0 {
            seq![(p, Seq::<char>::empty())]
        } else {
            seq![(p.take(e), p.skip(e + 1))]
        }
    }
}

/// The key/value pairs of a raw query string, in order of appearance.
pub open spec fn qpairs(q: Seq<char>) -> Seq<(Seq<char>, Seq<char>)>
    decreases q.len(),
{
    let a = find_first(q, '&');
    if a < 0 || a >= q.len() {
        qpiece(q)
    } else {
        qpiece(q.take(a)) + qpairs(q.skip(a + 1))
    }
}

/// The value of the last pair with this key, as a map built by insertion
/// would hold it.
pub open spec fn pairs_last_value(ps: Seq<(Seq<char>, Seq<char>)>, key: Seq<char>) -> Option<
    Seq<char>,
>
    decreases ps.len(),
{
    if ps.len() == 0 {
        None
    } else if ps.last().0 == key {
        Some(ps.last().1)
    } else {
        pairs_last_value(ps.drop_last(), key)
    }
}

/// Splits a raw query string into its key/value pairs.
pub fn parse_query(q: &str) -> (r: Vec<(String, String)>)
    ensures
        pairs_view(r@) == qpairs(q@),
{
    let cs = str_chars(q);
    let mut out: Vec<(String, String)> = Vec::new();
    parse_query_from(&cs, 0, &mut out);
    proof {
        assert(cs@.skip(0) =~= cs@);
    }
    out
}

/// Appends the pairs of `cs[start..]` to `out`.
#[verifier::loop_isolation(false)]
fn parse_query_from(cs: &Vec<char>, start: usize, out: &mut Vec<(String, String)>)
    requires
        start <= cs@.len(),
    ensures
        pairs_view(final(out)@) == pairs_view(old(out)@) + qpairs(cs@.skip(start as int)),
    decreases cs@.len() - start,
{
    let ghost tail = cs@.skip(start as int);
    // Find the next '&', if any.
    let mut i: usize = start;
    while i < cs.len() && cs[i] != '&'
        invariant
            start <= i <= cs@.len(),
            forall|k: int| start <= k < i ==> cs@[k] != '&',
        decreases cs@.len() - i,
    {
        i = i + 1;
    }
    proof {
        if i < cs@.len() {
            assert(tail[i - start] == '&');
            assert forall|k: int| 0 <= k < i - start implies tail[k] != '&' by {
                assert(tail[k] == cs@[start + k]);
            }
            lemma_find_first_unique(tail, '&', i - start);
            assert(tail.take(i - start) =~= cs@.subrange(start as int, i as int));
            assert(tail.skip(i - start + 1) =~= cs@.skip(i + 1));
        } else {
            lemma_find_first(tail, '&');
            if find_first(tail, '&') >= 0 {
                assert(tail[find_first(tail, '&')] == '&');
                assert(cs@[start + find_first(tail, '&')] == '&');
            }
            assert(find_first(tail, '&') < 0);
        }
    }
    let ghost before = pairs_view(out@);
    push_piece(cs, start, i, out);
    if i < cs.len() {
        parse_query_from(cs, i + 1, out);
        proof {
            assert(pairs_view(out@) =~~= before + qpairs(tail));
        }
    } else {
        proof {
            assert(pairs_view(out@) =~~= before + qpairs(tail));
        }
    }
}

/// Appends the pair of the piece `cs[from..to]`, if the piece is nonempty.
#[verifier::loop_isolation(false)]
fn push_piece(cs: &Vec<char>, from: usize, to: usize, out: &mut Vec<(String, String)>)
    requires
        from <= to <= cs@.len(),
    ensures
        pairs_view(final(out)@) == pairs_view(old(out)@) + qpiece(
            cs@.subrange(from as int, to as int),
        ),
{
    let ghost piece = cs@.subrange(from as int, to as int);
    if from == to {
        proof {
            assert(pairs_view(out@) =~~= pairs_view(out@) + qpiece(piece));
        }
        return ;
    }
    // Find the first '=' inside the piece.
    let mut i: usize = from;
    while i < to && cs[i] != '='
        invariant
            from <= i <= to,
            forall|k: int| from <= k < i ==> cs@[k] != '=',
        decreases to - i,
    {
        i = i + 1;
    }
    let ghost before = pairs_view(out@);
    if i < to {
        proof {
            assert(piece[i - from] == '=');
            assert forall|k: int| 0 <= k < i - from implies piece[k] != '=' by {
                assert(piece[k] == cs@[from + k]);
            }
            lemma_find_first_unique(piece, '=', i - from);
            assert(piece.take(i - from) =~= cs@.subrange(from as int, i as int));
            assert(piece.skip(i - from + 1) =~= cs@.subrange(i + 1, to as int));
        }
        let key = chars_range_to_string(cs, from, i);
        let value = chars_range_to_string(cs, i + 1, to);
        out.push((key, value));
        proof {
            assert(pairs_view(out@) =~~= before + qpiece(piece));
        }
    } else {
        proof {
            lemma_find_first(piece, '=');
            if find_first(piece, '=') >= 0 {
                assert(piece[find_first(piece, '=')] == '=');
                assert(cs@[from + find_first(piece, '=')] == '=');
            }
        }
        let key = chars_range_to_string(cs, from, to);
        let value = String::new();
        out.push((key, value));
        proof {
            assert(pairs_view(out@) =~~= before + qpiece(piece));
        }
    }
}

/// The value the parsed query map holds for `key`, or the empty string.
pub fn query_get_or_empty<'a>(pairs: &'a Vec<(String, String)>, key: &str) -> (r: &'a str)
    ensures
        r@ == match pairs_last_value(pairs_view(pairs@), key@) {
            Some(v) => v,
            None => Seq::<char>::empty(),
        },
{
    let ghost ps = pairs_view(pairs@);
    let mut i: usize = pairs.len();
    proof {
        assert(ps.take(ps.len() as int) =~= ps);
    }
    while i > 0
        invariant
            i <= pairs@.len(),
            ps == pairs_view(pairs@),
            pairs_last_value(ps, key@) == pairs_last_value(ps.take(i as int), key@),
        decreases i,
    {
        proof {
            assert(ps.take(i as int).last() == ps[i - 1]);
            assert(ps.take(i as int).drop_last() =~= ps.take(i - 1));
        }
        if str_eq(pairs[i - 1].0.as_str(), key) {
            return pairs[i - 1].1.as_str();
        }
        i = i - 1;
    }
    proof {
        assert(ps.take(0) =~= Seq::<(Seq<char>, Seq<char>)>::empty());
    }
    crate::text::empty_str()
}

// ---------------------------------------------------------------------
// WebSocket upgrade detection.
// ---------------------------------------------------------------------

/// An upgrade-to-websocket request: `Upgrade: websocket` (case-insensitive)
/// and a `Connection` value containing the token `upgrade`.
pub open spec fn is_ws_spec(req: HttpRequestV) -> bool {
    eq_ignore_case_spec(header_or_empty(req.headers, "upgrade"@), "websocket"@) && contains_seq(
        lower_seq(header_or_empty(req.headers, "connection"@)),
        "upgrade"@,
    )
}

/// Whether a request asks for a WebSocket upgrade.
pub fn is_ws_request(req: &HttpRequest) -> (r: bool)
    ensures
        r == is_ws_spec(req@),
{
    let upgrade = match header_value(req, "upgrade") {
        Some(v) => v.as_str(),
        None => crate::text::empty_str(),
    };
    if !eq_ignore_ascii_case(upgrade, "websocket") {
        return false;
    }
    let connection = match header_value(req, "connection") {
        Some(v) => v.as_str(),
        None => crate::text::empty_str(),
    };
    let lowered = to_ascii_lowercase(connection);
    str_contains(lowered.as_str(), "upgrade")
}

// ---------------------------------------------------------------------
// Compiled matchers.
// ---------------------------------------------------------------------

/// A compiled matcher: the structured match expression, its regex pattern
/// kept only when it compiles.
#[derive(Debug)]
pub struct RouteMatcher {
    pub host: Option<String>,
    pub path_prefix: Option<String>,
    pub path_regex: Option<String>,
    pub methods: Option<Vec<String>>,
    pub headers: Option<Vec<(String, String)>>,
    pub query: Option<Vec<(String, String)>>,
    pub ws: Option<bool>,
}

impl View for RouteMatcher {
    type V = RouteMatchV;

    open spec fn view(&self) -> RouteMatchV {
        RouteMatchV {
            host: match self.host {
                Some(s) => Some(s@),
                None => None,
            },
            path_prefix: match self.path_prefix {
                Some(s) => Some(s@),
                None => None,
            },
            path_regex: match self.path_regex {
                Some(s) => Some(s@),
                None => None,
            },
            method: match self.methods {
                Some(v) => Some(crate::matchexpr::strings_view(v@)),
                None => None,
            },
            headers: match self.headers {
                Some(v) => Some(pairs_view(v@)),
                None => None,
            },
            query: match self.query {
                Some(v) => Some(pairs_view(v@)),
                None => None,
            },
            ws: self.ws,
        }
    }
}

/// Whether a regular expression pattern compiles; what `regex::Regex::new`
/// accepts depends on the pattern alone.
pub uninterp spec fn regex_valid(pattern: Seq<char>) -> bool;

/// Whether a compiled pattern finds a match in `text`; what
/// `regex::Regex::is_match` returns depends on the pattern and the text
/// alone.
pub uninterp spec fn regex_match(pattern: Seq<char>, text: Seq<char>) -> bool;

/// Relies on `regex::Regex::new` and `regex::Regex::is_match`: compiles the
/// pattern and searches `text` with it; `None` exactly on a pattern that
/// does not compile.
#[verifier::external_body]
fn regex_is_match(pattern: &str, text: &str) -> (r: Option<bool>)
    ensures
        (r is Some) == regex_valid(pattern@),
        r is Some ==> r.unwrap() == regex_match(pattern@, text@),
{
    match regex::Regex::new(pattern) {
        Ok(re) => Some(re.is_match(text)),
        Err(_) => None,
    }
}

/// Relies on `regex::Regex::new`: whether a pattern compiles depends on the
/// pattern alone.
#[verifier::external_body]
pub(crate) fn regex_compiles(pattern: &str) -> (r: bool)
    ensures
        r == regex_valid(pattern@),
{
    regex::Regex::new(pattern).is_ok()
}

/// A compiled matcher whose regex pattern, if any, compiles.
pub open spec fn matcher_wf(m: RouteMatchV) -> bool {
    m.path_regex is Some ==> regex_valid(m.path_regex.unwrap())
}

/// Whether any listed method equals the request method, up to ASCII case.
pub open spec fn method_ok(ms: Seq<Seq<char>>, method: Seq<char>) -> bool {
    exists|i: int| 0 <= i < ms.len() && eq_ignore_case_spec(#[trigger] ms[i], method)
}

/// Whether every expected header holds exactly its value; an absent header
/// counts as the empty string.
pub open spec fn headers_ok(
    expected: Seq<(Seq<char>, Seq<char>)>,
    hs: Seq<(Seq<char>, Seq<char>)>,
) -> bool {
    forall|i: int|
        0 <= i < expected.len() ==> header_or_empty(hs, (#[trigger] expected[i]).0)
            == expected[i].1
}

/// Whether every expected query entry matches the request's query pairs; an
/// absent key counts as the empty string.
pub open spec fn query_ok(
    expected: Seq<(Seq<char>, Seq<char>)>,
    actual: Seq<(Seq<char>, Seq<char>)>,
) -> bool {
    forall|i: int|
        0 <= i < expected.len() ==> (match pairs_last_value(
            actual,
            (#[trigger] expected[i]).0,
        ) {
            Some(v) => v,
            None => Seq::<char>::empty(),
        }) == expected[i].1
}

/// The evaluation of a structured matcher against a request: every present
/// condition must hold.
pub open spec fn matcher_matches(m: RouteMatchV, req: HttpRequestV) -> bool {
    &&& (m.host is Some ==> eq_ignore_case_spec(
        header_or_empty(req.headers, "host"@),
        m.host.unwrap(),
    ))
    &&& (m.path_prefix is Some ==> starts_with_spec(req.path, m.path_prefix.unwrap()))
    &&& (m.path_regex is Some ==> regex_match(m.path_regex.unwrap(), req.path))
    &&& (m.method is Some ==> method_ok(m.method.unwrap(), req.method))
    &&& (m.headers is Some ==> headers_ok(m.headers.unwrap(), req.headers))
    &&& (m.query is Some ==> query_ok(m.query.unwrap(), qpairs(req.query)))
    &&& (m.ws is Some ==> m.ws.unwrap() == is_ws_spec(req))
}

impl RouteMatcher {
    /// The matcher with no conditions: it matches every request.
    pub fn any() -> (r: RouteMatcher)
        ensures
            r@.host is None,
            r@.path_prefix is None,
            r@.path_regex is None,
            r@.method is None,
            r@.headers is None,
            r@.query is None,
            r@.ws is None,
    {
        RouteMatcher {
            host: None,
            path_prefix: None,
            path_regex: None,
            methods: None,
            headers: None,
            query: None,
            ws: None,
        }
    }

    /// Compiles a match expression. `None` exactly when the expression is
    /// malformed or its regex does not compile; such a route is dropped.
    pub fn from_json(value: &Json) -> (r: Option<RouteMatcher>)
        ensures
            match r {
                Some(m) => parse_route_match(value) == Some(m@) && matcher_wf(m@),
                None => parse_route_match(value) is None || !matcher_wf(
                    parse_route_match(value).unwrap(),
                ),
            },
    {
        let parsed = match route_match_from_json(value) {
            Some(p) => p,
            None => {
                return None;
            },
        };
        match &parsed.path_regex {
            Some(pat) => {
                if !regex_compiles(pat.as_str()) {
                    return None;
                }
            },
            None => {},
        }
        Some(
            RouteMatcher {
                host: parsed.host,
                path_prefix: parsed.path_prefix,
                path_regex: parsed.path_regex,
                methods: parsed.method,
                headers: parsed.headers,
                query: parsed.query,
                ws: parsed.ws,
            },
        )
    }

    /// Forces the WebSocket gate on: ws-kind routes match only upgrades.
    pub fn enforce_ws(&mut self)
        ensures
            final(self)@ == (RouteMatchV { ws: Some(true), ..old(self)@ }),
    {
        self.ws = Some(true);
    }

    /// Evaluates the matcher against a request header.
    pub fn matches(&self, req: &HttpRequest) -> (r: bool)
        requires
            matcher_wf(self@),
        ensures
            r == matcher_matches(self@, req@),
    {
        match &self.host {
            Some(expected) => {
                let host = match header_value(req, "host") {
                    Some(v) => v.as_str(),
                    None => crate::text::empty_str(),
                };
                if !eq_ignore_ascii_case(host, expected.as_str()) {
                    return false;
                }
            },
            None => {},
        }
        match &self.path_prefix {
            Some(prefix) => {
                if !str_starts_with(req.path.as_str(), prefix.as_str()) {
                    return false;
                }
            },
            None => {},
        }
        match &self.path_regex {
            Some(pattern) => {
                match regex_is_match(pattern.as_str(), req.path.as_str()) {
                    Some(true) => {},
                    Some(false) => {
                        return false;
                    },
                    None => {
                        // Unreachable: a compiled matcher's pattern compiles.
                        return false;
                    },
                }
            },
            None => {},
        }
        match &self.methods {
            Some(methods) => {
                proof {
                    assert(self@.method == Some(crate::matchexpr::strings_view(methods@)));
                }
                if !any_method_matches(methods, req.method.as_str()) {
                    return false;
                }
            },
            None => {},
        }
        match &self.headers {
            Some(headers) => {
                proof {
                    assert(self@.headers == Some(pairs_view(headers@)));
                }
                if !all_headers_match(req, headers) {
                    return false;
                }
            },
            None => {},
        }
        match &self.query {
            Some(query) => {
                proof {
                    assert(self@.query == Some(pairs_view(query@)));
                }
                let actual_pairs = parse_query(req.query.as_str());
                if !all_query_match(&actual_pairs, query) {
                    return false;
                }
            },
            None => {},
        }
        match self.ws {
            Some(ws_required) => {
                if ws_required != is_ws_request(req) {
                    return false;
                }
            },
            None => {},
        }
        true
    }
}

/// Whether any listed method equals the request method, up to ASCII case.
fn any_method_matches(methods: &Vec<String>, method: &str) -> (r: bool)
    ensures
        r == method_ok(crate::matchexpr::strings_view(methods@), method@),
{
    let ghost ms = crate::matchexpr::strings_view(methods@);
    let mut i: usize = 0;
    while i < methods.len()
        invariant
            ms == crate::matchexpr::strings_view(methods@),
            i <= methods@.len(),
            ms.len() == methods@.len(),
            forall|k: int| 0 <= k < i ==> !eq_ignore_case_spec(#[trigger] ms[k], method@),
        decreases methods@.len() - i,
    {
        if eq_ignore_ascii_case(methods[i].as_str(), method) {
            proof {
                assert(eq_ignore_case_spec(ms[i as int], method@));
            }
            return true;
        }
        i = i + 1;
    }
    false
}

/// Whether every expected header is present with exactly its value; an
/// absent header counts as the empty string.
fn all_headers_match(req: &HttpRequest, headers: &Vec<(String, String)>) -> (r: bool)
    ensures
        r == headers_ok(pairs_view(headers@), req@.headers),
{
    let ghost hs = pairs_view(headers@);
    let mut i: usize = 0;
    while i < headers.len()
        invariant
            hs == pairs_view(headers@),
            i <= headers@.len(),
            hs.len() == headers@.len(),
            forall|k: int|
                0 <= k < i ==> header_or_empty(req@.headers, (#[trigger] hs[k]).0) == hs[k].1,
        decreases headers@.len() - i,
    {
        let actual = match header_value(req, headers[i].0.as_str()) {
            Some(v) => v.as_str(),
            None => crate::text::empty_str(),
        };
        if !str_eq(actual, headers[i].1.as_str()) {
            proof {
                assert(header_or_empty(req@.headers, hs[i as int].0) != hs[i as int].1);
            }
            return false;
        }
        i = i + 1;
    }
    true
}

/// Whether every expected query entry matches the parsed query map; an
/// absent key counts as the empty string.
fn all_query_match(actual: &Vec<(String, String)>, query: &Vec<(String, String)>) -> (r: bool)
    ensures
        r == query_ok(pairs_view(query@), pairs_view(actual@)),
{
    let ghost qs = pairs_view(query@);
    let mut i: usize = 0;
    while i < query.len()
        invariant
            qs == pairs_view(query@),
            i <= query@.len(),
            qs.len() == query@.len(),
            forall|k: int|
                0 <= k < i ==> (match pairs_last_value(
                    pairs_view(actual@),
                    (#[trigger] qs[k]).0,
                ) {
                    Some(v) => v,
                    None => Seq::<char>::empty(),
                }) == qs[k].1,
        decreases query@.len() - i,
    {
        let got = query_get_or_empty(actual, query[i].0.as_str());
        if !str_eq(got, query[i].1.as_str()) {
            proof {
                assert((match pairs_last_value(pairs_view(actual@), qs[i as int].0) {
                    Some(v) => v,
                    None => Seq::<char>::empty(),
                }) != qs[i as int].1);
            }
            return false;
        }
        i = i + 1;
    }
    true
}

/// The kind of a route: match by port alone, by path conditions, or by path
/// conditions plus the WebSocket gate.
#[derive(Debug, Clone, Copy, PartialEq, Eq, Structural)]
pub enum RouteKind {
    Port,
    Path,
    Ws,
}

/// The kind a type string denotes, compared case-insensitively.
pub open spec fn route_kind_of(s: Seq<char>) -> Option<RouteKind> {
    if eq_ignore_case_spec(s, "port"@) {
        Some(RouteKind::Port)
    } else if eq_ignore_case_spec(s, "path"@) {
        Some(RouteKind::Path)
    } else if eq_ignore_case_spec(s, "ws"@) {
        Some(RouteKind::Ws)
    } else {
        None
    }
}

impl RouteKind {
    /// Reads a route kind from its type string.
    pub fn from_str(value: &str) -> (r: Option<RouteKind>)
        ensures
            r == route_kind_of(value@),
    {
        if eq_ignore_ascii_case(value, "port") {
            Some(RouteKind::Port)
        } else if eq_ignore_ascii_case(value, "path") {
            Some(RouteKind::Path)
        } else if eq_ignore_ascii_case(value, "ws") {
            Some(RouteKind::Ws)
        } else {
            None
        }
    }
}

/// A compiled route: identity, pool, priority, kind and matcher.
#[derive(Debug)]
pub struct RouteRule {
    pub id: crate::ids::Id,
    pub upstream_pool_id: crate::ids::Id,
    pub priority: i32,
    pub matcher: RouteMatcher,
    pub kind: RouteKind,
}

/// A rule whose matcher is well-formed; ws-kind rules carry the upgrade gate.
pub open spec fn rule_wf(r: &RouteRule) -> bool {
    matcher_wf(r.matcher@) && (r.kind is Ws ==> r.matcher@.ws == Some(true))
}

/// Rule evaluation: port rules always match; path rules go by the matcher;
/// ws rules additionally demand an upgrade request.
pub open spec fn rule_matches(r: &RouteRule, req: HttpRequestV) -> bool {
    match r.kind {
        RouteKind::Port => true,
        RouteKind::Path => matcher_matches(r.matcher@, req),
        RouteKind::Ws => is_ws_spec(req) && matcher_matches(r.matcher@, req),
    }
}

impl RouteRule {
    /// Evaluates the rule against a request header.
    pub fn matches(&self, req: &HttpRequest) -> (r: bool)
        requires
            rule_wf(self),
        ensures
            r == rule_matches(self, req@),
    {
        match self.kind {
            RouteKind::Port => true,
            RouteKind::Path => self.matcher.matches(req),
            RouteKind::Ws => is_ws_request(req) && self.matcher.matches(req),
        }
    }
}

} // verus!
