//! Parsing a route's free-form match expression into the structured
//! [`RouteMatch`], with the same acceptance rules as the wire decoder: every
//! field optional, `null` and absence alike, and a wrongly typed field
//! rejecting the whole expression.

use vstd::prelude::*;
use crate::json::{Json, obj_lookup, obj_get};
use crate::models::RouteMatch;

verus! {

/// The mathematical value of a match expression.
pub struct RouteMatchV {
    pub host: Option<Seq<char>>,
    pub path_prefix: Option<Seq<char>>,
    pub path_regex: Option<Seq<char>>,
    pub method: Option<Seq<Seq<char>>>,
    pub headers: Option<Seq<(Seq<char>, Seq<char>)>>,
    pub query: Option<Seq<(Seq<char>, Seq<char>)>>,
    pub ws: Option<bool>,
}

pub open spec fn strings_view(v: Seq<String>) -> Seq<Seq<char>> {
    v.map_values(|s: String| s@)
}

pub open spec fn pairs_view(v: Seq<(String, String)>) -> Seq<(Seq<char>, Seq<char>)> {
    v.map_values(|p: (String, String)| (p.0@, p.1@))
}

/// The string contents of a sequence of JSON values, all of which must be
/// strings.
pub open spec fn json_strs(v: Seq<Json>) -> Seq<Seq<char>> {
    v.map_values(|e: Json| e->Str_0@)
}

/// The key and string-value views of JSON object entries.
pub open spec fn json_pairs(v: Seq<(String, Json)>) -> Seq<(Seq<char>, Seq<char>)> {
    v.map_values(|e: (String, Json)| (e.0@, e.1->Str_0@))
}

impl View for RouteMatch {
    type V = RouteMatchV;

    open spec fn view(&self) -> RouteMatchV {
        RouteMatchV {
            host: match self.host {
                Some(s) => Some(s@),
                None => None,
            },
            path_prefix: match self.path_prefix {
                Some(s) => Some(s@),
                None => None,
            },
            path_regex: match self.path_regex {
                Some(s) => Some(s@),
                None => None,
            },
            method: match self.method {
                Some(v) => Some(strings_view(v@)),
                None => None,
            },
            headers: match self.headers {
                Some(v) => Some(pairs_view(v@)),
                None => None,
            },
            query: match self.query {
                Some(v) => Some(pairs_view(v@)),
                None => None,
            },
            ws: self.ws,
        }
    }
}

/// An optional string field: absent or `null` is fine, a string is taken,
/// anything else rejects.
pub open spec fn parse_opt_string(j: Option<Json>) -> Option<Option<Seq<char>>> {
    match j {
        None => Some(None),
        Some(Json::Null) => Some(None),
        Some(Json::Str(s)) => Some(Some(s@)),
        Some(_) => None,
    }
}

/// An optional array-of-strings field.
pub open spec fn parse_opt_strings(j: Option<Json>) -> Option<Option<Seq<Seq<char>>>> {
    match j {
        None => Some(None),
        Some(Json::Null) => Some(None),
        Some(Json::Arr(elems)) => if forall|i: int|
            0 <= i < elems@.len() ==> #[trigger] elems@[i] is Str {
            Some(Some(json_strs(elems@)))
        } else {
            None
        },
        Some(_) => None,
    }
}

/// An optional string-to-string map field; entry order is kept.
pub open spec fn parse_opt_pairs(j: Option<Json>) -> Option<Option<Seq<(Seq<char>, Seq<char>)>>> {
    match j {
        None => Some(None),
        Some(Json::Null) => Some(None),
        Some(Json::Obj(entries)) => if forall|i: int|
            0 <= i < entries@.len() ==> #[trigger] entries@[i].1 is Str {
            Some(Some(json_pairs(entries@)))
        } else {
            None
        },
        Some(_) => None,
    }
}

/// An optional boolean field.
pub open spec fn parse_opt_bool(j: Option<Json>) -> Option<Option<bool>> {
    match j {
        None => Some(None),
        Some(Json::Null) => Some(None),
        Some(Json::Bool(b)) => Some(Some(b)),
        Some(_) => None,
    }
}

/// The structured reading of a match expression: the expression must be an
/// object, and each known field must have its type; unknown fields are
/// ignored.
pub open spec fn parse_route_match(j: &Json) -> Option<RouteMatchV> {
    match j {
        Json::Obj(entries) => {
            let host = parse_opt_string(obj_lookup(entries@, "host"@));
            let path_prefix = parse_opt_string(obj_lookup(entries@, "path_prefix"@));
            let path_regex = parse_opt_string(obj_lookup(entries@, "path_regex"@));
            let method = parse_opt_strings(obj_lookup(entries@, "method"@));
            let headers = parse_opt_pairs(obj_lookup(entries@, "headers"@));
            let query = parse_opt_pairs(obj_lookup(entries@, "query"@));
            let ws = parse_opt_bool(obj_lookup(entries@, "ws"@));
            if host is Some && path_prefix is Some && path_regex is Some && method is Some
                && headers is Some && query is Some && ws is Some {
                Some(
                    RouteMatchV {
                        host: host.unwrap(),
                        path_prefix: path_prefix.unwrap(),
                        path_regex: path_regex.unwrap(),
                        method: method.unwrap(),
                        headers: headers.unwrap(),
                        query: query.unwrap(),
                        ws: ws.unwrap(),
                    },
                )
            } else {
                None
            }
        },
        _ => None,
    }
}

fn read_opt_string(j: Option<&Json>) -> (r: Option<Option<String>>)
    ensures
        match r {
            Some(v) => parse_opt_string(
                match j {
                    Some(x) => Some(*x),
                    None => None,
                },
            ) == Some(
                match v {
                    Some(s) => Some(s@),
                    None => None::<Seq<char>>,
                },
            ),
            None => parse_opt_string(
                match j {
                    Some(x) => Some(*x),
                    None => None,
                },
            ) is None,
        },
{
    match j {
        None => Some(None),
        Some(Json::Null) => Some(None),
        Some(Json::Str(s)) => Some(Some(s.clone())),
        Some(_) => None,
    }
}

#[verifier::loop_isolation(false)]
fn read_opt_strings(j: Option<&Json>) -> (r: Option<Option<Vec<String>>>)
    ensures
        match r {
            Some(v) => parse_opt_strings(
                match j {
                    Some(x) => Some(*x),
                    None => None,
                },
            ) == Some(
                match v {
                    Some(vs) => Some(strings_view(vs@)),
                    None => None::<Seq<Seq<char>>>,
                },
            ),
            None => parse_opt_strings(
                match j {
                    Some(x) => Some(*x),
                    None => None,
                },
            ) is None,
        },
{
    match j {
        None => Some(None),
        Some(Json::Null) => Some(None),
        Some(Json::Arr(elems)) => {
            let mut out: Vec<String> = Vec::new();
            let mut i: usize = 0;
            while i < elems.len()
                invariant
                    i <= elems@.len(),
                    forall|k: int| 0 <= k < i ==> #[trigger] elems@[k] is Str,
                    strings_view(out@) =~~= json_strs(elems@.take(i as int)),
                decreases elems@.len() - i,
            {
                let ghost prev = out@;
                match &elems[i] {
                    Json::Str(s) => {
                        out.push(s.clone());
                    },
                    _ => {
                        return None;
                    },
                }
                proof {
                    assert forall|k: int| 0 <= k < i + 1 implies strings_view(out@)[k]
                        == json_strs(elems@.take(i + 1))[k] by {
                        assert(elems@.take(i + 1)[k] == elems@[k]);
                        if k < i {
                            assert(out@[k] == prev[k]);
                            assert(strings_view(prev)[k] == json_strs(elems@.take(i as int))[k]);
                            assert(json_strs(elems@.take(i as int))[k] == elems@.take(
                                i as int,
                            )[k]->Str_0@);
                        }
                    }
                    assert(strings_view(out@) =~~= json_strs(elems@.take(i + 1)));
                }
                i = i + 1;
            }
            proof {
                assert(elems@.take(elems@.len() as int) =~~= elems@);
                assert(strings_view(out@) =~~= json_strs(elems@));
            }
            Some(Some(out))
        },
        Some(_) => None,
    }
}

#[verifier::loop_isolation(false)]
fn read_opt_pairs(j: Option<&Json>) -> (r: Option<Option<Vec<(String, String)>>>)
    ensures
        match r {
            Some(v) => parse_opt_pairs(
                match j {
                    Some(x) => Some(*x),
                    None => None,
                },
            ) == Some(
                match v {
                    Some(vs) => Some(pairs_view(vs@)),
                    None => None::<Seq<(Seq<char>, Seq<char>)>>,
                },
            ),
            None => parse_opt_pairs(
                match j {
                    Some(x) => Some(*x),
                    None => None,
                },
            ) is None,
        },
{
    match j {
        None => Some(None),
        Some(Json::Null) => Some(None),
        Some(Json::Obj(entries)) => {
            let mut out: Vec<(String, String)> = Vec::new();
            let mut i: usize = 0;
            while i < entries.len()
                invariant
                    i <= entries@.len(),
                    forall|k: int| 0 <= k < i ==> #[trigger] entries@[k].1 is Str,
                    pairs_view(out@) =~~= json_pairs(entries@.take(i as int)),
                decreases entries@.len() - i,
            {
                let ghost prev = out@;
                match &entries[i].1 {
                    Json::Str(s) => {
                        out.push((entries[i].0.clone(), s.clone()));
                    },
                    _ => {
                        return None;
                    },
                }
                proof {
                    assert forall|k: int| 0 <= k < i + 1 implies pairs_view(out@)[k]
                        == json_pairs(entries@.take(i + 1))[k] by {
                        assert(entries@.take(i + 1)[k] == entries@[k]);
                        if k < i {
                            assert(out@[k] == prev[k]);
                            assert(pairs_view(prev)[k] == json_pairs(entries@.take(i as int))[k]);
                            assert(json_pairs(entries@.take(i as int))[k] == (entries@.take(
                                i as int,
                            )[k].0@, entries@.take(i as int)[k].1->Str_0@));
                        }
                    }
                    assert(pairs_view(out@) =~~= json_pairs(entries@.take(i + 1)));
                }
                i = i + 1;
            }
            proof {
                assert(entries@.take(entries@.len() as int) =~~= entries@);
                assert(pairs_view(out@) =~~= json_pairs(entries@));
            }
            Some(Some(out))
        },
        Some(_) => None,
    }
}

fn read_opt_bool(j: Option<&Json>) -> (r: Option<Option<bool>>)
    ensures
        match r {
            Some(v) => parse_opt_bool(
                match j {
                    Some(x) => Some(*x),
                    None => None,
                },
            ) == Some(v),
            None => parse_opt_bool(
                match j {
                    Some(x) => Some(*x),
                    None => None,
                },
            ) is None,
        },
{
    match j {
        None => Some(None),
        Some(Json::Null) => Some(None),
        Some(Json::Bool(b)) => Some(Some(*b)),
        Some(_) => None,
    }
}

/// Reads a match expression into its structured form; `None` exactly when
/// the expression is malformed.
pub fn route_match_from_json(j: &Json) -> (r: Option<RouteMatch>)
    ensures
        match r {
            Some(m) => parse_route_match(j) == Some(m@),
            None => parse_route_match(j) is None,
        },
{
    let entries = match j.as_object() {
        Some(e) => e,
        None => {
            return None;
        },
    };
    let host = match read_opt_string(obj_get(entries, "host")) {
        Some(v) => v,
        None => {
            return None;
        },
    };
    let path_prefix = match read_opt_string(obj_get(entries, "path_prefix")) {
        Some(v) => v,
        None => {
            return None;
        },
    };
    let path_regex = match read_opt_string(obj_get(entries, "path_regex")) {
        Some(v) => v,
        None => {
            return None;
        },
    };
    let method = match read_opt_strings(obj_get(entries, "method")) {
        Some(v) => v,
        None => {
            return None;
        },
    };
    let headers = match read_opt_pairs(obj_get(entries, "headers")) {
        Some(v) => v,
        None => {
            return None;
        },
    };
    let query = match read_opt_pairs(obj_get(entries, "query")) {
        Some(v) => v,
        None => {
            return None;
        },
    };
    let ws = match read_opt_bool(obj_get(entries, "ws")) {
        Some(v) => v,
        None => {
            return None;
        },
    };
    Some(RouteMatch { host, path_prefix, path_regex, method, headers, query, ws })
}

} // verus!
