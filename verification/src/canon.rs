//! Canonical equality of route match expressions: hosts, methods and header
//! keys compared case-insensitively, method lists as sets, header and query
//! maps by their effective entries, and the WebSocket gate forced on for
//! ws-kind routes.

use vstd::prelude::*;
use crate::matchexpr::{RouteMatchV, pairs_view, strings_view};
use crate::models::RouteMatch;
use crate::text::{lower_seq, eq_ignore_ascii_case, to_ascii_lowercase, str_eq};
use vstd::string::StringExecFns;

verus! {

/// Whether the lowered form of some element equals `x`.
pub open spec fn contains_lower(l: Seq<Seq<char>>, x: Seq<char>) -> bool {
    exists|j: int| 0 <= j < l.len() && lower_seq(#[trigger] l[j]) == x
}

/// Method lists are canonically equal when, lowered and deduplicated, they
/// hold the same set; an absent list and an empty list are alike.
pub open spec fn methods_canon_eq(a: Option<Seq<Seq<char>>>, b: Option<Seq<Seq<char>>>) -> bool {
    let na = match a {
        Some(l) => if l.len() == 0 {
            None
        } else {
            Some(l)
        },
        None => None,
    };
    let nb = match b {
        Some(l) => if l.len() == 0 {
            None
        } else {
            Some(l)
        },
        None => None,
    };
    match (na, nb) {
        (None, None) => true,
        (Some(ma), Some(mb)) => methods_included_spec(ma, mb) && methods_included_spec(mb, ma),
        _ => false,
    }
}

/// Every element of `a`, lowered, occurs (lowered) in `b`.
pub open spec fn methods_included_spec(a: Seq<Seq<char>>, b: Seq<Seq<char>>) -> bool {
    forall|i: int| 0 <= i < a.len() ==> contains_lower(b, lower_seq(#[trigger] a[i]))
}

/// Pairs with their keys lowered.
pub open spec fn lower_keys(ps: Seq<(Seq<char>, Seq<char>)>) -> Seq<(Seq<char>, Seq<char>)> {
    ps.map_values(|p: (Seq<char>, Seq<char>)| (lower_seq(p.0), p.1))
}

/// Two pair lists denote the same map when each side's keys find the same
/// effective (last-written) value on both sides.
pub open spec fn maps_eq(pa: Seq<(Seq<char>, Seq<char>)>, pb: Seq<(Seq<char>, Seq<char>)>) -> bool {
    maps_included(pa, pb) && maps_included(pb, pa)
}

/// Every key of `pa` finds the same effective value on both sides.
pub open spec fn maps_included(
    pa: Seq<(Seq<char>, Seq<char>)>,
    pb: Seq<(Seq<char>, Seq<char>)>,
) -> bool {
    forall|i: int|
        0 <= i < pa.len() ==> crate::matcher::pairs_last_value(pb, (#[trigger] pa[i]).0)
            == crate::matcher::pairs_last_value(pa, pa[i].0)
}

/// Optional maps are canonically equal when both are absent or both present
/// and equal as maps; `lower` says whether keys are lowered first.
pub open spec fn pairs_canon_eq(
    a: Option<Seq<(Seq<char>, Seq<char>)>>,
    b: Option<Seq<(Seq<char>, Seq<char>)>>,
    lower: bool,
) -> bool {
    match (a, b) {
        (None, None) => true,
        (Some(pa), Some(pb)) => if lower {
            maps_eq(lower_keys(pa), lower_keys(pb))
        } else {
            maps_eq(pa, pb)
        },
        _ => false,
    }
}

/// The canonical WebSocket gate: forced on for ws-kind routes.
pub open spec fn ws_canon(is_ws_kind: bool, ws: Option<bool>) -> Option<bool> {
    if is_ws_kind {
        Some(true)
    } else {
        ws
    }
}

pub open spec fn lower_opt(v: Option<Seq<char>>) -> Option<Seq<char>> {
    match v {
        Some(s) => Some(lower_seq(s)),
        None => None,
    }
}

/// Canonical equality of two parsed match expressions under one kind.
pub open spec fn canon_match_eq(is_ws_kind: bool, ma: RouteMatchV, mb: RouteMatchV) -> bool {
    &&& lower_opt(ma.host) == lower_opt(mb.host)
    &&& ma.path_prefix == mb.path_prefix
    &&& ma.path_regex == mb.path_regex
    &&& methods_canon_eq(ma.method, mb.method)
    &&& pairs_canon_eq(ma.headers, mb.headers, true)
    &&& pairs_canon_eq(ma.query, mb.query, false)
    &&& ws_canon(is_ws_kind, ma.ws) == ws_canon(is_ws_kind, mb.ws)
}

// ---------------------------------------------------------------------
// Executable comparison.
// ---------------------------------------------------------------------

fn opt_eq_ignore_case(a: &Option<String>, b: &Option<String>) -> (r: bool)
    ensures
        r == (lower_opt(crate::canon::view_opt(a)) == lower_opt(view_opt(b))),
{
    match (a, b) {
        (None, None) => true,
        (Some(x), Some(y)) => eq_ignore_ascii_case(x.as_str(), y.as_str()),
        _ => false,
    }
}

pub open spec fn view_opt(v: &Option<String>) -> Option<Seq<char>> {
    match v {
        Some(s) => Some(s@),
        None => None,
    }
}

fn opt_str_eq(a: &Option<String>, b: &Option<String>) -> (r: bool)
    ensures
        r == (view_opt(a) == view_opt(b)),
{
    match (a, b) {
        (None, None) => true,
        (Some(x), Some(y)) => str_eq(x.as_str(), y.as_str()),
        _ => false,
    }
}

/// Whether some element of `l` equals `x` up to ASCII case.
fn list_contains_ci(l: &Vec<String>, x: &str) -> (r: bool)
    ensures
        r == contains_lower(strings_view(l@), lower_seq(x@)),
{
    let ghost lv = strings_view(l@);
    let mut j: usize = 0;
    while j < l.len()
        invariant
            lv == strings_view(l@),
            j <= l@.len(),
            lv.len() == l@.len(),
            forall|k: int| 0 <= k < j ==> lower_seq(#[trigger] lv[k]) != lower_seq(x@),
        decreases l@.len() - j,
    {
        if eq_ignore_ascii_case(l[j].as_str(), x) {
            proof {
                assert(lower_seq(lv[j as int]) == lower_seq(x@));
            }
            return true;
        }
        j = j + 1;
    }
    false
}

/// One-sided inclusion of lowered method lists.
fn methods_included(a: &Vec<String>, b: &Vec<String>) -> (r: bool)
    ensures
        r == methods_included_spec(strings_view(a@), strings_view(b@)),
{
    let ghost av = strings_view(a@);
    let mut i: usize = 0;
    while i < a.len()
        invariant
            av == strings_view(a@),
            i <= a@.len(),
            av.len() == a@.len(),
            forall|k: int|
                0 <= k < i ==> contains_lower(strings_view(b@), lower_seq(#[trigger] av[k])),
        decreases a@.len() - i,
    {
        if !list_contains_ci(b, a[i].as_str()) {
            proof {
                assert(!contains_lower(strings_view(b@), lower_seq(av[i as int])));
            }
            return false;
        }
        i = i + 1;
    }
    true
}

/// Canonical equality of two optional method lists.
fn methods_eq(a: &Option<Vec<String>>, b: &Option<Vec<String>>) -> (r: bool)
    ensures
        r == methods_canon_eq(
            match a {
                Some(v) => Some(strings_view(v@)),
                None => None,
            },
            match b {
                Some(v) => Some(strings_view(v@)),
                None => None,
            },
        ),
{
    let a_empty = match a {
        Some(v) => v.len() == 0,
        None => true,
    };
    let b_empty = match b {
        Some(v) => v.len() == 0,
        None => true,
    };
    if a_empty || b_empty {
        return a_empty == b_empty;
    }
    match (a, b) {
        (Some(va), Some(vb)) => methods_included(va, vb) && methods_included(vb, va),
        _ => false,  // unreachable: both sides are nonempty
    }
}

/// The effective value of a key in a pair list, keys lowered when asked;
/// the last entry with the key wins.
fn last_value<'a>(pairs: &'a Vec<(String, String)>, key_lowered: &str, lower: bool) -> (r: Option<
    &'a String,
>)
    ensures
        ({
            let ps = if lower {
                lower_keys(pairs_view(pairs@))
            } else {
                pairs_view(pairs@)
            };
            match r {
                Some(v) => crate::matcher::pairs_last_value(ps, key_lowered@) == Some(v@),
                None => crate::matcher::pairs_last_value(ps, key_lowered@) is None,
            }
        }),
{
    let ghost ps = if lower {
        lower_keys(pairs_view(pairs@))
    } else {
        pairs_view(pairs@)
    };
    let mut i: usize = pairs.len();
    proof {
        assert(ps.take(ps.len() as int) =~= ps);
    }
    while i > 0
        invariant
            ps == (if lower {
                lower_keys(pairs_view(pairs@))
            } else {
                pairs_view(pairs@)
            }),
            i <= pairs@.len(),
            ps.len() == pairs@.len(),
            crate::matcher::pairs_last_value(ps, key_lowered@)
                == crate::matcher::pairs_last_value(ps.take(i as int), key_lowered@),
        decreases i,
    {
        proof {
            assert(ps.take(i as int).last() == ps[i - 1]);
            assert(ps.take(i as int).drop_last() =~= ps.take(i - 1));
        }
        let hit = if lower {
            let lk = to_ascii_lowercase(pairs[i - 1].0.as_str());
            str_eq(lk.as_str(), key_lowered)
        } else {
            str_eq(pairs[i - 1].0.as_str(), key_lowered)
        };
        if hit {
            return Some(&pairs[i - 1].1);
        }
        i = i - 1;
    }
    proof {
        assert(ps.take(0) =~= Seq::<(Seq<char>, Seq<char>)>::empty());
    }
    None
}

fn opt_string_eq_ref(a: Option<&String>, b: Option<&String>) -> (r: bool)
    ensures
        r == (match (a, b) {
            (Some(x), Some(y)) => x@ == y@,
            (None, None) => true,
            _ => false,
        }),
{
    match (a, b) {
        (Some(x), Some(y)) => str_eq(x.as_str(), y.as_str()),
        (None, None) => true,
        _ => false,
    }
}

/// One-sided map inclusion: every key of `a` finds the same effective
/// value on both sides.
fn pairs_included(a: &Vec<(String, String)>, b: &Vec<(String, String)>, lower: bool) -> (r: bool)
    ensures
        ({
            let pa = if lower {
                lower_keys(pairs_view(a@))
            } else {
                pairs_view(a@)
            };
            let pb = if lower {
                lower_keys(pairs_view(b@))
            } else {
                pairs_view(b@)
            };
            r == maps_included(pa, pb)
        }),
{
    let ghost pa = if lower {
        lower_keys(pairs_view(a@))
    } else {
        pairs_view(a@)
    };
    let ghost pb = if lower {
        lower_keys(pairs_view(b@))
    } else {
        pairs_view(b@)
    };
    let mut i: usize = 0;
    while i < a.len()
        invariant
            pa == (if lower {
                lower_keys(pairs_view(a@))
            } else {
                pairs_view(a@)
            }),
            pb == (if lower {
                lower_keys(pairs_view(b@))
            } else {
                pairs_view(b@)
            }),
            i <= a@.len(),
            pa.len() == a@.len(),
            forall|k: int|
                0 <= k < i ==> crate::matcher::pairs_last_value(pb, (#[trigger] pa[k]).0)
                    == crate::matcher::pairs_last_value(pa, pa[k].0),
        decreases a@.len() - i,
    {
        let key = if lower {
            to_ascii_lowercase(a[i].0.as_str())
        } else {
            a[i].0.clone()
        };
        proof {
            assert(key@ == pa[i as int].0);
        }
        let va = last_value(a, key.as_str(), lower);
        let vb = last_value(b, key.as_str(), lower);
        if !opt_string_eq_ref(va, vb) {
            proof {
                assert(crate::matcher::pairs_last_value(pb, pa[i as int].0)
                    != crate::matcher::pairs_last_value(pa, pa[i as int].0));
            }
            return false;
        }
        i = i + 1;
    }
    true
}

/// Canonical equality of two optional maps.
fn pairs_eq(
    a: &Option<Vec<(String, String)>>,
    b: &Option<Vec<(String, String)>>,
    lower: bool,
) -> (r: bool)
    ensures
        r == pairs_canon_eq(
            match a {
                Some(v) => Some(pairs_view(v@)),
                None => None,
            },
            match b {
                Some(v) => Some(pairs_view(v@)),
                None => None,
            },
            lower,
        ),
{
    match (a, b) {
        (None, None) => true,
        (Some(va), Some(vb)) => pairs_included(va, vb, lower) && pairs_included(vb, va, lower),
        _ => false,
    }
}

fn opt_bool_eq(a: Option<bool>, b: Option<bool>) -> (r: bool)
    ensures
        r == (a == b),
{
    match (a, b) {
        (None, None) => true,
        (Some(x), Some(y)) => x == y,
        _ => false,
    }
}

/// Compares two parsed match expressions canonically under one kind.
pub fn canon_eq(is_ws_kind: bool, ma: &RouteMatch, mb: &RouteMatch) -> (r: bool)
    ensures
        r == canon_match_eq(is_ws_kind, ma@, mb@),
{
    if !opt_eq_ignore_case(&ma.host, &mb.host) {
        return false;
    }
    if !opt_str_eq(&ma.path_prefix, &mb.path_prefix) {
        return false;
    }
    if !opt_str_eq(&ma.path_regex, &mb.path_regex) {
        return false;
    }
    if !methods_eq(&ma.method, &mb.method) {
        return false;
    }
    if !pairs_eq(&ma.headers, &mb.headers, true) {
        return false;
    }
    if !pairs_eq(&ma.query, &mb.query, false) {
        return false;
    }
    let wa = if is_ws_kind {
        Some(true)
    } else {
        ma.ws
    };
    let wb = if is_ws_kind {
        Some(true)
    } else {
        mb.ws
    };
    opt_bool_eq(wa, wb)
}

} // verus!
