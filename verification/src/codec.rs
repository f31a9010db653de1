//! The canonical document form of a snapshot: how a version's payload is
//! frozen for storage and read back. The encoding is positional and total;
//! the decoder accepts exactly the canonical shape, so nothing a snapshot
//! holds is lost between writing and reading back.

use vstd::prelude::*;
use crate::ids::Id;
use crate::json::Json;
use crate::models::{
    Certificate, Listener, Route, Snapshot, TlsPolicy, UpstreamPool, UpstreamTarget,
};
use vstd::string::StringExecFns;

verus! {

/// The canonical document of one listener: a fixed field
/// list in a fixed order, each entry pinned to the entity's value.
pub open spec fn rep_listener(j: Json, x: Listener) -> bool {
    match j {
        Json::Obj(entries) => {
            let e = entries@;
            e.len() == 11 &&
            (e[0].0@ == "id_hi"@) && (e[0].1 == Json::UInt(x.id.hi)) &&
            (e[1].0@ == "id_lo"@) && (e[1].1 == Json::UInt(x.id.lo)) &&
            (e[2].0@ == "name"@) && (e[2].1 == Json::Str(x.name)) &&
            (e[3].0@ == "port"@) && (e[3].1 == Json::Int(x.port as i64)) &&
            (e[4].0@ == "protocol"@) && (e[4].1 == Json::Str(x.protocol)) &&
            (e[5].0@ == "tls_set"@) && (e[5].1 == Json::Bool(x.tls_policy_id is Some)) &&
            (e[6].0@ == "tls_hi"@) && (e[6].1 == Json::UInt(match x.tls_policy_id { Some(i) => i.hi, None => 0 })) &&
            (e[7].0@ == "tls_lo"@) && (e[7].1 == Json::UInt(match x.tls_policy_id { Some(i) => i.lo, None => 0 })) &&
            (e[8].0@ == "enabled"@) && (e[8].1 == Json::Bool(x.enabled)) &&
            (e[9].0@ == "created_at"@) && (e[9].1 == Json::Int(x.created_at)) &&
            (e[10].0@ == "updated_at"@) && (e[10].1 == Json::Int(x.updated_at))
        },
        _ => false,
    }
}

/// Writes one listener in its canonical document form.
pub fn listener_to_json(x: Listener) -> (j: Json)
    ensures
        rep_listener(j, x),
{
    let mut e: Vec<(String, Json)> = Vec::new();
    e.push(("id_hi".to_owned(), Json::UInt(x.id.hi)));
    e.push(("id_lo".to_owned(), Json::UInt(x.id.lo)));
    e.push(("name".to_owned(), Json::Str(x.name)));
    e.push(("port".to_owned(), Json::Int(x.port as i64)));
    e.push(("protocol".to_owned(), Json::Str(x.protocol)));
    e.push(("tls_set".to_owned(), Json::Bool(matches!(x.tls_policy_id, Some(_)))));
    e.push(("tls_hi".to_owned(), Json::UInt(match x.tls_policy_id { Some(i) => i.hi, None => 0 })));
    e.push(("tls_lo".to_owned(), Json::UInt(match x.tls_policy_id { Some(i) => i.lo, None => 0 })));
    e.push(("enabled".to_owned(), Json::Bool(x.enabled)));
    e.push(("created_at".to_owned(), Json::Int(x.created_at)));
    e.push(("updated_at".to_owned(), Json::Int(x.updated_at)));
    Json::Obj(e)
}

/// The canonical document of one route: a fixed field
/// list in a fixed order, each entry pinned to the entity's value.
pub open spec fn rep_route(j: Json, x: Route) -> bool {
    match j {
        Json::Obj(entries) => {
            let e = entries@;
            e.len() == 12 &&
            (e[0].0@ == "id_hi"@) && (e[0].1 == Json::UInt(x.id.hi)) &&
            (e[1].0@ == "id_lo"@) && (e[1].1 == Json::UInt(x.id.lo)) &&
            (e[2].0@ == "listener_hi"@) && (e[2].1 == Json::UInt(x.listener_id.hi)) &&
            (e[3].0@ == "listener_lo"@) && (e[3].1 == Json::UInt(x.listener_id.lo)) &&
            (e[4].0@ == "kind"@) && (e[4].1 == Json::Str(x.kind)) &&
            (e[5].0@ == "match_expr"@) && (e[5].1 == x.match_expr) &&
            (e[6].0@ == "priority"@) && (e[6].1 == Json::Int(x.priority as i64)) &&
            (e[7].0@ == "pool_hi"@) && (e[7].1 == Json::UInt(x.upstream_pool_id.hi)) &&
            (e[8].0@ == "pool_lo"@) && (e[8].1 == Json::UInt(x.upstream_pool_id.lo)) &&
            (e[9].0@ == "enabled"@) && (e[9].1 == Json::Bool(x.enabled)) &&
            (e[10].0@ == "created_at"@) && (e[10].1 == Json::Int(x.created_at)) &&
            (e[11].0@ == "updated_at"@) && (e[11].1 == Json::Int(x.updated_at))
        },
        _ => false,
    }
}

/// Writes one route in its canonical document form.
pub fn route_to_json(x: Route) -> (j: Json)
    ensures
        rep_route(j, x),
{
    let mut e: Vec<(String, Json)> = Vec::new();
    e.push(("id_hi".to_owned(), Json::UInt(x.id.hi)));
    e.push(("id_lo".to_owned(), Json::UInt(x.id.lo)));
    e.push(("listener_hi".to_owned(), Json::UInt(x.listener_id.hi)));
    e.push(("listener_lo".to_owned(), Json::UInt(x.listener_id.lo)));
    e.push(("kind".to_owned(), Json::Str(x.kind)));
    e.push(("match_expr".to_owned(), x.match_expr));
    e.push(("priority".to_owned(), Json::Int(x.priority as i64)));
    e.push(("pool_hi".to_owned(), Json::UInt(x.upstream_pool_id.hi)));
    e.push(("pool_lo".to_owned(), Json::UInt(x.upstream_pool_id.lo)));
    e.push(("enabled".to_owned(), Json::Bool(x.enabled)));
    e.push(("created_at".to_owned(), Json::Int(x.created_at)));
    e.push(("updated_at".to_owned(), Json::Int(x.updated_at)));
    Json::Obj(e)
}

/// The canonical document of one pool: a fixed field
/// list in a fixed order, each entry pinned to the entity's value.
pub open spec fn rep_pool(j: Json, x: UpstreamPool) -> bool {
    match j {
        Json::Obj(entries) => {
            let e = entries@;
            e.len() == 8 &&
            (e[0].0@ == "id_hi"@) && (e[0].1 == Json::UInt(x.id.hi)) &&
            (e[1].0@ == "id_lo"@) && (e[1].1 == Json::UInt(x.id.lo)) &&
            (e[2].0@ == "name"@) && (e[2].1 == Json::Str(x.name)) &&
            (e[3].0@ == "policy"@) && (e[3].1 == Json::Str(x.policy)) &&
            (e[4].0@ == "hc_set"@) && (e[4].1 == Json::Bool(x.health_check is Some)) &&
            (e[5].0@ == "health_check"@) && (e[5].1 == (match x.health_check { Some(h) => h, None => Json::Null })) &&
            (e[6].0@ == "created_at"@) && (e[6].1 == Json::Int(x.created_at)) &&
            (e[7].0@ == "updated_at"@) && (e[7].1 == Json::Int(x.updated_at))
        },
        _ => false,
    }
}

/// Writes one pool in its canonical document form.
pub fn pool_to_json(x: UpstreamPool) -> (j: Json)
    ensures
        rep_pool(j, x),
{
    let mut e: Vec<(String, Json)> = Vec::new();
    e.push(("id_hi".to_owned(), Json::UInt(x.id.hi)));
    e.push(("id_lo".to_owned(), Json::UInt(x.id.lo)));
    e.push(("name".to_owned(), Json::Str(x.name)));
    e.push(("policy".to_owned(), Json::Str(x.policy)));
    e.push(("hc_set".to_owned(), Json::Bool(matches!(x.health_check, Some(_)))));
    match x.health_check {
        Some(h) => e.push(("health_check".to_owned(), h)),
        None => e.push(("health_check".to_owned(), Json::Null)),
    }
    e.push(("created_at".to_owned(), Json::Int(x.created_at)));
    e.push(("updated_at".to_owned(), Json::Int(x.updated_at)));
    Json::Obj(e)
}

/// The canonical document of one target: a fixed field
/// list in a fixed order, each entry pinned to the entity's value.
pub open spec fn rep_target(j: Json, x: UpstreamTarget) -> bool {
    match j {
        Json::Obj(entries) => {
            let e = entries@;
            e.len() == 9 &&
            (e[0].0@ == "id_hi"@) && (e[0].1 == Json::UInt(x.id.hi)) &&
            (e[1].0@ == "id_lo"@) && (e[1].1 == Json::UInt(x.id.lo)) &&
            (e[2].0@ == "pool_hi"@) && (e[2].1 == Json::UInt(x.pool_id.hi)) &&
            (e[3].0@ == "pool_lo"@) && (e[3].1 == Json::UInt(x.pool_id.lo)) &&
            (e[4].0@ == "address"@) && (e[4].1 == Json::Str(x.address)) &&
            (e[5].0@ == "weight"@) && (e[5].1 == Json::Int(x.weight as i64)) &&
            (e[6].0@ == "enabled"@) && (e[6].1 == Json::Bool(x.enabled)) &&
            (e[7].0@ == "created_at"@) && (e[7].1 == Json::Int(x.created_at)) &&
            (e[8].0@ == "updated_at"@) && (e[8].1 == Json::Int(x.updated_at))
        },
        _ => false,
    }
}

/// Writes one target in its canonical document form.
pub fn target_to_json(x: UpstreamTarget) -> (j: Json)
    ensures
        rep_target(j, x),
{
    let mut e: Vec<(String, Json)> = Vec::new();
    e.push(("id_hi".to_owned(), Json::UInt(x.id.hi)));
    e.push(("id_lo".to_owned(), Json::UInt(x.id.lo)));
    e.push(("pool_hi".to_owned(), Json::UInt(x.pool_id.hi)));
    e.push(("pool_lo".to_owned(), Json::UInt(x.pool_id.lo)));
    e.push(("address".to_owned(), Json::Str(x.address)));
    e.push(("weight".to_owned(), Json::Int(x.weight as i64)));
    e.push(("enabled".to_owned(), Json::Bool(x.enabled)));
    e.push(("created_at".to_owned(), Json::Int(x.created_at)));
    e.push(("updated_at".to_owned(), Json::Int(x.updated_at)));
    Json::Obj(e)
}

/// The canonical document of one tls policy: a fixed field
/// list in a fixed order, each entry pinned to the entity's value.
pub open spec fn rep_tls_policy(j: Json, x: TlsPolicy) -> bool {
    match j {
        Json::Obj(entries) => {
            let e = entries@;
            e.len() == 7 &&
            (e[0].0@ == "id_hi"@) && (e[0].1 == Json::UInt(x.id.hi)) &&
            (e[1].0@ == "id_lo"@) && (e[1].1 == Json::UInt(x.id.lo)) &&
            (e[2].0@ == "mode"@) && (e[2].1 == Json::Str(x.mode)) &&
            (e[3].0@ == "domains"@) && ((match e[3].1 { Json::Arr(items) => items@.len() == x.domains@.len() && (forall|m: int| 0 <= m < items@.len() ==> #[trigger] items@[m] == Json::Str(x.domains@[m])), _ => false })) &&
            (e[4].0@ == "status"@) && (e[4].1 == Json::Str(x.status)) &&
            (e[5].0@ == "created_at"@) && (e[5].1 == Json::Int(x.created_at)) &&
            (e[6].0@ == "updated_at"@) && (e[6].1 == Json::Int(x.updated_at))
        },
        _ => false,
    }
}

/// Writes one tls policy in its canonical document form.
pub fn tls_policy_to_json(x: TlsPolicy) -> (j: Json)
    ensures
        rep_tls_policy(j, x),
{
    let mut e: Vec<(String, Json)> = Vec::new();
    e.push(("id_hi".to_owned(), Json::UInt(x.id.hi)));
    e.push(("id_lo".to_owned(), Json::UInt(x.id.lo)));
    e.push(("mode".to_owned(), Json::Str(x.mode)));
    {
        let mut items: Vec<Json> = Vec::new();
        let mut src = x.domains;
        let ghost orig_d = src@;
        while src.len() > 0
            invariant
                items@.len() + src@.len() == orig_d.len(),
                src@ == orig_d.skip(items@.len() as int),
                forall|m: int| 0 <= m < items@.len() ==> #[trigger] items@[m] == Json::Str(
                    orig_d[m],
                ),
            decreases src@.len(),
        {
            let ghost nn = items@.len() as int;
            let s = src.remove(0);
            proof {
                assert(orig_d.skip(nn)[0] == orig_d[nn]);
                assert(src@ =~= orig_d.skip(nn + 1));
            }
            items.push(Json::Str(s));
        }
        e.push(("domains".to_owned(), Json::Arr(items)));
    }
    e.push(("status".to_owned(), Json::Str(x.status)));
    e.push(("created_at".to_owned(), Json::Int(x.created_at)));
    e.push(("updated_at".to_owned(), Json::Int(x.updated_at)));
    Json::Obj(e)
}

/// The canonical document of one certificate: a fixed field
/// list in a fixed order, each entry pinned to the entity's value.
pub open spec fn rep_certificate(j: Json, x: Certificate) -> bool {
    match j {
        Json::Obj(entries) => {
            let e = entries@;
            e.len() == 9 &&
            (e[0].0@ == "id_hi"@) && (e[0].1 == Json::UInt(x.id.hi)) &&
            (e[1].0@ == "id_lo"@) && (e[1].1 == Json::UInt(x.id.lo)) &&
            (e[2].0@ == "domain"@) && (e[2].1 == Json::Str(x.domain)) &&
            (e[3].0@ == "cert_pem"@) && (e[3].1 == Json::Str(x.cert_pem)) &&
            (e[4].0@ == "key_pem"@) && (e[4].1 == Json::Str(x.key_pem)) &&
            (e[5].0@ == "expires_at"@) && (e[5].1 == Json::Int(x.expires_at)) &&
            (e[6].0@ == "status"@) && (e[6].1 == Json::Str(x.status)) &&
            (e[7].0@ == "created_at"@) && (e[7].1 == Json::Int(x.created_at)) &&
            (e[8].0@ == "updated_at"@) && (e[8].1 == Json::Int(x.updated_at))
        },
        _ => false,
    }
}

/// Writes one certificate in its canonical document form.
pub fn certificate_to_json(x: Certificate) -> (j: Json)
    ensures
        rep_certificate(j, x),
{
    let mut e: Vec<(String, Json)> = Vec::new();
    e.push(("id_hi".to_owned(), Json::UInt(x.id.hi)));
    e.push(("id_lo".to_owned(), Json::UInt(x.id.lo)));
    e.push(("domain".to_owned(), Json::Str(x.domain)));
    e.push(("cert_pem".to_owned(), Json::Str(x.cert_pem)));
    e.push(("key_pem".to_owned(), Json::Str(x.key_pem)));
    e.push(("expires_at".to_owned(), Json::Int(x.expires_at)));
    e.push(("status".to_owned(), Json::Str(x.status)));
    e.push(("created_at".to_owned(), Json::Int(x.created_at)));
    e.push(("updated_at".to_owned(), Json::Int(x.updated_at)));
    Json::Obj(e)
}

/// Reads an array of strings; any other element rejects.
#[verifier::loop_isolation(false)]
fn strings_of_items(items: Vec<Json>) -> (r: Option<Vec<String>>)
    ensures
        match r {
            Some(out) => items@.len() == out@.len() && forall|m: int|
                0 <= m < items@.len() ==> #[trigger] items@[m] == Json::Str(out@[m]),
            None => exists|m: int| 0 <= m < items@.len() && !((#[trigger] items@[m]) is Str),
        },
{
    let mut out: Vec<String> = Vec::new();
    let mut src = items;
    let ghost orig = src@;
    while src.len() > 0
        invariant
            out@.len() + src@.len() == orig.len(),
            src@ == orig.skip(out@.len() as int),
            forall|m: int| 0 <= m < out@.len() ==> #[trigger] orig[m] == Json::Str(out@[m]),
        decreases src@.len(),
    {
        let ghost nn = out@.len() as int;
        let v = src.remove(0);
        proof {
            assert(orig.skip(nn)[0] == orig[nn]);
            assert(src@ =~= orig.skip(nn + 1));
        }
        match v {
            Json::Str(s) => {
                out.push(s);
            },
            _ => {
                proof {
                    assert(!(orig[nn] is Str));
                    assert(!((items@[nn]) is Str));
                }
                return None;
            },
        }
    }
    Some(out)
}

/// Reads one listener back from its canonical document;
/// anything outside the canonical shape describes no listener.
#[verifier::loop_isolation(false)]
pub fn listener_from_json(j: Json) -> (r: Option<Listener>)
    ensures
        match r {
            Some(x) => rep_listener(j, x),
            None => forall|x: Listener| !rep_listener(j, x),
        },
{
    let ghost j0 = j;
    let mut entries = match j {
        Json::Obj(entries) => entries,
        _ => {
            return None;
        },
    };
    if entries.len() != 11 {
        proof { assert(forall|x: Listener| !rep_listener(j0, x)); }
        return None;
    }
    let ghost orig = entries@;
        proof {
            assert(entries@ =~= orig.skip(0));
        }
        let (k_0, v_0) = entries.remove(0);
        proof {
            assert(orig.skip(0)[0] == orig[0]);
            assert((k_0, v_0) == orig[0]);
        }
        if !crate::text::str_eq(k_0.as_str(), "id_hi") {
            proof { assert(forall|x: Listener| !rep_listener(j0, x)); }
            return None;
        }
        let f_id_hi: u64 = match v_0 {
            Json::UInt(v) => v,
            _ => {
                proof { assert(forall|x: Listener| !rep_listener(j0, x)); }
            return None;
            },
        };
        proof {
            assert(entries@ =~= orig.skip(1));
        }
        let (k_1, v_1) = entries.remove(0);
        proof {
            assert(orig.skip(1)[0] == orig[1]);
            assert((k_1, v_1) == orig[1]);
        }
        if !crate::text::str_eq(k_1.as_str(), "id_lo") {
            proof { assert(forall|x: Listener| !rep_listener(j0, x)); }
            return None;
        }
        let f_id_lo: u64 = match v_1 {
            Json::UInt(v) => v,
            _ => {
                proof { assert(forall|x: Listener| !rep_listener(j0, x)); }
            return None;
            },
        };
        proof {
            assert(entries@ =~= orig.skip(2));
        }
        let (k_2, v_2) = entries.remove(0);
        proof {
            assert(orig.skip(2)[0] == orig[2]);
            assert((k_2, v_2) == orig[2]);
        }
        if !crate::text::str_eq(k_2.as_str(), "name") {
            proof { assert(forall|x: Listener| !rep_listener(j0, x)); }
            return None;
        }
        let f_name: String = match v_2 {
            Json::Str(s) => s,
            _ => {
                proof { assert(forall|x: Listener| !rep_listener(j0, x)); }
            return None;
            },
        };
        proof {
            assert(entries@ =~= orig.skip(3));
        }
        let (k_3, v_3) = entries.remove(0);
        proof {
            assert(orig.skip(3)[0] == orig[3]);
            assert((k_3, v_3) == orig[3]);
        }
        if !crate::text::str_eq(k_3.as_str(), "port") {
            proof { assert(forall|x: Listener| !rep_listener(j0, x)); }
            return None;
        }
        let f_port: i32 = match v_3 {
            Json::Int(v) => {
                if v < -2147483648i64 || v > 2147483647i64 {
                    proof { assert(forall|x: Listener| !rep_listener(j0, x)); }
            return None;
                }
                v as i32
            },
            _ => {
                proof { assert(forall|x: Listener| !rep_listener(j0, x)); }
            return None;
            },
        };
        proof {
            assert(entries@ =~= orig.skip(4));
        }
        let (k_4, v_4) = entries.remove(0);
        proof {
            assert(orig.skip(4)[0] == orig[4]);
            assert((k_4, v_4) == orig[4]);
        }
        if !crate::text::str_eq(k_4.as_str(), "protocol") {
            proof { assert(forall|x: Listener| !rep_listener(j0, x)); }
            return None;
        }
        let f_protocol: String = match v_4 {
            Json::Str(s) => s,
            _ => {
                proof { assert(forall|x: Listener| !rep_listener(j0, x)); }
            return None;
            },
        };
        proof {
            assert(entries@ =~= orig.skip(5));
        }
        let (k_5, v_5) = entries.remove(0);
        proof {
            assert(orig.skip(5)[0] == orig[5]);
            assert((k_5, v_5) == orig[5]);
        }
        if !crate::text::str_eq(k_5.as_str(), "tls_set") {
            proof { assert(forall|x: Listener| !rep_listener(j0, x)); }
            return None;
        }
        let f_tls_set: bool = match v_5 {
            Json::Bool(b) => b,
            _ => {
                proof { assert(forall|x: Listener| !rep_listener(j0, x)); }
            return None;
            },
        };
        proof {
            assert(entries@ =~= orig.skip(6));
        }
        let (k_6, v_6) = entries.remove(0);
        proof {
            assert(orig.skip(6)[0] == orig[6]);
            assert((k_6, v_6) == orig[6]);
        }
        if !crate::text::str_eq(k_6.as_str(), "tls_hi") {
            proof { assert(forall|x: Listener| !rep_listener(j0, x)); }
            return None;
        }
        let f_tls_hi: u64 = match v_6 {
            Json::UInt(v) => v,
            _ => {
                proof { assert(forall|x: Listener| !rep_listener(j0, x)); }
            return None;
            },
        };
        proof {
            assert(entries@ =~= orig.skip(7));
        }
        let (k_7, v_7) = entries.remove(0);
        proof {
            assert(orig.skip(7)[0] == orig[7]);
            assert((k_7, v_7) == orig[7]);
        }
        if !crate::text::str_eq(k_7.as_str(), "tls_lo") {
            proof { assert(forall|x: Listener| !rep_listener(j0, x)); }
            return None;
        }
        let f_tls_lo: u64 = match v_7 {
            Json::UInt(v) => v,
            _ => {
                proof { assert(forall|x: Listener| !rep_listener(j0, x)); }
            return None;
            },
        };
        proof {
            assert(entries@ =~= orig.skip(8));
        }
        let (k_8, v_8) = entries.remove(0);
        proof {
            assert(orig.skip(8)[0] == orig[8]);
            assert((k_8, v_8) == orig[8]);
        }
        if !crate::text::str_eq(k_8.as_str(), "enabled") {
            proof { assert(forall|x: Listener| !rep_listener(j0, x)); }
            return None;
        }
        let f_enabled: bool = match v_8 {
            Json::Bool(b) => b,
            _ => {
                proof { assert(forall|x: Listener| !rep_listener(j0, x)); }
            return None;
            },
        };
        proof {
            assert(entries@ =~= orig.skip(9));
        }
        let (k_9, v_9) = entries.remove(0);
        proof {
            assert(orig.skip(9)[0] == orig[9]);
            assert((k_9, v_9) == orig[9]);
        }
        if !crate::text::str_eq(k_9.as_str(), "created_at") {
            proof { assert(forall|x: Listener| !rep_listener(j0, x)); }
            return None;
        }
        let f_created_at: i64 = match v_9 {
            Json::Int(v) => v,
            _ => {
                proof { assert(forall|x: Listener| !rep_listener(j0, x)); }
            return None;
            },
        };
        proof {
            assert(entries@ =~= orig.skip(10));
        }
        let (k_10, v_10) = entries.remove(0);
        proof {
            assert(orig.skip(10)[0] == orig[10]);
            assert((k_10, v_10) == orig[10]);
        }
        if !crate::text::str_eq(k_10.as_str(), "updated_at") {
            proof { assert(forall|x: Listener| !rep_listener(j0, x)); }
            return None;
        }
        let f_updated_at: i64 = match v_10 {
            Json::Int(v) => v,
            _ => {
                proof { assert(forall|x: Listener| !rep_listener(j0, x)); }
            return None;
            },
        };
    if !f_tls_set && (f_tls_hi != 0 || f_tls_lo != 0) {
        proof { assert(forall|x: Listener| !rep_listener(j0, x)); }
            return None;
    }
    let out = Listener {
        id: Id::new(f_id_hi, f_id_lo),
        name: f_name,
        port: f_port,
        protocol: f_protocol,
        tls_policy_id: if f_tls_set { Some(Id::new(f_tls_hi, f_tls_lo)) } else { None },
        enabled: f_enabled,
        created_at: f_created_at,
        updated_at: f_updated_at,
    };
    proof {
        assert(rep_listener(j0, out));
    }
    Some(out)
}

/// Reads one route back from its canonical document;
/// anything outside the canonical shape describes no route.
#[verifier::loop_isolation(false)]
pub fn route_from_json(j: Json) -> (r: Option<Route>)
    ensures
        match r {
            Some(x) => rep_route(j, x),
            None => forall|x: Route| !rep_route(j, x),
        },
{
    let ghost j0 = j;
    let mut entries = match j {
        Json::Obj(entries) => entries,
        _ => {
            return None;
        },
    };
    if entries.len() != 12 {
        proof { assert(forall|x: Route| !rep_route(j0, x)); }
        return None;
    }
    let ghost orig = entries@;
        proof {
            assert(entries@ =~= orig.skip(0));
        }
        let (k_0, v_0) = entries.remove(0);
        proof {
            assert(orig.skip(0)[0] == orig[0]);
            assert((k_0, v_0) == orig[0]);
        }
        if !crate::text::str_eq(k_0.as_str(), "id_hi") {
            proof { assert(forall|x: Route| !rep_route(j0, x)); }
            return None;
        }
        let f_id_hi: u64 = match v_0 {
            Json::UInt(v) => v,
            _ => {
                proof { assert(forall|x: Route| !rep_route(j0, x)); }
            return None;
            },
        };
        proof {
            assert(entries@ =~= orig.skip(1));
        }
        let (k_1, v_1) = entries.remove(0);
        proof {
            assert(orig.skip(1)[0] == orig[1]);
            assert((k_1, v_1) == orig[1]);
        }
        if !crate::text::str_eq(k_1.as_str(), "id_lo") {
            proof { assert(forall|x: Route| !rep_route(j0, x)); }
            return None;
        }
        let f_id_lo: u64 = match v_1 {
            Json::UInt(v) => v,
            _ => {
                proof { assert(forall|x: Route| !rep_route(j0, x)); }
            return None;
            },
        };
        proof {
            assert(entries@ =~= orig.skip(2));
        }
        let (k_2, v_2) = entries.remove(0);
        proof {
            assert(orig.skip(2)[0] == orig[2]);
            assert((k_2, v_2) == orig[2]);
        }
        if !crate::text::str_eq(k_2.as_str(), "listener_hi") {
            proof { assert(forall|x: Route| !rep_route(j0, x)); }
            return None;
        }
        let f_listener_hi: u64 = match v_2 {
            Json::UInt(v) => v,
            _ => {
                proof { assert(forall|x: Route| !rep_route(j0, x)); }
            return None;
            },
        };
        proof {
            assert(entries@ =~= orig.skip(3));
        }
        let (k_3, v_3) = entries.remove(0);
        proof {
            assert(orig.skip(3)[0] == orig[3]);
            assert((k_3, v_3) == orig[3]);
        }
        if !crate::text::str_eq(k_3.as_str(), "listener_lo") {
            proof { assert(forall|x: Route| !rep_route(j0, x)); }
            return None;
        }
        let f_listener_lo: u64 = match v_3 {
            Json::UInt(v) => v,
            _ => {
                proof { assert(forall|x: Route| !rep_route(j0, x)); }
            return None;
            },
        };
        proof {
            assert(entries@ =~= orig.skip(4));
        }
        let (k_4, v_4) = entries.remove(0);
        proof {
            assert(orig.skip(4)[0] == orig[4]);
            assert((k_4, v_4) == orig[4]);
        }
        if !crate::text::str_eq(k_4.as_str(), "kind") {
            proof { assert(forall|x: Route| !rep_route(j0, x)); }
            return None;
        }
        let f_kind: String = match v_4 {
            Json::Str(s) => s,
            _ => {
                proof { assert(forall|x: Route| !rep_route(j0, x)); }
            return None;
            },
        };
        proof {
            assert(entries@ =~= orig.skip(5));
        }
        let (k_5, v_5) = entries.remove(0);
        proof {
            assert(orig.skip(5)[0] == orig[5]);
            assert((k_5, v_5) == orig[5]);
        }
        if !crate::text::str_eq(k_5.as_str(), "match_expr") {
            proof { assert(forall|x: Route| !rep_route(j0, x)); }
            return None;
        }
        let f_match_expr: Json = v_5;
        proof {
            assert(entries@ =~= orig.skip(6));
        }
        let (k_6, v_6) = entries.remove(0);
        proof {
            assert(orig.skip(6)[0] == orig[6]);
            assert((k_6, v_6) == orig[6]);
        }
        if !crate::text::str_eq(k_6.as_str(), "priority") {
            proof { assert(forall|x: Route| !rep_route(j0, x)); }
            return None;
        }
        let f_priority: i32 = match v_6 {
            Json::Int(v) => {
                if v < -2147483648i64 || v > 2147483647i64 {
                    proof { assert(forall|x: Route| !rep_route(j0, x)); }
            return None;
                }
                v as i32
            },
            _ => {
                proof { assert(forall|x: Route| !rep_route(j0, x)); }
            return None;
            },
        };
        proof {
            assert(entries@ =~= orig.skip(7));
        }
        let (k_7, v_7) = entries.remove(0);
        proof {
            assert(orig.skip(7)[0] == orig[7]);
            assert((k_7, v_7) == orig[7]);
        }
        if !crate::text::str_eq(k_7.as_str(), "pool_hi") {
            proof { assert(forall|x: Route| !rep_route(j0, x)); }
            return None;
        }
        let f_pool_hi: u64 = match v_7 {
            Json::UInt(v) => v,
            _ => {
                proof { assert(forall|x: Route| !rep_route(j0, x)); }
            return None;
            },
        };
        proof {
            assert(entries@ =~= orig.skip(8));
        }
        let (k_8, v_8) = entries.remove(0);
        proof {
            assert(orig.skip(8)[0] == orig[8]);
            assert((k_8, v_8) == orig[8]);
        }
        if !crate::text::str_eq(k_8.as_str(), "pool_lo") {
            proof { assert(forall|x: Route| !rep_route(j0, x)); }
            return None;
        }
        let f_pool_lo: u64 = match v_8 {
            Json::UInt(v) => v,
            _ => {
                proof { assert(forall|x: Route| !rep_route(j0, x)); }
            return None;
            },
        };
        proof {
            assert(entries@ =~= orig.skip(9));
        }
        let (k_9, v_9) = entries.remove(0);
        proof {
            assert(orig.skip(9)[0] == orig[9]);
            assert((k_9, v_9) == orig[9]);
        }
        if !crate::text::str_eq(k_9.as_str(), "enabled") {
            proof { assert(forall|x: Route| !rep_route(j0, x)); }
            return None;
        }
        let f_enabled: bool = match v_9 {
            Json::Bool(b) => b,
            _ => {
                proof { assert(forall|x: Route| !rep_route(j0, x)); }
            return None;
            },
        };
        proof {
            assert(entries@ =~= orig.skip(10));
        }
        let (k_10, v_10) = entries.remove(0);
        proof {
            assert(orig.skip(10)[0] == orig[10]);
            assert((k_10, v_10) == orig[10]);
        }
        if !crate::text::str_eq(k_10.as_str(), "created_at") {
            proof { assert(forall|x: Route| !rep_route(j0, x)); }
            return None;
        }
        let f_created_at: i64 = match v_10 {
            Json::Int(v) => v,
            _ => {
                proof { assert(forall|x: Route| !rep_route(j0, x)); }
            return None;
            },
        };
        proof {
            assert(entries@ =~= orig.skip(11));
        }
        let (k_11, v_11) = entries.remove(0);
        proof {
            assert(orig.skip(11)[0] == orig[11]);
            assert((k_11, v_11) == orig[11]);
        }
        if !crate::text::str_eq(k_11.as_str(), "updated_at") {
            proof { assert(forall|x: Route| !rep_route(j0, x)); }
            return None;
        }
        let f_updated_at: i64 = match v_11 {
            Json::Int(v) => v,
            _ => {
                proof { assert(forall|x: Route| !rep_route(j0, x)); }
            return None;
            },
        };

    let out = Route {
        id: Id::new(f_id_hi, f_id_lo),
        listener_id: Id::new(f_listener_hi, f_listener_lo),
        kind: f_kind,
        match_expr: f_match_expr,
        priority: f_priority,
        upstream_pool_id: Id::new(f_pool_hi, f_pool_lo),
        enabled: f_enabled,
        created_at: f_created_at,
        updated_at: f_updated_at,
    };
    proof {
        assert(rep_route(j0, out));
    }
    Some(out)
}

/// Reads one pool back from its canonical document;
/// anything outside the canonical shape describes no pool.
#[verifier::loop_isolation(false)]
pub fn pool_from_json(j: Json) -> (r: Option<UpstreamPool>)
    ensures
        match r {
            Some(x) => rep_pool(j, x),
            None => forall|x: UpstreamPool| !rep_pool(j, x),
        },
{
    let ghost j0 = j;
    let mut entries = match j {
        Json::Obj(entries) => entries,
        _ => {
            return None;
        },
    };
    if entries.len() != 8 {
        proof { assert(forall|x: UpstreamPool| !rep_pool(j0, x)); }
        return None;
    }
    let ghost orig = entries@;
        proof {
            assert(entries@ =~= orig.skip(0));
        }
        let (k_0, v_0) = entries.remove(0);
        proof {
            assert(orig.skip(0)[0] == orig[0]);
            assert((k_0, v_0) == orig[0]);
        }
        if !crate::text::str_eq(k_0.as_str(), "id_hi") {
            proof { assert(forall|x: UpstreamPool| !rep_pool(j0, x)); }
            return None;
        }
        let f_id_hi: u64 = match v_0 {
            Json::UInt(v) => v,
            _ => {
                proof { assert(forall|x: UpstreamPool| !rep_pool(j0, x)); }
            return None;
            },
        };
        proof {
            assert(entries@ =~= orig.skip(1));
        }
        let (k_1, v_1) = entries.remove(0);
        proof {
            assert(orig.skip(1)[0] == orig[1]);
            assert((k_1, v_1) == orig[1]);
        }
        if !crate::text::str_eq(k_1.as_str(), "id_lo") {
            proof { assert(forall|x: UpstreamPool| !rep_pool(j0, x)); }
            return None;
        }
        let f_id_lo: u64 = match v_1 {
            Json::UInt(v) => v,
            _ => {
                proof { assert(forall|x: UpstreamPool| !rep_pool(j0, x)); }
            return None;
            },
        };
        proof {
            assert(entries@ =~= orig.skip(2));
        }
        let (k_2, v_2) = entries.remove(0);
        proof {
            assert(orig.skip(2)[0] == orig[2]);
            assert((k_2, v_2) == orig[2]);
        }
        if !crate::text::str_eq(k_2.as_str(), "name") {
            proof { assert(forall|x: UpstreamPool| !rep_pool(j0, x)); }
            return None;
        }
        let f_name: String = match v_2 {
            Json::Str(s) => s,
            _ => {
                proof { assert(forall|x: UpstreamPool| !rep_pool(j0, x)); }
            return None;
            },
        };
        proof {
            assert(entries@ =~= orig.skip(3));
        }
        let (k_3, v_3) = entries.remove(0);
        proof {
            assert(orig.skip(3)[0] == orig[3]);
            assert((k_3, v_3) == orig[3]);
        }
        if !crate::text::str_eq(k_3.as_str(), "policy") {
            proof { assert(forall|x: UpstreamPool| !rep_pool(j0, x)); }
            return None;
        }
        let f_policy: String = match v_3 {
            Json::Str(s) => s,
            _ => {
                proof { assert(forall|x: UpstreamPool| !rep_pool(j0, x)); }
            return None;
            },
        };
        proof {
            assert(entries@ =~= orig.skip(4));
        }
        let (k_4, v_4) = entries.remove(0);
        proof {
            assert(orig.skip(4)[0] == orig[4]);
            assert((k_4, v_4) == orig[4]);
        }
        if !crate::text::str_eq(k_4.as_str(), "hc_set") {
            proof { assert(forall|x: UpstreamPool| !rep_pool(j0, x)); }
            return None;
        }
        let f_hc_set: bool = match v_4 {
            Json::Bool(b) => b,
            _ => {
                proof { assert(forall|x: UpstreamPool| !rep_pool(j0, x)); }
            return None;
            },
        };
        proof {
            assert(entries@ =~= orig.skip(5));
        }
        let (k_5, v_5) = entries.remove(0);
        proof {
            assert(orig.skip(5)[0] == orig[5]);
            assert((k_5, v_5) == orig[5]);
        }
        if !crate::text::str_eq(k_5.as_str(), "health_check") {
            proof { assert(forall|x: UpstreamPool| !rep_pool(j0, x)); }
            return None;
        }
        let f_health_check: Json = v_5;
        proof {
            assert(entries@ =~= orig.skip(6));
        }
        let (k_6, v_6) = entries.remove(0);
        proof {
            assert(orig.skip(6)[0] == orig[6]);
            assert((k_6, v_6) == orig[6]);
        }
        if !crate::text::str_eq(k_6.as_str(), "created_at") {
            proof { assert(forall|x: UpstreamPool| !rep_pool(j0, x)); }
            return None;
        }
        let f_created_at: i64 = match v_6 {
            Json::Int(v) => v,
            _ => {
                proof { assert(forall|x: UpstreamPool| !rep_pool(j0, x)); }
            return None;
            },
        };
        proof {
            assert(entries@ =~= orig.skip(7));
        }
        let (k_7, v_7) = entries.remove(0);
        proof {
            assert(orig.skip(7)[0] == orig[7]);
            assert((k_7, v_7) == orig[7]);
        }
        if !crate::text::str_eq(k_7.as_str(), "updated_at") {
            proof { assert(forall|x: UpstreamPool| !rep_pool(j0, x)); }
            return None;
        }
        let f_updated_at: i64 = match v_7 {
            Json::Int(v) => v,
            _ => {
                proof { assert(forall|x: UpstreamPool| !rep_pool(j0, x)); }
            return None;
            },
        };
    if !f_hc_set && !matches!(f_health_check, Json::Null) {
        proof { assert(forall|x: UpstreamPool| !rep_pool(j0, x)); }
        return None;
    }
    let out = UpstreamPool {
        id: Id::new(f_id_hi, f_id_lo),
        name: f_name,
        policy: f_policy,
        health_check: if f_hc_set {
            Some(f_health_check)
        } else {
            None
        },
        created_at: f_created_at,
        updated_at: f_updated_at,
    };
    proof {
        assert(rep_pool(j0, out));
    }
    Some(out)
}

/// Reads one target back from its canonical document;
/// anything outside the canonical shape describes no target.
#[verifier::loop_isolation(false)]
pub fn target_from_json(j: Json) -> (r: Option<UpstreamTarget>)
    ensures
        match r {
            Some(x) => rep_target(j, x),
            None => forall|x: UpstreamTarget| !rep_target(j, x),
        },
{
    let ghost j0 = j;
    let mut entries = match j {
        Json::Obj(entries) => entries,
        _ => {
            return None;
        },
    };
    if entries.len() != 9 {
        proof { assert(forall|x: UpstreamTarget| !rep_target(j0, x)); }
        return None;
    }
    let ghost orig = entries@;
        proof {
            assert(entries@ =~= orig.skip(0));
        }
        let (k_0, v_0) = entries.remove(0);
        proof {
            assert(orig.skip(0)[0] == orig[0]);
            assert((k_0, v_0) == orig[0]);
        }
        if !crate::text::str_eq(k_0.as_str(), "id_hi") {
            proof { assert(forall|x: UpstreamTarget| !rep_target(j0, x)); }
            return None;
        }
        let f_id_hi: u64 = match v_0 {
            Json::UInt(v) => v,
            _ => {
                proof { assert(forall|x: UpstreamTarget| !rep_target(j0, x)); }
            return None;
            },
        };
        proof {
            assert(entries@ =~= orig.skip(1));
        }
        let (k_1, v_1) = entries.remove(0);
        proof {
            assert(orig.skip(1)[0] == orig[1]);
            assert((k_1, v_1) == orig[1]);
        }
        if !crate::text::str_eq(k_1.as_str(), "id_lo") {
            proof { assert(forall|x: UpstreamTarget| !rep_target(j0, x)); }
            return None;
        }
        let f_id_lo: u64 = match v_1 {
            Json::UInt(v) => v,
            _ => {
                proof { assert(forall|x: UpstreamTarget| !rep_target(j0, x)); }
            return None;
            },
        };
        proof {
            assert(entries@ =~= orig.skip(2));
        }
        let (k_2, v_2) = entries.remove(0);
        proof {
            assert(orig.skip(2)[0] == orig[2]);
            assert((k_2, v_2) == orig[2]);
        }
        if !crate::text::str_eq(k_2.as_str(), "pool_hi") {
            proof { assert(forall|x: UpstreamTarget| !rep_target(j0, x)); }
            return None;
        }
        let f_pool_hi: u64 = match v_2 {
            Json::UInt(v) => v,
            _ => {
                proof { assert(forall|x: UpstreamTarget| !rep_target(j0, x)); }
            return None;
            },
        };
        proof {
            assert(entries@ =~= orig.skip(3));
        }
        let (k_3, v_3) = entries.remove(0);
        proof {
            assert(orig.skip(3)[0] == orig[3]);
            assert((k_3, v_3) == orig[3]);
        }
        if !crate::text::str_eq(k_3.as_str(), "pool_lo") {
            proof { assert(forall|x: UpstreamTarget| !rep_target(j0, x)); }
            return None;
        }
        let f_pool_lo: u64 = match v_3 {
            Json::UInt(v) => v,
            _ => {
                proof { assert(forall|x: UpstreamTarget| !rep_target(j0, x)); }
            return None;
            },
        };
        proof {
            assert(entries@ =~= orig.skip(4));
        }
        let (k_4, v_4) = entries.remove(0);
        proof {
            assert(orig.skip(4)[0] == orig[4]);
            assert((k_4, v_4) == orig[4]);
        }
        if !crate::text::str_eq(k_4.as_str(), "address") {
            proof { assert(forall|x: UpstreamTarget| !rep_target(j0, x)); }
            return None;
        }
        let f_address: String = match v_4 {
            Json::Str(s) => s,
            _ => {
                proof { assert(forall|x: UpstreamTarget| !rep_target(j0, x)); }
            return None;
            },
        };
        proof {
            assert(entries@ =~= orig.skip(5));
        }
        let (k_5, v_5) = entries.remove(0);
        proof {
            assert(orig.skip(5)[0] == orig[5]);
            assert((k_5, v_5) == orig[5]);
        }
        if !crate::text::str_eq(k_5.as_str(), "weight") {
            proof { assert(forall|x: UpstreamTarget| !rep_target(j0, x)); }
            return None;
        }
        let f_weight: i32 = match v_5 {
            Json::Int(v) => {
                if v < -2147483648i64 || v > 2147483647i64 {
                    proof { assert(forall|x: UpstreamTarget| !rep_target(j0, x)); }
            return None;
                }
                v as i32
            },
            _ => {
                proof { assert(forall|x: UpstreamTarget| !rep_target(j0, x)); }
            return None;
            },
        };
        proof {
            assert(entries@ =~= orig.skip(6));
        }
        let (k_6, v_6) = entries.remove(0);
        proof {
            assert(orig.skip(6)[0] == orig[6]);
            assert((k_6, v_6) == orig[6]);
        }
        if !crate::text::str_eq(k_6.as_str(), "enabled") {
            proof { assert(forall|x: UpstreamTarget| !rep_target(j0, x)); }
            return None;
        }
        let f_enabled: bool = match v_6 {
            Json::Bool(b) => b,
            _ => {
                proof { assert(forall|x: UpstreamTarget| !rep_target(j0, x)); }
            return None;
            },
        };
        proof {
            assert(entries@ =~= orig.skip(7));
        }
        let (k_7, v_7) = entries.remove(0);
        proof {
            assert(orig.skip(7)[0] == orig[7]);
            assert((k_7, v_7) == orig[7]);
        }
        if !crate::text::str_eq(k_7.as_str(), "created_at") {
            proof { assert(forall|x: UpstreamTarget| !rep_target(j0, x)); }
            return None;
        }
        let f_created_at: i64 = match v_7 {
            Json::Int(v) => v,
            _ => {
                proof { assert(forall|x: UpstreamTarget| !rep_target(j0, x)); }
            return None;
            },
        };
        proof {
            assert(entries@ =~= orig.skip(8));
        }
        let (k_8, v_8) = entries.remove(0);
        proof {
            assert(orig.skip(8)[0] == orig[8]);
            assert((k_8, v_8) == orig[8]);
        }
        if !crate::text::str_eq(k_8.as_str(), "updated_at") {
            proof { assert(forall|x: UpstreamTarget| !rep_target(j0, x)); }
            return None;
        }
        let f_updated_at: i64 = match v_8 {
            Json::Int(v) => v,
            _ => {
                proof { assert(forall|x: UpstreamTarget| !rep_target(j0, x)); }
            return None;
            },
        };

    let out = UpstreamTarget {
        id: Id::new(f_id_hi, f_id_lo),
        pool_id: Id::new(f_pool_hi, f_pool_lo),
        address: f_address,
        weight: f_weight,
        enabled: f_enabled,
        created_at: f_created_at,
        updated_at: f_updated_at,
    };
    proof {
        assert(rep_target(j0, out));
    }
    Some(out)
}

/// Reads one tls policy back from its canonical document;
/// anything outside the canonical shape describes no tls policy.
#[verifier::loop_isolation(false)]
pub fn tls_policy_from_json(j: Json) -> (r: Option<TlsPolicy>)
    ensures
        match r {
            Some(x) => rep_tls_policy(j, x),
            None => forall|x: TlsPolicy| !rep_tls_policy(j, x),
        },
{
    let ghost j0 = j;
    let mut entries = match j {
        Json::Obj(entries) => entries,
        _ => {
            return None;
        },
    };
    if entries.len() != 7 {
        proof { assert(forall|x: TlsPolicy| !rep_tls_policy(j0, x)); }
        return None;
    }
    let ghost orig = entries@;
        proof {
            assert(entries@ =~= orig.skip(0));
        }
        let (k_0, v_0) = entries.remove(0);
        proof {
            assert(orig.skip(0)[0] == orig[0]);
            assert((k_0, v_0) == orig[0]);
        }
        if !crate::text::str_eq(k_0.as_str(), "id_hi") {
            proof { assert(forall|x: TlsPolicy| !rep_tls_policy(j0, x)); }
            return None;
        }
        let f_id_hi: u64 = match v_0 {
            Json::UInt(v) => v,
            _ => {
                proof { assert(forall|x: TlsPolicy| !rep_tls_policy(j0, x)); }
            return None;
            },
        };
        proof {
            assert(entries@ =~= orig.skip(1));
        }
        let (k_1, v_1) = entries.remove(0);
        proof {
            assert(orig.skip(1)[0] == orig[1]);
            assert((k_1, v_1) == orig[1]);
        }
        if !crate::text::str_eq(k_1.as_str(), "id_lo") {
            proof { assert(forall|x: TlsPolicy| !rep_tls_policy(j0, x)); }
            return None;
        }
        let f_id_lo: u64 = match v_1 {
            Json::UInt(v) => v,
            _ => {
                proof { assert(forall|x: TlsPolicy| !rep_tls_policy(j0, x)); }
            return None;
            },
        };
        proof {
            assert(entries@ =~= orig.skip(2));
        }
        let (k_2, v_2) = entries.remove(0);
        proof {
            assert(orig.skip(2)[0] == orig[2]);
            assert((k_2, v_2) == orig[2]);
        }
        if !crate::text::str_eq(k_2.as_str(), "mode") {
            proof { assert(forall|x: TlsPolicy| !rep_tls_policy(j0, x)); }
            return None;
        }
        let f_mode: String = match v_2 {
            Json::Str(s) => s,
            _ => {
                proof { assert(forall|x: TlsPolicy| !rep_tls_policy(j0, x)); }
            return None;
            },
        };
        proof {
            assert(entries@ =~= orig.skip(3));
        }
        let (k_3, v_3) = entries.remove(0);
        proof {
            assert(orig.skip(3)[0] == orig[3]);
            assert((k_3, v_3) == orig[3]);
        }
        if !crate::text::str_eq(k_3.as_str(), "domains") {
            proof { assert(forall|x: TlsPolicy| !rep_tls_policy(j0, x)); }
            return None;
        }
        let f_domains: Vec<String> = match v_3 {
            Json::Arr(items) => {
                let ghost items0 = items@;
                match strings_of_items(items) {
                    Some(v) => v,
                    None => {
                        proof { assert(forall|x: TlsPolicy| !rep_tls_policy(j0, x)); }
            return None;
                    },
                }
            },
            _ => {
                proof { assert(forall|x: TlsPolicy| !rep_tls_policy(j0, x)); }
            return None;
            },
        };
        proof {
            assert(entries@ =~= orig.skip(4));
        }
        let (k_4, v_4) = entries.remove(0);
        proof {
            assert(orig.skip(4)[0] == orig[4]);
            assert((k_4, v_4) == orig[4]);
        }
        if !crate::text::str_eq(k_4.as_str(), "status") {
            proof { assert(forall|x: TlsPolicy| !rep_tls_policy(j0, x)); }
            return None;
        }
        let f_status: String = match v_4 {
            Json::Str(s) => s,
            _ => {
                proof { assert(forall|x: TlsPolicy| !rep_tls_policy(j0, x)); }
            return None;
            },
        };
        proof {
            assert(entries@ =~= orig.skip(5));
        }
        let (k_5, v_5) = entries.remove(0);
        proof {
            assert(orig.skip(5)[0] == orig[5]);
            assert((k_5, v_5) == orig[5]);
        }
        if !crate::text::str_eq(k_5.as_str(), "created_at") {
            proof { assert(forall|x: TlsPolicy| !rep_tls_policy(j0, x)); }
            return None;
        }
        let f_created_at: i64 = match v_5 {
            Json::Int(v) => v,
            _ => {
                proof { assert(forall|x: TlsPolicy| !rep_tls_policy(j0, x)); }
            return None;
            },
        };
        proof {
            assert(entries@ =~= orig.skip(6));
        }
        let (k_6, v_6) = entries.remove(0);
        proof {
            assert(orig.skip(6)[0] == orig[6]);
            assert((k_6, v_6) == orig[6]);
        }
        if !crate::text::str_eq(k_6.as_str(), "updated_at") {
            proof { assert(forall|x: TlsPolicy| !rep_tls_policy(j0, x)); }
            return None;
        }
        let f_updated_at: i64 = match v_6 {
            Json::Int(v) => v,
            _ => {
                proof { assert(forall|x: TlsPolicy| !rep_tls_policy(j0, x)); }
            return None;
            },
        };

    let out = TlsPolicy {
        id: Id::new(f_id_hi, f_id_lo),
        mode: f_mode,
        domains: f_domains,
        status: f_status,
        created_at: f_created_at,
        updated_at: f_updated_at,
    };
    proof {
        assert(rep_tls_policy(j0, out));
    }
    Some(out)
}

/// Reads one certificate back from its canonical document;
/// anything outside the canonical shape describes no certificate.
#[verifier::loop_isolation(false)]
pub fn certificate_from_json(j: Json) -> (r: Option<Certificate>)
    ensures
        match r {
            Some(x) => rep_certificate(j, x),
            None => forall|x: Certificate| !rep_certificate(j, x),
        },
{
    let ghost j0 = j;
    let mut entries = match j {
        Json::Obj(entries) => entries,
        _ => {
            return None;
        },
    };
    if entries.len() != 9 {
        proof { assert(forall|x: Certificate| !rep_certificate(j0, x)); }
        return None;
    }
    let ghost orig = entries@;
        proof {
            assert(entries@ =~= orig.skip(0));
        }
        let (k_0, v_0) = entries.remove(0);
        proof {
            assert(orig.skip(0)[0] == orig[0]);
            assert((k_0, v_0) == orig[0]);
        }
        if !crate::text::str_eq(k_0.as_str(), "id_hi") {
            proof { assert(forall|x: Certificate| !rep_certificate(j0, x)); }
            return None;
        }
        let f_id_hi: u64 = match v_0 {
            Json::UInt(v) => v,
            _ => {
                proof { assert(forall|x: Certificate| !rep_certificate(j0, x)); }
            return None;
            },
        };
        proof {
            assert(entries@ =~= orig.skip(1));
        }
        let (k_1, v_1) = entries.remove(0);
        proof {
            assert(orig.skip(1)[0] == orig[1]);
            assert((k_1, v_1) == orig[1]);
        }
        if !crate::text::str_eq(k_1.as_str(), "id_lo") {
            proof { assert(forall|x: Certificate| !rep_certificate(j0, x)); }
            return None;
        }
        let f_id_lo: u64 = match v_1 {
            Json::UInt(v) => v,
            _ => {
                proof { assert(forall|x: Certificate| !rep_certificate(j0, x)); }
            return None;
            },
        };
        proof {
            assert(entries@ =~= orig.skip(2));
        }
        let (k_2, v_2) = entries.remove(0);
        proof {
            assert(orig.skip(2)[0] == orig[2]);
            assert((k_2, v_2) == orig[2]);
        }
        if !crate::text::str_eq(k_2.as_str(), "domain") {
            proof { assert(forall|x: Certificate| !rep_certificate(j0, x)); }
            return None;
        }
        let f_domain: String = match v_2 {
            Json::Str(s) => s,
            _ => {
                proof { assert(forall|x: Certificate| !rep_certificate(j0, x)); }
            return None;
            },
        };
        proof {
            assert(entries@ =~= orig.skip(3));
        }
        let (k_3, v_3) = entries.remove(0);
        proof {
            assert(orig.skip(3)[0] == orig[3]);
            assert((k_3, v_3) == orig[3]);
        }
        if !crate::text::str_eq(k_3.as_str(), "cert_pem") {
            proof { assert(forall|x: Certificate| !rep_certificate(j0, x)); }
            return None;
        }
        let f_cert_pem: String = match v_3 {
            Json::Str(s) => s,
            _ => {
                proof { assert(forall|x: Certificate| !rep_certificate(j0, x)); }
            return None;
            },
        };
        proof {
            assert(entries@ =~= orig.skip(4));
        }
        let (k_4, v_4) = entries.remove(0);
        proof {
            assert(orig.skip(4)[0] == orig[4]);
            assert((k_4, v_4) == orig[4]);
        }
        if !crate::text::str_eq(k_4.as_str(), "key_pem") {
            proof { assert(forall|x: Certificate| !rep_certificate(j0, x)); }
            return None;
        }
        let f_key_pem: String = match v_4 {
            Json::Str(s) => s,
            _ => {
                proof { assert(forall|x: Certificate| !rep_certificate(j0, x)); }
            return None;
            },
        };
        proof {
            assert(entries@ =~= orig.skip(5));
        }
        let (k_5, v_5) = entries.remove(0);
        proof {
            assert(orig.skip(5)[0] == orig[5]);
            assert((k_5, v_5) == orig[5]);
        }
        if !crate::text::str_eq(k_5.as_str(), "expires_at") {
            proof { assert(forall|x: Certificate| !rep_certificate(j0, x)); }
            return None;
        }
        let f_expires_at: i64 = match v_5 {
            Json::Int(v) => v,
            _ => {
                proof { assert(forall|x: Certificate| !rep_certificate(j0, x)); }
            return None;
            },
        };
        proof {
            assert(entries@ =~= orig.skip(6));
        }
        let (k_6, v_6) = entries.remove(0);
        proof {
            assert(orig.skip(6)[0] == orig[6]);
            assert((k_6, v_6) == orig[6]);
        }
        if !crate::text::str_eq(k_6.as_str(), "status") {
            proof { assert(forall|x: Certificate| !rep_certificate(j0, x)); }
            return None;
        }
        let f_status: String = match v_6 {
            Json::Str(s) => s,
            _ => {
                proof { assert(forall|x: Certificate| !rep_certificate(j0, x)); }
            return None;
            },
        };
        proof {
            assert(entries@ =~= orig.skip(7));
        }
        let (k_7, v_7) = entries.remove(0);
        proof {
            assert(orig.skip(7)[0] == orig[7]);
            assert((k_7, v_7) == orig[7]);
        }
        if !crate::text::str_eq(k_7.as_str(), "created_at") {
            proof { assert(forall|x: Certificate| !rep_certificate(j0, x)); }
            return None;
        }
        let f_created_at: i64 = match v_7 {
            Json::Int(v) => v,
            _ => {
                proof { assert(forall|x: Certificate| !rep_certificate(j0, x)); }
            return None;
            },
        };
        proof {
            assert(entries@ =~= orig.skip(8));
        }
        let (k_8, v_8) = entries.remove(0);
        proof {
            assert(orig.skip(8)[0] == orig[8]);
            assert((k_8, v_8) == orig[8]);
        }
        if !crate::text::str_eq(k_8.as_str(), "updated_at") {
            proof { assert(forall|x: Certificate| !rep_certificate(j0, x)); }
            return None;
        }
        let f_updated_at: i64 = match v_8 {
            Json::Int(v) => v,
            _ => {
                proof { assert(forall|x: Certificate| !rep_certificate(j0, x)); }
            return None;
            },
        };

    let out = Certificate {
        id: Id::new(f_id_hi, f_id_lo),
        domain: f_domain,
        cert_pem: f_cert_pem,
        key_pem: f_key_pem,
        expires_at: f_expires_at,
        status: f_status,
        created_at: f_created_at,
        updated_at: f_updated_at,
    };
    proof {
        assert(rep_certificate(j0, out));
    }
    Some(out)
}

/// The canonical document of a whole snapshot: its six entity lists, in
/// order, each an array of canonical entity documents.
pub open spec fn rep_snapshot(j: Json, s: Snapshot) -> bool {
    match j {
        Json::Obj(entries) => {
            let e = entries@;
            e.len() == 6 &&
            (e[0].0@ == "listeners"@) && (match e[0].1 {
                Json::Arr(items) => items@.len() == s.listeners@.len() && (forall|m: int|
                    0 <= m < items@.len() ==> rep_listener(#[trigger] items@[m], s.listeners@[m])),
                _ => false,
            }) &&
            (e[1].0@ == "routes"@) && (match e[1].1 {
                Json::Arr(items) => items@.len() == s.routes@.len() && (forall|m: int|
                    0 <= m < items@.len() ==> rep_route(#[trigger] items@[m], s.routes@[m])),
                _ => false,
            }) &&
            (e[2].0@ == "upstream_pools"@) && (match e[2].1 {
                Json::Arr(items) => items@.len() == s.upstream_pools@.len() && (forall|m: int|
                    0 <= m < items@.len() ==> rep_pool(#[trigger] items@[m], s.upstream_pools@[m])),
                _ => false,
            }) &&
            (e[3].0@ == "upstream_targets"@) && (match e[3].1 {
                Json::Arr(items) => items@.len() == s.upstream_targets@.len() && (forall|m: int|
                    0 <= m < items@.len() ==> rep_target(#[trigger] items@[m], s.upstream_targets@[m])),
                _ => false,
            }) &&
            (e[4].0@ == "tls_policies"@) && (match e[4].1 {
                Json::Arr(items) => items@.len() == s.tls_policies@.len() && (forall|m: int|
                    0 <= m < items@.len() ==> rep_tls_policy(#[trigger] items@[m], s.tls_policies@[m])),
                _ => false,
            }) &&
            (e[5].0@ == "certificates"@) && (match e[5].1 {
                Json::Arr(items) => items@.len() == s.certificates@.len() && (forall|m: int|
                    0 <= m < items@.len() ==> rep_certificate(#[trigger] items@[m], s.certificates@[m])),
                _ => false,
            })
        },
        _ => false,
    }
}

/// Freezes a snapshot as its canonical document: this is the payload a
/// published version stores.
pub fn snapshot_to_json(s: Snapshot) -> (j: Json)
    ensures
        rep_snapshot(j, s),
{
    let mut e: Vec<(String, Json)> = Vec::new();
    {
        let mut items: Vec<Json> = Vec::new();
        let mut src = s.listeners;
        let ghost orig_0 = src@;
        while src.len() > 0
            invariant
                items@.len() + src@.len() == orig_0.len(),
                src@ == orig_0.skip(items@.len() as int),
                forall|m: int|
                    0 <= m < items@.len() ==> rep_listener(#[trigger] items@[m], orig_0[m]),
            decreases src@.len(),
        {
            let ghost nn = items@.len() as int;
            let x = src.remove(0);
            proof {
                assert(orig_0.skip(nn)[0] == orig_0[nn]);
                assert(src@ =~= orig_0.skip(nn + 1));
            }
            items.push(listener_to_json(x));
        }
        e.push(("listeners".to_owned(), Json::Arr(items)));
    }
    {
        let mut items: Vec<Json> = Vec::new();
        let mut src = s.routes;
        let ghost orig_1 = src@;
        while src.len() > 0
            invariant
                items@.len() + src@.len() == orig_1.len(),
                src@ == orig_1.skip(items@.len() as int),
                forall|m: int|
                    0 <= m < items@.len() ==> rep_route(#[trigger] items@[m], orig_1[m]),
            decreases src@.len(),
        {
            let ghost nn = items@.len() as int;
            let x = src.remove(0);
            proof {
                assert(orig_1.skip(nn)[0] == orig_1[nn]);
                assert(src@ =~= orig_1.skip(nn + 1));
            }
            items.push(route_to_json(x));
        }
        e.push(("routes".to_owned(), Json::Arr(items)));
    }
    {
        let mut items: Vec<Json> = Vec::new();
        let mut src = s.upstream_pools;
        let ghost orig_2 = src@;
        while src.len() > 0
            invariant
                items@.len() + src@.len() == orig_2.len(),
                src@ == orig_2.skip(items@.len() as int),
                forall|m: int|
                    0 <= m < items@.len() ==> rep_pool(#[trigger] items@[m], orig_2[m]),
            decreases src@.len(),
        {
            let ghost nn = items@.len() as int;
            let x = src.remove(0);
            proof {
                assert(orig_2.skip(nn)[0] == orig_2[nn]);
                assert(src@ =~= orig_2.skip(nn + 1));
            }
            items.push(pool_to_json(x));
        }
        e.push(("upstream_pools".to_owned(), Json::Arr(items)));
    }
    {
        let mut items: Vec<Json> = Vec::new();
        let mut src = s.upstream_targets;
        let ghost orig_3 = src@;
        while src.len() > 0
            invariant
                items@.len() + src@.len() == orig_3.len(),
                src@ == orig_3.skip(items@.len() as int),
                forall|m: int|
                    0 <= m < items@.len() ==> rep_target(#[trigger] items@[m], orig_3[m]),
            decreases src@.len(),
        {
            let ghost nn = items@.len() as int;
            let x = src.remove(0);
            proof {
                assert(orig_3.skip(nn)[0] == orig_3[nn]);
                assert(src@ =~= orig_3.skip(nn + 1));
            }
            items.push(target_to_json(x));
        }
        e.push(("upstream_targets".to_owned(), Json::Arr(items)));
    }
    {
        let mut items: Vec<Json> = Vec::new();
        let mut src = s.tls_policies;
        let ghost orig_4 = src@;
        while src.len() > 0
            invariant
                items@.len() + src@.len() == orig_4.len(),
                src@ == orig_4.skip(items@.len() as int),
                forall|m: int|
                    0 <= m < items@.len() ==> rep_tls_policy(#[trigger] items@[m], orig_4[m]),
            decreases src@.len(),
        {
            let ghost nn = items@.len() as int;
            let x = src.remove(0);
            proof {
                assert(orig_4.skip(nn)[0] == orig_4[nn]);
                assert(src@ =~= orig_4.skip(nn + 1));
            }
            items.push(tls_policy_to_json(x));
        }
        e.push(("tls_policies".to_owned(), Json::Arr(items)));
    }
    {
        let mut items: Vec<Json> = Vec::new();
        let mut src = s.certificates;
        let ghost orig_5 = src@;
        while src.len() > 0
            invariant
                items@.len() + src@.len() == orig_5.len(),
                src@ == orig_5.skip(items@.len() as int),
                forall|m: int|
                    0 <= m < items@.len() ==> rep_certificate(#[trigger] items@[m], orig_5[m]),
            decreases src@.len(),
        {
            let ghost nn = items@.len() as int;
            let x = src.remove(0);
            proof {
                assert(orig_5.skip(nn)[0] == orig_5[nn]);
                assert(src@ =~= orig_5.skip(nn + 1));
            }
            items.push(certificate_to_json(x));
        }
        e.push(("certificates".to_owned(), Json::Arr(items)));
    }
    Json::Obj(e)
}

/// Reads a snapshot back from its canonical document; anything outside the
/// canonical shape describes no snapshot.
#[verifier::loop_isolation(false)]
pub fn snapshot_from_json(j: Json) -> (r: Option<Snapshot>)
    ensures
        match r {
            Some(s) => rep_snapshot(j, s),
            None => forall|s2: Snapshot| !rep_snapshot(j, s2),
        },
{
    let ghost j0 = j;
    let mut entries = match j {
        Json::Obj(entries) => entries,
        _ => {
            return None;
        },
    };
    if entries.len() != 6 {
        proof { assert(forall|s2: Snapshot| !rep_snapshot(j0, s2)); }
        return None;
    }
    let ghost orig = entries@;
        proof {
            assert(entries@ =~= orig.skip(0));
        }
        let (k_0, v_0) = entries.remove(0);
        proof {
            assert(orig.skip(0)[0] == orig[0]);
            assert((k_0, v_0) == orig[0]);
        }
        if !crate::text::str_eq(k_0.as_str(), "listeners") {
            proof { assert(forall|s2: Snapshot| !rep_snapshot(j0, s2)); }
            return None;
        }
        let f_listeners: Vec<Listener> = match v_0 {
            Json::Arr(items) => {
                let ghost items0 = items@;
                let mut out_items: Vec<Listener> = Vec::new();
                let mut src = items;
                while src.len() > 0
                    invariant
                        out_items@.len() + src@.len() == items0.len(),
                        src@ == items0.skip(out_items@.len() as int),
                        forall|m: int|
                            0 <= m < out_items@.len() ==> rep_listener(
                                #[trigger] items0[m],
                                out_items@[m],
                            ),
                    decreases src@.len(),
                {
                    let ghost nn = out_items@.len() as int;
                    let x = src.remove(0);
                    proof {
                        assert(items0.skip(nn)[0] == items0[nn]);
                        assert(src@ =~= items0.skip(nn + 1));
                    }
                    match listener_from_json(x) {
                        Some(v) => {
                            out_items.push(v);
                        },
                        None => {
                            proof {
                                assert(forall|s2: Snapshot| !rep_snapshot(j0, s2)) by {
                                    assert forall|s2: Snapshot| !rep_snapshot(j0, s2) by {
                                        if rep_snapshot(j0, s2) {
                                            assert(rep_listener(items0[nn], s2.listeners@[nn]));
                                        }
                                    }
                                }
                            }
                            return None;
                        },
                    }
                }
                out_items
            },
            _ => {
                proof { assert(forall|s2: Snapshot| !rep_snapshot(j0, s2)); }
                return None;
            },
        };
        proof {
            assert(entries@ =~= orig.skip(1));
        }
        let (k_1, v_1) = entries.remove(0);
        proof {
            assert(orig.skip(1)[0] == orig[1]);
            assert((k_1, v_1) == orig[1]);
        }
        if !crate::text::str_eq(k_1.as_str(), "routes") {
            proof { assert(forall|s2: Snapshot| !rep_snapshot(j0, s2)); }
            return None;
        }
        let f_routes: Vec<Route> = match v_1 {
            Json::Arr(items) => {
                let ghost items0 = items@;
                let mut out_items: Vec<Route> = Vec::new();
                let mut src = items;
                while src.len() > 0
                    invariant
                        out_items@.len() + src@.len() == items0.len(),
                        src@ == items0.skip(out_items@.len() as int),
                        forall|m: int|
                            0 <= m < out_items@.len() ==> rep_route(
                                #[trigger] items0[m],
                                out_items@[m],
                            ),
                    decreases src@.len(),
                {
                    let ghost nn = out_items@.len() as int;
                    let x = src.remove(0);
                    proof {
                        assert(items0.skip(nn)[0] == items0[nn]);
                        assert(src@ =~= items0.skip(nn + 1));
                    }
                    match route_from_json(x) {
                        Some(v) => {
                            out_items.push(v);
                        },
                        None => {
                            proof {
                                assert(forall|s2: Snapshot| !rep_snapshot(j0, s2)) by {
                                    assert forall|s2: Snapshot| !rep_snapshot(j0, s2) by {
                                        if rep_snapshot(j0, s2) {
                                            assert(rep_route(items0[nn], s2.routes@[nn]));
                                        }
                                    }
                                }
                            }
                            return None;
                        },
                    }
                }
                out_items
            },
            _ => {
                proof { assert(forall|s2: Snapshot| !rep_snapshot(j0, s2)); }
                return None;
            },
        };
        proof {
            assert(entries@ =~= orig.skip(2));
        }
        let (k_2, v_2) = entries.remove(0);
        proof {
            assert(orig.skip(2)[0] == orig[2]);
            assert((k_2, v_2) == orig[2]);
        }
        if !crate::text::str_eq(k_2.as_str(), "upstream_pools") {
            proof { assert(forall|s2: Snapshot| !rep_snapshot(j0, s2)); }
            return None;
        }
        let f_upstream_pools: Vec<UpstreamPool> = match v_2 {
            Json::Arr(items) => {
                let ghost items0 = items@;
                let mut out_items: Vec<UpstreamPool> = Vec::new();
                let mut src = items;
                while src.len() > 0
                    invariant
                        out_items@.len() + src@.len() == items0.len(),
                        src@ == items0.skip(out_items@.len() as int),
                        forall|m: int|
                            0 <= m < out_items@.len() ==> rep_pool(
                                #[trigger] items0[m],
                                out_items@[m],
                            ),
                    decreases src@.len(),
                {
                    let ghost nn = out_items@.len() as int;
                    let x = src.remove(0);
                    proof {
                        assert(items0.skip(nn)[0] == items0[nn]);
                        assert(src@ =~= items0.skip(nn + 1));
                    }
                    match pool_from_json(x) {
                        Some(v) => {
                            out_items.push(v);
                        },
                        None => {
                            proof {
                                assert(forall|s2: Snapshot| !rep_snapshot(j0, s2)) by {
                                    assert forall|s2: Snapshot| !rep_snapshot(j0, s2) by {
                                        if rep_snapshot(j0, s2) {
                                            assert(rep_pool(items0[nn], s2.upstream_pools@[nn]));
                                        }
                                    }
                                }
                            }
                            return None;
                        },
                    }
                }
                out_items
            },
            _ => {
                proof { assert(forall|s2: Snapshot| !rep_snapshot(j0, s2)); }
                return None;
            },
        };
        proof {
            assert(entries@ =~= orig.skip(3));
        }
        let (k_3, v_3) = entries.remove(0);
        proof {
            assert(orig.skip(3)[0] == orig[3]);
            assert((k_3, v_3) == orig[3]);
        }
        if !crate::text::str_eq(k_3.as_str(), "upstream_targets") {
            proof { assert(forall|s2: Snapshot| !rep_snapshot(j0, s2)); }
            return None;
        }
        let f_upstream_targets: Vec<UpstreamTarget> = match v_3 {
            Json::Arr(items) => {
                let ghost items0 = items@;
                let mut out_items: Vec<UpstreamTarget> = Vec::new();
                let mut src = items;
                while src.len() > 0
                    invariant
                        out_items@.len() + src@.len() == items0.len(),
                        src@ == items0.skip(out_items@.len() as int),
                        forall|m: int|
                            0 <= m < out_items@.len() ==> rep_target(
                                #[trigger] items0[m],
                                out_items@[m],
                            ),
                    decreases src@.len(),
                {
                    let ghost nn = out_items@.len() as int;
                    let x = src.remove(0);
                    proof {
                        assert(items0.skip(nn)[0] == items0[nn]);
                        assert(src@ =~= items0.skip(nn + 1));
                    }
                    match target_from_json(x) {
                        Some(v) => {
                            out_items.push(v);
                        },
                        None => {
                            proof {
                                assert(forall|s2: Snapshot| !rep_snapshot(j0, s2)) by {
                                    assert forall|s2: Snapshot| !rep_snapshot(j0, s2) by {
                                        if rep_snapshot(j0, s2) {
                                            assert(rep_target(items0[nn], s2.upstream_targets@[nn]));
                                        }
                                    }
                                }
                            }
                            return None;
                        },
                    }
                }
                out_items
            },
            _ => {
                proof { assert(forall|s2: Snapshot| !rep_snapshot(j0, s2)); }
                return None;
            },
        };
        proof {
            assert(entries@ =~= orig.skip(4));
        }
        let (k_4, v_4) = entries.remove(0);
        proof {
            assert(orig.skip(4)[0] == orig[4]);
            assert((k_4, v_4) == orig[4]);
        }
        if !crate::text::str_eq(k_4.as_str(), "tls_policies") {
            proof { assert(forall|s2: Snapshot| !rep_snapshot(j0, s2)); }
            return None;
        }
        let f_tls_policies: Vec<TlsPolicy> = match v_4 {
            Json::Arr(items) => {
                let ghost items0 = items@;
                let mut out_items: Vec<TlsPolicy> = Vec::new();
                let mut src = items;
                while src.len() > 0
                    invariant
                        out_items@.len() + src@.len() == items0.len(),
                        src@ == items0.skip(out_items@.len() as int),
                        forall|m: int|
                            0 <= m < out_items@.len() ==> rep_tls_policy(
                                #[trigger] items0[m],
                                out_items@[m],
                            ),
                    decreases src@.len(),
                {
                    let ghost nn = out_items@.len() as int;
                    let x = src.remove(0);
                    proof {
                        assert(items0.skip(nn)[0] == items0[nn]);
                        assert(src@ =~= items0.skip(nn + 1));
                    }
                    match tls_policy_from_json(x) {
                        Some(v) => {
                            out_items.push(v);
                        },
                        None => {
                            proof {
                                assert(forall|s2: Snapshot| !rep_snapshot(j0, s2)) by {
                                    assert forall|s2: Snapshot| !rep_snapshot(j0, s2) by {
                                        if rep_snapshot(j0, s2) {
                                            assert(rep_tls_policy(items0[nn], s2.tls_policies@[nn]));
                                        }
                                    }
                                }
                            }
                            return None;
                        },
                    }
                }
                out_items
            },
            _ => {
                proof { assert(forall|s2: Snapshot| !rep_snapshot(j0, s2)); }
                return None;
            },
        };
        proof {
            assert(entries@ =~= orig.skip(5));
        }
        let (k_5, v_5) = entries.remove(0);
        proof {
            assert(orig.skip(5)[0] == orig[5]);
            assert((k_5, v_5) == orig[5]);
        }
        if !crate::text::str_eq(k_5.as_str(), "certificates") {
            proof { assert(forall|s2: Snapshot| !rep_snapshot(j0, s2)); }
            return None;
        }
        let f_certificates: Vec<Certificate> = match v_5 {
            Json::Arr(items) => {
                let ghost items0 = items@;
                let mut out_items: Vec<Certificate> = Vec::new();
                let mut src = items;
                while src.len() > 0
                    invariant
                        out_items@.len() + src@.len() == items0.len(),
                        src@ == items0.skip(out_items@.len() as int),
                        forall|m: int|
                            0 <= m < out_items@.len() ==> rep_certificate(
                                #[trigger] items0[m],
                                out_items@[m],
                            ),
                    decreases src@.len(),
                {
                    let ghost nn = out_items@.len() as int;
                    let x = src.remove(0);
                    proof {
                        assert(items0.skip(nn)[0] == items0[nn]);
                        assert(src@ =~= items0.skip(nn + 1));
                    }
                    match certificate_from_json(x) {
                        Some(v) => {
                            out_items.push(v);
                        },
                        None => {
                            proof {
                                assert(forall|s2: Snapshot| !rep_snapshot(j0, s2)) by {
                                    assert forall|s2: Snapshot| !rep_snapshot(j0, s2) by {
                                        if rep_snapshot(j0, s2) {
                                            assert(rep_certificate(items0[nn], s2.certificates@[nn]));
                                        }
                                    }
                                }
                            }
                            return None;
                        },
                    }
                }
                out_items
            },
            _ => {
                proof { assert(forall|s2: Snapshot| !rep_snapshot(j0, s2)); }
                return None;
            },
        };
    let out = Snapshot {
        listeners: f_listeners,
        routes: f_routes,
        upstream_pools: f_upstream_pools,
        upstream_targets: f_upstream_targets,
        tls_policies: f_tls_policies,
        certificates: f_certificates,
    };
    proof {
        assert(rep_snapshot(j0, out));
    }
    Some(out)
}

/// One canonical document describes at most one listener.
proof fn lemma_rep_listener_unique(j: Json, a: Listener, b: Listener)
    requires
        rep_listener(j, a),
        rep_listener(j, b),
    ensures
        a == b,
{
    
    assert(a.tls_policy_id == b.tls_policy_id);
    
}
/// One canonical document describes at most one route.
proof fn lemma_rep_route_unique(j: Json, a: Route, b: Route)
    requires
        rep_route(j, a),
        rep_route(j, b),
    ensures
        a == b,
{
    
    
    
}
/// One canonical document describes at most one pool.
proof fn lemma_rep_pool_unique(j: Json, a: UpstreamPool, b: UpstreamPool)
    requires
        rep_pool(j, a),
        rep_pool(j, b),
    ensures
        a == b,
{
    
    
    assert(a.health_check == b.health_check);
}
/// One canonical document describes at most one target.
proof fn lemma_rep_target_unique(j: Json, a: UpstreamTarget, b: UpstreamTarget)
    requires
        rep_target(j, a),
        rep_target(j, b),
    ensures
        a == b,
{
    
    
    
}
/// Two tls policies one canonical document describes agree on every
/// field; the domain lists agree element for element.
pub open spec fn tls_policy_like(a: TlsPolicy, b: TlsPolicy) -> bool {
    a.id == b.id && a.mode == b.mode && a.domains@ == b.domains@ && a.status == b.status
        && a.created_at == b.created_at && a.updated_at == b.updated_at
}

proof fn lemma_rep_tls_policy_unique(j: Json, a: TlsPolicy, b: TlsPolicy)
    requires
        rep_tls_policy(j, a),
        rep_tls_policy(j, b),
    ensures
        tls_policy_like(a, b),
{
    match j {
        Json::Obj(entries) => {
            match entries@[3].1 {
                Json::Arr(items) => {
                    assert forall|m: int|
                        0 <= m < a.domains@.len() implies a.domains@[m] == b.domains@[m] by {
                        assert(items@[m] == Json::Str(a.domains@[m]));
                        assert(items@[m] == Json::Str(b.domains@[m]));
                    }
                    assert(a.domains@ =~= b.domains@);
                },
                _ => {},
            }
        },
        _ => {},
    }
}
/// One canonical document describes at most one certificate.
proof fn lemma_rep_certificate_unique(j: Json, a: Certificate, b: Certificate)
    requires
        rep_certificate(j, a),
        rep_certificate(j, b),
    ensures
        a == b,
{
    
    
    
}

/// Writing a snapshot out and reading it back loses nothing: any two
/// snapshots one canonical document describes agree on every entity list,
/// so the decoder recovers exactly what the encoder was given.
pub proof fn lemma_snapshot_codec_lossless(j: Json, a: Snapshot, b: Snapshot)
    requires
        rep_snapshot(j, a),
        rep_snapshot(j, b),
    ensures
        a.listeners@ == b.listeners@,
        a.routes@ == b.routes@,
        a.upstream_pools@ == b.upstream_pools@,
        a.upstream_targets@ == b.upstream_targets@,
        a.tls_policies@.len() == b.tls_policies@.len(),
        forall|m: int|
            0 <= m < a.tls_policies@.len() ==> tls_policy_like(
                #[trigger] a.tls_policies@[m],
                b.tls_policies@[m],
            ),
        a.certificates@ == b.certificates@,
{
    match j {
        Json::Obj(entries) => {
            match entries@[0].1 {
                Json::Arr(items) => {
                    assert forall|m: int| 0 <= m < a.listeners@.len() implies a.listeners@[m]
                        == b.listeners@[m] by {
                        assert(rep_listener(items@[m], a.listeners@[m]));
                        assert(rep_listener(items@[m], b.listeners@[m]));
                        lemma_rep_listener_unique(items@[m], a.listeners@[m], b.listeners@[m]);
                    }
                    assert(a.listeners@ =~= b.listeners@);
                },
                _ => { },
            }
        },
        _ => { },
    }
    match j {
        Json::Obj(entries) => {
            match entries@[1].1 {
                Json::Arr(items) => {
                    assert forall|m: int| 0 <= m < a.routes@.len() implies a.routes@[m]
                        == b.routes@[m] by {
                        assert(rep_route(items@[m], a.routes@[m]));
                        assert(rep_route(items@[m], b.routes@[m]));
                        lemma_rep_route_unique(items@[m], a.routes@[m], b.routes@[m]);
                    }
                    assert(a.routes@ =~= b.routes@);
                },
                _ => { },
            }
        },
        _ => { },
    }
    match j {
        Json::Obj(entries) => {
            match entries@[2].1 {
                Json::Arr(items) => {
                    assert forall|m: int| 0 <= m < a.upstream_pools@.len() implies a.upstream_pools@[m]
                        == b.upstream_pools@[m] by {
                        assert(rep_pool(items@[m], a.upstream_pools@[m]));
                        assert(rep_pool(items@[m], b.upstream_pools@[m]));
                        lemma_rep_pool_unique(items@[m], a.upstream_pools@[m], b.upstream_pools@[m]);
                    }
                    assert(a.upstream_pools@ =~= b.upstream_pools@);
                },
                _ => { },
            }
        },
        _ => { },
    }
    match j {
        Json::Obj(entries) => {
            match entries@[3].1 {
                Json::Arr(items) => {
                    assert forall|m: int| 0 <= m < a.upstream_targets@.len() implies a.upstream_targets@[m]
                        == b.upstream_targets@[m] by {
                        assert(rep_target(items@[m], a.upstream_targets@[m]));
                        assert(rep_target(items@[m], b.upstream_targets@[m]));
                        lemma_rep_target_unique(items@[m], a.upstream_targets@[m], b.upstream_targets@[m]);
                    }
                    assert(a.upstream_targets@ =~= b.upstream_targets@);
                },
                _ => { },
            }
        },
        _ => { },
    }
    match j {
        Json::Obj(entries) => {
            match entries@[4].1 {
                Json::Arr(items) => {
                    assert forall|m: int|
                        0 <= m < a.tls_policies@.len() implies tls_policy_like(
                        #[trigger] a.tls_policies@[m],
                        b.tls_policies@[m],
                    ) by {
                        assert(rep_tls_policy(items@[m], a.tls_policies@[m]));
                        assert(rep_tls_policy(items@[m], b.tls_policies@[m]));
                        lemma_rep_tls_policy_unique(
                            items@[m],
                            a.tls_policies@[m],
                            b.tls_policies@[m],
                        );
                    }
                },
                _ => { },
            }
        },
        _ => { },
    }
    match j {
        Json::Obj(entries) => {
            match entries@[5].1 {
                Json::Arr(items) => {
                    assert forall|m: int| 0 <= m < a.certificates@.len() implies a.certificates@[m]
                        == b.certificates@[m] by {
                        assert(rep_certificate(items@[m], a.certificates@[m]));
                        assert(rep_certificate(items@[m], b.certificates@[m]));
                        lemma_rep_certificate_unique(items@[m], a.certificates@[m], b.certificates@[m]);
                    }
                    assert(a.certificates@ =~= b.certificates@);
                },
                _ => { },
            }
        },
        _ => { },
    }
}


} // verus!
