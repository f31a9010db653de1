//! Certificate selection: which certificate serves a TLS policy, and which
//! material an HTTPS-bound port presents.

use vstd::prelude::*;
use crate::ids::Id;
use crate::models::{Certificate, Snapshot, TlsPolicy};
use crate::text::eq_ignore_ascii_case;
use crate::validation::{is_https_spec, port_in_bounds};

verus! {

/// Certificate and private key, as PEM text.
#[derive(Debug, Clone)]
pub struct TlsKeyPair {
    pub cert_pem: String,
    pub key_pem: String,
}

/// Where a policy's materialized certificate and key files live.
#[derive(Debug, Clone)]
pub struct CertPaths {
    pub cert_path: String,
    pub key_path: String,
}

/// Whether the certificate's domain appears among the policy's domains.
pub open spec fn cert_matches(policy: &TlsPolicy, c: Certificate) -> bool {
    exists|i: int| 0 <= i < policy.domains@.len() && (#[trigger] policy.domains@[i])@ == c.domain@
}

/// The index of the certificate that serves the policy: among those whose
/// domain appears in the policy's domains, the one with the latest
/// `expires_at`; on a tie, the last such certificate.
pub open spec fn select_cert_idx(policy: &TlsPolicy, certs: Seq<Certificate>) -> Option<int>
    decreases certs.len(),
{
    if certs.len() == 0 {
        None
    } else {
        let rest = select_cert_idx(policy, certs.drop_last());
        if !cert_matches(policy, certs.last()) {
            rest
        } else {
            match rest {
                None => Some(certs.len() - 1),
                Some(j) => if certs[j].expires_at <= certs.last().expires_at {
                    Some(certs.len() - 1)
                } else {
                    Some(j)
                },
            }
        }
    }
}

/// Whether any of the policy's domains equals `domain`, character for
/// character.
fn domains_contain(policy: &TlsPolicy, domain: &str) -> (r: bool)
    ensures
        r == exists|i: int|
            0 <= i < policy.domains@.len() && (#[trigger] policy.domains@[i])@ == domain@,
{
    let mut i: usize = 0;
    while i < policy.domains.len()
        invariant
            i <= policy.domains@.len(),
            forall|k: int| 0 <= k < i ==> (#[trigger] policy.domains@[k])@ != domain@,
        decreases policy.domains@.len() - i,
    {
        if crate::text::str_eq(policy.domains[i].as_str(), domain) {
            return true;
        }
        i = i + 1;
    }
    false
}

/// Picks the certificate that serves the policy: the latest-expiring one
/// among those whose domain the policy lists; `None` when none matches.
pub fn select_cert<'a>(policy: &TlsPolicy, certs: &'a Vec<Certificate>) -> (r: Option<
    &'a Certificate,
>)
    ensures
        match r {
            Some(c) => select_cert_idx(policy, certs@) is Some && *c == certs@[select_cert_idx(
                policy,
                certs@,
            ).unwrap()],
            None => select_cert_idx(policy, certs@) is None,
        },
{
    let ghost cs = certs@;
    let mut best: Option<usize> = None;
    let mut i: usize = 0;
    while i < certs.len()
        invariant
            cs == certs@,
            i <= cs.len(),
            match best {
                Some(b) => b < i && select_cert_idx(policy, cs.take(i as int)) == Some(b as int),
                None => select_cert_idx(policy, cs.take(i as int)) is None,
            },
        decreases cs.len() - i,
    {
        proof {
            assert(cs.take(i + 1).drop_last() =~= cs.take(i as int));
            assert(cs.take(i + 1).last() == cs[i as int]);
        }
        if domains_contain(policy, certs[i].domain.as_str()) {
            proof {
                assert(cert_matches(policy, cs[i as int]));
            }
            best = match best {
                Some(b) => {
                    if certs[b].expires_at <= certs[i].expires_at {
                        Some(i)
                    } else {
                        Some(b)
                    }
                },
                None => Some(i),
            };
        } else {
            proof {
                assert(!cert_matches(policy, cs[i as int]));
            }
        }
        i = i + 1;
    }
    proof {
        assert(cs.take(cs.len() as int) =~= cs);
    }
    match best {
        Some(b) => Some(&certs[b]),
        None => None,
    }
}

/// The selected certificate matches the policy and its expiry is maximal
/// among all matching certificates; none is selected exactly when none
/// matches.
pub proof fn lemma_select_cert_max(policy: &TlsPolicy, certs: Seq<Certificate>)
    ensures
        match select_cert_idx(policy, certs) {
            Some(i) => 0 <= i < certs.len() && cert_matches(policy, certs[i]) && forall|j: int|
                0 <= j < certs.len() && cert_matches(policy, #[trigger] certs[j])
                    ==> certs[j].expires_at <= certs[i].expires_at,
            None => forall|j: int|
                0 <= j < certs.len() ==> !cert_matches(policy, #[trigger] certs[j]),
        },
    decreases certs.len(),
{
    if certs.len() > 0 {
        lemma_select_cert_max(policy, certs.drop_last());
        assert forall|j: int| 0 <= j < certs.len() - 1 implies certs.drop_last()[j] == certs[j]
        by {}
    }
}

/// The first policy with this id.
pub open spec fn policy_idx(ps: Seq<TlsPolicy>, id: Id) -> Option<int>
    decreases ps.len(),
{
    if ps.len() == 0 {
        None
    } else if ps[0].id == id {
        Some(0)
    } else {
        match policy_idx(ps.drop_first(), id) {
            Some(j) => Some(j + 1),
            None => None,
        }
    }
}

/// The PEM material a policy serves: the selected certificate's text.
pub open spec fn pem_for_policy(s: &Snapshot, policy_id: Id) -> Option<(Seq<char>, Seq<char>)> {
    match policy_idx(s.tls_policies@, policy_id) {
        None => None,
        Some(p) => match select_cert_idx(&s.tls_policies@[p], s.certificates@) {
            None => None,
            Some(c) => Some((s.certificates@[c].cert_pem@, s.certificates@[c].key_pem@)),
        },
    }
}

/// Looks the policy up and selects its certificate, as PEM material.
pub fn tls_pem_for_policy(s: &Snapshot, policy_id: Id) -> (r: Option<TlsKeyPair>)
    ensures
        match r {
            Some(pair) => pem_for_policy(s, policy_id) == Some((pair.cert_pem@, pair.key_pem@)),
            None => pem_for_policy(s, policy_id) is None,
        },
{
    let ghost ps = s.tls_policies@;
    proof {
        assert(ps.skip(0) =~= ps);
    }
    let mut i: usize = 0;
    while i < s.tls_policies.len()
        invariant
            ps == s.tls_policies@,
            i <= ps.len(),
            policy_idx(ps, policy_id) == match policy_idx(ps.skip(i as int), policy_id) {
                Some(j) => Some(j + i),
                None => None::<int>,
            },
        decreases ps.len() - i,
    {
        proof {
            assert(ps.skip(i as int)[0] == ps[i as int]);
            assert(ps.skip(i as int).drop_first() =~= ps.skip(i + 1));
        }
        let p = &s.tls_policies[i];
        if p.id.hi == policy_id.hi && p.id.lo == policy_id.lo {
            proof {
                assert(policy_idx(ps, policy_id) == Some(i as int));
            }
            let cert = match select_cert(p, &s.certificates) {
                Some(c) => c,
                None => {
                    return None;
                },
            };
            return Some(
                TlsKeyPair {
                    cert_pem: cert.cert_pem.clone(),
                    key_pem: cert.key_pem.clone(),
                },
            );
        }
        i = i + 1;
    }
    proof {
        assert(ps.skip(ps.len() as int) =~= Seq::<TlsPolicy>::empty());
    }
    None
}

/// The last enabled, in-bounds listener bound to `port`.
pub open spec fn listener_at_port(ls: Seq<crate::models::Listener>, port: u16) -> Option<int>
    decreases ls.len(),
{
    if ls.len() == 0 {
        None
    } else if ls.last().enabled && port_in_bounds(ls.last().port) && ls.last().port == port as i32 {
        Some(ls.len() - 1)
    } else {
        listener_at_port(ls.drop_last(), port)
    }
}

/// The PEM material an HTTPS-bound port presents: its listener's policy's
/// selected certificate; `None` when the port has no HTTPS listener with
/// usable material, in which case the default self-signed pair serves.
pub open spec fn https_port_pem_spec(s: &Snapshot, port: u16) -> Option<(Seq<char>, Seq<char>)> {
    match listener_at_port(s.listeners@, port) {
        None => None,
        Some(i) => {
            let l = s.listeners@[i];
            if is_https_spec(l.protocol@) && l.tls_policy_id is Some {
                pem_for_policy(s, l.tls_policy_id.unwrap())
            } else {
                None
            }
        },
    }
}

/// The material for one HTTPS-bound port, when the snapshot provides any.
pub fn https_port_pem(s: &Snapshot, port: u16) -> (r: Option<TlsKeyPair>)
    ensures
        match r {
            Some(pair) => https_port_pem_spec(s, port) == Some(
                (pair.cert_pem@, pair.key_pem@),
            ),
            None => https_port_pem_spec(s, port) is None,
        },
{
    let ghost ls = s.listeners@;
    let mut i: usize = s.listeners.len();
    proof {
        assert(ls.take(ls.len() as int) =~= ls);
    }
    while i > 0
        invariant
            ls == s.listeners@,
            i <= ls.len(),
            listener_at_port(ls, port) == listener_at_port(ls.take(i as int), port),
        decreases i,
    {
        proof {
            assert(ls.take(i as int).last() == ls[i - 1]);
            assert(ls.take(i as int).drop_last() =~= ls.take(i - 1));
        }
        let l = &s.listeners[i - 1];
        if l.enabled && 1 <= l.port && l.port <= 65535 && l.port == port as i32 {
            if eq_ignore_ascii_case(l.protocol.as_str(), "https") {
                match l.tls_policy_id {
                    Some(policy_id) => {
                        return tls_pem_for_policy(s, policy_id);
                    },
                    None => {
                        return None;
                    },
                }
            }
            return None;
        }
        i = i - 1;
    }
    proof {
        assert(ls.take(0) =~= Seq::<crate::models::Listener>::empty());
    }
    None
}

} // verus!
