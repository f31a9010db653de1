//! Listener-level validation shared by the control and data planes:
//! duplicate detection, port bounds, and port-range placement.

use vstd::prelude::*;
use crate::config::{PortRange, ranges_overlap_spec, ranges_overlap};
use crate::ids::{Id, id_str_spec, id_to_string};
use crate::models::{Listener, Snapshot};
use crate::text::{
    lower_seq, eq_ignore_case_spec, to_ascii_lowercase, eq_ignore_ascii_case, dec_str,
    dec_str_i64, u64_to_string, i64_to_string,
};
use vstd::string::StringExecFns;

verus! {

/// A structured validation failure.
#[derive(Debug, Clone)]
pub enum ValidationError {
    /// Two listeners share the same (lowercased protocol, port).
    DuplicateListener { protocol: String, port: i32 },
    /// Two enabled listeners bind the same port.
    DuplicatePort { port: u16 },
    /// A port outside `1..=65535`.
    InvalidPort { port: i32 },
    /// An HTTPS listener's port falls outside the configured HTTPS range.
    HttpsPortOutOfRange { listener_id: Id, port: u16 },
    /// An HTTP listener's port falls outside the configured HTTP range.
    HttpPortOutOfRange { listener_id: Id, port: u16 },
    /// An HTTPS listener's port lies inside the HTTP range.
    HttpsPortConflictsHttpRange { listener_id: Id, port: u16 },
    /// An HTTP listener's port lies inside the HTTPS range.
    HttpPortConflictsHttpsRange { listener_id: Id, port: u16 },
    /// The configured HTTP and HTTPS ranges share a port.
    PortRangeOverlap { http_range: PortRange, https_range: PortRange },
}

/// The mathematical value of a validation error: strings as character
/// sequences.
pub enum VErr {
    DuplicateListener { protocol: Seq<char>, port: i32 },
    DuplicatePort { port: u16 },
    InvalidPort { port: i32 },
    HttpsPortOutOfRange { listener_id: Id, port: u16 },
    HttpPortOutOfRange { listener_id: Id, port: u16 },
    HttpsPortConflictsHttpRange { listener_id: Id, port: u16 },
    HttpPortConflictsHttpsRange { listener_id: Id, port: u16 },
    PortRangeOverlap { http_range: PortRange, https_range: PortRange },
}

impl View for ValidationError {
    type V = VErr;

    open spec fn view(&self) -> VErr {
        match self {
            ValidationError::DuplicateListener { protocol, port } => VErr::DuplicateListener {
                protocol: protocol@,
                port: *port,
            },
            ValidationError::DuplicatePort { port } => VErr::DuplicatePort { port: *port },
            ValidationError::InvalidPort { port } => VErr::InvalidPort { port: *port },
            ValidationError::HttpsPortOutOfRange { listener_id, port } => VErr::HttpsPortOutOfRange {
                listener_id: *listener_id,
                port: *port,
            },
            ValidationError::HttpPortOutOfRange { listener_id, port } => VErr::HttpPortOutOfRange {
                listener_id: *listener_id,
                port: *port,
            },
            ValidationError::HttpsPortConflictsHttpRange {
                listener_id,
                port,
            } => VErr::HttpsPortConflictsHttpRange { listener_id: *listener_id, port: *port },
            ValidationError::HttpPortConflictsHttpsRange {
                listener_id,
                port,
            } => VErr::HttpPortConflictsHttpsRange { listener_id: *listener_id, port: *port },
            ValidationError::PortRangeOverlap { http_range, https_range } => VErr::PortRangeOverlap {
                http_range: *http_range,
                https_range: *https_range,
            },
        }
    }
}

/// The views of a list of errors, in order.
pub open spec fn errs_view(s: Seq<ValidationError>) -> Seq<VErr> {
    s.map_values(|e: ValidationError| e@)
}

/// The exact text of each error's description.
pub open spec fn description_spec(e: VErr) -> Seq<char> {
    match e {
        VErr::DuplicateListener { protocol, port } => "duplicate listener "@ + protocol + ":"@
            + dec_str_i64(port as int),
        VErr::DuplicatePort { port } => "duplicate port "@ + dec_str(port as nat),
        VErr::InvalidPort { port } => "invalid port "@ + dec_str_i64(port as int)
            + " (must be 1-65535)"@,
        VErr::HttpsPortOutOfRange { listener_id, port } => "listener "@ + id_str_spec(listener_id)
            + " https port "@ + dec_str(port as nat) + " outside HTTPS_PORT_RANGE"@,
        VErr::HttpPortOutOfRange { listener_id, port } => "listener "@ + id_str_spec(listener_id)
            + " http port "@ + dec_str(port as nat) + " outside HTTP_PORT_RANGE"@,
        VErr::HttpsPortConflictsHttpRange { listener_id, port } => "listener "@ + id_str_spec(
            listener_id,
        ) + " https port "@ + dec_str(port as nat) + " conflicts with HTTP_PORT_RANGE"@,
        VErr::HttpPortConflictsHttpsRange { listener_id, port } => "listener "@ + id_str_spec(
            listener_id,
        ) + " http port "@ + dec_str(port as nat) + " conflicts with HTTPS_PORT_RANGE"@,
        VErr::PortRangeOverlap { http_range, https_range } => "HTTP_PORT_RANGE "@ + dec_str(
            http_range.start as nat,
        ) + "-"@ + dec_str(http_range.end as nat) + " overlaps HTTPS_PORT_RANGE "@ + dec_str(
            https_range.start as nat,
        ) + "-"@ + dec_str(https_range.end as nat),
    }
}

impl ValidationError {
    /// The human-readable description, with a machine-stable prefix.
    pub fn description(&self) -> (r: String)
        ensures
            r@ == description_spec(self@),
    {
        let mut s = String::new();
        match self {
            ValidationError::DuplicateListener { protocol, port } => {
                s.append("duplicate listener ");
                s.append(protocol.as_str());
                s.append(":");
                let n = i64_to_string(*port as i64);
                s.append(n.as_str());
            },
            ValidationError::DuplicatePort { port } => {
                s.append("duplicate port ");
                let n = u64_to_string(*port as u64);
                s.append(n.as_str());
            },
            ValidationError::InvalidPort { port } => {
                s.append("invalid port ");
                let n = i64_to_string(*port as i64);
                s.append(n.as_str());
                s.append(" (must be 1-65535)");
            },
            ValidationError::HttpsPortOutOfRange { listener_id, port } => {
                s.append("listener ");
                let i = id_to_string(listener_id);
                s.append(i.as_str());
                s.append(" https port ");
                let n = u64_to_string(*port as u64);
                s.append(n.as_str());
                s.append(" outside HTTPS_PORT_RANGE");
            },
            ValidationError::HttpPortOutOfRange { listener_id, port } => {
                s.append("listener ");
                let i = id_to_string(listener_id);
                s.append(i.as_str());
                s.append(" http port ");
                let n = u64_to_string(*port as u64);
                s.append(n.as_str());
                s.append(" outside HTTP_PORT_RANGE");
            },
            ValidationError::HttpsPortConflictsHttpRange { listener_id, port } => {
                s.append("listener ");
                let i = id_to_string(listener_id);
                s.append(i.as_str());
                s.append(" https port ");
                let n = u64_to_string(*port as u64);
                s.append(n.as_str());
                s.append(" conflicts with HTTP_PORT_RANGE");
            },
            ValidationError::HttpPortConflictsHttpsRange { listener_id, port } => {
                s.append("listener ");
                let i = id_to_string(listener_id);
                s.append(i.as_str());
                s.append(" http port ");
                let n = u64_to_string(*port as u64);
                s.append(n.as_str());
                s.append(" conflicts with HTTPS_PORT_RANGE");
            },
            ValidationError::PortRangeOverlap { http_range, https_range } => {
                s.append("HTTP_PORT_RANGE ");
                let a = u64_to_string(http_range.start as u64);
                s.append(a.as_str());
                s.append("-");
                let b = u64_to_string(http_range.end as u64);
                s.append(b.as_str());
                s.append(" overlaps HTTPS_PORT_RANGE ");
                let c = u64_to_string(https_range.start as u64);
                s.append(c.as_str());
                s.append("-");
                let d = u64_to_string(https_range.end as u64);
                s.append(d.as_str());
            },
        }
        s
    }
}

/// Whether a listener's protocol is HTTPS, compared case-insensitively.
pub open spec fn is_https_spec(protocol: Seq<char>) -> bool {
    eq_ignore_case_spec(protocol, "https"@)
}

/// A port that a listener may bind: `1..=65535`.
pub open spec fn port_in_bounds(port: i32) -> bool {
    1 <= port <= 65535
}

/// The port-range context validation runs under.
pub struct ValidationContext {
    pub http_port_range: Option<PortRange>,
    pub https_port_range: Option<PortRange>,
}

/// The errors charged to one HTTPS listener's port placement.
pub open spec fn https_port_errors(ctx: &ValidationContext, id: Id, port: u16) -> Seq<VErr> {
    (if ctx.https_port_range is Some && !(ctx.https_port_range.unwrap().start <= port
        && port <= ctx.https_port_range.unwrap().end) {
        seq![VErr::HttpsPortOutOfRange { listener_id: id, port }]
    } else {
        Seq::empty()
    }) + (if ctx.http_port_range is Some && ctx.http_port_range.unwrap().start <= port
        && port <= ctx.http_port_range.unwrap().end {
        seq![VErr::HttpsPortConflictsHttpRange { listener_id: id, port }]
    } else {
        Seq::empty()
    })
}

/// The errors charged to one HTTP listener's port placement.
pub open spec fn http_port_errors(ctx: &ValidationContext, id: Id, port: u16) -> Seq<VErr> {
    (if ctx.http_port_range is Some && !(ctx.http_port_range.unwrap().start <= port
        && port <= ctx.http_port_range.unwrap().end) {
        seq![VErr::HttpPortOutOfRange { listener_id: id, port }]
    } else {
        Seq::empty()
    }) + (if ctx.https_port_range is Some && ctx.https_port_range.unwrap().start <= port
        && port <= ctx.https_port_range.unwrap().end {
        seq![VErr::HttpPortConflictsHttpsRange { listener_id: id, port }]
    } else {
        Seq::empty()
    })
}

/// Whether some earlier listener shares this one's (lowercased protocol, port).
pub open spec fn seen_protocol_port(ls: Seq<Listener>, i: int) -> bool {
    exists|j: int|
        0 <= j < i && #[trigger] lower_seq(ls[j].protocol@) == lower_seq(ls[i].protocol@)
            && ls[j].port == ls[i].port
}

/// Whether some earlier enabled, in-bounds listener binds this port.
pub open spec fn seen_bind_port(ls: Seq<Listener>, i: int, port: u16) -> bool {
    exists|j: int|
        0 <= j < i && #[trigger] ls[j].enabled && port_in_bounds(ls[j].port) && ls[j].port
            == port as i32
}

/// The errors charged to listener `i` of the sequence.
pub open spec fn listener_errors_at(ctx: &ValidationContext, ls: Seq<Listener>, i: int) -> Seq<
    VErr,
> {
    let l = ls[i];
    (if seen_protocol_port(ls, i) {
        seq![
            VErr::DuplicateListener {
                protocol: lower_seq(l.protocol@),
                port: l.port,
            },
        ]
    } else {
        Seq::empty()
    }) + (if !l.enabled {
        Seq::empty()
    } else if !port_in_bounds(l.port) {
        seq![VErr::InvalidPort { port: l.port }]
    } else {
        (if seen_bind_port(ls, i, l.port as u16) {
            seq![VErr::DuplicatePort { port: l.port as u16 }]
        } else {
            Seq::empty()
        }) + (if is_https_spec(l.protocol@) {
            https_port_errors(ctx, l.id, l.port as u16)
        } else {
            http_port_errors(ctx, l.id, l.port as u16)
        })
    })
}

/// The errors of the first `i` listeners, in order.
pub open spec fn listener_errors_upto(ctx: &ValidationContext, ls: Seq<Listener>, i: int) -> Seq<
    VErr,
>
    decreases i,
{
    if i <= 0 {
        Seq::empty()
    } else {
        listener_errors_upto(ctx, ls, i - 1) + listener_errors_at(ctx, ls, i - 1)
    }
}

/// The overlap error, present exactly when both ranges are set and share a
/// port.
pub open spec fn overlap_errors(ctx: &ValidationContext) -> Seq<VErr> {
    if ctx.http_port_range is Some && ctx.https_port_range is Some && ranges_overlap_spec(
        ctx.http_port_range.unwrap(),
        ctx.https_port_range.unwrap(),
    ) {
        seq![
            VErr::PortRangeOverlap {
                http_range: ctx.http_port_range.unwrap(),
                https_range: ctx.https_port_range.unwrap(),
            },
        ]
    } else {
        Seq::empty()
    }
}

/// The complete, deterministically ordered error list of a snapshot's
/// listeners under this context: the range-overlap error first, then each
/// listener's errors in listener order.
pub open spec fn validate_snapshot_spec(ctx: &ValidationContext, s: &Snapshot) -> Seq<VErr> {
    overlap_errors(ctx) + listener_errors_upto(ctx, s.listeners@, s.listeners@.len() as int)
}

/// Whether one listener passes the port-range rules on its own: in-bounds
/// port, inside its protocol's range when one is set, outside the other
/// protocol's range when that is set.
pub open spec fn listener_valid_spec(ctx: &ValidationContext, l: &Listener) -> bool {
    port_in_bounds(l.port) && if is_https_spec(l.protocol@) {
        https_port_errors(ctx, l.id, l.port as u16).len() == 0
    } else {
        http_port_errors(ctx, l.id, l.port as u16).len() == 0
    }
}

impl ValidationContext {
    pub fn new(http_port_range: Option<PortRange>, https_port_range: Option<PortRange>) -> (r:
        Self)
        ensures
            r.http_port_range == http_port_range,
            r.https_port_range == https_port_range,
    {
        ValidationContext { http_port_range, https_port_range }
    }

    /// Validates the snapshot's listeners and the range configuration,
    /// returning the complete error list in stable order.
    pub fn validate_snapshot(&self, snapshot: &Snapshot) -> (r: Vec<ValidationError>)
        ensures
            errs_view(r@) == validate_snapshot_spec(self, snapshot),
    {
        let mut errors: Vec<ValidationError> = Vec::new();
        match (self.http_port_range, self.https_port_range) {
            (Some(http), Some(https)) => {
                if ranges_overlap(http, https) {
                    errors.push(
                        ValidationError::PortRangeOverlap {
                            http_range: http,
                            https_range: https,
                        },
                    );
                }
            },
            _ => {},
        }
        proof {
            assert(errs_view(errors@) =~= overlap_errors(self));
        }
        self.validate_listeners(snapshot, &mut errors);
        errors
    }

    /// Appends every listener's errors, in listener order.
    fn validate_listeners(&self, snapshot: &Snapshot, errors: &mut Vec<ValidationError>)
        ensures
            errs_view(final(errors)@) == errs_view(old(errors)@) + listener_errors_upto(
                self,
                snapshot.listeners@,
                snapshot.listeners@.len() as int,
            ),
    {
        let ghost ls = snapshot.listeners@;
        let ghost base = errs_view(errors@);
        let n = snapshot.listeners.len();
        let mut i: usize = 0;
        while i < n
            invariant
                n == ls.len(),
                ls == snapshot.listeners@,
                i <= n,
                errs_view(errors@) == base + listener_errors_upto(self, ls, i as int),
            decreases n - i,
        {
            let ghost before = errs_view(errors@);
            let l = &snapshot.listeners[i];

            // Duplicate (lowercased protocol, port) against earlier listeners.
            if self.has_earlier_protocol_port(snapshot, i) {
                let protocol = to_ascii_lowercase(l.protocol.as_str());
                errors.push(
                    ValidationError::DuplicateListener {
                        protocol,
                        port: l.port,
                    },
                );
            }

            if l.enabled {
                if !(1 <= l.port && l.port <= 65535) {
                    errors.push(ValidationError::InvalidPort { port: l.port });
                } else {
                    let port = l.port as u16;
                    if self.has_earlier_bind_port(snapshot, i, port) {
                        errors.push(ValidationError::DuplicatePort { port });
                    }
                    if eq_ignore_ascii_case(l.protocol.as_str(), "https") {
                        self.push_https_port_errors(l.id, port, errors);
                    } else {
                        self.push_http_port_errors(l.id, port, errors);
                    }
                }
            }
            proof {
                assert(errs_view(errors@) =~= before + listener_errors_at(self, ls, i as int));
                assert(errs_view(errors@) =~= base + listener_errors_upto(self, ls, i + 1));
            }
            i = i + 1;
        }
    }

    /// Whether an earlier listener shares listener `i`'s (protocol, port),
    /// protocols compared case-insensitively.
    fn has_earlier_protocol_port(&self, snapshot: &Snapshot, i: usize) -> (r: bool)
        requires
            i < snapshot.listeners@.len(),
        ensures
            r == seen_protocol_port(snapshot.listeners@, i as int),
    {
        let ghost ls = snapshot.listeners@;
        let mut j: usize = 0;
        while j < i
            invariant
                ls == snapshot.listeners@,
                i < ls.len(),
                j <= i,
                forall|k: int|
                    0 <= k < j ==> !(#[trigger] lower_seq(ls[k].protocol@) == lower_seq(
                        ls[i as int].protocol@,
                    ) && ls[k].port == ls[i as int].port),
            decreases i - j,
        {
            if snapshot.listeners[j].port == snapshot.listeners[i].port && eq_ignore_ascii_case(
                snapshot.listeners[j].protocol.as_str(),
                snapshot.listeners[i].protocol.as_str(),
            ) {
                return true;
            }
            j = j + 1;
        }
        false
    }

    /// Whether an earlier enabled, in-bounds listener binds `port`.
    fn has_earlier_bind_port(&self, snapshot: &Snapshot, i: usize, port: u16) -> (r: bool)
        requires
            i < snapshot.listeners@.len(),
        ensures
            r == seen_bind_port(snapshot.listeners@, i as int, port),
    {
        let ghost ls = snapshot.listeners@;
        let mut j: usize = 0;
        while j < i
            invariant
                ls == snapshot.listeners@,
                i < ls.len(),
                j <= i,
                forall|k: int|
                    0 <= k < j ==> !(#[trigger] ls[k].enabled && port_in_bounds(ls[k].port)
                        && ls[k].port == port as i32),
            decreases i - j,
        {
            let l = &snapshot.listeners[j];
            if l.enabled && 1 <= l.port && l.port <= 65535 && l.port == port as i32 {
                return true;
            }
            j = j + 1;
        }
        false
    }

    fn push_https_port_errors(&self, id: Id, port: u16, errors: &mut Vec<ValidationError>)
        ensures
            errs_view(final(errors)@) == errs_view(old(errors)@) + https_port_errors(
                self,
                id,
                port,
            ),
    {
        let ghost before = errs_view(errors@);
        match self.https_port_range {
            Some(range) => {
                if !range.contains(port) {
                    errors.push(ValidationError::HttpsPortOutOfRange { listener_id: id, port });
                }
            },
            None => {},
        }
        match self.http_port_range {
            Some(range) => {
                if range.contains(port) {
                    errors.push(
                        ValidationError::HttpsPortConflictsHttpRange { listener_id: id, port },
                    );
                }
            },
            None => {},
        }
        proof {
            assert(errs_view(errors@) =~= before + https_port_errors(self, id, port));
        }
    }

    fn push_http_port_errors(&self, id: Id, port: u16, errors: &mut Vec<ValidationError>)
        ensures
            errs_view(final(errors)@) == errs_view(old(errors)@) + http_port_errors(
                self,
                id,
                port,
            ),
    {
        let ghost before = errs_view(errors@);
        match self.http_port_range {
            Some(range) => {
                if !range.contains(port) {
                    errors.push(ValidationError::HttpPortOutOfRange { listener_id: id, port });
                }
            },
            None => {},
        }
        match self.https_port_range {
            Some(range) => {
                if range.contains(port) {
                    errors.push(
                        ValidationError::HttpPortConflictsHttpsRange { listener_id: id, port },
                    );
                }
            },
            None => {},
        }
        proof {
            assert(errs_view(errors@) =~= before + http_port_errors(self, id, port));
        }
    }

    /// Whether one listener is serviceable under the port-range rules; the
    /// data plane drops listeners this refuses instead of failing.
    pub fn is_listener_valid(&self, listener: &Listener) -> (r: bool)
        ensures
            r == listener_valid_spec(self, listener),
    {
        if !(1 <= listener.port && listener.port <= 65535) {
            return false;
        }
        let port = listener.port as u16;
        if eq_ignore_ascii_case(listener.protocol.as_str(), "https") {
            self.check_https_listener_port(listener.id, port)
        } else {
            self.check_http_listener_port(listener.id, port)
        }
    }

    /// Whether an HTTPS listener's port sits inside the HTTPS range (when
    /// set) and outside the HTTP range (when set).
    fn check_https_listener_port(&self, listener_id: Id, port: u16) -> (r: bool)
        ensures
            r == (https_port_errors(self, listener_id, port).len() == 0),
    {
        match self.https_port_range {
            Some(range) => {
                if !range.contains(port) {
                    return false;
                }
            },
            None => {},
        }
        match self.http_port_range {
            Some(range) => {
                if range.contains(port) {
                    return false;
                }
            },
            None => {},
        }
        true
    }

    /// Whether an HTTP listener's port sits inside the HTTP range (when set)
    /// and outside the HTTPS range (when set).
    fn check_http_listener_port(&self, listener_id: Id, port: u16) -> (r: bool)
        ensures
            r == (http_port_errors(self, listener_id, port).len() == 0),
    {
        match self.http_port_range {
            Some(range) => {
                if !range.contains(port) {
                    return false;
                }
            },
            None => {},
        }
        match self.https_port_range {
            Some(range) => {
                if range.contains(port) {
                    return false;
                }
            },
            None => {},
        }
        true
    }
}

/// Validating a snapshot twice yields the same error list: the list is a
/// function of the snapshot and the context alone.
pub proof fn lemma_validation_deterministic(
    ctx: &ValidationContext,
    s: &Snapshot,
    e1: Seq<VErr>,
    e2: Seq<VErr>,
)
    requires
        e1 == validate_snapshot_spec(ctx, s),
        e2 == validate_snapshot_spec(ctx, s),
    ensures
        e1 == e2,
{
}

} // verus!
