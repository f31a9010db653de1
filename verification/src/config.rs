//! Port ranges and application configuration.

use vstd::prelude::*;
use crate::errors::GatewayError;
use crate::text::{
    find_first, lemma_find_first, lemma_find_first_unique, parse_u16, parses_as_u64_within,
    unsigned_body, dec_seq_value, str_chars, chars_range_to_string,
};

verus! {

/// An inclusive range of TCP ports, `start..=end`.
#[derive(Debug, Clone, Copy, PartialEq, Eq, Structural)]
pub struct PortRange {
    pub start: u16,
    pub end: u16,
}

impl PortRange {
    /// Whether `port` lies inside the range (both bounds inclusive).
    pub fn contains(&self, port: u16) -> (r: bool)
        ensures
            r == (self.start <= port && port <= self.end),
    {
        port >= self.start && port <= self.end
    }

    /// All ports of the range, in ascending order.
    pub fn iter(&self) -> (r: Vec<u16>)
        ensures
            r@.len() == if self.start <= self.end {
                self.end - self.start + 1
            } else {
                0int
            },
            forall|i: int| 0 <= i < r@.len() ==> r@[i] == self.start + i,
    {
        let mut out: Vec<u16> = Vec::new();
        let mut p: u32 = self.start as u32;
        while p <= self.end as u32
            invariant
                self.start <= p,
                p <= self.end as u32 + 1 || p == self.start,
                out@.len() == p - self.start,
                forall|i: int| 0 <= i < out@.len() ==> out@[i] == self.start + i,
            decreases self.end as u32 + 1 - p,
        {
            out.push(p as u16);
            p = p + 1;
        }
        out
    }
}

/// Whether two inclusive port ranges share at least one port.
pub open spec fn ranges_overlap_spec(a: PortRange, b: PortRange) -> bool {
    max_u16(a.start, b.start) <= min_u16(a.end, b.end)
}

pub open spec fn max_u16(a: u16, b: u16) -> u16 {
    if a >= b {
        a
    } else {
        b
    }
}

pub open spec fn min_u16(a: u16, b: u16) -> u16 {
    if a <= b {
        a
    } else {
        b
    }
}

/// Whether the HTTP and HTTPS ranges overlap; adjacent ranges do not.
pub fn ranges_overlap(a: PortRange, b: PortRange) -> (r: bool)
    ensures
        r == ranges_overlap_spec(a, b),
        r ==> a.start <= max_u16(a.start, b.start) <= a.end && b.start <= max_u16(a.start, b.start)
            <= b.end,
{
    let lo: u16 = if a.start >= b.start {
        a.start
    } else {
        b.start
    };
    let hi: u16 = if a.end <= b.end {
        a.end
    } else {
        b.end
    };
    proof {
        if lo <= hi {
            assert(a.start <= lo <= a.end && b.start <= lo <= b.end);
        }
    }
    lo <= hi
}

/// The application's configuration, as plain values; the environment is
/// read at the edge and handed in here.
#[derive(Debug, Clone)]
pub struct AppConfig {
    pub database_url: Option<String>,
    pub control_plane_addr: String,
    pub control_plane_url: String,
    pub node_id: String,
    pub run_control_plane: bool,
    pub run_data_plane: bool,
    pub poll_interval_secs: u64,
    pub heartbeat_interval_secs: u64,
    pub health_check_interval_secs: u64,
    pub health_check_timeout_ms: u64,
    pub acme_enabled: bool,
    pub acme_contact_email: Option<String>,
    pub acme_directory_url: String,
    pub acme_storage_dir: String,
    pub certs_dir: String,
    pub http_port_range: Option<PortRange>,
    pub https_port_range: Option<PortRange>,
}

/// ASCII whitespace, as trimming strips it.
pub open spec fn is_space(c: char) -> bool {
    c == ' ' || c == '\t' || c == '\n' || c == '\r'
}

/// The index of the first non-space character, or the length.
pub open spec fn first_non_space(s: Seq<char>, i: int) -> int
    decreases s.len() - i,
{
    if i < 0 || i >= s.len() {
        s.len() as int
    } else if is_space(s[i]) {
        first_non_space(s, i + 1)
    } else {
        i
    }
}

/// One past the last non-space character, or zero.
pub open spec fn last_non_space(s: Seq<char>, i: int) -> int
    decreases i,
{
    if i <= 0 || i > s.len() {
        0
    } else if is_space(s[i - 1]) {
        last_non_space(s, i - 1)
    } else {
        i
    }
}

/// `s` with leading and trailing ASCII whitespace removed.
pub open spec fn trim_spec(s: Seq<char>) -> Seq<char> {
    let a = first_non_space(s, 0);
    let b = last_non_space(s, s.len() as int);
    if a <= b {
        s.subrange(a, b)
    } else {
        Seq::empty()
    }
}

/// A prefix of spaces leaves nothing when trimmed from the right.
proof fn lemma_last_all_space(s: Seq<char>, i: int)
    requires
        0 <= i <= s.len(),
        forall|k: int| 0 <= k < i ==> is_space(#[trigger] s[k]),
    ensures
        last_non_space(s, i) == 0,
    decreases i,
{
    if i > 0 {
        lemma_last_all_space(s, i - 1);
    }
}

/// Strips leading and trailing ASCII whitespace.
#[verifier::loop_isolation(false)]
pub fn trim_ascii(s: &str) -> (r: String)
    ensures
        r@ == trim_spec(s@),
{
    let cs = str_chars(s);
    let n = cs.len();
    let mut a: usize = 0;
    while a < n && (cs[a] == ' ' || cs[a] == '\t' || cs[a] == '\n' || cs[a] == '\r')
        invariant
            a <= n,
            first_non_space(s@, 0) == first_non_space(s@, a as int),
            forall|k: int| 0 <= k < a ==> is_space(#[trigger] s@[k]),
        decreases n - a,
    {
        a = a + 1;
    }
    let mut b: usize = n;
    while b > a && (cs[b - 1] == ' ' || cs[b - 1] == '\t' || cs[b - 1] == '\n' || cs[b - 1]
        == '\r')
        invariant
            a <= b <= n,
            last_non_space(s@, n as int) == last_non_space(s@, b as int),
            a < n ==> a < b,
        decreases b,
    {
        b = b - 1;
    }
    proof {
        assert(first_non_space(s@, a as int) == a as int);
        if a == n {
            lemma_last_all_space(s@, n as int);
            assert(trim_spec(s@) =~= s@.subrange(a as int, b as int));
        } else {
            assert(b > a);
            assert(last_non_space(s@, b as int) == b as int);
            assert(trim_spec(s@) == s@.subrange(a as int, b as int));
        }
    }
    chars_range_to_string(&cs, a, b)
}

/// How a range string reads: empty means unset; otherwise `start-end`, both
/// ports parsing as `u16` and satisfying `0 < start <= end`.
pub open spec fn port_range_spec(s: Seq<char>) -> Result<Option<PortRange>, ()> {
    if s.len() == 0 {
        Ok(None)
    } else {
        let d = find_first(s, '-');
        if d < 0 {
            Err(())
        } else {
            let start_txt = s.take(d);
            let end_txt = s.skip(d + 1);
            if !parses_as_u64_within(start_txt, 65535) {
                Err(())
            } else if !parses_as_u64_within(end_txt, 65535) {
                Err(())
            } else {
                let start = dec_seq_value(unsigned_body(start_txt)) as u16;
                let end = dec_seq_value(unsigned_body(end_txt)) as u16;
                if start == 0 || end == 0 || start > end {
                    Err(())
                } else {
                    Ok(Some(PortRange { start, end }))
                }
            }
        }
    }
}

/// Reads a port range such as the environment configures: an empty string
/// is no range; a malformed or inverted one is a `BadRequest`. The caller
/// hands the value in already trimmed.
#[verifier::loop_isolation(false)]
pub fn parse_port_range(raw: &str) -> (r: Result<Option<PortRange>, GatewayError>)
    ensures
        match r {
            Ok(v) => port_range_spec(raw@) == Ok::<Option<PortRange>, ()>(v),
            Err(e) => port_range_spec(raw@) is Err && e is BadRequest,
        },
{
    let cs = str_chars(raw);
    let n = cs.len();
    if n == 0 {
        return Ok(None);
    }
    let mut d: usize = 0;
    while d < n && cs[d] != '-'
        invariant
            d <= n,
            forall|k: int| 0 <= k < d ==> cs@[k] != '-',
        decreases n - d,
    {
        d = d + 1;
    }
    if d == n {
        proof {
            lemma_find_first(raw@, '-');
            if find_first(raw@, '-') >= 0 {
                assert(raw@[find_first(raw@, '-')] == '-');
            }
        }
        return Err(GatewayError::BadRequest("port range must be in form start-end".to_owned()));
    }
    proof {
        lemma_find_first_unique(raw@, '-', d as int);
        assert(raw@.take(d as int) =~= raw@.subrange(0, d as int));
        assert(raw@.skip(d + 1) =~= raw@.subrange(d + 1, n as int));
    }
    let start_txt = chars_range_to_string(&cs, 0, d);
    let end_txt = chars_range_to_string(&cs, d + 1, n);
    let start = match parse_u16(start_txt.as_str()) {
        Some(v) => v,
        None => {
            return Err(GatewayError::BadRequest("port range has an invalid start port".to_owned()));
        },
    };
    let end = match parse_u16(end_txt.as_str()) {
        Some(v) => v,
        None => {
            return Err(GatewayError::BadRequest("port range has an invalid end port".to_owned()));
        },
    };
    if start == 0 || end == 0 || start > end {
        return Err(GatewayError::BadRequest("port range bounds are out of order".to_owned()));
    }
    Ok(Some(PortRange { start, end }))
}

} // verus!
