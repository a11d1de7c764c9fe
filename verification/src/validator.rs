//! Configuration validation: the pure rules a configuration must satisfy
//! before the listener is built. Whether the certificate and key files can
//! actually be read is checked where the files are, outside the library.

use vstd::prelude::*;

use crate::config::{Backend, Config, HealthCheck, RouteMatch, Upstream};
use crate::util::{bytes_eq, eq_ignore_ascii_case, lower_bytes, str_bytes};

verus! {

/// The accepted log levels, each in its plain and in its themed name,
/// compared without regard to ASCII case.
pub open spec fn spec_valid_log_level(level: Seq<char>) -> bool {
    ||| lower_bytes(str_bytes(level)) == lower_bytes(str_bytes("whisper"@))
    ||| lower_bytes(str_bytes(level)) == lower_bytes(str_bytes("haunt"@))
    ||| lower_bytes(str_bytes(level)) == lower_bytes(str_bytes("spooky"@))
    ||| lower_bytes(str_bytes(level)) == lower_bytes(str_bytes("scream"@))
    ||| lower_bytes(str_bytes(level)) == lower_bytes(str_bytes("poltergeist"@))
    ||| lower_bytes(str_bytes(level)) == lower_bytes(str_bytes("silence"@))
    ||| lower_bytes(str_bytes(level)) == lower_bytes(str_bytes("trace"@))
    ||| lower_bytes(str_bytes(level)) == lower_bytes(str_bytes("debug"@))
    ||| lower_bytes(str_bytes(level)) == lower_bytes(str_bytes("info"@))
    ||| lower_bytes(str_bytes(level)) == lower_bytes(str_bytes("warn"@))
    ||| lower_bytes(str_bytes(level)) == lower_bytes(str_bytes("error"@))
    ||| lower_bytes(str_bytes(level)) == lower_bytes(str_bytes("off"@))
}

/// The accepted strategy names, compared without regard to ASCII case.
pub open spec fn spec_valid_lb_type(t: Seq<char>) -> bool {
    ||| lower_bytes(str_bytes(t)) == lower_bytes(str_bytes("random"@))
    ||| lower_bytes(str_bytes(t)) == lower_bytes(str_bytes("round-robin"@))
    ||| lower_bytes(str_bytes(t)) == lower_bytes(str_bytes("round_robin"@))
    ||| lower_bytes(str_bytes(t)) == lower_bytes(str_bytes("rr"@))
    ||| lower_bytes(str_bytes(t)) == lower_bytes(str_bytes("consistent-hash"@))
    ||| lower_bytes(str_bytes(t)) == lower_bytes(str_bytes("consistent_hash"@))
    ||| lower_bytes(str_bytes(t)) == lower_bytes(str_bytes("ch"@))
}

pub open spec fn spec_contains_colon(s: Seq<u8>) -> bool {
    exists|i: int| 0 <= i < s.len() && s[i] == 58
}

/// Every probe duration and threshold is at least one.
pub open spec fn spec_valid_health(hc: HealthCheck) -> bool {
    hc.interval >= 1 && hc.timeout_ms >= 1 && hc.failure_threshold >= 1 && hc.success_threshold
        >= 1 && hc.cooldown_ms >= 1
}

/// A backend needs an id, a host:port address, and a positive weight.
pub open spec fn spec_valid_backend(b: Backend) -> bool {
    b.id@.len() > 0 && b.address@.len() > 0 && spec_contains_colon(str_bytes(b.address@))
        && b.weight >= 1 && spec_valid_health(b.health_check)
}

/// A route matcher needs a host or a path prefix; a prefix must start with a
/// slash.
pub open spec fn spec_valid_route(r: RouteMatch) -> bool {
    (r.host is Some || r.path_prefix is Some) && (r.path_prefix matches Some(p) ==> str_bytes(
        p@,
    ).len() > 0 && str_bytes(p@)[0] == 47)
}

/// An upstream needs a name, a valid route and strategy, and at least one
/// valid backend.
pub open spec fn spec_valid_upstream(name: Seq<char>, u: Upstream) -> bool {
    name.len() > 0 && spec_valid_route(u.route) && spec_valid_lb_type(u.load_balancing.lb_type@)
        && u.backends@.len() > 0 && forall|i: int|
        0 <= i < u.backends@.len() ==> spec_valid_backend(#[trigger] u.backends@[i])
}

/// The whole rule: version one, the `http3` protocol, a known log level and
/// strategy default, a bound address and port, named key material, and at
/// least one valid upstream.
pub open spec fn spec_valid_config(c: Config) -> bool {
    &&& c.version == 1
    &&& str_bytes(c.listen.protocol@) == str_bytes("http3"@)
    &&& spec_valid_log_level(c.log.level@)
    &&& (c.load_balancing matches Some(lb) ==> spec_valid_lb_type(lb.lb_type@))
    &&& c.listen.address@.len() > 0
    &&& 1 <= c.listen.port <= 65535
    &&& c.listen.tls.cert@.len() > 0
    &&& c.listen.tls.key@.len() > 0
    &&& c.upstream@.len() > 0
    &&& forall|i: int|
        0 <= i < c.upstream@.len() ==> spec_valid_upstream(
            (#[trigger] c.upstream@[i]).0@,
            c.upstream@[i].1,
        )
}

fn valid_log_level(level: &str) -> (r: bool)
    ensures
        r == spec_valid_log_level(level@),
{
    let lb = level.as_bytes();
    eq_ignore_ascii_case(lb, "whisper".as_bytes()) || eq_ignore_ascii_case(lb, "haunt".as_bytes())
        || eq_ignore_ascii_case(lb, "spooky".as_bytes()) || eq_ignore_ascii_case(
        lb,
        "scream".as_bytes(),
    ) || eq_ignore_ascii_case(lb, "poltergeist".as_bytes()) || eq_ignore_ascii_case(
        lb,
        "silence".as_bytes(),
    ) || eq_ignore_ascii_case(lb, "trace".as_bytes()) || eq_ignore_ascii_case(
        lb,
        "debug".as_bytes(),
    ) || eq_ignore_ascii_case(lb, "info".as_bytes()) || eq_ignore_ascii_case(
        lb,
        "warn".as_bytes(),
    ) || eq_ignore_ascii_case(lb, "error".as_bytes()) || eq_ignore_ascii_case(
        lb,
        "off".as_bytes(),
    )
}

fn valid_lb_type(t: &str) -> (r: bool)
    ensures
        r == spec_valid_lb_type(t@),
{
    let tb = t.as_bytes();
    eq_ignore_ascii_case(tb, "random".as_bytes()) || eq_ignore_ascii_case(
        tb,
        "round-robin".as_bytes(),
    ) || eq_ignore_ascii_case(tb, "round_robin".as_bytes()) || eq_ignore_ascii_case(
        tb,
        "rr".as_bytes(),
    ) || eq_ignore_ascii_case(tb, "consistent-hash".as_bytes()) || eq_ignore_ascii_case(
        tb,
        "consistent_hash".as_bytes(),
    ) || eq_ignore_ascii_case(tb, "ch".as_bytes())
}

fn contains_colon(s: &[u8]) -> (r: bool)
    ensures
        r == spec_contains_colon(s@),
{
    let mut i: usize = 0;
    while i < s.len()
        invariant
            i <= s@.len(),
            forall|j: int| 0 <= j < i ==> s@[j] != 58,
        decreases s@.len() - i,
    {
        if s[i] == 58 {
            return true;
        }
        i += 1;
    }
    false
}

fn valid_backend(b: &Backend) -> (r: bool)
    ensures
        r == spec_valid_backend(*b),
{
    if b.id.as_str().is_empty() {
        return false;
    }
    if b.address.as_str().is_empty() {
        return false;
    }
    if !contains_colon(b.address.as_str().as_bytes()) {
        return false;
    }
    if b.weight == 0 {
        return false;
    }
    let hc = &b.health_check;
    hc.interval >= 1 && hc.timeout_ms >= 1 && hc.failure_threshold >= 1 && hc.success_threshold
        >= 1 && hc.cooldown_ms >= 1
}

fn valid_route(r: &RouteMatch) -> (ok: bool)
    ensures
        ok == spec_valid_route(*r),
{
    let has_host = r.host.is_some();
    let prefix_ok = match &r.path_prefix {
        Some(p) => {
            let pb = p.as_str().as_bytes();
            pb.len() > 0 && pb[0] == 47
        },
        None => true,
    };
    let has_prefix = r.path_prefix.is_some();
    (has_host || has_prefix) && prefix_ok
}

fn valid_upstream(name: &str, u: &Upstream) -> (r: bool)
    ensures
        r == spec_valid_upstream(name@, *u),
{
    if name.is_empty() {
        return false;
    }
    if !valid_route(&u.route) {
        return false;
    }
    if !valid_lb_type(u.load_balancing.lb_type.as_str()) {
        return false;
    }
    if u.backends.len() == 0 {
        return false;
    }
    let mut i: usize = 0;
    while i < u.backends.len()
        invariant
            i <= u.backends@.len(),
            forall|j: int| 0 <= j < i ==> spec_valid_backend(#[trigger] u.backends@[j]),
        decreases u.backends@.len() - i,
    {
        if !valid_backend(&u.backends[i]) {
            return false;
        }
        i += 1;
    }
    true
}

/// Whether a configuration satisfies every rule the proxy relies on.
pub fn validate(config: &Config) -> (r: bool)
    ensures
        r == spec_valid_config(*config),
{
    if config.version != 1 {
        return false;
    }
    if !bytes_eq(config.listen.protocol.as_str().as_bytes(), "http3".as_bytes()) {
        return false;
    }
    if !valid_log_level(config.log.level.as_str()) {
        return false;
    }
    match &config.load_balancing {
        Some(lb) => {
            if !valid_lb_type(lb.lb_type.as_str()) {
                return false;
            }
        },
        None => {},
    }
    if config.listen.address.as_str().is_empty() {
        return false;
    }
    if config.listen.port == 0 || config.listen.port > 65535 {
        return false;
    }
    if config.listen.tls.cert.as_str().is_empty() {
        return false;
    }
    if config.listen.tls.key.as_str().is_empty() {
        return false;
    }
    if config.upstream.len() == 0 {
        return false;
    }
    let mut i: usize = 0;
    while i < config.upstream.len()
        invariant
            i <= config.upstream@.len(),
            forall|j: int|
                0 <= j < i ==> spec_valid_upstream(
                    (#[trigger] config.upstream@[j]).0@,
                    config.upstream@[j].1,
                ),
        decreases config.upstream@.len() - i,
    {
        let entry = &config.upstream[i];
        if !valid_upstream(entry.0.as_str(), &entry.1) {
            return false;
        }
        i += 1;
    }
    true
}

} // verus!