//! Request dispatch: resolving the route, hashing the request key, picking a
//! backend, bridging the request, and scoring what the upstream send came
//! back with — status mapping, health marks and counters.

use vstd::prelude::*;
use vstd::slice::slice_to_vec;

use crate::bridge::{build_h2_request, spec_build_ok, spec_final_headers, spec_uri_bytes,
    view_headers, H2Request};
use crate::config::RouteMatch;
use crate::envelope::RequestEnvelope;
use crate::health::{sat_add_u64, spec_healthy_indices, BackendPool, BackendState,
    HealthTransition};
use crate::lb::LoadBalancing;
use crate::metrics::Metrics;
use crate::response::{build_h3_response_headers, build_simple_response_headers,
    spec_h3_response_headers, status_pseudo_bytes, content_type_bytes, text_plain_bytes,
    view_resp_headers};
use crate::util::{bytes_eq, is_prefix_of, spec_u64_dec, str_bytes};

verus! {

/// One upstream: its name, route constraint, selection strategy and pool.
pub struct UpstreamState {
    pub name: String,
    pub route: RouteMatch,
    pub lb: LoadBalancing,
    pub pool: BackendPool,
}

/// The authority of the envelope, as the route host to match.
pub open spec fn spec_env_host(req: RequestEnvelope) -> Option<Seq<char>> {
    match req.authority {
        Some(a) => Some(a@),
        None => None,
    }
}

/// A request the proxy answers 400 without routing: empty method or path.
pub open spec fn spec_req_invalid(req: RequestEnvelope) -> bool {
    req.method@.len() == 0 || req.path@.len() == 0
}

/// The key hashed for backend selection: the authority when present, else a
/// non-empty path, else the method.
pub open spec fn spec_hash_key(req: RequestEnvelope) -> Seq<char> {
    match req.authority {
        Some(a) => a@,
        None => if req.path@.len() > 0 {
            req.path@
        } else {
            req.method@
        },
    }
}

/// Compute the hash key of a request.
pub fn request_hash_key(req: &RequestEnvelope) -> (r: String)
    ensures
        r@ == spec_hash_key(*req),
{
    match &req.authority {
        Some(a) => a.clone(),
        None => {
            if !req.path.as_str().is_empty() {
                req.path.clone()
            } else {
                req.method.clone()
            }
        },
    }
}

/// How well an upstream matches: `None` when its host or prefix rules it
/// out, otherwise the matched prefix length (zero without a prefix rule).
pub open spec fn spec_upstream_match(
    u: UpstreamState,
    path: Seq<char>,
    host: Option<Seq<char>>,
) -> Option<nat> {
    let host_ok = match (u.route.host, host) {
        (Some(rh), Some(h)) => str_bytes(rh@) == str_bytes(h),
        (None, _) => true,
        (Some(_), None) => false,
    };
    if !host_ok {
        None
    } else {
        match u.route.path_prefix {
            Some(p) => if is_prefix_of(str_bytes(p@), str_bytes(path)) {
                Some(str_bytes(p@).len())
            } else {
                None
            },
            None => Some(0nat),
        }
    }
}

/// The routed upstream: among the matching upstreams, the one with the
/// longest matched prefix, the earliest winning ties.
pub open spec fn spec_find_upstream(
    us: Seq<UpstreamState>,
    path: Seq<char>,
    host: Option<Seq<char>>,
) -> Option<int>
    decreases us.len(),
{
    if us.len() == 0 {
        None
    } else {
        let pre = spec_find_upstream(us.drop_last(), path, host);
        match spec_upstream_match(us.last(), path, host) {
            None => pre,
            Some(mlen) => match pre {
                None => Some(us.len() - 1),
                Some(b) => if mlen > spec_upstream_match(us[b], path, host)->0 {
                    Some(us.len() - 1)
                } else {
                    pre
                },
            },
        }
    }
}

/// A routed index is in range and matches.
pub proof fn lemma_find_upstream_in_range(
    us: Seq<UpstreamState>,
    path: Seq<char>,
    host: Option<Seq<char>>,
)
    ensures
        spec_find_upstream(us, path, host) matches Some(i) ==> 0 <= i < us.len()
            && spec_upstream_match(us[i], path, host) is Some,
    decreases us.len(),
{
    if us.len() > 0 {
        lemma_find_upstream_in_range(us.drop_last(), path, host);
        if spec_find_upstream(us, path, host) is Some {
            let i = spec_find_upstream(us, path, host)->0;
            if i < us.len() - 1 {
                assert(us.drop_last()[i] == us[i]);
            }
        }
    }
}

fn upstream_match_len(u: &UpstreamState, path: &str, host: Option<&str>) -> (r: Option<usize>)
    ensures
        r matches Some(l) ==> spec_upstream_match(
            *u,
            path@,
            match host {
                Some(h) => Some(h@),
                None => None,
            },
        ) == Some(l as nat),
        r is None ==> spec_upstream_match(
            *u,
            path@,
            match host {
                Some(h) => Some(h@),
                None => None,
            },
        ) is None,
{
    let host_ok = match (&u.route.host, host) {
        (Some(rh), Some(h)) => bytes_eq(rh.as_str().as_bytes(), h.as_bytes()),
        (None, _) => true,
        (Some(_), None) => false,
    };
    if !host_ok {
        return None;
    }
    match &u.route.path_prefix {
        Some(p) => {
            let pb = p.as_str().as_bytes();
            if crate::util::bytes_starts_with(path.as_bytes(), pb) {
                Some(pb.len())
            } else {
                None
            }
        },
        None => Some(0),
    }
}

/// Resolve the upstream for a path and host: the longest matching prefix
/// wins, the earliest upstream breaking ties.
pub fn find_upstream_for_request(
    upstreams: &Vec<UpstreamState>,
    path: &str,
    host: Option<&str>,
) -> (r: Option<usize>)
    ensures
        r matches Some(i) ==> i < upstreams@.len() && spec_find_upstream(
            upstreams@,
            path@,
            match host {
                Some(h) => Some(h@),
                None => None,
            },
        ) == Some(i as int),
        r is None ==> spec_find_upstream(
            upstreams@,
            path@,
            match host {
                Some(h) => Some(h@),
                None => None,
            },
        ) is None,
{
    let ghost hostv: Option<Seq<char>> = match host {
        Some(h) => Some(h@),
        None => None,
    };
    let mut best: Option<usize> = None;
    let mut best_len: usize = 0;
    let mut i: usize = 0;
    proof {
        assert(upstreams@.subrange(0, 0) =~= Seq::<UpstreamState>::empty());
    }
    while i < upstreams.len()
        invariant
            i <= upstreams@.len(),
            hostv == (match host {
                Some(h) => Some(h@),
                None => None,
            }),
            best matches Some(b) ==> b < i && spec_find_upstream(
                upstreams@.subrange(0, i as int),
                path@,
                hostv,
            ) == Some(b as int) && spec_upstream_match(upstreams@[b as int], path@, hostv) == Some(
                best_len as nat,
            ),
            best is None ==> spec_find_upstream(upstreams@.subrange(0, i as int), path@, hostv)
                is None,
        decreases upstreams@.len() - i,
    {
        let m = upstream_match_len(&upstreams[i], path, host);
        proof {
            assert(upstreams@.subrange(0, i + 1).drop_last() =~= upstreams@.subrange(0, i as int));
            assert(upstreams@.subrange(0, i + 1).last() == upstreams@[i as int]);
        }
        match m {
            Some(l) => {
                match best {
                    None => {
                        best = Some(i);
                        best_len = l;
                    },
                    Some(_) => {
                        if l > best_len {
                            best = Some(i);
                            best_len = l;
                        }
                    },
                }
            },
            None => {},
        }
        i += 1;
    }
    proof {
        assert(upstreams@.subrange(0, upstreams@.len() as int) =~= upstreams@);
    }
    best
}

/// What the listener should do with a finished request: answer it directly
/// with a proxy-generated response, or send a bridged request to the chosen
/// backend.
pub enum DispatchPlan {
    Respond { status: u16, body: Vec<u8> },
    Forward { upstream: usize, backend: usize, address: String, request: H2Request },
}

/// What the upstream send came back with: a response, a wall-clock timeout,
/// or a transport failure.
pub enum UpstreamOutcome {
    Response { status: u16, headers: Vec<(Vec<u8>, Vec<u8>)>, body: Vec<u8> },
    Timeout,
    Transport,
}

/// The response to write on the originating HTTP/3 stream.
pub struct H3Response {
    pub headers: Vec<(Vec<u8>, Vec<u8>)>,
    pub body: Vec<u8>,
}

/// The counters after scoring one upstream outcome: responses count as
/// successes, timeouts and transport failures as failures with their own
/// cause counter.
pub open spec fn spec_complete_metrics(m: Metrics, outcome: UpstreamOutcome) -> Metrics {
    match outcome {
        UpstreamOutcome::Response { .. } => Metrics {
            requests_success: sat_add_u64(m.requests_success, 1),
            ..m
        },
        UpstreamOutcome::Timeout => Metrics {
            requests_failure: sat_add_u64(m.requests_failure, 1),
            backend_timeouts: sat_add_u64(m.backend_timeouts, 1),
            ..m
        },
        UpstreamOutcome::Transport => Metrics {
            requests_failure: sat_add_u64(m.requests_failure, 1),
            backend_errors: sat_add_u64(m.backend_errors, 1),
            ..m
        },
    }
}

/// For every completed request exactly one of the success and failure
/// counters advances, the total stands, and the timeout and backend-error
/// counters advance only beside the failure counter — they count disjoint
/// subsets of the failures.
pub proof fn lemma_metrics_exactly_one_outcome(m: Metrics, outcome: UpstreamOutcome)
    ensures
        outcome is Response ==> spec_complete_metrics(m, outcome).requests_failure
            == m.requests_failure && spec_complete_metrics(m, outcome).requests_success
            == sat_add_u64(m.requests_success, 1),
        !(outcome is Response) ==> spec_complete_metrics(m, outcome).requests_failure
            == sat_add_u64(m.requests_failure, 1) && spec_complete_metrics(
            m,
            outcome,
        ).requests_success == m.requests_success,
        spec_complete_metrics(m, outcome).requests_total == m.requests_total,
        spec_complete_metrics(m, outcome).backend_timeouts != m.backend_timeouts ==> outcome
            is Timeout && spec_complete_metrics(m, outcome).backend_errors == m.backend_errors,
        spec_complete_metrics(m, outcome).backend_errors != m.backend_errors ==> outcome
            is Transport && spec_complete_metrics(m, outcome).backend_timeouts
            == m.backend_timeouts,
{
}

/// A bridged forward: the plan names a healthy backend of the routed
/// upstream `ui`, carries exactly the request the bridge builds for that
/// backend's address, and nothing has been marked or counted yet.
pub open spec fn spec_plan_forwarded(
    us0: Seq<UpstreamState>,
    us1: Seq<UpstreamState>,
    m0: Metrics,
    m1: Metrics,
    req: RequestEnvelope,
    ui: int,
    plan: DispatchPlan,
    transition: Option<HealthTransition>,
) -> bool {
    plan matches DispatchPlan::Forward { upstream, backend, address, request } && upstream == ui
        && backend < us0[ui].pool.backends@.len() && us0[ui].pool.backends@[
        backend as int
    ].health_state is Healthy && address@ == us0[ui].pool.backends@[
        backend as int
    ].backend.address@ && spec_build_ok(
        address@,
        req.method@,
        req.path@,
        view_headers(req.headers@),
    ) && request.method@ == str_bytes(req.method@) && request.uri@ == spec_uri_bytes(
        address@,
        req.path@,
    ) && view_headers(request.headers@) == spec_final_headers(
        address@,
        view_headers(req.headers@),
        req.body@,
    ) && request.body@ == req.body@ && us1[ui].pool == us0[ui].pool && m1 == m0
        && transition is None
}

/// A bridge failure: some healthy backend of the routed upstream `ui` was
/// picked, its address refused the bridge, that backend is marked down with
/// the crossing reported, the failure counter moves, and the answer is 400.
pub open spec fn spec_plan_bridge_failed(
    us0: Seq<UpstreamState>,
    us1: Seq<UpstreamState>,
    m0: Metrics,
    m1: Metrics,
    req: RequestEnvelope,
    now_ms: u64,
    ui: int,
    plan: DispatchPlan,
    transition: Option<HealthTransition>,
) -> bool {
    plan matches DispatchPlan::Respond { status, body } && status == 400 && body@ == str_bytes(
        "invalid request\n"@,
    ) && m1 == (Metrics { requests_failure: sat_add_u64(m0.requests_failure, 1), ..m0 }) && exists|
        b: int,
    |
        0 <= b < us0[ui].pool.backends@.len() && (#[trigger] us0[ui].pool.backends@[
            b
        ]).health_state is Healthy && !spec_build_ok(
            us0[ui].pool.backends@[b].backend.address@,
            req.method@,
            req.path@,
            view_headers(req.headers@),
        ) && us1[ui].pool.backends@ == us0[ui].pool.backends@.update(
            b,
            BackendState::spec_failure_state(us0[ui].pool.backends@[b], now_ms),
        ) && transition == BackendState::spec_failure_transition(
            us0[ui].pool.backends@[b],
            now_ms,
        )
}

/// Everything `plan_request` promises, over the upstream and counter states
/// before (`us0`, `m0`) and after (`us1`, `m1`) the call: which branch of the
/// dispatch answered, what it answered, and exactly what moved.
pub open spec fn spec_plan_post(
    us0: Seq<UpstreamState>,
    us1: Seq<UpstreamState>,
    m0: Metrics,
    m1: Metrics,
    req: RequestEnvelope,
    now_ms: u64,
    plan: DispatchPlan,
    transition: Option<HealthTransition>,
) -> bool {
    &&& (forall|j: int| 0 <= j < us1.len() ==> (#[trigger] us1[j]).lb.wf())
    &&& us1.len() == us0.len()
    &&& (forall|j: int|
        0 <= j < us1.len() ==> (#[trigger] us1[j]).name == us0[j].name && us1[j].route
            == us0[j].route)
    // 400: empty method or path, nothing touched
    &&& (spec_req_invalid(req) ==> (plan matches DispatchPlan::Respond { status, body } && status
        == 400 && body@ == str_bytes("invalid request\n"@) && us1 == us0 && m1 == m0
        && transition is None))
    // 500: no route matches
    &&& (!spec_req_invalid(req) && spec_find_upstream(us0, req.path@, spec_env_host(req)) is None
        ==> (plan matches DispatchPlan::Respond { status, body } && status == 500 && body@
        == str_bytes("no matching route\n"@) && us1 == us0 && m1 == m0 && transition is None))
    // routed: everything else happens inside the routed upstream
    &&& (spec_find_upstream(us0, req.path@, spec_env_host(req)) matches Some(ui) ==> (
    !spec_req_invalid(req) ==> (forall|j: int|
        0 <= j < us0.len() && j != ui ==> us1[j] == us0[j]) && (us1[ui].pool.backends@.len()
        == us0[ui].pool.backends@.len())))
    // 503: the routed upstream has no backends at all
    &&& (spec_find_upstream(us0, req.path@, spec_env_host(req)) matches Some(ui) ==> (
    !spec_req_invalid(req) && us0[ui].pool.backends@.len() == 0 ==> (
    plan matches DispatchPlan::Respond { status, body } && status == 503 && body@ == str_bytes(
        "no servers configured for upstream\n"@,
    ) && us1 == us0 && m1 == m0)))
    // 503: no healthy backend to pick
    &&& (spec_find_upstream(us0, req.path@, spec_env_host(req)) matches Some(ui) ==> (
    !spec_req_invalid(req) && us0[ui].pool.backends@.len() > 0 && spec_healthy_indices(
        us0[ui].pool.backends@,
    ).len() == 0 ==> (plan matches DispatchPlan::Respond { status, body } && status == 503
        && body@ == str_bytes("no healthy servers\n"@) && us1[ui].pool == us0[ui].pool && m1
        == m0)))
    // a healthy pick leads to a forward or to a 400 on a bridge failure
    &&& (spec_find_upstream(us0, req.path@, spec_env_host(req)) matches Some(ui) ==> (
    !spec_req_invalid(req) && spec_healthy_indices(us0[ui].pool.backends@).len() > 0
        ==> spec_plan_forwarded(us0, us1, m0, m1, req, ui, plan, transition)
        || spec_plan_bridge_failed(us0, us1, m0, m1, req, now_ms, ui, plan, transition)))
}

/// Decide what to do with a finished request: reject an empty method or
/// path with 400; resolve the route, else 500; demand a non-empty pool,
/// else 503; pick a healthy backend, else 503; bridge the request, a bridge
/// failure marking the backend and answering 400. On `Forward` nothing has
/// been marked or counted yet. The returned transition reports a health
/// crossing caused by a bridge failure.
pub fn plan_request(
    upstreams: &mut Vec<UpstreamState>,
    metrics: &mut Metrics,
    req: &RequestEnvelope,
    now_ms: u64,
) -> (r: (DispatchPlan, Option<HealthTransition>))
    requires
        forall|j: int| 0 <= j < old(upstreams)@.len() ==> (#[trigger] old(upstreams)@[j]).lb.wf(),
    ensures
        spec_plan_post(
            old(upstreams)@,
            final(upstreams)@,
            *old(metrics),
            *final(metrics),
            *req,
            now_ms,
            r.0,
            r.1,
        ),
{
    if req.method.as_str().is_empty() || req.path.as_str().is_empty() {
        return (
            DispatchPlan::Respond {
                status: 400,
                body: slice_to_vec("invalid request\n".as_bytes()),
            },
            None,
        );
    }
    let host: Option<&str> = match &req.authority {
        Some(a) => Some(a.as_str()),
        None => None,
    };
    let found = find_upstream_for_request(upstreams, req.path.as_str(), host);
    let ui = match found {
        Some(ui) => ui,
        None => {
            return (
                DispatchPlan::Respond {
                    status: 500,
                    body: slice_to_vec("no matching route\n".as_bytes()),
                },
                None,
            );
        },
    };
    if upstreams[ui].pool.is_empty() {
        return (
            DispatchPlan::Respond {
                status: 503,
                body: slice_to_vec("no servers configured for upstream\n".as_bytes()),
            },
            None,
        );
    }
    let key = request_hash_key(req);
    let u = &mut upstreams[ui];
    let picked = u.lb.pick(key.as_str(), &u.pool);
    let backend = match picked {
        Some(b) => b,
        None => {
            return (
                DispatchPlan::Respond {
                    status: 503,
                    body: slice_to_vec("no healthy servers\n".as_bytes()),
                },
                None,
            );
        },
    };
    let address = match u.pool.address(backend) {
        Some(a) => a.to_owned(),
        None => {
            return (
                DispatchPlan::Respond {
                    status: 503,
                    body: slice_to_vec("invalid server\n".as_bytes()),
                },
                None,
            );
        },
    };
    match build_h2_request(
        address.as_str(),
        req.method.as_str(),
        req.path.as_str(),
        req.headers.as_slice(),
        req.body.as_slice(),
    ) {
        Ok(request) => (
            DispatchPlan::Forward { upstream: ui, backend, address, request },
            None,
        ),
        Err(_) => {
            let transition = u.pool.mark_failure(backend, now_ms);
            metrics.inc_failure();
            (
                DispatchPlan::Respond {
                    status: 400,
                    body: slice_to_vec("invalid request\n".as_bytes()),
                },
                transition,
            )
        },
    }
}

/// Everything `complete_request` promises, over the upstream and counter
/// states before (`us0`, `m0`) and after (`us1`, `m1`) the call: the counters
/// move as `spec_complete_metrics` says, the scored backend is marked up or
/// down, the crossing is reported, and the answer is the forwarded response
/// or the proxy's own 503/502.
pub open spec fn spec_complete_post(
    us0: Seq<UpstreamState>,
    us1: Seq<UpstreamState>,
    m0: Metrics,
    m1: Metrics,
    upstream: usize,
    backend: usize,
    outcome: UpstreamOutcome,
    now_ms: u64,
    resp: H3Response,
    transition: Option<HealthTransition>,
) -> bool {
    &&& us1.len() == us0.len()
    &&& (forall|j: int| 0 <= j < us0.len() && j != upstream ==> us1[j] == us0[j])
    &&& upstream < us0.len()
    &&& us1[upstream as int].name == us0[upstream as int].name
    &&& us1[upstream as int].route == us0[upstream as int].route
    &&& us1[upstream as int].lb == us0[upstream as int].lb
    &&& m1 == spec_complete_metrics(m0, outcome)
    &&& (backend < us0[upstream as int].pool.backends@.len() ==> ({
        let pool0 = us0[upstream as int].pool.backends@;
        let marked = match outcome {
            UpstreamOutcome::Response { status, .. } => if 500 <= status <= 599 {
                BackendState::spec_failure_state(pool0[backend as int], now_ms)
            } else {
                BackendState::spec_success_state(pool0[backend as int], now_ms)
            },
            _ => BackendState::spec_failure_state(pool0[backend as int], now_ms),
        };
        let trans = match outcome {
            UpstreamOutcome::Response { status, .. } => if 500 <= status <= 599 {
                BackendState::spec_failure_transition(pool0[backend as int], now_ms)
            } else {
                BackendState::spec_success_transition(pool0[backend as int], now_ms)
            },
            _ => BackendState::spec_failure_transition(pool0[backend as int], now_ms),
        };
        us1[upstream as int].pool.backends@ == pool0.update(backend as int, marked) && transition
            == trans
    }))
    &&& (backend >= us0[upstream as int].pool.backends@.len() ==> us1[upstream as int].pool
        == us0[upstream as int].pool && transition is None)
    &&& (outcome matches UpstreamOutcome::Response { status, headers, body }
        ==> view_resp_headers(resp.headers@) == spec_h3_response_headers(
        status,
        view_resp_headers(headers@),
        body@.len() as u64,
    ) && resp.body@ == body@)
    &&& (outcome is Timeout ==> view_resp_headers(resp.headers@) == seq![
        (status_pseudo_bytes(), spec_u64_dec(503)),
        (content_type_bytes(), text_plain_bytes()),
        (
            crate::bridge::content_length_bytes(),
            spec_u64_dec(str_bytes("upstream timeout\n"@).len() as u64),
        ),
    ] && resp.body@ == str_bytes("upstream timeout\n"@))
    &&& (outcome is Transport ==> view_resp_headers(resp.headers@) == seq![
        (status_pseudo_bytes(), spec_u64_dec(502)),
        (content_type_bytes(), text_plain_bytes()),
        (
            crate::bridge::content_length_bytes(),
            spec_u64_dec(str_bytes("upstream error\n"@).len() as u64),
        ),
    ] && resp.body@ == str_bytes("upstream error\n"@))
}

/// Score the outcome of a forwarded request and shape the HTTP/3 answer:
/// a response with status below 500 marks the backend up and is forwarded;
/// a 5xx marks it down and is still forwarded; a timeout answers
/// 503 and a transport failure 502, both marking the backend down. The
/// counters move as `spec_complete_metrics` says; the returned transition
/// reports a health crossing, for the caller to log.
pub fn complete_request(
    upstreams: &mut Vec<UpstreamState>,
    metrics: &mut Metrics,
    upstream: usize,
    backend: usize,
    outcome: UpstreamOutcome,
    now_ms: u64,
) -> (r: (H3Response, Option<HealthTransition>))
    requires
        upstream < old(upstreams)@.len(),
    ensures
        spec_complete_post(
            old(upstreams)@,
            final(upstreams)@,
            *old(metrics),
            *final(metrics),
            upstream,
            backend,
            outcome,
            now_ms,
            r.0,
            r.1,
        ),
{
    let u = &mut upstreams[upstream];
    match outcome {
        UpstreamOutcome::Response { status, headers, body } => {
            let transition = if 500 <= status && status <= 599 {
                u.pool.mark_failure(backend, now_ms)
            } else {
                u.pool.mark_success(backend, now_ms)
            };
            metrics.inc_success();
            let resp_headers = build_h3_response_headers(
                status,
                headers.as_slice(),
                body.len() as u64,
            );
            (H3Response { headers: resp_headers, body }, transition)
        },
        UpstreamOutcome::Timeout => {
            let transition = u.pool.mark_failure(backend, now_ms);
            metrics.inc_failure();
            metrics.inc_timeout();
            let body = slice_to_vec("upstream timeout\n".as_bytes());
            let resp_headers = build_simple_response_headers(503, body.len() as u64);
            (H3Response { headers: resp_headers, body }, transition)
        },
        UpstreamOutcome::Transport => {
            let transition = u.pool.mark_failure(backend, now_ms);
            metrics.inc_failure();
            metrics.inc_backend_error();
            let body = slice_to_vec("upstream error\n".as_bytes());
            let resp_headers = build_simple_response_headers(502, body.len() as u64);
            (H3Response { headers: resp_headers, body }, transition)
        },
    }
}

} // verus!