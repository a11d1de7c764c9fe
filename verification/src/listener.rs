//! The QUIC listener's verified state: the transport parameters it is
//! configured with, the connection table keyed by the server-chosen source
//! connection id, packet routing over that table, idle-timeout and drain
//! decisions, per-connection HTTP/3 stream events, request dispatch, and the
//! health-check decisions. The sockets, the QUIC transport and the clock stay
//! with the caller, which feeds packets, events and times in and carries the
//! decided actions out.

use vstd::prelude::*;

use crate::bridge::{build_h2_request, BridgeError, H2Request};
use crate::config::Config;
use crate::dispatch::{complete_request, plan_request, DispatchPlan, H3Response, UpstreamState,
    UpstreamOutcome};
use crate::envelope::{RequestEnvelope, StreamTable};
use crate::h2pool::H2Pool;
use crate::health::{sat_add_u64, BackendPool, HealthTransition};
use crate::lb::LoadBalancing;
use crate::metrics::Metrics;
use crate::util::{is_prefix_of, str_bytes};

verus! {

/// Wall-clock budget for one upstream send and for collecting its body.
pub const BACKEND_TIMEOUT_MS: u64 = 2000;

/// Concurrent in-flight bound per backend.
pub const MAX_INFLIGHT_PER_BACKEND: usize = 64;

/// How long draining waits before connections are closed by force.
pub const DRAIN_TIMEOUT_MS: u64 = 5000;

/// Errors the proxy distinguishes while serving a request.
pub enum ProxyError {
    Bridge(BridgeError),
    Transport(String),
    Timeout,
    Tls(String),
}

impl ProxyError {
    /// Short description for logs.
    pub fn message(&self) -> (r: String)
        ensures
            *self is Timeout ==> r@ == "backend timeout"@,
            *self matches ProxyError::Transport(m) ==> r@ == "transport error: "@ + m@,
            *self matches ProxyError::Tls(m) ==> r@ == "tls error: "@ + m@,
            *self matches ProxyError::Bridge(e) ==> ((e is InvalidMethod ==> r@ == "bridge error: "@
                + "invalid method"@) && (e is InvalidUri ==> r@ == "bridge error: "@
                + "invalid uri"@) && (e is InvalidHeader ==> r@ == "bridge error: "@
                + "invalid header"@)),
    {
        match self {
            ProxyError::Bridge(e) => {
                let mut s = String::from_str("bridge error: ");
                s.append(e.message());
                s
            },
            ProxyError::Transport(m) => {
                let mut s = String::from_str("transport error: ");
                s.append(m.as_str());
                s
            },
            ProxyError::Timeout => String::from_str("backend timeout"),
            ProxyError::Tls(m) => {
                let mut s = String::from_str("tls error: ");
                s.append(m.as_str());
                s
            },
        }
    }
}

/// The transport parameters the listener asks of its QUIC layer: `h3` over
/// a short idle timeout, small datagrams, large flow-control windows, no
/// active migration, no peer verification, and — deliberately — no early
/// data, because nothing here validates replay tokens.
pub struct QuicSettings {
    pub max_idle_timeout_ms: u64,
    pub max_udp_payload_size: u64,
    pub initial_max_data: u64,
    pub initial_max_stream_data_bidi_local: u64,
    pub initial_max_stream_data_bidi_remote: u64,
    pub initial_max_stream_data_uni: u64,
    pub initial_max_streams_bidi: u64,
    pub initial_max_streams_uni: u64,
    pub disable_active_migration: bool,
    pub verify_peer: bool,
    pub enable_early_data: bool,
    pub recv_timeout_ms: u64,
}

impl QuicSettings {
    pub fn new() -> (s: Self)
        ensures
            s.max_idle_timeout_ms == 5000,
            s.max_udp_payload_size == 1350,
            s.initial_max_data == 10_000_000,
            s.initial_max_stream_data_bidi_local == 1_000_000,
            s.initial_max_stream_data_bidi_remote == 1_000_000,
            s.initial_max_stream_data_uni == 1_000_000,
            s.initial_max_streams_bidi == 100,
            s.initial_max_streams_uni == 100,
            s.disable_active_migration,
            !s.verify_peer,
            !s.enable_early_data,
            s.recv_timeout_ms == 50,
    {
        QuicSettings {
            max_idle_timeout_ms: 5000,
            max_udp_payload_size: 1350,
            initial_max_data: 10_000_000,
            initial_max_stream_data_bidi_local: 1_000_000,
            initial_max_stream_data_bidi_remote: 1_000_000,
            initial_max_stream_data_uni: 1_000_000,
            initial_max_streams_bidi: 100,
            initial_max_streams_uni: 100,
            disable_active_migration: true,
            verify_peer: false,
            enable_early_data: false,
            recv_timeout_ms: 50,
        }
    }
}

/// A peer's UDP address as plain values: the IP (IPv4 mapped into the low
/// 32 bits) and the port.
#[derive(Clone, Copy, Debug, PartialEq, Eq, Structural)]
pub struct PeerAddr {
    pub ip: u128,
    pub port: u16,
}

/// What kind of QUIC packet arrived, as far as routing cares.
#[derive(Clone, Copy, Debug, PartialEq, Eq, Structural)]
pub enum PacketKind {
    Initial,
    Short,
    VersionNegotiation,
    Other,
}

/// One live connection's verified state. The QUIC transport object itself
/// lives with the caller, at the same position.
pub struct ConnEntry {
    pub scid: Vec<u8>,
    pub peer: PeerAddr,
    pub last_activity_ms: u64,
    pub streams: StreamTable,
    pub h3_started: bool,
}

/// Where an incoming datagram goes.
#[derive(Clone, Copy, Debug, PartialEq, Eq, Structural)]
pub enum PacketDecision {
    /// Answer with a version-negotiation datagram.
    Negotiate,
    /// Feed it to the connection at this table position.
    Existing { index: usize },
    /// Accept a fresh connection for it.
    AcceptNew,
    /// Ignore it.
    Drop,
}

/// First table position whose stored id equals `dcid`.
pub open spec fn spec_find_exact(conns: Seq<ConnEntry>, dcid: Seq<u8>) -> Option<int>
    decreases conns.len(),
{
    if conns.len() == 0 {
        None
    } else if conns.first().scid@ == dcid {
        Some(0int)
    } else {
        match spec_find_exact(conns.drop_first(), dcid) {
            Some(k) => Some(k + 1),
            None => None,
        }
    }
}

/// First table position whose stored id is a prefix of `dcid`.
pub open spec fn spec_find_prefix(conns: Seq<ConnEntry>, dcid: Seq<u8>) -> Option<int>
    decreases conns.len(),
{
    if conns.len() == 0 {
        None
    } else if is_prefix_of(conns.first().scid@, dcid) {
        Some(0int)
    } else {
        match spec_find_prefix(conns.drop_first(), dcid) {
            Some(k) => Some(k + 1),
            None => None,
        }
    }
}

/// First table position whose peer address equals `peer`.
pub open spec fn spec_find_peer(conns: Seq<ConnEntry>, peer: PeerAddr) -> Option<int>
    decreases conns.len(),
{
    if conns.len() == 0 {
        None
    } else if conns.first().peer == peer {
        Some(0int)
    } else {
        match spec_find_peer(conns.drop_first(), peer) {
            Some(k) => Some(k + 1),
            None => None,
        }
    }
}

/// A found position is in range.
pub proof fn lemma_find_positions_in_range(conns: Seq<ConnEntry>, dcid: Seq<u8>, peer: PeerAddr)
    ensures
        spec_find_exact(conns, dcid) matches Some(i) ==> 0 <= i < conns.len() && conns[i].scid@
            == dcid,
        spec_find_prefix(conns, dcid) matches Some(i) ==> 0 <= i < conns.len() && is_prefix_of(
            conns[i].scid@,
            dcid,
        ),
        spec_find_peer(conns, peer) matches Some(i) ==> 0 <= i < conns.len() && conns[i].peer
            == peer,
    decreases conns.len(),
{
    if conns.len() > 0 {
        lemma_find_positions_in_range(conns.drop_first(), dcid, peer);
    }
}

/// Where a datagram of kind `kind` with destination id `dcid` from `peer`
/// goes, given the connection table and the drain flag: a version
/// negotiation is answered; an exact id match wins; a short-header id longer
/// than eight bytes may match a stored id as its prefix; a connection from
/// the same peer is the last resort; otherwise only an `Initial` while not
/// draining opens a connection, and everything else is dropped.
pub open spec fn spec_classify(
    conns: Seq<ConnEntry>,
    kind: PacketKind,
    dcid: Seq<u8>,
    peer: PeerAddr,
    draining: bool,
) -> PacketDecision {
    if kind is VersionNegotiation {
        PacketDecision::Negotiate
    } else {
        match spec_find_exact(conns, dcid) {
            Some(i) => PacketDecision::Existing { index: i as usize },
            None => {
            let by_prefix = if kind is Short && dcid.len() > 8 {
                spec_find_prefix(conns, dcid)
            } else {
                None
            };
            match by_prefix {
                Some(i) => PacketDecision::Existing { index: i as usize },
                None => match spec_find_peer(conns, peer) {
                    Some(i) => PacketDecision::Existing { index: i as usize },
                    None => if kind is Initial && !draining {
                        PacketDecision::AcceptNew
                    } else {
                        PacketDecision::Drop
                    },
                },
            }
            },
        }
    }
}

/// While draining, no packet opens a connection: whatever arrives from an
/// unknown peer is answered (version negotiation), fed to a connection the
/// table already holds, or dropped.
pub proof fn lemma_draining_accepts_nothing(
    conns: Seq<ConnEntry>,
    kind: PacketKind,
    dcid: Seq<u8>,
    peer: PeerAddr,
)
    ensures
        !(spec_classify(conns, kind, dcid, peer, true) is AcceptNew),
{
}

/// Whether a connection's idle timer has fired: `timeout_ms` after the last
/// activity has passed.
pub open spec fn spec_timeout_due(last_activity_ms: u64, timeout_ms: u64, now_ms: u64) -> bool {
    now_ms >= sat_add_u64(last_activity_ms, timeout_ms)
}

use crate::config::Upstream;

/// Addresses of every backend of every upstream, in declaration order.
pub open spec fn spec_backend_addresses(us: Seq<(String, Upstream)>) -> Seq<String>
    decreases us.len(),
{
    if us.len() == 0 {
        Seq::empty()
    } else {
        spec_backend_addresses(us.drop_last()) + us.last().1.backends@.map_values(
            |b: crate::config::Backend| b.address,
        )
    }
}

/// Collect the address of every configured backend.
pub fn backend_addresses(config: &Config) -> (r: Vec<String>)
    ensures
        r@ == spec_backend_addresses(config.upstream@),
{
    let mut r: Vec<String> = Vec::new();
    let mut i: usize = 0;
    proof {
        assert(config.upstream@.subrange(0, 0) =~= Seq::<(String, Upstream)>::empty());
    }
    while i < config.upstream.len()
        invariant
            i <= config.upstream@.len(),
            r@ == spec_backend_addresses(config.upstream@.subrange(0, i as int)),
        decreases config.upstream@.len() - i,
    {
        let backends = &config.upstream[i].1.backends;
        let ghost r_mid = r@;
        let mut j: usize = 0;
        while j < backends.len()
            invariant
                j <= backends@.len(),
                backends == config.upstream@[i as int].1.backends,
                r@ == r_mid + backends@.subrange(0, j as int).map_values(
                    |b: crate::config::Backend| b.address,
                ),
            decreases backends@.len() - j,
        {
            r.push(backends[j].address.clone());
            j += 1;
            proof {
                assert(r@ =~= r_mid + backends@.subrange(0, j as int).map_values(
                    |b: crate::config::Backend| b.address,
                ));
            }
        }
        i += 1;
        proof {
            assert(backends@.subrange(0, backends@.len() as int) =~= backends@);
            assert(config.upstream@.subrange(0, i as int).drop_last() =~= config.upstream@.subrange(
                0,
                i - 1,
            ));
            assert(config.upstream@.subrange(0, i as int).last() == config.upstream@[i - 1]);
        }
    }
    proof {
        assert(config.upstream@.subrange(0, config.upstream@.len() as int) =~= config.upstream@);
    }
    r
}

/// The QUIC listener's verified state.
pub struct QUICListener {
    pub settings: QuicSettings,
    pub upstreams: Vec<UpstreamState>,
    pub h2_pool: H2Pool,
    pub metrics: Metrics,
    pub draining: bool,
    pub drain_start_ms: Option<u64>,
    pub connections: Vec<ConnEntry>,
}

impl QUICListener {
    /// Validity carried through every operation: the strategies are
    /// well-formed and so is the pool model.
    pub open spec fn wf(self) -> bool {
        &&& forall|j: int|
            0 <= j < self.upstreams@.len() ==> (#[trigger] self.upstreams@[j]).lb.wf()
        &&& self.h2_pool.wf()
    }

    /// Build the listener state from a configuration: one upstream state per
    /// configured upstream, in order, each with its strategy and a pool of
    /// its backends, all healthy; the shared HTTP/2 pool over every backend
    /// address; fresh counters; not draining; no connections. A strategy
    /// name that parses to nothing fails the construction.
    pub fn new(config: &Config) -> (r: Result<Self, String>)
        ensures
            r matches Ok(l) ==> l.wf() && !l.draining && l.drain_start_ms is None
                && l.connections@.len() == 0 && l.metrics.requests_total == 0
                && l.metrics.requests_success == 0 && l.metrics.requests_failure == 0
                && l.metrics.backend_timeouts == 0 && l.metrics.backend_errors == 0
                && l.upstreams@.len() == config.upstream@.len() && (forall|j: int|
                0 <= j < config.upstream@.len() ==> (#[trigger] l.upstreams@[j]).name
                    == config.upstream@[j].0 && l.upstreams@[j].route == config.upstream@[j].1.route
                    && l.upstreams@[j].pool.backends@.len()
                    == config.upstream@[j].1.backends@.len() && (forall|k: int|
                    0 <= k < config.upstream@[j].1.backends@.len()
                        ==> (#[trigger] l.upstreams@[j].pool.backends@[k])
                        == crate::health::BackendState::spec_new(
                        config.upstream@[j].1.backends@[k],
                    ))) && l.h2_pool.max_inflight == MAX_INFLIGHT_PER_BACKEND,
    {
        let mut upstreams: Vec<UpstreamState> = Vec::new();
        let mut i: usize = 0;
        while i < config.upstream.len()
            invariant
                i <= config.upstream@.len(),
                upstreams@.len() == i,
                forall|j: int|
                    0 <= j < i ==> (#[trigger] upstreams@[j]).lb.wf() && upstreams@[j].name
                        == config.upstream@[j].0 && upstreams@[j].route
                        == config.upstream@[j].1.route && upstreams@[j].pool.backends@.len()
                        == config.upstream@[j].1.backends@.len() && (forall|k: int|
                        0 <= k < config.upstream@[j].1.backends@.len()
                            ==> (#[trigger] upstreams@[j].pool.backends@[k])
                            == crate::health::BackendState::spec_new(
                            config.upstream@[j].1.backends@[k],
                        )),
            decreases config.upstream@.len() - i,
        {
            let entry = &config.upstream[i];
            let lb = match LoadBalancing::from_config(entry.1.load_balancing.lb_type.as_str()) {
                Ok(lb) => lb,
                Err(e) => {
                    return Err(e);
                },
            };
            let mut backends: Vec<crate::config::Backend> = Vec::new();
            let mut k: usize = 0;
            while k < entry.1.backends.len()
                invariant
                    k <= entry.1.backends@.len(),
                    entry == config.upstream@[i as int],
                    i < config.upstream@.len(),
                    backends@.len() == k,
                    forall|l: int|
                        0 <= l < k ==> (#[trigger] backends@[l]) == entry.1.backends@[l],
                decreases entry.1.backends@.len() - k,
            {
                backends.push(entry.1.backends[k].duplicate());
                k += 1;
            }
            proof {
                assert(backends@ =~= config.upstream@[i as int].1.backends@);
            }
            let pool = BackendPool::new(backends);
            let route = crate::config::RouteMatch {
                host: match &entry.1.route.host {
                    Some(h) => Some(h.clone()),
                    None => None,
                },
                path_prefix: match &entry.1.route.path_prefix {
                    Some(p) => Some(p.clone()),
                    None => None,
                },
                method: match &entry.1.route.method {
                    Some(m) => Some(m.clone()),
                    None => None,
                },
            };
            proof {
                assert(route == config.upstream@[i as int].1.route);
            }
            upstreams.push(
                UpstreamState { name: entry.0.clone(), route, lb, pool },
            );
            i += 1;
        }
        let addresses = backend_addresses(config);
        let h2_pool = H2Pool::new(addresses, MAX_INFLIGHT_PER_BACKEND);
        Ok(
            QUICListener {
                settings: QuicSettings::new(),
                upstreams,
                h2_pool,
                metrics: Metrics::new(),
                draining: false,
                drain_start_ms: None,
                connections: Vec::new(),
            },
        )
    }

    /// Begin draining: no new connections from now on. A second call changes
    /// nothing.
    pub fn start_draining(&mut self, now_ms: u64)
        ensures
            final(self).draining,
            old(self).draining ==> *final(self) == *old(self),
            !old(self).draining ==> *final(self) == (QUICListener {
                draining: true,
                drain_start_ms: Some(now_ms),
                ..*old(self)
            }),
    {
        if self.draining {
            return ;
        }
        self.draining = true;
        self.drain_start_ms = Some(now_ms);
    }

    /// Whether the drain has finished: immediately when no connection is
    /// left; otherwise, once the drain deadline has passed, the table is
    /// cleared by force and the drain is complete — the caller closes the
    /// real connections. Before draining it just reports an empty table.
    pub fn drain_complete(&mut self, now_ms: u64) -> (r: bool)
        ensures
            !old(self).draining ==> r == (old(self).connections@.len() == 0) && *final(self)
                == *old(self),
            old(self).draining && old(self).connections@.len() == 0 ==> r && *final(self) == *old(self),
            old(self).draining && old(self).connections@.len() > 0 ==> ((old(self).drain_start_ms matches Some(start) && spec_timeout_due(start, DRAIN_TIMEOUT_MS, now_ms))
                <==> r),
            old(self).draining && old(self).connections@.len() > 0 && r ==> final(self).connections@.len() == 0 && final(self).upstreams == old(self).upstreams && final(self).metrics == old(self).metrics && final(self).draining,
            old(self).draining && old(self).connections@.len() > 0 && !r ==> *final(self) == *old(self),
    {
        if !self.draining {
            return self.connections.is_empty();
        }
        if self.connections.is_empty() {
            return true;
        }
        let expired = match self.drain_start_ms {
            Some(start) => now_ms >= start.saturating_add(DRAIN_TIMEOUT_MS),
            None => false,
        };
        if expired {
            self.close_all();
            return true;
        }
        false
    }

    /// Forget every connection; the caller closes the real ones.
    pub fn close_all(&mut self)
        ensures
            final(self).connections@.len() == 0,
            final(self).upstreams == old(self).upstreams,
            final(self).metrics == old(self).metrics,
            final(self).draining == old(self).draining,
            final(self).drain_start_ms == old(self).drain_start_ms,
            final(self).h2_pool == old(self).h2_pool,
            final(self).settings == old(self).settings,
    {
        self.connections.clear();
    }

    /// Route one incoming datagram over the connection table.
    pub fn classify_packet(&self, kind: PacketKind, dcid: &[u8], peer: PeerAddr) -> (r:
        PacketDecision)
        ensures
            r == spec_classify(self.connections@, kind, dcid@, peer, self.draining),
            r matches PacketDecision::Existing { index } ==> index < self.connections@.len(),
    {
        if kind == PacketKind::VersionNegotiation {
            return PacketDecision::Negotiate;
        }
        proof {
            lemma_find_positions_in_range(self.connections@, dcid@, peer);
        }
        match self.find_exact(dcid) {
            Some(i) => PacketDecision::Existing { index: i },
            None => {
                let by_prefix = if kind == PacketKind::Short && dcid.len() > 8 {
                    self.find_prefix(dcid)
                } else {
                    None
                };
                match by_prefix {
                    Some(i) => PacketDecision::Existing { index: i },
                    None => {
                        match self.find_peer(peer) {
                            Some(i) => PacketDecision::Existing { index: i },
                            None => {
                                if kind == PacketKind::Initial && !self.draining {
                                    PacketDecision::AcceptNew
                                } else {
                                    PacketDecision::Drop
                                }
                            },
                        }
                    },
                }
            },
        }
    }

    fn find_exact(&self, dcid: &[u8]) -> (r: Option<usize>)
        ensures
            r matches Some(i) ==> spec_find_exact(self.connections@, dcid@) == Some(i as int) && i
                < self.connections@.len(),
            r is None ==> spec_find_exact(self.connections@, dcid@) is None,
    {
        let ghost cs = self.connections@;
        let mut i: usize = 0;
        proof {
            assert(cs.skip(0) =~= cs);
        }
        while i < self.connections.len()
            invariant
                i <= cs.len(),
                cs == self.connections@,
                spec_find_exact(cs.skip(i as int), dcid@) matches Some(k) ==> spec_find_exact(
                    cs,
                    dcid@,
                ) == Some(k + i),
                spec_find_exact(cs.skip(i as int), dcid@) is None ==> spec_find_exact(
                    cs,
                    dcid@,
                ) is None,
            decreases cs.len() - i,
        {
            proof {
                assert(cs.skip(i as int).first() == cs[i as int]);
                assert(cs.skip(i as int).drop_first() =~= cs.skip(i as int + 1));
            }
            if crate::util::bytes_eq(self.connections[i].scid.as_slice(), dcid) {
                return Some(i);
            }
            i += 1;
        }
        None
    }

    fn find_prefix(&self, dcid: &[u8]) -> (r: Option<usize>)
        ensures
            r matches Some(i) ==> spec_find_prefix(self.connections@, dcid@) == Some(i as int) && i
                < self.connections@.len(),
            r is None ==> spec_find_prefix(self.connections@, dcid@) is None,
    {
        let ghost cs = self.connections@;
        let mut i: usize = 0;
        proof {
            assert(cs.skip(0) =~= cs);
        }
        while i < self.connections.len()
            invariant
                i <= cs.len(),
                cs == self.connections@,
                spec_find_prefix(cs.skip(i as int), dcid@) matches Some(k) ==> spec_find_prefix(
                    cs,
                    dcid@,
                ) == Some(k + i),
                spec_find_prefix(cs.skip(i as int), dcid@) is None ==> spec_find_prefix(
                    cs,
                    dcid@,
                ) is None,
            decreases cs.len() - i,
        {
            proof {
                assert(cs.skip(i as int).first() == cs[i as int]);
                assert(cs.skip(i as int).drop_first() =~= cs.skip(i as int + 1));
            }
            if crate::util::bytes_starts_with(dcid, self.connections[i].scid.as_slice()) {
                return Some(i);
            }
            i += 1;
        }
        None
    }

    fn find_peer(&self, peer: PeerAddr) -> (r: Option<usize>)
        ensures
            r matches Some(i) ==> spec_find_peer(self.connections@, peer) == Some(i as int) && i
                < self.connections@.len(),
            r is None ==> spec_find_peer(self.connections@, peer) is None,
    {
        let ghost cs = self.connections@;
        let mut i: usize = 0;
        proof {
            assert(cs.skip(0) =~= cs);
        }
        while i < self.connections.len()
            invariant
                i <= cs.len(),
                cs == self.connections@,
                spec_find_peer(cs.skip(i as int), peer) matches Some(k) ==> spec_find_peer(
                    cs,
                    peer,
                ) == Some(k + i),
                spec_find_peer(cs.skip(i as int), peer) is None ==> spec_find_peer(
                    cs,
                    peer,
                ) is None,
            decreases cs.len() - i,
        {
            proof {
                assert(cs.skip(i as int).first() == cs[i as int]);
                assert(cs.skip(i as int).drop_first() =~= cs.skip(i as int + 1));
            }
            if self.connections[i].peer == peer {
                return Some(i);
            }
            i += 1;
        }
        None
    }

    /// Admit a fresh connection under the server-chosen source id.
    pub fn accept_connection(&mut self, scid: Vec<u8>, peer: PeerAddr, now_ms: u64) -> (index:
        usize)
        ensures
            index == old(self).connections@.len(),
            final(self).connections@.len() == old(self).connections@.len() + 1,
            forall|j: int|
                0 <= j < old(self).connections@.len() ==> final(self).connections@[j] == old(self).connections@[j],
            final(self).connections@.last().scid == scid,
            final(self).connections@.last().peer == peer,
            final(self).connections@.last().last_activity_ms == now_ms,
            final(self).connections@.last().streams.entries@.len() == 0,
            !final(self).connections@.last().h3_started,
            final(self).upstreams == old(self).upstreams,
            final(self).metrics == old(self).metrics,
            final(self).draining == old(self).draining,
            final(self).drain_start_ms == old(self).drain_start_ms,
            final(self).h2_pool == old(self).h2_pool,
            final(self).settings == old(self).settings,
    {
        let index = self.connections.len();
        self.connections.push(
            ConnEntry {
                scid,
                peer,
                last_activity_ms: now_ms,
                streams: StreamTable::new(),
                h3_started: false,
            },
        );
        index
    }

    /// Note activity on a connection: the peer may have moved, the clock has.
    pub fn touch_connection(&mut self, index: usize, peer: PeerAddr, now_ms: u64)
        requires
            index < old(self).connections@.len(),
        ensures
            final(self).connections@.len() == old(self).connections@.len(),
            forall|j: int|
                0 <= j < old(self).connections@.len() && j != index ==> final(self).connections@[j]
                    == old(self).connections@[j],
            final(self).connections@[index as int].peer == peer,
            final(self).connections@[index as int].last_activity_ms == now_ms,
            final(self).connections@[index as int].scid == old(self).connections@[
                index as int
            ].scid,
            final(self).connections@[index as int].streams == old(self).connections@[
                index as int
            ].streams,
            final(self).connections@[index as int].h3_started == old(self).connections@[
                index as int
            ].h3_started,
            final(self).upstreams == old(self).upstreams,
            final(self).metrics == old(self).metrics,
            final(self).draining == old(self).draining,
            final(self).drain_start_ms == old(self).drain_start_ms,
            final(self).h2_pool == old(self).h2_pool,
            final(self).settings == old(self).settings,
    {
        let c = &mut self.connections[index];
        c.peer = peer;
        c.last_activity_ms = now_ms;
    }

    /// Mark that the HTTP/3 layer of a connection now exists.
    pub fn mark_h3_started(&mut self, index: usize)
        requires
            index < old(self).connections@.len(),
        ensures
            final(self).connections@.len() == old(self).connections@.len(),
            forall|j: int|
                0 <= j < old(self).connections@.len() && j != index ==> final(self).connections@[j]
                    == old(self).connections@[j],
            final(self).connections@[index as int].h3_started,
            final(self).connections@[index as int].scid == old(self).connections@[
                index as int
            ].scid,
            final(self).connections@[index as int].peer == old(self).connections@[index as int].peer,
            final(self).connections@[index as int].last_activity_ms == old(self).connections@[
                index as int
            ].last_activity_ms,
            final(self).connections@[index as int].streams == old(self).connections@[
                index as int
            ].streams,
            final(self).upstreams == old(self).upstreams,
            final(self).metrics == old(self).metrics,
    {
        let c = &mut self.connections[index];
        c.h3_started = true;
    }

    /// Drop a closed connection from the table.
    pub fn remove_connection(&mut self, index: usize)
        requires
            index < old(self).connections@.len(),
        ensures
            final(self).connections@ == old(self).connections@.remove(index as int),
            final(self).upstreams == old(self).upstreams,
            final(self).metrics == old(self).metrics,
            final(self).draining == old(self).draining,
            final(self).drain_start_ms == old(self).drain_start_ms,
            final(self).h2_pool == old(self).h2_pool,
            final(self).settings == old(self).settings,
    {
        self.connections.remove(index);
    }

    /// Whether the idle timer of the connection at `index` has fired.
    pub fn timeout_due(&self, index: usize, timeout_ms: u64, now_ms: u64) -> (r: bool)
        requires
            index < self.connections@.len(),
        ensures
            r == spec_timeout_due(
                self.connections@[index as int].last_activity_ms,
                timeout_ms,
                now_ms,
            ),
    {
        now_ms >= self.connections[index].last_activity_ms.saturating_add(timeout_ms)
    }

    /// An HTTP/3 `Headers` event: count the request and store a fresh
    /// envelope under the stream id — its pseudo-header fields parsed as
    /// `RequestEnvelope::from_headers` promises, the table changed as
    /// `StreamTable::insert` promises.
    pub fn on_headers(
        &mut self,
        index: usize,
        stream_id: u64,
        headers: Vec<(Vec<u8>, Vec<u8>)>,
        now_ms: u64,
    )
        requires
            index < old(self).connections@.len(),
        ensures
            final(self).connections@.len() == old(self).connections@.len(),
            forall|j: int|
                0 <= j < old(self).connections@.len() && j != index ==> final(self).connections@[j]
                    == old(self).connections@[j],
            final(self).metrics == (Metrics {
                requests_total: sat_add_u64(old(self).metrics.requests_total, 1),
                ..old(self).metrics
            }),
            final(self).upstreams == old(self).upstreams,
            final(self).draining == old(self).draining,
            final(self).h2_pool == old(self).h2_pool,
            exists|env: RequestEnvelope|
                crate::envelope::spec_envelope_of(headers@, now_ms, env)
                    && #[trigger] crate::envelope::spec_insert_post(
                    old(self).connections@[index as int].streams.entries@,
                    final(self).connections@[index as int].streams.entries@,
                    stream_id,
                    env,
                ),
            final(self).connections@[index as int].scid == old(self).connections@[index as int].scid,
            final(self).connections@[index as int].peer == old(self).connections@[index as int].peer,
            final(self).connections@[index as int].last_activity_ms == old(self).connections@[
                index as int
            ].last_activity_ms,
            final(self).connections@[index as int].h3_started == old(self).connections@[
                index as int
            ].h3_started,
            final(self).drain_start_ms == old(self).drain_start_ms,
    {
        self.metrics.inc_total();
        let env = RequestEnvelope::from_headers(headers, now_ms);
        let ghost genv = env;
        let c = &mut self.connections[index];
        let ghost entries_before = c.streams.entries@;
        c.streams.insert(stream_id, env);
        proof {
            assert(crate::envelope::spec_envelope_of(headers@, now_ms, genv)
                && crate::envelope::spec_insert_post(
                entries_before,
                self.connections@[index as int].streams.entries@,
                stream_id,
                genv,
            ));
        }
    }

    /// An HTTP/3 `Data` event: append a chunk of body to the stream's
    /// envelope, exactly as `StreamTable::append_body` says. Unknown streams
    /// are ignored and reported `false`.
    pub fn on_data(&mut self, index: usize, stream_id: u64, chunk: &[u8]) -> (r: bool)
        requires
            index < old(self).connections@.len(),
        ensures
            final(self).connections@.len() == old(self).connections@.len(),
            forall|j: int|
                0 <= j < old(self).connections@.len() && j != index ==> final(self).connections@[j]
                    == old(self).connections@[j],
            crate::envelope::spec_append_post(
                old(self).connections@[index as int].streams.entries@,
                final(self).connections@[index as int].streams.entries@,
                stream_id,
                chunk@,
                r,
            ),
            final(self).connections@[index as int].scid == old(self).connections@[index as int].scid,
            final(self).connections@[index as int].peer == old(self).connections@[index as int].peer,
            final(self).connections@[index as int].last_activity_ms == old(self).connections@[
                index as int
            ].last_activity_ms,
            final(self).connections@[index as int].h3_started == old(self).connections@[
                index as int
            ].h3_started,
            final(self).metrics == old(self).metrics,
            final(self).upstreams == old(self).upstreams,
            final(self).draining == old(self).draining,
            final(self).drain_start_ms == old(self).drain_start_ms,
            final(self).h2_pool == old(self).h2_pool,
    {
        let c = &mut self.connections[index];
        c.streams.append_body(stream_id, chunk)
    }

    /// An HTTP/3 `Reset` event: forget the stream — its entry leaves the
    /// connection's table — and answer nothing.
    pub fn on_reset(&mut self, index: usize, stream_id: u64)
        requires
            index < old(self).connections@.len(),
        ensures
            final(self).connections@.len() == old(self).connections@.len(),
            forall|j: int|
                0 <= j < old(self).connections@.len() && j != index ==> final(self).connections@[j]
                    == old(self).connections@[j],
            crate::envelope::spec_find_stream(
                old(self).connections@[index as int].streams.entries@,
                stream_id,
            ) matches Some(k) ==> final(self).connections@[index as int].streams.entries@ == old(self).connections@[index as int].streams.entries@.remove(k),
            crate::envelope::spec_find_stream(
                old(self).connections@[index as int].streams.entries@,
                stream_id,
            ) is None ==> final(self).connections@[index as int].streams.entries@ == old(self).connections@[index as int].streams.entries@,
            final(self).connections@[index as int].scid == old(self).connections@[index as int].scid,
            final(self).connections@[index as int].peer == old(self).connections@[index as int].peer,
            final(self).connections@[index as int].last_activity_ms == old(self).connections@[
                index as int
            ].last_activity_ms,
            final(self).connections@[index as int].h3_started == old(self).connections@[
                index as int
            ].h3_started,
            final(self).metrics == old(self).metrics,
            final(self).upstreams == old(self).upstreams,
            final(self).draining == old(self).draining,
            final(self).drain_start_ms == old(self).drain_start_ms,
            final(self).h2_pool == old(self).h2_pool,
    {
        let c = &mut self.connections[index];
        let _discarded = c.streams.remove(stream_id);
    }

    /// An HTTP/3 `Finished` event: the stream's envelope leaves the table and
    /// the dispatch is decided for it, exactly as `plan_request` promises of
    /// that envelope. `None` means the stream was unknown and nothing happens.
    #[verifier::rlimit(20)]
    pub fn on_finished(&mut self, index: usize, stream_id: u64, now_ms: u64) -> (r: Option<
        (DispatchPlan, Option<HealthTransition>),
    >)
        requires
            index < old(self).connections@.len(),
            old(self).wf(),
        ensures
            final(self).wf(),
            final(self).connections@.len() == old(self).connections@.len(),
            r is Some <==> crate::envelope::spec_find_stream(
                old(self).connections@[index as int].streams.entries@,
                stream_id,
            ) is Some,
            r is None ==> final(self).connections@ == old(self).connections@ && final(
                self).upstreams == old(self).upstreams && final(self).metrics == old(self).metrics
                && final(self).draining == old(self).draining && final(self).h2_pool == old(
                self).h2_pool,
            r matches Some(plan) ==> ({
                let es0 = old(self).connections@[index as int].streams.entries@;
                let k = crate::envelope::spec_find_stream(es0, stream_id)->0;
                &&& 0 <= k < es0.len()
                &&& final(self).connections@[index as int].streams.entries@ == es0.remove(k)
                &&& final(self).connections@[index as int].scid == old(self).connections@[
                    index as int
                ].scid
                &&& final(self).connections@[index as int].peer == old(self).connections@[
                    index as int
                ].peer
                &&& final(self).connections@[index as int].last_activity_ms == old(self).connections@[index as int].last_activity_ms
                &&& final(self).connections@[index as int].h3_started == old(self).connections@[
                    index as int
                ].h3_started
                &&& (forall|j: int|
                    0 <= j < old(self).connections@.len() && j != index ==> final(self).connections@[j] == old(self).connections@[j])
                &&& crate::dispatch::spec_plan_post(
                    old(self).upstreams@,
                    final(self).upstreams@,
                    old(self).metrics,
                    final(self).metrics,
                    es0[k].1,
                    now_ms,
                    plan.0,
                    plan.1,
                )
            }),
            r matches Some(plan) ==> (plan.0 matches DispatchPlan::Forward {
                upstream,
                backend,
                address,
                request,
            } ==> upstream < final(self).upstreams@.len() && backend < final(self).upstreams@[
                upstream as int
            ].pool.backends@.len()),
    {
        let c = &mut self.connections[index];
        let env = c.streams.remove(stream_id);
        proof {
            if env is None {
                assert(self.connections@ =~= old(self).connections@);
            }
        }
        match env {
            Some(env) => {
                proof {
                    let es0 = old(self).connections@[index as int].streams.entries@;
                    crate::envelope::lemma_find_stream_props(es0, stream_id);
                    let k = crate::envelope::spec_find_stream(es0, stream_id)->0;
                    assert(0 <= k < es0.len());
                    assert(env == es0[k].1);
                    assert(self.upstreams@ == old(self).upstreams@);
                    assert(self.metrics == old(self).metrics);
                }
                let plan = plan_request(&mut self.upstreams, &mut self.metrics, &env, now_ms);
                proof {
                    let es0 = old(self).connections@[index as int].streams.entries@;
                    let k = crate::envelope::spec_find_stream(es0, stream_id)->0;
                    assert(crate::dispatch::spec_plan_post(
                        old(self).upstreams@,
                        self.upstreams@,
                        old(self).metrics,
                        self.metrics,
                        es0[k].1,
                        now_ms,
                        plan.0,
                        plan.1,
                    ));
                    if plan.0 is Forward {
                        crate::dispatch::lemma_find_upstream_in_range(
                            old(self).upstreams@,
                            env.path@,
                            crate::dispatch::spec_env_host(env),
                        );
                    }
                }
                Some(plan)
            },
            None => None,
        }
    }

    /// Score a forwarded request's outcome and shape the HTTP/3 answer,
    /// exactly as `complete_request` promises: counters, health mark,
    /// transition and response.
    pub fn complete(
        &mut self,
        upstream: usize,
        backend: usize,
        outcome: UpstreamOutcome,
        now_ms: u64,
    ) -> (r: (H3Response, Option<HealthTransition>))
        requires
            upstream < old(self).upstreams@.len(),
            old(self).wf(),
        ensures
            final(self).wf(),
            crate::dispatch::spec_complete_post(
                old(self).upstreams@,
                final(self).upstreams@,
                old(self).metrics,
                final(self).metrics,
                upstream,
                backend,
                outcome,
                now_ms,
                r.0,
                r.1,
            ),
            final(self).connections == old(self).connections,
            final(self).draining == old(self).draining,
            final(self).drain_start_ms == old(self).drain_start_ms,
            final(self).h2_pool == old(self).h2_pool,
            final(self).settings == old(self).settings,
    {
        let r = complete_request(
            &mut self.upstreams,
            &mut self.metrics,
            upstream,
            backend,
            outcome,
            now_ms,
        );
        r
    }

    /// Health mark from an active probe: a 2xx response marks the backend
    /// up, anything else marks it down.
    pub fn mark_health(
        &mut self,
        upstream: usize,
        backend: usize,
        healthy: bool,
        now_ms: u64,
    ) -> (t: Option<HealthTransition>)
        requires
            upstream < old(self).upstreams@.len(),
        ensures
            final(self).upstreams@.len() == old(self).upstreams@.len(),
            old(self).wf() ==> final(self).wf(),
            backend < old(self).upstreams@[upstream as int].pool.backends@.len() ==> final(
                self).upstreams@[upstream as int].pool.backends@ == old(self).upstreams@[
                upstream as int
            ].pool.backends@.update(
                backend as int,
                if healthy {
                    crate::health::BackendState::spec_success_state(
                        old(self).upstreams@[upstream as int].pool.backends@[backend as int],
                        now_ms,
                    )
                } else {
                    crate::health::BackendState::spec_failure_state(
                        old(self).upstreams@[upstream as int].pool.backends@[backend as int],
                        now_ms,
                    )
                },
            ) && t == (if healthy {
                crate::health::BackendState::spec_success_transition(
                    old(self).upstreams@[upstream as int].pool.backends@[backend as int],
                    now_ms,
                )
            } else {
                crate::health::BackendState::spec_failure_transition(
                    old(self).upstreams@[upstream as int].pool.backends@[backend as int],
                    now_ms,
                )
            }),
            final(self).metrics == old(self).metrics,
            final(self).connections == old(self).connections,
    {
        let u = &mut self.upstreams[upstream];
        let t = if healthy {
            u.pool.mark_success(backend, now_ms)
        } else {
            u.pool.mark_failure(backend, now_ms)
        };
        proof {
            assert(forall|j: int|
                0 <= j < self.upstreams@.len() ==> (#[trigger] self.upstreams@[j]).lb == old(self).upstreams@[j].lb);
        }
        t
    }
}

/// Whether a probe's result counts as healthy: only a 2xx status does; any
/// error, timeout or other status does not.
pub fn health_probe_outcome(status: Option<u16>) -> (r: bool)
    ensures
        r == (status matches Some(s) && 200 <= s <= 299),
{
    match status {
        Some(s) => 200 <= s && s <= 299,
        None => false,
    }
}

/// The probe request for one backend: a GET for `http://{address}{path}`
/// with an empty body and only a `host` header, the empty path becoming `/`.
/// Fails exactly where the bridge would refuse the method or the URI.
pub fn build_health_probe(address: &str, path: &str) -> (r: Result<H2Request, BridgeError>)
    ensures
        crate::bridge::spec_build_ok(address@, "GET"@, path@, Seq::<(Seq<u8>, Seq<u8>)>::empty())
            <==> r is Ok,
        r matches Ok(req) ==> req.method@ == str_bytes("GET"@) && req.uri@
            == crate::bridge::spec_uri_bytes(address@, path@) && crate::bridge::view_headers(
            req.headers@,
        ) == seq![(crate::bridge::host_bytes(), str_bytes(address@))] && req.body@.len() == 0,
{
    let headers: Vec<(Vec<u8>, Vec<u8>)> = Vec::new();
    let body: Vec<u8> = Vec::new();
    let r = build_h2_request(address, "GET", path, headers.as_slice(), body.as_slice());
    proof {
        assert(crate::bridge::view_headers(headers@) =~= Seq::<(Seq<u8>, Seq<u8>)>::empty());
        let none: Seq<(Seq<u8>, Seq<u8>)> = Seq::empty();
        assert(!crate::bridge::spec_saw_host(none));
        assert(crate::bridge::spec_kept(none) =~= none);
        assert(crate::bridge::spec_final_headers(address@, none, body@) =~= seq![
            (crate::bridge::host_bytes(), str_bytes(address@)),
        ]);
    }
    match r {
        Ok(req) => Ok(req),
        Err(e) => Err(e),
    }
}

} // verus!