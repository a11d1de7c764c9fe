//! Backend health state and the backend pool.
//!
//! A backend starts `Healthy`. `failure_threshold` consecutive failures move
//! it to `Unhealthy { until_ms, successes }`; while unhealthy, successes are
//! ignored before `until_ms` and counted afterwards, and `success_threshold`
//! of them move the backend back to `Healthy`. Time is carried as a
//! millisecond count supplied by the caller.

use vstd::prelude::*;

use crate::config::{Backend, HealthCheck};

verus! {

/// Health of one backend.
#[derive(Clone, Copy, Debug)]
pub enum HealthState {
    Healthy,
    Unhealthy { until_ms: u64, successes: u32 },
}

/// One-shot signal emitted when a backend crosses the healthy boundary.
#[derive(Clone, Copy, Debug, PartialEq, Eq, Structural)]
pub enum HealthTransition {
    BecameHealthy,
    BecameUnhealthy,
}

/// A backend together with its mutable health bookkeeping.
#[derive(Clone, Debug)]
pub struct BackendState {
    pub backend: Backend,
    pub consecutive_failures: u32,
    pub health_state: HealthState,
}

/// `a + b` capped at `u32::MAX`.
pub open spec fn sat_add_u32(a: u32, b: u32) -> u32 {
    if a + b > u32::MAX {
        u32::MAX
    } else {
        (a + b) as u32
    }
}

/// `a + b` capped at `u64::MAX`.
pub open spec fn sat_add_u64(a: u64, b: u64) -> u64 {
    if a + b > u64::MAX {
        u64::MAX
    } else {
        (a + b) as u64
    }
}

impl BackendState {
    /// Fresh state for a configured backend.
    pub open spec fn spec_new(backend: Backend) -> BackendState {
        BackendState {
            backend,
            consecutive_failures: 0,
            health_state: HealthState::Healthy,
        }
    }

    /// State after one recorded success at time `now_ms`.
    pub open spec fn spec_success_state(s: BackendState, now_ms: u64) -> BackendState {
        match s.health_state {
            HealthState::Healthy => BackendState { consecutive_failures: 0, ..s },
            HealthState::Unhealthy { until_ms, successes } => {
                if now_ms < until_ms {
                    s
                } else {
                    let s2 = sat_add_u32(successes, 1);
                    if s2 >= s.backend.health_check.success_threshold {
                        BackendState {
                            consecutive_failures: 0,
                            health_state: HealthState::Healthy,
                            ..s
                        }
                    } else {
                        BackendState {
                            health_state: HealthState::Unhealthy { until_ms, successes: s2 },
                            ..s
                        }
                    }
                }
            },
        }
    }

    /// Signal returned by one recorded success at time `now_ms`.
    pub open spec fn spec_success_transition(s: BackendState, now_ms: u64) -> Option<
        HealthTransition,
    > {
        match s.health_state {
            HealthState::Healthy => None,
            HealthState::Unhealthy { until_ms, successes } => {
                if now_ms < until_ms {
                    None
                } else if sat_add_u32(successes, 1) >= s.backend.health_check.success_threshold {
                    Some(HealthTransition::BecameHealthy)
                } else {
                    None
                }
            },
        }
    }

    /// State after one recorded failure at time `now_ms`.
    pub open spec fn spec_failure_state(s: BackendState, now_ms: u64) -> BackendState {
        let cf = sat_add_u32(s.consecutive_failures, 1);
        if cf < s.backend.health_check.failure_threshold {
            BackendState { consecutive_failures: cf, ..s }
        } else {
            BackendState {
                consecutive_failures: 0,
                health_state: HealthState::Unhealthy {
                    until_ms: sat_add_u64(now_ms, s.backend.health_check.cooldown_ms),
                    successes: 0,
                },
                ..s
            }
        }
    }

    /// Signal returned by one recorded failure.
    pub open spec fn spec_failure_transition(s: BackendState, now_ms: u64) -> Option<
        HealthTransition,
    > {
        if sat_add_u32(s.consecutive_failures, 1) < s.backend.health_check.failure_threshold {
            None
        } else {
            Some(HealthTransition::BecameUnhealthy)
        }
    }

    pub fn new(backend: Backend) -> (s: Self)
        ensures
            s == Self::spec_new(backend),
    {
        BackendState {
            backend,
            consecutive_failures: 0,
            health_state: HealthState::Healthy,
        }
    }

    pub fn is_healthy(&self) -> (r: bool)
        ensures
            r == (self.health_state is Healthy),
    {
        match self.health_state {
            HealthState::Healthy => true,
            HealthState::Unhealthy { .. } => false,
        }
    }

    pub fn address(&self) -> (r: &str)
        ensures
            r@ == self.backend.address@,
    {
        self.backend.address.as_str()
    }

    pub fn health_check(&self) -> (r: &HealthCheck)
        ensures
            r == self.backend.health_check,
    {
        &self.backend.health_check
    }

    /// Configured weight, floored at 1.
    pub fn weight(&self) -> (r: u32)
        ensures
            r == if self.backend.weight >= 1 { self.backend.weight } else { 1u32 },
    {
        if self.backend.weight >= 1 {
            self.backend.weight
        } else {
            1
        }
    }

    /// Record a success observed at `now_ms`.
    pub fn record_success(&mut self, now_ms: u64) -> (t: Option<HealthTransition>)
        ensures
            *final(self) == Self::spec_success_state(*old(self), now_ms),
            t == Self::spec_success_transition(*old(self), now_ms),
    {
        match self.health_state {
            HealthState::Healthy => {
                self.consecutive_failures = 0;
                None
            },
            HealthState::Unhealthy { until_ms, successes } => {
                if now_ms < until_ms {
                    return None;
                }
                let s2 = successes.saturating_add(1);
                if s2 >= self.backend.health_check.success_threshold {
                    self.consecutive_failures = 0;
                    self.health_state = HealthState::Healthy;
                    Some(HealthTransition::BecameHealthy)
                } else {
                    self.health_state = HealthState::Unhealthy { until_ms, successes: s2 };
                    None
                }
            },
        }
    }

    /// Record a failure observed at `now_ms`.
    pub fn record_failure(&mut self, now_ms: u64) -> (t: Option<HealthTransition>)
        ensures
            *final(self) == Self::spec_failure_state(*old(self), now_ms),
            t == Self::spec_failure_transition(*old(self), now_ms),
    {
        let cf = self.consecutive_failures.saturating_add(1);
        if cf < self.backend.health_check.failure_threshold {
            self.consecutive_failures = cf;
            return None;
        }
        self.consecutive_failures = 0;
        self.health_state = HealthState::Unhealthy {
            until_ms: now_ms.saturating_add(self.backend.health_check.cooldown_ms),
            successes: 0,
        };
        Some(HealthTransition::BecameUnhealthy)
    }
}

/// Indices of the healthy entries of `s`, ascending.
pub open spec fn spec_healthy_indices(s: Seq<BackendState>) -> Seq<usize>
    decreases s.len(),
{
    if s.len() == 0 {
        Seq::empty()
    } else {
        let pre = spec_healthy_indices(s.drop_last());
        if s.last().health_state is Healthy {
            pre.push((s.len() - 1) as usize)
        } else {
            pre
        }
    }
}

/// Shape of `spec_healthy_indices`: every entry is a healthy in-range index,
/// the entries ascend strictly, and every healthy index occurs.
pub proof fn lemma_healthy_indices_props(s: Seq<BackendState>)
    requires
        s.len() <= usize::MAX,
    ensures
        forall|j: int|
            0 <= j < spec_healthy_indices(s).len() ==> (#[trigger] spec_healthy_indices(s)[j])
                < s.len() && s[spec_healthy_indices(s)[j] as int].health_state is Healthy,
        forall|j1: int, j2: int|
            0 <= j1 < j2 < spec_healthy_indices(s).len() ==> spec_healthy_indices(s)[j1]
                < spec_healthy_indices(s)[j2],
        forall|k: int|
            0 <= k < s.len() && s[k].health_state is Healthy ==> spec_healthy_indices(s).contains(
                k as usize,
            ),
        (exists|k: int| 0 <= k < s.len() && s[k].health_state is Healthy)
            <==> spec_healthy_indices(s).len() > 0,
    decreases s.len(),
{
    if s.len() > 0 {
        lemma_healthy_indices_props(s.drop_last());
        let pre = spec_healthy_indices(s.drop_last());
        let h = spec_healthy_indices(s);
        if s.last().health_state is Healthy {
            assert(h == pre.push((s.len() - 1) as usize));
        } else {
            assert(h == pre);
        }
        assert forall|j: int| 0 <= j < h.len() implies (#[trigger] h[j]) < s.len() && s[h[j] as int].health_state is Healthy by {
            if j < pre.len() {
                assert(h[j] == pre[j]);
                assert(pre[j] < s.drop_last().len());
                assert(s.drop_last()[pre[j] as int] == s[pre[j] as int]);
            } else {
                assert(s.last().health_state is Healthy);
                assert(h[j] == (s.len() - 1) as usize);
                assert(s[s.len() - 1] == s.last());
            }
        }
        assert forall|j1: int, j2: int| 0 <= j1 < j2 < h.len() implies h[j1] < h[j2] by {
            assert(h[j1] == pre[j1]);
            assert(pre[j1] < s.drop_last().len());
            if j2 < pre.len() {
                assert(h[j2] == pre[j2]);
            } else {
                assert(h[j2] == (s.len() - 1) as usize);
            }
        }
        assert forall|k: int|
            0 <= k < s.len() && s[k].health_state is Healthy implies spec_healthy_indices(
            s,
        ).contains(k as usize) by {
            if k < s.len() - 1 {
                assert(s.drop_last()[k] == s[k]);
                assert(pre.contains(k as usize));
                let j = choose|j: int| 0 <= j < pre.len() && pre[j] == k as usize;
                assert(spec_healthy_indices(s)[j] == k as usize);
            } else {
                if s.last().health_state is Healthy {
                    assert(spec_healthy_indices(s).last() == k as usize);
                }
            }
        }
        if spec_healthy_indices(s).len() > 0 {
            if s.last().health_state is Healthy {
                assert(s[s.len() - 1].health_state is Healthy);
            } else {
                assert(pre.len() > 0);
                let k = choose|k: int|
                    0 <= k < s.drop_last().len() && s.drop_last()[k].health_state is Healthy;
                assert(s[k].health_state is Healthy);
            }
        }
    }
}

/// Effect of one recorded outcome on a backend's health bookkeeping.
pub open spec fn spec_step(s: BackendState, success: bool, now_ms: u64) -> BackendState {
    if success {
        BackendState::spec_success_state(s, now_ms)
    } else {
        BackendState::spec_failure_state(s, now_ms)
    }
}

/// State after a sequence of recorded outcomes, oldest first. Each element
/// pairs the outcome (`true` for success) with the time it was observed.
pub open spec fn spec_run(s: BackendState, evs: Seq<(bool, u64)>) -> BackendState
    decreases evs.len(),
{
    if evs.len() == 0 {
        s
    } else {
        spec_step(spec_run(s, evs.drop_last()), evs.last().0, evs.last().1)
    }
}

/// How many of the outcomes were observed at or after `cutoff_ms`.
pub open spec fn count_at_or_after(evs: Seq<(bool, u64)>, cutoff_ms: u64) -> nat
    decreases evs.len(),
{
    if evs.len() == 0 {
        0
    } else {
        count_at_or_after(evs.drop_last(), cutoff_ms) + if evs.last().1 >= cutoff_ms {
            1nat
        } else {
            0nat
        }
    }
}

/// Failures short of the threshold only raise the failure count; everything
/// else about the backend stays as it was.
pub proof fn lemma_failures_below_threshold(s: BackendState, evs: Seq<(bool, u64)>)
    requires
        forall|i: int| 0 <= i < evs.len() ==> !(#[trigger] evs[i]).0,
        s.consecutive_failures + evs.len() < s.backend.health_check.failure_threshold,
    ensures
        spec_run(s, evs) == (BackendState {
            consecutive_failures: (s.consecutive_failures + evs.len()) as u32,
            ..s
        }),
    decreases evs.len(),
{
    if evs.len() == 0 {
        assert(spec_run(s, evs) == s);
        assert(s == BackendState { consecutive_failures: s.consecutive_failures, ..s });
    } else {
        lemma_failures_below_threshold(s, evs.drop_last());
    }
}

/// After exactly `failure_threshold` consecutive recorded failures, the
/// backend is unhealthy, its cooldown running from the last failure.
pub proof fn lemma_failures_reach_threshold(s: BackendState, evs: Seq<(bool, u64)>)
    requires
        forall|i: int| 0 <= i < evs.len() ==> !(#[trigger] evs[i]).0,
        evs.len() >= 1,
        s.consecutive_failures + evs.len() == s.backend.health_check.failure_threshold,
    ensures
        spec_run(s, evs) == (BackendState {
            consecutive_failures: 0,
            health_state: HealthState::Unhealthy {
                until_ms: sat_add_u64(evs.last().1, s.backend.health_check.cooldown_ms),
                successes: 0,
            },
            ..s
        }),
{
    lemma_failures_below_threshold(s, evs.drop_last());
}

/// While unhealthy, recorded successes cannot bring the backend back before
/// its cooldown has elapsed and `success_threshold` of them have been seen at
/// or after the cooldown's end: too few leave it unhealthy, and ones before
/// `until_ms` are not counted at all.
pub proof fn lemma_unhealthy_needs_cooldown_and_successes(
    s: BackendState,
    evs: Seq<(bool, u64)>,
    until_ms: u64,
    succ0: u32,
)
    requires
        s.health_state == (HealthState::Unhealthy { until_ms, successes: succ0 }),
        forall|i: int| 0 <= i < evs.len() ==> (#[trigger] evs[i]).0,
        succ0 + count_at_or_after(evs, until_ms) < s.backend.health_check.success_threshold,
    ensures
        spec_run(s, evs) == (BackendState {
            health_state: HealthState::Unhealthy {
                until_ms,
                successes: (succ0 + count_at_or_after(evs, until_ms)) as u32,
            },
            ..s
        }),
    decreases evs.len(),
{
    if evs.len() == 0 {
        assert(spec_run(s, evs) == s);
        assert(s == BackendState {
            health_state: HealthState::Unhealthy { until_ms, successes: succ0 },
            ..s
        });
    } else {
        assert(count_at_or_after(evs.drop_last(), until_ms) <= count_at_or_after(evs, until_ms));
        lemma_unhealthy_needs_cooldown_and_successes(s, evs.drop_last(), until_ms, succ0);
        let s1 = spec_run(s, evs.drop_last());
        let c1 = succ0 + count_at_or_after(evs.drop_last(), until_ms);
        assert(s1.health_state == (HealthState::Unhealthy { until_ms, successes: c1 as u32 }));
        assert(evs.last().0);
        let t = evs.last().1;
        if t < until_ms {
            assert(spec_step(s1, true, t) == s1);
            assert(count_at_or_after(evs, until_ms) == count_at_or_after(evs.drop_last(), until_ms));
        } else {
            assert(count_at_or_after(evs, until_ms) == count_at_or_after(evs.drop_last(), until_ms) + 1);
            assert(sat_add_u32(c1 as u32, 1) == c1 + 1);
            assert(c1 + 1 < s.backend.health_check.success_threshold);
            assert(spec_step(s1, true, t) == (BackendState {
                health_state: HealthState::Unhealthy { until_ms, successes: (c1 + 1) as u32 },
                ..s1
            }));
        }
    }
}

/// An unhealthy backend never stands in the healthy list: together with the
/// lemmas above, a backend driven unhealthy by `failure_threshold` recorded
/// failures stays out of `healthy_indices` until its cooldown has elapsed
/// and `success_threshold` successes have been recorded after it.
pub proof fn lemma_unhealthy_not_listed(pool: Seq<BackendState>, i: int)
    requires
        pool.len() <= usize::MAX,
        0 <= i < pool.len(),
        !(pool[i].health_state is Healthy),
    ensures
        !spec_healthy_indices(pool).contains(i as usize),
{
    lemma_healthy_indices_props(pool);
    if spec_healthy_indices(pool).contains(i as usize) {
        let j = choose|j: int|
            0 <= j < spec_healthy_indices(pool).len() && spec_healthy_indices(pool)[j]
                == i as usize;
        assert(pool[spec_healthy_indices(pool)[j] as int].health_state is Healthy);
    }
}

/// The ordered pool of backend states; the position is the selection handle.
pub struct BackendPool {
    pub backends: Vec<BackendState>,
}

impl BackendPool {
    /// Build states in declaration order; all start healthy.
    pub fn new(backends: Vec<Backend>) -> (p: Self)
        ensures
            p.backends@.len() == backends@.len(),
            forall|i: int|
                0 <= i < backends@.len() ==> p.backends@[i] == BackendState::spec_new(
                    backends@[i],
                ),
    {
        let mut states: Vec<BackendState> = Vec::new();
        let mut i: usize = 0;
        let n = backends.len();
        let mut rest = backends;
        let ghost orig = rest@;
        // Consume the input front to back so each `Backend` is moved, not cloned.
        while states.len() < n
            invariant
                states@.len() + rest@.len() == n,
                orig.len() == n,
                rest@ == orig.subrange(states@.len() as int, n as int),
                forall|i: int|
                    0 <= i < states@.len() ==> states@[i] == BackendState::spec_new(orig[i]),
            decreases n - states@.len(),
    {
            let b = rest.remove(0);
            proof {
                assert(b == orig[states@.len() as int]);
            }
            states.push(BackendState::new(b));
            proof {
                assert(rest@ =~= orig.subrange(states@.len() as int, n as int));
            }
        }
        BackendPool { backends: states }
    }

    pub fn len(&self) -> (n: usize)
        ensures
            n == self.backends@.len(),
    {
        self.backends.len()
    }

    pub fn is_empty(&self) -> (r: bool)
        ensures
            r == (self.backends@.len() == 0),
    {
        self.backends.is_empty()
    }

    /// Address of the backend at `index`, if any.
    pub fn address(&self, index: usize) -> (r: Option<&str>)
        ensures
            index < self.backends@.len() ==> r is Some && r->0@ == self.backends@[
                index as int
            ].backend.address@,
            index >= self.backends@.len() ==> r is None,
    {
        if index < self.backends.len() {
            Some(self.backends[index].address())
        } else {
            None
        }
    }

    /// Record a request or probe success for the backend at `index`.
    pub fn mark_success(&mut self, index: usize, now_ms: u64) -> (t: Option<HealthTransition>)
        ensures
            index < old(self).backends@.len() ==> final(self).backends@ == old(self).backends@.update(
                index as int,
                BackendState::spec_success_state(old(self).backends@[index as int], now_ms),
            ),
            index < old(self).backends@.len() ==> t == BackendState::spec_success_transition(
                old(self).backends@[index as int],
                now_ms,
            ),
            index >= old(self).backends@.len() ==> *final(self) == *old(self) && t is None,
    {
        if index < self.backends.len() {
            self.backends[index].record_success(now_ms)
        } else {
            None
        }
    }

    /// Record a request or probe failure for the backend at `index`.
    pub fn mark_failure(&mut self, index: usize, now_ms: u64) -> (t: Option<HealthTransition>)
        ensures
            index < old(self).backends@.len() ==> final(self).backends@ == old(self).backends@.update(
                index as int,
                BackendState::spec_failure_state(old(self).backends@[index as int], now_ms),
            ),
            index < old(self).backends@.len() ==> t == BackendState::spec_failure_transition(
                old(self).backends@[index as int],
                now_ms,
            ),
            index >= old(self).backends@.len() ==> *final(self) == *old(self) && t is None,
    {
        if index < self.backends.len() {
            self.backends[index].record_failure(now_ms)
        } else {
            None
        }
    }

    /// Probe settings of the backend at `index`, if any.
    pub fn health_check(&self, index: usize) -> (r: Option<HealthCheck>)
        ensures
            index < self.backends@.len() ==> r == Some(
                self.backends@[index as int].backend.health_check,
            ),
            index >= self.backends@.len() ==> r is None,
    {
        if index < self.backends.len() {
            let hc = &self.backends[index].backend.health_check;
            Some(
                HealthCheck {
                    path: hc.path.clone(),
                    interval: hc.interval,
                    timeout_ms: hc.timeout_ms,
                    failure_threshold: hc.failure_threshold,
                    success_threshold: hc.success_threshold,
                    cooldown_ms: hc.cooldown_ms,
                },
            )
        } else {
            None
        }
    }

    /// Stable ascending list of healthy indices.
    pub fn healthy_indices(&self) -> (r: Vec<usize>)
        ensures
            r@ == spec_healthy_indices(self.backends@),
    {
        let mut r: Vec<usize> = Vec::new();
        let mut i: usize = 0;
        while i < self.backends.len()
            invariant
                i <= self.backends@.len(),
                r@ == spec_healthy_indices(self.backends@.subrange(0, i as int)),
            decreases self.backends@.len() - i,
        {
            if self.backends[i].is_healthy() {
                r.push(i);
            }
            i += 1;
            proof {
                assert(self.backends@.subrange(0, i as int).drop_last() =~= self.backends@.subrange(
                    0,
                    i - 1,
                ));
            }
        }
        proof {
            assert(self.backends@.subrange(0, self.backends@.len() as int) =~= self.backends@);
        }
        r
    }

    /// Every position of the pool.
    pub fn all_indices(&self) -> (r: Vec<usize>)
        ensures
            r@.len() == self.backends@.len(),
            forall|i: int| 0 <= i < r@.len() ==> r@[i] == i as usize,
    {
        let mut r: Vec<usize> = Vec::new();
        let mut i: usize = 0;
        while i < self.backends.len()
            invariant
                i <= self.backends@.len(),
                r@.len() == i,
                forall|j: int| 0 <= j < i ==> r@[j] == j as usize,
            decreases self.backends@.len() - i,
        {
            r.push(i);
            i += 1;
        }
        r
    }

    /// The backend state at `index`, if any.
    pub fn backend(&self, index: usize) -> (r: Option<&BackendState>)
        ensures
            index < self.backends@.len() ==> r == Some(&self.backends@[index as int]),
            index >= self.backends@.len() ==> r is None,
    {
        if index < self.backends.len() {
            Some(&self.backends[index])
        } else {
            None
        }
    }
}

} // verus!
