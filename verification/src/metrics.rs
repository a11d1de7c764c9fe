//! Monotonic request counters. Increments saturate at the top of the range
//! instead of wrapping, so the counters never move backwards.

use vstd::prelude::*;

use crate::health::sat_add_u64;

verus! {

/// Counters for the listener: totals, outcomes, and the failure causes.
pub struct Metrics {
    pub requests_total: u64,
    pub requests_success: u64,
    pub requests_failure: u64,
    pub backend_timeouts: u64,
    pub backend_errors: u64,
}

impl Metrics {
    pub fn new() -> (m: Self)
        ensures
            m.requests_total == 0,
            m.requests_success == 0,
            m.requests_failure == 0,
            m.backend_timeouts == 0,
            m.backend_errors == 0,
    {
        Metrics {
            requests_total: 0,
            requests_success: 0,
            requests_failure: 0,
            backend_timeouts: 0,
            backend_errors: 0,
        }
    }

    pub fn inc_total(&mut self)
        ensures
            *final(self) == (Metrics {
                requests_total: sat_add_u64(old(self).requests_total, 1),
                ..*old(self)
            }),
    {
        self.requests_total = self.requests_total.saturating_add(1);
    }

    pub fn inc_success(&mut self)
        ensures
            *final(self) == (Metrics {
                requests_success: sat_add_u64(old(self).requests_success, 1),
                ..*old(self)
            }),
    {
        self.requests_success = self.requests_success.saturating_add(1);
    }

    pub fn inc_failure(&mut self)
        ensures
            *final(self) == (Metrics {
                requests_failure: sat_add_u64(old(self).requests_failure, 1),
                ..*old(self)
            }),
    {
        self.requests_failure = self.requests_failure.saturating_add(1);
    }

    pub fn inc_timeout(&mut self)
        ensures
            *final(self) == (Metrics {
                backend_timeouts: sat_add_u64(old(self).backend_timeouts, 1),
                ..*old(self)
            }),
    {
        self.backend_timeouts = self.backend_timeouts.saturating_add(1);
    }

    pub fn inc_backend_error(&mut self)
        ensures
            *final(self) == (Metrics {
                backend_errors: sat_add_u64(old(self).backend_errors, 1),
                ..*old(self)
            }),
    {
        self.backend_errors = self.backend_errors.saturating_add(1);
    }
}

impl Default for Metrics {
    fn default() -> (m: Self)
        ensures
            m.requests_total == 0,
            m.requests_success == 0,
            m.requests_failure == 0,
            m.backend_timeouts == 0,
            m.backend_errors == 0,
    {
        Metrics::new()
    }
}

} // verus!
