//! Model of the bounded HTTP/2 upstream pool: one client per backend address
//! and, per backend, a counting bound of `max(M, 1)` concurrent in-flight
//! sends. The model owns the addresses, the bound and the in-flight counts;
//! the sockets and the waiting live with the caller, which may admit a send
//! only through `try_acquire` and must give the slot back with `release`.

use vstd::prelude::*;

use crate::util::{bytes_eq, str_bytes};

verus! {

/// Why the pool refused a send.
#[derive(Debug)]
pub enum PoolError {
    UnknownBackend(String),
    Send(String),
}

impl PoolError {
    /// Short description for logs.
    pub fn message(&self) -> (r: String)
        ensures
            *self matches PoolError::UnknownBackend(b) ==> r@ == "unknown backend: "@ + b@,
            *self matches PoolError::Send(m) ==> r@ == "send failed: "@ + m@,
    {
        match self {
            PoolError::UnknownBackend(b) => {
                let mut s = String::from_str("unknown backend: ");
                s.append(b.as_str());
                s
            },
            PoolError::Send(m) => {
                let mut s = String::from_str("send failed: ");
                s.append(m.as_str());
                s
            },
        }
    }
}

/// Whether some entry of `backends` has exactly these address bytes.
pub open spec fn spec_has_backend(backends: Seq<String>, b: Seq<u8>) -> bool {
    exists|i: int| 0 <= i < backends.len() && str_bytes((#[trigger] backends[i])@) == b
}

/// The bounded upstream pool model.
pub struct H2Pool {
    pub backends: Vec<String>,
    pub max_inflight: usize,
    pub inflight: Vec<usize>,
}

impl H2Pool {
    /// Well-formedness: a positive bound, one counter per distinct address,
    /// and every counter within the bound — the in-flight invariant.
    pub open spec fn wf(self) -> bool {
        &&& self.max_inflight >= 1
        &&& self.inflight@.len() == self.backends@.len()
        &&& forall|i: int|
            0 <= i < self.inflight@.len() ==> (#[trigger] self.inflight@[i]) <= self.max_inflight
        &&& forall|i: int, j: int|
            0 <= i < j < self.backends@.len() ==> str_bytes((#[trigger] self.backends@[i])@)
                != str_bytes((#[trigger] self.backends@[j])@)
    }

    /// Build the pool over the distinct addresses, bound floored at one,
    /// nothing in flight.
    pub fn new(backends: Vec<String>, max_inflight: usize) -> (p: Self)
        ensures
            p.wf(),
            p.max_inflight == if max_inflight >= 1 {
                max_inflight
            } else {
                1usize
            },
            forall|i: int| 0 <= i < p.inflight@.len() ==> (#[trigger] p.inflight@[i]) == 0,
            forall|i: int|
                0 <= i < backends@.len() ==> spec_has_backend(
                    p.backends@,
                    str_bytes((#[trigger] backends@[i])@),
                ),
            forall|i: int|
                0 <= i < p.backends@.len() ==> spec_has_backend(
                    backends@,
                    str_bytes((#[trigger] p.backends@[i])@),
                ),
    {
        let bound = if max_inflight >= 1 {
            max_inflight
        } else {
            1
        };
        let mut kept: Vec<String> = Vec::new();
        let mut counts: Vec<usize> = Vec::new();
        let mut i: usize = 0;
        while i < backends.len()
            invariant
                i <= backends@.len(),
                counts@.len() == kept@.len(),
                forall|k: int| 0 <= k < counts@.len() ==> (#[trigger] counts@[k]) == 0,
                forall|k: int, l: int|
                    0 <= k < l < kept@.len() ==> str_bytes((#[trigger] kept@[k])@) != str_bytes(
                        (#[trigger] kept@[l])@,
                    ),
                forall|k: int|
                    0 <= k < i ==> spec_has_backend(kept@, str_bytes((#[trigger] backends@[k])@)),
                forall|k: int|
                    0 <= k < kept@.len() ==> spec_has_backend(
                        backends@,
                        str_bytes((#[trigger] kept@[k])@),
                    ),
            decreases backends@.len() - i,
        {
            let b = &backends[i];
            let mut present = false;
            let mut j: usize = 0;
            while j < kept.len()
                invariant
                    j <= kept@.len(),
                    b == backends@[i as int],
                    i < backends@.len(),
                    present <==> exists|k: int|
                        0 <= k < j && str_bytes((#[trigger] kept@[k])@) == str_bytes(b@),
                decreases kept@.len() - j,
            {
                if bytes_eq(kept[j].as_str().as_bytes(), b.as_str().as_bytes()) {
                    present = true;
                }
                j += 1;
            }
            let ghost kept_prev = kept@;
            if !present {
                let copy = b.clone();
                proof {
                    assert(copy == backends@[i as int]);
                }
                kept.push(copy);
                counts.push(0);
            }
            proof {
                assert forall|k: int| 0 <= k <= i as int implies spec_has_backend(
                    kept@,
                    str_bytes((#[trigger] backends@[k])@),
                ) by {
                    if k < i {
                        let w = choose|w: int|
                            0 <= w < kept_prev.len() && str_bytes((#[trigger] kept_prev[w])@)
                                == str_bytes(backends@[k]@);
                        assert(kept@[w] == kept_prev[w]);
                        assert(str_bytes((#[trigger] kept@[w])@) == str_bytes(backends@[k]@));
                    } else {
                        if present {
                            let w = choose|w: int|
                                0 <= w < kept_prev.len() && str_bytes((#[trigger] kept_prev[w])@)
                                    == str_bytes(b@);
                            assert(str_bytes((#[trigger] kept@[w])@) == str_bytes(
                                backends@[i as int]@,
                            ));
                        } else {
                            assert(kept@[kept@.len() - 1] == backends@[i as int]);
                            assert(str_bytes((#[trigger] kept@[kept@.len() - 1])@) == str_bytes(
                                backends@[i as int]@,
                            ));
                        }
                    }
                }
                if !present {
                    assert forall|k: int, l: int| 0 <= k < l < kept@.len() implies str_bytes(
                        (#[trigger] kept@[k])@,
                    ) != str_bytes((#[trigger] kept@[l])@) by {
                        if l < kept_prev.len() {
                            assert(kept@[k] == kept_prev[k] && kept@[l] == kept_prev[l]);
                        } else {
                            assert(kept@[k] == kept_prev[k]);
                            assert(kept@[l] == backends@[i as int]);
                        }
                    }
                    assert forall|k: int| 0 <= k < kept@.len() implies spec_has_backend(
                        backends@,
                        str_bytes((#[trigger] kept@[k])@),
                    ) by {
                        if k < kept_prev.len() {
                            assert(kept@[k] == kept_prev[k]);
                            let w = choose|w: int|
                                0 <= w < backends@.len() && str_bytes(
                                    (#[trigger] backends@[w])@,
                                ) == str_bytes(kept_prev[k]@);
                            assert(str_bytes((#[trigger] backends@[w])@) == str_bytes(kept@[k]@));
                        } else {
                            assert(kept@[k] == backends@[i as int]);
                            assert(str_bytes((#[trigger] backends@[i as int])@) == str_bytes(
                                kept@[k]@,
                            ));
                        }
                    }
                }
            }
            i += 1;
        }
        H2Pool { backends: kept, max_inflight: bound, inflight: counts }
    }

    /// Position of a backend address, by exact bytes.
    fn find_backend(&self, backend: &str) -> (r: Option<usize>)
        ensures
            r matches Some(i) ==> i < self.backends@.len() && str_bytes(
                self.backends@[i as int]@,
            ) == str_bytes(backend@),
            r is None ==> !spec_has_backend(self.backends@, str_bytes(backend@)),
    {
        let mut i: usize = 0;
        while i < self.backends.len()
            invariant
                i <= self.backends@.len(),
                forall|k: int|
                    0 <= k < i ==> str_bytes((#[trigger] self.backends@[k])@) != str_bytes(
                        backend@,
                    ),
            decreases self.backends@.len() - i,
        {
            if bytes_eq(self.backends[i].as_str().as_bytes(), backend.as_bytes()) {
                return Some(i);
            }
            i += 1;
        }
        None
    }

    /// Whether the pool was built with this backend.
    pub fn has_backend(&self, backend: &str) -> (r: bool)
        ensures
            r == spec_has_backend(self.backends@, str_bytes(backend@)),
    {
        match self.find_backend(backend) {
            Some(i) => {
                proof {
                    assert(str_bytes(self.backends@[i as int]@) == str_bytes(backend@));
                }
                true
            },
            None => false,
        }
    }

    /// Admit one send to `backend`: an unknown address is refused, a backend
    /// at its bound yields no slot (the caller waits and retries), otherwise
    /// the count rises by one and the slot index comes back. The in-flight
    /// invariant is preserved, so no backend ever exceeds `max_inflight`.
    pub fn try_acquire(&mut self, backend: &str) -> (r: Result<Option<usize>, PoolError>)
        requires
            old(self).wf(),
        ensures
            final(self).wf(),
            final(self).backends == old(self).backends,
            final(self).max_inflight == old(self).max_inflight,
            r matches Err(e) ==> (e matches PoolError::UnknownBackend(b) && b@ == backend@
                && !spec_has_backend(old(self).backends@, str_bytes(backend@)) && *final(self)
                == *old(self)),
            r matches Ok(slot) ==> spec_has_backend(old(self).backends@, str_bytes(backend@)),
            r matches Ok(slot) ==> match slot {
                Some(i) => i < old(self).inflight@.len() && old(self).inflight@[i as int] < old(
                    self).max_inflight && final(self).inflight@ == old(self).inflight@.update(
                    i as int,
                    (old(self).inflight@[i as int] + 1) as usize,
                ) && str_bytes(old(self).backends@[i as int]@) == str_bytes(backend@),
                None => *final(self) == *old(self) && exists|i: int|
                    0 <= i < old(self).inflight@.len() && str_bytes(
                        (#[trigger] old(self).backends@[i])@,
                    ) == str_bytes(backend@) && old(self).inflight@[i] == old(self).max_inflight,
            },
    {
        match self.find_backend(backend) {
            None => Err(PoolError::UnknownBackend(backend.to_owned())),
            Some(i) => {
                if self.inflight[i] < self.max_inflight {
                    let c = self.inflight[i];
                    self.inflight[i] = c + 1;
                    Ok(Some(i))
                } else {
                    proof {
                        assert(str_bytes(self.backends@[i as int]@) == str_bytes(backend@));
                        assert(self.inflight@[i as int] == self.max_inflight);
                    }
                    Ok(None)
                }
            },
        }
    }

    /// Give back the slot at `i`. A slot that holds nothing stays at zero.
    pub fn release(&mut self, i: usize)
        requires
            old(self).wf(),
        ensures
            final(self).wf(),
            final(self).backends == old(self).backends,
            final(self).max_inflight == old(self).max_inflight,
            i < old(self).inflight@.len() && old(self).inflight@[i as int] > 0 ==> final(
                self).inflight@ == old(self).inflight@.update(
                i as int,
                (old(self).inflight@[i as int] - 1) as usize,
            ),
            i >= old(self).inflight@.len() || old(self).inflight@[i as int] == 0 ==> *final(self)
                == *old(self),
    {
        if i < self.inflight.len() {
            let c = self.inflight[i];
            if c > 0 {
                self.inflight[i] = c - 1;
            }
        }
    }
}

/// The in-flight bound, as a law: a well-formed pool never carries more than
/// `max_inflight` concurrent sends for any backend, and `try_acquire` and
/// `release` keep it well-formed, so the bound holds across any sequence of
/// admissions and returns.
pub proof fn lemma_inflight_never_exceeds_bound(p: H2Pool)
    requires
        p.wf(),
    ensures
        forall|i: int| 0 <= i < p.inflight@.len() ==> (#[trigger] p.inflight@[i]) <= p.max_inflight,
{
}

} // verus!