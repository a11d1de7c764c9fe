//! Load-balancing strategies over a backend pool: round-robin, uniform
//! random, and consistent hashing with weighted virtual nodes on an FNV-1a
//! ring. Each strategy picks the position of a healthy backend and returns
//! `None` exactly when the pool has none.

use vstd::prelude::*;
use vstd::string::StringSliceAdditionalSpecFns;

use rand::Rng;

use crate::health::{spec_healthy_indices, lemma_healthy_indices_props, BackendPool, BackendState};
use crate::util::{bytes_eq, lower_bytes, normalize_token, push_u64_dec, spec_trim, spec_u64_dec, str_bytes};

verus! {

/// FNV-1a offset basis.
pub const FNV_OFFSET: u64 = 0xcbf2_9ce4_8422_2325;

/// FNV-1a prime.
pub const FNV_PRIME: u64 = 0x0000_0100_0000_01b3;

/// Virtual nodes per unit of weight when the configuration names none.
pub const DEFAULT_REPLICAS: u32 = 64;

/// One round of FNV-1a: fold a byte into the running hash.
pub open spec fn fnv1a_step(h: u64, b: u8) -> u64 {
    vstd::wrapping::u64_specs::wrapping_mul(h ^ (b as u64), FNV_PRIME)
}

/// FNV-1a of a byte sequence.
pub open spec fn spec_hash64(data: Seq<u8>) -> u64
    decreases data.len(),
{
    if data.len() == 0 {
        FNV_OFFSET
    } else {
        fnv1a_step(spec_hash64(data.drop_last()), data.last())
    }
}

/// 64-bit FNV-1a hash.
pub fn hash64(data: &[u8]) -> (h: u64)
    ensures
        h == spec_hash64(data@),
{
    let mut h: u64 = FNV_OFFSET;
    let mut i: usize = 0;
    proof {
        assert(data@.subrange(0, 0) =~= Seq::<u8>::empty());
    }
    while i < data.len()
        invariant
            i <= data@.len(),
            h == spec_hash64(data@.subrange(0, i as int)),
        decreases data@.len() - i,
    {
        h = (h ^ (data[i] as u64)).wrapping_mul(FNV_PRIME);
        i += 1;
        proof {
            assert(data@.subrange(0, i as int).drop_last() =~= data@.subrange(0, i - 1));
            assert(data@.subrange(0, i as int).last() == data@[i - 1]);
        }
    }
    proof {
        assert(data@.subrange(0, data@.len() as int) =~= data@);
    }
    h
}

/// Cursor-driven strategy: one healthy backend after the other, in order.
pub struct RoundRobin {
    pub next: usize,
}

impl RoundRobin {
    pub fn new() -> (r: Self)
        ensures
            r.next == 0,
    {
        RoundRobin { next: 0 }
    }

    /// Pick `healthy[cursor mod healthy.len()]` and advance the cursor.
    /// Returns `None` exactly when no backend is healthy.
    pub fn pick(&mut self, pool: &BackendPool) -> (r: Option<usize>)
        ensures
            r is Some <==> spec_healthy_indices(pool.backends@).len() > 0,
            r is Some ==> r->0 == spec_healthy_indices(pool.backends@)[
                old(self).next as int % spec_healthy_indices(pool.backends@).len() as int
            ],
            r is Some ==> r->0 < pool.backends@.len() && pool.backends@[
                r->0 as int
            ].health_state is Healthy,
            r is Some ==> final(self).next == vstd::wrapping::usize_specs::wrapping_add(
                old(self).next,
                1,
            ),
            r is None ==> *final(self) == *old(self),
    {
        let candidates = pool.healthy_indices();
        if candidates.len() == 0 {
            return None;
        }
        let idx = candidates[self.next % candidates.len()];
        self.next = self.next.wrapping_add(1);
        proof {
            vstd::std_specs::vec::axiom_spec_len(&pool.backends);
            lemma_healthy_indices_props(pool.backends@);
        }
        Some(idx)
    }
}

/// Relies on rand::Rng::gen_range over `0..n`: the result is always below
/// `n`; nothing else is assumed of it.
#[verifier::external_body]
fn random_below(n: usize) -> (r: usize)
    requires
        n >= 1,
    ensures
        r < n,
{
    rand::thread_rng().gen_range(0..n)
}

/// Uniform choice among the healthy backends.
pub struct Random;

impl Random {
    pub fn new() -> (r: Self) {
        Random
    }

    /// Pick some healthy backend. Returns `None` exactly when none is
    /// healthy; which one comes back is up to the random source.
    pub fn pick(&mut self, pool: &BackendPool) -> (r: Option<usize>)
        ensures
            r is Some <==> spec_healthy_indices(pool.backends@).len() > 0,
            r is Some ==> spec_healthy_indices(pool.backends@).contains(r->0),
            r is Some ==> r->0 < pool.backends@.len() && pool.backends@[
                r->0 as int
            ].health_state is Healthy,
    {
        let candidates = pool.healthy_indices();
        if candidates.len() == 0 {
            return None;
        }
        let i = random_below(candidates.len());
        let idx = candidates[i];
        proof {
            vstd::std_specs::vec::axiom_spec_len(&pool.backends);
            lemma_healthy_indices_props(pool.backends@);
            assert(spec_healthy_indices(pool.backends@)[i as int] == idx);
        }
        Some(idx)
    }
}

/// Ring entries carry strictly ascending hash keys.
pub open spec fn ring_sorted(r: Seq<(u64, usize)>) -> bool {
    forall|i: int, j: int| 0 <= i < j < r.len() ==> r[i].0 < r[j].0
}

/// Every ring entry points at a healthy position of `pool`.
pub open spec fn ring_values_healthy(r: Seq<(u64, usize)>, pool: Seq<BackendState>) -> bool {
    forall|i: int|
        0 <= i < r.len() ==> (#[trigger] r[i]).1 < pool.len() && pool[
            r[i].1 as int
        ].health_state is Healthy
}

/// Insert `(h, v)` keeping the order; an entry already keyed `h` is replaced.
pub open spec fn spec_ring_insert(r: Seq<(u64, usize)>, h: u64, v: usize) -> Seq<(u64, usize)>
    decreases r.len(),
{
    if r.len() == 0 {
        seq![(h, v)]
    } else if h < r.first().0 {
        seq![(h, v)] + r
    } else if h == r.first().0 {
        seq![(h, v)] + r.drop_first()
    } else {
        seq![r.first()] + spec_ring_insert(r.drop_first(), h, v)
    }
}

/// Where the insertion lands: at the first position whose key is not below
/// `h`, the insert is a replacement on key equality and a shift otherwise.
proof fn lemma_ring_insert_at(r: Seq<(u64, usize)>, h: u64, v: usize, pos: int)
    requires
        ring_sorted(r),
        0 <= pos <= r.len(),
        forall|i: int| 0 <= i < pos ==> r[i].0 < h,
        pos < r.len() ==> r[pos].0 >= h,
    ensures
        pos < r.len() && r[pos].0 == h ==> spec_ring_insert(r, h, v) == r.update(pos, (h, v)),
        (pos == r.len() || r[pos].0 > h) ==> spec_ring_insert(r, h, v) == r.insert(pos, (h, v)),
    decreases r.len(),
{
    if r.len() == 0 {
        assert(spec_ring_insert(r, h, v) =~= r.insert(0, (h, v)));
    } else if h < r.first().0 {
        assert(pos == 0);
        assert(spec_ring_insert(r, h, v) =~= r.insert(0, (h, v)));
    } else if h == r.first().0 {
        assert(pos == 0);
        assert(spec_ring_insert(r, h, v) =~= r.update(0, (h, v)));
    } else {
        assert(pos >= 1);
        let rd = r.drop_first();
        assert(forall|i: int| 0 <= i < pos - 1 ==> rd[i].0 == r[i + 1].0 && r[i + 1].0 < h);
        lemma_ring_insert_at(rd, h, v, pos - 1);
        if pos < r.len() && r[pos].0 == h {
            assert(spec_ring_insert(r, h, v) =~= r.update(pos, (h, v)));
        } else {
            assert(spec_ring_insert(r, h, v) =~= r.insert(pos, (h, v)));
        }
    }
}

/// Insertion keeps the keys sorted, keeps at least one entry, and adds no
/// value beyond `v` to those already present.
proof fn lemma_ring_insert_props(r: Seq<(u64, usize)>, h: u64, v: usize)
    requires
        ring_sorted(r),
    ensures
        ring_sorted(spec_ring_insert(r, h, v)),
        spec_ring_insert(r, h, v).len() >= 1,
        spec_ring_insert(r, h, v).len() >= r.len(),
        forall|i: int|
            0 <= i < spec_ring_insert(r, h, v).len() ==> (#[trigger] spec_ring_insert(r, h, v)[i]).1
                == v || exists|j: int| 0 <= j < r.len() && r[j].1 == spec_ring_insert(r, h, v)[i].1,
    decreases r.len(),
{
    let out = spec_ring_insert(r, h, v);
    if r.len() == 0 {
    } else if h < r.first().0 {
        assert forall|i: int| 0 <= i < out.len() implies (#[trigger] out[i]).1 == v || exists|j: int|
            0 <= j < r.len() && r[j].1 == out[i].1 by {
            if i >= 1 {
                assert(r[i - 1].1 == out[i].1);
            }
        }
    } else if h == r.first().0 {
        assert forall|i: int| 0 <= i < out.len() implies (#[trigger] out[i]).1 == v || exists|j: int|
            0 <= j < r.len() && r[j].1 == out[i].1 by {
            if i >= 1 {
                assert(r[i].1 == out[i].1);
            }
        }
    } else {
        let rd = r.drop_first();
        lemma_ring_insert_props(rd, h, v);
        let sub = spec_ring_insert(rd, h, v);
        assert(out == seq![r.first()] + sub);
        // The recursive part starts at or above `h`, which exceeds the head key.
        assert forall|i: int, j: int| 0 <= i < j < out.len() implies out[i].0 < out[j].0 by {
            if i == 0 {
                assert(out[j] == sub[j - 1]);
                if sub[j - 1].0 != h {
                    let sj = j - 1;
                    if rd.len() > 0 {
                        assert(forall|k: int| 0 <= k < rd.len() ==> r.first().0 < (#[trigger] rd[k]).0);
                    }
                    lemma_ring_insert_keys_low(rd, h, v, r.first().0);
                } else {
                    assert(out[i].0 < h);
                }
            } else {
                assert(out[i] == sub[i - 1] && out[j] == sub[j - 1]);
            }
        }
        assert forall|i: int| 0 <= i < out.len() implies (#[trigger] out[i]).1 == v || exists|j: int|
            0 <= j < r.len() && r[j].1 == out[i].1 by {
            if i == 0 {
                assert(r[0].1 == out[0].1);
            } else {
                assert(out[i] == sub[i - 1]);
                if sub[i - 1].1 != v {
                    let j = choose|j: int| 0 <= j < rd.len() && rd[j].1 == sub[i - 1].1;
                    assert(r[j + 1].1 == out[i].1);
                }
            }
        }
    }
}

/// Every key of the inserted ring is at least the least of `h` and the old
/// keys; used to order the head against the recursive tail.
proof fn lemma_ring_insert_keys_low(r: Seq<(u64, usize)>, h: u64, v: usize, bound: u64)
    requires
        ring_sorted(r),
        bound < h,
        forall|k: int| 0 <= k < r.len() ==> bound < (#[trigger] r[k]).0,
    ensures
        forall|k: int|
            0 <= k < spec_ring_insert(r, h, v).len() ==> bound < (#[trigger] spec_ring_insert(
                r,
                h,
                v,
            )[k]).0,
    decreases r.len(),
{
    let out = spec_ring_insert(r, h, v);
    if r.len() == 0 {
    } else if h < r.first().0 {
        assert forall|k: int| 0 <= k < out.len() implies bound < (#[trigger] out[k]).0 by {
            if k >= 1 {
                assert(out[k] == r[k - 1]);
            }
        }
    } else if h == r.first().0 {
        assert forall|k: int| 0 <= k < out.len() implies bound < (#[trigger] out[k]).0 by {
            if k >= 1 {
                assert(out[k] == r[k]);
            }
        }
    } else {
        let rd = r.drop_first();
        assert(forall|k: int| 0 <= k < rd.len() ==> bound < (#[trigger] rd[k]).0);
        lemma_ring_insert_keys_low(rd, h, v, bound);
        let sub = spec_ring_insert(rd, h, v);
        assert forall|k: int| 0 <= k < out.len() implies bound < (#[trigger] out[k]).0 by {
            if k >= 1 {
                assert(out[k] == sub[k - 1]);
            }
        }
    }
}

/// Keep the ring sorted while inserting `(h, v)`; an entry with the same key
/// is replaced, as a keyed map would.
fn ring_insert(ring: &mut Vec<(u64, usize)>, h: u64, v: usize)
    requires
        ring_sorted(old(ring)@),
    ensures
        final(ring)@ == spec_ring_insert(old(ring)@, h, v),
        ring_sorted(final(ring)@),
{
    let mut pos: usize = 0;
    while pos < ring.len() && ring[pos].0 < h
        invariant
            ring@ == old(ring)@,
            pos <= ring@.len(),
            forall|i: int| 0 <= i < pos ==> ring@[i].0 < h,
        decreases ring@.len() - pos,
    {
        pos += 1;
    }
    proof {
        lemma_ring_insert_at(old(ring)@, h, v, pos as int);
        lemma_ring_insert_props(old(ring)@, h, v);
    }
    if pos < ring.len() && ring[pos].0 == h {
        ring.remove(pos);
        ring.insert(pos, (h, v));
        proof {
            assert(ring@ =~= old(ring)@.update(pos as int, (h, v)));
        }
    } else {
        ring.insert(pos, (h, v));
    }
}

/// Bytes hashed for one virtual node: `address`, a dash, the replica number.
pub open spec fn spec_ring_key(addr: Seq<u8>, replica: u32) -> Seq<u8> {
    addr + seq![45u8] + spec_u64_dec(replica as u64)
}

fn ring_key(addr: &str, replica: u32) -> (k: Vec<u8>)
    ensures
        k@ == spec_ring_key(addr.spec_bytes(), replica),
{
    let mut k: Vec<u8> = Vec::new();
    k.extend_from_slice(addr.as_bytes());
    k.push(45);
    push_u64_dec(replica as u64, &mut k);
    proof {
        assert(k@ =~= spec_ring_key(addr.spec_bytes(), replica));
    }
    k
}

/// The ring after adding virtual nodes `0 .. count` for position `idx` whose
/// address has bytes `addr`.
pub open spec fn spec_ring_add_replicas(
    r: Seq<(u64, usize)>,
    addr: Seq<u8>,
    idx: usize,
    count: u32,
) -> Seq<(u64, usize)>
    decreases count,
{
    if count == 0 {
        r
    } else {
        spec_ring_insert(
            spec_ring_add_replicas(r, addr, idx, (count - 1) as u32),
            spec_hash64(spec_ring_key(addr, (count - 1) as u32)),
            idx,
        )
    }
}

/// Adding replicas keeps the ring sorted, never shrinks it, and points new
/// entries at `idx` only.
proof fn lemma_ring_add_replicas_props(
    r: Seq<(u64, usize)>,
    addr: Seq<u8>,
    idx: usize,
    count: u32,
)
    requires
        ring_sorted(r),
    ensures
        ring_sorted(spec_ring_add_replicas(r, addr, idx, count)),
        spec_ring_add_replicas(r, addr, idx, count).len() >= r.len(),
        count >= 1 ==> spec_ring_add_replicas(r, addr, idx, count).len() >= 1,
        forall|i: int|
            0 <= i < spec_ring_add_replicas(r, addr, idx, count).len() ==> (
            #[trigger] spec_ring_add_replicas(r, addr, idx, count)[i]).1 == idx || exists|j: int|
                0 <= j < r.len() && r[j].1 == spec_ring_add_replicas(r, addr, idx, count)[i].1,
    decreases count,
{
    if count > 0 {
        lemma_ring_add_replicas_props(r, addr, idx, (count - 1) as u32);
        let pre = spec_ring_add_replicas(r, addr, idx, (count - 1) as u32);
        lemma_ring_insert_props(pre, spec_hash64(spec_ring_key(addr, (count - 1) as u32)), idx);
        let out = spec_ring_add_replicas(r, addr, idx, count);
        assert forall|i: int| 0 <= i < out.len() implies (#[trigger] out[i]).1 == idx || exists|
            j: int,
        | 0 <= j < r.len() && r[j].1 == out[i].1 by {
            if out[i].1 != idx {
                let k = choose|k: int| 0 <= k < pre.len() && pre[k].1 == out[i].1;
                assert(pre[k].1 == out[i].1);
            }
        }
    }
}

/// `a * b` capped at `u32::MAX`.
pub open spec fn sat_mul_u32(a: u32, b: u32) -> u32 {
    if a * b > u32::MAX {
        u32::MAX
    } else {
        (a * b) as u32
    }
}

fn sat_mul_u32_exec(a: u32, b: u32) -> (r: u32)
    ensures
        r == sat_mul_u32(a, b),
{
    match a.checked_mul(b) {
        Some(p) => p,
        None => u32::MAX,
    }
}

/// Weight of the pool entry at `idx`, floored at 1.
pub open spec fn spec_entry_weight(pool: Seq<BackendState>, idx: usize) -> u32 {
    if pool[idx as int].backend.weight >= 1 {
        pool[idx as int].backend.weight
    } else {
        1u32
    }
}

/// The ring grown from the healthy candidates, `replicas * weight` virtual
/// nodes each, in candidate order.
pub open spec fn spec_build_ring(
    pool: Seq<BackendState>,
    cands: Seq<usize>,
    replicas: u32,
) -> Seq<(u64, usize)>
    decreases cands.len(),
{
    if cands.len() == 0 {
        Seq::empty()
    } else {
        let pre = spec_build_ring(pool, cands.drop_last(), replicas);
        let idx = cands.last();
        if idx < pool.len() {
            spec_ring_add_replicas(
                pre,
                str_bytes(pool[idx as int].backend.address@),
                idx,
                sat_mul_u32(replicas, spec_entry_weight(pool, idx)),
            )
        } else {
            pre
        }
    }
}

/// The built ring is sorted; when `replicas >= 1` and an in-range candidate
/// exists it is non-empty; and every entry's value is one of the candidates.
proof fn lemma_build_ring_props(pool: Seq<BackendState>, cands: Seq<usize>, replicas: u32)
    ensures
        ring_sorted(spec_build_ring(pool, cands, replicas)),
        replicas >= 1 && (exists|c: int| 0 <= c < cands.len() && (#[trigger] cands[c]) < pool.len())
            ==> spec_build_ring(pool, cands, replicas).len() >= 1,
        forall|i: int|
            0 <= i < spec_build_ring(pool, cands, replicas).len() ==> exists|c: int|
                0 <= c < cands.len() && (#[trigger] cands[c]) == (#[trigger] spec_build_ring(
                    pool,
                    cands,
                    replicas,
                )[i]).1,
    decreases cands.len(),
{
    if cands.len() > 0 {
        lemma_build_ring_props(pool, cands.drop_last(), replicas);
        let pre = spec_build_ring(pool, cands.drop_last(), replicas);
        let idx = cands.last();
        let out = spec_build_ring(pool, cands, replicas);
        if idx < pool.len() {
            let addr = str_bytes(pool[idx as int].backend.address@);
            let count = sat_mul_u32(replicas, spec_entry_weight(pool, idx));
            lemma_ring_add_replicas_props(pre, addr, idx, count);
            if replicas >= 1 {
                assert(replicas * spec_entry_weight(pool, idx) >= replicas * 1) by (nonlinear_arith)
                    requires
                        replicas >= 1,
                        spec_entry_weight(pool, idx) >= 1,
                ;
                assert(count >= 1);
            }
        }
        if replicas >= 1 && (exists|c: int|
            0 <= c < cands.len() && (#[trigger] cands[c]) < pool.len()) {
            let c = choose|c: int| 0 <= c < cands.len() && (#[trigger] cands[c]) < pool.len();
            if c < cands.len() - 1 {
                assert(cands.drop_last()[c] == cands[c]);
                assert(exists|d: int|
                    0 <= d < cands.drop_last().len() && (#[trigger] cands.drop_last()[d])
                        < pool.len());
                assert(pre.len() >= 1);
            }
            assert(out.len() >= 1);
        }
        assert forall|i: int| 0 <= i < out.len() implies exists|c: int|
            0 <= c < cands.len() && (#[trigger] cands[c]) == (#[trigger] out[i]).1 by {
            if idx < pool.len() {
                if out[i].1 == idx {
                    assert(cands[cands.len() - 1] == out[i].1);
                } else {
                    let j = choose|j: int| 0 <= j < pre.len() && pre[j].1 == out[i].1;
                    let c = choose|c: int|
                        0 <= c < cands.drop_last().len() && (#[trigger] cands.drop_last()[c])
                            == pre[j].1;
                    assert(cands[c] == out[i].1);
                }
            } else {
                let c = choose|c: int|
                    0 <= c < cands.drop_last().len() && (#[trigger] cands.drop_last()[c]) == out[i].1;
                assert(cands[c] == out[i].1);
            }
        }
    }
}

/// Build the weighted virtual-node ring for the candidate positions.
pub fn build_ring(pool: &BackendPool, indices: &Vec<usize>, replicas: u32) -> (ring: Vec<
    (u64, usize),
>)
    ensures
        ring@ == spec_build_ring(pool.backends@, indices@, replicas),
        ring_sorted(ring@),
{
    let mut ring: Vec<(u64, usize)> = Vec::new();
    let mut c: usize = 0;
    proof {
        assert(indices@.subrange(0, 0) =~= Seq::<usize>::empty());
    }
    while c < indices.len()
        invariant
            c <= indices@.len(),
            ring@ == spec_build_ring(pool.backends@, indices@.subrange(0, c as int), replicas),
            ring_sorted(ring@),
        decreases indices@.len() - c,
    {
        let idx = indices[c];
        proof {
            assert(indices@.subrange(0, c + 1).drop_last() =~= indices@.subrange(0, c as int));
            assert(indices@.subrange(0, c + 1).last() == indices@[c as int]);
        }
        if idx < pool.len() {
            let ghost pre = ring@;
            let weight = pool.backends[idx].weight();
            let count = sat_mul_u32_exec(replicas, weight);
            let address = &pool.backends[idx].backend.address;
            let ghost addr_bytes = str_bytes(address@);
            let mut replica: u32 = 0;
            while replica < count
                invariant
                    replica <= count,
                    ring@ == spec_ring_add_replicas(pre, addr_bytes, idx, replica),
                    ring_sorted(ring@),
                    idx < pool.backends@.len(),
                    address == pool.backends@[idx as int].backend.address,
                    addr_bytes == str_bytes(address@),
                decreases count - replica,
            {
                let a = address.as_str();
                proof {
                    assert(a.spec_bytes() == addr_bytes);
                }
                let key = ring_key(a, replica);
                let h = hash64(key.as_slice());
                ring_insert(&mut ring, h, idx);
                replica += 1;
                proof {
                    assert(spec_ring_add_replicas(pre, addr_bytes, idx, replica)
                        == spec_ring_insert(
                        spec_ring_add_replicas(pre, addr_bytes, idx, (replica - 1) as u32),
                        spec_hash64(spec_ring_key(addr_bytes, (replica - 1) as u32)),
                        idx,
                    ));
                }
            }
        }
        c += 1;
    }
    proof {
        assert(indices@.subrange(0, indices@.len() as int) =~= indices@);
    }
    ring
}

/// Value of the first entry whose key is at least `h`.
pub open spec fn spec_first_ge(r: Seq<(u64, usize)>, h: u64) -> Option<usize>
    decreases r.len(),
{
    if r.len() == 0 {
        None
    } else if r.first().0 >= h {
        Some(r.first().1)
    } else {
        spec_first_ge(r.drop_first(), h)
    }
}

/// Ring lookup: the first entry at or after `h`, wrapping to the first entry
/// of the ring.
pub open spec fn spec_ring_pick(r: Seq<(u64, usize)>, h: u64) -> Option<usize> {
    match spec_first_ge(r, h) {
        Some(v) => Some(v),
        None => if r.len() > 0 {
            Some(r.first().1)
        } else {
            None
        },
    }
}

/// A pick, when the ring is non-empty, hands back the value of some entry.
proof fn lemma_ring_pick_is_entry(r: Seq<(u64, usize)>, h: u64)
    ensures
        r.len() == 0 ==> spec_ring_pick(r, h) is None,
        r.len() > 0 ==> spec_ring_pick(r, h) is Some && exists|i: int|
            0 <= i < r.len() && (#[trigger] r[i]).1 == spec_ring_pick(r, h)->0,
    decreases r.len(),
{
    if r.len() > 0 {
        if r.first().0 >= h {
            assert(r[0].1 == spec_ring_pick(r, h)->0);
        } else {
            let rd = r.drop_first();
            lemma_ring_pick_is_entry(rd, h);
            if rd.len() == 0 {
                assert(r[0].1 == spec_ring_pick(r, h)->0);
            } else {
                match spec_first_ge(rd, h) {
                    Some(v) => {
                        let i = choose|i: int| 0 <= i < rd.len() && (#[trigger] rd[i]).1 == v;
                        assert(r[i + 1].1 == spec_ring_pick(r, h)->0);
                    },
                    None => {
                        assert(r[0].1 == spec_ring_pick(r, h)->0);
                    },
                }
            }
        }
    }
}

/// Find the ring entry for hash `h`.
fn ring_lookup(ring: &Vec<(u64, usize)>, h: u64) -> (r: Option<usize>)
    ensures
        r == spec_ring_pick(ring@, h),
{
    let mut i: usize = 0;
    proof {
        assert(ring@.skip(0) =~= ring@);
    }
    while i < ring.len()
        invariant
            i <= ring@.len(),
            spec_first_ge(ring@, h) == spec_first_ge(ring@.skip(i as int), h),
        decreases ring@.len() - i,
    {
        proof {
            assert(ring@.skip(i as int).first() == ring@[i as int]);
            assert(ring@.skip(i as int).drop_first() =~= ring@.skip(i as int + 1));
        }
        if ring[i].0 >= h {
            return Some(ring[i].1);
        }
        i += 1;
    }
    if ring.len() > 0 {
        Some(ring[0].1)
    } else {
        None
    }
}

/// Weighted consistent hashing over an FNV-1a ring.
pub struct ConsistentHash {
    pub replicas: u32,
}

impl ConsistentHash {
    /// What a pick returns: `None` without healthy candidates, else the ring
    /// entry at or after the key's hash, wrapping to the smallest.
    pub open spec fn spec_pick(replicas: u32, key: Seq<u8>, pool: Seq<BackendState>) -> Option<
        usize,
    > {
        if pool.len() == 0 {
            None
        } else {
            let cands = spec_healthy_indices(pool);
            if cands.len() == 0 {
                None
            } else {
                spec_ring_pick(spec_build_ring(pool, cands, replicas), spec_hash64(key))
            }
        }
    }

    pub fn new(replicas: u32) -> (r: Self)
        ensures
            r.replicas == if replicas >= 1 { replicas } else { 1u32 },
    {
        ConsistentHash { replicas: if replicas >= 1 { replicas } else { 1 } }
    }

    /// Deterministic pick for `key`: a function of the key's bytes and the
    /// pool alone. With at least one virtual node per candidate, it returns
    /// `Some` exactly when a healthy backend exists, and what it returns is
    /// healthy.
    pub fn pick(&self, key: &str, pool: &BackendPool) -> (r: Option<usize>)
        ensures
            r == Self::spec_pick(self.replicas, str_bytes(key@), pool.backends@),
            self.replicas >= 1 ==> (r is Some <==> spec_healthy_indices(pool.backends@).len() > 0),
            r is Some ==> r->0 < pool.backends@.len() && pool.backends@[
                r->0 as int
            ].health_state is Healthy,
    {
        if pool.is_empty() {
            return None;
        }
        let candidates = pool.healthy_indices();
        proof {
            vstd::std_specs::vec::axiom_spec_len(&pool.backends);
            lemma_healthy_indices_props(pool.backends@);
        }
        if candidates.len() == 0 {
            return None;
        }
        let ring = build_ring(pool, &candidates, self.replicas);
        let key_hash = hash64(key.as_bytes());
        let r = ring_lookup(&ring, key_hash);
        proof {
            let cands = spec_healthy_indices(pool.backends@);
            lemma_build_ring_props(pool.backends@, cands, self.replicas);
            lemma_ring_pick_is_entry(ring@, key_hash);
            if self.replicas >= 1 {
                assert(cands[0] < pool.backends@.len());
            }
            if r is Some {
                let i = choose|i: int| 0 <= i < ring@.len() && (#[trigger] ring@[i]).1 == r->0;
                let c = choose|c: int| 0 <= c < cands.len() && (#[trigger] cands[c]) == ring@[i].1;
                assert(pool.backends@[cands[c] as int].health_state is Healthy);
            }
        }
        r
    }
}

/// The ring with every virtual node of position `b` taken out, order kept.
/// This is the ring the pool without backend `b` builds whenever no two
/// virtual nodes hash alike (a collision could let one backend's node shadow
/// another's).
pub open spec fn ring_without(r: Seq<(u64, usize)>, b: usize) -> Seq<(u64, usize)>
    decreases r.len(),
{
    if r.len() == 0 {
        Seq::empty()
    } else if r.first().1 == b {
        ring_without(r.drop_first(), b)
    } else {
        seq![r.first()] + ring_without(r.drop_first(), b)
    }
}

/// Taking out `b`'s nodes moves no other key's successor: a first-at-or-after
/// entry that did not belong to `b` stays the first, and where none existed
/// none appears.
proof fn lemma_first_ge_without(r: Seq<(u64, usize)>, b: usize, h: u64)
    ensures
        spec_first_ge(r, h) matches Some(v) ==> (v != b ==> spec_first_ge(ring_without(r, b), h)
            == Some(v)),
        spec_first_ge(r, h) is None ==> spec_first_ge(ring_without(r, b), h) is None,
    decreases r.len(),
{
    if r.len() > 0 {
        lemma_first_ge_without(r.drop_first(), b, h);
        let rest = ring_without(r.drop_first(), b);
        if r.first().1 == b {
            assert(ring_without(r, b) == rest);
        } else {
            assert(ring_without(r, b) == seq![r.first()] + rest);
            assert(ring_without(r, b).first() == r.first());
            assert(ring_without(r, b).drop_first() =~= rest);
        }
    }
}

/// Consistent hashing reassigns only the removed backend's keys: a key whose
/// pick on the full ring was some other backend picks the same entry on the
/// ring without `b`'s virtual nodes — so after one backend leaves, every key
/// it did not own keeps its assignment.
pub proof fn lemma_ring_pick_stable_without(r: Seq<(u64, usize)>, b: usize, h: u64)
    requires
        spec_ring_pick(r, h) matches Some(v) && v != b,
    ensures
        spec_ring_pick(ring_without(r, b), h) == spec_ring_pick(r, h),
{
    lemma_first_ge_without(r, b, h);
    match spec_first_ge(r, h) {
        Some(v) => {
        },
        None => {
            assert(r.len() > 0);
            assert(spec_ring_pick(r, h) == Some(r.first().1));
            assert(r.first().1 != b);
            assert(ring_without(r, b) == seq![r.first()] + ring_without(r.drop_first(), b));
            assert(ring_without(r, b).first() == r.first());
        },
    }
}

/// The configured strategy name, trimmed and lower-cased, as bytes.
pub open spec fn spec_mode_token(value: Seq<char>) -> Seq<u8> {
    lower_bytes(spec_trim(str_bytes(value)))
}

pub open spec fn spec_is_round_robin(t: Seq<u8>) -> bool {
    t == str_bytes("round-robin"@) || t == str_bytes("round_robin"@) || t == str_bytes("rr"@)
}

pub open spec fn spec_is_consistent_hash(t: Seq<u8>) -> bool {
    t == str_bytes("consistent-hash"@) || t == str_bytes("consistent_hash"@) || t == str_bytes(
        "ch"@,
    )
}

pub open spec fn spec_is_random(t: Seq<u8>) -> bool {
    t == str_bytes("random"@)
}

/// The configured selection strategy.
pub enum LoadBalancing {
    RoundRobin(RoundRobin),
    ConsistentHash(ConsistentHash),
    Random(Random),
}

impl LoadBalancing {
    /// A consistent-hash strategy must carry at least one virtual node per
    /// unit of weight; the other strategies carry nothing to constrain.
    pub open spec fn wf(self) -> bool {
        match self {
            LoadBalancing::ConsistentHash(c) => c.replicas >= 1,
            _ => true,
        }
    }

    /// The strategy a configured name denotes, if any.
    pub open spec fn spec_from_config(t: Seq<u8>) -> Option<LoadBalancing> {
        if spec_is_round_robin(t) {
            Some(LoadBalancing::RoundRobin(RoundRobin { next: 0 }))
        } else if spec_is_consistent_hash(t) {
            Some(LoadBalancing::ConsistentHash(ConsistentHash { replicas: DEFAULT_REPLICAS }))
        } else if spec_is_random(t) {
            Some(LoadBalancing::Random(Random))
        } else {
            None
        }
    }

    /// Parse a strategy name, ignoring case and surrounding whitespace.
    pub fn from_config(value: &str) -> (r: Result<Self, String>)
        ensures
            Self::spec_from_config(spec_mode_token(value@)) matches Some(lb) ==> r == Ok::<
                LoadBalancing,
                String,
            >(lb),
            Self::spec_from_config(spec_mode_token(value@)) is None ==> r is Err,
            r matches Ok(lb) ==> lb.wf(),
    {
        let t = normalize_token(value.as_bytes());
        let tok = t.as_slice();
        if bytes_eq(tok, "round-robin".as_bytes()) || bytes_eq(tok, "round_robin".as_bytes())
            || bytes_eq(tok, "rr".as_bytes()) {
            Ok(LoadBalancing::RoundRobin(RoundRobin::new()))
        } else if bytes_eq(tok, "consistent-hash".as_bytes()) || bytes_eq(
            tok,
            "consistent_hash".as_bytes(),
        ) || bytes_eq(tok, "ch".as_bytes()) {
            Ok(LoadBalancing::ConsistentHash(ConsistentHash::new(DEFAULT_REPLICAS)))
        } else if bytes_eq(tok, "random".as_bytes()) {
            Ok(LoadBalancing::Random(Random::new()))
        } else {
            let mut message = String::from_str("unsupported load balancing type: ");
            message.append(value);
            Err(message)
        }
    }

    /// Pick a healthy backend for `key` with whichever strategy this is.
    /// For a well-formed strategy the pick is `Some` exactly when a healthy
    /// backend exists, and what comes back is always healthy.
    pub fn pick(&mut self, key: &str, pool: &BackendPool) -> (r: Option<usize>)
        ensures
            old(self).wf() ==> (r is Some <==> spec_healthy_indices(pool.backends@).len() > 0),
            r is Some ==> r->0 < pool.backends@.len() && pool.backends@[
                r->0 as int
            ].health_state is Healthy,
            old(self).wf() ==> final(self).wf(),
            (*old(self)) matches LoadBalancing::ConsistentHash(ch) ==> r == ConsistentHash::spec_pick(
                ch.replicas,
                str_bytes(key@),
                pool.backends@,
            ) && *final(self) == *old(self),
    {
        match self {
            LoadBalancing::RoundRobin(rr) => rr.pick(pool),
            LoadBalancing::ConsistentHash(ch) => ch.pick(key, pool),
            LoadBalancing::Random(rand) => rand.pick(pool),
        }
    }
}

/// Consistent hashing is deterministic: what a pick returns is a function of
/// the key's bytes and the pool alone, so two picks with the same key on the
/// same pool agree.
pub proof fn lemma_consistent_hash_deterministic(
    replicas: u32,
    key: Seq<u8>,
    pool: Seq<BackendState>,
    r1: Option<usize>,
    r2: Option<usize>,
)
    requires
        r1 == ConsistentHash::spec_pick(replicas, key, pool),
        r2 == ConsistentHash::spec_pick(replicas, key, pool),
    ensures
        r1 == r2,
{
}

/// The cursor offset at which round-robin reads position `k` of the healthy
/// list: how far past `c` the cycle reaches `k`.
pub open spec fn rr_witness(c: usize, len: usize, k: int) -> int {
    let l = len as int;
    let r = (c as int) % l;
    if k >= r {
        k - r
    } else {
        k + l - r
    }
}

/// Round-robin's cycle: over a stable healthy list of length `len`, the `len`
/// consecutive cursor values starting at `c` read each position exactly once
/// — no position twice, and none missed. (If the cursor wrapped around the
/// machine word inside the cycle this could fail, so the cycle is required
/// to fit.)
pub proof fn lemma_round_robin_cycle(c: usize, len: usize)
    requires
        len >= 1,
        c + len - 1 <= usize::MAX,
    ensures
        forall|j1: int, j2: int|
            0 <= j1 < j2 < len ==> #[trigger] ((c + j1) % (len as int)) != #[trigger] ((c + j2) % (
            len as int)),
        forall|k: int|
            0 <= k < len ==> 0 <= #[trigger] rr_witness(c, len, k) < len && (c + rr_witness(
                c,
                len,
                k,
            )) % (len as int) == k,
{
    let l = len as int;
    assert forall|j1: int, j2: int| 0 <= j1 < j2 < len implies #[trigger] ((c + j1) % l)
        != #[trigger] ((c + j2) % l) by {
        if (c + j1) % l == (c + j2) % l {
            vstd::arithmetic::div_mod::lemma_fundamental_div_mod(c + j1, l);
            vstd::arithmetic::div_mod::lemma_fundamental_div_mod(c + j2, l);
            let q1 = (c + j1) / l;
            let q2 = (c + j2) / l;
            assert(j2 - j1 == l * (q2 - q1)) by (nonlinear_arith)
                requires
                    c + j1 == l * q1 + (c + j1) % l,
                    c + j2 == l * q2 + (c + j2) % l,
                    (c + j1) % l == (c + j2) % l,
            ;
            assert(q2 - q1 >= 1) by (nonlinear_arith)
                requires
                    l > 0,
                    l * (q2 - q1) > 0,
            ;
            assert(l * (q2 - q1) >= l) by (nonlinear_arith)
                requires
                    l > 0,
                    q2 - q1 >= 1,
            ;
        }
    }
    assert forall|k: int| 0 <= k < len implies 0 <= #[trigger] rr_witness(c, len, k) < len && (c
        + rr_witness(c, len, k)) % l == k by {
        vstd::arithmetic::div_mod::lemma_fundamental_div_mod(c as int, l);
        vstd::arithmetic::div_mod::lemma_mod_division_less_than_divisor(c as int, l);
        let r = (c as int) % l;
        let q = (c as int) / l;
        let j: int = rr_witness(c, len, k);
        assert(0 <= j < l);
        if k >= r {
            assert(c + j == l * q + k);
            vstd::arithmetic::div_mod::lemma_mod_multiples_vanish(q, k, l);
        } else {
            assert(l * (q + 1) == l * q + l) by (nonlinear_arith);
            assert(c + j == l * (q + 1) + k);
            vstd::arithmetic::div_mod::lemma_mod_multiples_vanish(q + 1, k, l);
        }
        vstd::arithmetic::div_mod::lemma_small_mod(k as nat, l as nat);
        assert((c + j) % l == k);
    }
}

} // verus!
