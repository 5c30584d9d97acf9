//! The rate-limiting decorator: independent token schedules for reads and
//! writes, each replenishing at a configured queries-per-second rate. A call
//! that arrives with no token free is assigned the next free slot instead of
//! being rejected, in first-in-first-out order, so throttling never reorders
//! completions of one class relative to arrival; an unconfigured class is not
//! throttled at all.

use vstd::prelude::*;

use crate::blobstore::BlobMap;
use crate::blobstore::Blobstore;
use crate::types::CoreContext;
use crate::types::Presence;
use crate::types::PutBehaviour;
use crate::types::PutStatus;
use crate::types::StorageError;

verus! {

/// Saturating addition on slot times.
pub open spec fn sat_add(a: u64, b: u64) -> u64 {
    if a + b <= u64::MAX {
        (a + b) as u64
    } else {
        u64::MAX
    }
}

/// The replenishment interval for a configured rate, in microseconds; zero
/// (an unconfigured rate, or a rate above one call per microsecond) disables
/// throttling for the class.
pub open spec fn spec_interval(qps: Option<u64>) -> u64
    recommends
        qps matches Some(q) ==> q >= 1,
{
    match qps {
        Option::None => 0,
        Option::Some(q) => (1_000_000int / (if q >= 1 {
            q as int
        } else {
            1int
        })) as u64,
    }
}

/// One class's token schedule, kept as virtual time: `next_slot` is when the
/// next arriving call may complete. A call arriving at `now` completes at
/// `max(now, next_slot)` — immediately if a token is free, else queued behind
/// every earlier call — and pushes `next_slot` one interval further.
#[derive(Clone, Copy, Debug)]
pub struct RateLimiter {
    /// Microseconds between replenished tokens; zero disables throttling.
    pub interval_us: u64,
    /// The earliest completion slot for the next arrival.
    pub next_slot: u64,
}

impl RateLimiter {
    /// The schedule for a configured rate; `None` disables the class.
    pub fn new(qps: Option<u64>) -> (r: RateLimiter)
        requires
            qps matches Some(q) ==> q >= 1,
        ensures
            r.next_slot == 0,
            r.interval_us == spec_interval(qps),
    {
        let interval_us = match qps {
            None => 0,
            Some(q) => 1_000_000 / q,
        };
        RateLimiter { interval_us, next_slot: 0 }
    }

    /// The completion slot handed to a call arriving at `now`.
    pub open spec fn spec_slot(self, now_us: u64) -> u64 {
        if now_us > self.next_slot {
            now_us
        } else {
            self.next_slot
        }
    }

    /// The schedule after admitting a call at `now`.
    pub open spec fn spec_advance(self, now_us: u64) -> RateLimiter {
        RateLimiter {
            interval_us: self.interval_us,
            next_slot: sat_add(self.spec_slot(now_us), self.interval_us),
        }
    }

    /// Admit a call arriving at `now`: returns its completion slot — `now`
    /// itself when a token is free — and books one interval of the schedule.
    pub fn acquire(&mut self, now_us: u64) -> (slot: u64)
        ensures
            slot == old(self).spec_slot(now_us),
            slot >= now_us,
            slot >= old(self).next_slot,
            *final(self) == old(self).spec_advance(now_us),
    {
        let slot = if now_us > self.next_slot {
            now_us
        } else {
            self.next_slot
        };
        self.next_slot = if slot <= u64::MAX - self.interval_us {
            slot + self.interval_us
        } else {
            u64::MAX
        };
        slot
    }
}

/// The completion slots of a sequence of arrivals against one schedule, in
/// arrival order.
pub open spec fn slots_of(l: RateLimiter, nows: Seq<u64>) -> Seq<u64>
    decreases nows.len(),
{
    if nows.len() == 0 {
        Seq::empty()
    } else {
        seq![l.spec_slot(nows.first())] + slots_of(l.spec_advance(nows.first()), nows.drop_first())
    }
}

/// There is one completion slot per arrival.
pub proof fn lemma_slots_len(l: RateLimiter, nows: Seq<u64>)
    ensures
        slots_of(l, nows).len() == nows.len(),
    decreases nows.len(),
{
    if nows.len() > 0 {
        lemma_slots_len(l.spec_advance(nows.first()), nows.drop_first());
    }
}

/// Fairness: completions of one class never reorder relative to arrival. A
/// later arrival never completes before an earlier one, whatever the arrival
/// times.
pub proof fn lemma_throttle_fifo(l: RateLimiter, nows: Seq<u64>, i: int, j: int)
    requires
        0 <= i <= j < nows.len(),
    ensures
        slots_of(l, nows)[i] <= slots_of(l, nows)[j],
    decreases nows.len(),
{
    lemma_slots_len(l, nows);
    lemma_slots_len(l.spec_advance(nows.first()), nows.drop_first());
    if i > 0 {
        lemma_throttle_fifo(l.spec_advance(nows.first()), nows.drop_first(), i - 1, j - 1);
    } else if j > 0 {
        lemma_throttle_fifo(l.spec_advance(nows.first()), nows.drop_first(), 0, j - 1);
        assert(slots_of(l.spec_advance(nows.first()), nows.drop_first())[0] == l.spec_advance(
            nows.first(),
        ).spec_slot(nows.drop_first().first()));
        assert(l.spec_advance(nows.first()).spec_slot(nows.drop_first().first()) >= l.spec_slot(
            nows.first(),
        ));
    }
}

/// Rate: as long as the schedule has not saturated, consecutive completions
/// of one class are at least one replenishment interval apart, so any window
/// holding `k + 1` completions is at least `k` intervals long — aggregate
/// throughput never exceeds the configured rate beyond the one burst token.
pub proof fn lemma_throttle_rate(l: RateLimiter, nows: Seq<u64>, i: int, j: int)
    requires
        0 <= i < j < nows.len(),
        slots_of(l, nows)[j] < u64::MAX,
    ensures
        slots_of(l, nows)[j] >= slots_of(l, nows)[i] + (j - i) * l.interval_us,
    decreases j - i,
{
    lemma_slots_len(l, nows);
    lemma_throttle_step(l, nows, j - 1);
    lemma_throttle_fifo(l, nows, j, j);
    if i < j - 1 {
        assert(slots_of(l, nows)[j - 1] < u64::MAX) by {
            lemma_throttle_fifo(l, nows, j - 1, j);
        }
        lemma_throttle_rate(l, nows, i, j - 1);
        assert((j - i) * l.interval_us == (j - 1 - i) * l.interval_us + l.interval_us)
            by (nonlinear_arith);
    } else {
        assert((j - i) * l.interval_us == l.interval_us) by (nonlinear_arith)
            requires
                j - i == 1,
        ;
    }
}

/// One step of the rate argument: the next completion is a full interval
/// later, unless the schedule has saturated.
proof fn lemma_throttle_step(l: RateLimiter, nows: Seq<u64>, i: int)
    requires
        0 <= i < nows.len() - 1,
    ensures
        slots_of(l, nows)[i + 1] >= slots_of(l, nows)[i] + l.interval_us || slots_of(l, nows)[i + 1]
            == u64::MAX,
    decreases nows.len(),
{
    let rest = nows.drop_first();
    let l1 = l.spec_advance(nows.first());
    lemma_slots_len(l, nows);
    lemma_slots_len(l1, rest);
    if i == 0 {
        assert(slots_of(l, nows)[1] == slots_of(l1, rest)[0]);
        assert(slots_of(l1, rest)[0] == l1.spec_slot(rest.first()));
        if l.spec_slot(nows.first()) + l.interval_us <= u64::MAX {
            assert(l1.next_slot == l.spec_slot(nows.first()) + l.interval_us);
            assert(l1.spec_slot(rest.first()) >= l1.next_slot);
        } else {
            assert(l1.next_slot == u64::MAX);
            assert(l1.spec_slot(rest.first()) == u64::MAX);
        }
    } else {
        lemma_throttle_step(l1, rest, i - 1);
    }
}

/// Configured rates for the two operation classes; an absent rate disables
/// throttling for that class.
#[derive(Clone, Copy, Debug)]
pub struct ThrottleOptions {
    pub read_qps: Option<u64>,
    pub write_qps: Option<u64>,
}

impl ThrottleOptions {
    /// A configured rate of zero queries per second is a configuration error.
    pub open spec fn wf(&self) -> bool {
        &&& (self.read_qps matches Some(q) ==> q >= 1)
        &&& (self.write_qps matches Some(q) ==> q >= 1)
    }
}

/// The rate-limiting wrapper around an inner store: reads and existence
/// checks book the read schedule, writes the write schedule; the wrapped call
/// itself is unchanged.
pub struct ThrottledBlob<B> {
    inner: B,
    read_limiter: RateLimiter,
    write_limiter: RateLimiter,
}

impl<B: Blobstore> ThrottledBlob<B> {
    /// The inner store, as this decorator sees it.
    pub closed spec fn inner_spec(&self) -> B {
        self.inner
    }

    /// The read class's schedule.
    pub closed spec fn read_limiter_spec(&self) -> RateLimiter {
        self.read_limiter
    }

    /// The write class's schedule.
    pub closed spec fn write_limiter_spec(&self) -> RateLimiter {
        self.write_limiter
    }

    /// Wrap `inner` with fresh schedules at the configured rates.
    pub fn new(inner: B, options: ThrottleOptions) -> (r: ThrottledBlob<B>)
        requires
            inner.wf(),
            options.wf(),
        ensures
            r.wf(),
            r.view() == inner.view(),
            r.inner_spec() == inner,
            r.faulty() == inner.faulty(),
            forall|t: u64, k: Seq<u8>| r.put_blocked(t, k) == inner.put_blocked(t, k),
            r.read_limiter_spec().interval_us == spec_interval(options.read_qps),
            r.write_limiter_spec().interval_us == spec_interval(options.write_qps),
            r.read_limiter_spec().next_slot == 0,
            r.write_limiter_spec().next_slot == 0,
    {
        ThrottledBlob {
            inner,
            read_limiter: RateLimiter::new(options.read_qps),
            write_limiter: RateLimiter::new(options.write_qps),
        }
    }

    /// Read access to the inner store, for observation.
    pub fn inner_store(&self) -> (r: &B)
        ensures
            r == self.inner_spec(),
    {
        &self.inner
    }

    /// Mutable access to the inner store, so administrative operations of an
    /// inner layer — dropping caches — can be reached through the stack.
    pub fn inner_store_mut(&mut self) -> (r: &mut B)
        ensures
            *r == old(self).inner_spec(),
            final(self).inner_spec() == *final(r),
            final(self).read_limiter_spec() == old(self).read_limiter_spec(),
            final(self).write_limiter_spec() == old(self).write_limiter_spec(),
    {
        &mut self.inner
    }
}

impl<B: Blobstore> Blobstore for ThrottledBlob<B> {
    open spec fn view(&self) -> BlobMap {
        self.inner_spec().view()
    }

    open spec fn wf(&self) -> bool {
        self.inner_spec().wf()
    }

    open spec fn faulty(&self) -> bool {
        self.inner_spec().faulty()
    }

    open spec fn put_blocked(&self, now_us: u64, key: Seq<u8>) -> bool {
        self.inner_spec().put_blocked(now_us, key)
    }

    /// Books one write token, then writes through.
    fn put(
        &mut self,
        ctx: &CoreContext,
        key: &Vec<u8>,
        value: Vec<u8>,
        behaviour: PutBehaviour,
    ) -> (r: Result<PutStatus, StorageError>)
        ensures
            final(self).write_limiter_spec() == old(self).write_limiter_spec().spec_advance(
                ctx.now_us,
            ),
            final(self).read_limiter_spec() == old(self).read_limiter_spec(),
    {
        let _slot = self.write_limiter.acquire(ctx.now_us);
        self.inner.put(ctx, key, value, behaviour)
    }

    /// Books one read token, then reads through.
    fn get(&mut self, ctx: &CoreContext, key: &Vec<u8>) -> (r: Result<
        Option<Vec<u8>>,
        StorageError,
    >)
        ensures
            final(self).read_limiter_spec() == old(self).read_limiter_spec().spec_advance(
                ctx.now_us,
            ),
            final(self).write_limiter_spec() == old(self).write_limiter_spec(),
    {
        let _slot = self.read_limiter.acquire(ctx.now_us);
        self.inner.get(ctx, key)
    }

    /// Books one read token, then asks through.
    fn is_present(&mut self, ctx: &CoreContext, key: &Vec<u8>) -> (r: Result<
        Presence,
        StorageError,
    >)
        ensures
            final(self).read_limiter_spec() == old(self).read_limiter_spec().spec_advance(
                ctx.now_us,
            ),
            final(self).write_limiter_spec() == old(self).write_limiter_spec(),
    {
        let _slot = self.read_limiter.acquire(ctx.now_us);
        self.inner.is_present(ctx, key)
    }
}

} // verus!
