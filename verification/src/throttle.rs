//! Login throttling: a fixed window in memory, with a limit per source address
//! and a global limit (5 and 20 in 15 minutes by default); a restart clears it.
//!
//! Every failed login is one record of its source address and time; the global
//! count is the number of records in the window, the per-address count the
//! number among them from that address.
use vstd::prelude::*;

use vstd::slice::slice_to_vec;

use crate::session::max_clock;

verus! {

/// A point of the monotonic clock.
#[verifier::external_type_specification]
#[verifier::external_body]
pub struct ExInstant(std::time::Instant);

/// The current point of the monotonic clock (`Instant::now`).
///
/// Trusted: nothing is stated of it.
#[verifier::external_body]
fn instant_now() -> std::time::Instant {
    std::time::Instant::now()
}

/// Nanoseconds elapsed since `origin` (`Instant::elapsed`, `Duration::as_nanos`).
///
/// Trusted: the reading is at most `max_clock()`, the largest `Duration` in
/// nanoseconds (`u64::MAX` seconds and 999,999,999 nanoseconds); which reading
/// it is rests on the clock and is not stated.
#[verifier::external_body]
fn nanos_since(origin: &std::time::Instant) -> (r: u128)
    ensures
        r <= max_clock(),
{
    origin.elapsed().as_nanos()
}

/// Nanoseconds from `t` to `now`, zero when `t` is later.
pub open spec fn elapsed(now: int, t: int) -> int {
    if now >= t {
        now - t
    } else {
        0
    }
}

/// Whether a failure at `t` still counts at `now` in a window of `window` nanoseconds.
pub open spec fn in_window(now: int, t: int, window: int) -> bool {
    elapsed(now, t) < window
}

/// The failures of `f` that still count at `now`, in order.
pub open spec fn live(f: Seq<(Seq<u8>, int)>, now: int, window: int) -> Seq<(Seq<u8>, int)>
    decreases f.len(),
{
    if f.len() == 0 {
        f
    } else {
        let p = live(f.drop_last(), now, window);
        if in_window(now, f.last().1, window) {
            p.push(f.last())
        } else {
            p
        }
    }
}

/// How many failures of `f` come from `ip`.
pub open spec fn count_ip(f: Seq<(Seq<u8>, int)>, ip: Seq<u8>) -> nat
    decreases f.len(),
{
    if f.len() == 0 {
        0
    } else {
        count_ip(f.drop_last(), ip) + if f.last().0 == ip {
            1nat
        } else {
            0nat
        }
    }
}

/// The answer to a login attempt from `ip` at `now`, given the failures `f`:
/// refused, with a `Retry-After` of the window's whole seconds, when the window
/// holds the global limit of failures or the limit of failures from `ip`.
pub open spec fn check_answer(
    f: Seq<(Seq<u8>, int)>,
    ip: Seq<u8>,
    now: int,
    window: int,
    per_ip_limit: int,
    global_limit: int,
) -> Result<(), u64> {
    let l = live(f, now, window);
    if l.len() >= global_limit || count_ip(l, ip) >= per_ip_limit {
        Err((window / 1000000000) as u64)
    } else {
        Ok(())
    }
}

/// The login throttle.
pub struct LoginThrottle {
    window_millis: u64,
    per_ip_limit: usize,
    global_limit: usize,
    origin: std::time::Instant,
    failures: Vec<(Vec<u8>, u128)>,
    latest: u128,
}

/// The view of the stored failures.
pub open spec fn failures_view(v: Seq<(Vec<u8>, u128)>) -> Seq<(Seq<u8>, int)> {
    v.map_values(|r: (Vec<u8>, u128)| (r.0@, r.1 as int))
}

fn bytes_eq(a: &[u8], b: &[u8]) -> (r: bool)
    ensures
        r == (a@ == b@),
{
    if a.len() != b.len() {
        return false;
    }
    let n = a.len();
    let mut i: usize = 0;
    while i < n
        invariant
            n == a@.len(),
            n == b@.len(),
            i <= n,
            forall|j: int| 0 <= j < i ==> a@[j] == b@[j],
        decreases n - i,
    {
        if a[i] != b[i] {
            return false;
        }
        i = i + 1;
    }
    assert(a@ =~= b@);
    true
}

proof fn lemma_count_bound(f: Seq<(Seq<u8>, int)>, ip: Seq<u8>)
    ensures
        count_ip(f, ip) <= f.len(),
    decreases f.len(),
{
    if f.len() > 0 {
        lemma_count_bound(f.drop_last(), ip);
    }
}

impl LoginThrottle {
    /// The failures recorded, oldest first, as (source address, time in nanoseconds).
    pub closed spec fn failures(&self) -> Seq<(Seq<u8>, int)> {
        failures_view(self.failures@)
    }

    /// The window in nanoseconds.
    pub closed spec fn window_nanos(&self) -> int {
        self.window_millis * 1000000
    }

    /// The limit of failures from one address.
    pub closed spec fn per_ip(&self) -> int {
        self.per_ip_limit as int
    }

    /// The limit of failures from all addresses.
    pub closed spec fn global(&self) -> int {
        self.global_limit as int
    }

    /// The latest clock reading the throttle has seen.
    pub closed spec fn latest_reading(&self) -> int {
        self.latest as int
    }

    /// The throttle's invariant: no failure is recorded later than the latest
    /// reading.
    pub closed spec fn wf(&self) -> bool {
        forall|i: int| 0 <= i < self.failures().len() ==> #[trigger] self.failures()[i].1 <= self.latest_reading()
    }

    /// A throttle with a window of `window_millis` milliseconds, at most
    /// `per_ip_limit` failures from one address and `global_limit` in all.
    pub fn new(window_millis: u64, per_ip_limit: usize, global_limit: usize) -> (r: LoginThrottle)
        ensures
            r.wf(),
            r.failures() == Seq::<(Seq<u8>, int)>::empty(),
            r.window_nanos() == window_millis * 1000000,
            r.per_ip() == per_ip_limit,
            r.global() == global_limit,
            r.latest_reading() == 0,
    {
        let r = LoginThrottle {
            window_millis,
            per_ip_limit,
            global_limit,
            origin: instant_now(),
            failures: Vec::new(),
            latest: 0,
        };
        assert(r.failures() =~= Seq::<(Seq<u8>, int)>::empty());
        r
    }

    /// Whether a login attempt from `ip` at time `now` may go ahead; refused,
    /// with the suggested `Retry-After` seconds, when the window holds the
    /// global limit of failures or the limit from `ip`. Failures that have left
    /// the window are dropped. The latest reading becomes `now` if it is later.
    pub fn check_at(&mut self, ip: &[u8], now: u128) -> (r: Result<(), u64>)
        requires
            old(self).wf(),
        ensures
            final(self).wf(),
            final(self).latest_reading() == if now > old(self).latest_reading() { now as int } else { old(self).latest_reading() },
            r == check_answer(old(self).failures(), ip@, now as int, old(self).window_nanos(), old(self).per_ip(), old(self).global()),
            final(self).failures() == live(old(self).failures(), now as int, old(self).window_nanos()),
            final(self).window_nanos() == old(self).window_nanos(),
            final(self).per_ip() == old(self).per_ip(),
            final(self).global() == old(self).global(),
    {
        let ghost f0 = self.failures();
        let window = (self.window_millis as u128) * 1000000;
        let mut kept: Vec<(Vec<u8>, u128)> = Vec::new();
        let n = self.failures.len();
        let mut i: usize = 0;
        let mut from_ip: usize = 0;
        while i < n
            invariant
                n == self.failures@.len(),
                f0 == failures_view(self.failures@),
                i <= n,
                window == self.window_millis * 1000000,
                failures_view(kept@) == live(f0.take(i as int), now as int, window as int),
                from_ip == count_ip(failures_view(kept@), ip@),
                from_ip <= kept@.len(),
                kept@.len() <= i,
                forall|j: int| 0 <= j < f0.len() ==> #[trigger] f0[j].1 <= self.latest,
                forall|j: int| 0 <= j < kept@.len() ==> #[trigger] kept@[j].1 <= self.latest,
            decreases n - i,
        {
            let t = self.failures[i].1;
            let el = if now >= t {
                now - t
            } else {
                0
            };
            proof {
                assert(f0.take(i + 1).drop_last() =~= f0.take(i as int));
                assert(f0.take(i + 1).last() == f0[i as int]);
            }
            if el < window {
                let same = bytes_eq(&self.failures[i].0, ip);
                let rec = (slice_to_vec(&self.failures[i].0), t);
                let ghost before = kept@;
                assert(f0[i as int].1 == t);
                kept.push(rec);
                assert(failures_view(kept@) =~= failures_view(before).push(f0[i as int]));
                assert(failures_view(kept@).drop_last() =~= failures_view(before));
                proof {
                    lemma_count_bound(failures_view(before), ip@);
                }
                if same {
                    from_ip = from_ip + 1;
                }
            }
            i = i + 1;
        }
        assert(f0.take(n as int) =~= f0);
        self.failures = kept;
        if now > self.latest {
            self.latest = now;
        }
        assert forall|j: int| 0 <= j < self.failures().len() implies #[trigger] self.failures()[j].1
            <= self.latest_reading() by {
            assert(self.failures()[j].1 == self.failures@[j].1);
        }
        let total = self.failures.len();
        if total >= self.global_limit || from_ip >= self.per_ip_limit {
            let retry = self.window_millis / 1000;
            assert(retry == (window / 1000000000) as u64);
            Err(retry)
        } else {
            Ok(())
        }
    }

    /// Records a failed login from `ip` at time `now`. The latest reading
    /// becomes `now` if it is later.
    pub fn record_failure_at(&mut self, ip: &[u8], now: u128)
        requires
            old(self).wf(),
        ensures
            final(self).wf(),
            final(self).latest_reading() == if now > old(self).latest_reading() { now as int } else { old(self).latest_reading() },
            final(self).failures() == old(self).failures().push((ip@, now as int)),
            final(self).window_nanos() == old(self).window_nanos(),
            final(self).per_ip() == old(self).per_ip(),
            final(self).global() == old(self).global(),
    {
        let ghost f0 = self.failures@;
        self.failures.push((slice_to_vec(ip), now));
        if now > self.latest {
            self.latest = now;
        }
        assert(self.failures() =~= failures_view(f0).push((ip@, now as int)));
        assert forall|j: int| 0 <= j < self.failures().len() implies #[trigger] self.failures()[j].1
            <= self.latest_reading() by {
            if j < failures_view(f0).len() {
                assert(self.failures()[j] == old(self).failures()[j]);
            }
        }
    }

    /// The throttle's clock: nanoseconds since the throttle was made, never
    /// earlier than the latest reading the throttle has seen (the monotonic
    /// clock does not go back), and otherwise within the range of a `Duration`.
    pub fn clock(&self) -> (r: u128)
        ensures
            r >= self.latest_reading(),
            r <= max_clock() || r == self.latest_reading(),
    {
        let reading = nanos_since(&self.origin);
        if reading > self.latest {
            reading
        } else {
            self.latest
        }
    }

    /// Whether a login attempt from `ip` may go ahead now (see `check_at`):
    /// the clock reading is no earlier than any reading seen before, so no
    /// recorded failure lies in its future.
    pub fn check(&mut self, ip: &[u8]) -> (r: Result<(), u64>)
        requires
            old(self).wf(),
        ensures
            final(self).wf(),
            exists|now: int|
                now >= old(self).latest_reading() && final(self).latest_reading() == now
                && (forall|i: int| 0 <= i < old(self).failures().len() ==> #[trigger] old(self).failures()[i].1 <= now)
                && r == #[trigger] check_answer(old(self).failures(), ip@, now, old(self).window_nanos(), old(self).per_ip(), old(self).global())
                && final(self).failures() == live(old(self).failures(), now, old(self).window_nanos()),
            final(self).window_nanos() == old(self).window_nanos(),
            final(self).per_ip() == old(self).per_ip(),
            final(self).global() == old(self).global(),
    {
        let now = self.clock();
        self.check_at(ip, now)
    }

    /// Records a failed login from `ip` now, at a reading no earlier than any
    /// seen before.
    pub fn record_failure(&mut self, ip: &[u8])
        requires
            old(self).wf(),
        ensures
            final(self).wf(),
            exists|now: int|
                now >= old(self).latest_reading() && final(self).latest_reading() == now
                && final(self).failures() == #[trigger] old(self).failures().push((ip@, now)),
            final(self).window_nanos() == old(self).window_nanos(),
            final(self).per_ip() == old(self).per_ip(),
            final(self).global() == old(self).global(),
    {
        let now = self.clock();
        self.record_failure_at(ip, now);
        assert(self.failures() == old(self).failures().push((ip@, now as int)));
    }
}

/// The default throttle: a window of 15 minutes, 5 failures per address and
/// 20 in all.
impl Default for LoginThrottle {
    fn default() -> (r: LoginThrottle)
        ensures
            r.wf(),
            r.latest_reading() == 0,
            r.failures() == Seq::<(Seq<u8>, int)>::empty(),
            r.window_nanos() == 900 * 1000000000,
            r.per_ip() == 5,
            r.global() == 20,
    {
        LoginThrottle::new(900000, 5, 20)
    }
}

/// A failure recorded from `ip` inside the window counts once more for `ip`
/// and for the global total, and not at all for any other address.
pub proof fn law_recorded_failure_counts_for_its_address_only(
    f: Seq<(Seq<u8>, int)>,
    ip: Seq<u8>,
    t: int,
    other: Seq<u8>,
    now: int,
    window: int,
)
    requires
        in_window(now, t, window),
        other != ip,
    ensures
        live(f.push((ip, t)), now, window).len() == live(f, now, window).len() + 1,
        count_ip(live(f.push((ip, t)), now, window), ip) == count_ip(live(f, now, window), ip) + 1,
        count_ip(live(f.push((ip, t)), now, window), other) == count_ip(live(f, now, window), other),
{
    assert(f.push((ip, t)).drop_last() =~= f);
    let l = live(f, now, window);
    assert(l.push((ip, t)).drop_last() =~= l);
}

proof fn lemma_all_expired(f: Seq<(Seq<u8>, int)>, now: int, window: int)
    requires
        forall|i: int| 0 <= i < f.len() ==> !in_window(now, (#[trigger] f[i]).1, window),
    ensures
        live(f, now, window).len() == 0,
    decreases f.len(),
{
    if f.len() > 0 {
        assert(!in_window(now, f[f.len() - 1].1, window));
        assert forall|i: int| 0 <= i < f.drop_last().len() implies !in_window(now, (#[trigger] f.drop_last()[i]).1, window) by {
            assert(f.drop_last()[i] == f[i]);
        }
        lemma_all_expired(f.drop_last(), now, window);
    }
}

/// Once every recorded failure has left the window, attempts go ahead again
/// (for positive limits).
pub proof fn law_expired_failures_no_longer_block(
    f: Seq<(Seq<u8>, int)>,
    ip: Seq<u8>,
    now: int,
    window: int,
    per_ip_limit: int,
    global_limit: int,
)
    requires
        per_ip_limit > 0,
        global_limit > 0,
        forall|i: int| 0 <= i < f.len() ==> !in_window(now, (#[trigger] f[i]).1, window),
    ensures
        check_answer(f, ip, now, window, per_ip_limit, global_limit) == Ok::<(), u64>(()),
{
    lemma_all_expired(f, now, window);
    lemma_count_bound(live(f, now, window), ip);
}

/// An attempt is refused exactly when the window holds the global limit of
/// failures or the limit from that address; the refusal suggests waiting the
/// window's whole seconds.
pub proof fn law_refused_exactly_at_the_limits(
    f: Seq<(Seq<u8>, int)>,
    ip: Seq<u8>,
    now: int,
    window: int,
    per_ip_limit: int,
    global_limit: int,
)
    ensures
        check_answer(f, ip, now, window, per_ip_limit, global_limit) is Err <==> (live(f, now, window).len() >= global_limit
            || count_ip(live(f, now, window), ip) >= per_ip_limit),
        check_answer(f, ip, now, window, per_ip_limit, global_limit) matches Err(s) ==> s == (window / 1000000000) as u64,
{
}

} // verus!
