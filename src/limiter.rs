//! Per-client admission control: a counting window shared by all clients
//! that resets whenever the wall-clock minute changes, and a cooldown for
//! each client that reaches the threshold within the window.

use std::collections::HashMap;
use vstd::prelude::*;

use crate::clock::{Moment, MOMENT_LIMIT, NANOS_PER_SECOND};

verus! {

broadcast use vstd::std_specs::hash::group_hash_axioms;

/// The remote IP address of a connection, in its 128-bit IPv6 form. An IPv4
/// address is held as its IPv4-mapped IPv6 address (`::ffff:a.b.c.d`).
#[derive(Clone, Copy, Debug, PartialEq, Eq, Structural)]
pub struct ClientAddress {
    pub bits: u128,
}

impl ClientAddress {
    /// An IPv4 address, given as its 32-bit big-endian value.
    pub fn from_ipv4(addr: u32) -> (r: ClientAddress)
        ensures
            r.bits == 0xffff_0000_0000u128 + addr as u128,
    {
        ClientAddress { bits: 0xffff_0000_0000u128 + addr as u128 }
    }

    /// An IPv6 address, given as its 128-bit big-endian value.
    pub fn from_ipv6(addr: u128) -> (r: ClientAddress)
        ensures
            r.bits == addr,
    {
        ClientAddress { bits: addr }
    }
}

/// What the limiter decides about one connection.
#[derive(Clone, Copy, Debug, PartialEq, Eq, Structural)]
pub enum Admission {
    Allow,
    /// Refused; the client may retry after this many whole seconds.
    Deny { retry_after: u64 },
}

/// Largest instant a penalty can end at: the latest representable instant
/// plus the longest configurable timeout.
pub open spec fn penalty_ceiling() -> int {
    MOMENT_LIMIT as int + u32::MAX as int * NANOS_PER_SECOND as int
}

/// The instant `timeout` seconds after `now`.
pub open spec fn after_seconds(now: Moment, timeout: nat) -> Moment {
    Moment { unix_nanos: (now.unix_nanos as int + timeout * NANOS_PER_SECOND as int) as i128 }
}

/// The limiter's state as mathematical values.
pub struct LimiterModel {
    /// Requests per window at which a client is refused; 0 disables the limiter.
    pub limit: nat,
    /// Length of the cooldown, in seconds.
    pub timeout: nat,
    /// Requests counted in the current window, per address.
    pub counts: Map<u128, u64>,
    /// The minute of the hour that the current window belongs to.
    pub marker: int,
    /// End of the cooldown, per address under one.
    pub penalties: Map<u128, Moment>,
}

impl LimiterModel {
    pub open spec fn wf(self) -> bool {
        &&& self.limit <= u16::MAX
        &&& self.timeout <= u32::MAX
        &&& 0 <= self.marker < 60
        &&& self.counts.dom().finite()
        &&& self.penalties.dom().finite()
        &&& forall|a: u128| #[trigger]
            self.counts.contains_key(a) ==> 1 <= self.counts[a] < self.limit
        &&& forall|a: u128| #[trigger]
            self.penalties.contains_key(a) ==> {
                &&& -MOMENT_LIMIT <= self.penalties[a].unix_nanos
                &&& self.penalties[a].unix_nanos <= penalty_ceiling()
            }
        &&& forall|a: u128| #[trigger]
            self.counts.contains_key(a) ==> !self.penalties.contains_key(a)
    }

    /// `a` is under a cooldown that has not ended at `now`.
    pub open spec fn penalized(self, a: u128, now: Moment) -> bool {
        self.penalties.contains_key(a) && now.unix_nanos < self.penalties[a].unix_nanos
    }

    /// The state with `a`'s cooldown, if any, removed.
    pub open spec fn forgive(self, a: u128) -> LimiterModel {
        LimiterModel { penalties: self.penalties.remove(a), ..self }
    }

    /// The state after the window check at `now`: when the minute differs
    /// from the marker, every count is cleared and the marker moves on.
    pub open spec fn roll_window(self, now: Moment) -> LimiterModel {
        if now.minute_spec() != self.marker {
            LimiterModel { counts: Map::empty(), marker: now.minute_spec(), ..self }
        } else {
            self
        }
    }

    /// `a`'s count in the current window after one more request.
    pub open spec fn next_count(self, a: u128) -> int {
        if self.counts.contains_key(a) {
            self.counts[a] + 1
        } else {
            1
        }
    }

    /// Counting one request from `a` at `now`, after any cooldown has ended.
    pub open spec fn count_request(self, a: u128, now: Moment) -> (LimiterModel, Admission) {
        let s = self.roll_window(now);
        let c = s.next_count(a);
        if c >= s.limit {
            (
                LimiterModel {
                    counts: s.counts.remove(a),
                    penalties: s.penalties.insert(a, after_seconds(now, s.timeout)),
                    ..s
                },
                Admission::Deny { retry_after: s.timeout as u64 },
            )
        } else {
            (LimiterModel { counts: s.counts.insert(a, c as u64), ..s }, Admission::Allow)
        }
    }

    /// The decision on a request from `a` at `now`, and the state after it.
    pub open spec fn decide(self, a: u128, now: Moment) -> (LimiterModel, Admission) {
        if self.limit == 0 {
            (self, Admission::Allow)
        } else if self.penalized(a, now) {
            (
                self,
                Admission::Deny {
                    retry_after: now.whole_seconds_until(self.penalties[a]) as u64,
                },
            )
        } else {
            self.forgive(a).count_request(a, now)
        }
    }
}

/// Admission control for incoming connections. The state is owned by one
/// decision-maker: callers evaluate `decide` serially, in arrival order.
pub struct RateLimiter {
    limit: u16,
    timeout: u32,
    counts: HashMap<u128, u64>,
    marker: u8,
    penalties: HashMap<u128, Moment>,
}

impl View for RateLimiter {
    type V = LimiterModel;

    closed spec fn view(&self) -> LimiterModel {
        LimiterModel {
            limit: self.limit as nat,
            timeout: self.timeout as nat,
            counts: self.counts@,
            marker: self.marker as int,
            penalties: self.penalties@,
        }
    }
}

impl RateLimiter {
    pub open spec fn wf(&self) -> bool {
        self@.wf()
    }

    /// A limiter that refuses a client on its `limit`-th request within a
    /// window (never, when `limit` is 0) and then for `timeout` seconds.
    /// The first window is the minute of `start`.
    pub fn new(limit: u16, timeout: u32, start: Moment) -> (r: RateLimiter)
        requires
            start.wf(),
        ensures
            r.wf(),
            r@ == (LimiterModel {
                limit: limit as nat,
                timeout: timeout as nat,
                counts: Map::empty(),
                marker: start.minute_spec(),
                penalties: Map::empty(),
            }),
    {
        let r = RateLimiter {
            limit,
            timeout,
            counts: HashMap::new(),
            marker: start.minute(),
            penalties: HashMap::new(),
        };
        r
    }

    pub fn limit(&self) -> (r: u16)
        ensures
            r as nat == self@.limit,
    {
        self.limit
    }

    pub fn timeout(&self) -> (r: u32)
        ensures
            r as nat == self@.timeout,
    {
        self.timeout
    }

    /// Decides on a connection from `addr` at `now` and updates the state.
    pub fn decide(&mut self, addr: ClientAddress, now: Moment) -> (r: Admission)
        requires
            old(self).wf(),
            now.wf(),
        ensures
            final(self).wf(),
            (final(self)@, r) == old(self)@.decide(addr.bits, now),
    {
        if self.limit == 0 {
            return Admission::Allow;
        }
        let a: u128 = addr.bits;
        let until = self.penalties.get(&a);
        match until {
            Some(until) => {
                if now.unix_nanos < until.unix_nanos {
                    let left: i128 = (until.unix_nanos - now.unix_nanos) / NANOS_PER_SECOND;
                    return Admission::Deny { retry_after: left as u64 };
                }
                self.penalties.remove(&a);
            },
            None => {},
        }
        let minute: u8 = now.minute();
        if minute != self.marker {
            self.counts.clear();
            self.marker = minute;
        }
        let count: u64 = match self.counts.get(&a) {
            Some(c) => *c + 1,
            None => 1,
        };
        let ghost s = old(self)@.forgive(a).roll_window(now);
        assert(self.penalties@ =~= s.penalties);
        assert(self.counts@ =~= s.counts);
        if count >= self.limit as u64 {
            self.counts.remove(&a);
            let until = Moment {
                unix_nanos: now.unix_nanos + (self.timeout as i128) * NANOS_PER_SECOND,
            };
            self.penalties.insert(a, until);
            assert(self@ == s.count_request(a, now).0);
            Admission::Deny { retry_after: self.timeout as u64 }
        } else {
            self.counts.insert(a, count);
            assert(self@ == s.count_request(a, now).0);
            Admission::Allow
        }
    }
}

/// The state and the decisions after requests from `a` at each of `times`,
/// in order.
pub open spec fn run(m: LimiterModel, a: u128, times: Seq<Moment>) -> (LimiterModel, Seq<Admission>)
    decreases times.len(),
{
    if times.len() == 0 {
        (m, Seq::empty())
    } else {
        let (before, decisions) = run(m, a, times.drop_last());
        let (after, d) = before.decide(a, times.last());
        (after, decisions.push(d))
    }
}

/// Every decision keeps the state well formed.
pub proof fn lemma_decide_wf(m: LimiterModel, a: u128, now: Moment)
    requires
        m.wf(),
        now.wf(),
    ensures
        m.decide(a, now).0.wf(),
        m.decide(a, now).0.limit == m.limit,
        m.decide(a, now).0.timeout == m.timeout,
{
    let s = m.forgive(a).roll_window(now);
    assert(0 <= now.minute_spec() < 60);
    assert(s.wf());
    let r = m.decide(a, now).0;
    if m.limit != 0 && !m.penalized(a, now) {
        if s.next_count(a) >= s.limit {
            assert(r.penalties[a].unix_nanos <= penalty_ceiling()) by {
                assert(m.timeout * NANOS_PER_SECOND as int <= u32::MAX as int * NANOS_PER_SECOND as int)
                    by (nonlinear_arith)
                    requires
                        m.timeout <= u32::MAX,
                ;
            }
        }
    }
}

/// Requests from `a` within one window, with `a` uncounted in that window
/// and not under a cooldown at the first of them: after `k` of them, fewer
/// than the limit, all were admitted and `a`'s count is `k`.
proof fn lemma_window_prefix(m: LimiterModel, a: u128, times: Seq<Moment>, k: nat)
    requires
        m.wf(),
        0 < k < m.limit,
        k <= times.len(),
        !m.counts.contains_key(a) || m.marker != times[0].minute_spec(),
        !m.penalized(a, times[0]),
        forall|i: int| 0 <= i < times.len() ==> #[trigger] times[i].wf(),
        forall|i: int| 0 <= i < times.len() ==> #[trigger] times[i].minute_spec() == times[0].minute_spec(),
    ensures
        ({
            let (mk, ds) = run(m, a, times.take(k as int));
            &&& mk.wf()
            &&& mk.limit == m.limit
            &&& mk.timeout == m.timeout
            &&& mk.marker == times[0].minute_spec()
            &&& mk.counts.contains_key(a)
            &&& mk.counts[a] == k
            &&& !mk.penalties.contains_key(a)
            &&& ds.len() == k
            &&& forall|i: int| 0 <= i < k ==> ds[i] == Admission::Allow
        }),
    decreases k,
{
    let prefix = times.take(k as int);
    assert(prefix.drop_last() =~= times.take(k - 1));
    assert(prefix.last() == times[k - 1]);
    if k == 1 {
        assert(times.take(0) =~= Seq::<Moment>::empty());
        lemma_decide_wf(m, a, times[0]);
    } else {
        lemma_window_prefix(m, a, times, (k - 1) as nat);
        let (prev, ds) = run(m, a, times.take(k - 1));
        lemma_decide_wf(prev, a, times[k - 1]);
        assert(prev.forgive(a).penalties =~= prev.penalties);
    }
}

/// A client that makes exactly `limit` requests within one window, starting
/// uncounted in it and not under a cooldown, is admitted on every request
/// before the `limit`-th and refused on that one, with the whole timeout as
/// its retry hint.
pub proof fn lemma_refused_on_limit_th_request(m: LimiterModel, a: u128, times: Seq<Moment>)
    requires
        m.wf(),
        0 < m.limit,
        times.len() == m.limit,
        !m.counts.contains_key(a) || m.marker != times[0].minute_spec(),
        !m.penalized(a, times[0]),
        forall|i: int| 0 <= i < times.len() ==> #[trigger] times[i].wf(),
        forall|i: int| 0 <= i < times.len() ==> #[trigger] times[i].minute_spec() == times[0].minute_spec(),
    ensures
        ({
            let ds = run(m, a, times).1;
            &&& ds.len() == m.limit
            &&& forall|i: int| 0 <= i < m.limit - 1 ==> ds[i] == Admission::Allow
            &&& ds[m.limit - 1] == Admission::Deny { retry_after: m.timeout as u64 }
        }),
{
    let n = m.limit;
    assert(times.drop_last() =~= times.take(n - 1));
    if n == 1 {
        assert(times.take(0) =~= Seq::<Moment>::empty());
        let s = m.forgive(a).roll_window(times[0]);
        assert(s.next_count(a) == 1);
        assert(run(m, a, times.drop_last()) == (m, Seq::<Admission>::empty()));
        assert(run(m, a, times).1 =~= seq![m.decide(a, times[0]).1]);
    } else {
        lemma_window_prefix(m, a, times, (n - 1) as nat);
        let (prev, ds) = run(m, a, times.take(n - 1));
        assert(prev.forgive(a).penalties =~= prev.penalties);
        let d = prev.decide(a, times[n - 1]).1;
        assert(d == Admission::Deny { retry_after: m.timeout as u64 });
        assert(run(m, a, times).1 =~= ds.push(d));
    }
}

/// While a client's cooldown lasts, each of its requests is refused, leaves
/// the state as it was, and carries a retry hint no larger than the one
/// given to an earlier request.
pub proof fn lemma_cooldown_refusals(m: LimiterModel, a: u128, t1: Moment, t2: Moment)
    requires
        m.wf(),
        0 < m.limit,
        t1.wf(),
        t2.wf(),
        t1.unix_nanos <= t2.unix_nanos,
        m.penalized(a, t2),
    ensures
        ({
            let (m1, d1) = m.decide(a, t1);
            let (m2, d2) = m1.decide(a, t2);
            &&& m1 == m
            &&& m2 == m
            &&& d1 is Deny
            &&& d2 is Deny
            &&& d2->retry_after <= d1->retry_after
        }),
{
    let until = m.penalties[a].unix_nanos as int;
    let n1 = until - t1.unix_nanos as int;
    let n2 = until - t2.unix_nanos as int;
    let d = NANOS_PER_SECOND as int;
    vstd::arithmetic::div_mod::lemma_div_is_ordered(n2, n1, d);
    vstd::arithmetic::div_mod::lemma_div_is_ordered(n1, 2 * penalty_ceiling(), d);
    vstd::arithmetic::div_mod::lemma_div_pos_is_pos(n2, d);
}

/// Once `timeout` seconds have passed since a client was refused for
/// reaching the limit, its next request is decided as for a client with no
/// cooldown: admitted, unless the limit is 1 and it trips again at once.
pub proof fn lemma_fresh_after_cooldown(m: LimiterModel, a: u128, tripped: Moment, now: Moment)
    requires
        m.wf(),
        0 < m.limit,
        tripped.wf(),
        now.wf(),
        m.penalties.contains_key(a),
        m.penalties[a] == after_seconds(tripped, m.timeout),
        after_seconds(tripped, m.timeout).unix_nanos <= now.unix_nanos,
    ensures
        m.decide(a, now) == m.forgive(a).decide(a, now),
        !m.forgive(a).penalties.contains_key(a),
        (m.decide(a, now).1 == Admission::Allow) <==> (m.limit > 1),
{
    assert(m.forgive(a).forgive(a).penalties =~= m.forgive(a).penalties);
    let s = m.forgive(a).roll_window(now);
    assert(s.next_count(a) == 1);
}

} // verus!
