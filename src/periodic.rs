//! The decisions of the cancellable periodic runtime. The caller owns the
//! clock: it polls `step` with the time elapsed since the start and whether
//! cancellation has been signalled, and performs the action returned.
use vstd::prelude::*;

verus! {

/// Longest wait, in milliseconds, between two polls.
pub const POLL_QUANTUM_MS: u64 = 10;

/// What the runtime does next.
#[derive(Debug, Clone, Copy, PartialEq, Eq, Structural)]
pub enum LoopAction {
    /// Return to the caller.
    Stop,
    /// Invoke the periodic callback once, then poll again.
    Invoke,
    /// Sleep this many milliseconds, then poll again.
    Wait(u64),
}

pub open spec fn sat_mul(a: nat, b: nat) -> u64 {
    if a * b <= u64::MAX {
        (a * b) as u64
    } else {
        u64::MAX
    }
}

pub open spec fn ceil_div(a: nat, b: nat) -> nat
    recommends
        b > 0,
{
    ((a + b - 1) / (b as int)) as nat
}

pub open spec fn min_u64(a: u64, b: u64) -> u64 {
    if a <= b {
        a
    } else {
        b
    }
}

/// How long to sleep at `now_ms`: one quantum, cut short by the next tick
/// and by the deadline.
pub open spec fn wait_time(period: Option<u64>, deadline: Option<u64>, next_tick: u64, now_ms: u64) -> u64 {
    let a = if period is Some {
        min_u64(POLL_QUANTUM_MS, (next_tick - now_ms) as u64)
    } else {
        POLL_QUANTUM_MS
    };
    match deadline {
        Some(d) => min_u64(a, (d - now_ms) as u64),
        None => a,
    }
}

/// Blocks until cancellation, until an optional deadline, and, when a period
/// is given, invokes a callback once per period meanwhile.
pub struct PeriodicLoop {
    period_ms: Option<u64>,
    deadline_ms: Option<u64>,
    next_tick_ms: u64,
    stopped: bool,
    invocations: Ghost<nat>,
}

impl PeriodicLoop {
    pub closed spec fn period(&self) -> Option<u64> {
        self.period_ms
    }

    pub closed spec fn deadline(&self) -> Option<u64> {
        self.deadline_ms
    }

    /// The time at which the next callback falls due.
    pub closed spec fn next_tick(&self) -> u64 {
        self.next_tick_ms
    }

    pub closed spec fn stopped(&self) -> bool {
        self.stopped
    }

    /// How many times the callback has been invoked.
    pub closed spec fn invocations(&self) -> nat {
        self.invocations@
    }

    pub closed spec fn wf(&self) -> bool {
        &&& self.period_ms is Some ==> self.next_tick_ms == sat_mul(
            (self.invocations@ + 1) as nat,
            self.period_ms->Some_0 as nat,
        )
        &&& self.period_ms is None ==> self.invocations@ == 0
        &&& (self.deadline_ms is Some && self.period_ms is Some) ==> (self.invocations@ == 0
            || self.invocations@ * self.period_ms->Some_0 < self.deadline_ms->Some_0)
    }

    /// A runtime that has not started: with `period_ms` the callback first
    /// falls due one period after the start; with `deadline_ms` it stops
    /// then; with neither it waits for cancellation alone.
    pub fn new(period_ms: Option<u64>, deadline_ms: Option<u64>) -> (r: PeriodicLoop)
        ensures
            r.wf(),
            r.period() == period_ms,
            r.deadline() == deadline_ms,
            !r.stopped(),
            r.invocations() == 0,
    {
        let next = match period_ms {
            Some(p) => p,
            None => 0,
        };
        PeriodicLoop {
            period_ms,
            deadline_ms,
            next_tick_ms: next,
            stopped: false,
            invocations: Ghost(0),
        }
    }

    pub fn is_stopped(&self) -> (r: bool)
        ensures
            r == self.stopped(),
    {
        self.stopped
    }

    /// The decision at time `now_ms`. Cancellation wins over everything, then
    /// the deadline; a callback that falls due is invoked; otherwise the
    /// caller waits at most one polling quantum. Once stopped, it stays so.
    pub fn step(&mut self, now_ms: u64, cancelled: bool) -> (r: LoopAction)
        requires
            old(self).wf(),
        ensures
            final(self).wf(),
            final(self).period() == old(self).period(),
            final(self).deadline() == old(self).deadline(),
            r is Stop <==> (old(self).stopped() || cancelled || (old(self).deadline() is Some
                && now_ms >= old(self).deadline()->Some_0)),
            final(self).stopped() == (r is Stop),
            r is Invoke <==> (!(r is Stop) && old(self).period() is Some && now_ms >= old(
                self,
            ).next_tick()),
            r is Invoke ==> final(self).invocations() == old(self).invocations() + 1,
            !(r is Invoke) ==> final(self).invocations() == old(self).invocations(),
            r matches LoopAction::Wait(d) ==> d == wait_time(
                old(self).period(),
                old(self).deadline(),
                old(self).next_tick(),
                now_ms,
            ),
            r matches LoopAction::Wait(d) ==> 0 < d <= POLL_QUANTUM_MS && (old(self).period() is Some
                ==> now_ms + d <= old(self).next_tick()) && (old(self).deadline() is Some ==> now_ms
                + d <= old(self).deadline()->Some_0),
    {
        if self.stopped || cancelled {
            self.stopped = true;
            return LoopAction::Stop;
        }
        match self.deadline_ms {
            Some(d) => {
                if now_ms >= d {
                    self.stopped = true;
                    return LoopAction::Stop;
                }
            },
            None => {},
        }
        let mut wait = POLL_QUANTUM_MS;
        match self.period_ms {
            Some(p) => {
                if now_ms >= self.next_tick_ms {
                    proof {
                        let k = self.invocations@;
                        if (k + 1) * p <= u64::MAX {
                            assert(self.next_tick_ms == (k + 1) * p);
                        }
                        if (k + 2) * p <= u64::MAX {
                            assert((k + 1) * p <= (k + 2) * p) by (nonlinear_arith)
                                requires
                                    p >= 0,
                                    k >= 0,
                            ;
                        }
                        assert((k + 2) * p == (k + 1) * p + p) by (nonlinear_arith);
                    }
                    self.next_tick_ms = self.next_tick_ms.saturating_add(p);
                    self.invocations = Ghost((self.invocations@ + 1) as nat);
                    return LoopAction::Invoke;
                }
                let until = self.next_tick_ms - now_ms;
                if until < wait {
                    wait = until;
                }
            },
            None => {},
        }
        match self.deadline_ms {
            Some(d) => {
                let until = d - now_ms;
                if until < wait {
                    wait = until;
                }
            },
            None => {},
        }
        LoopAction::Wait(wait)
    }
}

/// With a positive period `P` and a deadline `D`, the callback is invoked
/// fewer than `D / P` times plus one: at most `ceil(D / P)`.
pub proof fn lemma_invocations_bounded(l: PeriodicLoop)
    requires
        l.wf(),
        l.period() is Some,
        l.period()->Some_0 > 0,
        l.deadline() is Some,
    ensures
        l.invocations() * l.period()->Some_0 < l.deadline()->Some_0 || l.invocations() == 0,
        l.invocations() <= ceil_div(l.deadline()->Some_0 as nat, l.period()->Some_0 as nat),
{
    let k = l.invocations();
    let p = l.period()->Some_0 as nat;
    let d = l.deadline()->Some_0 as nat;
    if k > 0 {
        assert(k * p < d);
        assert(k <= (d + p - 1) / (p as int)) by (nonlinear_arith)
            requires
                k * p < d,
                p > 0,
        {
            assert(k * p + p - 1 <= d + p - 1);
            vstd::arithmetic::div_mod::lemma_fundamental_div_mod(d + p - 1, p as int);
        }
    }
}

/// A loop polled no later than each moment it asks for (never past its next
/// tick) that reaches its deadline `D` with period `P` has invoked the
/// callback at least `D / P - 1` times, rounding down.
pub proof fn lemma_invocations_lower_bound(l: PeriodicLoop, now_ms: u64)
    requires
        l.wf(),
        l.period() is Some,
        l.period()->Some_0 > 0,
        l.deadline() is Some,
        now_ms >= l.deadline()->Some_0,
        now_ms <= l.next_tick(),
    ensures
        l.invocations() + 1 >= l.deadline()->Some_0 as int / l.period()->Some_0 as int,
{
    let k = l.invocations();
    let p = l.period()->Some_0 as int;
    let d = l.deadline()->Some_0 as int;
    assert((k + 1) * p >= d);
    assert(k + 1 >= d / p) by (nonlinear_arith)
        requires
            (k + 1) * p >= d,
            p > 0,
            d >= 0,
    {
        vstd::arithmetic::div_mod::lemma_fundamental_div_mod(d, p);
    }
}

} // verus!
