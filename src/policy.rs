//! Scheduling policies and their two-way mapping to the kernel's fixed-layout
//! scheduling-attribute record.
use vstd::prelude::*;

verus! {

/// Policy identifiers of the kernel's scheduling classes.
pub const SCHED_OTHER: u32 = 0;

pub const SCHED_FIFO: u32 = 1;

pub const SCHED_RR: u32 = 2;

pub const SCHED_BATCH: u32 = 3;

pub const SCHED_IDLE: u32 = 5;

pub const SCHED_DEADLINE: u32 = 6;

/// Asks the kernel not to hand a deadline reservation on to forked children.
pub const SCHED_FLAG_RESET_ON_FORK: u64 = 1;

/// Size in bytes of the attribute record as the kernel reads it.
pub const SCHED_ATTR_SIZE: u32 = 48;

pub const NANOS_PER_MILLI: u64 = 1_000_000;

/// A process's scheduling class with its parameters; deadline times are in
/// milliseconds.
#[allow(non_camel_case_types)]
#[derive(Debug, Clone, Copy, PartialEq, Eq, Structural)]
pub enum SchedPolicy {
    OTHER { nice: i32 },
    BATCH { nice: i32 },
    IDLE,
    FIFO(i32),
    RR(i32),
    DEADLINE { runtime_ms: u64, deadline_ms: u64, period_ms: u64 },
}

/// Why reading or changing a scheduling policy failed.
#[derive(Debug, Clone, Copy, PartialEq, Eq, Structural)]
pub enum SchedPolicyError {
    /// The system call failed with this OS error number.
    SyscallError(i32),
    /// The kernel reported a policy identifier that this model does not know.
    UnknownPolicyError(i32),
}

/// The kernel's scheduling-attribute record, field for field; times are in
/// nanoseconds.
#[derive(Debug, Clone, Copy, PartialEq, Eq, Structural)]
pub struct SchedAttr {
    pub size: u32,
    pub sched_policy: u32,
    pub sched_flags: u64,
    pub sched_nice: i32,
    pub sched_priority: u32,
    pub sched_runtime: u64,
    pub sched_deadline: u64,
    pub sched_period: u64,
}

/// Milliseconds as nanoseconds, saturating at the largest `u64`.
pub open spec fn ms_to_ns(ms: u64) -> u64 {
    if ms * NANOS_PER_MILLI <= u64::MAX {
        (ms * NANOS_PER_MILLI) as u64
    } else {
        u64::MAX
    }
}

/// The attribute record that requests `p`.
pub open spec fn attr_of(p: SchedPolicy) -> SchedAttr {
    match p {
        SchedPolicy::OTHER { nice } => SchedAttr {
            size: SCHED_ATTR_SIZE,
            sched_policy: SCHED_OTHER,
            sched_flags: 0,
            sched_nice: nice,
            sched_priority: 0,
            sched_runtime: 0,
            sched_deadline: 0,
            sched_period: 0,
        },
        SchedPolicy::BATCH { nice } => SchedAttr {
            size: SCHED_ATTR_SIZE,
            sched_policy: SCHED_BATCH,
            sched_flags: 0,
            sched_nice: nice,
            sched_priority: 0,
            sched_runtime: 0,
            sched_deadline: 0,
            sched_period: 0,
        },
        SchedPolicy::IDLE => SchedAttr {
            size: SCHED_ATTR_SIZE,
            sched_policy: SCHED_IDLE,
            sched_flags: 0,
            sched_nice: 0,
            sched_priority: 0,
            sched_runtime: 0,
            sched_deadline: 0,
            sched_period: 0,
        },
        SchedPolicy::FIFO(prio) => SchedAttr {
            size: SCHED_ATTR_SIZE,
            sched_policy: SCHED_FIFO,
            sched_flags: 0,
            sched_nice: 0,
            sched_priority: prio as u32,
            sched_runtime: 0,
            sched_deadline: 0,
            sched_period: 0,
        },
        SchedPolicy::RR(prio) => SchedAttr {
            size: SCHED_ATTR_SIZE,
            sched_policy: SCHED_RR,
            sched_flags: 0,
            sched_nice: 0,
            sched_priority: prio as u32,
            sched_runtime: 0,
            sched_deadline: 0,
            sched_period: 0,
        },
        SchedPolicy::DEADLINE { runtime_ms, deadline_ms, period_ms } => SchedAttr {
            size: SCHED_ATTR_SIZE,
            sched_policy: SCHED_DEADLINE,
            sched_flags: SCHED_FLAG_RESET_ON_FORK,
            sched_nice: 0,
            sched_priority: 0,
            sched_runtime: ms_to_ns(runtime_ms),
            sched_deadline: ms_to_ns(deadline_ms),
            sched_period: ms_to_ns(period_ms),
        },
    }
}

/// The policy that a record reported by the kernel describes.
pub open spec fn policy_of(a: SchedAttr) -> Result<SchedPolicy, SchedPolicyError> {
    if a.sched_policy == SCHED_OTHER {
        Ok(SchedPolicy::OTHER { nice: a.sched_nice })
    } else if a.sched_policy == SCHED_BATCH {
        Ok(SchedPolicy::BATCH { nice: a.sched_nice })
    } else if a.sched_policy == SCHED_IDLE {
        Ok(SchedPolicy::IDLE)
    } else if a.sched_policy == SCHED_FIFO {
        Ok(SchedPolicy::FIFO(a.sched_priority as i32))
    } else if a.sched_policy == SCHED_RR {
        Ok(SchedPolicy::RR(a.sched_priority as i32))
    } else if a.sched_policy == SCHED_DEADLINE {
        Ok(
            SchedPolicy::DEADLINE {
                runtime_ms: a.sched_runtime / NANOS_PER_MILLI,
                deadline_ms: a.sched_deadline / NANOS_PER_MILLI,
                period_ms: a.sched_period / NANOS_PER_MILLI,
            },
        )
    } else {
        Err(SchedPolicyError::UnknownPolicyError(a.sched_policy as i32))
    }
}

/// Every time of `p` is representable in nanoseconds.
pub open spec fn fits_in_nanos(p: SchedPolicy) -> bool {
    match p {
        SchedPolicy::DEADLINE { runtime_ms, deadline_ms, period_ms } => runtime_ms
            * NANOS_PER_MILLI <= u64::MAX && deadline_ms * NANOS_PER_MILLI <= u64::MAX
            && period_ms * NANOS_PER_MILLI <= u64::MAX,
        _ => true,
    }
}

fn ms_to_ns_exec(ms: u64) -> (r: u64)
    ensures
        r == ms_to_ns(ms),
{
    ms.checked_mul(NANOS_PER_MILLI).unwrap_or(u64::MAX)
}

impl SchedPolicy {
    /// The default time-sharing policy at nice level zero.
    pub fn other() -> (r: SchedPolicy)
        ensures
            r == (SchedPolicy::OTHER { nice: 0 }),
    {
        SchedPolicy::OTHER { nice: 0 }
    }

    /// The attribute record that requests this policy. A deadline policy
    /// always asks for its reservation not to be inherited on fork.
    pub fn to_attr(self) -> (r: SchedAttr)
        ensures
            r == attr_of(self),
    {
        match self {
            SchedPolicy::OTHER { nice } => SchedAttr {
                size: SCHED_ATTR_SIZE,
                sched_policy: SCHED_OTHER,
                sched_flags: 0,
                sched_nice: nice,
                sched_priority: 0,
                sched_runtime: 0,
                sched_deadline: 0,
                sched_period: 0,
            },
            SchedPolicy::BATCH { nice } => SchedAttr {
                size: SCHED_ATTR_SIZE,
                sched_policy: SCHED_BATCH,
                sched_flags: 0,
                sched_nice: nice,
                sched_priority: 0,
                sched_runtime: 0,
                sched_deadline: 0,
                sched_period: 0,
            },
            SchedPolicy::IDLE => SchedAttr {
                size: SCHED_ATTR_SIZE,
                sched_policy: SCHED_IDLE,
                sched_flags: 0,
                sched_nice: 0,
                sched_priority: 0,
                sched_runtime: 0,
                sched_deadline: 0,
                sched_period: 0,
            },
            SchedPolicy::FIFO(prio) => SchedAttr {
                size: SCHED_ATTR_SIZE,
                sched_policy: SCHED_FIFO,
                sched_flags: 0,
                sched_nice: 0,
                sched_priority: prio as u32,
                sched_runtime: 0,
                sched_deadline: 0,
                sched_period: 0,
            },
            SchedPolicy::RR(prio) => SchedAttr {
                size: SCHED_ATTR_SIZE,
                sched_policy: SCHED_RR,
                sched_flags: 0,
                sched_nice: 0,
                sched_priority: prio as u32,
                sched_runtime: 0,
                sched_deadline: 0,
                sched_period: 0,
            },
            SchedPolicy::DEADLINE { runtime_ms, deadline_ms, period_ms } => SchedAttr {
                size: SCHED_ATTR_SIZE,
                sched_policy: SCHED_DEADLINE,
                sched_flags: SCHED_FLAG_RESET_ON_FORK,
                sched_nice: 0,
                sched_priority: 0,
                sched_runtime: ms_to_ns_exec(runtime_ms),
                sched_deadline: ms_to_ns_exec(deadline_ms),
                sched_period: ms_to_ns_exec(period_ms),
            },
        }
    }

    /// The policy that a record reported by the kernel describes; an unknown
    /// policy identifier is reported, not guessed.
    pub fn from_attr(attr: &SchedAttr) -> (r: Result<SchedPolicy, SchedPolicyError>)
        ensures
            r == policy_of(*attr),
    {
        let p = attr.sched_policy;
        if p == SCHED_OTHER {
            Ok(SchedPolicy::OTHER { nice: attr.sched_nice })
        } else if p == SCHED_BATCH {
            Ok(SchedPolicy::BATCH { nice: attr.sched_nice })
        } else if p == SCHED_IDLE {
            Ok(SchedPolicy::IDLE)
        } else if p == SCHED_FIFO {
            Ok(SchedPolicy::FIFO(attr.sched_priority as i32))
        } else if p == SCHED_RR {
            Ok(SchedPolicy::RR(attr.sched_priority as i32))
        } else if p == SCHED_DEADLINE {
            Ok(
                SchedPolicy::DEADLINE {
                    runtime_ms: attr.sched_runtime / NANOS_PER_MILLI,
                    deadline_ms: attr.sched_deadline / NANOS_PER_MILLI,
                    period_ms: attr.sched_period / NANOS_PER_MILLI,
                },
            )
        } else {
            Err(SchedPolicyError::UnknownPolicyError(p as i32))
        }
    }
}

/// Reading back the record that requests a policy gives that policy again,
/// whenever its times are representable in nanoseconds.
pub proof fn lemma_attr_round_trip(p: SchedPolicy)
    requires
        fits_in_nanos(p),
    ensures
        policy_of(attr_of(p)) == Ok::<SchedPolicy, SchedPolicyError>(p),
{
    match p {
        SchedPolicy::FIFO(prio) => {
            assert((prio as u32) as i32 == prio) by (bit_vector);
        },
        SchedPolicy::RR(prio) => {
            assert((prio as u32) as i32 == prio) by (bit_vector);
        },
        SchedPolicy::DEADLINE { runtime_ms, deadline_ms, period_ms } => {
            assert((runtime_ms * NANOS_PER_MILLI) / NANOS_PER_MILLI as int == runtime_ms) by (
            nonlinear_arith);
            assert((deadline_ms * NANOS_PER_MILLI) / NANOS_PER_MILLI as int == deadline_ms) by (
            nonlinear_arith);
            assert((period_ms * NANOS_PER_MILLI) / NANOS_PER_MILLI as int == period_ms) by (
            nonlinear_arith);
        },
        _ => {},
    }
}

/// A deadline policy is always requested with reset-on-fork.
pub proof fn lemma_deadline_resets_on_fork(p: SchedPolicy)
    requires
        p is DEADLINE,
    ensures
        attr_of(p).sched_flags == SCHED_FLAG_RESET_ON_FORK,
        attr_of(p).sched_policy == SCHED_DEADLINE,
{
}

} // verus!
