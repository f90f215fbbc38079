//! Decisions of the bandwidth-reservation controller: where a domain's files
//! live, in which order its two knobs are written, and how it is torn down.
//! The filesystem work itself is done by the caller, step by step.
use crate::text::{trim, trim_end_index, trim_start_index};
use vstd::prelude::*;
use vstd::string::*;

verus! {

/// Smallest positive runtime, in microseconds, that the kernel represents.
pub const MIN_RUNTIME_US: u64 = 2;

/// Largest period, in microseconds, whose nanosecond value fits a signed
/// 64-bit integer.
pub const MAX_PERIOD_US: u64 = 9_223_372_036_854_775;

pub const LEGACY_ROOT: &'static str = "/sys/fs/cgroup/cpu/";

pub const UNIFIED_ROOT: &'static str = "/sys/fs/cgroup/";

/// The two on-disk layouts of the control-group filesystem.
#[derive(Debug, Clone, Copy, PartialEq, Eq, Structural)]
pub enum Hierarchy {
    /// A dedicated CPU-accounting hierarchy.
    Legacy,
    /// One hierarchy; the CPU controller is enabled per directory.
    Unified,
}

/// One of the two reservation knobs of a domain.
#[derive(Debug, Clone, Copy, PartialEq, Eq, Structural)]
pub enum Knob {
    Runtime,
    Period,
}

/// A write of `value_us` to one knob.
#[derive(Debug, Clone, Copy, PartialEq, Eq, Structural)]
pub struct KnobWrite {
    pub knob: Knob,
    pub value_us: u64,
}

/// The values of a domain's two knobs.
#[derive(Debug, Clone, Copy, PartialEq, Eq, Structural)]
pub struct Reservation {
    pub runtime_us: u64,
    pub period_us: u64,
}

/// Why a domain could not be set up.
#[derive(Debug, Clone, Copy, PartialEq, Eq, Structural)]
pub enum CgroupError {
    /// The root domain is shared and never managed.
    RootCgroup,
    /// A period of zero reserves nothing.
    ZeroPeriod,
    /// The runtime exceeds the period.
    RuntimeAbovePeriod { runtime_us: u64, period_us: u64 },
}

/// One step of tearing a domain down.
#[derive(Debug, Clone, Copy, PartialEq, Eq, Structural)]
pub enum DestroyStep {
    /// Move the process into the root domain.
    MigrateToRoot(u32),
    /// Terminate the process and wait for it.
    Kill(u32),
    /// Write a runtime of zero.
    SetRuntimeZero,
    /// Remove the domain's directory.
    RemoveDir,
}

pub open spec fn is_root_name(name: Seq<char>) -> bool {
    name == seq!['.']
}

pub open spec fn domain_dir(h: Hierarchy, name: Seq<char>) -> Seq<char> {
    match h {
        Hierarchy::Legacy => LEGACY_ROOT@ + name,
        Hierarchy::Unified => UNIFIED_ROOT@ + name,
    }
}

/// The write of `new` to `knob`, left out when the knob already holds it.
pub open spec fn write_if_changed(knob: Knob, new: u64, cur: u64) -> Seq<KnobWrite> {
    if new == cur {
        Seq::empty()
    } else {
        seq![KnobWrite { knob, value_us: new }]
    }
}

/// The writes that take a domain from `cur` to `runtime_us / period_us`:
/// when the runtime grows the period is written first, otherwise the runtime.
pub open spec fn setup_writes(runtime_us: u64, period_us: u64, cur: Reservation) -> Seq<KnobWrite> {
    if runtime_us > cur.runtime_us {
        write_if_changed(Knob::Period, period_us, cur.period_us) + write_if_changed(
            Knob::Runtime,
            runtime_us,
            cur.runtime_us,
        )
    } else {
        write_if_changed(Knob::Runtime, runtime_us, cur.runtime_us) + write_if_changed(
            Knob::Period,
            period_us,
            cur.period_us,
        )
    }
}

pub open spec fn apply_write(s: Reservation, w: KnobWrite) -> Reservation {
    match w.knob {
        Knob::Runtime => Reservation { runtime_us: w.value_us, ..s },
        Knob::Period => Reservation { period_us: w.value_us, ..s },
    }
}

/// The knob values after `ws` have all been written, in order.
pub open spec fn apply_writes(s: Reservation, ws: Seq<KnobWrite>) -> Reservation
    decreases ws.len(),
{
    if ws.len() == 0 {
        s
    } else {
        apply_write(apply_writes(s, ws.drop_last()), ws.last())
    }
}

/// The kernel's admission rule for the values of one domain.
pub open spec fn kernel_accepts(s: Reservation) -> bool {
    &&& 0 < s.period_us <= MAX_PERIOD_US
    &&& s.runtime_us <= s.period_us
    &&& (s.runtime_us == 0 || s.runtime_us >= MIN_RUNTIME_US)
}

/// Writing `ws` one by one to a kernel that refuses any write leaving the
/// domain in a state it does not accept: the values reached and whether
/// every write was taken.
pub open spec fn kernel_run(s: Reservation, ws: Seq<KnobWrite>) -> (Reservation, bool)
    decreases ws.len(),
{
    if ws.len() == 0 {
        (s, true)
    } else {
        let (t, ok) = kernel_run(s, ws.drop_last());
        if !ok {
            (t, false)
        } else if kernel_accepts(apply_write(t, ws.last())) {
            (apply_write(t, ws.last()), true)
        } else {
            (t, false)
        }
    }
}

/// Evicting every member but `self_pid`: each is killed, then moved to the root.
pub open spec fn evict_steps(members: Seq<u32>, self_pid: u32) -> Seq<DestroyStep>
    decreases members.len(),
{
    if members.len() == 0 {
        Seq::empty()
    } else {
        let p = members.last();
        evict_steps(members.drop_last(), self_pid) + if p == self_pid {
            Seq::empty()
        } else {
            seq![DestroyStep::Kill(p), DestroyStep::MigrateToRoot(p)]
        }
    }
}

/// How a domain is torn down. Nothing is done when it does not exist. With
/// `force_kill` the caller first leaves it if it is a member, and every other
/// member is killed and moved to the root; then the runtime is zeroed (unless
/// it already is) and the directory removed.
pub open spec fn destroy_plan(
    force_kill: bool,
    exists: bool,
    self_pid: u32,
    members: Seq<u32>,
    cur_runtime_us: u64,
) -> Seq<DestroyStep> {
    if !exists {
        Seq::empty()
    } else {
        let leave = if force_kill && members.contains(self_pid) {
            seq![DestroyStep::MigrateToRoot(self_pid)]
        } else {
            Seq::empty()
        };
        let evict = if force_kill {
            evict_steps(members, self_pid)
        } else {
            Seq::empty()
        };
        let zero = if cur_runtime_us == 0 {
            Seq::empty()
        } else {
            seq![DestroyStep::SetRuntimeZero]
        };
        leave + evict + zero + seq![DestroyStep::RemoveDir]
    }
}

/// The non-empty prefixes of `s` that end just before a `/`, up to index `n`.
pub open spec fn parent_prefixes(s: Seq<char>, n: int) -> Seq<Seq<char>>
    decreases n,
{
    if n <= 0 {
        Seq::empty()
    } else {
        parent_prefixes(s, n - 1) + if n - 1 >= 1 && s[n - 1] == '/' {
            seq![s.take(n - 1)]
        } else {
            Seq::empty()
        }
    }
}

/// The path components from the top down to `s` itself, each as the path
/// that names it.
pub open spec fn controller_chain(s: Seq<char>) -> Seq<Seq<char>> {
    if s.len() == 0 {
        Seq::empty()
    } else {
        parent_prefixes(s, s.len() as int) + seq![s]
    }
}

proof fn lemma_kernel_run_concat(s: Reservation, a: Seq<KnobWrite>, b: Seq<KnobWrite>)
    ensures
        kernel_run(s, a + b) == (if kernel_run(s, a).1 {
            kernel_run(kernel_run(s, a).0, b)
        } else {
            (kernel_run(s, a).0, false)
        }),
    decreases b.len(),
{
    if b.len() == 0 {
        assert(a + b =~= a);
    } else {
        assert((a + b).drop_last() =~= a + b.drop_last());
        assert((a + b).last() == b.last());
        lemma_kernel_run_concat(s, a, b.drop_last());
    }
}

proof fn lemma_kernel_run_single(s: Reservation, w: KnobWrite)
    ensures
        kernel_run(s, seq![w]) == (if kernel_accepts(apply_write(s, w)) {
            (apply_write(s, w), true)
        } else {
            (s, false)
        }),
{
    reveal_with_fuel(kernel_run, 2);
    assert(seq![w].drop_last() =~= Seq::<KnobWrite>::empty());
}

proof fn lemma_kernel_run_sound(s: Reservation, ws: Seq<KnobWrite>)
    requires
        kernel_accepts(s),
    ensures
        kernel_accepts(kernel_run(s, ws).0),
        kernel_run(s, ws).1 ==> kernel_run(s, ws).0 == apply_writes(s, ws),
    decreases ws.len(),
{
    if ws.len() > 0 {
        lemma_kernel_run_sound(s, ws.drop_last());
    }
}

proof fn lemma_write_if_changed_run(s: Reservation, knob: Knob, new: u64, cur: u64)
    requires
        cur == (match knob {
            Knob::Runtime => s.runtime_us,
            Knob::Period => s.period_us,
        }),
    ensures
        ({
            let t = apply_write(s, KnobWrite { knob, value_us: new });
            kernel_run(s, write_if_changed(knob, new, cur)) == (if new == cur {
                (s, true)
            } else if kernel_accepts(t) {
                (t, true)
            } else {
                (s, false)
            })
        }),
{
    if new == cur {
        assert(write_if_changed(knob, new, cur) =~= Seq::<KnobWrite>::empty());
    } else {
        lemma_kernel_run_single(s, KnobWrite { knob, value_us: new });
    }
}

/// Writing the planned knobs ends at exactly the requested values.
pub proof fn lemma_setup_reaches_target(cur: Reservation, runtime_us: u64, period_us: u64)
    ensures
        apply_writes(cur, setup_writes(runtime_us, period_us, cur)) == (Reservation {
            runtime_us,
            period_us,
        }),
{
    reveal_with_fuel(apply_writes, 3);
    let ws = setup_writes(runtime_us, period_us, cur);
    let target = Reservation { runtime_us, period_us };
    let wr = write_if_changed(Knob::Runtime, runtime_us, cur.runtime_us);
    let wp = write_if_changed(Knob::Period, period_us, cur.period_us);
    let r = KnobWrite { knob: Knob::Runtime, value_us: runtime_us };
    let p = KnobWrite { knob: Knob::Period, value_us: period_us };
    if runtime_us > cur.runtime_us {
        if period_us == cur.period_us {
            assert(ws =~= seq![r]);
            assert(ws.drop_last() =~= Seq::<KnobWrite>::empty());
        } else {
            assert(ws =~= seq![p, r]);
            assert(ws.drop_last() =~= seq![p]);
            assert(ws.drop_last().drop_last() =~= Seq::<KnobWrite>::empty());
        }
    } else {
        if runtime_us == cur.runtime_us && period_us == cur.period_us {
            assert(ws =~= Seq::<KnobWrite>::empty());
        } else if runtime_us == cur.runtime_us {
            assert(ws =~= seq![p]);
            assert(ws.drop_last() =~= Seq::<KnobWrite>::empty());
        } else if period_us == cur.period_us {
            assert(ws =~= seq![r]);
            assert(ws.drop_last() =~= Seq::<KnobWrite>::empty());
        } else {
            assert(ws =~= seq![r, p]);
            assert(ws.drop_last() =~= seq![r]);
            assert(ws.drop_last().drop_last() =~= Seq::<KnobWrite>::empty());
        }
    }
}

/// The ordering rule: starting from a domain whose runtime does not exceed
/// its period, and asking for such values, no prefix of the planned writes
/// leaves the runtime above the period.
pub proof fn lemma_setup_never_inverts(cur: Reservation, runtime_us: u64, period_us: u64, i: int)
    requires
        cur.runtime_us <= cur.period_us,
        runtime_us <= period_us,
        0 <= i <= setup_writes(runtime_us, period_us, cur).len(),
    ensures
        apply_writes(cur, setup_writes(runtime_us, period_us, cur).take(i)).runtime_us
            <= apply_writes(cur, setup_writes(runtime_us, period_us, cur).take(i)).period_us,
{
    reveal_with_fuel(apply_writes, 2);
    let ws = setup_writes(runtime_us, period_us, cur);
    let r = KnobWrite { knob: Knob::Runtime, value_us: runtime_us };
    let p = KnobWrite { knob: Knob::Period, value_us: period_us };
    let e = Seq::<KnobWrite>::empty();
    if i == 0 {
        assert(ws.take(i) =~= e);
    } else if i == ws.len() {
        assert(ws.take(i) =~= ws);
        lemma_setup_reaches_target(cur, runtime_us, period_us);
    } else {
        assert(ws.take(i) =~= seq![ws[0]]);
        assert(seq![ws[0]].drop_last() =~= e);
        if runtime_us > cur.runtime_us {
            if period_us == cur.period_us {
                assert(ws =~= seq![r]);
            } else {
                assert(ws =~= seq![p, r]);
            }
        } else {
            if runtime_us == cur.runtime_us && period_us == cur.period_us {
                assert(ws =~= e);
            } else if runtime_us == cur.runtime_us {
                assert(ws =~= seq![p]);
            } else if period_us == cur.period_us {
                assert(ws =~= seq![r]);
            } else {
                assert(ws =~= seq![r, p]);
            }
        }
    }
}

/// Configuring a domain that holds values the kernel accepts to other values
/// it accepts: every write is taken, and the knobs then read back exactly
/// the requested values.
pub proof fn lemma_configure_succeeds(cur: Reservation, runtime_us: u64, period_us: u64)
    requires
        kernel_accepts(cur),
        kernel_accepts(Reservation { runtime_us, period_us }),
    ensures
        kernel_run(cur, setup_writes(runtime_us, period_us, cur)) == (Reservation {
            runtime_us,
            period_us,
        }, true),
{
    let wr = write_if_changed(Knob::Runtime, runtime_us, cur.runtime_us);
    let wp = write_if_changed(Knob::Period, period_us, cur.period_us);
    if runtime_us > cur.runtime_us {
        lemma_kernel_run_concat(cur, wp, wr);
        lemma_write_if_changed_run(cur, Knob::Period, period_us, cur.period_us);
        let mid = kernel_run(cur, wp).0;
        lemma_write_if_changed_run(mid, Knob::Runtime, runtime_us, cur.runtime_us);
    } else {
        lemma_kernel_run_concat(cur, wr, wp);
        lemma_write_if_changed_run(cur, Knob::Runtime, runtime_us, cur.runtime_us);
        let mid = kernel_run(cur, wr).0;
        lemma_write_if_changed_run(mid, Knob::Period, period_us, cur.period_us);
    }
}

/// Configuring to values the kernel refuses (a zero period, a runtime above
/// the period, a runtime below the smallest positive one, a period too large)
/// fails: either the plan is refused outright, or some write is refused. The
/// domain is left with values the kernel accepts, so it can still be removed.
pub proof fn lemma_configure_rejected(cur: Reservation, runtime_us: u64, period_us: u64)
    requires
        kernel_accepts(cur),
        !kernel_accepts(Reservation { runtime_us, period_us }),
    ensures
        runtime_us <= period_us ==> !kernel_run(cur, setup_writes(runtime_us, period_us, cur)).1,
        kernel_accepts(kernel_run(cur, setup_writes(runtime_us, period_us, cur)).0),
{
    lemma_kernel_run_sound(cur, setup_writes(runtime_us, period_us, cur));
    lemma_setup_reaches_target(cur, runtime_us, period_us);
}

proof fn lemma_evict_steps_shape(members: Seq<u32>, self_pid: u32)
    ensures
        forall|i: int|
            0 <= i < evict_steps(members, self_pid).len() ==> (#[trigger] evict_steps(
                members,
                self_pid,
            )[i] is Kill || evict_steps(members, self_pid)[i] is MigrateToRoot),
    decreases members.len(),
{
    if members.len() > 0 {
        lemma_evict_steps_shape(members.drop_last(), self_pid);
    }
}

/// Tearing down a domain that does not exist does nothing, so a second
/// destroy after a successful one, or one of a domain never created, succeeds.
pub proof fn lemma_destroy_absent_is_noop(
    force_kill: bool,
    self_pid: u32,
    members: Seq<u32>,
    cur_runtime_us: u64,
)
    ensures
        destroy_plan(force_kill, false, self_pid, members, cur_runtime_us).len() == 0,
{
}

/// When a domain exists, its teardown ends by removing the directory, and
/// its runtime is zeroed only after every member has been evicted.
pub proof fn lemma_destroy_order(
    force_kill: bool,
    self_pid: u32,
    members: Seq<u32>,
    cur_runtime_us: u64,
)
    ensures
        ({
            let plan = destroy_plan(force_kill, true, self_pid, members, cur_runtime_us);
            &&& plan.len() >= 1
            &&& plan.last() == DestroyStep::RemoveDir
            &&& forall|i: int, j: int|
                0 <= i < plan.len() && 0 <= j < plan.len() && (plan[i] is Kill
                    || plan[i] is MigrateToRoot) && plan[j] is SetRuntimeZero ==> i < j
        }),
{
    lemma_evict_steps_shape(members, self_pid);
    let plan = destroy_plan(force_kill, true, self_pid, members, cur_runtime_us);
    let leave = if force_kill && members.contains(self_pid) {
        seq![DestroyStep::MigrateToRoot(self_pid)]
    } else {
        Seq::empty()
    };
    let evict = if force_kill {
        evict_steps(members, self_pid)
    } else {
        Seq::empty()
    };
    let zero = if cur_runtime_us == 0 {
        Seq::empty()
    } else {
        seq![DestroyStep::SetRuntimeZero]
    };
    let head = leave + evict;
    assert(plan == head + zero + seq![DestroyStep::RemoveDir]);
    assert forall|i: int| 0 <= i < head.len() implies (#[trigger] head[i] is Kill
        || head[i] is MigrateToRoot) by {
        if i >= leave.len() {
            assert(head[i] == evict[i - leave.len()]);
        }
    }
    assert forall|i: int, j: int|
        0 <= i < plan.len() && 0 <= j < plan.len() && (plan[i] is Kill
            || plan[i] is MigrateToRoot) && plan[j] is SetRuntimeZero implies i < j by {
        if j < head.len() {
            assert(plan[j] == head[j]);
        }
        if i >= head.len() {
            if i < head.len() + zero.len() {
                assert(plan[i] == zero[i - head.len()]);
            } else {
                assert(plan[i] == DestroyStep::RemoveDir);
            }
        }
        if j >= head.len() + zero.len() {
            assert(plan[j] == DestroyStep::RemoveDir);
        }
    }
}

fn is_root(name: &str) -> (r: bool)
    ensures
        r == is_root_name(name@),
{
    if name.unicode_len() != 1 {
        return false;
    }
    let c = name.get_char(0);
    proof {
        if c == '.' {
            assert(name@ =~= seq!['.']);
        }
    }
    c == '.'
}

/// The directory of domain `name`.
pub fn cgroup_path(h: Hierarchy, name: &str) -> (r: String)
    ensures
        r@ == domain_dir(h, name@),
{
    let mut s = match h {
        Hierarchy::Legacy => LEGACY_ROOT.to_owned(),
        Hierarchy::Unified => UNIFIED_ROOT.to_owned(),
    };
    s.append(name);
    s
}

/// The domain paths on which the CPU controller must be enabled, from the
/// top of the hierarchy down to `name` itself.
pub fn controller_paths(name: &str) -> (r: Vec<String>)
    ensures
        r@.len() == controller_chain(name@).len(),
        forall|i: int| 0 <= i < r@.len() ==> #[trigger] r@[i]@ == controller_chain(name@)[i],
{
    let n = name.unicode_len();
    let mut out: Vec<String> = Vec::new();
    if n == 0 {
        return out;
    }
    let mut i: usize = 0;
    while i < n
        invariant
            n == name@.len(),
            i <= n,
            out@.len() == parent_prefixes(name@, i as int).len(),
            forall|j: int| 0 <= j < out@.len() ==> #[trigger] out@[j]@ == parent_prefixes(
                name@,
                i as int,
            )[j],
        decreases n - i,
    {
        let ghost before = parent_prefixes(name@, i as int);
        if i >= 1 && name.get_char(i) == '/' {
            let p = name.substring_char(0, i);
            out.push(p.to_owned());
            proof {
                assert(p@ =~= name@.take(i as int));
            }
        }
        i += 1;
        proof {
            assert(parent_prefixes(name@, i as int) == before + if i - 1 >= 1 && name@[i - 1]
                == '/' {
                seq![name@.take(i - 1)]
            } else {
                Seq::<Seq<char>>::empty()
            });
        }
    }
    out.push(name.to_owned());
    out
}

/// Whether a `cgroup.subtree_control` listing enables the CPU controller,
/// that is, mentions `cpu`.
pub fn cpu_controller_listed(listing: &[u8]) -> (r: bool)
    ensures
        r == exists|i: int|
            0 <= i && i + 3 <= listing@.len() && #[trigger] listing@.subrange(i, i + 3) == seq![
                99u8,
                112u8,
                117u8,
            ],
{
    let n = listing.len();
    let mut i: usize = 0;
    while n - i >= 3
        invariant
            n == listing@.len(),
            i <= n,
            forall|j: int|
                0 <= j < i && j + 3 <= n ==> #[trigger] listing@.subrange(j, j + 3) != seq![
                    99u8,
                    112u8,
                    117u8,
                ],
        decreases n - i,
    {
        if listing[i] == 99 && listing[i + 1] == 112 && listing[i + 2] == 117 {
            proof {
                assert(listing@.subrange(i as int, i + 3) =~= seq![99u8, 112u8, 117u8]);
            }
            return true;
        }
        proof {
            assert(listing@.subrange(i as int, i + 3)[0] == listing@[i as int]);
            assert(listing@.subrange(i as int, i + 3)[1] == listing@[i + 1]);
            assert(listing@.subrange(i as int, i + 3)[2] == listing@[i + 2]);
        }
        i += 1;
    }
    proof {
        assert forall|j: int| 0 <= j && j + 3 <= n implies #[trigger] listing@.subrange(
            j,
            j + 3,
        ) != seq![99u8, 112u8, 117u8] by {
            assert(j < i);
        }
    }
    false
}

/// The write of `new` to `knob`, left out when the knob already holds it.
pub fn knob_write(knob: Knob, new: u64, cur: u64) -> (r: Vec<KnobWrite>)
    ensures
        r@ == write_if_changed(knob, new, cur),
{
    let mut v: Vec<KnobWrite> = Vec::new();
    if new != cur {
        v.push(KnobWrite { knob, value_us: new });
    }
    proof {
        if new == cur {
            assert(v@ =~= Seq::<KnobWrite>::empty());
        } else {
            assert(v@ =~= seq![KnobWrite { knob, value_us: new }]);
        }
    }
    v
}

/// The writes that give a domain now holding `cur` the reservation
/// `runtime_us / period_us`, in an order that never asks the kernel for a
/// runtime above the period; refused when `runtime_us > period_us`.
pub fn cgroup_setup(runtime_us: u64, period_us: u64, cur: Reservation) -> (r: Result<
    Vec<KnobWrite>,
    CgroupError,
>)
    ensures
        r is Err <==> runtime_us > period_us,
        r matches Ok(ws) ==> ws@ == setup_writes(runtime_us, period_us, cur),
        r matches Err(e) ==> e == (CgroupError::RuntimeAbovePeriod { runtime_us, period_us }),
{
    if runtime_us > period_us {
        return Err(CgroupError::RuntimeAbovePeriod { runtime_us, period_us });
    }
    let mut first;
    let mut second;
    if runtime_us > cur.runtime_us {
        first = knob_write(Knob::Period, period_us, cur.period_us);
        second = knob_write(Knob::Runtime, runtime_us, cur.runtime_us);
    } else {
        first = knob_write(Knob::Runtime, runtime_us, cur.runtime_us);
        second = knob_write(Knob::Period, period_us, cur.period_us);
    }
    first.append(&mut second);
    Ok(first)
}

/// Whether the kernel admits a domain holding these values.
pub fn kernel_admits(s: Reservation) -> (r: bool)
    ensures
        r == kernel_accepts(s),
{
    0 < s.period_us && s.period_us <= MAX_PERIOD_US && s.runtime_us <= s.period_us && (s.runtime_us
        == 0 || s.runtime_us >= MIN_RUNTIME_US)
}

/// A reservation given in milliseconds, either part possibly left out.
#[derive(Debug, Clone, Copy, PartialEq, Eq, Structural)]
pub struct Bandwidth {
    pub runtime_ms: Option<u64>,
    pub period_ms: Option<u64>,
}

pub open spec fn resolve_us(ms: Option<u64>, cur_us: u64) -> Option<u64> {
    match ms {
        Some(v) => if v * 1000 <= u64::MAX {
            Some((v * 1000) as u64)
        } else {
            None
        },
        None => Some(cur_us),
    }
}

impl Bandwidth {
    /// The reservation in microseconds, each part left out kept at its
    /// current value; `None` when a given part does not fit in microseconds.
    pub fn resolve(&self, cur: Reservation) -> (r: Option<Reservation>)
        ensures
            r is Some <==> resolve_us(self.runtime_ms, cur.runtime_us) is Some && resolve_us(
                self.period_ms,
                cur.period_us,
            ) is Some,
            r matches Some(v) ==> v.runtime_us == resolve_us(self.runtime_ms, cur.runtime_us)->Some_0
                && v.period_us == resolve_us(self.period_ms, cur.period_us)->Some_0,
    {
        let runtime_us = match self.runtime_ms {
            Some(v) => {
                if v > u64::MAX / 1000 {
                    return None;
                }
                v * 1000
            },
            None => cur.runtime_us,
        };
        let period_us = match self.period_ms {
            Some(v) => {
                if v > u64::MAX / 1000 {
                    return None;
                }
                v * 1000
            },
            None => cur.period_us,
        };
        Some(Reservation { runtime_us, period_us })
    }
}

/// The domain named by a process's cgroup entry `0::/<name>`, once trimmed;
/// an empty name is the root `.`.
pub open spec fn entry_domain(text: Seq<u8>) -> Option<Seq<u8>> {
    let t = trim(text);
    if t.len() >= 4 && t.take(4) == seq![48u8, 58u8, 58u8, 47u8] {
        if t.len() == 4 {
            Some(seq![46u8])
        } else {
            Some(t.skip(4))
        }
    } else {
        None
    }
}

/// Reads the domain of a process from the text of its `/proc/<pid>/cgroup`.
pub fn cgroup_of_entry(text: &[u8]) -> (r: Option<Vec<u8>>)
    ensures
        r is Some <==> entry_domain(text@) is Some,
        r matches Some(v) ==> v@ == entry_domain(text@)->Some_0,
{
    let e = trim_end_index(text, 0, text.len());
    let s = trim_start_index(text, 0, e);
    proof {
        assert(text@.subrange(0, text@.len() as int) =~= text@);
    }
    let ghost t = text@.subrange(s as int, e as int);
    if e - s < 4 || text[s] != 48 || text[s + 1] != 58 || text[s + 2] != 58 || text[s + 3] != 47 {
        proof {
            if t.len() >= 4 && t.take(4) == seq![48u8, 58u8, 58u8, 47u8] {
                assert(t.take(4)[0] == text@[s as int]);
                assert(t.take(4)[1] == text@[s + 1]);
                assert(t.take(4)[2] == text@[s + 2]);
                assert(t.take(4)[3] == text@[s + 3]);
            }
        }
        return None;
    }
    proof {
        assert(t.take(4) =~= seq![48u8, 58u8, 58u8, 47u8]);
    }
    let mut out: Vec<u8> = Vec::new();
    if e - s == 4 {
        out.push(46);
        proof {
            assert(out@ =~= seq![46u8]);
        }
        return Some(out);
    }
    let mut i: usize = s + 4;
    while i < e
        invariant
            s + 4 <= i <= e <= text@.len(),
            out@ == text@.subrange(s + 4, i as int),
        decreases e - i,
    {
        out.push(text[i]);
        i += 1;
        proof {
            assert(out@ =~= text@.subrange(s + 4, i as int));
        }
    }
    proof {
        assert(out@ =~= t.skip(4));
    }
    Some(out)
}

/// A managed reservation domain: never the root, torn down by its owner.
#[derive(Debug)]
pub struct MyCgroup {
    name: String,
    force_kill: bool,
}

impl MyCgroup {
    pub closed spec fn spec_name(&self) -> Seq<char> {
        self.name@
    }

    pub closed spec fn spec_force_kill(&self) -> bool {
        self.force_kill
    }

    /// A handle on domain `name` with reservation `runtime_us / period_us`.
    /// The root domain, a zero period and a runtime above the period are
    /// refused, in that order of precedence.
    pub fn new(name: &str, runtime_us: u64, period_us: u64, force_kill: bool) -> (r: Result<
        MyCgroup,
        CgroupError,
    >)
        ensures
            r is Ok <==> !is_root_name(name@) && period_us > 0 && runtime_us <= period_us,
            r matches Ok(c) ==> c.spec_name() == name@ && c.spec_force_kill() == force_kill,
            r matches Err(e) ==> (if is_root_name(name@) {
                e is RootCgroup
            } else if period_us == 0 {
                e is ZeroPeriod
            } else {
                e == (CgroupError::RuntimeAbovePeriod { runtime_us, period_us })
            }),
    {
        if is_root(name) {
            return Err(CgroupError::RootCgroup);
        }
        if period_us == 0 {
            return Err(CgroupError::ZeroPeriod);
        }
        if runtime_us > period_us {
            return Err(CgroupError::RuntimeAbovePeriod { runtime_us, period_us });
        }
        Ok(MyCgroup { name: name.to_owned(), force_kill })
    }

    pub fn name(&self) -> (r: &str)
        ensures
            r@ == self.spec_name(),
    {
        self.name.as_str()
    }

    pub fn force_kill(&self) -> (r: bool)
        ensures
            r == self.spec_force_kill(),
    {
        self.force_kill
    }

    /// The write that sets the runtime to `runtime_us` when it now holds
    /// `cur_runtime_us`: none when the two are equal.
    pub fn update_runtime(&self, runtime_us: u64, cur_runtime_us: u64) -> (r: Vec<KnobWrite>)
        ensures
            r@ == write_if_changed(Knob::Runtime, runtime_us, cur_runtime_us),
    {
        knob_write(Knob::Runtime, runtime_us, cur_runtime_us)
    }

    /// The steps that tear the domain down, given whether its directory
    /// exists, the caller's own pid, its members and its current runtime.
    pub fn destroy(&self, exists: bool, self_pid: u32, members: &[u32], cur_runtime_us: u64) -> (r:
        Vec<DestroyStep>)
        ensures
            r@ == destroy_plan(self.spec_force_kill(), exists, self_pid, members@, cur_runtime_us),
    {
        let mut steps: Vec<DestroyStep> = Vec::new();
        if !exists {
            proof {
                assert(steps@ =~= destroy_plan(
                    self.force_kill,
                    exists,
                    self_pid,
                    members@,
                    cur_runtime_us,
                ));
            }
            return steps;
        }
        let ghost leave: Seq<DestroyStep> = Seq::empty();
        if self.force_kill {
            let mut k: usize = 0;
            let mut member = false;
            while k < members.len()
                invariant
                    k <= members@.len(),
                    member == exists|j: int| 0 <= j < k && members@[j] == self_pid,
                decreases members@.len() - k,
            {
                if members[k] == self_pid {
                    member = true;
                }
                k += 1;
            }
            if member {
                steps.push(DestroyStep::MigrateToRoot(self_pid));
                proof {
                    leave = seq![DestroyStep::MigrateToRoot(self_pid)];
                    assert(members@.contains(self_pid));
                }
            } else {
                proof {
                    assert(!members@.contains(self_pid));
                }
            }
            let mut i: usize = 0;
            proof {
                assert(members@.take(0) =~= Seq::<u32>::empty());
                assert(steps@ =~= leave + evict_steps(members@.take(0), self_pid));
            }
            while i < members.len()
                invariant
                    i <= members@.len(),
                    steps@ == leave + evict_steps(members@.take(i as int), self_pid),
                decreases members@.len() - i,
            {
                let p = members[i];
                proof {
                    assert(members@.take(i + 1).drop_last() =~= members@.take(i as int));
                }
                if p != self_pid {
                    steps.push(DestroyStep::Kill(p));
                    steps.push(DestroyStep::MigrateToRoot(p));
                }
                i += 1;
                proof {
                    assert(steps@ =~= leave + evict_steps(members@.take(i as int), self_pid));
                }
            }
            proof {
                assert(members@.take(i as int) =~= members@);
            }
        }
        let ghost before_zero = steps@;
        if cur_runtime_us != 0 {
            steps.push(DestroyStep::SetRuntimeZero);
        }
        steps.push(DestroyStep::RemoveDir);
        proof {
            assert(steps@ =~= destroy_plan(
                self.force_kill,
                exists,
                self_pid,
                members@,
                cur_runtime_us,
            ));
        }
        steps
    }
}

} // verus!
