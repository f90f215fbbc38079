//! The taskset engine: its input and output formats, the admissibility of a
//! run, the arguments handed to the workload generator, and the deadline-miss
//! statistics of a finished run.
use crate::text::{
    all_digits, dec_str, dec_value, field_ranges, fields, find_byte, is_digit, parse_dec,
    push_decimal, split, split_ranges, trim, trim_end, trim_end_index, trim_start_index,
};
use crate::order::{
    lemma_seq_lt_asymmetric, lemma_seq_lt_irreflexive, lemma_seq_lt_total, lemma_seq_lt_transitive,
    seq_lt, str_lt,
};
use vstd::prelude::*;
use vstd::string::*;

verus! {

/// Units of a deadline offset's fractional part per unit.
pub const FRAC_SCALE: u64 = 1_000_000_000_000_000_000;

/// Most fractional digits a deadline offset may carry.
pub const MAX_FRAC_DIGITS: usize = 18;

/// One periodic task; its deadline equals its period.
#[derive(Debug, Clone, Copy, PartialEq, Eq, Structural)]
pub struct PeriodicTaskData {
    pub runtime_ms: u64,
    pub period_ms: u64,
}

/// What the workload generator is started with.
#[derive(Debug, Clone)]
pub struct PeriodicThreadData {
    /// Priority of the task with the shortest period; the others follow
    /// downwards.
    pub start_priority: u64,
    pub tasks: Vec<PeriodicTaskData>,
    pub num_instances_per_job: u64,
    /// Further arguments, one word each.
    pub extra_args: Vec<String>,
    pub out_file: String,
}

/// A named list of periodic tasks.
#[derive(Debug, Clone)]
pub struct Taskset {
    pub name: String,
    pub data: Vec<PeriodicTaskData>,
}

/// The reservation a taskset is run under.
#[derive(Debug, Clone)]
pub struct TasksetConfig {
    pub name: String,
    pub num_cpus: u64,
    pub runtime_ms: u64,
    pub period_ms: u64,
}

/// One taskset under one configuration, with where its log is kept.
#[derive(Debug, Clone)]
pub struct TasksetRun {
    pub tasks: Taskset,
    pub config: TasksetConfig,
    pub output_file: String,
}

/// A signed decimal `whole.frac`, the fraction counted in units of 10^-18.
#[derive(Debug, Clone, Copy, PartialEq, Eq, Structural)]
pub struct DeadlineOffset {
    pub negative: bool,
    pub whole: u64,
    pub frac_e18: u64,
}

/// One observed job activation; a positive deadline offset is a miss.
#[derive(Debug, Clone, Copy, PartialEq, Eq, Structural)]
pub struct TasksetRunResultInstance {
    pub task: u64,
    pub instance: u64,
    pub abs_activation_time_us: u64,
    pub rel_start_time_us: u64,
    pub rel_finishing_time_us: u64,
    pub deadline_offset: DeadlineOffset,
}

/// A run together with every activation its log records.
#[derive(Debug, Clone)]
pub struct TasksetRunResult {
    pub taskset: Taskset,
    pub config: TasksetConfig,
    pub results: Vec<TasksetRunResultInstance>,
}

/// Why a taskset input or output was refused.
#[derive(Debug, Clone, Copy, PartialEq, Eq, Structural)]
pub enum TasksetError {
    /// The taskset description is malformed, or a deadline differs from its period.
    MalformedTaskset,
    /// The run configuration is malformed.
    MalformedConfig,
    /// A line of the output log is neither a comment nor a record.
    MalformedLog,
    /// The generator was asked to run no task.
    NoTasks,
    /// The tasks are not in ascending order of period.
    UnsortedTasks,
    /// A time does not fit once converted to microseconds.
    TimeOverflow,
}

pub open spec fn pow10(n: nat) -> nat
    decreases n,
{
    if n == 0 {
        1
    } else {
        10 * pow10((n - 1) as nat)
    }
}

pub open spec fn offset_value(o: DeadlineOffset) -> int {
    let m = o.whole * FRAC_SCALE + o.frac_e18;
    if o.negative {
        -m
    } else {
        m
    }
}

/// `u` reads `digits.digits` with the dot at `k`.
pub open spec fn dot_at(u: Seq<u8>, k: int) -> bool {
    0 <= k < u.len() && u[k] == 46 && all_digits(u.take(k)) && all_digits(u.skip(k + 1))
}

/// The unsigned part of a signed decimal.
pub open spec fn unsigned_part(t: Seq<u8>) -> Seq<u8> {
    if t.len() > 0 && t[0] == 45 {
        t.skip(1)
    } else {
        t
    }
}

/// The offset that `t` spells as `[-]digits.digits`, with a whole part that
/// fits 64 bits and at most eighteen fractional digits.
pub open spec fn offset_of(t: Seq<u8>) -> Option<DeadlineOffset> {
    let u = unsigned_part(t);
    if exists|k: int| dot_at(u, k) {
        let k = choose|k: int| dot_at(u, k);
        let w = u.take(k);
        let f = u.skip(k + 1);
        if dec_value(w) <= u64::MAX && f.len() <= MAX_FRAC_DIGITS {
            Some(
                DeadlineOffset {
                    negative: t.len() > 0 && t[0] == 45,
                    whole: dec_value(w) as u64,
                    frac_e18: (dec_value(f) * pow10((MAX_FRAC_DIGITS - f.len()) as nat)) as u64,
                },
            )
        } else {
            None
        }
    } else {
        None
    }
}

pub open spec fn u64_of(tok: Seq<u8>) -> Option<u64> {
    if all_digits(tok) && dec_value(tok) <= u64::MAX {
        Some(dec_value(tok) as u64)
    } else {
        None
    }
}

/// A log record: five unsigned integers and a signed decimal, blank-separated.
pub open spec fn record_of(l: Seq<u8>) -> Option<TasksetRunResultInstance> {
    let f = fields(l);
    if f.len() == 6 && u64_of(f[0]) is Some && u64_of(f[1]) is Some && u64_of(f[2]) is Some
        && u64_of(f[3]) is Some && u64_of(f[4]) is Some && offset_of(f[5]) is Some {
        Some(
            TasksetRunResultInstance {
                task: u64_of(f[0])->Some_0,
                instance: u64_of(f[1])->Some_0,
                abs_activation_time_us: u64_of(f[2])->Some_0,
                rel_start_time_us: u64_of(f[3])->Some_0,
                rel_finishing_time_us: u64_of(f[4])->Some_0,
                deadline_offset: offset_of(f[5])->Some_0,
            },
        )
    } else {
        None
    }
}

pub open spec fn is_comment(l: Seq<u8>) -> bool {
    l.len() > 0 && l[0] == 35
}

/// The records of `lines`, each line trimmed, comment lines skipped; `None`
/// when some other line is not a record.
pub open spec fn log_records(lines: Seq<Seq<u8>>) -> Option<Seq<TasksetRunResultInstance>>
    decreases lines.len(),
{
    if lines.len() == 0 {
        Some(Seq::empty())
    } else {
        match log_records(lines.drop_last()) {
            None => None,
            Some(rs) => {
                let l = trim(lines.last());
                if is_comment(l) {
                    Some(rs)
                } else {
                    match record_of(l) {
                        Some(x) => Some(rs.push(x)),
                        None => None,
                    }
                }
            },
        }
    }
}

/// The records of an output log.
pub open spec fn log_of(text: Seq<u8>) -> Option<Seq<TasksetRunResultInstance>> {
    if trim(text).len() == 0 {
        Some(Seq::empty())
    } else {
        log_records(split(trim(text), 10))
    }
}

/// A taskset line `runtime deadline period`, the deadline equal to the period.
pub open spec fn task_of(l: Seq<u8>) -> Option<PeriodicTaskData> {
    let f = fields(l);
    if f.len() == 3 && u64_of(f[0]) is Some && u64_of(f[1]) is Some && u64_of(f[2]) is Some
        && u64_of(f[1]) == u64_of(f[2]) {
        Some(PeriodicTaskData { runtime_ms: u64_of(f[0])->Some_0, period_ms: u64_of(f[2])->Some_0 })
    } else {
        None
    }
}

pub open spec fn task_lines(lines: Seq<Seq<u8>>) -> Option<Seq<PeriodicTaskData>>
    decreases lines.len(),
{
    if lines.len() == 0 {
        Some(Seq::empty())
    } else {
        match task_lines(lines.drop_last()) {
            None => None,
            Some(ts) => match task_of(lines.last()) {
                Some(x) => Some(ts.push(x)),
                None => None,
            },
        }
    }
}

/// The tasks of a taskset description: one line each, trailing whitespace
/// ignored.
pub open spec fn taskset_of(text: Seq<u8>) -> Option<Seq<PeriodicTaskData>> {
    task_lines(split(trim_end(text), 10))
}

/// A run configuration `num_cpus runtime period` on one line.
pub open spec fn config_of(text: Seq<u8>) -> Option<(u64, u64, u64)> {
    let f = fields(trim_end(text));
    if f.len() == 3 && u64_of(f[0]) is Some && u64_of(f[1]) is Some && u64_of(f[2]) is Some {
        Some((u64_of(f[0])->Some_0, u64_of(f[1])->Some_0, u64_of(f[2])->Some_0))
    } else {
        None
    }
}

proof fn lemma_dec_lt_pow10(s: Seq<u8>)
    requires
        forall|j: int| 0 <= j < s.len() ==> is_digit(#[trigger] s[j]),
    ensures
        dec_value(s) < pow10(s.len()),
    decreases s.len(),
{
    if s.len() > 0 {
        let d = s.drop_last();
        assert forall|j: int| 0 <= j < d.len() implies is_digit(#[trigger] d[j]) by {
            assert(d[j] == s[j]);
        }
        lemma_dec_lt_pow10(d);
        let a = dec_value(d);
        let b = (s.last() - 48) as nat;
        let p = pow10(d.len());
        assert(a * 10 + b < 10 * p) by (nonlinear_arith)
            requires
                a < p,
                b <= 9,
        ;
    }
}

fn parse_u64(t: &[u8], start: usize, end: usize) -> (r: Option<u64>)
    requires
        start <= end <= t@.len(),
    ensures
        r == u64_of(t@.subrange(start as int, end as int)),
{
    parse_dec(t, start, end, u64::MAX)
}

/// The offset spelled by `t[start..end]`.
fn parse_offset(t: &[u8], start: usize, end: usize) -> (r: Option<DeadlineOffset>)
    requires
        start <= end <= t@.len(),
    ensures
        r == offset_of(t@.subrange(start as int, end as int)),
{
    let ghost tok = t@.subrange(start as int, end as int);
    let negative = start < end && t[start] == 45;
    let us = if negative {
        start + 1
    } else {
        start
    };
    let ghost u = t@.subrange(us as int, end as int);
    proof {
        assert(unsigned_part(tok) == u) by {
            if negative {
                assert(tok.skip(1) =~= u);
            } else {
                assert(tok =~= u);
            }
        }
    }
    let d = find_byte(t, us, end, 46);
    let ghost k0 = d - us;
    proof {
        assert forall|k: int| dot_at(u, k) implies k == k0 by {
            if k < k0 {
                assert(u[k] == t@[us + k]);
            }
            if k > k0 {
                assert(u.take(k)[k0] == 46);
            }
        }
    }
    if d == end {
        proof {
            assert forall|k: int| !dot_at(u, k) by {
                if 0 <= k < u.len() {
                    assert(u[k] == t@[us + k]);
                }
            }
        }
        return None;
    }
    proof {
        assert(u.take(k0) =~= t@.subrange(us as int, d as int));
        assert(u.skip(k0 + 1) =~= t@.subrange(d + 1, end as int));
    }
    let whole = parse_dec(t, us, d, u64::MAX);
    let flen = end - (d + 1);
    if flen > MAX_FRAC_DIGITS || flen == 0 {
        proof {
            if exists|k: int| dot_at(u, k) {
                assert(dot_at(u, k0));
            }
        }
        return None;
    }
    match whole {
        None => {
            proof {
                if exists|k: int| dot_at(u, k) {
                    assert(dot_at(u, k0));
                }
            }
            None
        },
        Some(w) => {
            let frac = parse_dec(t, d + 1, end, u64::MAX);
            match frac {
                None => {
                    proof {
                        let f = t@.subrange(d + 1, end as int);
                        if exists|k: int| dot_at(u, k) {
                            assert(dot_at(u, k0));
                            assert(all_digits(f));
                            lemma_dec_lt_pow10(f);
                            lemma_pow10_le(f.len(), 18);
                            lemma_pow10_18();
                        }
                    }
                    None
                },
                Some(fv) => {
                    let ghost f = t@.subrange(d + 1, end as int);
                    proof {
                        assert(dot_at(u, k0));
                        lemma_dec_lt_pow10(f);
                        assert(pow10(0) == 1);
                        assert(dec_value(f) * pow10(0) == dec_value(f));
                    }
                    let mut v: u64 = fv;
                    let mut j: usize = flen;
                    while j < MAX_FRAC_DIGITS
                        invariant
                            flen <= j <= MAX_FRAC_DIGITS,
                            flen == f.len(),
                            v as nat == dec_value(f) * pow10((j - flen) as nat),
                            (v as nat) < pow10(j as nat),
                        decreases MAX_FRAC_DIGITS - j,
                    {
                        proof {
                            lemma_pow10_le((j + 1) as nat, 18);
                            lemma_pow10_18();
                            assert(pow10((j + 1 - flen) as nat) == 10 * pow10((j - flen) as nat));
                            assert(pow10((j + 1) as nat) == 10 * pow10(j as nat));
                            assert(v * 10 == dec_value(f) * pow10((j + 1 - flen) as nat))
                                by (nonlinear_arith)
                                requires
                                    v as nat == dec_value(f) * pow10((j - flen) as nat),
                                    pow10((j + 1 - flen) as nat) == 10 * pow10((j - flen) as nat),
                            ;
                        }
                        v = v * 10;
                        j += 1;
                    }
                    Some(DeadlineOffset { negative, whole: w, frac_e18: v })
                },
            }
        },
    }
}

proof fn lemma_pow10_18()
    ensures
        pow10(18) == FRAC_SCALE,
{
    reveal_with_fuel(pow10, 19);
}

proof fn lemma_pow10_le(a: nat, b: nat)
    requires
        a <= b,
    ensures
        pow10(a) <= pow10(b),
    decreases b,
{
    if a < b {
        lemma_pow10_le(a, (b - 1) as nat);
    }
}

/// The record on the line `t[start..end]`.
fn parse_record(t: &[u8], start: usize, end: usize) -> (r: Option<TasksetRunResultInstance>)
    requires
        start <= end <= t@.len(),
    ensures
        r == record_of(t@.subrange(start as int, end as int)),
{
    let f = field_ranges(t, start, end);
    if f.len() != 6 {
        return None;
    }
    let a = parse_u64(t, f[0].0, f[0].1);
    let b = parse_u64(t, f[1].0, f[1].1);
    let c = parse_u64(t, f[2].0, f[2].1);
    let d = parse_u64(t, f[3].0, f[3].1);
    let e = parse_u64(t, f[4].0, f[4].1);
    let o = parse_offset(t, f[5].0, f[5].1);
    match (a, b, c, d, e, o) {
        (Some(a), Some(b), Some(c), Some(d), Some(e), Some(o)) => Some(
            TasksetRunResultInstance {
                task: a,
                instance: b,
                abs_activation_time_us: c,
                rel_start_time_us: d,
                rel_finishing_time_us: e,
                deadline_offset: o,
            },
        ),
        _ => None,
    }
}

/// The task on the line `t[start..end]`.
fn parse_task(t: &[u8], start: usize, end: usize) -> (r: Option<PeriodicTaskData>)
    requires
        start <= end <= t@.len(),
    ensures
        r == task_of(t@.subrange(start as int, end as int)),
{
    let f = field_ranges(t, start, end);
    if f.len() != 3 {
        return None;
    }
    let a = parse_u64(t, f[0].0, f[0].1);
    let b = parse_u64(t, f[1].0, f[1].1);
    let c = parse_u64(t, f[2].0, f[2].1);
    match (a, b, c) {
        (Some(runtime), Some(deadline), Some(period)) => {
            if deadline == period {
                Some(PeriodicTaskData { runtime_ms: runtime, period_ms: period })
            } else {
                None
            }
        },
        _ => None,
    }
}

/// Parses an output log: `#` lines are comments; every other line, once
/// trimmed, must be a record.
pub fn parse_taskset_results(text: &[u8]) -> (r: Result<Vec<TasksetRunResultInstance>, TasksetError>)
    ensures
        r is Ok <==> log_of(text@) is Some,
        r matches Ok(v) ==> v@ == log_of(text@)->Some_0,
        r matches Err(e) ==> e is MalformedLog,
{
    let e = trim_end_index(text, 0, text.len());
    let s = trim_start_index(text, 0, e);
    proof {
        assert(text@.subrange(0, text@.len() as int) =~= text@);
        assert(text@.subrange(s as int, e as int) == trim(text@));
    }
    let mut out: Vec<TasksetRunResultInstance> = Vec::new();
    if s == e {
        return Ok(out);
    }
    let lines = split_ranges(text, s, e, 10);
    let ghost ls = split(trim(text@), 10);
    let mut k: usize = 0;
    proof {
        assert(ls.take(0) =~= Seq::<Seq<u8>>::empty());
    }
    while k < lines.len()
        invariant
            k <= lines@.len() == ls.len(),
            s < e <= text@.len(),
            ls == split(text@.subrange(s as int, e as int), 10),
            ls == split(trim(text@), 10),
            trim(text@).len() > 0,
            forall|i: int|
                0 <= i < lines@.len() ==> (#[trigger] lines@[i]).0 <= lines@[i].1 <= text@.len()
                    && text@.subrange(lines@[i].0 as int, lines@[i].1 as int) == ls[i],
            log_records(ls.take(k as int)) == Some(out@),
        decreases lines@.len() - k,
    {
        let (a, b) = lines[k];
        let b2 = trim_end_index(text, a, b);
        let a2 = trim_start_index(text, a, b2);
        proof {
            assert(ls.take(k + 1).drop_last() =~= ls.take(k as int));
            assert(ls.take(k + 1).last() == ls[k as int]);
            assert(text@.subrange(a as int, b2 as int) == trim_end(ls[k as int]));
            assert(text@.subrange(a2 as int, b2 as int) == trim(ls[k as int]));
        }
        if a2 < b2 && text[a2] == 35 {
        } else {
            match parse_record(text, a2, b2) {
                Some(x) => {
                    out.push(x);
                },
                None => {
                    proof {
                        lemma_log_records_none_persists(ls, (k + 1) as int);
                        assert(ls.take(ls.len() as int) =~= ls);
                    }
                    return Err(TasksetError::MalformedLog);
                },
            }
        }
        k += 1;
    }
    proof {
        assert(ls.take(k as int) =~= ls);
    }
    Ok(out)
}

proof fn lemma_log_records_none_persists(ls: Seq<Seq<u8>>, k: int)
    requires
        0 <= k <= ls.len(),
        log_records(ls.take(k)) is None,
    ensures
        log_records(ls.take(ls.len() as int)) is None,
    decreases ls.len() - k,
{
    if k < ls.len() {
        assert(ls.take(k + 1).drop_last() =~= ls.take(k));
        lemma_log_records_none_persists(ls, k + 1);
    }
}

proof fn lemma_task_lines_none_persists(ls: Seq<Seq<u8>>, k: int)
    requires
        0 <= k <= ls.len(),
        task_lines(ls.take(k)) is None,
    ensures
        task_lines(ls.take(ls.len() as int)) is None,
    decreases ls.len() - k,
{
    if k < ls.len() {
        assert(ls.take(k + 1).drop_last() =~= ls.take(k));
        lemma_task_lines_none_persists(ls, k + 1);
    }
}

/// Parses a taskset description named `name`: one `runtime deadline period`
/// line per task, each deadline equal to its period.
pub fn parse_taskset_file(name: String, text: &[u8]) -> (r: Result<Taskset, TasksetError>)
    ensures
        r is Ok <==> taskset_of(text@) is Some,
        r matches Ok(ts) ==> ts.name@ == name@ && ts.data@ == taskset_of(text@)->Some_0,
        r matches Err(e) ==> e is MalformedTaskset,
{
    let e = trim_end_index(text, 0, text.len());
    proof {
        assert(text@.subrange(0, text@.len() as int) =~= text@);
    }
    let lines = split_ranges(text, 0, e, 10);
    let ghost ls = split(trim_end(text@), 10);
    let mut out: Vec<PeriodicTaskData> = Vec::new();
    let mut k: usize = 0;
    proof {
        assert(ls.take(0) =~= Seq::<Seq<u8>>::empty());
    }
    while k < lines.len()
        invariant
            k <= lines@.len() == ls.len(),
            e <= text@.len(),
            ls == split(text@.subrange(0, e as int), 10),
            ls == split(trim_end(text@), 10),
            forall|i: int|
                0 <= i < lines@.len() ==> (#[trigger] lines@[i]).0 <= lines@[i].1 <= text@.len()
                    && text@.subrange(lines@[i].0 as int, lines@[i].1 as int) == ls[i],
            task_lines(ls.take(k as int)) == Some(out@),
        decreases lines@.len() - k,
    {
        let (a, b) = lines[k];
        proof {
            assert(ls.take(k + 1).drop_last() =~= ls.take(k as int));
            assert(ls.take(k + 1).last() == ls[k as int]);
        }
        match parse_task(text, a, b) {
            Some(x) => {
                out.push(x);
            },
            None => {
                proof {
                    lemma_task_lines_none_persists(ls, (k + 1) as int);
                    assert(ls.take(ls.len() as int) =~= ls);
                }
                return Err(TasksetError::MalformedTaskset);
            },
        }
        k += 1;
    }
    proof {
        assert(ls.take(k as int) =~= ls);
    }
    Ok(Taskset { name, data: out })
}

/// Parses a run configuration named `name`: one line `num_cpus runtime period`.
pub fn parse_config_file(name: String, text: &[u8]) -> (r: Result<TasksetConfig, TasksetError>)
    ensures
        r is Ok <==> config_of(text@) is Some,
        r matches Ok(c) ==> c.name@ == name@ && (c.num_cpus, c.runtime_ms, c.period_ms) == config_of(
            text@,
        )->Some_0,
        r matches Err(e) ==> e is MalformedConfig,
{
    let e = trim_end_index(text, 0, text.len());
    proof {
        assert(text@.subrange(0, text@.len() as int) =~= text@);
    }
    let f = field_ranges(text, 0, e);
    if f.len() != 3 {
        return Err(TasksetError::MalformedConfig);
    }
    let a = parse_u64(text, f[0].0, f[0].1);
    let b = parse_u64(text, f[1].0, f[1].1);
    let c = parse_u64(text, f[2].0, f[2].1);
    match (a, b, c) {
        (Some(num_cpus), Some(runtime_ms), Some(period_ms)) => Ok(
            TasksetConfig { name, num_cpus, runtime_ms, period_ms },
        ),
        _ => Err(TasksetError::MalformedConfig),
    }
}

/// Default admission ceiling on a configuration's bandwidth: 95 in 100.
pub const DEFAULT_MAX_BW_NUM: u64 = 95;

pub const DEFAULT_MAX_BW_DEN: u64 = 100;

/// Instances per task that the generator runs unless told otherwise.
pub const DEFAULT_INSTANCES_PER_JOB: u64 = 200;

/// Ceilings a run must fit under: CPUs, and a bandwidth fraction
/// `max_bw_num / max_bw_den`.
#[derive(Debug, Clone, Copy, PartialEq, Eq, Structural)]
pub struct AdmissionLimits {
    pub max_num_cpus: u64,
    pub max_bw_num: u64,
    pub max_bw_den: u64,
}

/// Statistics of a finished run; the overrun ratio is
/// `num_overruns / num_instances`.
#[derive(Debug, Clone, Copy, PartialEq, Eq, Structural)]
pub struct TasksetRunResultInsights {
    pub num_overruns: u64,
    pub num_instances: u64,
    /// The largest deadline offset; `None` when nothing ran.
    pub worst_overrun: Option<DeadlineOffset>,
}

/// What to do with one run.
#[derive(Debug, Clone, Copy, PartialEq, Eq, Structural)]
pub enum RunAction {
    /// It does not fit the ceilings.
    Skip,
    /// Its log is already there: analyse it again only.
    Analyze,
    /// Run it inside a domain with this reservation, in microseconds.
    Execute { runtime_us: u64, period_us: u64 },
}

/// A run fits: enough CPUs, bandwidth within the ceiling and at most one,
/// some task, and no task period shorter than the reservation's blackout
/// `period - runtime`.
pub open spec fn admissible(
    tasks: Seq<PeriodicTaskData>,
    num_cpus: u64,
    runtime_ms: u64,
    period_ms: u64,
    lim: AdmissionLimits,
) -> bool {
    &&& num_cpus <= lim.max_num_cpus
    &&& period_ms > 0
    &&& runtime_ms * lim.max_bw_den <= lim.max_bw_num * period_ms
    &&& runtime_ms <= period_ms
    &&& tasks.len() > 0
    &&& forall|i: int| 0 <= i < tasks.len() ==> (#[trigger] tasks[i]).period_ms >= period_ms - runtime_ms
}

pub open spec fn run_admissible(run: TasksetRun, lim: AdmissionLimits) -> bool {
    admissible(run.tasks.data@, run.config.num_cpus, run.config.runtime_ms, run.config.period_ms, lim)
}

pub open spec fn is_miss(x: TasksetRunResultInstance) -> bool {
    offset_value(x.deadline_offset) > 0
}

pub open spec fn count_overruns(rs: Seq<TasksetRunResultInstance>) -> nat
    decreases rs.len(),
{
    if rs.len() == 0 {
        0
    } else {
        count_overruns(rs.drop_last()) + if is_miss(rs.last()) {
            1nat
        } else {
            0nat
        }
    }
}

pub open spec fn count_task(rs: Seq<TasksetRunResultInstance>, task: int) -> nat
    decreases rs.len(),
{
    if rs.len() == 0 {
        0
    } else {
        count_task(rs.drop_last(), task) + if rs.last().task == task {
            1nat
        } else {
            0nat
        }
    }
}

/// Every task index below `num_tasks` appears exactly `per_task` times.
pub open spec fn output_complete(rs: Seq<TasksetRunResultInstance>, num_tasks: nat, per_task: nat) -> bool {
    forall|i: int| 0 <= i < num_tasks ==> #[trigger] count_task(rs, i) == per_task
}

pub open spec fn sat_u64(x: int) -> u64 {
    if x <= u64::MAX {
        x as u64
    } else {
        u64::MAX
    }
}

/// The longest task's `num_instances` periods, in microseconds.
pub open spec fn expected_runtime(tasks: Seq<PeriodicTaskData>, num_instances: u64) -> u64
    decreases tasks.len(),
{
    if tasks.len() == 0 {
        0
    } else {
        let a = expected_runtime(tasks.drop_last(), num_instances);
        let b = sat_u64(tasks.last().period_ms * num_instances * 1000);
        if a >= b {
            a
        } else {
            b
        }
    }
}

/// The tasks are in ascending order of period.
pub open spec fn sorted_by_period(tasks: Seq<PeriodicTaskData>) -> bool {
    forall|i: int| 1 <= i < tasks.len() ==> tasks[i - 1].period_ms <= (#[trigger] tasks[i]).period_ms
}

/// How many tasks the generator is given: one per priority level available.
pub open spec fn num_started(tasks: Seq<PeriodicTaskData>, start_priority: u64) -> nat {
    if tasks.len() <= start_priority {
        tasks.len()
    } else {
        start_priority as nat
    }
}

/// The times of the started tasks fit in microseconds.
pub open spec fn times_fit(tasks: Seq<PeriodicTaskData>, k: nat) -> bool {
    forall|i: int|
        0 <= i < k ==> (#[trigger] tasks[i]).runtime_ms * 1000 <= u64::MAX && tasks[i].period_ms
            * 1000 <= u64::MAX
}

/// The words describing task `t` at priority `prio`: `-C runtime -p period
/// -P prio`, times in microseconds.
pub open spec fn task_words(t: PeriodicTaskData, prio: nat) -> Seq<Seq<char>> {
    seq![
        seq!['-', 'C'],
        dec_str((t.runtime_ms * 1000) as nat),
        seq!['-', 'p'],
        dec_str((t.period_ms * 1000) as nat),
        seq!['-', 'P'],
        dec_str(prio),
    ]
}

/// The words of the first `k` tasks, priorities counting down from
/// `start_priority`.
pub open spec fn tasks_words(tasks: Seq<PeriodicTaskData>, start_priority: nat, k: nat) -> Seq<
    Seq<char>,
>
    decreases k,
{
    if k == 0 {
        Seq::empty()
    } else {
        tasks_words(tasks, start_priority, (k - 1) as nat) + task_words(
            tasks[k - 1],
            (start_priority - (k - 1)) as nat,
        )
    }
}

/// The generator's full argument list.
pub open spec fn generator_words(
    tasks: Seq<PeriodicTaskData>,
    start_priority: u64,
    extra: Seq<Seq<char>>,
    num_instances: u64,
) -> Seq<Seq<char>> {
    let k = num_started(tasks, start_priority);
    tasks_words(tasks, start_priority as nat, k) + extra + seq![
        seq!['-', 'N'],
        dec_str(num_instances as nat),
        seq!['-', 'n'],
        dec_str(k),
    ]
}

fn offset_as_i128(o: DeadlineOffset) -> (r: i128)
    ensures
        r == offset_value(o),
{
    let m: i128 = o.whole as i128 * 1_000_000_000_000_000_000i128 + o.frac_e18 as i128;
    if o.negative {
        -m
    } else {
        m
    }
}

impl DeadlineOffset {
    /// Whether the offset is a deadline miss, that is, positive.
    pub fn is_miss(&self) -> (r: bool)
        ensures
            r == (offset_value(*self) > 0),
    {
        offset_as_i128(*self) > 0
    }
}

impl AdmissionLimits {
    /// Ceilings of `max_num_cpus` CPUs and the default bandwidth fraction.
    pub fn with_default_bw(max_num_cpus: u64) -> (r: AdmissionLimits)
        ensures
            r == (AdmissionLimits {
                max_num_cpus,
                max_bw_num: DEFAULT_MAX_BW_NUM,
                max_bw_den: DEFAULT_MAX_BW_DEN,
            }),
    {
        AdmissionLimits { max_num_cpus, max_bw_num: DEFAULT_MAX_BW_NUM, max_bw_den: DEFAULT_MAX_BW_DEN }
    }
}

impl TasksetRunResultInsights {
    /// A run failed when any instance missed its deadline.
    pub fn failed(&self) -> (r: bool)
        ensures
            r == (self.num_overruns > 0),
    {
        self.num_overruns > 0
    }
}

fn mul_wide(a: u64, b: u64) -> (r: u128)
    ensures
        r == a * b,
{
    proof {
        assert(a * b <= u64::MAX * u64::MAX) by (nonlinear_arith)
            requires
                a <= u64::MAX,
                b <= u64::MAX,
        ;
    }
    a as u128 * b as u128
}

/// Whether `run` fits under `lim`.
#[verifier::loop_isolation(false)]
pub fn can_run_taskset(run: &TasksetRun, lim: &AdmissionLimits) -> (r: bool)
    ensures
        r == run_admissible(*run, *lim),
{
    let c = &run.config;
    if c.num_cpus > lim.max_num_cpus || c.period_ms == 0 {
        return false;
    }
    if mul_wide(c.runtime_ms, lim.max_bw_den) > mul_wide(lim.max_bw_num, c.period_ms) {
        return false;
    }
    if c.runtime_ms > c.period_ms {
        return false;
    }
    let tasks = &run.tasks.data;
    if tasks.len() == 0 {
        return false;
    }
    let blackout = c.period_ms - c.runtime_ms;
    let mut i: usize = 0;
    while i < tasks.len()
        invariant
            i <= tasks@.len(),
            blackout == c.period_ms - c.runtime_ms,
            forall|j: int| 0 <= j < i ==> (#[trigger] tasks@[j]).period_ms >= blackout,
        decreases tasks@.len() - i,
    {
        if tasks[i].period_ms < blackout {
            proof {
                assert(tasks@[i as int].period_ms < c.period_ms - c.runtime_ms);
            }
            return false;
        }
        i += 1;
    }
    true
}

/// Overrun count, instance count and worst offset of a finished run.
pub fn compute_result_insights(run: &TasksetRunResult) -> (r: TasksetRunResultInsights)
    ensures
        r.num_overruns == count_overruns(run.results@),
        r.num_instances == run.results@.len(),
        r.worst_overrun is None <==> run.results@.len() == 0,
        r.worst_overrun matches Some(w) ==> (exists|i: int|
            0 <= i < run.results@.len() && run.results@[i].deadline_offset == w) && forall|i: int|
            0 <= i < run.results@.len() ==> offset_value(#[trigger] run.results@[i].deadline_offset)
                <= offset_value(w),
{
    let rs = &run.results;
    let mut n: u64 = 0;
    let mut worst: Option<DeadlineOffset> = None;
    let mut i: usize = 0;
    while i < rs.len()
        invariant
            i <= rs@.len(),
            n == count_overruns(rs@.take(i as int)),
            n <= i,
            worst is None <==> i == 0,
            worst matches Some(w) ==> (exists|j: int| 0 <= j < i && rs@[j].deadline_offset == w)
                && forall|j: int| 0 <= j < i ==> offset_value(#[trigger] rs@[j].deadline_offset)
                <= offset_value(w),
        decreases rs@.len() - i,
    {
        let x = rs[i];
        proof {
            assert(rs@.take(i + 1).drop_last() =~= rs@.take(i as int));
            assert(rs@.take(i + 1).last() == x);
        }
        if x.deadline_offset.is_miss() {
            n = n + 1;
        }
        match worst {
            None => {
                worst = Some(x.deadline_offset);
            },
            Some(w) => {
                if offset_as_i128(x.deadline_offset) > offset_as_i128(w) {
                    worst = Some(x.deadline_offset);
                }
            },
        }
        i += 1;
    }
    proof {
        assert(rs@.take(i as int) =~= rs@);
    }
    TasksetRunResultInsights { num_overruns: n, num_instances: rs.len() as u64, worst_overrun: worst }
}

/// How many records name task `task`.
fn count_task_exec(rs: &Vec<TasksetRunResultInstance>, task: u64) -> (r: u64)
    ensures
        r == count_task(rs@, task as int),
{
    let mut n: u64 = 0;
    let mut i: usize = 0;
    while i < rs.len()
        invariant
            i <= rs@.len(),
            n == count_task(rs@.take(i as int), task as int),
            n <= i,
        decreases rs@.len() - i,
    {
        proof {
            assert(rs@.take(i + 1).drop_last() =~= rs@.take(i as int));
        }
        if rs[i].task == task {
            n = n + 1;
        }
        i += 1;
    }
    proof {
        assert(rs@.take(i as int) =~= rs@);
    }
    n
}

/// Whether the log of a run holds exactly `per_task` instances of each of
/// its tasks; otherwise the generator produced malformed output.
pub fn result_is_complete(result: &TasksetRunResult, per_task: u64) -> (r: bool)
    ensures
        r == output_complete(result.results@, result.taskset.data@.len(), per_task as nat),
{
    let k = result.taskset.data.len();
    let mut i: usize = 0;
    while i < k
        invariant
            i <= k == result.taskset.data@.len(),
            forall|j: int| 0 <= j < i ==> #[trigger] count_task(result.results@, j) == per_task,
        decreases k - i,
    {
        if count_task_exec(&result.results, i as u64) != per_task {
            return false;
        }
        i += 1;
    }
    true
}

/// The longest task's `num_instances` periods, in microseconds, saturating.
pub fn compute_insights(run: &TasksetRun, num_instances: u64) -> (r: u64)
    ensures
        r == expected_runtime(run.tasks.data@, num_instances),
{
    let tasks = &run.tasks.data;
    let mut best: u64 = 0;
    let mut i: usize = 0;
    while i < tasks.len()
        invariant
            i <= tasks@.len(),
            best == expected_runtime(tasks@.take(i as int), num_instances),
        decreases tasks@.len() - i,
    {
        proof {
            assert(tasks@.take(i + 1).drop_last() =~= tasks@.take(i as int));
        }
        let x: u128 = mul_wide(tasks[i].period_ms, num_instances);
        let b: u64 = if x > (u64::MAX / 1000) as u128 {
            u64::MAX
        } else {
            (x * 1000) as u64
        };
        if b > best {
            best = b;
        }
        i += 1;
    }
    proof {
        assert(tasks@.take(i as int) =~= tasks@);
    }
    best
}

/// What to do with `run`: skip it when it does not fit, analyse its log
/// when it exists, or run it under the reservation of its configuration.
pub fn plan_run(run: &TasksetRun, lim: &AdmissionLimits, output_exists: bool) -> (r: Result<
    RunAction,
    TasksetError,
>)
    ensures
        !run_admissible(*run, *lim) ==> r == Ok::<RunAction, TasksetError>(RunAction::Skip),
        run_admissible(*run, *lim) && output_exists ==> r == Ok::<RunAction, TasksetError>(
            RunAction::Analyze,
        ),
        run_admissible(*run, *lim) && !output_exists ==> (if run.config.period_ms * 1000
            <= u64::MAX {
            r == Ok::<RunAction, TasksetError>(
                RunAction::Execute {
                    runtime_us: (run.config.runtime_ms * 1000) as u64,
                    period_us: (run.config.period_ms * 1000) as u64,
                },
            )
        } else {
            r == Err::<RunAction, TasksetError>(TasksetError::TimeOverflow)
        }),
{
    if !can_run_taskset(run, lim) {
        return Ok(RunAction::Skip);
    }
    if output_exists {
        return Ok(RunAction::Analyze);
    }
    if run.config.period_ms > u64::MAX / 1000 {
        return Err(TasksetError::TimeOverflow);
    }
    Ok(
        RunAction::Execute {
            runtime_us: run.config.runtime_ms * 1000,
            period_us: run.config.period_ms * 1000,
        },
    )
}

fn word(w: &'static str) -> (r: String)
    ensures
        r@ == w@,
{
    w.to_owned()
}

fn decimal(n: u64) -> (r: String)
    ensures
        r@ == dec_str(n as nat),
{
    let mut s = String::new();
    push_decimal(&mut s, n);
    proof {
        assert(s@ =~= dec_str(n as nat));
    }
    s
}

/// How many tasks the generator is started with, once the tasks are checked:
/// some task, periods ascending, started times fitting in microseconds.
#[verifier::loop_isolation(false)]
fn check_tasks(tasks: &Vec<PeriodicTaskData>, start_priority: u64) -> (r: Result<
    usize,
    TasksetError,
>)
    ensures
        tasks@.len() == 0 ==> r == Err::<usize, TasksetError>(TasksetError::NoTasks),
        tasks@.len() > 0 && !sorted_by_period(tasks@) ==> r == Err::<usize, TasksetError>(
            TasksetError::UnsortedTasks,
        ),
        tasks@.len() > 0 && sorted_by_period(tasks@) && !times_fit(
            tasks@,
            num_started(tasks@, start_priority),
        ) ==> r == Err::<usize, TasksetError>(TasksetError::TimeOverflow),
        r is Ok <==> tasks@.len() > 0 && sorted_by_period(tasks@) && times_fit(
            tasks@,
            num_started(tasks@, start_priority),
        ),
        r matches Ok(k) ==> k == num_started(tasks@, start_priority),
{
    if tasks.len() == 0 {
        return Err(TasksetError::NoTasks);
    }
    let mut i: usize = 1;
    while i < tasks.len()
        invariant
            1 <= i <= tasks@.len(),
            forall|j: int| 1 <= j < i ==> tasks@[j - 1].period_ms <= (#[trigger] tasks@[j]).period_ms,
        decreases tasks@.len() - i,
    {
        if tasks[i - 1].period_ms > tasks[i].period_ms {
            proof {
                assert(tasks@[i as int - 1].period_ms > tasks@[i as int].period_ms);
            }
            return Err(TasksetError::UnsortedTasks);
        }
        i += 1;
    }
    let k: usize = if (tasks.len() as u64) <= start_priority {
        tasks.len()
    } else {
        start_priority as usize
    };
    let mut j: usize = 0;
    while j < k
        invariant
            j <= k <= tasks@.len(),
            forall|m: int|
                0 <= m < j ==> (#[trigger] tasks@[m]).runtime_ms * 1000 <= u64::MAX
                    && tasks@[m].period_ms * 1000 <= u64::MAX,
        decreases k - j,
    {
        if tasks[j].runtime_ms > u64::MAX / 1000 || tasks[j].period_ms > u64::MAX / 1000 {
            proof {
                assert(!(tasks@[j as int].runtime_ms * 1000 <= u64::MAX && tasks@[j as int].period_ms
                    * 1000 <= u64::MAX));
            }
            return Err(TasksetError::TimeOverflow);
        }
        j += 1;
    }
    Ok(k)
}

/// The words of the first `k` tasks, priorities counting down from
/// `start_priority`.
fn task_args(tasks: &Vec<PeriodicTaskData>, start_priority: u64, k: usize) -> (r: Vec<String>)
    requires
        k <= tasks@.len(),
        k <= start_priority,
        times_fit(tasks@, k as nat),
    ensures
        r@.len() == tasks_words(tasks@, start_priority as nat, k as nat).len(),
        forall|m: int|
            0 <= m < r@.len() ==> (#[trigger] r@[m])@ == tasks_words(
                tasks@,
                start_priority as nat,
                k as nat,
            )[m],
{
    let ghost sp = start_priority as nat;
    let mut out: Vec<String> = Vec::new();
    let mut t: usize = 0;
    while t < k
        invariant
            t <= k <= tasks@.len(),
            k <= start_priority,
            sp == start_priority,
            times_fit(tasks@, k as nat),
            out@.len() == tasks_words(tasks@, sp, t as nat).len(),
            forall|m: int|
                0 <= m < out@.len() ==> (#[trigger] out@[m])@ == tasks_words(tasks@, sp, t as nat)[m],
        decreases k - t,
    {
        let task = tasks[t];
        proof {
            assert(task.runtime_ms * 1000 <= u64::MAX && task.period_ms * 1000 <= u64::MAX);
        }
        let prio = start_priority - t as u64;
        let ghost before = out@;
        out.push(word("-C"));
        out.push(decimal(task.runtime_ms * 1000));
        out.push(word("-p"));
        out.push(decimal(task.period_ms * 1000));
        out.push(word("-P"));
        out.push(decimal(prio));
        proof {
            reveal_strlit("-C");
            reveal_strlit("-p");
            reveal_strlit("-P");
            let tw = task_words(tasks@[t as int], (sp - t) as nat);
            let all = tasks_words(tasks@, sp, (t + 1) as nat);
            assert(all == tasks_words(tasks@, sp, t as nat) + tw);
            assert forall|m: int| 0 <= m < out@.len() implies (#[trigger] out@[m])@ == all[m] by {
                if m >= before.len() {
                    assert(all[m] == tw[m - before.len()]);
                } else {
                    assert(out@[m] == before[m]);
                }
            }
        }
        t += 1;
    }
    out
}

/// The arguments that start the workload generator on `data`: each task,
/// in order, with its times in microseconds and a priority counting down
/// from `start_priority` (tasks beyond the last priority are left out),
/// then the extra words, the instance count and the task count. Refused when
/// there is no task, when periods are not ascending, or when a time does not
/// fit in microseconds.
pub fn generator_args(data: &PeriodicThreadData) -> (r: Result<Vec<String>, TasksetError>)
    ensures
        data.tasks@.len() == 0 ==> r == Err::<Vec<String>, TasksetError>(TasksetError::NoTasks),
        data.tasks@.len() > 0 && !sorted_by_period(data.tasks@) ==> r == Err::<
            Vec<String>,
            TasksetError,
        >(TasksetError::UnsortedTasks),
        data.tasks@.len() > 0 && sorted_by_period(data.tasks@) && !times_fit(
            data.tasks@,
            num_started(data.tasks@, data.start_priority),
        ) ==> r == Err::<Vec<String>, TasksetError>(TasksetError::TimeOverflow),
        r is Ok <==> data.tasks@.len() > 0 && sorted_by_period(data.tasks@) && times_fit(
            data.tasks@,
            num_started(data.tasks@, data.start_priority),
        ),
        r matches Ok(v) ==> v@.len() == generator_words(
            data.tasks@,
            data.start_priority,
            data.extra_args@.map_values(|s: String| s@),
            data.num_instances_per_job,
        ).len() && forall|i: int|
            0 <= i < v@.len() ==> (#[trigger] v@[i])@ == generator_words(
                data.tasks@,
                data.start_priority,
                data.extra_args@.map_values(|s: String| s@),
                data.num_instances_per_job,
            )[i],
{
    let k = match check_tasks(&data.tasks, data.start_priority) {
        Ok(k) => k,
        Err(e) => {
            return Err(e);
        },
    };
    let ghost extra = data.extra_args@.map_values(|s: String| s@);
    let mut out = task_args(&data.tasks, data.start_priority, k);
    let ghost base = out@;
    let mut e: usize = 0;
    while e < data.extra_args.len()
        invariant
            e <= data.extra_args@.len(),
            extra == data.extra_args@.map_values(|s: String| s@),
            out@.len() == base.len() + e,
            forall|m: int| 0 <= m < base.len() ==> (#[trigger] out@[m]) == base[m],
            forall|m: int| 0 <= m < e ==> (#[trigger] out@[base.len() + m])@ == extra[m],
        decreases data.extra_args@.len() - e,
    {
        let w = data.extra_args[e].clone();
        proof {
            assert(w@ == data.extra_args@[e as int]@);
        }
        out.push(w);
        proof {
            assert(out@[base.len() + e] == w);
        }
        e += 1;
    }
    let ghost mid = out@;
    out.push(word("-N"));
    out.push(decimal(data.num_instances_per_job));
    out.push(word("-n"));
    out.push(decimal(k as u64));
    proof {
        reveal_strlit("-N");
        reveal_strlit("-n");
        let words = generator_words(
            data.tasks@,
            data.start_priority,
            extra,
            data.num_instances_per_job,
        );
        let tw = tasks_words(data.tasks@, data.start_priority as nat, k as nat);
        let tail = seq![
            seq!['-', 'N'],
            dec_str(data.num_instances_per_job as nat),
            seq!['-', 'n'],
            dec_str(k as nat),
        ];
        assert(words == tw + extra + tail);
        assert forall|m: int| 0 <= m < out@.len() implies (#[trigger] out@[m])@ == words[m] by {
            if m < base.len() {
                assert(out@[m] == base[m]);
            } else if m < mid.len() {
                assert(out@[base.len() + (m - base.len())] == out@[m]);
                assert(words[m] == extra[m - base.len()]);
            } else {
                assert(words[m] == tail[m - mid.len()]);
            }
        }
    }
    Ok(out)
}

/// Where the log of configuration `config` of taskset `taskset` is kept:
/// `<output_dir>/<taskset>/output-<config>`.
pub fn output_path(output_dir: &str, taskset: &str, config: &str) -> (r: String)
    ensures
        r@ == output_dir@ + seq!['/'] + taskset@ + seq!['/', 'o', 'u', 't', 'p', 'u', 't', '-']
            + config@,
{
    proof {
        reveal_strlit("/");
        reveal_strlit("/output-");
    }
    let mut s = output_dir.to_owned();
    s.append("/");
    s.append(taskset);
    s.append("/output-");
    s.append(config);
    proof {
        assert(s@ =~= output_dir@ + seq!['/'] + taskset@ + seq!['/', 'o', 'u', 't', 'p', 'u', 't', '-']
            + config@);
    }
    s
}

/// The runtime that grants the ceiling's fraction of `period_us`:
/// `period_us * max_bw_num / max_bw_den`, rounded down and capped at
/// `period_us`; zero under a zero denominator.
pub fn ceiling_runtime(period_us: u64, lim: &AdmissionLimits) -> (r: u64)
    ensures
        lim.max_bw_den == 0 ==> r == 0,
        lim.max_bw_den > 0 ==> r == (if period_us * lim.max_bw_num / lim.max_bw_den as int
            <= period_us {
            period_us * lim.max_bw_num / lim.max_bw_den as int
        } else {
            period_us as int
        }),
{
    if lim.max_bw_den == 0 {
        return 0;
    }
    let v = mul_wide(period_us, lim.max_bw_num) / lim.max_bw_den as u128;
    if v > period_us as u128 {
        period_us
    } else {
        v as u64
    }
}

/// `x` sorts strictly before `y`: by taskset name, then configuration name.
pub open spec fn run_lt(x: TasksetRun, y: TasksetRun) -> bool {
    seq_lt(x.tasks.name@, y.tasks.name@) || (x.tasks.name@ == y.tasks.name@ && seq_lt(
        x.config.name@,
        y.config.name@,
    ))
}

proof fn lemma_run_lt_asymmetric(x: TasksetRun, y: TasksetRun)
    requires
        run_lt(x, y),
    ensures
        !run_lt(y, x),
{
    if seq_lt(x.tasks.name@, y.tasks.name@) {
        lemma_seq_lt_asymmetric(x.tasks.name@, y.tasks.name@);
        lemma_seq_lt_irreflexive(x.tasks.name@);
    } else {
        lemma_seq_lt_asymmetric(x.config.name@, y.config.name@);
        lemma_seq_lt_irreflexive(x.tasks.name@);
    }
}

/// Before `p` and not after `q` means before `q`.
proof fn lemma_run_lt_step(i: TasksetRun, p: TasksetRun, q: TasksetRun)
    requires
        run_lt(i, p),
        !run_lt(q, p),
    ensures
        run_lt(i, q),
{
    lemma_seq_lt_total(p.tasks.name@, q.tasks.name@);
    lemma_seq_lt_total(p.config.name@, q.config.name@);
    if seq_lt(p.tasks.name@, q.tasks.name@) {
        if seq_lt(i.tasks.name@, p.tasks.name@) {
            lemma_seq_lt_transitive(i.tasks.name@, p.tasks.name@, q.tasks.name@);
        }
    } else if p.tasks.name@ == q.tasks.name@ {
        if p.config.name@ != q.config.name@ && seq_lt(i.config.name@, p.config.name@)
            && i.tasks.name@ == p.tasks.name@ {
            lemma_seq_lt_transitive(i.config.name@, p.config.name@, q.config.name@);
        }
    }
}

fn run_lt_exec(x: &TasksetRun, y: &TasksetRun) -> (r: bool)
    ensures
        r == run_lt(*x, *y),
{
    if str_lt(x.tasks.name.as_str(), y.tasks.name.as_str()) {
        return true;
    }
    if str_lt(y.tasks.name.as_str(), x.tasks.name.as_str()) {
        proof {
            lemma_seq_lt_asymmetric(y.tasks.name@, x.tasks.name@);
            lemma_seq_lt_irreflexive(x.tasks.name@);
        }
        return false;
    }
    proof {
        lemma_seq_lt_total(x.tasks.name@, y.tasks.name@);
    }
    str_lt(x.config.name.as_str(), y.config.name.as_str())
}

/// The order in which runs are taken: by taskset name, then configuration
/// name, runs with equal names in their given order. Entry `k` is the index
/// in `runs` of the `k`-th run.
pub fn run_order(runs: &Vec<TasksetRun>) -> (r: Vec<usize>)
    ensures
        r@.len() == runs@.len(),
        forall|j: usize| j < runs@.len() ==> #[trigger] r@.contains(j),
        forall|a: int| 0 <= a < r@.len() ==> r@[a] < runs@.len(),
        forall|a: int, b: int|
            0 <= a < b < r@.len() ==> !run_lt(runs@[r@[b] as int], runs@[r@[a] as int]),
        forall|a: int, b: int|
            0 <= a < b < r@.len() && !run_lt(runs@[r@[a] as int], runs@[r@[b] as int]) ==> r@[a]
                < r@[b],
{
    let n = runs.len();
    let mut out: Vec<usize> = Vec::new();
    let mut i: usize = 0;
    while i < n
        invariant
            n == runs@.len(),
            i <= n,
            out@.len() == i,
            forall|a: int| 0 <= a < out@.len() ==> out@[a] < i,
            forall|j: usize| j < i ==> #[trigger] out@.contains(j),
            forall|a: int, b: int|
                0 <= a < b < out@.len() ==> !run_lt(runs@[out@[b] as int], runs@[out@[a] as int]),
            forall|a: int, b: int|
                0 <= a < b < out@.len() && !run_lt(runs@[out@[a] as int], runs@[out@[b] as int])
                    ==> out@[a] < out@[b],
        decreases n - i,
    {
        let mut p: usize = 0;
        while p < out.len() && !run_lt_exec(&runs[i], &runs[out[p]])
            invariant
                n == runs@.len(),
                i < n,
                p <= out@.len(),
                forall|a: int| 0 <= a < out@.len() ==> out@[a] < i,
                forall|q: int| 0 <= q < p ==> !run_lt(runs@[i as int], runs@[out@[q] as int]),
            decreases out@.len() - p,
        {
            p += 1;
        }
        let ghost old_out = out@;
        let ghost x = runs@[i as int];
        out.insert(p, i);
        proof {
            assert(out@ == old_out.insert(p as int, i));
            assert forall|a: int| 0 <= a < out@.len() implies out@[a] < i + 1 by {
                if a > p {
                    assert(out@[a] == old_out[a - 1]);
                }
            }
            assert forall|j: usize| j < i + 1 implies #[trigger] out@.contains(j) by {
                if j < i {
                    assert(old_out.contains(j));
                    let k = choose|k: int| 0 <= k < old_out.len() && old_out[k] == j;
                    if k < p {
                        assert(out@[k] == j);
                    } else {
                        assert(out@[k + 1] == j);
                    }
                } else {
                    assert(out@[p as int] == i);
                }
            }
            assert forall|a: int, b: int| 0 <= a < b < out@.len() implies !run_lt(
                runs@[out@[b] as int],
                runs@[out@[a] as int],
            ) && (!run_lt(runs@[out@[a] as int], runs@[out@[b] as int]) ==> out@[a] < out@[b]) by {
                let oa = if a < p { a } else { a - 1 };
                let ob = if b < p { b } else { b - 1 };
                if a != p && b != p {
                    assert(out@[a] == old_out[oa]);
                    assert(out@[b] == old_out[ob]);
                } else if a == p {
                    assert(out@[b] == old_out[ob]);
                    assert(ob >= p);
                    assert(run_lt(x, runs@[old_out[p as int] as int]));
                    if ob > p {
                        lemma_run_lt_step(x, runs@[old_out[p as int] as int], runs@[old_out[ob] as int]);
                    }
                    lemma_run_lt_asymmetric(x, runs@[old_out[ob] as int]);
                } else {
                    assert(out@[a] == old_out[oa]);
                    assert(oa < p);
                }
            }
        }
        i += 1;
    }
    out
}

/// Any deadline miss counts: a log with a positive offset has at least one
/// overrun, so the run fails however small the ratio.
pub proof fn lemma_any_miss_fails(rs: Seq<TasksetRunResultInstance>, i: int)
    requires
        0 <= i < rs.len(),
        offset_value(rs[i].deadline_offset) > 0,
    ensures
        count_overruns(rs) >= 1,
    decreases rs.len(),
{
    if i < rs.len() - 1 {
        assert(rs.drop_last()[i] == rs[i]);
        lemma_any_miss_fails(rs.drop_last(), i);
    }
}

} // verus!
