//! CPU sets: the textual CPU-list grammar (`0,2-4,7`), sets checked against
//! the CPUs that are online, and their rendering.
use crate::text::{
    all_digits, dec_str, dec_value, find_byte, lemma_split_nonempty, parse_dec, push_decimal, split,
    trim_end,
    trim_end_index, trim_start, trim_start_index,
};
use vstd::prelude::*;
use vstd::string::*;

verus! {

/// Adds `c` at the end of `s` unless it is already there.
pub open spec fn insert_new(s: Seq<u32>, c: u32) -> Seq<u32> {
    if s.contains(c) {
        s
    } else {
        s.push(c)
    }
}

/// `s` with every repeated element dropped, first appearances kept in order.
pub open spec fn dedup(s: Seq<u32>) -> Seq<u32>
    decreases s.len(),
{
    if s.len() == 0 {
        Seq::empty()
    } else {
        insert_new(dedup(s.drop_last()), s.last())
    }
}

/// The `n` indices `lo, lo + 1, ...`.
pub open spec fn span(lo: nat, n: nat) -> Seq<u32> {
    Seq::new(n, |k: int| (lo + k) as u32)
}

/// The indices `lo, lo + 1, ..., hi`.
pub open spec fn range_seq(lo: nat, hi: nat) -> Seq<u32> {
    span(lo, (hi + 1 - lo) as nat)
}

/// `q` reads `low-high` with the dash at `k`.
pub open spec fn dash_at(q: Seq<u8>, k: int) -> bool {
    0 <= k < q.len() && q[k] == 45 && all_digits(q.take(k)) && all_digits(q.skip(k + 1))
}

/// The bounds that one item of a CPU list names: a single index or `low-high`.
pub open spec fn item_bounds(q: Seq<u8>) -> Option<(nat, nat)> {
    if all_digits(q) {
        Some((dec_value(q), dec_value(q)))
    } else if exists|k: int| dash_at(q, k) {
        let k = choose|k: int| dash_at(q, k);
        Some((dec_value(q.take(k)), dec_value(q.skip(k + 1))))
    } else {
        None
    }
}

pub open spec fn item_ok(q: Seq<u8>) -> bool {
    match item_bounds(q) {
        Some(b) => b.0 <= b.1 && b.1 <= u32::MAX,
        None => false,
    }
}

pub open spec fn item_cpus(q: Seq<u8>) -> Seq<u32> {
    range_seq(item_bounds(q).unwrap().0, item_bounds(q).unwrap().1)
}

/// Item `j` of a list: whitespace is allowed after each comma.
pub open spec fn item_text(p: Seq<u8>, j: int) -> Seq<u8> {
    if j == 0 {
        p
    } else {
        trim_start(p)
    }
}

/// The comma-separated items of a CPU list; trailing whitespace is ignored.
pub open spec fn list_items(text: Seq<u8>) -> Seq<Seq<u8>> {
    split(trim_end(text), 44)
}

pub open spec fn items_ok(ps: Seq<Seq<u8>>) -> bool {
    forall|j: int| 0 <= j < ps.len() ==> item_ok(#[trigger] item_text(ps[j], j))
}

pub open spec fn items_cpus(ps: Seq<Seq<u8>>) -> Seq<u32>
    decreases ps.len(),
{
    if ps.len() == 0 {
        Seq::empty()
    } else {
        items_cpus(ps.drop_last()) + item_cpus(item_text(ps.last(), ps.len() - 1))
    }
}

/// `text` is a well-formed CPU list.
pub open spec fn cpu_list_ok(text: Seq<u8>) -> bool {
    items_ok(list_items(text))
}

/// The CPUs that a well-formed CPU list names, in order of first appearance.
pub open spec fn cpu_list_cpus(text: Seq<u8>) -> Seq<u32> {
    dedup(items_cpus(list_items(text)))
}

/// The members rendered as `[a, b, c]`.
pub open spec fn fmt_items(s: Seq<u32>) -> Seq<char>
    decreases s.len(),
{
    if s.len() == 0 {
        Seq::empty()
    } else if s.len() == 1 {
        dec_str(s[0] as nat)
    } else {
        fmt_items(s.drop_last()) + seq![',', ' '] + dec_str(s.last() as nat)
    }
}

pub open spec fn fmt_cpus(s: Seq<u32>) -> Seq<char> {
    seq!['['] + fmt_items(s) + seq![']']
}

pub proof fn lemma_dedup_no_duplicates(s: Seq<u32>)
    ensures
        dedup(s).no_duplicates(),
        forall|c: u32| dedup(s).contains(c) <==> s.contains(c),
    decreases s.len(),
{
    broadcast use vstd::seq_lib::lemma_seq_contains_after_push;

    if s.len() > 0 {
        let p = s.drop_last();
        let x = s.last();
        lemma_dedup_no_duplicates(p);
        let d = dedup(p);
        assert(s =~= p.push(x));
        if !d.contains(x) {
            assert forall|i: int, j: int|
                0 <= i < dedup(s).len() && 0 <= j < dedup(s).len() && i != j implies dedup(
                s,
            )[i] != dedup(s)[j] by {
                if j == d.len() {
                    assert(d.contains(d[i]));
                }
                if i == d.len() {
                    assert(d.contains(d[j]));
                }
            }
        }
    }
}

proof fn lemma_split_prefix(s: Seq<u8>, i: int, sep: u8)
    requires
        0 <= i <= s.len(),
    ensures
        split(s.take(i), sep).len() <= split(s, sep).len(),
        forall|j: int|
            0 <= j < split(s.take(i), sep).len() - 1 ==> #[trigger] split(s.take(i), sep)[j]
                == split(s, sep)[j],
    decreases s.len(),
{
    lemma_split_nonempty(s, sep);
    if i < s.len() {
        let d = s.drop_last();
        assert(d.take(i) =~= s.take(i));
        lemma_split_prefix(d, i, sep);
        lemma_split_nonempty(d, sep);
    } else {
        assert(s.take(i) =~= s);
    }
}

/// A CPU list as written, de-duplicated in order of first appearance, not yet
/// checked against the CPUs that are online.
#[derive(Debug, Clone, PartialEq)]
pub struct CpuSetUnchecked {
    cpus: Vec<u32>,
}

impl View for CpuSetUnchecked {
    type V = Seq<u32>;

    closed spec fn view(&self) -> Seq<u32> {
        self.cpus@
    }
}

impl CpuSetUnchecked {
    pub closed spec fn wf(&self) -> bool {
        self.cpus@.no_duplicates()
    }

    pub fn empty() -> (r: Self)
        ensures
            r.wf(),
            r@ == Seq::<u32>::empty(),
    {
        CpuSetUnchecked { cpus: Vec::new() }
    }

    pub fn add_cpu(self, cpu: u32) -> (r: Self)
        requires
            self.wf(),
        ensures
            r.wf(),
            r@ == insert_new(self@, cpu),
    {
        let mut cpus = self.cpus;
        if !contains_cpu(&cpus, cpu) {
            cpus.push(cpu);
            proof {
                assert forall|i: int, j: int|
                    0 <= i < cpus@.len() && 0 <= j < cpus@.len() && i != j implies cpus@[i]
                    != cpus@[j] by {
                    if i == cpus@.len() - 1 {
                        assert(self.cpus@.contains(cpus@[j]));
                    }
                    if j == cpus@.len() - 1 {
                        assert(self.cpus@.contains(cpus@[i]));
                    }
                }
            }
        }
        CpuSetUnchecked { cpus }
    }

    /// Drops `cpu`; the others keep their order.
    pub fn remove_cpu(self, cpu: u32) -> (r: Self)
        requires
            self.wf(),
        ensures
            r.wf(),
            !r@.contains(cpu),
            forall|c: u32| c != cpu ==> (r@.contains(c) <==> self@.contains(c)),
            self@.contains(cpu) ==> r@ == self@.remove(self@.index_of(cpu)),
            !self@.contains(cpu) ==> r@ == self@,
    {
        let mut cpus = self.cpus;
        let pos = position_of(&cpus, cpu);
        match pos {
            Some(i) => {
                proof {
                    self.cpus@.index_of_first_ensures(cpu);
                    assert(self.cpus@.index_of(cpu) == i as int) by {
                        let k = self.cpus@.index_of(cpu);
                        assert(self.cpus@[k] == cpu);
                    }
                }
                cpus.remove(i);
                proof {
                    let old_s = self.cpus@;
                    assert forall|a: int, b: int|
                        0 <= a < cpus@.len() && 0 <= b < cpus@.len() && a != b implies cpus@[a]
                        != cpus@[b] by {
                        let a2 = if a < i { a } else { a + 1 };
                        let b2 = if b < i { b } else { b + 1 };
                        assert(cpus@[a] == old_s[a2]);
                        assert(cpus@[b] == old_s[b2]);
                    }
                    assert forall|c: u32| c != cpu implies (cpus@.contains(c) <==> old_s.contains(
                        c,
                    )) by {
                        if old_s.contains(c) {
                            let k = choose|k: int| 0 <= k < old_s.len() && old_s[k] == c;
                            if k < i {
                                assert(cpus@[k] == c);
                            } else {
                                assert(k != i);
                                assert(cpus@[k - 1] == c);
                            }
                        }
                        if cpus@.contains(c) {
                            let k = choose|k: int| 0 <= k < cpus@.len() && cpus@[k] == c;
                            if k < i {
                                assert(old_s[k] == c);
                            } else {
                                assert(old_s[k + 1] == c);
                            }
                        }
                    }
                    assert(!cpus@.contains(cpu)) by {
                        if cpus@.contains(cpu) {
                            let k = choose|k: int| 0 <= k < cpus@.len() && cpus@[k] == cpu;
                            if k < i {
                                assert(old_s[k] == cpu);
                            } else {
                                assert(old_s[k + 1] == cpu);
                            }
                        }
                    }
                }
            },
            None => {},
        }
        CpuSetUnchecked { cpus }
    }

    pub fn num_cpus(&self) -> (r: usize)
        ensures
            r == self@.len(),
    {
        self.cpus.len()
    }

    pub fn as_slice(&self) -> (r: &[u32])
        ensures
            r@ == self@,
    {
        self.cpus.as_slice()
    }

    /// Parses a CPU list: comma-separated items, each an index or an inclusive
    /// `low-high` range with `low <= high`, whitespace allowed after each comma
    /// and at the end.
    pub fn from_bytes(text: &[u8]) -> (r: Result<CpuSetUnchecked, String>)
        ensures
            r is Ok <==> cpu_list_ok(text@),
            r matches Ok(c) ==> c.wf() && c@ == cpu_list_cpus(text@),
    {
        let end = trim_end_index(text, 0, text.len());
        let ghost tt = trim_end(text@);
        proof {
            assert(text@.subrange(0, text@.len() as int) =~= text@);
        }
        let mut out = CpuSetUnchecked::empty();
        let mut ps: usize = 0;
        let mut i: usize = 0;
        let mut first: bool = true;
        let ghost mut done: Seq<Seq<u8>> = Seq::empty();
        proof {
            assert(text@.subrange(0, 0) =~= Seq::<u8>::empty());
            assert(done.push(text@.subrange(0, 0)) =~= seq![Seq::<u8>::empty()]);
        }
        while i < end
            invariant
                0 <= ps <= i <= end <= text@.len(),
                tt == text@.subrange(0, end as int),
                tt == trim_end(text@),
                split(text@.subrange(0, i as int), 44) == done.push(
                    text@.subrange(ps as int, i as int),
                ),
                items_ok(done),
                first == (done.len() == 0),
                out.wf(),
                out@ == dedup(items_cpus(done)),
            decreases end - i,
        {
            proof {
                assert(text@.subrange(0, i + 1).drop_last() =~= text@.subrange(0, i as int));
            }
            if text[i] == 44 {
                let piece = Self::parse_item(text, ps, i, first);
                proof {
                    assert(split(text@.subrange(0, i + 1), 44) == done.push(
                        text@.subrange(ps as int, i as int),
                    ).push(Seq::<u8>::empty()));
                }
                match piece {
                    Some((lo, hi)) => {
                        let ghost p = text@.subrange(ps as int, i as int);
                        out = Self::add_range(out, lo, hi, Ghost(items_cpus(done)));
                        proof {
                            let nd = done.push(p);
                            assert(nd.drop_last() =~= done);
                            assert forall|j: int| 0 <= j < nd.len() implies item_ok(
                                #[trigger] item_text(nd[j], j),
                            ) by {
                                if j < done.len() {
                                    assert(nd[j] == done[j]);
                                    assert(item_ok(item_text(done[j], j)));
                                }
                            }
                            done = nd;
                            assert(text@.subrange(i + 1, i + 1) =~= Seq::<u8>::empty());
                        }
                        ps = i + 1;
                        first = false;
                    },
                    None => {
                        proof {
                            let j = done.len() as int;
                            let sp = split(text@.subrange(0, i + 1), 44);
                            assert(tt.take(i + 1) =~= text@.subrange(0, i + 1));
                            lemma_split_prefix(tt, i + 1, 44);
                            let a = split(tt.take(i + 1), 44);
                            assert(a == sp);
                            assert(a.len() == j + 2);
                            assert(a[j] == list_items(text@)[j]);
                            assert(!item_ok(item_text(list_items(text@)[j], j)));
                        }
                        return Err("malformed CPU list".to_owned());
                    },
                }
            } else {
                proof {
                    assert(text@.subrange(ps as int, i as int).push(text@[i as int])
                        =~= text@.subrange(ps as int, i + 1));
                    assert(done.push(text@.subrange(ps as int, i as int)).last() == text@.subrange(
                        ps as int,
                        i as int,
                    ));
                    assert(done.push(text@.subrange(ps as int, i as int)).update(
                        done.len() as int,
                        text@.subrange(ps as int, i + 1),
                    ) =~= done.push(text@.subrange(ps as int, i + 1)));
                }
            }
            i += 1;
        }
        proof {
            assert(text@.subrange(0, i as int) =~= tt);
        }
        let piece = Self::parse_item(text, ps, end, first);
        match piece {
            Some((lo, hi)) => {
                let ghost p = text@.subrange(ps as int, end as int);
                out = Self::add_range(out, lo, hi, Ghost(items_cpus(done)));
                proof {
                    let nd = done.push(p);
                    assert(nd.drop_last() =~= done);
                    assert forall|j: int| 0 <= j < nd.len() implies item_ok(
                        #[trigger] item_text(nd[j], j),
                    ) by {
                        if j < done.len() {
                            assert(nd[j] == done[j]);
                            assert(item_ok(item_text(done[j], j)));
                        }
                    }
                    assert(nd == list_items(text@));
                }
                Ok(out)
            },
            None => {
                proof {
                    let j = done.len() as int;
                    assert(list_items(text@)[j] == text@.subrange(ps as int, end as int));
                    assert(!item_ok(item_text(list_items(text@)[j], j)));
                }
                Err("malformed CPU list".to_owned())
            },
        }
    }

    /// Adds `lo, lo + 1, ..., hi` in turn.
    fn add_range(set: CpuSetUnchecked, lo: u32, hi: u32, Ghost(before): Ghost<Seq<u32>>) -> (r:
        CpuSetUnchecked)
        requires
            set.wf(),
            set@ == dedup(before),
            lo <= hi,
        ensures
            r.wf(),
            r@ == dedup(before + range_seq(lo as nat, hi as nat)),
    {
        let mut out = set;
        let mut c: u64 = lo as u64;
        proof {
            assert(before + span(lo as nat, 0) =~= before);
        }
        while c <= hi as u64
            invariant
                lo <= c <= hi as u64 + 1,
                out.wf(),
                out@ == dedup(before + span(lo as nat, (c - lo) as nat)),
            decreases hi as u64 + 1 - c,
        {
            proof {
                let a = before + span(lo as nat, (c + 1 - lo) as nat);
                assert(a.drop_last() =~= before + span(lo as nat, (c - lo) as nat));
                assert(a.last() == c as u32);
            }
            out = out.add_cpu(c as u32);
            c += 1;
        }
        out
    }

    /// One item `t[start..end]`; `first` tells whether it opens the list.
    fn parse_item(t: &[u8], start: usize, end: usize, first: bool) -> (r: Option<(u32, u32)>)
        requires
            start <= end <= t@.len(),
        ensures
            ({
                let q = item_text(t@.subrange(start as int, end as int), if first { 0 } else { 1 });
                match r {
                    Some(b) => item_ok(q) && item_bounds(q) == Some((b.0 as nat, b.1 as nat)),
                    None => !item_ok(q),
                }
            }),
    {
        let s = if first {
            start
        } else {
            trim_start_index(t, start, end)
        };
        let ghost q = t@.subrange(s as int, end as int);
        proof {
            if first {
                assert(item_text(t@.subrange(start as int, end as int), 0) == q);
            } else {
                assert(item_text(t@.subrange(start as int, end as int), 1) == q);
            }
        }
        let d = find_byte(t, s, end, 45);
        if d == end {
            proof {
                assert forall|k: int| !dash_at(q, k) by {
                    if 0 <= k < q.len() {
                        assert(q[k] == t@[s + k]);
                    }
                }
            }
            match parse_dec(t, s, end, 0xffff_ffff) {
                Some(v) => Some((v as u32, v as u32)),
                None => None,
            }
        } else {
            let ghost k0 = d - s;
            proof {
                assert(q[k0] == 45);
                assert(!all_digits(q));
                assert(q.take(k0) =~= t@.subrange(s as int, d as int));
                assert(q.skip(k0 + 1) =~= t@.subrange(d + 1, end as int));
                assert forall|k: int| dash_at(q, k) implies k == k0 by {
                    if k < k0 {
                        assert(q[k] == t@[s + k]);
                    }
                    if k > k0 {
                        assert(q.take(k)[k0] == 45);
                    }
                }
            }
            let lo = parse_dec(t, s, d, 0xffff_ffff);
            let hi = parse_dec(t, d + 1, end, 0xffff_ffff);
            match (lo, hi) {
                (Some(a), Some(b)) => {
                    proof {
                        assert(dash_at(q, k0));
                    }
                    if a <= b {
                        Some((a as u32, b as u32))
                    } else {
                        None
                    }
                },
                _ => {
                    proof {
                        if exists|k: int| dash_at(q, k) {
                            assert(dash_at(q, k0));
                        }
                    }
                    None
                },
            }
        }
    }
}

/// Why a CPU set could not be built.
#[derive(Debug)]
pub enum CpuSetBuildError {
    /// The list of online CPUs could not be read.
    IO(String),
    /// The text is not a well-formed CPU list.
    ParseError(String),
    /// The CPU is not online.
    UnavailableCPU(u32),
    /// More CPUs were asked for than are online.
    UnavailableCPUs,
}

/// A set of CPUs that were all online when it was checked, without repeats.
#[derive(Debug, Clone, PartialEq)]
pub struct CpuSet {
    cpus: Vec<u32>,
}

impl View for CpuSet {
    type V = Seq<u32>;

    closed spec fn view(&self) -> Seq<u32> {
        self.cpus@
    }
}

/// The first member of `s` that `online` lacks sits at `i`.
pub open spec fn first_missing_at(s: Seq<u32>, online: Seq<u32>, i: int) -> bool {
    0 <= i < s.len() && !online.contains(s[i]) && forall|j: int|
        0 <= j < i ==> online.contains(#[trigger] s[j])
}

impl CpuSet {
    pub closed spec fn wf(&self) -> bool {
        self.cpus@.no_duplicates()
    }

    pub fn empty() -> (r: CpuSet)
        ensures
            r.wf(),
            r@ == Seq::<u32>::empty(),
    {
        CpuSet { cpus: Vec::new() }
    }

    /// The online CPUs, from the text of the kernel's online-CPU list.
    pub fn from_online_list(text: &[u8]) -> (r: Result<CpuSet, CpuSetBuildError>)
        ensures
            r is Ok <==> cpu_list_ok(text@),
            r matches Ok(c) ==> c.wf() && c@ == cpu_list_cpus(text@),
            r matches Err(e) ==> e is ParseError,
    {
        match CpuSetUnchecked::from_bytes(text) {
            Ok(c) => Ok(CpuSet { cpus: c.cpus }),
            Err(msg) => Err(CpuSetBuildError::ParseError(msg)),
        }
    }

    /// The set holding `cpu` alone, if it is online.
    pub fn single(online: &CpuSet, cpu: u32) -> (r: Result<CpuSet, CpuSetBuildError>)
        ensures
            r is Ok <==> online@.contains(cpu),
            r matches Ok(c) ==> c.wf() && c@ == seq![cpu],
            r matches Err(e) ==> e == CpuSetBuildError::UnavailableCPU(cpu),
    {
        if contains_cpu(&online.cpus, cpu) {
            let mut cpus: Vec<u32> = Vec::new();
            cpus.push(cpu);
            proof {
                assert(cpus@ =~= seq![cpu]);
            }
            Ok(CpuSet { cpus })
        } else {
            Err(CpuSetBuildError::UnavailableCPU(cpu))
        }
    }

    /// The first `num_cpus` online CPUs, if that many are online.
    pub fn any_subset(online: &CpuSet, num_cpus: u64) -> (r: Result<CpuSet, CpuSetBuildError>)
        requires
            online.wf(),
        ensures
            r is Ok <==> num_cpus <= online@.len(),
            r matches Ok(c) ==> c.wf() && c@ == online@.take(num_cpus as int),
            r matches Err(e) ==> e is UnavailableCPUs,
    {
        if num_cpus > online.cpus.len() as u64 {
            return Err(CpuSetBuildError::UnavailableCPUs);
        }
        let n = num_cpus as usize;
        let mut cpus: Vec<u32> = Vec::new();
        let mut i: usize = 0;
        while i < n
            invariant
                n <= online.cpus@.len(),
                i <= n,
                cpus@ == online.cpus@.take(i as int),
            decreases n - i,
        {
            cpus.push(online.cpus[i]);
            i += 1;
            proof {
                assert(cpus@ =~= online.cpus@.take(i as int));
            }
        }
        proof {
            assert forall|a: int, b: int|
                0 <= a < cpus@.len() && 0 <= b < cpus@.len() && a != b implies cpus@[a]
                != cpus@[b] by {
                assert(cpus@[a] == online.cpus@[a]);
                assert(cpus@[b] == online.cpus@[b]);
            }
        }
        Ok(CpuSet { cpus })
    }

    pub fn num_cpus(&self) -> (r: usize)
        ensures
            r == self@.len(),
    {
        self.cpus.len()
    }

    pub fn as_slice(&self) -> (r: &[u32])
        ensures
            r@ == self@,
    {
        self.cpus.as_slice()
    }

    /// Renders the members in their order as `[a, b, c]`.
    pub fn to_string(&self) -> (r: String)
        ensures
            r@ == fmt_cpus(self@),
    {
        display_cpus(self.cpus.as_slice())
    }
}

impl CpuSetUnchecked {
    /// Promotes the set to a checked one against the CPUs that are online;
    /// fails on the first member that is not online.
    pub fn into_checked(self, online: &CpuSet) -> (r: Result<CpuSet, CpuSetBuildError>)
        requires
            self.wf(),
        ensures
            r is Ok <==> (forall|j: int| 0 <= j < self@.len() ==> online@.contains(#[trigger] self@[j])),
            r matches Ok(c) ==> c.wf() && c@ == self@,
            r matches Err(e) ==> exists|i: int|
                first_missing_at(self@, online@, i) && e == CpuSetBuildError::UnavailableCPU(
                    self@[i],
                ),
    {
        let mut i: usize = 0;
        while i < self.cpus.len()
            invariant
                i <= self.cpus@.len(),
                forall|j: int| 0 <= j < i ==> online@.contains(#[trigger] self.cpus@[j]),
            decreases self.cpus@.len() - i,
        {
            let c = self.cpus[i];
            if !contains_cpu(&online.cpus, c) {
                proof {
                    assert(first_missing_at(self@, online@, i as int));
                }
                return Err(CpuSetBuildError::UnavailableCPU(c));
            }
            i += 1;
        }
        Ok(CpuSet { cpus: self.cpus })
    }

    /// Renders the members in their order as `[a, b, c]`.
    pub fn to_string(&self) -> (r: String)
        ensures
            r@ == fmt_cpus(self@),
    {
        display_cpus(self.cpus.as_slice())
    }
}

/// Renders `cpus` in their order as `[a, b, c]`.
pub fn display_cpus(cpus: &[u32]) -> (r: String)
    ensures
        r@ == fmt_cpus(cpus@),
{
    proof {
        reveal_strlit("[");
        reveal_strlit("]");
        reveal_strlit(", ");
    }
    let mut s = "[".to_owned();
    let mut i: usize = 0;
    proof {
        assert(cpus@.take(0) =~= Seq::<u32>::empty());
    }
    while i < cpus.len()
        invariant
            i <= cpus@.len(),
            s@ == seq!['['] + fmt_items(cpus@.take(i as int)),
        decreases cpus@.len() - i,
    {
        proof {
            assert(cpus@.take(i + 1).drop_last() =~= cpus@.take(i as int));
            if i == 0 {
                assert(fmt_items(cpus@.take(0)) =~= Seq::<char>::empty());
                assert(s@ =~= seq!['[']);
            }
        }
        let ghost before = s@;
        let ghost c = cpus@[i as int];
        if i > 0 {
            s.append(", ");
        }
        push_decimal(&mut s, cpus[i] as u64);
        proof {
            let t = cpus@.take(i + 1);
            assert(t.last() == c);
            if i == 0 {
                assert(t[0] == c);
                assert(fmt_items(t) == dec_str(c as nat));
                assert(s@ =~= before + dec_str(c as nat));
                assert(s@ =~= seq!['['] + fmt_items(t));
            } else {
                reveal_strlit(", ");
                assert(fmt_items(t) == fmt_items(cpus@.take(i as int)) + seq![',', ' '] + dec_str(
                    c as nat,
                ));
                assert(s@ =~= seq!['['] + fmt_items(t));
            }
        }
        i += 1;
    }
    s.append("]");
    proof {
        assert(cpus@.take(i as int) =~= cpus@);
    }
    s
}

impl std::str::FromStr for CpuSetUnchecked {
    type Err = String;

    fn from_str(s: &str) -> Result<CpuSetUnchecked, String> {
        CpuSetUnchecked::from_bytes(s.as_bytes())
    }
}

fn contains_cpu(v: &Vec<u32>, x: u32) -> (r: bool)
    ensures
        r == v@.contains(x),
{
    let mut i: usize = 0;
    while i < v.len()
        invariant
            i <= v.len(),
            forall|j: int| 0 <= j < i ==> v@[j] != x,
        decreases v.len() - i,
    {
        if v[i] == x {
            return true;
        }
        i += 1;
    }
    false
}

fn position_of(v: &Vec<u32>, x: u32) -> (r: Option<usize>)
    ensures
        match r {
            Some(i) => i < v@.len() && v@[i as int] == x && forall|j: int|
                0 <= j < i ==> v@[j] != x,
            None => !v@.contains(x),
        },
{
    let mut i: usize = 0;
    while i < v.len()
        invariant
            i <= v.len(),
            forall|j: int| 0 <= j < i ==> v@[j] != x,
        decreases v.len() - i,
    {
        if v[i] == x {
            return Some(i);
        }
        i += 1;
    }
    None
}

} // verus!
