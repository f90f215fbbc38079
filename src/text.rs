//! Byte-level text primitives shared by the CPU-list grammar, the taskset
//! file formats and the rendering of numbers.
use vstd::prelude::*;
use vstd::string::*;

verus! {

pub open spec fn is_digit(b: u8) -> bool {
    48 <= b <= 57
}

/// A field separator inside one line: space or tab.
pub open spec fn is_blank(b: u8) -> bool {
    b == 32 || b == 9
}

/// ASCII whitespace: space, tab, line feed, form feed, carriage return.
pub open spec fn is_ws(b: u8) -> bool {
    b == 32 || b == 9 || b == 10 || b == 12 || b == 13
}

pub open spec fn all_digits(s: Seq<u8>) -> bool {
    s.len() > 0 && forall|i: int| 0 <= i < s.len() ==> is_digit(#[trigger] s[i])
}

/// The number that a run of decimal digits denotes.
pub open spec fn dec_value(s: Seq<u8>) -> nat
    decreases s.len(),
{
    if s.len() == 0 {
        0
    } else {
        dec_value(s.drop_last()) * 10 + (s.last() - 48) as nat
    }
}

/// `s` cut at every `sep`; an empty text is one empty piece.
pub open spec fn split(s: Seq<u8>, sep: u8) -> Seq<Seq<u8>>
    decreases s.len(),
{
    if s.len() == 0 {
        seq![Seq::<u8>::empty()]
    } else {
        let p = split(s.drop_last(), sep);
        if s.last() == sep {
            p.push(Seq::<u8>::empty())
        } else {
            p.update(p.len() - 1, p.last().push(s.last()))
        }
    }
}

/// The non-empty blank-separated fields of one line.
pub open spec fn fields(s: Seq<u8>) -> Seq<Seq<u8>>
    decreases s.len(),
{
    if s.len() == 0 {
        Seq::empty()
    } else {
        let f = fields(s.drop_last());
        let b = s.last();
        if is_blank(b) {
            f
        } else if s.len() >= 2 && !is_blank(s[s.len() - 2]) {
            f.update(f.len() - 1, f.last().push(b))
        } else {
            f.push(seq![b])
        }
    }
}

pub open spec fn trim_end(s: Seq<u8>) -> Seq<u8>
    decreases s.len(),
{
    if s.len() > 0 && is_ws(s.last()) {
        trim_end(s.drop_last())
    } else {
        s
    }
}

pub open spec fn trim_start(s: Seq<u8>) -> Seq<u8>
    decreases s.len(),
{
    if s.len() > 0 && is_ws(s[0]) {
        trim_start(s.skip(1))
    } else {
        s
    }
}

pub open spec fn trim(s: Seq<u8>) -> Seq<u8> {
    trim_start(trim_end(s))
}

pub open spec fn digit_char(d: nat) -> char {
    if d == 0 { '0' }
    else if d == 1 { '1' }
    else if d == 2 { '2' }
    else if d == 3 { '3' }
    else if d == 4 { '4' }
    else if d == 5 { '5' }
    else if d == 6 { '6' }
    else if d == 7 { '7' }
    else if d == 8 { '8' }
    else { '9' }
}

/// The decimal rendering of `n`, without leading zeros.
pub open spec fn dec_str(n: nat) -> Seq<char>
    decreases n,
{
    if n < 10 {
        seq![digit_char(n)]
    } else {
        dec_str(n / 10).push(digit_char(n % 10))
    }
}

pub proof fn lemma_split_nonempty(s: Seq<u8>, sep: u8)
    ensures
        split(s, sep).len() >= 1,
    decreases s.len(),
{
    if s.len() > 0 {
        lemma_split_nonempty(s.drop_last(), sep);
    }
}

pub proof fn lemma_dec_prefix_le(s: Seq<u8>, i: int)
    requires
        0 <= i <= s.len(),
        forall|j: int| 0 <= j < s.len() ==> is_digit(#[trigger] s[j]),
    ensures
        dec_value(s.take(i)) <= dec_value(s),
    decreases s.len(),
{
    if i < s.len() {
        let d = s.drop_last();
        assert(d.take(i) =~= s.take(i));
        lemma_dec_prefix_le(d, i);
    } else {
        assert(s.take(i) =~= s);
    }
}

/// The number that `t[start..end]` spells, when it is a non-empty run of
/// digits whose value does not exceed `max`.
pub fn parse_dec(t: &[u8], start: usize, end: usize, max: u64) -> (r: Option<u64>)
    requires
        start <= end <= t@.len(),
    ensures
        match r {
            Some(v) => all_digits(t@.subrange(start as int, end as int)) && v == dec_value(
                t@.subrange(start as int, end as int),
            ) && v <= max,
            None => !(all_digits(t@.subrange(start as int, end as int)) && dec_value(
                t@.subrange(start as int, end as int),
            ) <= max),
        },
{
    if start == end {
        return None;
    }
    let ghost whole = t@.subrange(start as int, end as int);
    let mut acc: u64 = 0;
    let mut i: usize = start;
    while i < end
        invariant
            start <= i <= end <= t@.len(),
            whole == t@.subrange(start as int, end as int),
            forall|j: int| start <= j < i ==> is_digit(#[trigger] t@[j]),
            acc as nat == dec_value(t@.subrange(start as int, i as int)),
            acc <= max,
        decreases end - i,
    {
        let b = t[i];
        if b < 48 || b > 57 {
            proof {
                assert(whole[i - start] == b);
            }
            return None;
        }
        let next: u128 = acc as u128 * 10 + (b - 48) as u128;
        proof {
            let pre = t@.subrange(start as int, i as int + 1);
            assert(pre.drop_last() =~= t@.subrange(start as int, i as int));
            assert(next == dec_value(pre));
        }
        if next > max as u128 {
            proof {
                let pre = t@.subrange(start as int, i as int + 1);
                if all_digits(whole) {
                    assert(whole.take(i - start + 1) =~= pre);
                    lemma_dec_prefix_le(whole, i - start + 1);
                }
            }
            return None;
        }
        acc = next as u64;
        i += 1;
    }
    proof {
        assert(t@.subrange(start as int, i as int) =~= whole);
    }
    Some(acc)
}

/// The first index at or after `from` and before `end` that holds `b`, or `end`.
pub fn find_byte(t: &[u8], from: usize, end: usize, b: u8) -> (r: usize)
    requires
        from <= end <= t@.len(),
    ensures
        from <= r <= end,
        r < end ==> t@[r as int] == b,
        forall|j: int| from <= j < r ==> t@[j] != b,
{
    let mut i: usize = from;
    while i < end
        invariant
            from <= i <= end <= t@.len(),
            forall|j: int| from <= j < i ==> t@[j] != b,
        decreases end - i,
    {
        if t[i] == b {
            return i;
        }
        i += 1;
    }
    i
}

fn is_ws_byte(b: u8) -> (r: bool)
    ensures
        r == is_ws(b),
{
    b == 32 || b == 9 || b == 10 || b == 12 || b == 13
}

/// The end of `t[start..end]` once trailing whitespace is cut off.
pub fn trim_end_index(t: &[u8], start: usize, end: usize) -> (r: usize)
    requires
        start <= end <= t@.len(),
    ensures
        start <= r <= end,
        t@.subrange(start as int, r as int) == trim_end(t@.subrange(start as int, end as int)),
{
    let mut e: usize = end;
    while e > start && is_ws_byte(t[e - 1])
        invariant
            start <= e <= end <= t@.len(),
            trim_end(t@.subrange(start as int, e as int)) == trim_end(
                t@.subrange(start as int, end as int),
            ),
        decreases e,
    {
        proof {
            assert(t@.subrange(start as int, e as int).drop_last() =~= t@.subrange(
                start as int,
                e - 1,
            ));
        }
        e -= 1;
    }
    e
}

/// The start of `t[start..end]` once leading whitespace is cut off.
pub fn trim_start_index(t: &[u8], start: usize, end: usize) -> (r: usize)
    requires
        start <= end <= t@.len(),
    ensures
        start <= r <= end,
        t@.subrange(r as int, end as int) == trim_start(t@.subrange(start as int, end as int)),
{
    let mut s: usize = start;
    while s < end && is_ws_byte(t[s])
        invariant
            start <= s <= end <= t@.len(),
            trim_start(t@.subrange(s as int, end as int)) == trim_start(
                t@.subrange(start as int, end as int),
            ),
        decreases end - s,
    {
        proof {
            assert(t@.subrange(s as int, end as int).skip(1) =~= t@.subrange(
                s + 1,
                end as int,
            ));
        }
        s += 1;
    }
    s
}

fn digit_str(d: u64) -> (r: &'static str)
    requires
        d < 10,
    ensures
        r@ == seq![digit_char(d as nat)],
{
    proof {
        reveal_strlit("0");
        reveal_strlit("1");
        reveal_strlit("2");
        reveal_strlit("3");
        reveal_strlit("4");
        reveal_strlit("5");
        reveal_strlit("6");
        reveal_strlit("7");
        reveal_strlit("8");
        reveal_strlit("9");
    }
    if d == 0 {
        "0"
    } else if d == 1 {
        "1"
    } else if d == 2 {
        "2"
    } else if d == 3 {
        "3"
    } else if d == 4 {
        "4"
    } else if d == 5 {
        "5"
    } else if d == 6 {
        "6"
    } else if d == 7 {
        "7"
    } else if d == 8 {
        "8"
    } else {
        "9"
    }
}

/// Appends the decimal rendering of `n` to `s`.
pub fn push_decimal(s: &mut String, n: u64)
    ensures
        final(s)@ == old(s)@ + dec_str(n as nat),
    decreases n,
{
    if n >= 10 {
        push_decimal(s, n / 10);
    }
    s.append(digit_str(n % 10));
    proof {
        if n >= 10 {
            assert(old(s)@ + dec_str(n as nat) =~= old(s)@ + dec_str((n / 10) as nat) + seq![
                digit_char((n % 10) as nat),
            ]);
        } else {
            assert(dec_str(n as nat) =~= seq![digit_char((n % 10) as nat)]);
        }
    }
}


/// The pieces of `t[start..end]` cut at every `sep`, as index ranges into `t`.
pub fn split_ranges(t: &[u8], start: usize, end: usize, sep: u8) -> (r: Vec<(usize, usize)>)
    requires
        start <= end <= t@.len(),
    ensures
        r@.len() == split(t@.subrange(start as int, end as int), sep).len(),
        forall|i: int|
            0 <= i < r@.len() ==> start <= (#[trigger] r@[i]).0 <= r@[i].1 <= end && t@.subrange(
                r@[i].0 as int,
                r@[i].1 as int,
            ) == split(t@.subrange(start as int, end as int), sep)[i],
{
    let mut out: Vec<(usize, usize)> = Vec::new();
    let mut ps: usize = start;
    let mut i: usize = start;
    proof {
        assert(t@.subrange(start as int, start as int) =~= Seq::<u8>::empty());
    }
    while i < end
        invariant
            start <= ps <= i <= end <= t@.len(),
            out@.len() + 1 == split(t@.subrange(start as int, i as int), sep).len(),
            split(t@.subrange(start as int, i as int), sep).last() == t@.subrange(
                ps as int,
                i as int,
            ),
            forall|k: int|
                0 <= k < out@.len() ==> start <= (#[trigger] out@[k]).0 <= out@[k].1 <= i
                    && t@.subrange(out@[k].0 as int, out@[k].1 as int) == split(
                    t@.subrange(start as int, i as int),
                    sep,
                )[k],
        decreases end - i,
    {
        let ghost prev = split(t@.subrange(start as int, i as int), sep);
        proof {
            assert(t@.subrange(start as int, i + 1).drop_last() =~= t@.subrange(
                start as int,
                i as int,
            ));
            lemma_split_nonempty(t@.subrange(start as int, i as int), sep);
        }
        if t[i] == sep {
            out.push((ps, i));
            ps = i + 1;
            proof {
                assert(t@.subrange(ps as int, i + 1) =~= Seq::<u8>::empty());
            }
        } else {
            proof {
                assert(prev.last().push(t@[i as int]) =~= t@.subrange(ps as int, i + 1));
            }
        }
        i += 1;
    }
    out.push((ps, end));
    out
}

/// The blank-separated fields of `t[start..end]`, as index ranges into `t`.
pub fn field_ranges(t: &[u8], start: usize, end: usize) -> (r: Vec<(usize, usize)>)
    requires
        start <= end <= t@.len(),
    ensures
        r@.len() == fields(t@.subrange(start as int, end as int)).len(),
        forall|i: int|
            0 <= i < r@.len() ==> start <= (#[trigger] r@[i]).0 <= r@[i].1 <= end && t@.subrange(
                r@[i].0 as int,
                r@[i].1 as int,
            ) == fields(t@.subrange(start as int, end as int))[i],
{
    let mut out: Vec<(usize, usize)> = Vec::new();
    let mut i: usize = start;
    let mut fs: usize = start;
    let mut in_field = false;
    proof {
        assert(t@.subrange(start as int, start as int) =~= Seq::<u8>::empty());
    }
    while i < end
        invariant
            start <= fs <= i <= end <= t@.len(),
            in_field ==> fs < i,
            in_field == (i > start && !is_blank(t@[i - 1])),
            in_field ==> out@.len() + 1 == fields(t@.subrange(start as int, i as int)).len()
                && fields(t@.subrange(start as int, i as int)).last() == t@.subrange(
                fs as int,
                i as int,
            ),
            !in_field ==> out@.len() == fields(t@.subrange(start as int, i as int)).len(),
            forall|k: int|
                0 <= k < out@.len() ==> start <= (#[trigger] out@[k]).0 <= out@[k].1 <= i
                    && t@.subrange(out@[k].0 as int, out@[k].1 as int) == fields(
                    t@.subrange(start as int, i as int),
                )[k],
        decreases end - i,
    {
        let ghost prev = fields(t@.subrange(start as int, i as int));
        let b = t[i];
        proof {
            let cur = t@.subrange(start as int, i + 1);
            assert(cur.drop_last() =~= t@.subrange(start as int, i as int));
            assert(cur.last() == b);
            if i > start {
                assert(cur[cur.len() - 2] == t@[i - 1]);
            }
        }
        if b == 32 || b == 9 {
            if in_field {
                out.push((fs, i));
            }
            in_field = false;
        } else {
            if !in_field {
                fs = i;
                proof {
                    assert(t@.subrange(fs as int, i + 1) =~= seq![b]);
                }
            } else {
                proof {
                    assert(prev.last().push(b) =~= t@.subrange(fs as int, i + 1));
                }
            }
            in_field = true;
        }
        i += 1;
    }
    if in_field {
        out.push((fs, end));
    }
    out
}

} // verus!
