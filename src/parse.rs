//! Numbers read back from text: chapter numbers embedded in file names and
//! durations printed by the audio prober.
use vstd::prelude::*;
use crate::text::{all_digits, digit_value, digits_value, is_digit, trim, trim_seq};
use crate::PipelineError;

verus! {

/// Whether `p` occurs in `s` at position `i`.
pub open spec fn occurs_at(s: Seq<char>, p: Seq<char>, i: int) -> bool {
    0 <= i && i + p.len() <= s.len() && s.subrange(i, i + p.len()) == p
}

/// The first position at or after `i` where `p` occurs in `s`, or -1.
pub open spec fn find_from(s: Seq<char>, p: Seq<char>, i: int) -> int
    decreases s.len() + 1 - i,
{
    if i < 0 || i + p.len() > s.len() {
        -1
    } else if occurs_at(s, p, i) {
        i
    } else {
        find_from(s, p, i + 1)
    }
}

/// What `str::parse::<u32>` accepts: an optional `+`, then at least one
/// digit, with a value that fits.
pub open spec fn u32_value(t: Seq<char>) -> Option<nat> {
    let d = if t.len() > 0 && t[0] == '+' { t.drop_first() } else { t };
    if d.len() > 0 && all_digits(d) && digits_value(d) <= u32::MAX {
        Some(digits_value(d))
    } else {
        None
    }
}

/// The number between the first `chapter_` and the `.m4a` after it.
pub open spec fn chapter_number_of(s: Seq<char>) -> Option<nat> {
    let a = find_from(s, "chapter_"@, 0);
    if a < 0 {
        None
    } else {
        let rest = s.subrange(a + "chapter_"@.len(), s.len() as int);
        let b = find_from(rest, ".m4a"@, 0);
        if b < 0 {
            None
        } else {
            u32_value(rest.subrange(0, b))
        }
    }
}

/// The milliseconds in the first three fraction digits of a number of seconds.
pub open spec fn frac_ms(f: Seq<char>) -> nat {
    if f.len() == 0 {
        0
    } else if f.len() == 1 {
        digits_value(f) * 100
    } else if f.len() == 2 {
        digits_value(f) * 10
    } else {
        digits_value(f.take(3))
    }
}

/// A number of seconds, digits with an optional fraction after a `.`,
/// in whole milliseconds.
pub open spec fn duration_ms(t: Seq<char>) -> Option<nat> {
    let p = find_from(t, "."@, 0);
    let whole = if p < 0 { t } else { t.subrange(0, p) };
    let frac = if p < 0 { Seq::<char>::empty() } else { t.subrange(p + 1, t.len() as int) };
    if whole.len() > 0 && all_digits(whole) && all_digits(frac) {
        Some(digits_value(whole) * 1000 + frac_ms(frac))
    } else {
        None
    }
}

proof fn lemma_find_from_bounds(s: Seq<char>, p: Seq<char>, i: int)
    ensures
        find_from(s, p, i) == -1 || (i <= find_from(s, p, i) && occurs_at(
            s,
            p,
            find_from(s, p, i),
        )),
    decreases s.len() + 1 - i,
{
    if !(i < 0 || i + p.len() > s.len()) && !occurs_at(s, p, i) {
        lemma_find_from_bounds(s, p, i + 1);
    }
}

pub open spec fn pow10(n: nat) -> nat
    decreases n,
{
    if n == 0 {
        1
    } else {
        10 * pow10((n - 1) as nat)
    }
}

proof fn lemma_digits_below(s: Seq<char>)
    requires
        all_digits(s),
    ensures
        digits_value(s) < pow10(s.len()),
    decreases s.len(),
{
    if s.len() > 0 {
        let p = s.drop_last();
        assert(all_digits(p)) by {
            assert forall|j: int| 0 <= j < p.len() implies is_digit(#[trigger] p[j]) by {
                assert(p[j] == s[j]);
            }
        }
        lemma_digits_below(p);
        assert(is_digit(s[s.len() - 1]));
        let a = digits_value(p);
        let d = digit_value(s.last());
        let q = pow10(p.len());
        assert(a * 10 + d < 10 * q) by (nonlinear_arith)
            requires
                a < q,
                d <= 9,
        ;
    }
}

proof fn lemma_digits_prefix(s: Seq<char>, k: int)
    requires
        0 <= k <= s.len(),
    ensures
        digits_value(s.take(k)) <= digits_value(s),
    decreases s.len() - k,
{
    if k < s.len() {
        lemma_digits_prefix(s.drop_last(), k);
        assert(s.drop_last().take(k) =~= s.take(k));
    } else {
        assert(s.take(k) =~= s);
    }
}

/// The first position at or after `from` where `p` occurs in `s`.
pub fn find(s: &str, p: &str, from: usize) -> (r: Option<usize>)
    ensures
        match r {
            Some(i) => find_from(s@, p@, from as int) == i as int,
            None => find_from(s@, p@, from as int) == -1,
        },
{
    let n = s.unicode_len();
    let m = p.unicode_len();
    let mut i = from;
    while i <= n && m <= n - i
        invariant
            n == s@.len(),
            m == p@.len(),
            from <= i,
            find_from(s@, p@, from as int) == find_from(s@, p@, i as int),
        decreases n + 1 - i,
    {
        let mut k: usize = 0;
        let mut same = true;
        while k < m
            invariant
                n == s@.len(),
                m == p@.len(),
                i + m <= n,
                k <= m,
                same == forall|j: int| 0 <= j < k ==> s@[i + j] == p@[j],
            decreases m - k,
        {
            if s.get_char(i + k) != p.get_char(k) {
                same = false;
            }
            k = k + 1;
        }
        if same {
            assert(s@.subrange(i as int, i + m) =~= p@);
            return Some(i);
        }
        assert(!occurs_at(s@, p@, i as int)) by {
            if occurs_at(s@, p@, i as int) {
                assert forall|j: int| 0 <= j < m implies s@[i + j] == p@[j] by {
                    assert(s@.subrange(i as int, i + m)[j] == s@[i + j]);
                }
            }
        }
        i = i + 1;
    }
    None
}

/// The value of the digits `s@[from..to]`, where all are digits and the
/// value is at most `bound`.
fn parse_bounded(s: &str, from: usize, to: usize, bound: u64) -> (r: Option<u64>)
    requires
        from <= to <= s@.len(),
        bound <= 1844674407370955161,
    ensures
        all_digits(s@.subrange(from as int, to as int)) && digits_value(
            s@.subrange(from as int, to as int),
        ) <= bound ==> r == Some(digits_value(s@.subrange(from as int, to as int)) as u64),
        !(all_digits(s@.subrange(from as int, to as int)) && digits_value(
            s@.subrange(from as int, to as int),
        ) <= bound) ==> r is None,
{
    let ghost t = s@.subrange(from as int, to as int);
    let mut v: u64 = 0;
    let mut i = from;
    assert(t.take(0) =~= Seq::<char>::empty());
    while i < to
        invariant
            from <= i <= to,
            to <= s@.len(),
            t == s@.subrange(from as int, to as int),
            bound <= 1844674407370955161,
            all_digits(t.take(i - from)),
            v == digits_value(t.take(i - from)),
            v <= bound,
        decreases to - i,
    {
        let c = s.get_char(i);
        assert(t[i - from] == c);
        if !('0' <= c && c <= '9') {
            assert(!all_digits(t));
            return None;
        }
        let d = (c as u32 - '0' as u32) as u64;
        assert(t.take(i - from + 1).drop_last() =~= t.take(i - from));
        assert(v * 10 + d <= 18446744073709551619) by (nonlinear_arith)
            requires
                v <= 1844674407370955161,
                d <= 9,
        ;
        if d > 5 && v == 1844674407370955161 {
            proof {
                lemma_digits_prefix(t, i - from + 1);
            }
            return None;
        }
        let w = v * 10 + d;
        if w > bound {
            proof {
                lemma_digits_prefix(t, i - from + 1);
            }
            return None;
        }
        v = w;
        i = i + 1;
        assert(all_digits(t.take(i - from))) by {
            assert forall|j: int| 0 <= j < i - from implies is_digit(#[trigger] t.take(i - from)[j]) by {
                if j < i - from - 1 {
                    assert(t.take(i - from)[j] == t.take(i - from - 1)[j]);
                }
            }
        }
    }
    assert(t.take(i - from) =~= t);
    Some(v)
}

/// Parses a `u32` as `str::parse` does: an optional `+`, then digits.
pub fn parse_u32(s: &str, from: usize, to: usize) -> (r: Option<u32>)
    requires
        from <= to <= s@.len(),
    ensures
        match u32_value(s@.subrange(from as int, to as int)) {
            Some(v) => r == Some(v as u32),
            None => r is None,
        },
{
    let ghost t = s@.subrange(from as int, to as int);
    let mut start = from;
    if from < to && s.get_char(from) == '+' {
        start = from + 1;
        assert(t.drop_first() =~= s@.subrange(start as int, to as int));
    } else {
        assert(t =~= s@.subrange(start as int, to as int));
    }
    if start == to {
        return None;
    }
    match parse_bounded(s, start, to, 4294967295) {
        Some(v) => Some(v as u32),
        None => None,
    }
}

/// The chapter number of a chapter file name: the number between the first
/// `chapter_` and the `.m4a` after it.
pub fn get_chapter_number(entry: &str) -> (r: Option<u32>)
    ensures
        match chapter_number_of(entry@) {
            Some(v) => r == Some(v as u32),
            None => r is None,
        },
{
    match find(entry, "chapter_", 0) {
        None => None,
        Some(pos) => {
            proof {
                lemma_find_from_bounds(entry@, "chapter_"@, 0);
            }
            let n = entry.unicode_len();
            let m = "chapter_".unicode_len();
            assert(pos + m <= n);
            let start = pos + m;
            let rest = entry.substring_char(start, n);
            match find(rest, ".m4a", 0) {
                None => None,
                Some(end) => {
                    proof {
                        lemma_find_from_bounds(rest@, ".m4a"@, 0);
                    }
                    parse_u32(rest, 0, end)
                },
            }
        },
    }
}

/// The duration that the prober printed, in whole milliseconds: seconds as
/// digits with an optional fraction, surrounding white space ignored. An
/// `AssemblyError` where the text is no such number or the value overflows.
pub fn parse_duration_ms(output: &str) -> (r: Result<u64, PipelineError>)
    ensures
        match duration_ms(trim_seq(output@)) {
            Some(v) => if v <= u64::MAX {
                r == Ok::<u64, PipelineError>(v as u64)
            } else {
                r == Err::<u64, PipelineError>(PipelineError::AssemblyError)
            },
            None => r == Err::<u64, PipelineError>(PipelineError::AssemblyError),
        },
{
    let t = trim(output);
    let ts = t.as_str();
    let n = ts.unicode_len();
    let dot = find(ts, ".", 0);
    proof {
        lemma_find_from_bounds(t@, "."@, 0);
        reveal_strlit(".");
    }
    let (whole_end, frac_start) = match dot {
        Some(p) => (p, p + 1),
        None => (n, n),
    };
    assert(frac_start <= n) by {
        if dot is Some {
            reveal_strlit(".");
        }
    }
    let ghost whole = t@.subrange(0, whole_end as int);
    let ghost frac = t@.subrange(frac_start as int, n as int);
    proof {
        if dot is None {
            assert(whole =~= t@);
            assert(frac =~= Seq::<char>::empty());
        }
    }
    if whole_end == 0 {
        return Err(PipelineError::AssemblyError);
    }
    let mut frac_ok = true;
    let mut i = frac_start;
    while i < n
        invariant
            frac_start <= i <= n,
            n == t@.len(),
            ts@ == t@,
            frac == t@.subrange(frac_start as int, n as int),
            frac_ok == forall|j: int| frac_start <= j < i ==> is_digit(#[trigger] t@[j]),
        decreases n - i,
    {
        let c = ts.get_char(i);
        if !('0' <= c && c <= '9') {
            frac_ok = false;
        }
        i = i + 1;
    }
    assert(frac_ok == all_digits(frac)) by {
        if frac_ok {
            assert forall|j: int| 0 <= j < frac.len() implies is_digit(#[trigger] frac[j]) by {
                assert(frac[j] == t@[frac_start + j]);
            }
        } else {
            let j = choose|j: int| frac_start <= j < n && !is_digit(#[trigger] t@[j]);
            assert(frac[j - frac_start] == t@[j]);
        }
    }
    if !frac_ok {
        return Err(PipelineError::AssemblyError);
    }
    let w = parse_bounded(ts, 0, whole_end, 18446744073709551);
    let v = match w {
        None => {
            assert(!all_digits(whole) || digits_value(whole) > 18446744073709551);
            return Err(PipelineError::AssemblyError);
        },
        Some(v) => v,
    };
    let flen = n - frac_start;
    let f3 = if flen > 3 { frac_start + 3 } else { n };
    let bound: u64 = if flen == 1 { 9 } else if flen == 2 { 99 } else { 999 };
    let ghost fpre = frac.take(f3 - frac_start);
    proof {
        assert(t@.subrange(frac_start as int, f3 as int) =~= fpre);
        assert(all_digits(fpre));
        lemma_digits_below(fpre);
        reveal_with_fuel(pow10, 4);
        assert(fpre.len() == f3 - frac_start);
        if flen <= 3 {
            assert(fpre =~= frac);
        }
    }
    let fv = match parse_bounded(ts, frac_start, f3, bound) {
        Some(x) => x,
        None => {
            return Err(PipelineError::AssemblyError);
        },
    };
    let scaled: u64 = if flen == 0 {
        0
    } else if flen == 1 {
        fv * 100
    } else if flen == 2 {
        fv * 10
    } else {
        fv
    };
    if v > (18446744073709551615 - scaled) / 1000 {
        assert(v * 1000 + scaled > u64::MAX) by (nonlinear_arith)
            requires
                v > (18446744073709551615 - scaled) / 1000,
                scaled <= 999,
        ;
        return Err(PipelineError::AssemblyError);
    }
    assert(v * 1000 + scaled <= u64::MAX) by (nonlinear_arith)
        requires
            v <= (18446744073709551615 - scaled) / 1000,
            scaled <= 999,
    ;
    Ok(v * 1000 + scaled)
}

} // verus!
