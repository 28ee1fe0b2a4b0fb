use vstd::prelude::*;

verus! {

pub open spec fn is_digit(c: char) -> bool {
    '0' <= c && c <= '9'
}

pub open spec fn all_digits(s: Seq<char>) -> bool {
    forall|i: int| 0 <= i < s.len() ==> is_digit(#[trigger] s[i])
}

/// The number that a string of decimal digits writes.
pub open spec fn digits_value(s: Seq<char>) -> int
    decreases s.len(),
{
    if s.len() == 0 {
        0
    } else {
        digits_value(s.drop_last()) * 10 + (s.last() as int - '0' as int)
    }
}

pub open spec fn pow10(n: nat) -> int
    decreases n,
{
    if n == 0 {
        1
    } else {
        10 * pow10((n - 1) as nat)
    }
}

/// The longest run of digits read at once as an unsigned number.
pub const MAX_DIGITS: usize = 18;

/// A signed decimal integer in the range of `i32`, with an optional sign and
/// any number of digits.
pub open spec fn i32_of(s: Seq<char>) -> Option<int> {
    let neg = s.len() > 0 && s[0] == '-';
    let body = if s.len() > 0 && (s[0] == '-' || s[0] == '+') { s.drop_first() } else { s };
    if body.len() > 0 && all_digits(body) {
        let x = if neg { -digits_value(body) } else { digits_value(body) };
        if i32::MIN <= x <= i32::MAX { Some(x) } else { None }
    } else {
        None
    }
}

/// The first position, at or after `i`, of a `.`; `s.len()` if there is none.
pub open spec fn dot_from(s: Seq<char>, i: int) -> int
    decreases s.len() - i,
{
    if i >= s.len() {
        s.len() as int
    } else if s[i] == '.' {
        i
    } else {
        dot_from(s, i + 1)
    }
}

/// Most digits before the point in a decimal.
pub const MAX_INT_DIGITS: usize = 9;

/// Digits after the point that a decimal keeps.
pub const FRAC_DIGITS: usize = 6;

/// The first six fraction digits `f`, padded with zeros.
pub open spec fn padded(f: Seq<char>) -> Seq<char> {
    Seq::new(FRAC_DIGITS as nat, |k: int| if k < f.len() { f[k] } else { '0' })
}

/// The value of the fraction digits `f`, in millionths, further digits dropped.
pub open spec fn millionths(f: Seq<char>) -> int {
    digits_value(padded(f))
}

/// A decimal with optional sign, at most nine digits before the point and any
/// number after it, in millionths (further digits are dropped).
pub open spec fn fixed_of(s: Seq<char>) -> Option<int> {
    let neg = s.len() > 0 && s[0] == '-';
    let body = if s.len() > 0 && (s[0] == '-' || s[0] == '+') { s.drop_first() } else { s };
    let d = dot_from(body, 0);
    let ip = body.take(d);
    let fp = if d < body.len() { body.skip(d + 1) } else { Seq::<char>::empty() };
    if ip.len() <= MAX_INT_DIGITS && all_digits(ip) && all_digits(fp) && ip.len() + fp.len() > 0 {
        let v = digits_value(ip) * 1_000_000 + millionths(fp);
        Some(if neg { -v } else { v })
    } else {
        None
    }
}

proof fn lemma_digits_bound(s: Seq<char>)
    requires
        all_digits(s),
    ensures
        0 <= digits_value(s) < pow10(s.len()),
    decreases s.len(),
{
    if s.len() > 0 {
        lemma_digits_bound(s.drop_last());
    }
}

proof fn lemma_pow10_18()
    ensures
        pow10(18) == 1_000_000_000_000_000_000,
        pow10(9) == 1_000_000_000,
        pow10(6) == 1_000_000,
{
    reveal_with_fuel(pow10, 19);
}

/// All characters of `s[lo..hi]` are digits.
fn all_digits_in(s: &[char], lo: usize, hi: usize) -> (r: bool)
    requires
        lo <= hi <= s@.len(),
    ensures
        r == all_digits(s@.subrange(lo as int, hi as int)),
{
    let mut i: usize = lo;
    while i < hi
        invariant
            lo <= i <= hi <= s@.len(),
            all_digits(s@.subrange(lo as int, i as int)),
        decreases hi - i,
    {
        if !(s[i] >= '0' && s[i] <= '9') {
            assert(!is_digit(s@.subrange(lo as int, hi as int)[i - lo]));
            return false;
        }
        i = i + 1;
    }
    true
}

/// The value of the digits `s[lo..hi]`.
fn digits_in(s: &[char], lo: usize, hi: usize) -> (r: u64)
    requires
        lo <= hi <= s@.len(),
        hi - lo <= MAX_DIGITS,
        all_digits(s@.subrange(lo as int, hi as int)),
    ensures
        r == digits_value(s@.subrange(lo as int, hi as int)),
{
    let mut v: u64 = 0;
    let mut i: usize = lo;
    proof {
        lemma_pow10_18();
    }
    while i < hi
        invariant
            lo <= i <= hi <= s@.len(),
            hi - lo <= MAX_DIGITS,
            all_digits(s@.subrange(lo as int, hi as int)),
            v == digits_value(s@.subrange(lo as int, i as int)),
            pow10(18) == 1_000_000_000_000_000_000,
        decreases hi - i,
    {
        let ghost pre = s@.subrange(lo as int, i as int);
        let ghost next = s@.subrange(lo as int, i + 1);
        assert(next.drop_last() =~= pre);
        assert(is_digit(s@.subrange(lo as int, hi as int)[i - lo]));
        assert(all_digits(next));
        proof {
            lemma_digits_bound(next);
            lemma_pow10_mono(next.len(), 18);
        }
        let d: u64 = (s[i] as u32 - '0' as u32) as u64;
        v = v * 10 + d;
        i = i + 1;
    }
    v
}

proof fn lemma_pow10_mono(a: nat, b: nat)
    requires
        a <= b,
    ensures
        pow10(a) <= pow10(b),
    decreases b,
{
    if a < b {
        lemma_pow10_mono(a, (b - 1) as nat);
        lemma_pow10_pos((b - 1) as nat);
    }
}

proof fn lemma_pow10_pos(n: nat)
    ensures
        pow10(n) >= 1,
    decreases n,
{
    if n > 0 {
        lemma_pow10_pos((n - 1) as nat);
    }
}

proof fn lemma_digits_prefix(s: Seq<char>, i: int)
    requires
        all_digits(s),
        0 <= i <= s.len(),
    ensures
        0 <= digits_value(s.take(i)) <= digits_value(s),
    decreases s.len(),
{
    if i < s.len() {
        assert(s.drop_last().take(i) =~= s.take(i));
        lemma_digits_prefix(s.drop_last(), i);
        lemma_digits_bound(s.drop_last());
    } else {
        assert(s.take(i) =~= s);
        lemma_digits_bound(s);
    }
}

/// The digits `s[lo..hi]` as a number, where there is at least one, all are
/// digits, and the number is at most `bound`.
fn parse_bounded(s: &[char], lo: usize, hi: usize, bound: u64) -> (r: Option<u64>)
    requires
        lo <= hi <= s@.len(),
        bound < 1_000_000_000_000,
    ensures
        ({
            let d = s@.subrange(lo as int, hi as int);
            if d.len() > 0 && all_digits(d) && digits_value(d) <= bound {
                r == Some(digits_value(d) as u64)
            } else {
                r is None
            }
        }),
        r matches Some(v) ==> v <= bound && v as int == digits_value(s@.subrange(lo as int, hi as int))
            && all_digits(s@.subrange(lo as int, hi as int)) && hi > lo,
{
    let ghost d = s@.subrange(lo as int, hi as int);
    if lo == hi {
        return None;
    }
    let mut v: u64 = 0;
    let mut i: usize = lo;
    while i < hi
        invariant
            lo <= i <= hi <= s@.len(),
            d == s@.subrange(lo as int, hi as int),
            bound < 1_000_000_000_000,
            all_digits(d.take(i - lo)),
            v == digits_value(d.take(i - lo)),
            v <= bound,
        decreases hi - i,
    {
        assert(d.take(i - lo + 1).drop_last() =~= d.take(i - lo));
        if !(s[i] >= '0' && s[i] <= '9') {
            assert(!is_digit(d[i - lo]));
            return None;
        }
        let nv: u64 = v * 10 + (s[i] as u32 - '0' as u32) as u64;
        assert(all_digits(d.take(i - lo + 1)));
        if nv > bound {
            proof {
                if all_digits(d) {
                    lemma_digits_prefix(d, i - lo + 1);
                }
            }
            return None;
        }
        v = nv;
        i = i + 1;
    }
    assert(d.take(hi - lo) =~= d);
    Some(v)
}

/// A signed integer that fits in `i32`.
pub fn parse_i32(s: &[char]) -> (r: Option<i32>)
    ensures
        match i32_of(s@) {
            Some(v) => r == Some(v as i32),
            None => r is None,
        },
{
    let signed = s.len() > 0 && (s[0] == '-' || s[0] == '+');
    let start: usize = if signed { 1 } else { 0 };
    let ghost body = if signed { s@.drop_first() } else { s@ };
    assert(s@.subrange(start as int, s@.len() as int) =~= body);
    let neg = s.len() > 0 && s[0] == '-';
    match parse_bounded(s, start, s.len(), 2147483648) {
        None => {
            proof {
                if body.len() > 0 && all_digits(body) {
                    assert(digits_value(body) > 2147483648);
                }
            }
            None
        },
        Some(v) => {
            if neg {
                Some((0 - (v as i64)) as i32)
            } else if v <= 2147483647 {
                Some(v as i32)
            } else {
                None
            }
        },
    }
}

/// A decimal in millionths (see `fixed_of`).
pub fn parse_fixed(s: &[char]) -> (r: Option<i64>)
    ensures
        match fixed_of(s@) {
            Some(v) => r == Some(v as i64),
            None => r is None,
        },
        r matches Some(v) ==> -1_000_000_000_000_000 < v < 1_000_000_000_000_000,
        r matches Some(v) ==> fixed_of(s@) == Some(v as int),
{
    let signed = s.len() > 0 && (s[0] == '-' || s[0] == '+');
    let start: usize = if signed { 1 } else { 0 };
    let ghost body = if signed { s@.drop_first() } else { s@ };
    assert(s@.subrange(start as int, s@.len() as int) =~= body);
    let mut d: usize = start;
    while d < s.len() && s[d] != '.'
        invariant
            start <= d <= s@.len(),
            body == s@.subrange(start as int, s@.len() as int),
            dot_from(body, 0) == dot_from(body, d - start),
        decreases s.len() - d,
    {
        d = d + 1;
    }
    let ghost di = d - start;
    assert(dot_from(body, 0) == di);
    let ip_len = d - start;
    let fp_lo: usize = if d < s.len() { d + 1 } else { s.len() };
    let fp_len = s.len() - fp_lo;
    assert(body.take(di) =~= s@.subrange(start as int, d as int));
    let ghost fp = if di < body.len() { body.skip(di + 1) } else { Seq::<char>::empty() };
    assert(fp =~= s@.subrange(fp_lo as int, s@.len() as int));
    if ip_len > MAX_INT_DIGITS || !all_digits_in(s, start, d) || !all_digits_in(s, fp_lo, s.len())
        || ip_len + fp_len == 0 {
        return None;
    }
    let ip = digits_in(s, start, d);
    let frac = frac_millionths(s, fp_lo);
    proof {
        lemma_pow10_18();
        lemma_digits_bound(s@.subrange(start as int, d as int));
        lemma_pow10_mono(ip_len as nat, 9);
    }
    let v: i64 = (ip as i64) * 1_000_000 + (frac as i64);
    if s.len() > 0 && s[0] == '-' {
        Some(-v)
    } else {
        Some(v)
    }
}

/// The fraction digits `s[lo..]` in millionths.
fn frac_millionths(s: &[char], lo: usize) -> (r: u64)
    requires
        lo <= s@.len(),
        all_digits(s@.subrange(lo as int, s@.len() as int)),
    ensures
        r == millionths(s@.subrange(lo as int, s@.len() as int)),
        r < 1_000_000,
{
    let ghost p = padded(s@.subrange(lo as int, s@.len() as int));
    let mut v: u64 = 0;
    let mut k: usize = 0;
    proof {
        lemma_pow10_18();
    }
    while k < FRAC_DIGITS
        invariant
            lo <= s@.len(),
            all_digits(s@.subrange(lo as int, s@.len() as int)),
            p == padded(s@.subrange(lo as int, s@.len() as int)),
            k <= FRAC_DIGITS,
            v == digits_value(p.take(k as int)),
            pow10(6) == 1_000_000,
        decreases FRAC_DIGITS - k,
    {
        let c: char = if k < s.len() - lo { s[lo + k] } else { '0' };
        assert(c == p[k as int]);
        assert(is_digit(c)) by {
            if k < s.len() - lo {
                assert(is_digit(s@.subrange(lo as int, s@.len() as int)[k as int]));
            }
        }
        assert(p.take(k + 1).drop_last() =~= p.take(k as int));
        assert(all_digits(p.take(k + 1)));
        proof {
            lemma_digits_bound(p.take(k + 1));
            lemma_pow10_mono((k + 1) as nat, 6);
        }
        v = v * 10 + (c as u32 - '0' as u32) as u64;
        k = k + 1;
    }
    assert(p.take(6) =~= p);
    proof {
        lemma_digits_bound(p);
    }
    v
}

} // verus!
