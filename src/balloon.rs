use vstd::prelude::*;
use crate::number::{i32_of, parse_i32};
use crate::text::{trim, trim_chars};

verus! {

/// Where the field that starts at `i` ends: the next `,`, or `s.len()`.
pub open spec fn comma_from(s: Seq<char>, i: int) -> int
    decreases s.len() - i,
{
    if i >= s.len() {
        s.len() as int
    } else if s[i] == ',' {
        i
    } else {
        comma_from(s, i + 1)
    }
}

/// The comma-separated fields of `s` (one empty field for an empty `s`).
pub open spec fn fields_of(s: Seq<char>) -> Seq<Seq<char>>
    decreases s.len(),
{
    let k = comma_from(s, 0);
    if k >= s.len() || k < 0 {
        seq![s]
    } else {
        seq![s.take(k)] + fields_of(s.skip(k + 1))
    }
}

/// The fields that read as `i32` once trimmed, as numbers.
pub open spec fn numbers_of(fs: Seq<Seq<char>>) -> Seq<int>
    decreases fs.len(),
{
    if fs.len() == 0 {
        Seq::empty()
    } else {
        match i32_of(trim(fs[0])) {
            Some(v) => seq![v] + numbers_of(fs.drop_first()),
            None => numbers_of(fs.drop_first()),
        }
    }
}

pub open spec fn digit_char(d: int) -> char {
    if d == 0 { '0' } else if d == 1 { '1' } else if d == 2 { '2' } else if d == 3 { '3' } else if d == 4 {
        '4'
    } else if d == 5 { '5' } else if d == 6 { '6' } else if d == 7 { '7' } else if d == 8 { '8' } else { '9' }
}

/// The decimal digits of `n`.
pub open spec fn show_nat(n: nat) -> Seq<char>
    decreases n,
{
    if n < 10 {
        seq![digit_char(n as int)]
    } else {
        show_nat(n / 10).push(digit_char((n % 10) as int))
    }
}

/// `v` written in decimal, with `-` where it is negative.
pub open spec fn show_int(v: int) -> Seq<char> {
    if v < 0 { seq!['-'] + show_nat((-v) as nat) } else { show_nat(v as nat) }
}

/// Numbers written in decimal and joined by commas.
pub open spec fn join_numbers(vs: Seq<int>) -> Seq<char>
    decreases vs.len(),
{
    if vs.len() == 0 {
        Seq::empty()
    } else if vs.len() == 1 {
        show_int(vs[0])
    } else {
        join_numbers(vs.drop_last()) + seq![','] + show_int(vs.last())
    }
}

/// A `BALLOON` value cleaned: its fields that are integers, comma-joined.
pub open spec fn cleaned_balloon(s: Seq<char>) -> Seq<char> {
    join_numbers(numbers_of(fields_of(s)))
}

fn digit_exec(d: u32) -> (c: char)
    requires
        d < 10,
    ensures
        c == digit_char(d as int),
{
    match d {
        0 => '0',
        1 => '1',
        2 => '2',
        3 => '3',
        4 => '4',
        5 => '5',
        6 => '6',
        7 => '7',
        8 => '8',
        _ => '9',
    }
}

fn push_nat(out: &mut Vec<char>, n: u32)
    ensures
        final(out)@ == old(out)@ + show_nat(n as nat),
    decreases n,
{
    if n < 10 {
        out.push(digit_exec(n));
    } else {
        push_nat(out, n / 10);
        out.push(digit_exec(n % 10));
    }
    assert(final(out)@ =~= old(out)@ + show_nat(n as nat)) by {
        if n >= 10 {
            assert(show_nat(n as nat) == show_nat((n / 10) as nat).push(digit_char((n % 10) as int)));
        }
    }
}

/// Appends `v` in decimal.
pub fn push_int(out: &mut Vec<char>, v: i32)
    ensures
        final(out)@ == old(out)@ + show_int(v as int),
{
    if v < 0 {
        out.push('-');
        let m: u32 = (0 - (v as i64)) as u32;
        push_nat(out, m);
    } else {
        push_nat(out, v as u32);
    }
    assert(final(out)@ =~= old(out)@ + show_int(v as int));
}

/// Keeps the fields of a `BALLOON` value that read as integers, and joins them
/// with commas.
pub fn clean_balloon(s: &[char]) -> (r: Vec<char>)
    ensures
        r@ == cleaned_balloon(s@),
{
    let mut vals: Vec<i32> = Vec::new();
    let ghost vs: Seq<int> = Seq::empty();
    let mut pos: usize = 0;
    let mut done = false;
    assert(s@.skip(0) =~= s@);
    while !done
        invariant
            pos <= s@.len(),
            vals@.len() == vs.len(),
            forall|i: int| 0 <= i < vs.len() ==> vs[i] == (#[trigger] vals@[i]) as int,
            !done ==> vs + numbers_of(fields_of(s@.skip(pos as int))) == numbers_of(fields_of(s@)),
            done ==> vs == numbers_of(fields_of(s@)),
        decreases s@.len() - pos + (if done { 0int } else { 1int }),
    {
        let ghost rest = s@.skip(pos as int);
        let mut field: Vec<char> = Vec::new();
        let mut k: usize = pos;
        while k < s.len() && s[k] != ','
            invariant
                pos <= k <= s@.len(),
                rest == s@.skip(pos as int),
                comma_from(rest, 0) == comma_from(rest, k - pos),
                field@ == s@.subrange(pos as int, k as int),
            decreases s.len() - k,
        {
            field.push(s[k]);
            k = k + 1;
            assert(field@ =~= s@.subrange(pos as int, k as int));
        }
        assert(field@ =~= rest.take(k - pos));
        let t = trim_chars(field.as_slice());
        let parsed = parse_i32(t.as_slice());
        proof {
            if k < s.len() {
                assert(rest.skip(k - pos + 1) =~= s@.skip(k + 1));
                assert(fields_of(rest) == seq![rest.take(k - pos)] + fields_of(s@.skip(k + 1)));
                assert((seq![rest.take(k - pos)] + fields_of(s@.skip(k + 1))).drop_first() =~= fields_of(s@.skip(k + 1)));
            } else {
                assert(rest.take(k - pos) =~= rest);
                assert(fields_of(rest) == seq![rest]);
                assert(seq![rest].drop_first() =~= Seq::<Seq<char>>::empty());
                assert(numbers_of(Seq::<Seq<char>>::empty()) == Seq::<int>::empty());
            }
        }
        let ghost before = vs;
        match parsed {
            Some(v) => {
                vals.push(v);
                proof {
                    vs = vs.push(v as int);
                }
            },
            None => {},
        }
        proof {
            if k < s.len() {
                assert(vs + numbers_of(fields_of(s@.skip(k + 1))) =~= numbers_of(fields_of(s@)));
            } else {
                assert(seq![rest][0] == rest);
                assert(numbers_of(fields_of(rest)) == (match i32_of(trim(rest)) {
                    Some(v) => seq![v] + Seq::<int>::empty(),
                    None => Seq::<int>::empty(),
                }));
                assert(before + numbers_of(fields_of(rest)) == numbers_of(fields_of(s@)));
                assert(vs =~= before + numbers_of(fields_of(rest)));
            }
        }
        if k < s.len() {
            pos = k + 1;
        } else {
            pos = k;
            done = true;
        }
    }
    let mut out: Vec<char> = Vec::new();
    let mut i: usize = 0;
    while i < vals.len()
        invariant
            i <= vals@.len(),
            vals@.len() == vs.len(),
            forall|j: int| 0 <= j < vs.len() ==> vs[j] == (#[trigger] vals@[j]) as int,
            vs == numbers_of(fields_of(s@)),
            out@ == join_numbers(vs.take(i as int)),
        decreases vals.len() - i,
    {
        assert(vs.take(i + 1).drop_last() =~= vs.take(i as int));
        if i > 0 {
            out.push(',');
        }
        push_int(&mut out, vals[i]);
        i = i + 1;
        assert(out@ =~= join_numbers(vs.take(i as int)));
    }
    assert(vs.take(vs.len() as int) =~= vs);
    out
}

} // verus!
