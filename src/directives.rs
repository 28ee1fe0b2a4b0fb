use vstd::prelude::*;
use crate::number::{fixed_of, i32_of, parse_fixed, parse_i32};
use crate::text::{chars_of, string_of, trim, trim_chars};
use crate::timing::valid_bpm;

verus! {

/// Whether a directive closes the buffered notes first (`Bar`) or is replayed
/// in order with them (`Note`).
#[derive(Clone, Copy, Debug, PartialEq, Eq, Structural)]
pub enum DirectiveType {
    Bar,
    Note,
}

/// The directives that a chart body knows, by name alone.
#[derive(Clone, Copy, Debug, PartialEq, Eq, Structural)]
pub enum DirectiveKind {
    Start,
    End,
    BpmChange,
    Scroll,
    GogoStart,
    GogoEnd,
    BarlineOff,
    BarlineOn,
    BranchStart,
    BranchEnd,
    Measure,
    Delay,
    Section,
}

/// A directive with its argument read. Tempo and scroll are in millionths,
/// delay in nanoseconds; `Start` holds the player (0 single, 1 or 2).
#[derive(Clone, Debug)]
pub enum Directive {
    Start(i32),
    End,
    BpmChange(i64),
    Scroll(i64),
    GogoStart,
    GogoEnd,
    BarlineOff,
    BarlineOn,
    BranchStart(String),
    BranchEnd,
    Measure(i32, i32),
    Delay(i64),
    Section,
}

/// A separator between a directive's name and its argument.
pub open spec fn is_separator(c: char) -> bool {
    c == ':' || c == ' ' || c == '\t'
}

/// Where a directive's name ends, searching from `i`.
pub open spec fn name_end_from(s: Seq<char>, i: int) -> int
    decreases s.len() - i,
{
    if i >= s.len() {
        s.len() as int
    } else if is_separator(s[i]) {
        i
    } else {
        name_end_from(s, i + 1)
    }
}

pub open spec fn command_name(s: Seq<char>) -> Seq<char> {
    s.take(name_end_from(s, 0))
}

pub open spec fn command_arg(s: Seq<char>) -> Seq<char> {
    let e = name_end_from(s, 0);
    if e < s.len() { trim(s.skip(e + 1)) } else { Seq::<char>::empty() }
}

pub open spec fn kind_of(name: Seq<char>) -> Option<DirectiveKind> {
    if name == "START"@ {
        Some(DirectiveKind::Start)
    } else if name == "END"@ {
        Some(DirectiveKind::End)
    } else if name == "BPMCHANGE"@ {
        Some(DirectiveKind::BpmChange)
    } else if name == "SCROLL"@ {
        Some(DirectiveKind::Scroll)
    } else if name == "GOGOSTART"@ {
        Some(DirectiveKind::GogoStart)
    } else if name == "GOGOEND"@ {
        Some(DirectiveKind::GogoEnd)
    } else if name == "BARLINEOFF"@ {
        Some(DirectiveKind::BarlineOff)
    } else if name == "BARLINEON"@ {
        Some(DirectiveKind::BarlineOn)
    } else if name == "BRANCHSTART"@ {
        Some(DirectiveKind::BranchStart)
    } else if name == "BRANCHEND"@ {
        Some(DirectiveKind::BranchEnd)
    } else if name == "MEASURE"@ {
        Some(DirectiveKind::Measure)
    } else if name == "DELAY"@ {
        Some(DirectiveKind::Delay)
    } else if name == "SECTION"@ {
        Some(DirectiveKind::Section)
    } else {
        None
    }
}

pub open spec fn type_of_kind(k: DirectiveKind) -> DirectiveType {
    if k == DirectiveKind::Start || k == DirectiveKind::End {
        DirectiveType::Bar
    } else {
        DirectiveType::Note
    }
}

/// The player that a `START` argument names.
pub open spec fn player_of(arg: Seq<char>) -> i32 {
    if arg == "P1"@ {
        1
    } else if arg == "P2"@ {
        2
    } else {
        0
    }
}

/// Where `/` stands in a `MEASURE` argument, searching from `i`.
pub open spec fn slash_from(s: Seq<char>, i: int) -> int
    decreases s.len() - i,
{
    if i >= s.len() {
        s.len() as int
    } else if s[i] == '/' {
        i
    } else {
        slash_from(s, i + 1)
    }
}

/// The fraction `n/d` of a `MEASURE` argument, both positive.
pub open spec fn fraction_of(arg: Seq<char>) -> Option<(int, int)> {
    let k = slash_from(arg, 0);
    if k < arg.len() {
        match (i32_of(trim(arg.take(k))), i32_of(trim(arg.skip(k + 1)))) {
            (Some(n), Some(d)) => if n > 0 && d > 0 { Some((n, d)) } else { None },
            _ => None,
        }
    } else {
        None
    }
}

/// What a directive command with this argument becomes, or `None` where its
/// name is unknown or its argument unreadable.
pub open spec fn directive_matches(kind: DirectiveKind, arg: Seq<char>, r: Option<Directive>) -> bool {
    match kind {
        DirectiveKind::Start => r == Some(Directive::Start(player_of(arg))),
        DirectiveKind::End => r == Some(Directive::End),
        DirectiveKind::BpmChange => match fixed_of(arg) {
            Some(v) => if valid_bpm(v) { r == Some(Directive::BpmChange(v as i64)) } else { r is None },
            None => r is None,
        },
        DirectiveKind::Scroll => match fixed_of(arg) {
            Some(v) => r == Some(Directive::Scroll(v as i64)),
            None => r is None,
        },
        DirectiveKind::GogoStart => r == Some(Directive::GogoStart),
        DirectiveKind::GogoEnd => r == Some(Directive::GogoEnd),
        DirectiveKind::BarlineOff => r == Some(Directive::BarlineOff),
        DirectiveKind::BarlineOn => r == Some(Directive::BarlineOn),
        DirectiveKind::BranchStart => r matches Some(Directive::BranchStart(c)) && c@ == arg,
        DirectiveKind::BranchEnd => r == Some(Directive::BranchEnd),
        DirectiveKind::Measure => match fraction_of(arg) {
            Some((n, d)) => r == Some(Directive::Measure(n as i32, d as i32)),
            None => r is None,
        },
        DirectiveKind::Delay => match fixed_of(arg) {
            Some(v) => r == Some(Directive::Delay((v * 1000) as i64)),
            None => r is None,
        },
        DirectiveKind::Section => r == Some(Directive::Section),
    }
}

fn eq_str(a: &Vec<char>, b: &str) -> (r: bool)
    ensures
        r == (a@ == b@),
{
    let bc = chars_of(b);
    if a.len() != bc.len() {
        return false;
    }
    let mut i: usize = 0;
    while i < a.len()
        invariant
            a@.len() == bc@.len(),
            bc@ == b@,
            i <= a@.len(),
            a@.take(i as int) == bc@.take(i as int),
        decreases a.len() - i,
    {
        if a[i] != bc[i] {
            return false;
        }
        assert(a@.take(i + 1) =~= a@.take(i as int).push(a@[i as int]));
        assert(bc@.take(i + 1) =~= bc@.take(i as int).push(bc@[i as int]));
        i = i + 1;
    }
    assert(a@.take(a@.len() as int) =~= a@);
    assert(bc@.take(a@.len() as int) =~= bc@);
    true
}

/// Splits a directive command into its name and its trimmed argument.
pub fn split_command(cmd: &[char]) -> (r: (Vec<char>, Vec<char>))
    ensures
        r.0@ == command_name(cmd@),
        r.1@ == command_arg(cmd@),
{
    let mut e: usize = 0;
    while e < cmd.len() && !(cmd[e] == ':' || cmd[e] == ' ' || cmd[e] == '\t')
        invariant
            e <= cmd@.len(),
            name_end_from(cmd@, 0) == name_end_from(cmd@, e as int),
        decreases cmd.len() - e,
    {
        e = e + 1;
    }
    let mut name: Vec<char> = Vec::new();
    let mut i: usize = 0;
    while i < e
        invariant
            e <= cmd@.len(),
            i <= e,
            name@ == cmd@.take(i as int),
        decreases e - i,
    {
        name.push(cmd[i]);
        i = i + 1;
        assert(name@ =~= cmd@.take(i as int));
    }
    let mut rest: Vec<char> = Vec::new();
    if e < cmd.len() {
        let mut j: usize = e + 1;
        while j < cmd.len()
            invariant
                e < cmd@.len(),
                e + 1 <= j <= cmd@.len(),
                rest@ == cmd@.subrange(e + 1, j as int),
            decreases cmd.len() - j,
        {
            rest.push(cmd[j]);
            j = j + 1;
            assert(rest@ =~= cmd@.subrange(e + 1, j as int));
        }
        assert(rest@ =~= cmd@.skip(e + 1));
    }
    let arg = trim_chars(rest.as_slice());
    (name, if e < cmd.len() { arg } else { Vec::new() })
}

/// The directive that a name stands for.
pub fn kind_of_name(name: &Vec<char>) -> (r: Option<DirectiveKind>)
    ensures
        r == kind_of(name@),
{
    if eq_str(name, "START") {
        Some(DirectiveKind::Start)
    } else if eq_str(name, "END") {
        Some(DirectiveKind::End)
    } else if eq_str(name, "BPMCHANGE") {
        Some(DirectiveKind::BpmChange)
    } else if eq_str(name, "SCROLL") {
        Some(DirectiveKind::Scroll)
    } else if eq_str(name, "GOGOSTART") {
        Some(DirectiveKind::GogoStart)
    } else if eq_str(name, "GOGOEND") {
        Some(DirectiveKind::GogoEnd)
    } else if eq_str(name, "BARLINEOFF") {
        Some(DirectiveKind::BarlineOff)
    } else if eq_str(name, "BARLINEON") {
        Some(DirectiveKind::BarlineOn)
    } else if eq_str(name, "BRANCHSTART") {
        Some(DirectiveKind::BranchStart)
    } else if eq_str(name, "BRANCHEND") {
        Some(DirectiveKind::BranchEnd)
    } else if eq_str(name, "MEASURE") {
        Some(DirectiveKind::Measure)
    } else if eq_str(name, "DELAY") {
        Some(DirectiveKind::Delay)
    } else if eq_str(name, "SECTION") {
        Some(DirectiveKind::Section)
    } else {
        None
    }
}

/// Classifies a directive command (the text after `#`): `None` where its name
/// is unknown.
pub fn directive_type(cmd: &[char]) -> (r: Option<DirectiveType>)
    ensures
        r == (match kind_of(command_name(cmd@)) {
            Some(k) => Some(type_of_kind(k)),
            None => None,
        }),
{
    let (name, _arg) = split_command(cmd);
    match kind_of_name(&name) {
        Some(k) => Some(
            if k == DirectiveKind::Start || k == DirectiveKind::End {
                DirectiveType::Bar
            } else {
                DirectiveType::Note
            },
        ),
        None => None,
    }
}

fn slice_of(s: &[char], lo: usize, hi: usize) -> (r: Vec<char>)
    requires
        lo <= hi <= s@.len(),
    ensures
        r@ == s@.subrange(lo as int, hi as int),
{
    let mut r: Vec<char> = Vec::new();
    let mut i: usize = lo;
    while i < hi
        invariant
            lo <= i <= hi <= s@.len(),
            r@ == s@.subrange(lo as int, i as int),
        decreases hi - i,
    {
        r.push(s[i]);
        i = i + 1;
        assert(r@ =~= s@.subrange(lo as int, i as int));
    }
    r
}

/// Reads the `n/d` of a `MEASURE` argument.
pub fn parse_fraction(arg: &[char]) -> (r: Option<(i32, i32)>)
    ensures
        match fraction_of(arg@) {
            Some((n, d)) => r == Some((n as i32, d as i32)),
            None => r is None,
        },
{
    let mut k: usize = 0;
    while k < arg.len() && arg[k] != '/'
        invariant
            k <= arg@.len(),
            slash_from(arg@, 0) == slash_from(arg@, k as int),
        decreases arg.len() - k,
    {
        k = k + 1;
    }
    if k >= arg.len() {
        return None;
    }
    let left = trim_chars(slice_of(arg, 0, k).as_slice());
    let right = trim_chars(slice_of(arg, k + 1, arg.len()).as_slice());
    assert(arg@.subrange(0, k as int) =~= arg@.take(k as int));
    assert(arg@.subrange(k + 1, arg@.len() as int) =~= arg@.skip(k + 1));
    let n = parse_i32(left.as_slice());
    let d = parse_i32(right.as_slice());
    match (n, d) {
        (Some(n), Some(d)) => if n > 0 && d > 0 { Some((n, d)) } else { None },
        _ => None,
    }
}

/// Reads a directive command (the text after `#`).
pub fn parse_directive(cmd: &[char]) -> (r: Option<Directive>)
    ensures
        match kind_of(command_name(cmd@)) {
            Some(k) => directive_matches(k, command_arg(cmd@), r),
            None => r is None,
        },
{
    let (name, arg) = split_command(cmd);
    let kind = kind_of_name(&name);
    assert(kind == kind_of(command_name(cmd@)));
    match kind {
        None => {
            assert(kind_of(command_name(cmd@)) is None);
            None
        },
        Some(DirectiveKind::Start) => {
            let p: i32 = if eq_str(&arg, "P1") {
                1
            } else if eq_str(&arg, "P2") {
                2
            } else {
                0
            };
            Some(Directive::Start(p))
        },
        Some(DirectiveKind::End) => Some(Directive::End),
        Some(DirectiveKind::BpmChange) => match parse_fixed(arg.as_slice()) {
            Some(v) => if 0 < v { Some(Directive::BpmChange(v)) } else { None },
            None => None,
        },
        Some(DirectiveKind::Scroll) => match parse_fixed(arg.as_slice()) {
            Some(v) => Some(Directive::Scroll(v)),
            None => None,
        },
        Some(DirectiveKind::GogoStart) => Some(Directive::GogoStart),
        Some(DirectiveKind::GogoEnd) => Some(Directive::GogoEnd),
        Some(DirectiveKind::BarlineOff) => Some(Directive::BarlineOff),
        Some(DirectiveKind::BarlineOn) => Some(Directive::BarlineOn),
        Some(DirectiveKind::BranchStart) => Some(Directive::BranchStart(string_of(&arg))),
        Some(DirectiveKind::BranchEnd) => Some(Directive::BranchEnd),
        Some(DirectiveKind::Measure) => match parse_fraction(arg.as_slice()) {
            Some((n, d)) => Some(Directive::Measure(n, d)),
            None => None,
        },
        Some(DirectiveKind::Delay) => match parse_fixed(arg.as_slice()) {
            Some(v) => Some(Directive::Delay(v * 1000)),
            None => None,
        },
        Some(DirectiveKind::Section) => Some(Directive::Section),
    }
}

} // verus!
