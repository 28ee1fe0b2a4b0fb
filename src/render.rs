use vstd::prelude::*;
use crate::model::{Note, NoteType, Segment};

verus! {

/// Full scale of a sample: samples are fixed-point, `ONE` standing for 1.0.
pub const ONE: i32 = 16_777_216;

/// Nanoseconds in a second.
pub const NANOS: i128 = 1_000_000_000;

/// Hits per second in the train that a roll or balloon plays.
pub const ROLL_RATE: i128 = 15;

pub open spec fn clamp_sample(x: int) -> int {
    if x < -ONE { -ONE as int } else if x > ONE { ONE as int } else { x }
}

/// Division rounded toward zero.
pub open spec fn trunc_div(x: int, d: int) -> int {
    if x >= 0 { x / d } else { -((-x) / d) }
}

/// A hit sample as it is added: raised by a fifth in a gogo section.
pub open spec fn scaled(s: int, gogo: bool) -> int {
    if gogo { trunc_div(s * 6, 5) } else { s }
}

/// One output sample after a hit sample is added to it.
pub open spec fn mixed(a: int, s: int, gogo: bool) -> int {
    clamp_sample(a + scaled(s, gogo))
}

/// A mixed sample never leaves the full-scale range, whatever was there and
/// whatever is added, in or out of a gogo section.
pub proof fn lemma_mix_in_range(a: int, s: int, gogo: bool)
    ensures
        -ONE <= mixed(a, s, gogo) <= ONE,
{
}

/// `out` with `sound` added from position `pos` on, as far as `out` reaches.
pub open spec fn mix_spec(out: Seq<i32>, sound: Seq<i32>, pos: int, gogo: bool) -> Seq<i32> {
    Seq::new(out.len(), |k: int|
        if pos <= k < pos + sound.len() { mixed(out[k] as int, sound[k - pos] as int, gogo) as i32 } else { out[k] })
}

/// Adds `sound` into `out` from position `pos`, each sum clamped to full scale;
/// stops at the end of `out`.
pub fn mix_into(out: &mut Vec<i32>, sound: &Vec<i32>, pos: usize, gogo: bool)
    ensures
        final(out)@ == mix_spec(old(out)@, sound@, pos as int, gogo),
{
    let mut j: usize = 0;
    let ghost start = out@;
    while j < sound.len() && pos < out.len() && j < out.len() - pos
        invariant
            out@.len() == start.len(),
            j <= sound@.len(),
            forall|k: int| 0 <= k < out@.len() ==> #[trigger] out@[k] == (
                if pos <= k < pos + j { mixed(start[k] as int, sound@[k - pos] as int, gogo) as i32 } else { start[k] }),
        decreases sound.len() - j,
    {
        let k = pos + j;
        let a: i64 = out[k] as i64;
        let s: i64 = sound[j] as i64;
        let add: i64 = if !gogo { s } else if s >= 0 { (s * 6) / 5 } else { -((-s * 6) / 5) };
        let sum: i64 = a + add;
        let v: i32 = if sum < -(ONE as i64) { -ONE } else if sum > (ONE as i64) { ONE } else { sum as i32 };
        out[k] = v;
        j = j + 1;
        assert(v == mixed(start[k as int] as int, sound@[k - pos] as int, gogo));
    }
    assert(out@ =~= mix_spec(start, sound@, pos as int, gogo));
}

/// Output length of a resampling from `from` to `to` Hz: `len * to / from`, rounded.
pub open spec fn resampled_len(len: int, from: int, to: int) -> int {
    (2 * len * to + from) / (2 * from)
}

/// Output sample `i` of a resampling: linear interpolation between the source
/// samples on either side of position `i * from / to`.
pub open spec fn resampled_at(s: Seq<i32>, from: int, to: int, i: int) -> int {
    let p = i * from;
    let f = if p / to < s.len() - 1 { p / to } else { s.len() - 1 };
    let c = if f + 1 < s.len() - 1 { f + 1 } else { s.len() - 1 };
    let r = p % to;
    trunc_div(s[f] * (to - r) + s[c] * r, to)
}

pub open spec fn resample_spec(s: Seq<i32>, from: int, to: int) -> Seq<i32> {
    if from == to {
        s
    } else if s.len() == 0 {
        Seq::empty()
    } else {
        Seq::new(resampled_len(s.len() as int, from, to) as nat, |i: int| resampled_at(s, from, to, i) as i32)
    }
}

/// Linearly resamples `samples` from `from_rate` to `to_rate`.
pub fn resample(samples: &Vec<i32>, from_rate: u32, to_rate: u32) -> (r: Vec<i32>)
    requires
        from_rate > 0 || from_rate == to_rate,
        resampled_len(samples@.len() as int, from_rate as int, to_rate as int) <= usize::MAX,
    ensures
        r@ == resample_spec(samples@, from_rate as int, to_rate as int),
{
    if from_rate == to_rate {
        return samples.clone();
    }
    let len = samples.len();
    if len == 0 {
        return Vec::new();
    }
    if to_rate == 0 {
        assert((2 * (len as int) * 0 + from_rate) / (2 * (from_rate as int)) == 0) by (nonlinear_arith)
            requires from_rate > 0;
        assert(resample_spec(samples@, from_rate as int, to_rate as int) =~= Seq::<i32>::empty());
        return Vec::new();
    }
    let from = from_rate as u128;
    let to = to_rate as u128;
    assert((len as int) * to <= 18446744073709551615 * 4294967295) by (nonlinear_arith)
        requires len <= 18446744073709551615, to <= 4294967295;
    assert(2 * (len as int) * to + from <= 2 * 18446744073709551615 * 4294967295 + 4294967295) by (nonlinear_arith)
        requires len <= 18446744073709551615, to <= 4294967295, from <= 4294967295;
    let new_len_wide: u128 = (2 * (len as u128) * to + from) / (2 * from);
    assert(new_len_wide <= 2 * (len as int) * to + from) by (nonlinear_arith)
        requires new_len_wide == (2 * (len as int) * to + from) / (2 * from), from > 0, len >= 0, to >= 0;
    let new_len = new_len_wide as usize;
    let mut out: Vec<i32> = Vec::new();
    let mut i: usize = 0;
    while i < new_len
        invariant
            len == samples@.len(),
            len >= 1,
            i <= new_len,
            new_len == resampled_len(len as int, from as int, to as int),
            from == from_rate, to == to_rate, from > 0, to > 0,
            out@.len() == i,
            forall|k: int| 0 <= k < i ==> #[trigger] out@[k] == resampled_at(samples@, from as int, to as int, k) as i32,
        decreases new_len - i,
    {
        assert((i as int) * from <= 18446744073709551615 * 4294967295) by (nonlinear_arith)
            requires i <= 18446744073709551615, from <= 4294967295;
        let p: u128 = (i as u128) * from;
        let q: u128 = p / to;
        let f: usize = if q < (len - 1) as u128 { q as usize } else { len - 1 };
        let c: usize = if f + 1 < len - 1 { f + 1 } else { len - 1 };
        let rem: u128 = p % to;
        let a: i128 = samples[f] as i128;
        let b: i128 = samples[c] as i128;
        assert(0 <= rem < to) by (nonlinear_arith) requires rem == p % to, to > 0;
        assert(-2147483648 * 4294967295 <= a * ((to - rem) as int) <= 2147483647 * 4294967295) by (nonlinear_arith)
            requires -2147483648 <= a <= 2147483647, 0 <= to - rem <= 4294967295;
        assert(-2147483648 * 4294967295 <= b * (rem as int) <= 2147483647 * 4294967295) by (nonlinear_arith)
            requires -2147483648 <= b <= 2147483647, 0 <= rem <= 4294967295;
        let num: i128 = a * ((to - rem) as i128) + b * (rem as i128);
        let v: i128 = if num >= 0 { num / (to as i128) } else { -((-num) / (to as i128)) };
        assert(samples@[f as int] * (to - rem) + samples@[c as int] * rem == a * ((to - rem) as int) + b * (rem as int));
        proof {
            lemma_interp_bounds(a as int, b as int, to as int, rem as int);
        }
        out.push(v as i32);
        i = i + 1;
    }
    assert(out@ =~= resample_spec(samples@, from_rate as int, to_rate as int));
    out
}

proof fn lemma_interp_bounds(a: int, b: int, to: int, r: int)
    requires
        i32::MIN <= a <= i32::MAX,
        i32::MIN <= b <= i32::MAX,
        0 <= r < to,
    ensures
        i32::MIN <= trunc_div(a * (to - r) + b * r, to) <= i32::MAX,
{
    assert(i32::MIN * to <= a * (to - r) + b * r <= i32::MAX * to) by (nonlinear_arith)
        requires i32::MIN <= a <= i32::MAX, i32::MIN <= b <= i32::MAX, 0 <= r < to;
    let x = a * (to - r) + b * r;
    if x >= 0 {
        assert(0 <= x / to <= i32::MAX) by (nonlinear_arith)
            requires 0 <= x <= i32::MAX * to, to > 0;
    } else {
        assert(0 <= (-x) / to <= -(i32::MIN as int)) by (nonlinear_arith)
            requires 0 <= -x <= -(i32::MIN * to), to > 0;
    }
}

/// Resampling to the same rate changes nothing, and doubling the rate doubles
/// the length and keeps every source sample at the even positions.
pub proof fn lemma_resample_identity_and_double(s: Seq<i32>, rate: int)
    requires
        rate > 0,
        s.len() > 0,
    ensures
        resample_spec(s, rate, rate) == s,
        resample_spec(s, rate, 2 * rate).len() == 2 * s.len(),
        forall|k: int| 0 <= k < s.len() ==> #[trigger] resample_spec(s, rate, 2 * rate)[2 * k] == s[k],
{
    let n = s.len() as int;
    assert((2 * n * (2 * rate) + rate) / (2 * rate) == 2 * n) by (nonlinear_arith)
        requires rate > 0, n >= 0;
    assert forall|k: int| 0 <= k < s.len() implies #[trigger] resample_spec(s, rate, 2 * rate)[2 * k] == s[k] by {
        let p = 2 * k * rate;
        assert(p / (2 * rate) == k && p % (2 * rate) == 0) by (nonlinear_arith)
            requires p == 2 * k * rate, rate > 0, k >= 0;
        let c = if k + 1 < n - 1 { k + 1 } else { n - 1 };
        let x = s[k] * (2 * rate - 0) + s[c] * 0;
        assert(trunc_div(x, 2 * rate) == s[k]) by (nonlinear_arith)
            requires rate > 0, x == s[k] * (2 * rate - 0) + s[c] * 0;
    }
}

/// Interleaves a left and a right channel into stereo frames; a mono source
/// passes the same channel twice.
pub fn interleave(left: &Vec<i32>, right: &Vec<i32>) -> (r: Vec<i32>)
    requires
        left@.len() == right@.len(),
    ensures
        r@.len() == 2 * left@.len(),
        forall|k: int| 0 <= k < left@.len() ==> #[trigger] r@[2 * k] == left@[k] && r@[2 * k + 1] == right@[k],
{
    let mut out: Vec<i32> = Vec::new();
    let mut i: usize = 0;
    while i < left.len()
        invariant
            left@.len() == right@.len(),
            i <= left@.len(),
            out@.len() == 2 * i,
            forall|k: int| 0 <= k < i ==> #[trigger] out@[2 * k] == left@[k] && out@[2 * k + 1] == right@[k],
        decreases left.len() - i,
    {
        let ghost prev = out@;
        out.push(left[i]);
        out.push(right[i]);
        assert forall|k: int| 0 <= k < i + 1 implies #[trigger] out@[2 * k] == left@[k] && out@[2 * k + 1] == right@[k] by {
            if k < i {
                assert(out@[2 * k] == prev[2 * k] && out@[2 * k + 1] == prev[2 * k + 1]);
            }
        }
        i = i + 1;
    }
    out
}

/// Which hit sound a hit plays.
#[derive(Clone, Copy, Debug, PartialEq, Eq, Structural)]
pub enum Sound {
    Don,
    Ka,
}

/// One hit to mix: where it starts in the interleaved output, which sound, and
/// whether it is in a gogo section.
#[derive(Clone, Copy, Debug, PartialEq, Eq, Structural)]
pub struct Hit {
    pub pos: usize,
    pub sound: Sound,
    pub gogo: bool,
}

/// The interleaved stereo position of time `ts` (nanoseconds) at `rate` Hz;
/// times before zero start at zero.
pub open spec fn frame_at(ts: int, rate: int) -> int {
    if ts <= 0 { 0 } else { (ts * rate / (NANOS as int)) * 2 }
}

/// The position of a hit, held to `limit` (where it would add nothing).
pub open spec fn hit_pos(ts: int, rate: int, limit: int) -> int {
    if frame_at(ts, rate) < limit { frame_at(ts, rate) } else { limit }
}

/// A segment plays under the branch filter: no filter, no branch, or the same one.
pub open spec fn passes(seg: Segment, branch: Option<Seq<char>>) -> bool {
    branch is None || seg.branch is None || seg.branch->0@ == branch->0
}

/// The time of the first end marker at or after note `i`.
pub open spec fn first_end(notes: Seq<Note>, i: int) -> Option<int>
    decreases notes.len() - i,
{
    if i < 0 || i >= notes.len() {
        None
    } else if notes[i].note_type == NoteType::EndOf {
        Some(notes[i].timestamp as int)
    } else {
        first_end(notes, i + 1)
    }
}

/// The time of the first end marker in the segments from `s` on that play.
pub open spec fn later_end(segs: Seq<Segment>, s: int, branch: Option<Seq<char>>) -> Option<int>
    decreases segs.len() - s,
{
    if s < 0 || s >= segs.len() {
        None
    } else if passes(segs[s], branch) && first_end(segs[s].notes@, 0) is Some {
        first_end(segs[s].notes@, 0)
    } else {
        later_end(segs, s + 1, branch)
    }
}

/// Where the sustained note `i` of segment `s` ends: the first end marker after
/// it in its segment, else in a later segment that plays.
pub open spec fn end_for(segs: Seq<Segment>, s: int, i: int, branch: Option<Seq<char>>) -> Option<int> {
    match first_end(segs[s].notes@, i + 1) {
        Some(t) => Some(t),
        None => later_end(segs, s + 1, branch),
    }
}

/// Hits in the train of a sustained note from `start` to `end`: 15 a second.
pub open spec fn roll_count(start: int, end: int) -> int {
    if end - start <= 0 { 0 } else { (end - start) * (ROLL_RATE as int) / (NANOS as int) }
}

/// The time of hit `h` of the train: the span split evenly, rounded down.
pub open spec fn roll_time(start: int, end: int, h: int) -> int {
    start + (end - start) * h / roll_count(start, end)
}

pub open spec fn roll_hits(start: int, end: int, gogo: bool, rate: int, limit: int) -> Seq<Hit> {
    Seq::new(roll_count(start, end) as nat, |h: int|
        Hit { pos: hit_pos(roll_time(start, end, h), rate, limit) as usize, sound: Sound::Don, gogo })
}

pub open spec fn is_sustained(t: NoteType) -> bool {
    t == NoteType::Roll || t == NoteType::RollBig || t == NoteType::Balloon || t == NoteType::BalloonAlt
}

/// The hits that note `i` of segment `s` plays.
pub open spec fn note_hits(segs: Seq<Segment>, s: int, i: int, branch: Option<Seq<char>>, rate: int, limit: int) -> Seq<Hit> {
    let n = segs[s].notes@[i];
    let pos = hit_pos(n.timestamp as int, rate, limit) as usize;
    if n.note_type == NoteType::Don || n.note_type == NoteType::DonBig {
        seq![Hit { pos, sound: Sound::Don, gogo: n.gogo }]
    } else if n.note_type == NoteType::Ka || n.note_type == NoteType::KaBig {
        seq![Hit { pos, sound: Sound::Ka, gogo: n.gogo }]
    } else if is_sustained(n.note_type) {
        match end_for(segs, s, i, branch) {
            Some(e) => roll_hits(n.timestamp as int, e, n.gogo, rate, limit),
            None => Seq::empty(),
        }
    } else {
        Seq::empty()
    }
}

/// The sustained notes, by time, whose end could not be found.
pub open spec fn note_missing(segs: Seq<Segment>, s: int, i: int, branch: Option<Seq<char>>) -> Seq<i64> {
    let n = segs[s].notes@[i];
    if is_sustained(n.note_type) && end_for(segs, s, i, branch) is None {
        seq![n.timestamp]
    } else {
        Seq::empty()
    }
}

/// The hits of the first `i` notes of segment `s`.
pub open spec fn segment_hits(segs: Seq<Segment>, s: int, i: int, branch: Option<Seq<char>>, rate: int, limit: int) -> Seq<Hit>
    decreases i,
{
    if i <= 0 {
        Seq::empty()
    } else {
        segment_hits(segs, s, i - 1, branch, rate, limit) + note_hits(segs, s, i - 1, branch, rate, limit)
    }
}

pub open spec fn segment_missing(segs: Seq<Segment>, s: int, i: int, branch: Option<Seq<char>>) -> Seq<i64>
    decreases i,
{
    if i <= 0 {
        Seq::empty()
    } else {
        segment_missing(segs, s, i - 1, branch) + note_missing(segs, s, i - 1, branch)
    }
}

/// The hits of the first `s` segments, those that play.
pub open spec fn chart_hits(segs: Seq<Segment>, s: int, branch: Option<Seq<char>>, rate: int, limit: int) -> Seq<Hit>
    decreases s,
{
    if s <= 0 {
        Seq::empty()
    } else if passes(segs[s - 1], branch) {
        chart_hits(segs, s - 1, branch, rate, limit) + segment_hits(segs, s - 1, segs[s - 1].notes@.len() as int, branch, rate, limit)
    } else {
        chart_hits(segs, s - 1, branch, rate, limit)
    }
}

pub open spec fn chart_missing(segs: Seq<Segment>, s: int, branch: Option<Seq<char>>) -> Seq<i64>
    decreases s,
{
    if s <= 0 {
        Seq::empty()
    } else if passes(segs[s - 1], branch) {
        chart_missing(segs, s - 1, branch) + segment_missing(segs, s - 1, segs[s - 1].notes@.len() as int, branch)
    } else {
        chart_missing(segs, s - 1, branch)
    }
}

pub open spec fn branch_view(b: Option<&String>) -> Option<Seq<char>> {
    match b {
        Some(s) => Some(s@),
        None => None,
    }
}

fn passes_exec(seg: &Segment, branch: Option<&String>) -> (r: bool)
    ensures
        r == passes(*seg, branch_view(branch)),
{
    match branch {
        None => true,
        Some(b) => match &seg.branch {
            None => true,
            Some(sb) => *sb == *b,
        },
    }
}

fn first_end_exec(notes: &Vec<Note>, from: usize) -> (r: Option<i64>)
    ensures
        match first_end(notes@, from as int) {
            Some(t) => r == Some(t as i64),
            None => r is None,
        },
        r matches Some(t) ==> first_end(notes@, from as int) == Some(t as int),
{
    let mut i: usize = from;
    while i < notes.len()
        invariant
            from <= i,
            first_end(notes@, from as int) == first_end(notes@, i as int),
        decreases notes.len() - i,
    {
        if notes[i].note_type == NoteType::EndOf {
            return Some(notes[i].timestamp);
        }
        i = i + 1;
    }
    None
}

/// Finds where the sustained note `i` of segment `s` ends.
pub fn find_end(segs: &Vec<Segment>, s: usize, i: usize, branch: Option<&String>) -> (r: Option<i64>)
    requires
        s < segs@.len(),
        i < segs@[s as int].notes@.len(),
    ensures
        match end_for(segs@, s as int, i as int, branch_view(branch)) {
            Some(t) => r == Some(t as i64),
            None => r is None,
        },
        r matches Some(t) ==> end_for(segs@, s as int, i as int, branch_view(branch)) == Some(t as int),
{
    let n = segs[s].notes.len();
    let total = segs.len();
    match first_end_exec(&segs[s].notes, i + 1) {
        Some(t) => {
            return Some(t);
        },
        None => {},
    }
    assert(end_for(segs@, s as int, i as int, branch_view(branch)) == later_end(segs@, s + 1, branch_view(branch)));
    let mut k: usize = s + 1;
    while k < segs.len()
        invariant
            s < k,
            s < segs@.len(),
            later_end(segs@, s + 1, branch_view(branch)) == later_end(segs@, k as int, branch_view(branch)),
            end_for(segs@, s as int, i as int, branch_view(branch)) == later_end(segs@, s + 1, branch_view(branch)),
        decreases segs.len() - k,
    {
        if passes_exec(&segs[k], branch) {
            match first_end_exec(&segs[k].notes, 0) {
                Some(t) => {
                    assert(later_end(segs@, k as int, branch_view(branch)) == first_end(segs@[k as int].notes@, 0));
                    return Some(t);
                },
                None => {},
            }
        }
        k = k + 1;
    }
    None
}

/// The position of time `ts` at `rate` Hz, held to `limit`.
pub fn hit_pos_exec(ts: i64, rate: u32, limit: usize) -> (r: usize)
    ensures
        r == hit_pos(ts as int, rate as int, limit as int),
{
    if ts <= 0 {
        return 0;
    }
    assert(0 <= (ts as int) * (rate as int) <= 9223372036854775807 * 4294967295) by (nonlinear_arith)
        requires 0 < ts <= 9223372036854775807, 0 <= rate <= 4294967295;
    let q: i128 = (ts as i128) * (rate as i128) / NANOS;
    assert(q <= 9223372036854775807 * 4294967295) by (nonlinear_arith)
        requires q == ((ts as int) * (rate as int)) / 1_000_000_000, 0 <= (ts as int) * (rate as int) <= 9223372036854775807 * 4294967295;
    let f: i128 = q * 2;
    if f < limit as i128 {
        f as usize
    } else {
        limit
    }
}

/// Appends the train of hits of a sustained note from `start` to `end`.
fn push_roll(hits: &mut Vec<Hit>, start: i64, end: i64, gogo: bool, rate: u32, limit: usize)
    ensures
        final(hits)@ == old(hits)@ + roll_hits(start as int, end as int, gogo, rate as int, limit as int),
{
    let dur: i128 = (end as i128) - (start as i128);
    if dur <= 0 {
        assert(roll_hits(start as int, end as int, gogo, rate as int, limit as int) =~= Seq::<Hit>::empty());
        assert(final(hits)@ =~= old(hits)@ + Seq::<Hit>::empty());
        return;
    }
    let count: i128 = dur * ROLL_RATE / NANOS;
    let ghost base = hits@;
    let mut h: i128 = 0;
    while h < count
        invariant
            0 <= h <= count,
            dur == end - start,
            0 < dur <= 2 * 9223372036854775808,
            count == roll_count(start as int, end as int),
            hits@ == base + roll_hits(start as int, end as int, gogo, rate as int, limit as int).take(h as int),
        decreases count - h,
    {
        assert(dur * h <= dur * count) by (nonlinear_arith) requires 0 <= h <= count, dur > 0;
        assert(count * 1_000_000_000 <= dur * 15) by (nonlinear_arith)
            requires count == dur * 15 / 1_000_000_000, dur > 0;
        assert(dur * count * 1_000_000_000 <= dur * dur * 15) by (nonlinear_arith)
            requires count * 1_000_000_000 <= dur * 15, dur > 0;
        assert(dur * dur <= (2 * 9223372036854775808) * (2 * 9223372036854775808)) by (nonlinear_arith)
            requires 0 < dur <= 2 * 9223372036854775808;
        assert(dur * h <= 170141183460469231731687303715884105727);
        let off: i128 = dur * h / count;
        assert(0 <= off <= dur) by (nonlinear_arith) requires off == ((dur * h) as int) / (count as int), 0 <= h <= count, count > 0, dur > 0;
        let t: i128 = (start as i128) + off;
        let ts: i64 = if t > (i64::MAX as i128) { i64::MAX } else { t as i64 };
        assert(t <= end);
        let pos = hit_pos_exec(ts, rate, limit);
        hits.push(Hit { pos, sound: Sound::Don, gogo });
        h = h + 1;
        assert(hits@ =~= base + roll_hits(start as int, end as int, gogo, rate as int, limit as int).take(h as int));
    }
    assert(roll_hits(start as int, end as int, gogo, rate as int, limit as int).take(count as int)
        =~= roll_hits(start as int, end as int, gogo, rate as int, limit as int));
}

/// Lists the hits that a chart's segments play under a branch filter, in
/// order, and the times of the sustained notes whose end was not found.
pub fn schedule(segs: &Vec<Segment>, branch: Option<&String>, rate: u32, limit: usize) -> (r: (Vec<Hit>, Vec<i64>))
    ensures
        r.0@ == chart_hits(segs@, segs@.len() as int, branch_view(branch), rate as int, limit as int),
        r.1@ == chart_missing(segs@, segs@.len() as int, branch_view(branch)),
{
    let ghost b = branch_view(branch);
    let mut hits: Vec<Hit> = Vec::new();
    let mut missing: Vec<i64> = Vec::new();
    let mut s: usize = 0;
    while s < segs.len()
        invariant
            s <= segs@.len(),
            b == branch_view(branch),
            hits@ == chart_hits(segs@, s as int, b, rate as int, limit as int),
            missing@ == chart_missing(segs@, s as int, b),
        decreases segs.len() - s,
    {
        if passes_exec(&segs[s], branch) {
            let notes = &segs[s].notes;
            let ghost h0 = hits@;
            let ghost m0 = missing@;
            let mut i: usize = 0;
            while i < notes.len()
                invariant
                    s < segs@.len(),
                    *notes == segs@[s as int].notes,
                    i <= notes@.len(),
                    b == branch_view(branch),
                    hits@ == h0 + segment_hits(segs@, s as int, i as int, b, rate as int, limit as int),
                    missing@ == m0 + segment_missing(segs@, s as int, i as int, b),
                decreases notes.len() - i,
            {
                let n = notes[i];
                let ghost hb = hits@;
                let ghost mb = missing@;
                let pos = hit_pos_exec(n.timestamp, rate, limit);
                match n.note_type {
                    NoteType::Don | NoteType::DonBig => {
                        hits.push(Hit { pos, sound: Sound::Don, gogo: n.gogo });
                    },
                    NoteType::Ka | NoteType::KaBig => {
                        hits.push(Hit { pos, sound: Sound::Ka, gogo: n.gogo });
                    },
                    NoteType::Roll | NoteType::RollBig | NoteType::Balloon | NoteType::BalloonAlt => {
                        match find_end(segs, s, i, branch) {
                            Some(e) => {
                                push_roll(&mut hits, n.timestamp, e, n.gogo, rate, limit);
                            },
                            None => {
                                missing.push(n.timestamp);
                            },
                        }
                    },
                    _ => {},
                }
                assert(n == segs@[s as int].notes@[i as int]);
                assert(pos == hit_pos(n.timestamp as int, rate as int, limit as int));
                assert(hits@ =~= hb + note_hits(segs@, s as int, i as int, b, rate as int, limit as int));
                assert(missing@ =~= mb + note_missing(segs@, s as int, i as int, b));
                i = i + 1;
                assert(hits@ =~= h0 + segment_hits(segs@, s as int, i as int, b, rate as int, limit as int));
                assert(missing@ =~= m0 + segment_missing(segs@, s as int, i as int, b));
            }
        }
        s = s + 1;
    }
    (hits, missing)
}

/// `out` with each hit mixed in, in order.
pub open spec fn apply_hits(out: Seq<i32>, don: Seq<i32>, ka: Seq<i32>, hits: Seq<Hit>) -> Seq<i32>
    decreases hits.len(),
{
    if hits.len() == 0 {
        out
    } else {
        let h = hits.last();
        mix_spec(
            apply_hits(out, don, ka, hits.drop_last()),
            if h.sound == Sound::Don { don } else { ka },
            h.pos as int,
            h.gogo,
        )
    }
}

/// Mixes each hit into a copy of `music`.
pub fn mix_hits(music: &Vec<i32>, don: &Vec<i32>, ka: &Vec<i32>, hits: &Vec<Hit>) -> (r: Vec<i32>)
    ensures
        r@ == apply_hits(music@, don@, ka@, hits@),
{
    let mut out = music.clone();
    let mut i: usize = 0;
    while i < hits.len()
        invariant
            i <= hits@.len(),
            out@ == apply_hits(music@, don@, ka@, hits@.take(i as int)),
        decreases hits.len() - i,
    {
        let h = hits[i];
        match h.sound {
            Sound::Don => mix_into(&mut out, don, h.pos, h.gogo),
            Sound::Ka => mix_into(&mut out, ka, h.pos, h.gogo),
        }
        assert(hits@.take(i + 1).drop_last() =~= hits@.take(i as int));
        i = i + 1;
    }
    assert(hits@.take(hits@.len() as int) =~= hits@);
    out
}

/// Renders a chart's hits onto the backing track: the hit sounds are first
/// resampled to the track's rate. Returns the mixed track and the times of the
/// sustained notes whose end was not found (they play nothing).
pub fn render(
    music: &Vec<i32>,
    music_rate: u32,
    don: &Vec<i32>,
    don_rate: u32,
    ka: &Vec<i32>,
    ka_rate: u32,
    segs: &Vec<Segment>,
    branch: Option<&String>,
) -> (r: (Vec<i32>, Vec<i64>))
    requires
        don_rate > 0 || don_rate == music_rate,
        ka_rate > 0 || ka_rate == music_rate,
        resampled_len(don@.len() as int, don_rate as int, music_rate as int) <= usize::MAX,
        resampled_len(ka@.len() as int, ka_rate as int, music_rate as int) <= usize::MAX,
    ensures
        r.0@ == apply_hits(
            music@,
            resample_spec(don@, don_rate as int, music_rate as int),
            resample_spec(ka@, ka_rate as int, music_rate as int),
            chart_hits(segs@, segs@.len() as int, branch_view(branch), music_rate as int, music@.len() as int),
        ),
        r.1@ == chart_missing(segs@, segs@.len() as int, branch_view(branch)),
{
    let don_r = resample(don, don_rate, music_rate);
    let ka_r = resample(ka, ka_rate, music_rate);
    let (hits, missing) = schedule(segs, branch, music_rate, music.len());
    (mix_hits(music, &don_r, &ka_r, &hits), missing)
}

/// A sustained note whose end marker comes two seconds later plays thirty hits
/// of the don sound, the first at the note's own time and hit `h` at
/// `h * 2 s / 30` after it.
pub proof fn lemma_two_second_roll(start: int, gogo: bool, rate: int, limit: int)
    ensures
        roll_hits(start, start + 2 * NANOS, gogo, rate, limit).len() == 30,
        forall|h: int| 0 <= h < 30 ==> #[trigger] roll_hits(start, start + 2 * NANOS, gogo, rate, limit)[h] == (Hit {
            pos: hit_pos(start + 2 * NANOS * h / 30, rate, limit) as usize,
            sound: Sound::Don,
            gogo,
        }),
        roll_hits(start, start + 2 * NANOS, gogo, rate, limit)[0].pos == hit_pos(start, rate, limit) as usize,
{
    assert(roll_count(start, start + 2 * NANOS) == 30);
    assert(2 * NANOS * 0 / 30 == 0);
}

/// A sustained note without an end marker after it, in its own segment or a
/// later one that plays, plays nothing and is reported.
pub proof fn lemma_missing_end_plays_nothing(segs: Seq<Segment>, s: int, i: int, branch: Option<Seq<char>>, rate: int, limit: int)
    requires
        0 <= s < segs.len(),
        0 <= i < segs[s].notes@.len(),
        is_sustained(segs[s].notes@[i].note_type),
        end_for(segs, s, i, branch) is None,
    ensures
        note_hits(segs, s, i, branch, rate, limit) == Seq::<Hit>::empty(),
        note_missing(segs, s, i, branch) == seq![segs[s].notes@[i].timestamp],
{
    let t = segs[s].notes@[i].note_type;
    assert(t != NoteType::Don && t != NoteType::DonBig && t != NoteType::Ka && t != NoteType::KaBig);
}

/// Hit `h` adds to position `k`.
pub open spec fn covers(h: Hit, don: Seq<i32>, ka: Seq<i32>, k: int) -> bool {
    let len = if h.sound == Sound::Don { don.len() } else { ka.len() };
    h.pos <= k < h.pos + len
}

/// However hits overlap, and in or out of gogo sections, every sample of the
/// track that some hit adds to ends in the full-scale range.
pub proof fn lemma_hits_stay_in_range(out: Seq<i32>, don: Seq<i32>, ka: Seq<i32>, hits: Seq<Hit>, k: int)
    requires
        0 <= k < out.len(),
        exists|j: int| 0 <= j < hits.len() && covers(#[trigger] hits[j], don, ka, k),
    ensures
        apply_hits(out, don, ka, hits).len() == out.len(),
        -ONE <= apply_hits(out, don, ka, hits)[k] <= ONE,
    decreases hits.len(),
{
    lemma_apply_len(out, don, ka, hits);
    let h = hits.last();
    let prev = apply_hits(out, don, ka, hits.drop_last());
    lemma_apply_len(out, don, ka, hits.drop_last());
    if covers(h, don, ka, k) {
        let snd = if h.sound == Sound::Don { don } else { ka };
        lemma_mix_in_range(prev[k] as int, snd[k - h.pos] as int, h.gogo);
    } else {
        let j = choose|j: int| 0 <= j < hits.len() && covers(#[trigger] hits[j], don, ka, k);
        assert(j < hits.len() - 1);
        assert(hits.drop_last()[j] == hits[j]);
        lemma_hits_stay_in_range(out, don, ka, hits.drop_last(), k);
    }
}

proof fn lemma_apply_len(out: Seq<i32>, don: Seq<i32>, ka: Seq<i32>, hits: Seq<Hit>)
    ensures
        apply_hits(out, don, ka, hits).len() == out.len(),
    decreases hits.len(),
{
    if hits.len() > 0 {
        lemma_apply_len(out, don, ka, hits.drop_last());
    }
}

} // verus!
