use vstd::prelude::*;
use crate::directives::{
    command_arg, command_name, directive_matches, directive_type, fraction_of, kind_of, parse_directive, player_of,
    type_of_kind, Directive, DirectiveKind, DirectiveType,
};
use crate::model::{lemma_sounding_has_no_rest, sounding, Chart, Header, Metadata, Note, NoteType, Segment};
use crate::balloon::cleaned_balloon;
use crate::number::{fixed_of, parse_fixed};
use crate::text::{chars_of, code_part, code_part_of, lines_of, normalize_line, normalized, string_of, trim, trim_chars};
use crate::timing::{all_valid_bpm, close_segment, valid_bpm, valid_measure};

verus! {

/// The mutable state of one parse.
#[derive(Debug)]
pub struct ParserState {
    pub bpm: i64,
    pub scroll: i64,
    pub gogo: bool,
    pub barline: bool,
    pub measure_num: i32,
    pub measure_den: i32,
    pub branch_active: bool,
    pub branch_condition: Option<String>,
    pub parsing_chart: bool,
    pub delay: i64,
    pub timestamp: i64,
}

impl ParserState {
    pub open spec fn wf(&self) -> bool {
        valid_bpm(self.bpm as int) && valid_measure(self.measure_num as int, self.measure_den as int)
    }

    /// A state at tempo `bpm` (in millionths), scroll 1, measure 4/4.
    pub fn new(bpm: i64) -> (r: ParserState)
        requires
            valid_bpm(bpm as int),
        ensures
            r.wf(),
            r.bpm == bpm,
            r.scroll == 1_000_000,
            !r.gogo,
            r.barline,
            r.measure_num == 4 && r.measure_den == 4,
            !r.branch_active,
            r.branch_condition is None,
            !r.parsing_chart,
            r.delay == 0,
            r.timestamp == 0,
    {
        ParserState {
            bpm,
            scroll: 1_000_000,
            gogo: false,
            barline: true,
            measure_num: 4,
            measure_den: 4,
            branch_active: false,
            branch_condition: None,
            parsing_chart: false,
            delay: 0,
            timestamp: 0,
        }
    }

    /// The current measure fraction, as numerator and denominator.
    pub fn measure(&self) -> (r: (i32, i32))
        ensures
            r == (self.measure_num, self.measure_den),
    {
        (self.measure_num, self.measure_den)
    }

    /// Applies a directive other than `Start`. Fails only where the cumulative
    /// delay would not fit in an `i64`.
    pub fn apply(&mut self, d: Directive) -> (r: Result<(), String>)
        requires
            old(self).wf(),
            !(d is Start),
            d matches Directive::BpmChange(v) ==> valid_bpm(v as int),
            d matches Directive::Measure(n, m) ==> valid_measure(n as int, m as int),
        ensures
            final(self).wf(),
            r is Err <==> (d matches Directive::Delay(v) && !(i64::MIN <= old(self).delay + v <= i64::MAX)),
            r is Err ==> *final(self) == *old(self),
            r is Ok ==> applied(*old(self), d, *final(self)),
            r matches Err(e) ==> e@ == "delay out of range"@,
    {
        match d {
            Directive::Start(_) => {},
            Directive::End => {
                self.parsing_chart = false;
                self.branch_active = false;
                self.branch_condition = None;
            },
            Directive::BpmChange(v) => {
                self.bpm = v;
            },
            Directive::Scroll(v) => {
                self.scroll = v;
            },
            Directive::GogoStart => {
                self.gogo = true;
            },
            Directive::GogoEnd => {
                self.gogo = false;
            },
            Directive::BarlineOff => {
                self.barline = false;
            },
            Directive::BarlineOn => {
                self.barline = true;
            },
            Directive::BranchStart(c) => {
                self.branch_active = true;
                self.branch_condition = Some(c);
            },
            Directive::BranchEnd => {
                self.branch_active = false;
                self.branch_condition = None;
            },
            Directive::Measure(n, m) => {
                self.measure_num = n;
                self.measure_den = m;
            },
            Directive::Delay(v) => {
                match self.delay.checked_add(v) {
                    Some(t) => {
                        self.delay = t;
                    },
                    None => {
                        return Err(string_of(&chars_of("delay out of range")));
                    },
                }
            },
            Directive::Section => {},
        }
        Ok(())
    }
}

/// `b` is the state `a` becomes under directive `d` (not `Start`).
pub open spec fn applied(a: ParserState, d: Directive, b: ParserState) -> bool {
    match d {
        Directive::Start(_) => b == a,
        Directive::End => b == ParserState { parsing_chart: false, branch_active: false, branch_condition: None, ..a },
        Directive::BpmChange(v) => b == ParserState { bpm: v, ..a },
        Directive::Scroll(v) => b == ParserState { scroll: v, ..a },
        Directive::GogoStart => b == ParserState { gogo: true, ..a },
        Directive::GogoEnd => b == ParserState { gogo: false, ..a },
        Directive::BarlineOff => b == ParserState { barline: false, ..a },
        Directive::BarlineOn => b == ParserState { barline: true, ..a },
        Directive::BranchStart(c) => b == ParserState { branch_active: true, branch_condition: Some(c), ..a },
        Directive::BranchEnd => b == ParserState { branch_active: false, branch_condition: None, ..a },
        Directive::Measure(n, m) => b == ParserState { measure_num: n, measure_den: m, ..a },
        Directive::Delay(v) => b == ParserState { delay: (a.delay + v) as i64, ..a },
        Directive::Section => b == a,
    }
}

/// The directive that a command reads as (`None` where it is unknown or its
/// argument unreadable), up to the text of a branch condition.
pub open spec fn reads_as(cmd: Seq<char>, d: Option<Directive>) -> bool {
    match kind_of(command_name(cmd)) {
        Some(k) => directive_matches(k, command_arg(cmd), d),
        None => d is None,
    }
}

/// An error that only an overflowing time or delay raises.
pub open spec fn overflow_error(e: Seq<char>) -> bool {
    e == "timestamp out of range"@ || e == "delay out of range"@
}

/// What a header list says: a later entry overrides an earlier one of the same key.
pub open spec fn header_map(h: Seq<Header>) -> Map<Seq<char>, Seq<char>>
    decreases h.len(),
{
    if h.len() == 0 {
        Map::empty()
    } else {
        header_map(h.drop_last()).insert(h.last().key@, h.last().value@)
    }
}

/// A segment that a chart may hold: its measure is valid and its notes have valid tempos.
pub open spec fn segment_ok(s: Segment) -> bool {
    valid_measure(s.measure_num as int, s.measure_den as int) && all_valid_bpm(s.notes@)
}

pub open spec fn no_rests(notes: Seq<Note>) -> bool {
    forall|i: int| 0 <= i < notes.len() ==> #[trigger] notes[i].note_type != NoteType::Empty
}

/// Every segment is sound, and every segment but the last, which is still open,
/// holds no rest.
pub open spec fn chart_ok(c: Chart) -> bool {
    &&& forall|i: int| 0 <= i < c.segments@.len() ==> segment_ok(#[trigger] c.segments@[i])
    &&& forall|i: int| 0 <= i < c.segments@.len() - 1 ==> no_rests(#[trigger] c.segments@[i].notes@)
}

pub open spec fn charts_ok(cs: Seq<Chart>) -> bool {
    forall|i: int| 0 <= i < cs.len() ==> chart_ok(#[trigger] cs[i])
}

fn error(msg: &str) -> (r: String)
    ensures
        r@ == msg@,
{
    string_of(&chars_of(msg))
}

fn segment_for(state: &ParserState) -> (r: Segment)
    requires
        state.wf(),
    ensures
        segment_ok(r),
        r.notes@.len() == 0,
        r.measure_num == state.measure_num,
        r.measure_den == state.measure_den,
        r.barline == state.barline,
        r.branch_active == state.branch_active,
        seg_view(r) == fresh_segment(sview(*state)),
{
    let branch = match &state.branch_condition {
        Some(c) => Some(c.clone()),
        None => None,
    };
    let r = Segment::new(state.measure_num, state.measure_den, state.barline, state.branch_active, branch);
    assert(r.notes@ =~= Seq::<Note>::empty());
    assert(seg_view(r).branch == fresh_segment(sview(*state)).branch);
    r
}

/// What a segment holds, as plain values.
pub struct SegmentView {
    pub measure_num: i32,
    pub measure_den: i32,
    pub barline: bool,
    pub branch_active: bool,
    pub branch: Option<Seq<char>>,
    pub notes: Seq<Note>,
}

pub open spec fn seg_view(s: Segment) -> SegmentView {
    SegmentView {
        measure_num: s.measure_num,
        measure_den: s.measure_den,
        barline: s.barline,
        branch_active: s.branch_active,
        branch: match s.branch {
            Some(b) => Some(b@),
            None => None,
        },
        notes: s.notes@,
    }
}

pub open spec fn seg_views(s: Seq<Segment>) -> Seq<SegmentView> {
    s.map_values(|x: Segment| seg_view(x))
}

/// The empty segment that the state opens.
pub open spec fn fresh_segment(st: StateView) -> SegmentView {
    SegmentView {
        measure_num: st.measure_num,
        measure_den: st.measure_den,
        barline: st.barline,
        branch_active: st.branch_active,
        branch: st.branch_condition,
        notes: Seq::empty(),
    }
}

/// The note that digit type `t` adds under the state.
pub open spec fn note_from(st: StateView, t: NoteType) -> Note {
    Note { note_type: t, timestamp: crate::model::UNRESOLVED, bpm: st.bpm, delay: st.delay, scroll: st.scroll, gogo: st.gogo }
}

/// Scanning progress: the cursor, the segments closed so far, the open segment.
pub type Scan = (int, Seq<SegmentView>, SegmentView);

/// One character of a note line: a comma closes the open segment (its notes
/// get their times and lose their rests; an empty one lasts a measure at the
/// state's tempo) and opens a fresh one; a digit adds a note; anything else
/// is ignored. `None` where a time would not fit in an `i64`.
pub open spec fn scan_step(st: StateView, a: Scan, c: char) -> Option<Scan> {
    let (cursor, closed, cur) = a;
    if c == ',' {
        let (num, den) = (cur.measure_num as int, cur.measure_den as int);
        if cur.notes.len() == 0 {
            let end = cursor + crate::timing::measure_len(st.bpm as int, num, den);
            if crate::timing::in_i64(end) { Some((end, closed.push(cur), fresh_segment(st))) } else { None }
        } else if crate::timing::measure_fits(cur.notes, cursor, num, den) {
            Some((
                crate::timing::cursor_after(cur.notes, cursor, num, den, cur.notes.len() as int),
                closed.push(SegmentView { notes: sounding(crate::timing::resolve_all(cur.notes, cursor, num, den)), ..cur }),
                fresh_segment(st),
            ))
        } else {
            None
        }
    } else {
        match crate::model::note_type_of(c) {
            Some(t) => Some((cursor, closed, SegmentView { notes: cur.notes.push(note_from(st, t)), ..cur })),
            None => Some(a),
        }
    }
}

/// Scanning the characters of `line` in order.
pub open spec fn scan_line(st: StateView, a: Scan, line: Seq<char>) -> Option<Scan>
    decreases line.len(),
{
    if line.len() == 0 {
        Some(a)
    } else {
        match scan_line(st, a, line.drop_last()) {
            Some(b) => scan_step(st, b, line.last()),
            None => None,
        }
    }
}

/// Where scanning of a chart starts: its segments but the last, which is the
/// open one (a fresh one where it has none).
pub open spec fn scan_start(st: StateView, segs: Seq<SegmentView>) -> Scan {
    if segs.len() == 0 {
        (st.timestamp as int, Seq::empty(), fresh_segment(st))
    } else {
        (st.timestamp as int, segs.drop_last(), segs.last())
    }
}

/// The parse state as plain values.
pub struct StateView {
    pub bpm: i64,
    pub scroll: i64,
    pub gogo: bool,
    pub barline: bool,
    pub measure_num: i32,
    pub measure_den: i32,
    pub branch_active: bool,
    pub branch_condition: Option<Seq<char>>,
    pub parsing_chart: bool,
    pub delay: i64,
    pub timestamp: i64,
}

pub open spec fn sview(s: ParserState) -> StateView {
    StateView {
        bpm: s.bpm,
        scroll: s.scroll,
        gogo: s.gogo,
        barline: s.barline,
        measure_num: s.measure_num,
        measure_den: s.measure_den,
        branch_active: s.branch_active,
        branch_condition: match s.branch_condition {
            Some(b) => Some(b@),
            None => None,
        },
        parsing_chart: s.parsing_chart,
        delay: s.delay,
        timestamp: s.timestamp,
    }
}

proof fn lemma_scan_none_stays(st: StateView, a: Scan, line: Seq<char>, i: int)
    requires
        0 <= i <= line.len(),
        scan_line(st, a, line.take(i)) is None,
    ensures
        scan_line(st, a, line) is None,
    decreases line.len() - i,
{
    if i < line.len() {
        assert(line.take(i + 1).drop_last() =~= line.take(i));
        lemma_scan_none_stays(st, a, line, i + 1);
    } else {
        assert(line.take(i) =~= line);
    }
}

/// Scans a line of note characters into the last chart. A comma closes the
/// open segment: its notes get their times and its rests are dropped. Does
/// nothing while no chart body is open.
pub fn scan_notes(state: &mut ParserState, charts: &mut Vec<Chart>, line: &[char]) -> (r: Result<(), String>)
    requires
        old(state).wf(),
        charts_ok(old(charts)@),
    ensures
        final(state).wf(),
        charts_ok(final(charts)@),
        old(charts)@.len() > 0 ==> final(charts)@.len() == old(charts)@.len(),
        r is Ok ==> final(charts)@.len() == old(charts)@.len(),
        !old(state).parsing_chart ==> r is Ok && *final(state) == *old(state) && final(charts)@ == old(charts)@,
        old(state).parsing_chart && old(charts)@.len() == 0 ==> (r matches Err(e) && e@ == "No current chart"@),
        r matches Err(e) ==> e@ == "timestamp out of range"@ || e@ == "No current chart"@,
        old(charts)@.len() > 0 && r is Err ==> (r matches Err(e) && e@ == "timestamp out of range"@),
        final(state).bpm == old(state).bpm,
        final(state).parsing_chart == old(state).parsing_chart,
        old(state).parsing_chart && old(charts)@.len() > 0 ==> match scan_line(
            sview(*old(state)),
            scan_start(sview(*old(state)), seg_views(old(charts)@.last().segments@)),
            line@,
        ) {
            None => r is Err,
            Some((cursor, closed, cur)) => {
                &&& r is Ok
                &&& *final(state) == (ParserState { timestamp: cursor as i64, ..*old(state) })
                &&& seg_views(final(charts)@.last().segments@) == closed.push(cur)
            },
        },
        r is Ok && old(state).parsing_chart ==> {
            let before = old(charts)@.last();
            let after = final(charts)@.last();
            &&& final(charts)@.drop_last() == old(charts)@.drop_last()
            &&& after.headers == before.headers
            &&& after.player == before.player
            &&& after.segments@.len() == (if before.segments@.len() == 0 { 1 } else { before.segments@.len() as int })
                + commas(line@)
        },
{
    if !state.parsing_chart {
        return Ok(());
    }
    let chart = match charts.pop() {
        Some(c) => c,
        None => {
            return Err(error("No current chart"));
        },
    };
    let ghost n = charts@.len();
    let ghost others = charts@;
    let ghost before = chart;
    assert(others == old(charts)@.drop_last());
    assert(chart_ok(chart)) by {
        assert(old(charts)@[n as int] == chart);
    }
    let Chart { headers, player, segments } = chart;
    let mut segs = segments;
    let ghost all = segs@;
    let mut cur = match segs.pop() {
        Some(s) => s,
        None => segment_for(state),
    };
    assert forall|j: int| 0 <= j < segs@.len() implies segment_ok(#[trigger] segs@[j]) && no_rests(segs@[j].notes@) by {
        assert(segs@[j] == all[j]);
    }
    let ghost start_len: int = if before.segments@.len() == 0 { 1 } else { before.segments@.len() as int };
    let ghost st0 = sview(*old(state));
    let ghost a0 = scan_start(st0, seg_views(before.segments@));
    assert(before == old(charts)@.last());
    proof {
        if before.segments@.len() > 0 {
            assert(seg_views(segs@) =~= seg_views(before.segments@).drop_last());
        }
        assert(line@.take(0) =~= Seq::<char>::empty());
    }
    let mut i: usize = 0;
    while i < line.len()
        invariant
            charts@ == others,
            old(charts)@.len() > 0,
            n + 1 == old(charts)@.len(),
            before == old(charts)@.last(),
            st0 == sview(*old(state)),
            a0 == scan_start(st0, seg_views(before.segments@)),
            i <= line@.len(),
            *state == (ParserState { timestamp: state.timestamp, ..*old(state) }),
            scan_line(st0, a0, line@.take(i as int)) == Some((state.timestamp as int, seg_views(segs@), seg_view(cur))),
            segs@.len() + 1 == start_len + commas(line@.take(i as int)),
            state.wf(),
            state.bpm == old(state).bpm,
            state.parsing_chart == old(state).parsing_chart,
            old(state).parsing_chart,
            segment_ok(cur),
            forall|j: int| 0 <= j < segs@.len() ==> segment_ok(#[trigger] segs@[j]) && no_rests(segs@[j].notes@),
            charts_ok(charts@),
            charts@.len() == n,
        decreases line.len() - i,
    {
        let c = line[i];
        let ghost sv = seg_views(segs@);
        let ghost cv = seg_view(cur);
        let ghost t0 = state.timestamp as int;
        proof {
            assert(line@.take(i + 1).drop_last() =~= line@.take(i as int));
            assert(line@.take(i + 1).last() == c);
            assert(scan_line(st0, a0, line@.take(i + 1)) == scan_step(st0, (t0, sv, cv), c));
        }
        if c == ',' {
            match close_segment(&cur.notes, state.timestamp, state.bpm, cur.measure_num, cur.measure_den) {
                None => {
                    proof {
                        assert(scan_step(st0, (t0, sv, cv), c) is None);
                        lemma_scan_none_stays(st0, a0, line@, i + 1);
                        assert(scan_line(st0, a0, line@) is None);
                    }
                    segs.push(cur);
                    charts.push(Chart { headers, player, segments: segs });
                    return Err(error("timestamp out of range"));
                },
                Some((kept, end)) => {
                    proof {
                        lemma_sounding_has_no_rest(crate::timing::resolve_all(cur.notes@, state.timestamp as int,
                            cur.measure_num as int, cur.measure_den as int));
                        lemma_sounding_bpm(crate::timing::resolve_all(cur.notes@, state.timestamp as int,
                            cur.measure_num as int, cur.measure_den as int));
                    }
                    state.timestamp = end;
                    let closed = Segment {
                        measure_num: cur.measure_num,
                        measure_den: cur.measure_den,
                        barline: cur.barline,
                        branch_active: cur.branch_active,
                        branch: cur.branch,
                        notes: kept,
                    };
                    let ghost closed_view = seg_view(closed);
                    segs.push(closed);
                    cur = segment_for(state);
                    proof {
                        assert(seg_views(segs@) =~= sv.push(closed_view));
                        assert(closed_view.notes == kept@);
                        if cv.notes.len() == 0 {
                            assert(kept@ =~= cv.notes);
                            assert(closed_view == cv);
                        } else {
                            assert(closed_view == (SegmentView {
                                notes: sounding(crate::timing::resolve_all(cv.notes, t0, cv.measure_num as int, cv.measure_den as int)),
                                ..cv
                            }));
                        }
                        assert(scan_step(st0, (t0, sv, cv), c) == Some((state.timestamp as int, seg_views(segs@), seg_view(cur))));
                    }
                },
            }
        } else {
            match NoteType::from_char(c) {
                Some(t) => {
                    let note = Note {
                        note_type: t,
                        timestamp: crate::model::UNRESOLVED,
                        bpm: state.bpm,
                        delay: state.delay,
                        scroll: state.scroll,
                        gogo: state.gogo,
                    };
                    cur.notes.push(note);
                    proof {
                        assert(seg_view(cur) == SegmentView { notes: cv.notes.push(note_from(st0, t)), ..cv });
                    }
                },
                None => {},
            }
        }
        i = i + 1;
    }
    assert(line@.take(line@.len() as int) =~= line@);
    let ghost sv = seg_views(segs@);
    let ghost cv = seg_view(cur);
    segs.push(cur);
    assert(seg_views(segs@) =~= sv.push(cv));
    let chart = Chart { headers, player, segments: segs };
    charts.push(chart);
    assert(charts@.drop_last() =~= others);
    Ok(())
}

/// The metadata that the lines of a text set: each line, its comment removed
/// and trimmed, that is `KEY: value` with `KEY` among `keys`, a later line
/// overriding an earlier one.
pub open spec fn metadata_entries(lines: Seq<Seq<char>>, keys: Seq<String>) -> Map<Seq<char>, Seq<char>>
    decreases lines.len(),
{
    if lines.len() == 0 {
        Map::empty()
    } else {
        let before = metadata_entries(lines.drop_last(), keys);
        let n = normalized(lines.last());
        if n.len() > 0 {
            match key_value_of(n) {
                Some((k, v)) => if has_key(keys, k) { before.insert(k, v) } else { before },
                None => before,
            }
        } else {
            before
        }
    }
}

/// How many commas (measure ends) a line holds.
pub open spec fn commas(s: Seq<char>) -> int
    decreases s.len(),
{
    if s.len() == 0 {
        0
    } else {
        commas(s.drop_last()) + if s.last() == ',' { 1int } else { 0int }
    }
}

proof fn lemma_sounding_bpm(s: Seq<Note>)
    ensures
        all_valid_bpm(s) ==> all_valid_bpm(sounding(s)),
    decreases s.len(),
{
    if s.len() > 0 {
        lemma_sounding_bpm(s.drop_last());
        if all_valid_bpm(s) {
            assert(all_valid_bpm(s.drop_last()));
        }
    }
}

/// The upper-case form of a string, as `str::to_uppercase` gives it.
pub uninterp spec fn upper_of(s: Seq<char>) -> Seq<char>;

/// Relies on `str::to_uppercase`: the result depends on the characters alone.
#[verifier::external_body]
fn to_upper(s: &str) -> (r: String)
    ensures
        r@ == upper_of(s@),
{
    s.to_uppercase()
}

/// The first position, at or after `i`, of a `:`; `s.len()` if there is none.
pub open spec fn colon_from(s: Seq<char>, i: int) -> int
    decreases s.len() - i,
{
    if i >= s.len() {
        s.len() as int
    } else if s[i] == ':' {
        i
    } else {
        colon_from(s, i + 1)
    }
}

/// The key (upper-cased) and value of a `KEY: value` line.
pub open spec fn key_value_of(line: Seq<char>) -> Option<(Seq<char>, Seq<char>)> {
    let k = colon_from(line, 0);
    if line.len() > 0 && line[0] == '#' {
        None
    } else if k >= line.len() {
        None
    } else if trim(line.take(k)).len() == 0 {
        None
    } else {
        Some((upper_of(trim(line.take(k))), trim(line.skip(k + 1))))
    }
}

pub open spec fn has_key(keys: Seq<String>, k: Seq<char>) -> bool {
    exists|i: int| 0 <= i < keys.len() && (#[trigger] keys[i])@ == k
}

fn find_key(keys: &Vec<String>, k: &String) -> (r: bool)
    ensures
        r == has_key(keys@, k@),
{
    let mut i: usize = 0;
    while i < keys.len()
        invariant
            i <= keys@.len(),
            forall|j: int| 0 <= j < i ==> (#[trigger] keys@[j])@ != k@,
        decreases keys.len() - i,
    {
        if keys[i] == *k {
            return true;
        }
        i = i + 1;
    }
    false
}

fn key_list(names: &[&str]) -> (r: Vec<String>)
    ensures
        r@.len() == names@.len(),
        forall|i: int| 0 <= i < names@.len() ==> (#[trigger] r@[i])@ == names@[i]@,
{
    let mut r: Vec<String> = Vec::new();
    let mut i: usize = 0;
    while i < names.len()
        invariant
            i <= names@.len(),
            r@.len() == i,
            forall|j: int| 0 <= j < i ==> (#[trigger] r@[j])@ == names@[j]@,
        decreases names.len() - i,
    {
        r.push(string_of(&chars_of(names[i])));
        i = i + 1;
    }
    r
}

fn copy_headers(h: &Vec<Header>, into: &mut Vec<Header>)
    ensures
        final(into)@.len() == old(into)@.len() + h@.len(),
        header_map(final(into)@) == header_map(old(into)@).union_prefer_right(header_map(h@)),
{
    let mut i: usize = 0;
    let ghost base = into@;
    while i < h.len()
        invariant
            i <= h@.len(),
            into@.len() == base.len() + i,
            header_map(into@) == header_map(base).union_prefer_right(header_map(h@.take(i as int))),
        decreases h.len() - i,
    {
        let e = Header { key: h[i].key.clone(), value: h[i].value.clone() };
        let ghost prev = into@;
        into.push(e);
        proof {
            assert(h@.take(i + 1).drop_last() =~= h@.take(i as int));
            assert(into@.drop_last() =~= prev);
        }
        i = i + 1;
        proof {
            let a = header_map(base);
            let b = header_map(h@.take(i - 1));
            assert(header_map(into@) =~= a.union_prefer_right(b).insert(e.key@, e.value@));
            assert(header_map(h@.take(i as int)) == b.insert(e.key@, e.value@));
            assert(a.union_prefer_right(b.insert(e.key@, e.value@)) =~= a.union_prefer_right(b).insert(e.key@, e.value@));
        }
    }
    assert(h@.take(h@.len() as int) =~= h@);
}

/// The value of `key` in a header list, the last entry winning.
pub fn lookup(h: &Vec<Header>, key: &str) -> (r: Option<String>)
    ensures
        header_map(h@).contains_key(key@) <==> r is Some,
        r matches Some(v) ==> header_map(h@)[key@] == v@,
{
    let k = string_of(&chars_of(key));
    let mut found: Option<String> = None;
    let mut i: usize = 0;
    while i < h.len()
        invariant
            i <= h@.len(),
            k@ == key@,
            header_map(h@.take(i as int)).contains_key(key@) <==> found is Some,
            found matches Some(v) ==> header_map(h@.take(i as int))[key@] == v@,
        decreases h.len() - i,
    {
        assert(h@.take(i + 1).drop_last() =~= h@.take(i as int));
        if h[i].key == k {
            found = Some(h[i].value.clone());
        }
        i = i + 1;
    }
    assert(h@.take(h@.len() as int) =~= h@);
    found
}

/// The key, upper-cased, and the value of a `KEY: value` line.
pub fn parse_metadata_or_header(line: &[char]) -> (r: Option<(String, String)>)
    ensures
        match key_value_of(line@) {
            Some((k, v)) => r matches Some((rk, rv)) && rk@ == k && rv@ == v,
            None => r is None,
        },
{
    if line.len() > 0 && line[0] == '#' {
        return None;
    }
    let mut k: usize = 0;
    while k < line.len() && line[k] != ':'
        invariant
            k <= line@.len(),
            colon_from(line@, 0) == colon_from(line@, k as int),
        decreases line.len() - k,
    {
        k = k + 1;
    }
    if k >= line.len() {
        return None;
    }
    let mut left: Vec<char> = Vec::new();
    let mut i: usize = 0;
    while i < k
        invariant
            k < line@.len(),
            i <= k,
            left@ == line@.take(i as int),
        decreases k - i,
    {
        left.push(line[i]);
        i = i + 1;
        assert(left@ =~= line@.take(i as int));
    }
    let mut right: Vec<char> = Vec::new();
    let mut j: usize = k + 1;
    while j < line.len()
        invariant
            k < line@.len(),
            k + 1 <= j <= line@.len(),
            right@ == line@.subrange(k + 1, j as int),
        decreases line.len() - j,
    {
        right.push(line[j]);
        j = j + 1;
        assert(right@ =~= line@.subrange(k + 1, j as int));
    }
    assert(right@ =~= line@.skip(k + 1));
    let key = trim_chars(left.as_slice());
    if key.len() == 0 {
        return None;
    }
    let value = trim_chars(right.as_slice());
    let ks = string_of(&key);
    Some((to_upper(ks.as_str()), string_of(&value)))
}

/// A parsed chart file: its metadata and its charts.
#[derive(Clone, Debug)]
pub struct ParsedTJA {
    pub metadata: Metadata,
    pub charts: Vec<Chart>,
}

/// The tempo a chart has where its metadata gives none, in millionths.
pub const DEFAULT_BPM: i64 = 120_000_000;

/// The tempo that a metadata list sets: its `BPM` where that reads as a valid tempo.
pub open spec fn metadata_bpm(m: Map<Seq<char>, Seq<char>>) -> int {
    if m.contains_key("BPM"@) {
        match fixed_of(m["BPM"@]) {
            Some(v) => if valid_bpm(v) { v } else { DEFAULT_BPM as int },
            None => DEFAULT_BPM as int,
        }
    } else {
        DEFAULT_BPM as int
    }
}

/// The offset that a metadata list sets, in nanoseconds; 0 where none reads.
pub open spec fn metadata_offset(m: Map<Seq<char>, Seq<char>>) -> int {
    if m.contains_key("OFFSET"@) {
        match fixed_of(m["OFFSET"@]) {
            Some(v) => v * 1000,
            None => 0,
        }
    } else {
        0
    }
}

pub open spec fn offset_ok(x: int) -> bool {
    -1_000_000_000_000_000_000 < x < 1_000_000_000_000_000_000
}

impl Metadata {
    pub fn new(entries: Vec<Header>) -> (r: Metadata)
        ensures
            r.entries@ == entries@,
            r.bpm == metadata_bpm(header_map(entries@)),
            r.offset == metadata_offset(header_map(entries@)),
            valid_bpm(r.bpm as int),
            offset_ok(r.offset as int),
    {
        let bpm: i64 = match lookup(&entries, "BPM") {
            Some(v) => {
                let cs = chars_of(v.as_str());
                match parse_fixed(cs.as_slice()) {
                    Some(b) => if 0 < b { b } else { DEFAULT_BPM },
                    None => DEFAULT_BPM,
                }
            },
            None => DEFAULT_BPM,
        };
        let offset: i64 = match lookup(&entries, "OFFSET") {
            Some(v) => {
                let cs = chars_of(v.as_str());
                match parse_fixed(cs.as_slice()) {
                    Some(o) => o * 1000,
                    None => 0,
                }
            },
            None => 0,
        };
        Metadata { entries, bpm, offset }
    }
}

impl Default for TJAParser {
    fn default() -> (r: TJAParser)
        ensures
            r.wf(),
            r.charts_view().len() == 0,
            r.metadata_view() is None,
    {
        TJAParser::new()
    }
}

/// The chart parser: metadata, the charts read so far, and the parse state.
#[derive(Debug)]
pub struct TJAParser {
    metadata: Option<Metadata>,
    charts: Vec<Chart>,
    state: Option<ParserState>,
    inherited_headers: Vec<Header>,
    current_headers: Vec<Header>,
    metadata_keys: Vec<String>,
    header_keys: Vec<String>,
    inheritable_header_keys: Vec<String>,
}

impl TJAParser {
    pub closed spec fn wf(&self) -> bool {
        &&& self.state matches Some(st) ==> st.wf()
        &&& self.state matches Some(st) ==> (st.parsing_chart ==> self.charts@.len() > 0)
        &&& self.state is Some ==> self.metadata is Some
        &&& self.metadata matches Some(m) ==> valid_bpm(m.bpm as int) && offset_ok(m.offset as int)
        &&& charts_ok(self.charts@)
    }

    pub closed spec fn charts_view(&self) -> Seq<Chart> {
        self.charts@
    }

    pub closed spec fn metadata_view(&self) -> Option<Metadata> {
        self.metadata
    }

    pub closed spec fn keys_view(&self) -> (Seq<String>, Seq<String>, Seq<String>) {
        (self.metadata_keys@, self.header_keys@, self.inheritable_header_keys@)
    }

    /// The parse as plain values (its state read where there is one).
    pub closed spec fn model(&self) -> ParseModel {
        ParseModel {
            state: sview(self.state->0),
            charts: chart_views(self.charts@),
            inherited: header_map(self.inherited_headers@),
            current: header_map(self.current_headers@),
        }
    }

    /// The current and the inherited headers, as maps.
    pub closed spec fn header_maps(&self) -> (Map<Seq<char>, Seq<char>>, Map<Seq<char>, Seq<char>>) {
        (header_map(self.current_headers@), header_map(self.inherited_headers@))
    }

    pub closed spec fn offset_view(&self) -> int {
        self.metadata->0.offset as int
    }

    pub closed spec fn state_view(&self) -> Option<ParserState> {
        self.state
    }

    /// The inherited and the current headers.
    pub closed spec fn headers_view(&self) -> (Seq<Header>, Seq<Header>) {
        (self.inherited_headers@, self.current_headers@)
    }

    pub fn new() -> (r: TJAParser)
        ensures
            r.wf(),
            r.charts_view().len() == 0,
            r.metadata_view() is None,
            r.state_view() is None,
            r.headers_view().0.len() == 0,
            r.headers_view().1.len() == 0,
            key_names(r.keys_view().0) == metadata_key_names(),
            key_names(r.keys_view().1) == header_key_names(),
            key_names(r.keys_view().2) == inheritable_key_names(),
    {
        let metadata_keys = key_list(
            &["TITLE", "SUBTITLE", "WAVE", "BPM", "OFFSET", "DEMOSTART", "GENRE", "MAKER", "SONGVOL", "SEVOL", "SCOREMODE"],
        );
        let header_keys = key_list(&["COURSE", "LEVEL", "BALLOON", "SCOREINIT", "SCOREDIFF", "STYLE"]);
        let inheritable_header_keys = key_list(&["COURSE", "LEVEL", "SCOREINIT", "SCOREDIFF"]);
        assert(key_names(metadata_keys@) =~= metadata_key_names());
        assert(key_names(header_keys@) =~= header_key_names());
        assert(key_names(inheritable_header_keys@) =~= inheritable_key_names());
        TJAParser {
            metadata: None,
            charts: Vec::new(),
            state: None,
            inherited_headers: Vec::new(),
            current_headers: Vec::new(),
            metadata_keys,
            header_keys,
            inheritable_header_keys,
        }
    }

    /// Files a `KEY: value` line: a metadata key into `metadata_dict`, a header
    /// key into the current headers (and the inherited ones where it is
    /// inheritable). Other lines are left alone.
    fn handle_metadata_or_header(&mut self, line: &[char], metadata_dict: &mut Vec<Header>)
        requires
            old(self).wf(),
        ensures
            final(self).wf(),
            final(self).charts@ == old(self).charts@,
            final(self).metadata == old(self).metadata,
            final(self).keys_view() == old(self).keys_view(),
            match key_value_of(line@) {
                Some((k, v)) => if has_key(old(self).metadata_keys@, k) {
                    header_map(final(metadata_dict)@) == header_map(old(metadata_dict)@).insert(k, v)
                } else {
                    final(metadata_dict)@ == old(metadata_dict)@
                },
                None => final(metadata_dict)@ == old(metadata_dict)@,
            },
            match key_value_of(line@) {
                Some((k, v)) => if !has_key(old(self).metadata_keys@, k) && has_key(old(self).header_keys@, k) {
                    &&& header_map(final(self).current_headers@) == header_map(old(self).current_headers@).insert(
                        k,
                        if k == "BALLOON"@ { cleaned_balloon(v) } else { v },
                    )
                    &&& if has_key(old(self).inheritable_header_keys@, k) {
                        header_map(final(self).inherited_headers@) == header_map(old(self).inherited_headers@).insert(k, v)
                    } else {
                        final(self).inherited_headers@ == old(self).inherited_headers@
                    }
                } else {
                    final(self).headers_view() == old(self).headers_view()
                },
                None => final(self).headers_view() == old(self).headers_view(),
            },
            final(self).state == old(self).state,
    {
        match parse_metadata_or_header(line) {
            None => {},
            Some((key, value)) => {
                if find_key(&self.metadata_keys, &key) {
                    let ghost prev = metadata_dict@;
                    metadata_dict.push(Header { key, value });
                    assert(metadata_dict@.drop_last() =~= prev);
                } else if find_key(&self.header_keys, &key) {
                    let inheritable = find_key(&self.inheritable_header_keys, &key);
                    if inheritable {
                        let ghost prev = self.inherited_headers@;
                        self.inherited_headers.push(Header { key: key.clone(), value: value.clone() });
                        assert(self.inherited_headers@.drop_last() =~= prev);
                    }
                    let is_balloon = key == string_of(&chars_of("BALLOON"));
                    let v = if is_balloon {
                        let cs = chars_of(value.as_str());
                        string_of(&crate::balloon::clean_balloon(cs.as_slice()))
                    } else {
                        value
                    };
                    let ghost prev = self.current_headers@;
                    self.current_headers.push(Header { key, value: v });
                    assert(self.current_headers@.drop_last() =~= prev);
                }
            },
        }
    }

    /// Applies a directive command (the text after `#`). Unknown directives are
    /// ignored.
    fn process_directive(&mut self, command: &[char]) -> (r: Result<(), String>)
        requires
            old(self).wf(),
        ensures
            final(self).wf(),
            final(self).metadata == old(self).metadata,
            final(self).keys_view() == old(self).keys_view(),
            kind_of(command_name(command@)) is None ==> r is Ok && final(self).charts@ == old(self).charts@,
            final(self).headers_view() == old(self).headers_view(),
            old(self).state is None ==> final(self).state is None && final(self).charts@ == old(self).charts@
                && (r matches Err(e) ==> e@ == "Parser state not initialized"@),
            old(self).state is Some ==> match directive_model(old(self).model(), command@, old(self).offset_view()) {
                None => r is Err && final(self).model() == old(self).model(),
                Some(m) => r is Ok && final(self).model() == m,
            },
            old(self).state is Some ==> final(self).state is Some,
            old(self).state is Some ==> (r matches Err(e) ==> overflow_error(e@)),
            exists|d: Option<Directive>| #[trigger] reads_as(command@, d) && match d {
                None => r is Ok && final(self).charts@ == old(self).charts@ && final(self).state == old(self).state,
                Some(Directive::Start(_)) => true,
                Some(dd) => match old(self).state {
                    None => r is Err && final(self).charts@ == old(self).charts@,
                    Some(st) => {
                        &&& final(self).charts@ == old(self).charts@
                        &&& r is Err <==> (dd matches Directive::Delay(v) && !(i64::MIN <= st.delay + v <= i64::MAX))
                        &&& r is Err ==> final(self).state == old(self).state
                        &&& r is Ok ==> (final(self).state matches Some(ns) && applied(st, dd, ns))
                    },
                },
            },
            kind_of(command_name(command@)) == Some(DirectiveKind::Start) ==> match old(self).state {
                None => r is Err,
                Some(st) => {
                    &&& r is Ok
                    &&& final(self).charts@.len() == old(self).charts@.len() + 1
                    &&& final(self).charts@.drop_last() == old(self).charts@
                    &&& final(self).charts@.last().player == player_of(command_arg(command@))
                    &&& final(self).charts@.last().segments@.len() == 0
                    &&& header_map(final(self).charts@.last().headers@) == header_map(old(self).inherited_headers@)
                        .union_prefer_right(header_map(old(self).current_headers@))
                    &&& final(self).state == Some(ParserState {
                        parsing_chart: true,
                        timestamp: -(old(self).metadata->0.offset) as i64,
                        ..st
                    })
                },
            },
    {
        let parsed = parse_directive(command);
        let ghost m_start = self.model();
        assert(reads_as(command@, parsed));
        match parsed {
            None => {
                proof {
                    lemma_directive_none(self.model(), command@, self.offset_view());
                }
                Ok(())
            },
            Some(d) => {
                let offset = match &self.metadata {
                    Some(m) => m.offset,
                    None => 0,
                };
                match &mut self.state {
                    None => Err(error("Parser state not initialized")),
                    Some(state) => {
                        match d {
                            Directive::Start(player) => {
                                let mut merged: Vec<Header> = Vec::new();
                                copy_headers(&self.inherited_headers, &mut merged);
                                copy_headers(&self.current_headers, &mut merged);
                                let chart = Chart { headers: merged, player, segments: Vec::new() };
                                let ghost prev = self.charts@;
                                self.charts.push(chart);
                                assert(self.charts@.drop_last() =~= prev);
                                assert forall|i: int| 0 <= i < self.charts@.len() implies chart_ok(#[trigger] self.charts@[i]) by {
                                    if i < prev.len() {
                                        assert(self.charts@[i] == prev[i]);
                                    }
                                }
                                state.parsing_chart = true;
                                state.timestamp = -offset;
                                proof {
                                    assert(header_map(Seq::<Header>::empty()) =~= Map::<Seq<char>, Seq<char>>::empty());
                                    assert(Map::<Seq<char>, Seq<char>>::empty().union_prefer_right(
                                        header_map(self.inherited_headers@),
                                    ) =~= header_map(self.inherited_headers@));
                                    assert(seg_views(Seq::<Segment>::empty()) =~= Seq::<SegmentView>::empty());
                                    assert(chart_views(self.charts@) =~= chart_views(prev).push(chart_view(self.charts@.last())));
                                }
                                Ok(())
                            },
                            _ => {
                                let ghost st = *state;
                                let r = state.apply(d);
                                proof {
                                    lemma_directive_step(m_start, command@, offset as int, d, st, *state, r is Ok);
                                }
                                r
                            },
                        }
                    },
                }
            },
        }
    }

    /// Scans a line of notes into the current chart.
    fn process_notes(&mut self, notes: &[char]) -> (r: Result<(), String>)
        requires
            old(self).wf(),
        ensures
            final(self).wf(),
            final(self).metadata == old(self).metadata,
            final(self).keys_view() == old(self).keys_view(),
            final(self).headers_view() == old(self).headers_view(),
            r matches Err(e) ==> e@ == "timestamp out of range"@ || e@ == "Parser state not initialized"@
                || e@ == "No current chart"@,
            old(self).state is Some ==> final(self).state is Some,
            old(self).state is Some ==> (r matches Err(e) ==> overflow_error(e@)),
            old(self).state is Some ==> match notes_model(old(self).model(), notes@) {
                None => r is Err,
                Some(m) => r is Ok && final(self).model() == m,
            },
            match old(self).state {
                None => (r matches Err(e) && e@ == "Parser state not initialized"@) && final(self).charts@ == old(self).charts@
                    && final(self).state is None,
                Some(st) => if !st.parsing_chart {
                    r is Ok && final(self).charts@ == old(self).charts@ && final(self).state == old(self).state
                } else if old(self).charts@.len() == 0 {
                    r is Err
                } else {
                    match scan_line(sview(st), scan_start(sview(st), seg_views(old(self).charts@.last().segments@)), notes@) {
                        None => (r matches Err(e) && e@ == "timestamp out of range"@),
                        Some((cursor, closed, cur)) => {
                            &&& r is Ok
                            &&& final(self).state == Some(ParserState { timestamp: cursor as i64, ..st })
                            &&& seg_views(final(self).charts@.last().segments@) == closed.push(cur)
                            &&& final(self).charts@.len() == old(self).charts@.len()
                            &&& final(self).charts@.drop_last() == old(self).charts@.drop_last()
                            &&& final(self).charts@.last().headers == old(self).charts@.last().headers
                            &&& final(self).charts@.last().player == old(self).charts@.last().player
                        },
                    }
                },
            },
    {
        let ghost before = *self;
        let r = match &mut self.state {
            None => Err(error("Parser state not initialized")),
            Some(state) => scan_notes(state, &mut self.charts, notes),
        };
        proof {
            if before.state is Some && before.state->0.parsing_chart && before.charts@.len() > 0 {
                let st = before.state->0;
                let oc = chart_views(before.charts@);
                match scan_line(sview(st), scan_start(sview(st), seg_views(before.charts@.last().segments@)), notes@) {
                    Some((cursor, closed, cur)) => {
                        let n = before.charts@.len() - 1;
                        assert(oc.last() == chart_view(before.charts@.last()));
                        assert forall|i: int| 0 <= i < n implies #[trigger] chart_views(self.charts@)[i] == oc[i] by {
                            assert(self.charts@.drop_last()[i] == before.charts@.drop_last()[i]);
                        }
                        assert(chart_views(self.charts@) =~= oc.update(n, ChartView { segments: closed.push(cur), ..oc.last() }));
                    },
                    None => {},
                }
            }
        }
        r
    }

    /// Replays buffered lines in order: directives (starting with `#`) and notes.
    fn process_notes_buffer(&mut self, buffer: &Vec<Vec<char>>) -> (r: Result<(), String>)
        requires
            old(self).wf(),
        ensures
            final(self).wf(),
            final(self).metadata == old(self).metadata,
            final(self).keys_view() == old(self).keys_view(),
            old(self).state is Some ==> final(self).state is Some,
            old(self).state is Some ==> (r matches Err(e) ==> overflow_error(e@)),
            old(self).state is Some ==> match replay(old(self).model(), buffer_views(buffer@), old(self).offset_view()) {
                None => r is Err,
                Some(m) => r is Ok && final(self).model() == m,
            },
    {
        let ghost m0 = self.model();
        let ghost bv = buffer_views(buffer@);
        let mut i: usize = 0;
        assert(bv.take(0) =~= Seq::<Seq<char>>::empty());
        while i < buffer.len()
            invariant
                self.wf(),
                self.metadata == old(self).metadata,
                self.keys_view() == old(self).keys_view(),
                old(self).state is Some ==> self.state is Some,
                i <= buffer@.len(),
                bv == buffer_views(buffer@),
                m0 == old(self).model(),
                self.offset_view() == old(self).offset_view(),
                old(self).state is Some ==> replay(m0, bv.take(i as int), self.offset_view()) == Some(self.model()),
            decreases buffer.len() - i,
        {
            proof {
                assert(bv.take(i + 1).drop_last() =~= bv.take(i as int));
                assert(bv.take(i + 1).last() == buffer@[i as int]@);
            }
            let line = &buffer[i];
            if line.len() > 0 && line[0] == '#' {
                let cmd = after_hash(line);
                let r = self.process_directive(cmd.as_slice());
                if r.is_err() {
                    proof {
                        if old(self).state is Some {
                            lemma_replay_none_stays(m0, bv, self.offset_view(), i + 1);
                        }
                    }
                    return r;
                }
            } else {
                let r = self.process_notes(line.as_slice());
                if r.is_err() {
                    proof {
                        if old(self).state is Some {
                            lemma_replay_none_stays(m0, bv, self.offset_view(), i + 1);
                        }
                    }
                    return r;
                }
            }
            i = i + 1;
        }
        assert(bv.take(buffer@.len() as int) =~= bv);
        Ok(())
    }

    /// Parses chart text: metadata first, then the chart bodies.
    #[verifier::rlimit(100)]
    pub fn parse_str(&mut self, content: &str) -> (r: Result<(), String>)
        requires
            old(self).wf(),
        ensures
            final(self).wf(),
            charts_ok(final(self).charts_view()),
            r is Ok ==> final(self).metadata_view() is Some,
            r matches Err(e) ==> overflow_error(e@),
            r is Ok ==> final(self).metadata_view()->0.bpm == metadata_bpm(
                metadata_entries(lines_of(content@), old(self).keys_view().0),
            ),
            r is Ok ==> final(self).metadata_view()->0.offset == metadata_offset(
                metadata_entries(lines_of(content@), old(self).keys_view().0),
            ),
            final(self).keys_view() == old(self).keys_view(),
            r is Ok <==> parse_model(
                old(self).keys_view(),
                chart_views(old(self).charts_view()),
                old(self).header_maps(),
                content@,
            ) is Some,
            r is Ok ==> final(self).model() == parse_model(
                old(self).keys_view(),
                chart_views(old(self).charts_view()),
                old(self).header_maps(),
                content@,
            )->0,
            r is Ok ==> chart_views(final(self).charts_view()) == parse_model(
                old(self).keys_view(),
                chart_views(old(self).charts_view()),
                old(self).header_maps(),
                content@,
            )->0.charts,
    {
        let ghost keys = self.keys_view();
        let ghost h0 = self.header_maps();
        let ghost lines_spec = lines_of(content@);
        let text = chars_of(content);
        let lines = crate::text::split_lines(text.as_slice());
        let mut metadata_dict: Vec<Header> = Vec::new();
        let mut i: usize = 0;
        while i < lines.len()
            invariant
                self.wf(),
                self.keys_view() == old(self).keys_view(),
                i <= lines@.len(),
                lines@.len() == lines_of(text@).len(),
                forall|k: int| 0 <= k < lines@.len() ==> (#[trigger] lines@[k])@ == lines_of(text@)[k],
                text@ == content@,
                header_map(metadata_dict@) == metadata_entries(lines_of(content@).take(i as int), old(self).keys_view().0),
                self.header_maps() == pass1_headers(keys, h0, lines_spec.take(i as int)),
                keys == old(self).keys_view(),
                h0 == old(self).header_maps(),
                lines_spec == lines_of(content@),
                self.charts@ == old(self).charts@,
            decreases lines.len() - i,
        {
            proof {
                assert(lines_of(content@).take(i + 1).drop_last() =~= lines_of(content@).take(i as int));
            }
            let cs = &lines[i];
            let s = string_of(cs);
            match normalize_line(s.as_str()) {
                Some(n) => {
                    let ncs = chars_of(n.as_str());
                    self.handle_metadata_or_header(ncs.as_slice(), &mut metadata_dict);
                },
                None => {},
            }
            i = i + 1;
        }
        assert(lines_of(content@).take(lines@.len() as int) =~= lines_of(content@));
        let metadata = Metadata::new(metadata_dict);
        let bpm = metadata.bpm;
        self.metadata = Some(metadata);
        self.state = Some(ParserState::new(bpm));
        let ghost md = self.metadata;
        let ghost off = self.offset_view();
        let ghost m0 = self.model();
        let ghost pm = parse_model(keys, chart_views(old(self).charts_view()), h0, content@);
        let mut buffer: Vec<Vec<char>> = Vec::new();
        let mut i: usize = 0;
        assert(lines_spec.take(0) =~= Seq::<Seq<char>>::empty());
        assert(buffer_views(buffer@) =~= Seq::<Seq<char>>::empty());
        while i < lines.len()
            invariant
                self.wf(),
                self.keys_view() == old(self).keys_view(),
                self.metadata is Some,
                self.state is Some,
                self.metadata == md,
                i <= lines@.len(),
                keys == old(self).keys_view(),
                h0 == old(self).header_maps(),
                lines_spec == lines_of(content@),
                lines@.len() == lines_spec.len(),
                forall|k: int| 0 <= k < lines@.len() ==> (#[trigger] lines@[k])@ == lines_spec[k],
                off == self.offset_view(),
                pass2(keys, (m0, Seq::empty()), lines_spec.take(i as int), off) == Some((self.model(), buffer_views(buffer@))),
                pm == parse_model(keys, chart_views(old(self).charts_view()), h0, content@),
                pm == match pass2(keys, (m0, Seq::empty()), lines_spec, off) {
                    None => None,
                    Some((m, buf)) => replay(m, buf, off),
                },
            decreases lines.len() - i,
        {
            proof {
                assert(lines_spec.take(i + 1).drop_last() =~= lines_spec.take(i as int));
                assert(lines_spec.take(i + 1).last() == lines@[i as int]@);
            }
            let ghost bv0 = buffer_views(buffer@);
            let ghost mi = self.model();
            let line = trim_chars(lines[i].as_slice());
            let is_comment = line.len() >= 2 && line[0] == '/' && line[1] == '/';
            let starts_hash = line.len() > 0 && line[0] == '#';
            if line.len() == 0 || is_comment {
            } else if !starts_hash && has_colon(&line) {
                let mut scratch: Vec<Header> = Vec::new();
                self.handle_metadata_or_header(line.as_slice(), &mut scratch);
            } else if starts_hash {
                let cmd = after_hash(&line);
                match directive_type(cmd.as_slice()) {
                    Some(DirectiveType::Bar) => {
                        if buffer.len() > 0 {
                            let r = self.process_notes_buffer(&buffer);
                            if r.is_err() {
                                proof {
                                    lemma_pass2_none_stays(keys, (m0, Seq::empty()), lines_spec, off, i + 1);
                                }
                                return r;
                            }
                            buffer = Vec::new();
                        } else {
                            assert(bv0 =~= Seq::<Seq<char>>::empty());
                        }
                        let r = self.process_directive(cmd.as_slice());
                        if r.is_err() {
                            proof {
                                lemma_pass2_none_stays(keys, (m0, Seq::empty()), lines_spec, off, i + 1);
                            }
                            return r;
                        }
                        assert(buffer_views(buffer@) =~= Seq::<Seq<char>>::empty());
                    },
                    Some(DirectiveType::Note) => {
                        buffer.push(line);
                        assert(buffer_views(buffer@) =~= bv0.push(trim(lines_spec[i as int])));
                    },
                    None => {},
                }
            } else if self.is_parsing_chart() {
                buffer.push(code_part_of(line.as_slice()));
                assert(buffer_views(buffer@) =~= bv0.push(code_part(trim(lines_spec[i as int]))));
            }
            i = i + 1;
        }
        assert(lines_spec.take(lines@.len() as int) =~= lines_spec);
        if buffer.len() > 0 {
            let r = self.process_notes_buffer(&buffer);
            if r.is_err() {
                return r;
            }
        } else {
            assert(buffer_views(buffer@) =~= Seq::<Seq<char>>::empty());
        }
        Ok(())
    }

    fn is_parsing_chart(&self) -> (r: bool)
        ensures
            r == (self.state matches Some(st) && st.parsing_chart),
    {
        match &self.state {
            Some(st) => st.parsing_chart,
            None => false,
        }
    }

    pub fn get_metadata(&self) -> (r: Option<&Metadata>)
        ensures
            r == match self.metadata_view() {
                Some(m) => Some(&m),
                None => None::<&Metadata>,
            },
    {
        self.metadata.as_ref()
    }

    pub fn get_charts(&self) -> (r: &[Chart])
        ensures
            r@ == self.charts_view(),
    {
        self.charts.as_slice()
    }

    /// The charts of one player, in order.
    pub fn get_charts_for_player(&self, player: i32) -> (r: Vec<&Chart>)
        ensures
            forall|i: int| 0 <= i < r@.len() ==> (#[trigger] r@[i]).player == player,
            derefs(r@) == self.charts_view().filter(|c: Chart| c.player == player),
    {
        let mut r: Vec<&Chart> = Vec::new();
        let mut i: usize = 0;
        while i < self.charts.len()
            invariant
                i <= self.charts@.len(),
                forall|j: int| 0 <= j < r@.len() ==> (#[trigger] r@[j]).player == player,
                derefs(r@) == self.charts@.take(i as int).filter(|c: Chart| c.player == player),
            decreases self.charts.len() - i,
        {
            proof {
                reveal(Seq::filter);
                assert(self.charts@.take(i + 1).drop_last() =~= self.charts@.take(i as int));
            }
            if self.charts[i].player == player {
                r.push(&self.charts[i]);
                assert(derefs(r@) =~= derefs(r@.drop_last()).push(self.charts@[i as int]));
            }
            i = i + 1;
        }
        assert(self.charts@.take(self.charts@.len() as int) =~= self.charts@);
        r
    }

    /// Pairs each player-1 chart, in order, with the first player-2 chart of the
    /// same course where both have style `DOUBLE`; one without a match is skipped.
    pub fn get_double_charts(&self) -> (r: Vec<(&Chart, &Chart)>)
        ensures
            pair_derefs(r@) == double_pairs(
                self.charts_view().filter(|c: Chart| c.player == 1),
                self.charts_view().filter(|c: Chart| c.player == 2),
            ),
    {
        let p1 = self.get_charts_for_player(1);
        let p2 = self.get_charts_for_player(2);
        let ghost s1 = derefs(p1@);
        let ghost s2 = derefs(p2@);
        let mut out: Vec<(&Chart, &Chart)> = Vec::new();
        let mut i: usize = 0;
        while i < p1.len()
            invariant
                i <= p1@.len(),
                s1 == derefs(p1@),
                s2 == derefs(p2@),
                pair_derefs(out@) == double_pairs(s1.take(i as int), s2),
            decreases p1.len() - i,
        {
            let a = p1[i];
            let mut k: usize = 0;
            let mut found = false;
            let ghost before = out@;
            while k < p2.len() && !found
                invariant
                    k <= p2@.len(),
                    i < p1@.len(),
                    a == p1@[i as int],
                    s2 == derefs(p2@),
                    !found ==> out@ == before && first_match(*a, s2, 0) == first_match(*a, s2, k as int),
                    found ==> pair_derefs(out@) == pair_derefs(before).push((*a, s2[first_match(*a, s2, 0)->0]))
                        && first_match(*a, s2, 0) is Some,
                decreases p2.len() - k,
            {
                let b = p2[k];
                if chart_is_double(a) && chart_is_double(b) && same_course(a, b) {
                    out.push((a, b));
                    found = true;
                    assert(pair_derefs(out@) =~= pair_derefs(before).push((*a, *b)));
                }
                k = k + 1;
            }
            proof {
                assert(s1.take(i + 1).drop_last() =~= s1.take(i as int));
                assert(s1.take(i + 1).last() == *a);
                if !found {
                    assert(first_match(*a, s2, k as int) is None);
                }
            }
            i = i + 1;
        }
        assert(s1.take(p1@.len() as int) =~= s1);
        out
    }

    /// The metadata and a copy of the charts.
    pub fn get_parsed_tja(&self) -> (r: ParsedTJA)
        requires
            self.metadata_view() is Some,
        ensures
            r.metadata.bpm == self.metadata_view()->0.bpm,
            r.metadata.offset == self.metadata_view()->0.offset,
            header_map(r.metadata.entries@) == header_map(self.metadata_view()->0.entries@),
            r.charts@.len() == self.charts_view().len(),
            forall|i: int| 0 <= i < r.charts@.len() ==> same_chart(#[trigger] r.charts@[i], self.charts_view()[i]),
    {
        let metadata = match &self.metadata {
            Some(m) => {
                let mut entries: Vec<Header> = Vec::new();
                copy_headers(&m.entries, &mut entries);
                Metadata { entries, bpm: m.bpm, offset: m.offset }
            },
            None => Metadata { entries: Vec::new(), bpm: DEFAULT_BPM, offset: 0 },
        };
        let mut charts: Vec<Chart> = Vec::new();
        let mut i: usize = 0;
        while i < self.charts.len()
            invariant
                i <= self.charts@.len(),
                charts@.len() == i,
                forall|j: int| 0 <= j < i ==> same_chart(#[trigger] charts@[j], self.charts@[j]),
            decreases self.charts.len() - i,
        {
            charts.push(copy_chart(&self.charts[i]));
            i = i + 1;
        }
        ParsedTJA { metadata, charts }
    }

    pub fn add_metadata_key(&mut self, key: &str)
        ensures
            key_names(final(self).keys_view().0) == key_names(old(self).keys_view().0).push(key@),
            has_key(final(self).keys_view().0, key@),
            final(self).keys_view().1 == old(self).keys_view().1,
            final(self).keys_view().2 == old(self).keys_view().2,
            final(self).wf() == old(self).wf(),
            final(self).charts_view() == old(self).charts_view(),
    {
        let k = string_of(&chars_of(key));
        self.metadata_keys.push(k);
        assert(self.metadata_keys@[self.metadata_keys@.len() - 1]@ == key@);
        assert(key_names(self.metadata_keys@) =~= key_names(old(self).metadata_keys@).push(key@));
    }

    pub fn add_header_key(&mut self, key: &str)
        ensures
            key_names(final(self).keys_view().1) == key_names(old(self).keys_view().1).push(key@),
            has_key(final(self).keys_view().1, key@),
            final(self).keys_view().0 == old(self).keys_view().0,
            final(self).keys_view().2 == old(self).keys_view().2,
            final(self).wf() == old(self).wf(),
            final(self).charts_view() == old(self).charts_view(),
    {
        let k = string_of(&chars_of(key));
        self.header_keys.push(k);
        assert(self.header_keys@[self.header_keys@.len() - 1]@ == key@);
        assert(key_names(self.header_keys@) =~= key_names(old(self).header_keys@).push(key@));
    }

    pub fn add_inheritable_header_key(&mut self, key: &str)
        ensures
            key_names(final(self).keys_view().2) == key_names(old(self).keys_view().2).push(key@),
            has_key(final(self).keys_view().2, key@),
            final(self).keys_view().0 == old(self).keys_view().0,
            final(self).keys_view().1 == old(self).keys_view().1,
            final(self).wf() == old(self).wf(),
            final(self).charts_view() == old(self).charts_view(),
    {
        let k = string_of(&chars_of(key));
        self.inheritable_header_keys.push(k);
        assert(self.inheritable_header_keys@[self.inheritable_header_keys@.len() - 1]@ == key@);
        assert(key_names(self.inheritable_header_keys@) =~= key_names(old(self).inheritable_header_keys@).push(key@));
    }
}

/// A chart as plain values.
pub struct ChartView {
    pub headers: Map<Seq<char>, Seq<char>>,
    pub player: i32,
    pub segments: Seq<SegmentView>,
}

pub open spec fn chart_view(c: Chart) -> ChartView {
    ChartView { headers: header_map(c.headers@), player: c.player, segments: seg_views(c.segments@) }
}

pub open spec fn chart_views(cs: Seq<Chart>) -> Seq<ChartView> {
    cs.map_values(|c: Chart| chart_view(c))
}

/// What a parse has built so far: the state, the charts, and the inherited and
/// current headers.
pub struct ParseModel {
    pub state: StateView,
    pub charts: Seq<ChartView>,
    pub inherited: Map<Seq<char>, Seq<char>>,
    pub current: Map<Seq<char>, Seq<char>>,
}

pub open spec fn with_state(m: ParseModel, st: StateView) -> Option<ParseModel> {
    Some(ParseModel { state: st, ..m })
}

/// A directive command (the text after `#`) applied to the model; `offset` is
/// the metadata offset in nanoseconds. `None` where the delay overflows.
pub open spec fn directive_model(m: ParseModel, cmd: Seq<char>, offset: int) -> Option<ParseModel> {
    let a = command_arg(cmd);
    let st = m.state;
    match kind_of(command_name(cmd)) {
        None => Some(m),
        Some(DirectiveKind::Start) => Some(ParseModel {
            charts: m.charts.push(
                ChartView { headers: m.inherited.union_prefer_right(m.current), player: player_of(a), segments: Seq::empty() },
            ),
            state: StateView { parsing_chart: true, timestamp: (-offset) as i64, ..st },
            ..m
        }),
        Some(DirectiveKind::End) => with_state(
            m,
            StateView { parsing_chart: false, branch_active: false, branch_condition: None, ..st },
        ),
        Some(DirectiveKind::BpmChange) => match fixed_of(a) {
            Some(v) => if valid_bpm(v) { with_state(m, StateView { bpm: v as i64, ..st }) } else { Some(m) },
            None => Some(m),
        },
        Some(DirectiveKind::Scroll) => match fixed_of(a) {
            Some(v) => with_state(m, StateView { scroll: v as i64, ..st }),
            None => Some(m),
        },
        Some(DirectiveKind::GogoStart) => with_state(m, StateView { gogo: true, ..st }),
        Some(DirectiveKind::GogoEnd) => with_state(m, StateView { gogo: false, ..st }),
        Some(DirectiveKind::BarlineOff) => with_state(m, StateView { barline: false, ..st }),
        Some(DirectiveKind::BarlineOn) => with_state(m, StateView { barline: true, ..st }),
        Some(DirectiveKind::BranchStart) => with_state(
            m,
            StateView { branch_active: true, branch_condition: Some(a), ..st },
        ),
        Some(DirectiveKind::BranchEnd) => with_state(m, StateView { branch_active: false, branch_condition: None, ..st }),
        Some(DirectiveKind::Measure) => match fraction_of(a) {
            Some((n, d)) => with_state(m, StateView { measure_num: n as i32, measure_den: d as i32, ..st }),
            None => Some(m),
        },
        Some(DirectiveKind::Delay) => match fixed_of(a) {
            Some(v) => {
                let dv = (v * 1000) as i64;
                if i64::MIN <= st.delay + dv <= i64::MAX {
                    with_state(m, StateView { delay: (st.delay + dv) as i64, ..st })
                } else {
                    None
                }
            },
            None => Some(m),
        },
        Some(DirectiveKind::Section) => Some(m),
    }
}

/// A line of notes scanned into the last chart while a body is open; nothing
/// happens outside one. `None` where a time overflows.
pub open spec fn notes_model(m: ParseModel, line: Seq<char>) -> Option<ParseModel> {
    if !m.state.parsing_chart {
        Some(m)
    } else if m.charts.len() == 0 {
        None
    } else {
        let c = m.charts.last();
        match scan_line(m.state, scan_start(m.state, c.segments), line) {
            None => None,
            Some((cursor, closed, cur)) => Some(ParseModel {
                state: StateView { timestamp: cursor as i64, ..m.state },
                charts: m.charts.update(m.charts.len() - 1, ChartView { segments: closed.push(cur), ..c }),
                ..m
            }),
        }
    }
}

/// One buffered line replayed: a directive where it starts with `#`, else notes.
pub open spec fn line_model(m: ParseModel, l: Seq<char>, offset: int) -> Option<ParseModel> {
    if l.len() > 0 && l[0] == '#' {
        directive_model(m, l.drop_first(), offset)
    } else {
        notes_model(m, l)
    }
}

/// Buffered lines replayed in order, stopping at the first failure.
pub open spec fn replay(m: ParseModel, buf: Seq<Seq<char>>, offset: int) -> Option<ParseModel>
    decreases buf.len(),
{
    if buf.len() == 0 {
        Some(m)
    } else {
        match replay(m, buf.drop_last(), offset) {
            Some(m2) => line_model(m2, buf.last(), offset),
            None => None,
        }
    }
}

proof fn lemma_replay_none_stays(m: ParseModel, buf: Seq<Seq<char>>, offset: int, i: int)
    requires
        0 <= i <= buf.len(),
        replay(m, buf.take(i), offset) is None,
    ensures
        replay(m, buf, offset) is None,
    decreases buf.len() - i,
{
    if i < buf.len() {
        assert(buf.take(i + 1).drop_last() =~= buf.take(i));
        lemma_replay_none_stays(m, buf, offset, i + 1);
    } else {
        assert(buf.take(i) =~= buf);
    }
}

proof fn lemma_directive_step(
    m: ParseModel,
    cmd: Seq<char>,
    offset: int,
    d: Directive,
    st: ParserState,
    ns: ParserState,
    ok: bool,
)
    requires
        reads_as(cmd, Some(d)),
        !(d is Start),
        m.state == sview(st),
        ok ==> applied(st, d, ns),
        ok <==> !(d matches Directive::Delay(v) && !(i64::MIN <= st.delay + v <= i64::MAX)),
    ensures
        ok ==> directive_model(m, cmd, offset) == with_state(m, sview(ns)),
        !ok ==> directive_model(m, cmd, offset) is None,
{
    assert(kind_of(command_name(cmd)) is Some);
}

proof fn lemma_directive_none(m: ParseModel, cmd: Seq<char>, offset: int)
    requires
        reads_as(cmd, None),
    ensures
        directive_model(m, cmd, offset) == Some(m),
{
}

/// The header maps after a `KEY: value` line is filed (see
/// `handle_metadata_or_header`): `(current, inherited)`.
pub open spec fn file_header(
    keys: (Seq<String>, Seq<String>, Seq<String>),
    h: (Map<Seq<char>, Seq<char>>, Map<Seq<char>, Seq<char>>),
    line: Seq<char>,
) -> (Map<Seq<char>, Seq<char>>, Map<Seq<char>, Seq<char>>) {
    match key_value_of(line) {
        Some((k, v)) => if !has_key(keys.0, k) && has_key(keys.1, k) {
            (
                h.0.insert(k, if k == "BALLOON"@ { cleaned_balloon(v) } else { v }),
                if has_key(keys.2, k) { h.1.insert(k, v) } else { h.1 },
            )
        } else {
            h
        },
        None => h,
    }
}

/// Pass one's effect on the headers: every non-empty normalized line filed.
pub open spec fn pass1_headers(
    keys: (Seq<String>, Seq<String>, Seq<String>),
    h: (Map<Seq<char>, Seq<char>>, Map<Seq<char>, Seq<char>>),
    lines: Seq<Seq<char>>,
) -> (Map<Seq<char>, Seq<char>>, Map<Seq<char>, Seq<char>>)
    decreases lines.len(),
{
    if lines.len() == 0 {
        h
    } else {
        let before = pass1_headers(keys, h, lines.drop_last());
        let n = normalized(lines.last());
        if n.len() > 0 { file_header(keys, before, n) } else { before }
    }
}

pub open spec fn has_colon_spec(s: Seq<char>) -> bool {
    exists|i: int| 0 <= i < s.len() && s[i] == ':'
}

/// One line of pass two: blank lines and comments are skipped; a `KEY: value`
/// line is filed; a bar directive replays the buffer and then applies; a note
/// directive, or a note line inside a body, is buffered; anything else is
/// dropped. `None` where a time or delay overflows.
pub open spec fn pass2_step(
    keys: (Seq<String>, Seq<String>, Seq<String>),
    a: (ParseModel, Seq<Seq<char>>),
    line: Seq<char>,
    offset: int,
) -> Option<(ParseModel, Seq<Seq<char>>)> {
    let (m, buf) = a;
    let t = trim(line);
    if t.len() == 0 || (t.len() >= 2 && t[0] == '/' && t[1] == '/') {
        Some(a)
    } else if t[0] != '#' && has_colon_spec(t) {
        let h = file_header(keys, (m.current, m.inherited), t);
        Some((ParseModel { current: h.0, inherited: h.1, ..m }, buf))
    } else if t[0] == '#' {
        let cmd = t.drop_first();
        match kind_of(command_name(cmd)) {
            None => Some(a),
            Some(k) => if type_of_kind(k) == DirectiveType::Bar {
                match replay(m, buf, offset) {
                    None => None,
                    Some(m2) => match directive_model(m2, cmd, offset) {
                        None => None,
                        Some(m3) => Some((m3, Seq::empty())),
                    },
                }
            } else {
                Some((m, buf.push(t)))
            },
        }
    } else if m.state.parsing_chart {
        Some((m, buf.push(code_part(t))))
    } else {
        Some(a)
    }
}

pub open spec fn pass2(
    keys: (Seq<String>, Seq<String>, Seq<String>),
    a: (ParseModel, Seq<Seq<char>>),
    lines: Seq<Seq<char>>,
    offset: int,
) -> Option<(ParseModel, Seq<Seq<char>>)>
    decreases lines.len(),
{
    if lines.len() == 0 {
        Some(a)
    } else {
        match pass2(keys, a, lines.drop_last(), offset) {
            Some(b) => pass2_step(keys, b, lines.last(), offset),
            None => None,
        }
    }
}

proof fn lemma_pass2_none_stays(
    keys: (Seq<String>, Seq<String>, Seq<String>),
    a: (ParseModel, Seq<Seq<char>>),
    lines: Seq<Seq<char>>,
    offset: int,
    i: int,
)
    requires
        0 <= i <= lines.len(),
        pass2(keys, a, lines.take(i), offset) is None,
    ensures
        pass2(keys, a, lines, offset) is None,
    decreases lines.len() - i,
{
    if i < lines.len() {
        assert(lines.take(i + 1).drop_last() =~= lines.take(i));
        lemma_pass2_none_stays(keys, a, lines, offset, i + 1);
    } else {
        assert(lines.take(i) =~= lines);
    }
}

/// The state a parse starts pass two with, at the metadata tempo.
pub open spec fn initial_state(bpm: int) -> StateView {
    StateView {
        bpm: bpm as i64,
        scroll: 1_000_000,
        gogo: false,
        barline: true,
        measure_num: 4,
        measure_den: 4,
        branch_active: false,
        branch_condition: None,
        parsing_chart: false,
        delay: 0,
        timestamp: 0,
    }
}

/// What parsing `content` gives, from the charts and headers a parser already
/// holds: pass one harvests metadata and files headers, pass two builds the
/// charts, and the buffer left at the end is replayed. `None` where a time or
/// delay overflows.
pub open spec fn parse_model(
    keys: (Seq<String>, Seq<String>, Seq<String>),
    charts: Seq<ChartView>,
    h: (Map<Seq<char>, Seq<char>>, Map<Seq<char>, Seq<char>>),
    content: Seq<char>,
) -> Option<ParseModel> {
    let lines = lines_of(content);
    let md = metadata_entries(lines, keys.0);
    let offset = metadata_offset(md);
    let h1 = pass1_headers(keys, h, lines);
    let m0 = ParseModel { state: initial_state(metadata_bpm(md)), charts, inherited: h1.1, current: h1.0 };
    match pass2(keys, (m0, Seq::empty()), lines, offset) {
        None => None,
        Some((m, buf)) => replay(m, buf, offset),
    }
}

pub open spec fn buffer_views(b: Seq<Vec<char>>) -> Seq<Seq<char>> {
    b.map_values(|l: Vec<char>| l@)
}

/// The chart's `COURSE` header, if it has one.
pub open spec fn course_of(c: Chart) -> Option<Seq<char>> {
    if header_map(c.headers@).contains_key("COURSE"@) {
        Some(header_map(c.headers@)["COURSE"@])
    } else {
        None
    }
}

/// The chart's `STYLE` header, upper-cased, is `DOUBLE`.
pub open spec fn is_double(c: Chart) -> bool {
    header_map(c.headers@).contains_key("STYLE"@) && upper_of(header_map(c.headers@)["STYLE"@]) == "DOUBLE"@
}

pub open spec fn pair_derefs(r: Seq<(&Chart, &Chart)>) -> Seq<(Chart, Chart)> {
    r.map_values(|p: (&Chart, &Chart)| (*p.0, *p.1))
}

pub open spec fn pairs_with(a: Chart, b: Chart) -> bool {
    is_double(a) && is_double(b) && course_of(a) == course_of(b)
}

/// The first index, from `k` on, of a chart in `p2` that pairs with `a`.
pub open spec fn first_match(a: Chart, p2: Seq<Chart>, k: int) -> Option<int>
    decreases p2.len() - k,
{
    if k < 0 || k >= p2.len() {
        None
    } else if pairs_with(a, p2[k]) {
        Some(k)
    } else {
        first_match(a, p2, k + 1)
    }
}

/// Each chart of `p1`, in order, with its first match in `p2`.
pub open spec fn double_pairs(p1: Seq<Chart>, p2: Seq<Chart>) -> Seq<(Chart, Chart)>
    decreases p1.len(),
{
    if p1.len() == 0 {
        Seq::empty()
    } else {
        let rest = double_pairs(p1.drop_last(), p2);
        match first_match(p1.last(), p2, 0) {
            Some(j) => rest.push((p1.last(), p2[j])),
            None => rest,
        }
    }
}

fn chart_is_double(c: &Chart) -> (r: bool)
    ensures
        r == is_double(*c),
{
    match lookup(&c.headers, "STYLE") {
        Some(v) => {
            let u = to_upper(v.as_str());
            let d = string_of(&chars_of("DOUBLE"));
            u == d
        },
        None => false,
    }
}

fn same_course(a: &Chart, b: &Chart) -> (r: bool)
    ensures
        r == (course_of(*a) == course_of(*b)),
{
    let x = lookup(&a.headers, "COURSE");
    let y = lookup(&b.headers, "COURSE");
    match (x, y) {
        (Some(p), Some(q)) => p == q,
        (None, None) => true,
        _ => false,
    }
}

/// A difficulty tier.
#[derive(Clone, Copy, Debug, PartialEq, Eq, Structural)]
pub enum Course {
    Easy,
    Normal,
    Hard,
    Oni,
    Edit,
}

/// The tier that a `COURSE` value or a command-line choice names: its name
/// (capitalised or lower case) or its number.
pub open spec fn course_named(s: Seq<char>) -> Option<Course> {
    if s == "Easy"@ || s == "easy"@ || s == "0"@ {
        Some(Course::Easy)
    } else if s == "Normal"@ || s == "normal"@ || s == "1"@ {
        Some(Course::Normal)
    } else if s == "Hard"@ || s == "hard"@ || s == "2"@ {
        Some(Course::Hard)
    } else if s == "Oni"@ || s == "oni"@ || s == "3"@ {
        Some(Course::Oni)
    } else if s == "Edit"@ || s == "edit"@ || s == "4"@ {
        Some(Course::Edit)
    } else {
        None
    }
}

fn is_one_of(s: &String, a: &str, b: &str, c: &str) -> (r: bool)
    ensures
        r == (s@ == a@ || s@ == b@ || s@ == c@),
{
    *s == string_of(&chars_of(a)) || *s == string_of(&chars_of(b)) || *s == string_of(&chars_of(c))
}

impl Course {
    pub fn parse(s: &str) -> (r: Option<Course>)
        ensures
            r == course_named(s@),
    {
        let t = string_of(&chars_of(s));
        if is_one_of(&t, "Easy", "easy", "0") {
            Some(Course::Easy)
        } else if is_one_of(&t, "Normal", "normal", "1") {
            Some(Course::Normal)
        } else if is_one_of(&t, "Hard", "hard", "2") {
            Some(Course::Hard)
        } else if is_one_of(&t, "Oni", "oni", "3") {
            Some(Course::Oni)
        } else if is_one_of(&t, "Edit", "edit", "4") {
            Some(Course::Edit)
        } else {
            None
        }
    }
}

/// The tier that a chart's `COURSE` header names.
pub open spec fn chart_course(c: Chart) -> Option<Course> {
    match course_of(c) {
        Some(v) => course_named(v),
        None => None,
    }
}

/// The index of the first chart of the given tier.
pub fn find_course(charts: &[Chart], course: Course) -> (r: Option<usize>)
    ensures
        match r {
            Some(i) => i < charts@.len() && chart_course(charts@[i as int]) == Some(course)
                && forall|j: int| 0 <= j < i ==> chart_course(#[trigger] charts@[j]) != Some(course),
            None => forall|j: int| 0 <= j < charts@.len() ==> chart_course(#[trigger] charts@[j]) != Some(course),
        },
{
    let mut i: usize = 0;
    while i < charts.len()
        invariant
            i <= charts@.len(),
            forall|j: int| 0 <= j < i ==> chart_course(#[trigger] charts@[j]) != Some(course),
        decreases charts.len() - i,
    {
        let c = match lookup(&charts[i].headers, "COURSE") {
            Some(v) => Course::parse(v.as_str()),
            None => None,
        };
        if c == Some(course) {
            return Some(i);
        }
        i = i + 1;
    }
    None
}

/// Two charts with the same player, headers, segment contexts and notes.
pub open spec fn same_chart(a: Chart, b: Chart) -> bool {
    &&& a.player == b.player
    &&& header_map(a.headers@) == header_map(b.headers@)
    &&& a.segments@.len() == b.segments@.len()
    &&& forall|i: int| 0 <= i < a.segments@.len() ==> same_segment(#[trigger] a.segments@[i], b.segments@[i])
}

pub open spec fn same_segment(a: Segment, b: Segment) -> bool {
    &&& a.measure_num == b.measure_num && a.measure_den == b.measure_den
    &&& a.barline == b.barline && a.branch_active == b.branch_active
    &&& a.notes@ == b.notes@
    &&& match (a.branch, b.branch) {
        (Some(x), Some(y)) => x@ == y@,
        (None, None) => true,
        _ => false,
    }
}

fn copy_segment(s: &Segment) -> (r: Segment)
    ensures
        same_segment(r, *s),
{
    let mut notes: Vec<Note> = Vec::new();
    let mut i: usize = 0;
    while i < s.notes.len()
        invariant
            i <= s.notes@.len(),
            notes@ == s.notes@.take(i as int),
        decreases s.notes.len() - i,
    {
        notes.push(s.notes[i]);
        i = i + 1;
        assert(notes@ =~= s.notes@.take(i as int));
    }
    assert(s.notes@.take(s.notes@.len() as int) =~= s.notes@);
    let branch = match &s.branch {
        Some(b) => Some(b.clone()),
        None => None,
    };
    Segment {
        measure_num: s.measure_num,
        measure_den: s.measure_den,
        barline: s.barline,
        branch_active: s.branch_active,
        branch,
        notes,
    }
}

fn copy_chart(c: &Chart) -> (r: Chart)
    ensures
        same_chart(r, *c),
{
    let mut headers: Vec<Header> = Vec::new();
    copy_headers(&c.headers, &mut headers);
    assert(header_map(Seq::<Header>::empty()) =~= Map::<Seq<char>, Seq<char>>::empty());
    assert(Map::<Seq<char>, Seq<char>>::empty().union_prefer_right(header_map(c.headers@)) =~= header_map(c.headers@));
    let mut segments: Vec<Segment> = Vec::new();
    let mut i: usize = 0;
    while i < c.segments.len()
        invariant
            i <= c.segments@.len(),
            segments@.len() == i,
            forall|j: int| 0 <= j < i ==> same_segment(#[trigger] segments@[j], c.segments@[j]),
        decreases c.segments.len() - i,
    {
        segments.push(copy_segment(&c.segments[i]));
        i = i + 1;
    }
    Chart { headers, player: c.player, segments }
}

/// The charts that a list of references points to.
pub open spec fn derefs(r: Seq<&Chart>) -> Seq<Chart> {
    r.map_values(|c: &Chart| *c)
}

pub open spec fn key_names(keys: Seq<String>) -> Seq<Seq<char>> {
    keys.map_values(|k: String| k@)
}

/// The keys that set metadata.
pub open spec fn metadata_key_names() -> Seq<Seq<char>> {
    seq![
        "TITLE"@, "SUBTITLE"@, "WAVE"@, "BPM"@, "OFFSET"@, "DEMOSTART"@, "GENRE"@, "MAKER"@, "SONGVOL"@,
        "SEVOL"@, "SCOREMODE"@,
    ]
}

/// The keys that set a course's headers.
pub open spec fn header_key_names() -> Seq<Seq<char>> {
    seq!["COURSE"@, "LEVEL"@, "BALLOON"@, "SCOREINIT"@, "SCOREDIFF"@, "STYLE"@]
}

/// The header keys that later charts inherit.
pub open spec fn inheritable_key_names() -> Seq<Seq<char>> {
    seq!["COURSE"@, "LEVEL"@, "SCOREINIT"@, "SCOREDIFF"@]
}

/// A line without its first character (the `#` of a directive).
fn after_hash(line: &Vec<char>) -> (r: Vec<char>)
    requires
        line@.len() > 0,
    ensures
        r@ == line@.drop_first(),
{
    let mut cmd: Vec<char> = Vec::new();
    let mut j: usize = 1;
    while j < line.len()
        invariant
            1 <= j <= line@.len(),
            cmd@ == line@.subrange(1, j as int),
        decreases line.len() - j,
    {
        cmd.push(line[j]);
        j = j + 1;
        assert(cmd@ =~= line@.subrange(1, j as int));
    }
    assert(cmd@ =~= line@.drop_first());
    cmd
}

fn has_colon(line: &Vec<char>) -> (r: bool)
    ensures
        r == (exists|i: int| 0 <= i < line@.len() && line@[i] == ':'),
{
    let mut i: usize = 0;
    while i < line.len()
        invariant
            i <= line@.len(),
            forall|j: int| 0 <= j < i ==> line@[j] != ':',
        decreases line.len() - i,
    {
        if line[i] == ':' {
            return true;
        }
        i = i + 1;
    }
    false
}

} // verus!
