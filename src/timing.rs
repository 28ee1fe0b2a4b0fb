use vstd::prelude::*;
use crate::model::{sounding, Note, NoteType};

verus! {

/// Nanoseconds in four beats of one BPM, times a million (tempo is kept in millionths).
pub const WHOLE: i128 = 240_000_000_000_000_000;

/// A tempo that timing can use: positive, in millionths of a BPM.
pub open spec fn valid_bpm(bpm: int) -> bool {
    0 < bpm <= i64::MAX
}

pub open spec fn valid_measure(num: int, den: int) -> bool {
    0 < num <= i32::MAX && 0 < den <= i32::MAX
}

pub open spec fn in_i64(x: int) -> bool {
    i64::MIN <= x <= i64::MAX
}

/// Length of one measure of `num/den` at tempo `bpm`, in whole nanoseconds.
pub open spec fn measure_len(bpm: int, num: int, den: int) -> int {
    (WHOLE * num) / (bpm * den)
}

/// The slice of time that one of `n` notes of a measure takes, at its own tempo.
pub open spec fn note_step(bpm: int, num: int, den: int, n: int) -> int {
    measure_len(bpm, num, den) / n
}

/// The cursor after the first `k` notes of a measure that starts at `start`.
pub open spec fn cursor_after(notes: Seq<Note>, start: int, num: int, den: int, k: int) -> int
    decreases k,
{
    if k <= 0 {
        start
    } else {
        cursor_after(notes, start, num, den, k - 1) + note_step(
            notes[k - 1].bpm as int,
            num,
            den,
            notes.len() as int,
        )
    }
}

/// The time that note `k` of a measure resolves to.
pub open spec fn resolved_time(notes: Seq<Note>, start: int, num: int, den: int, k: int) -> int {
    cursor_after(notes, start, num, den, k) + notes[k].delay
}

/// Every cursor position and every resolved time of the measure fits in an `i64`.
pub open spec fn measure_fits(notes: Seq<Note>, start: int, num: int, den: int) -> bool {
    &&& forall|k: int| 0 <= k <= notes.len() ==> in_i64(#[trigger] cursor_after(notes, start, num, den, k))
    &&& forall|k: int| 0 <= k < notes.len() ==> in_i64(#[trigger] resolved_time(notes, start, num, den, k))
}

pub open spec fn all_valid_bpm(notes: Seq<Note>) -> bool {
    forall|k: int| 0 <= k < notes.len() ==> valid_bpm(#[trigger] notes[k].bpm as int)
}

/// `after` is `before` with each note's timestamp set to its resolved time.
pub open spec fn resolved_from(after: Seq<Note>, before: Seq<Note>, start: int, num: int, den: int) -> bool {
    &&& after.len() == before.len()
    &&& forall|k: int| 0 <= k < before.len() ==> #[trigger] after[k] == (Note {
        timestamp: resolved_time(before, start, num, den, k) as i64,
        ..before[k]
    })
}

/// Length of one measure, in nanoseconds.
pub fn measure_len_exec(bpm: i64, num: i32, den: i32) -> (r: i128)
    requires
        valid_bpm(bpm as int),
        valid_measure(num as int, den as int),
    ensures
        r == measure_len(bpm as int, num as int, den as int),
        0 <= r <= WHOLE * i32::MAX,
{
    assert(0 <= WHOLE * (num as int) <= WHOLE * i32::MAX) by (nonlinear_arith)
        requires 0 < num <= i32::MAX;
    assert(0 < (bpm as int) * (den as int) <= i64::MAX * i32::MAX) by (nonlinear_arith)
        requires 0 < bpm <= i64::MAX, 0 < den <= i32::MAX;
    let top: i128 = WHOLE * (num as i128);
    let bottom: i128 = (bpm as i128) * (den as i128);
    assert(0 <= top / bottom <= top) by (nonlinear_arith)
        requires top >= 0, bottom > 0;
    top / bottom
}

/// Sets each note's timestamp from the cursor `start`, each note advancing the
/// cursor by its own slice of the measure. Returns the notes and the cursor at
/// the end of the measure, or `None` where a time would not fit in an `i64`.
pub fn resolve_timestamps(notes: &Vec<Note>, start: i64, num: i32, den: i32) -> (r: Option<(Vec<Note>, i64)>)
    requires
        notes@.len() > 0,
        all_valid_bpm(notes@),
        valid_measure(num as int, den as int),
    ensures
        r is Some <==> measure_fits(notes@, start as int, num as int, den as int),
        r matches Some((v, end)) ==> resolved_from(v@, notes@, start as int, num as int, den as int)
            && end == cursor_after(notes@, start as int, num as int, den as int, notes@.len() as int),
{
    let n = notes.len();
    let mut out: Vec<Note> = Vec::new();
    let mut cursor: i64 = start;
    let mut i: usize = 0;
    while i < n
        invariant
            n == notes@.len(),
            all_valid_bpm(notes@),
            valid_measure(num as int, den as int),
            i <= n,
            cursor == cursor_after(notes@, start as int, num as int, den as int, i as int),
            forall|k: int| 0 <= k <= i ==> in_i64(#[trigger] cursor_after(notes@, start as int, num as int, den as int, k)),
            forall|k: int| 0 <= k < i ==> in_i64(#[trigger] resolved_time(notes@, start as int, num as int, den as int, k)),
            out@.len() == i,
            forall|k: int| 0 <= k < i ==> #[trigger] out@[k] == (Note {
                timestamp: resolved_time(notes@, start as int, num as int, den as int, k) as i64,
                ..notes@[k]
            }),
        decreases n - i,
    {
        let note = notes[i];
        let t: i128 = (cursor as i128) + (note.delay as i128);
        if t < (i64::MIN as i128) || t > (i64::MAX as i128) {
            assert(!in_i64(resolved_time(notes@, start as int, num as int, den as int, i as int)));
            return None;
        }
        let len = measure_len_exec(note.bpm, num, den);
        let step: i128 = len / (n as i128);
        assert(0 <= step <= len) by (nonlinear_arith)
            requires len >= 0, n >= 1, step == (len as int) / (n as int);
        let next: i128 = (cursor as i128) + step;
        out.push(Note { timestamp: t as i64, ..note });
        if next > (i64::MAX as i128) {
            assert(!in_i64(cursor_after(notes@, start as int, num as int, den as int, i + 1)));
            return None;
        }
        cursor = next as i64;
        i = i + 1;
    }
    Some((out, cursor))
}

/// The notes that are not rests, in order.
pub fn drop_rests(notes: &Vec<Note>) -> (r: Vec<Note>)
    ensures
        r@ == sounding(notes@),
{
    let mut out: Vec<Note> = Vec::new();
    let mut i: usize = 0;
    while i < notes.len()
        invariant
            i <= notes@.len(),
            out@ == sounding(notes@.take(i as int)),
        decreases notes.len() - i,
    {
        assert(notes@.take(i + 1).drop_last() =~= notes@.take(i as int));
        if notes[i].note_type != NoteType::Empty {
            out.push(notes[i]);
        }
        i = i + 1;
    }
    assert(notes@.take(notes@.len() as int) =~= notes@);
    out
}

/// `notes` with each timestamp set to its resolved time.
pub open spec fn resolve_all(notes: Seq<Note>, start: int, num: int, den: int) -> Seq<Note> {
    Seq::new(notes.len(), |k: int| Note { timestamp: resolved_time(notes, start, num, den, k) as i64, ..notes[k] })
}

/// Closes a measure whose notes are `notes`, starting at `cursor`, at the state's
/// tempo `bpm`. Returns the notes that are kept, with their times, and the cursor
/// after the measure; `None` where a time would not fit in an `i64`.
pub fn close_segment(notes: &Vec<Note>, cursor: i64, bpm: i64, num: i32, den: i32) -> (r: Option<(Vec<Note>, i64)>)
    requires
        all_valid_bpm(notes@),
        valid_bpm(bpm as int),
        valid_measure(num as int, den as int),
    ensures
        notes@.len() == 0 ==> (r is Some <==> in_i64(cursor + measure_len(bpm as int, num as int, den as int))),
        notes@.len() == 0 ==> (r matches Some((v, end)) ==> v@.len() == 0
            && end == cursor + measure_len(bpm as int, num as int, den as int)),
        notes@.len() > 0 ==> (r is Some <==> measure_fits(notes@, cursor as int, num as int, den as int)),
        notes@.len() > 0 ==> (r matches Some((v, end)) ==>
            v@ == sounding(resolve_all(notes@, cursor as int, num as int, den as int))
            && end == cursor_after(notes@, cursor as int, num as int, den as int, notes@.len() as int)),
{
    if notes.len() == 0 {
        let len = measure_len_exec(bpm, num, den);
        let end: i128 = (cursor as i128) + len;
        if end > (i64::MAX as i128) {
            None
        } else {
            Some((Vec::new(), end as i64))
        }
    } else {
        match resolve_timestamps(notes, cursor, num, den) {
            None => None,
            Some((v, end)) => {
                assert(v@ =~= resolve_all(notes@, cursor as int, num as int, den as int));
                Some((drop_rests(&v), end))
            },
        }
    }
}

/// Under one tempo, the notes of a measure are evenly spaced: note `k` starts
/// `k` slices after the measure's start, plus its own delay.
pub proof fn lemma_even_spacing(notes: Seq<Note>, start: int, num: int, den: int, bpm: int)
    requires
        notes.len() > 0,
        forall|k: int| 0 <= k < notes.len() ==> #[trigger] notes[k].bpm == bpm,
    ensures
        forall|k: int| 0 <= k <= notes.len() ==> #[trigger] cursor_after(notes, start, num, den, k)
            == start + k * note_step(bpm, num, den, notes.len() as int),
        forall|k: int| 0 <= k < notes.len() ==> #[trigger] resolved_time(notes, start, num, den, k)
            == start + k * note_step(bpm, num, den, notes.len() as int) + notes[k].delay,
{
    assert forall|k: int| 0 <= k <= notes.len() implies #[trigger] cursor_after(notes, start, num, den, k)
        == start + k * note_step(bpm, num, den, notes.len() as int) by {
        lemma_cursor_linear(notes, start, num, den, bpm, k);
    }
    assert forall|k: int| 0 <= k < notes.len() implies #[trigger] resolved_time(notes, start, num, den, k)
        == start + k * note_step(bpm, num, den, notes.len() as int) + notes[k].delay by {
        lemma_cursor_linear(notes, start, num, den, bpm, k);
    }
}

proof fn lemma_cursor_linear(notes: Seq<Note>, start: int, num: int, den: int, bpm: int, k: int)
    requires
        0 <= k <= notes.len(),
        forall|j: int| 0 <= j < notes.len() ==> #[trigger] notes[j].bpm == bpm,
    ensures
        cursor_after(notes, start, num, den, k) == start + k * note_step(bpm, num, den, notes.len() as int),
    decreases k,
{
    let step = note_step(bpm, num, den, notes.len() as int);
    if k > 0 {
        lemma_cursor_linear(notes, start, num, den, bpm, k - 1);
        assert(notes[k - 1].bpm == bpm);
        assert(start + (k - 1) * step + step == start + k * step) by (nonlinear_arith);
    } else {
        assert(k * step == 0) by (nonlinear_arith) requires k == 0;
    }
}

/// An empty measure moves the cursor by exactly one measure at the current
/// tempo, and no note comes out of it.
pub proof fn lemma_empty_measure(bpm: int, num: int, den: int)
    requires
        valid_bpm(bpm),
        valid_measure(num, den),
    ensures
        sounding(Seq::<Note>::empty()).len() == 0,
        measure_len(bpm, num, den) == note_step(bpm, num, den, 1),
        measure_len(bpm, num, den) >= 0,
{
    assert(WHOLE * num >= 0 && bpm * den > 0) by (nonlinear_arith)
        requires 0 < num, 0 < bpm, 0 < den;
    assert((WHOLE * num) / (bpm * den) >= 0) by (nonlinear_arith)
        requires WHOLE * num >= 0, bpm * den > 0;
}

} // verus!
