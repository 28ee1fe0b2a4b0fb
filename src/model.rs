use vstd::prelude::*;

verus! {

/// What one lane event is.
#[derive(Clone, Copy, Debug, PartialEq, Eq, Structural)]
pub enum NoteType {
    Empty,
    Don,
    Ka,
    DonBig,
    KaBig,
    Roll,
    RollBig,
    Balloon,
    EndOf,
    BalloonAlt,
}

/// The note type that a chart digit stands for.
pub open spec fn note_type_of(c: char) -> Option<NoteType> {
    if c == '0' {
        Some(NoteType::Empty)
    } else if c == '1' {
        Some(NoteType::Don)
    } else if c == '2' {
        Some(NoteType::Ka)
    } else if c == '3' {
        Some(NoteType::DonBig)
    } else if c == '4' {
        Some(NoteType::KaBig)
    } else if c == '5' {
        Some(NoteType::Roll)
    } else if c == '6' {
        Some(NoteType::RollBig)
    } else if c == '7' {
        Some(NoteType::Balloon)
    } else if c == '8' {
        Some(NoteType::EndOf)
    } else if c == '9' {
        Some(NoteType::BalloonAlt)
    } else {
        None
    }
}

impl NoteType {
    pub fn from_char(c: char) -> (r: Option<NoteType>)
        ensures
            r == note_type_of(c),
    {
        match c {
            '0' => Some(NoteType::Empty),
            '1' => Some(NoteType::Don),
            '2' => Some(NoteType::Ka),
            '3' => Some(NoteType::DonBig),
            '4' => Some(NoteType::KaBig),
            '5' => Some(NoteType::Roll),
            '6' => Some(NoteType::RollBig),
            '7' => Some(NoteType::Balloon),
            '8' => Some(NoteType::EndOf),
            '9' => Some(NoteType::BalloonAlt),
            _ => None,
        }
    }
}

/// Timestamp of a note whose time is not resolved yet.
pub const UNRESOLVED: i64 = -1;

/// One timed lane event. Times are in nanoseconds; tempo and scroll are in
/// millionths (a tempo of 120 BPM is `120_000_000`).
#[derive(Clone, Copy, Debug, PartialEq, Eq, Structural)]
pub struct Note {
    pub note_type: NoteType,
    pub timestamp: i64,
    pub bpm: i64,
    pub delay: i64,
    pub scroll: i64,
    pub gogo: bool,
}

/// One measure's worth of notes with the context active when it was opened.
#[derive(Clone, Debug)]
pub struct Segment {
    pub measure_num: i32,
    pub measure_den: i32,
    pub barline: bool,
    pub branch_active: bool,
    pub branch: Option<String>,
    pub notes: Vec<Note>,
}

impl Segment {
    pub fn new(
        measure_num: i32,
        measure_den: i32,
        barline: bool,
        branch_active: bool,
        branch: Option<String>,
    ) -> (r: Segment)
        ensures
            r.measure_num == measure_num,
            r.measure_den == measure_den,
            r.barline == barline,
            r.branch_active == branch_active,
            r.branch == branch,
            r.notes@.len() == 0,
    {
        Segment { measure_num, measure_den, barline, branch_active, branch, notes: Vec::new() }
    }
}

/// One header entry of a chart.
#[derive(Clone, Debug)]
pub struct Header {
    pub key: String,
    pub value: String,
}

/// One playable difficulty or player variant.
#[derive(Clone, Debug)]
pub struct Chart {
    pub headers: Vec<Header>,
    pub player: i32,
    pub segments: Vec<Segment>,
}

/// The notes of `s` that are not rests, in order.
pub open spec fn sounding(s: Seq<Note>) -> Seq<Note>
    decreases s.len(),
{
    if s.len() == 0 {
        s
    } else if s.last().note_type == NoteType::Empty {
        sounding(s.drop_last())
    } else {
        sounding(s.drop_last()).push(s.last())
    }
}

pub proof fn lemma_sounding_has_no_rest(s: Seq<Note>)
    ensures
        forall|i: int| 0 <= i < sounding(s).len() ==> sounding(s)[i].note_type != NoteType::Empty,
    decreases s.len(),
{
    if s.len() > 0 {
        lemma_sounding_has_no_rest(s.drop_last());
    }
}

/// Chart-wide settings: tempo in millionths of a BPM, offset in nanoseconds.
#[derive(Clone, Debug)]
pub struct Metadata {
    pub entries: Vec<Header>,
    pub bpm: i64,
    pub offset: i64,
}

} // verus!
