use tja_render::balloon::clean_balloon;
use tja_render::directives::{parse_directive, Directive};
use tja_render::model::{Chart, NoteType};
use tja_render::number::{parse_fixed, parse_i32};
use tja_render::parser::{find_course, Course, TJAParser};
use tja_render::text::normalize_line;

fn chars(s: &str) -> Vec<char> {
    s.chars().collect()
}

fn parse(text: &str) -> TJAParser {
    let mut p = TJAParser::new();
    p.parse_str(text).expect("chart parses");
    p
}

fn first_chart(p: &TJAParser) -> &Chart {
    &p.get_charts()[0]
}

#[test]
fn normalize_line_strips_comment_and_space() {
    assert_eq!(normalize_line("  BPM:120 // tempo ").as_deref(), Some("BPM:120"));
    assert_eq!(normalize_line("   // only a comment"), None);
    assert_eq!(normalize_line(""), None);
}

#[test]
fn end_to_end_single_measure() {
    let p = parse("BPM:120\nOFFSET:0\n#START\n1102,\n#END\n");
    assert_eq!(p.get_charts().len(), 1);
    let seg = &first_chart(&p).segments[0];
    let got: Vec<(NoteType, i64)> = seg.notes.iter().map(|n| (n.note_type, n.timestamp)).collect();
    assert_eq!(
        got,
        vec![(NoteType::Don, 0), (NoteType::Don, 500_000_000), (NoteType::Ka, 1_500_000_000)]
    );
}

#[test]
fn even_spacing_under_one_tempo() {
    let p = parse("BPM:120\n#START\n1111,\n#END\n");
    let seg = &first_chart(&p).segments[0];
    let times: Vec<i64> = seg.notes.iter().map(|n| n.timestamp).collect();
    assert_eq!(times, vec![0, 500_000_000, 1_000_000_000, 1_500_000_000]);
}

#[test]
fn empty_measure_advances_one_measure() {
    let p = parse("BPM:120\n#START\n1,\n,\n1,\n#END\n");
    let c = first_chart(&p);
    assert_eq!(c.segments[0].notes[0].timestamp, 0);
    assert_eq!(c.segments[1].notes.len(), 0);
    assert_eq!(c.segments[2].notes[0].timestamp, 4_000_000_000);
}

#[test]
fn rests_never_stay_in_closed_segments() {
    let p = parse("BPM:120\n#START\n0000,\n1010,\n#END\n");
    let c = first_chart(&p);
    for s in &c.segments[..c.segments.len() - 1] {
        assert!(s.notes.iter().all(|n| n.note_type != NoteType::Empty));
    }
    assert_eq!(c.segments[1].notes.len(), 2);
    assert_eq!(c.segments[1].notes[1].timestamp, 2_000_000_000 + 1_000_000_000);
}

#[test]
fn offset_and_delay_shift_times() {
    let p = parse("BPM:120\nOFFSET:-1.5\n#START\n#DELAY 0.25\n1,\n#END\n");
    let seg = &first_chart(&p).segments[0];
    assert_eq!(seg.notes[0].timestamp, 1_500_000_000 + 250_000_000);
}

#[test]
fn tempo_change_mid_measure_gives_unequal_slices() {
    let p = parse("BPM:120\n#START\n11\n#BPMCHANGE 240\n11,\n#END\n");
    let times: Vec<i64> = first_chart(&p).segments[0].notes.iter().map(|n| n.timestamp).collect();
    assert_eq!(times, vec![0, 500_000_000, 1_000_000_000, 1_250_000_000]);
}

#[test]
fn measure_directive_changes_length() {
    let p = parse("BPM:120\n#START\n#MEASURE 3/4\n1,\n1,\n#END\n");
    let c = first_chart(&p);
    assert_eq!(c.segments[1].notes[0].timestamp, 1_500_000_000);
    assert_eq!(c.segments[1].measure_num, 3);
    assert_eq!(c.segments[1].measure_den, 4);
}

#[test]
fn balloon_header_is_cleaned() {
    assert_eq!(clean_balloon(&chars("5, 3,x,7")), chars("5,3,7"));
    assert_eq!(clean_balloon(&chars("-4,,+2")), chars("-4,2"));
    let p = parse("COURSE:Oni\nBALLOON:5, 3,x,7\n#START\n1,\n#END\n");
    let h = &first_chart(&p).headers;
    let v = h.iter().rev().find(|e| e.key == "BALLOON").map(|e| e.value.clone());
    assert_eq!(v.as_deref(), Some("5,3,7"));
}

#[test]
fn keys_are_upper_cased() {
    let p = parse("bpm:150\n#START\n11,\n#END\n");
    assert_eq!(p.get_metadata().unwrap().bpm, 150_000_000);
    let times: Vec<i64> = first_chart(&p).segments[0].notes.iter().map(|n| n.timestamp).collect();
    assert_eq!(times, vec![0, 800_000_000]);
}

#[test]
fn players_and_double_charts() {
    let text = "COURSE:Oni\nSTYLE:double\n#START P1\n1,\n#END\n#START P2\n2,\n#END\n#START\n1,\n#END\n";
    let p = parse(text);
    assert_eq!(p.get_charts().len(), 3);
    assert_eq!(p.get_charts_for_player(1).len(), 1);
    assert_eq!(p.get_charts_for_player(2).len(), 1);
    assert_eq!(p.get_charts_for_player(0).len(), 1);
    let d = p.get_double_charts();
    assert_eq!(d.len(), 1);
    assert_eq!(d[0].0.player, 1);
    assert_eq!(d[0].1.player, 2);
}

#[test]
fn inherited_headers_reach_later_charts() {
    let p = parse("COURSE:Hard\nLEVEL:7\n#START\n1,\n#END\nCOURSE:Oni\n#START\n1,\n#END\n");
    let last = |c: &Chart, k: &str| c.headers.iter().rev().find(|e| e.key == k).map(|e| e.value.clone());
    assert_eq!(last(&p.get_charts()[0], "COURSE").as_deref(), Some("Hard"));
    assert_eq!(last(&p.get_charts()[1], "COURSE").as_deref(), Some("Oni"));
    assert_eq!(last(&p.get_charts()[1], "LEVEL").as_deref(), Some("7"));
}

#[test]
fn timestamps_out_of_range_fail() {
    let mut text = String::from("BPM:0.000001\n#START\n");
    for _ in 0..60 {
        text.push_str(",\n");
    }
    let mut p = TJAParser::new();
    assert_eq!(p.parse_str(&text), Err(String::from("timestamp out of range")));
}

#[test]
fn notes_before_start_are_dropped() {
    let p = parse("BPM:120\n1111,\n");
    assert_eq!(p.get_charts().len(), 0);
}

#[test]
fn numbers_read_as_decimals() {
    assert_eq!(parse_fixed(&chars("120")), Some(120_000_000));
    assert_eq!(parse_fixed(&chars("-1.5")), Some(-1_500_000));
    assert_eq!(parse_fixed(&chars(".25")), Some(250_000));
    assert_eq!(parse_fixed(&chars("0.1234567")), Some(123_456));
    assert_eq!(parse_fixed(&chars("abc")), None);
    assert_eq!(parse_fixed(&chars("")), None);
    assert_eq!(parse_i32(&chars("+42")), Some(42));
    assert_eq!(parse_i32(&chars("2147483648")), None);
    assert_eq!(parse_i32(&chars("-2147483648")), Some(i32::MIN));
}

#[test]
fn directives_read_their_arguments() {
    assert!(matches!(parse_directive(&chars("BPMCHANGE 150.5")), Some(Directive::BpmChange(150_500_000))));
    assert!(matches!(parse_directive(&chars("BPMCHANGE:0")), None));
    assert!(matches!(parse_directive(&chars("MEASURE 7/8")), Some(Directive::Measure(7, 8))));
    assert!(matches!(parse_directive(&chars("MEASURE 0/8")), None));
    assert!(matches!(parse_directive(&chars("DELAY 0.5")), Some(Directive::Delay(500_000_000))));
    assert!(matches!(parse_directive(&chars("START P2")), Some(Directive::Start(2))));
    assert!(matches!(parse_directive(&chars("START")), Some(Directive::Start(0))));
    assert!(matches!(parse_directive(&chars("LYRIC hello")), None));
    match parse_directive(&chars("BRANCHSTART p,80,90")) {
        Some(Directive::BranchStart(c)) => assert_eq!(c, "p,80,90"),
        _ => panic!("branch start expected"),
    }
}

#[test]
fn parsed_copy_matches_parser() {
    let p = parse("TITLE:Song\nBPM:150\nOFFSET:0.5\n#START\n12,\n#END\n");
    let parsed = p.get_parsed_tja();
    assert_eq!(parsed.metadata.bpm, 150_000_000);
    assert_eq!(parsed.metadata.offset, 500_000_000);
    assert_eq!(parsed.charts.len(), 1);
    let a: Vec<i64> = parsed.charts[0].segments[0].notes.iter().map(|n| n.timestamp).collect();
    assert_eq!(a, vec![-500_000_000, 300_000_000]);
}

#[test]
fn course_is_found_by_name_or_number() {
    assert_eq!(Course::parse("Oni"), Some(Course::Oni));
    assert_eq!(Course::parse("2"), Some(Course::Hard));
    assert_eq!(Course::parse("Ura"), None);
    let p = parse("COURSE:Easy\n#START\n1,\n#END\nCOURSE:3\n#START\n1,\n#END\n");
    assert_eq!(find_course(p.get_charts(), Course::Oni), Some(1));
    assert_eq!(find_course(p.get_charts(), Course::Easy), Some(0));
    assert_eq!(find_course(p.get_charts(), Course::Hard), None);
}

#[test]
fn parser_state_starts_at_defaults() {
    let s = tja_render::ParserState::new(120_000_000);
    assert_eq!(s.measure(), (4, 4));
    assert_eq!(s.scroll, 1_000_000);
    assert!(!s.parsing_chart);
}

#[test]
fn unicode_whitespace_is_trimmed() {
    assert_eq!(normalize_line("\u{3000}a\u{3000}").as_deref(), Some("a"));
    let p = parse("COURSE:Oni\u{3000}\nBPM:\u{3000}120\n#START\n1,\n#END\n");
    assert_eq!(p.get_metadata().unwrap().bpm, 120_000_000);
    assert_eq!(find_course(p.get_charts(), Course::Oni), Some(0));
}

#[test]
fn long_integers_with_leading_zeros_read() {
    assert_eq!(parse_i32(&chars("0000000000000000000042")), Some(42));
    assert_eq!(parse_i32(&chars("-0000000000000000000002147483648")), Some(i32::MIN));
    assert_eq!(parse_i32(&chars("99999999999999999999999")), None);
    assert_eq!(parse_i32(&chars("12a")), None);
    assert_eq!(parse_i32(&chars("-")), None);
}

#[test]
fn very_fast_tempo_changes_apply() {
    assert!(matches!(
        parse_directive(&chars("BPMCHANGE 2000000")),
        Some(Directive::BpmChange(2_000_000_000_000))
    ));
}

fn times(p: &TJAParser, seg: usize) -> Vec<i64> {
    first_chart(p).segments[seg].notes.iter().map(|n| n.timestamp).collect()
}

#[test]
fn worked_examples_with_colon_directives() {
    let p = parse("BPM:120\nOFFSET:0\n#START\n#DELAY:0.5\n11,\n#END");
    assert_eq!(times(&p, 0), vec![500_000_000, 1_500_000_000]);
    let p = parse("BPM:120\nOFFSET:0\n#START\n1,,1,\n#END");
    assert_eq!(times(&p, 0), vec![0]);
    assert!(times(&p, 1).is_empty());
    assert_eq!(times(&p, 2), vec![4_000_000_000]);
    let p = parse("BPM:120\nOFFSET:0\n#START\n11,\n#BPMCHANGE:60\n11,\n#END");
    assert_eq!(times(&p, 0), vec![0, 1_000_000_000]);
    assert_eq!(times(&p, 1), vec![2_000_000_000, 4_000_000_000]);
    let p = parse("BPM:120\nOFFSET:0\n#START\n1\n#BPMCHANGE:60\n1,\n1,\n#END");
    assert_eq!(times(&p, 0), vec![0, 1_000_000_000]);
    assert_eq!(times(&p, 1), vec![3_000_000_000]);
    let p = parse("BPM:120\nOFFSET:1.5\n#START\n11,\n#END");
    assert_eq!(times(&p, 0), vec![-1_500_000_000, -500_000_000]);
}

#[test]
fn text_outside_bodies_is_dropped() {
    let p = parse("BPM:120\nOFFSET:0\n1111,\n#START\n1,\n#END\n22,");
    assert_eq!(p.get_charts().len(), 1);
    let notes: Vec<_> = first_chart(&p).segments.iter().flat_map(|s| s.notes.iter()).collect();
    assert_eq!(notes.len(), 1);
    assert_eq!((notes[0].note_type, notes[0].timestamp), (NoteType::Don, 0));
}

#[test]
fn metadata_lines_may_come_last() {
    let a = parse("BPM:150\nOFFSET:0.5\n#START\n12,\n#END\n");
    let b = parse("#START\n12,\n#END\nBPM:150\nOFFSET:0.5\n");
    assert_eq!(times(&a, 0), times(&b, 0));
    assert_eq!(a.get_metadata().unwrap().bpm, b.get_metadata().unwrap().bpm);
    assert_eq!(a.get_metadata().unwrap().offset, b.get_metadata().unwrap().offset);
}
