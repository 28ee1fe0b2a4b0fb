use tja_render::parser::TJAParser;
use tja_render::render::{mix_into, render, resample, schedule, Hit, Sound, ONE};

fn chart_segments(text: &str) -> Vec<tja_render::model::Segment> {
    let mut p = TJAParser::new();
    p.parse_str(text).expect("chart parses");
    p.get_charts()[0].segments.clone()
}

#[test]
fn resample_same_rate_is_identity() {
    let s = vec![1, -2, 3, 4, 5];
    assert_eq!(resample(&s, 44100, 44100), s);
}

#[test]
fn resample_double_rate_keeps_source_at_even_positions() {
    let s = vec![0, 100, -100, 50];
    let r = resample(&s, 22050, 44100);
    assert_eq!(r.len(), 8);
    for k in 0..s.len() {
        assert_eq!(r[2 * k], s[k]);
    }
    assert_eq!(r[1], 50);
    assert_eq!(r[3], 0);
    assert_eq!(r[7], 50);
}

#[test]
fn resample_half_rate_rounds_length() {
    let s = vec![10, 20, 30, 40, 50];
    let r = resample(&s, 2, 1);
    assert_eq!(r, vec![10, 30, 50]);
}

#[test]
fn mixing_clamps_to_full_scale() {
    let mut out = vec![ONE - 10, -ONE + 10, 0, 7];
    let sound = vec![100, -100, ONE];
    mix_into(&mut out, &sound, 0, true);
    assert_eq!(out, vec![ONE, -ONE, ONE, 7]);
    let mut out2 = vec![0, 0];
    mix_into(&mut out2, &vec![10, 10, 10], 1, false);
    assert_eq!(out2, vec![0, 10]);
    let mut out3 = vec![0];
    mix_into(&mut out3, &vec![-10], 0, true);
    assert_eq!(out3, vec![-12]);
}

#[test]
fn two_second_roll_plays_thirty_hits() {
    let segs = chart_segments("BPM:120\n#START\n5000,8000,\n#END\n");
    let (hits, missing) = schedule(&segs, None, 1000, 1_000_000);
    assert!(missing.is_empty());
    assert_eq!(hits.len(), 30);
    for (h, hit) in hits.iter().enumerate() {
        let t = 2_000_000_000i64 * h as i64 / 30;
        assert_eq!(*hit, Hit { pos: ((t * 1000 / 1_000_000_000) * 2) as usize, sound: Sound::Don, gogo: false });
    }
}

#[test]
fn roll_without_end_plays_nothing() {
    let segs = chart_segments("BPM:120\n#START\n51,\n#END\n");
    let (hits, missing) = schedule(&segs, None, 1000, 1_000_000);
    assert_eq!(missing, vec![0]);
    assert_eq!(hits, vec![Hit { pos: 2000, sound: Sound::Don, gogo: false }]);
}

#[test]
fn branch_filter_skips_other_branches() {
    let text = "BPM:120\n#START\n#BRANCHSTART E\n1,\n#BRANCHSTART M\n,\n2,\n#BRANCHEND\n#END\n";
    let segs = chart_segments(text);
    let e = String::from("E");
    let (hits, _) = schedule(&segs, Some(&e), 1000, 1_000_000);
    assert!(hits.iter().all(|h| h.sound == Sound::Don));
    let (all, _) = schedule(&segs, None, 1000, 1_000_000);
    assert_eq!(all.len(), 2);
}

#[test]
fn render_mixes_hits_into_track() {
    let segs = chart_segments("BPM:120\nOFFSET:0\n#GOGOSTART\n#START\n#GOGOSTART\n12,\n#END\n");
    let music = vec![0; 4000];
    let don = vec![1000, 1000];
    let ka = vec![-500];
    let (out, missing) = render(&music, 1000, &don, 500, &ka, 1000, &segs, None);
    assert!(missing.is_empty());
    assert_eq!(out.len(), 4000);
    assert_eq!(&out[0..4], &[1200, 1200, 1200, 1200]);
    assert_eq!(out[4], 0);
    assert_eq!(out[2000], -600);
}

#[test]
fn interleave_pairs_channels() {
    let l = vec![1, 2, 3];
    let r = vec![-1, -2, -3];
    assert_eq!(tja_render::render::interleave(&l, &r), vec![1, -1, 2, -2, 3, -3]);
    assert_eq!(tja_render::render::interleave(&l, &l), vec![1, 1, 2, 2, 3, 3]);
}
