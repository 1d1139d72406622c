//! Tests of the step value types and their token mappings.

use td3pattern::pattern::Pattern;
use td3pattern::step::{Accent, Slide, Step, Time, Transpose};

#[test]
fn default_step_fields() {
    let s = Step::default();
    assert_eq!(s.note, 0);
    assert_eq!(s.transpose, Transpose::Normal);
    assert_eq!(s.accent, Accent::Off);
    assert_eq!(s.slide, Slide::Off);
    assert_eq!(s.time, Time::Normal);
}

#[test]
fn default_pattern_fields() {
    let p = Pattern::default();
    assert!(!p.triplet);
    assert_eq!(p.active_steps, 1);
    assert_eq!(p.step.len(), 16);
    for s in &p.step {
        assert_eq!(*s, Step::default());
    }
}

#[test]
fn transpose_tokens_round() {
    assert_eq!(Transpose::from_str("DN"), Ok(Transpose::Down));
    assert_eq!(Transpose::from_str("dn"), Ok(Transpose::Down));
    assert_eq!(Transpose::from_str(""), Ok(Transpose::Normal));
    assert_eq!(Transpose::from_str("  "), Ok(Transpose::Normal));
    assert_eq!(Transpose::from_str(" up "), Ok(Transpose::Up));
    assert_eq!(Transpose::from_str("XY"), Err(()));
    assert_eq!(Transpose::Down.token(), "DN");
    assert_eq!(Transpose::Normal.token(), "");
    assert_eq!(Transpose::Up.token(), "UP");
}

#[test]
fn transpose_codes() {
    assert_eq!(Transpose::Down.code(), 0);
    assert_eq!(Transpose::Normal.code(), 1);
    assert_eq!(Transpose::Up.code(), 2);
    assert_eq!(Transpose::try_from(0), Ok(Transpose::Down));
    assert_eq!(Transpose::try_from(1), Ok(Transpose::Normal));
    assert_eq!(Transpose::try_from(2), Ok(Transpose::Up));
    assert_eq!(Transpose::try_from(3), Err(()));
}

#[test]
fn accent_slide_tokens() {
    assert_eq!(Accent::from_str("AC"), Ok(Accent::On));
    assert_eq!(Accent::from_str("ac"), Ok(Accent::On));
    assert_eq!(Accent::from_str(""), Ok(Accent::Off));
    assert_eq!(Accent::from_str("ZZ"), Err(()));
    assert_eq!(Slide::from_str("SL"), Ok(Slide::On));
    assert_eq!(Slide::from_str(""), Ok(Slide::Off));
    assert_eq!(Slide::from_str("Q"), Err(()));
    assert_eq!(Accent::try_from(1), Ok(Accent::On));
    assert_eq!(Accent::try_from(2), Err(()));
    assert_eq!(Slide::try_from(0), Ok(Slide::Off));
    assert_eq!(Slide::try_from(9), Err(()));
}

#[test]
fn time_tokens_and_codes() {
    assert_eq!(Time::from_str(""), Ok(Time::Normal));
    assert_eq!(Time::from_str("TI"), Ok(Time::Tie));
    assert_eq!(Time::from_str("RE"), Ok(Time::Rest));
    assert_eq!(Time::from_str("TR"), Ok(Time::TieRest));
    assert_eq!(Time::from_str("tr"), Ok(Time::TieRest));
    assert_eq!(Time::from_str("??"), Err(()));
    // the two-bit code: tie is bit 0, rest is bit 1
    assert_eq!(Time::Tie.code(), 0b00);
    assert_eq!(Time::Normal.code(), 0b01);
    assert_eq!(Time::TieRest.code(), 0b10);
    assert_eq!(Time::Rest.code(), 0b11);
    assert_eq!(Time::try_from(0), Ok(Time::Tie));
    assert_eq!(Time::try_from(3), Ok(Time::Rest));
    assert_eq!(Time::try_from(4), Err(()));
    assert_eq!(Time::Rest.flags(), (1, 1));
    assert_eq!(Time::TieRest.flags(), (0, 1));
}

#[test]
fn reader_skips_comments_and_blanks() {
    let lines: Vec<Vec<char>> = vec![
        "".chars().collect(),
        "  // only a comment".chars().collect(),
        "  first line  // trailing".chars().collect(),
        "second".chars().collect(),
    ];
    let mut pos = 0usize;
    let l1 = td3pattern::text::next_nonempty_line(&lines, &mut pos);
    assert_eq!(l1.iter().collect::<String>(), "first line");
    let l2 = td3pattern::text::next_nonempty_line(&lines, &mut pos);
    assert_eq!(l2.iter().collect::<String>(), "second");
    let l3 = td3pattern::text::next_nonempty_line(&lines, &mut pos);
    assert!(l3.is_empty());
}

#[test]
fn split_entries_reads_sixteen_tokens() {
    let lines: Vec<Vec<char>> = vec![
        "Note:      C, C#, D, D#, E, F, F#, G, G#, A, A#, B, C^, C, C, C".chars().collect(),
    ];
    let mut pos = 0usize;
    let toks = td3pattern::text::split_entries(&lines, &mut pos, "Note:      ", "Note:")
        .expect("a full line must split");
    assert_eq!(toks.len(), 16);
    assert_eq!(toks[1].iter().collect::<String>(), "C#");
    assert_eq!(toks[12].iter().collect::<String>(), "C^");
}
