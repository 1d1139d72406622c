//! Tests of the binary and text codecs.

use td3pattern::binary::{pattern_to_sysex, sysex_to_pattern};
use td3pattern::errors::{CodecError, TextViolation};
use td3pattern::pattern::Pattern;
use td3pattern::step::{Accent, Slide, Step, Time, Transpose};
use td3pattern::text::{pattern_to_string, string_to_pattern};

fn varied_pattern() -> Pattern {
    let mut p = Pattern::default();
    p.triplet = true;
    p.active_steps = 12;
    for n in 0..16 {
        let s = &mut p.step[n];
        s.note = (n % 13) as u8;
        s.transpose = match n % 3 {
            0 => Transpose::Down,
            1 => Transpose::Normal,
            _ => Transpose::Up,
        };
        s.accent = if n % 2 == 0 { Accent::On } else { Accent::Off };
        s.slide = if n % 5 == 0 { Slide::On } else { Slide::Off };
        s.time = match n % 4 {
            0 => Time::Tie,
            1 => Time::Normal,
            2 => Time::TieRest,
            _ => Time::Rest,
        };
    }
    p
}

/// A payload whose every step is note C with transpose Down (raw 12).
fn base_payload() -> Vec<u8> {
    let mut m = vec![0u8; 115];
    for n in 0..16 {
        m[5 + 2 * n] = 0;
        m[6 + 2 * n] = 12;
    }
    m
}

#[test]
fn binary_round_trip_default_sixteen_active() {
    let mut p = Pattern::default();
    p.active_steps = 16;
    p.triplet = true;
    let bytes = pattern_to_sysex(&p, 0, 0, 0);
    assert_eq!(bytes.len(), 115);
    let q = sysex_to_pattern(&bytes).expect("payload must decode");
    assert_eq!(q.active_steps, 16);
    assert!(q.triplet);
    for n in 0..16 {
        assert_eq!(q.step[n], Step::default());
    }
    assert_eq!(p, q);
}

#[test]
fn binary_round_trip_varied() {
    let p = varied_pattern();
    let bytes = pattern_to_sysex(&p, 3, 7, 1);
    let q = sysex_to_pattern(&bytes).expect("payload must decode");
    assert_eq!(p, q);
}

#[test]
fn binary_decode_then_encode_is_identity() {
    let p = varied_pattern();
    let bytes = pattern_to_sysex(&p, 2, 5, 1);
    let q = sysex_to_pattern(&bytes).expect("payload must decode");
    let again = pattern_to_sysex(&q, 2, 5, 1);
    assert_eq!(bytes, again);
}

#[test]
fn encode_layout_exact_bytes() {
    let mut p = Pattern::default();
    p.active_steps = 16;
    p.step[0].time = Time::Rest;
    let m = pattern_to_sysex(&p, 1, 2, 1);
    assert_eq!(m[0], 0x78);
    assert_eq!(m[1], 1);
    assert_eq!(m[2], 2 + (1 << 3));
    assert_eq!(m[3], 0);
    assert_eq!(m[4], 1);
    // note C, transpose Normal: composed value 12 + 0 + 12 = 24 = 0x18
    assert_eq!(m[5], 0x01);
    assert_eq!(m[6], 0x08);
    // accent and slide both off
    assert_eq!(m[0x26], 0);
    assert_eq!(m[0x46], 0);
    // triplet off, sixteen active steps as a nibble pair
    assert_eq!(m[0x66], 0);
    assert_eq!(m[0x67], 1);
    assert_eq!(m[0x68], 0);
    // step 0 is Rest (tie bit and rest bit both set); all other steps
    // are Normal (tie bit set, rest bit clear)
    assert_eq!(m[0x6B], 0x0F);
    assert_eq!(m[0x6C], 0x0F);
    assert_eq!(m[0x6D], 0x0F);
    assert_eq!(m[0x6E], 0x0F);
    assert_eq!(m[0x6F], 0x00);
    assert_eq!(m[0x70], 0x01);
    assert_eq!(m[0x71], 0x00);
    assert_eq!(m[0x72], 0x00);
}

#[test]
fn decode_rejects_short_payload() {
    let m = vec![0u8; 114];
    match sysex_to_pattern(&m) {
        Err(CodecError::SizeContractViolation { expected, found }) => {
            assert_eq!(expected, 115);
            assert_eq!(found, 114);
        }
        other => panic!("expected a size violation, got {:?}", other),
    }
}

#[test]
fn decode_raw_zero_is_malformed() {
    // raw note value 0 gives transpose -1, outside the tri-state range
    let m = vec![0u8; 115];
    match sysex_to_pattern(&m) {
        Err(CodecError::MalformedBinaryField { step, raw, upper_c }) => {
            assert_eq!(step, 0);
            assert_eq!(raw, 0);
            assert!(!upper_c);
        }
        other => panic!("expected a malformed field, got {:?}", other),
    }
}

#[test]
fn decode_raw_twelve_is_transpose_down() {
    let m = base_payload();
    let p = sysex_to_pattern(&m).expect("payload must decode");
    assert_eq!(p.step[0].note, 0);
    assert_eq!(p.step[0].transpose, Transpose::Down);
    // tie and rest bits are all clear, which codes the Tie class
    assert_eq!(p.step[0].time, Time::Tie);
}

#[test]
fn decode_upper_c_quirk_without_bit() {
    // raw 0x30 with bit 3 of the first pair byte clear must still set
    // the upper-C flag: note 12, transpose Up
    let mut m = base_payload();
    m[5] = 0x03;
    m[6] = 0x00;
    assert_eq!(m[5] & 0x08, 0);
    let p = sysex_to_pattern(&m).expect("payload must decode");
    assert_eq!(p.step[0].note, 12);
    assert_eq!(p.step[0].transpose, Transpose::Up);
}

#[test]
fn decode_rest_dominates_tie() {
    // both bits of step 0 set: the step must decode to Rest, not Tie
    let mut m = base_payload();
    m[0x6C] = 0x01;
    m[0x70] = 0x01;
    let p = sysex_to_pattern(&m).expect("payload must decode");
    assert_eq!(p.step[0].time, Time::Rest);
    // tie bit alone codes Normal; rest bit alone codes TieRest
    let mut m2 = base_payload();
    m2[0x6C] = 0x01;
    let p2 = sysex_to_pattern(&m2).expect("payload must decode");
    assert_eq!(p2.step[0].time, Time::Normal);
    let mut m3 = base_payload();
    m3[0x70] = 0x01;
    let p3 = sysex_to_pattern(&m3).expect("payload must decode");
    assert_eq!(p3.step[0].time, Time::TieRest);
}

#[test]
fn decode_active_steps_nibble_pair() {
    let mut m = base_payload();
    m[0x67] = 1;
    m[0x68] = 6;
    let p = sysex_to_pattern(&m).expect("payload must decode");
    assert_eq!(p.active_steps, 22);
}

#[test]
fn render_default_exact() {
    let p = Pattern::default();
    let text = pattern_to_string(&p);
    assert_eq!(text, "TD-3 Pattern\nActive Steps: 1, Triplet Time: Off\n\n// Step:    01, 02, 03, 04, 05, 06, 07, 08, 09, 10, 11, 12, 13, 14, 15, 16\nNote:       C , C , C , C , C , C , C , C , C , C , C , C , C , C , C , C   // C -C# .. B -C^\nTranspose:    ,   ,   ,   ,   ,   ,   ,   ,   ,   ,   ,   ,   ,   ,   ,     // DN-  -UP\nAccent:       ,   ,   ,   ,   ,   ,   ,   ,   ,   ,   ,   ,   ,   ,   ,     //   -AC\nSlide:        ,   ,   ,   ,   ,   ,   ,   ,   ,   ,   ,   ,   ,   ,   ,     //   -SL\nTie/Rest:     ,   ,   ,   ,   ,   ,   ,   ,   ,   ,   ,   ,   ,   ,   ,     //   -TI-RE\n// A tied step holds its note; rest wins when tie and rest are both set\n");
}

#[test]
fn text_round_trip_default() {
    let p = Pattern::default();
    let q = string_to_pattern(pattern_to_string(&p)).expect("rendered text must parse");
    assert_eq!(p, q);
}

#[test]
fn text_round_trip_varied() {
    let p = varied_pattern();
    let q = string_to_pattern(pattern_to_string(&p)).expect("rendered text must parse");
    assert_eq!(p, q);
}

#[test]
fn parse_accepts_edited_spacing() {
    let text = "TD-3 Pattern\n\
        Active Steps:   7 ,  Triplet Time:   On\n\
        Note:      C,C#,D,D#,E,F,F#,G,G#,A,A#,B,C^,C,C,C\n\
        Transpose: DN,,UP,dn,,up,DN,,UP,DN,,UP,DN,,UP,DN\n\
        Accent:    AC,,ac,AC,,AC,,AC,,AC,,AC,,AC,,AC\n\
        Slide:     ,SL,,sl,,SL,,SL,,SL,,SL,,SL,,SL\n\
        Tie/Rest:  TI,RE,TR,ti,re,tr,,TI,RE,TR,,TI,RE,TR,,TI\n";
    let p = string_to_pattern(text.to_string()).expect("edited text must parse");
    assert_eq!(p.active_steps, 7);
    assert!(p.triplet);
    assert_eq!(p.step[0].note, 0);
    assert_eq!(p.step[12].note, 12);
    assert_eq!(p.step[0].transpose, Transpose::Down);
    assert_eq!(p.step[3].transpose, Transpose::Down);
    assert_eq!(p.step[1].transpose, Transpose::Normal);
    assert_eq!(p.step[2].transpose, Transpose::Up);
    assert_eq!(p.step[2].accent, Accent::On);
    assert_eq!(p.step[3].slide, Slide::On);
    assert_eq!(p.step[0].time, Time::Tie);
    assert_eq!(p.step[1].time, Time::Rest);
    assert_eq!(p.step[2].time, Time::TieRest);
    assert_eq!(p.step[3].time, Time::Tie);
    assert_eq!(p.step[6].time, Time::Normal);
}

#[test]
fn parse_rejects_wrong_header() {
    let text = "TD-4 Pattern\n";
    match string_to_pattern(text.to_string()) {
        Err(CodecError::TextGrammarViolation(TextViolation::Header { found })) => {
            assert_eq!(found, "TD-4 Pattern");
        }
        other => panic!("expected a header violation, got {:?}", other),
    }
}

#[test]
fn parse_rejects_bad_metadata() {
    let text = "TD-3 Pattern\nActive Steps: 300, Triplet Time: On\n";
    match string_to_pattern(text.to_string()) {
        Err(CodecError::TextGrammarViolation(TextViolation::Metadata { found })) => {
            assert_eq!(found, "Active Steps: 300, Triplet Time: On");
        }
        other => panic!("expected a metadata violation, got {:?}", other),
    }
}

#[test]
fn parse_rejects_unknown_token() {
    // an unknown transpose token must name the field, position and text
    let mut p = Pattern::default();
    p.active_steps = 1;
    let good = pattern_to_string(&p);
    let bad = good.replace(
        "Transpose:    ,   ",
        "Transpose:    ,XY ",
    );
    assert_ne!(good, bad);
    match string_to_pattern(bad) {
        Err(CodecError::TextGrammarViolation(TextViolation::UnknownToken {
            label,
            index,
            found,
        })) => {
            assert_eq!(label, "Transpose:");
            assert_eq!(index, 1);
            assert_eq!(found, "XY");
        }
        other => panic!("expected an unknown token, got {:?}", other),
    }
}

#[test]
fn parse_rejects_wrong_token_count() {
    let text = "TD-3 Pattern\n\
        Active Steps: 1, Triplet Time: Off\n\
        Note:      C,C,C,C,C,C,C,C,C,C,C,C,C,C,C\n";
    match string_to_pattern(text.to_string()) {
        Err(CodecError::TextGrammarViolation(TextViolation::TokenCount { label, count })) => {
            assert_eq!(label, "Note:");
            assert_eq!(count, 15);
        }
        other => panic!("expected a token count violation, got {:?}", other),
    }
}

#[test]
fn parse_rejects_missing_slide_line() {
    // all lines present except Slide: the parser must name the missing
    // label instead of shifting the following line into the field
    let text = "TD-3 Pattern\n\
        Active Steps: 16, Triplet Time: Off\n\
        Note:      C,C,C,C,C,C,C,C,C,C,C,C,C,C,C,C\n\
        Transpose: ,,,,,,,,,,,,,,,\n\
        Accent:    ,,,,,,,,,,,,,,,\n\
        Tie/Rest:  ,,,,,,,,,,,,,,,\n";
    match string_to_pattern(text.to_string()) {
        Err(CodecError::TextGrammarViolation(TextViolation::MissingField { label, found })) => {
            assert_eq!(label, "Slide:");
            assert_eq!(found, "Tie/Rest:  ,,,,,,,,,,,,,,,");
        }
        other => panic!("expected a missing field, got {:?}", other),
    }
}

#[test]
fn hand_built_payload_survives_decode_encode() {
    // a payload in the exact wire shape, built by hand: decoding it and
    // re-encoding to the slot named in its own header gives it back
    let mut m = base_payload();
    m[0] = 0x78;
    m[1] = 2;
    m[2] = 0x0A; // pattern 2, side B
    m[3] = 0;
    m[4] = 1;
    m[0x66] = 1;
    m[0x67] = 1;
    m[0x68] = 0;
    m[0x6C] = 0x0F;
    m[0x70] = 0x03;
    let p = sysex_to_pattern(&m).expect("payload must decode");
    let pnum = m[2] & 7;
    let ab = (m[2] >> 3) & 1;
    let again = pattern_to_sysex(&p, m[1], pnum, ab);
    assert_eq!(m, again);
}

#[test]
fn metadata_accepts_byte_range_boundary() {
    let mut p = Pattern::default();
    p.active_steps = 255;
    let q = string_to_pattern(pattern_to_string(&p)).expect("255 active steps must parse");
    assert_eq!(q.active_steps, 255);
}
