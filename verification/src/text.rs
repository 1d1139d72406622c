//! The text codec: between a pattern and a human-editable document.
//!
//! The rendered document is a fixed multi-line layout: a header line,
//! a metadata line, a step-index comment, then one line per field with
//! 16 comma-separated two-character tokens and a trailing comment.
//! Parsing ignores comments, blank lines and token padding, and fails
//! on any other deviation.

use crate::chars::{
    chars_to_string, comment_start, copy_range, eq_str, is_space, parse_u8_digits,
    push_u8_dec, spec_comment_start, spec_is_digit, spec_is_space, spec_parse_u8, spec_split,
    spec_starts_with, spec_trim, spec_trim_left, spec_trim_right, spec_u8_dec, spec_upper,
    split_char,
    starts_with_str, str_chars, trim, lemma_comment_start_range,
};
use crate::errors::{result_model, CodecError, ErrorModel, TextViolation};
use crate::pattern::{Pattern, PatternModel};
use crate::step::{
    accent_token, slide_token, spec_accent_from_str, spec_slide_from_str, spec_time_from_str,
    spec_transpose_from_str, time_token, transpose_token, Accent, Slide, Step, Time, Transpose,
};
use vstd::prelude::*;
use vstd::string::{StrSliceExecFns, StringExecFns};

verus! {

/// The name of note `n` in the 13-entry table, low C to high C.
pub open spec fn spec_note_name(n: int) -> Seq<char> {
    if n == 0 {
        "C"@
    } else if n == 1 {
        "C#"@
    } else if n == 2 {
        "D"@
    } else if n == 3 {
        "D#"@
    } else if n == 4 {
        "E"@
    } else if n == 5 {
        "F"@
    } else if n == 6 {
        "F#"@
    } else if n == 7 {
        "G"@
    } else if n == 8 {
        "G#"@
    } else if n == 9 {
        "A"@
    } else if n == 10 {
        "A#"@
    } else if n == 11 {
        "B"@
    } else {
        "C^"@
    }
}

/// The name of note `n`.
pub fn note_name(n: u8) -> (r: &'static str)
    requires
        n <= 12,
    ensures
        r@ == spec_note_name(n as int),
{
    if n == 0 {
        "C"
    } else if n == 1 {
        "C#"
    } else if n == 2 {
        "D"
    } else if n == 3 {
        "D#"
    } else if n == 4 {
        "E"
    } else if n == 5 {
        "F"
    } else if n == 6 {
        "F#"
    } else if n == 7 {
        "G"
    } else if n == 8 {
        "G#"
    } else if n == 9 {
        "A"
    } else if n == 10 {
        "A#"
    } else if n == 11 {
        "B"
    } else {
        "C^"
    }
}

/// A token padded to the two-character cell width.
pub open spec fn spec_pad2(t: Seq<char>) -> Seq<char> {
    if t.len() == 0 {
        seq![' ', ' ']
    } else if t.len() == 1 {
        t + seq![' ']
    } else {
        t
    }
}

/// Cell `j` of a rendered field line: a separator, a space, and the
/// padded token.
pub open spec fn spec_cell(toks: Seq<Seq<char>>, j: int) -> Seq<char> {
    (if j == 0 {
        seq![' ']
    } else {
        seq![',', ' ']
    }) + spec_pad2(toks[j])
}

/// The first `i` cells of a rendered field line.
pub open spec fn spec_cells(toks: Seq<Seq<char>>, i: int) -> Seq<char>
    decreases i,
{
    if i <= 0 {
        Seq::<char>::empty()
    } else {
        spec_cells(toks, i - 1) + spec_cell(toks, i - 1)
    }
}

/// The note tokens of a pattern's steps.
pub open spec fn spec_note_tokens(s: Seq<Step>) -> Seq<Seq<char>> {
    Seq::new(16, |i: int| spec_note_name(s[i].note as int))
}

/// The transpose tokens of a pattern's steps.
pub open spec fn spec_transpose_tokens(s: Seq<Step>) -> Seq<Seq<char>> {
    Seq::new(16, |i: int| transpose_token(s[i].transpose))
}

/// The accent tokens of a pattern's steps.
pub open spec fn spec_accent_tokens(s: Seq<Step>) -> Seq<Seq<char>> {
    Seq::new(16, |i: int| accent_token(s[i].accent))
}

/// The slide tokens of a pattern's steps.
pub open spec fn spec_slide_tokens(s: Seq<Step>) -> Seq<Seq<char>> {
    Seq::new(16, |i: int| slide_token(s[i].slide))
}

/// The timing tokens of a pattern's steps.
pub open spec fn spec_time_tokens(s: Seq<Step>) -> Seq<Seq<char>> {
    Seq::new(16, |i: int| time_token(s[i].time))
}

/// The 1-based step numbers of the index comment, zero-padded.
pub open spec fn spec_num_tokens() -> Seq<Seq<char>> {
    Seq::new(
        16,
        |i: int|
            seq![
                crate::chars::spec_digit_char((i + 1) / 10),
                crate::chars::spec_digit_char((i + 1) % 10),
            ],
    )
}

/// The metadata line of a rendered pattern.
pub open spec fn spec_meta_line(p: PatternModel) -> Seq<char> {
    "Active Steps: "@ + spec_u8_dec(p.active_steps) + ", Triplet Time: "@ + (if p.triplet {
        "On"@
    } else {
        "Off"@
    })
}

/// The rendered text of a pattern: header, metadata, step-index
/// comment, five field lines with trailing comments, and a closing
/// comment, each line ending in a newline.
pub open spec fn spec_join_lines(ls: Seq<Seq<char>>) -> Seq<char>
    decreases ls.len(),
{
    if ls.len() == 0 {
        Seq::<char>::empty()
    } else {
        ls[0] + (seq!['\n'] + spec_join_lines(ls.drop_first()))
    }
}

/// The ten physical lines of a rendered pattern: header, metadata, a
/// blank separator, the step-index comment, the five field lines, and
/// a closing comment.
pub open spec fn spec_render_lines(p: PatternModel) -> Seq<Seq<char>> {
    seq![
        "TD-3 Pattern"@,
        spec_meta_line(p),
        Seq::<char>::empty(),
        "// Step:   "@ + spec_cells(spec_num_tokens(), 16),
        "Note:      "@ + spec_cells(spec_note_tokens(p.steps), 16) + "  // C -C# .. B -C^"@,
        "Transpose: "@ + spec_cells(spec_transpose_tokens(p.steps), 16) + "  // DN-  -UP"@,
        "Accent:    "@ + spec_cells(spec_accent_tokens(p.steps), 16) + "  //   -AC"@,
        "Slide:     "@ + spec_cells(spec_slide_tokens(p.steps), 16) + "  //   -SL"@,
        "Tie/Rest:  "@ + spec_cells(spec_time_tokens(p.steps), 16) + "  //   -TI-RE"@,
        "// A tied step holds its note; rest wins when tie and rest are both set"@,
    ]
}

/// The rendered text of a pattern: its lines, each ending in a newline.
pub open spec fn spec_render(p: PatternModel) -> Seq<char> {
    spec_join_lines(spec_render_lines(p))
}

/// The rendered text written out flat, line by line.
#[verifier::rlimit(100)]
#[verifier::spinoff_prover]
proof fn lemma_render_flat(p: PatternModel)
    ensures
        spec_render(p) == "TD-3 Pattern"@ + seq!['\n'] + spec_meta_line(p) + seq!['\n'] + Seq::<char>::empty()
            + seq!['\n'] + ("// Step:   "@ + spec_cells(spec_num_tokens(), 16)) + seq!['\n'] + (
        "Note:      "@ + spec_cells(spec_note_tokens(p.steps), 16) + "  // C -C# .. B -C^"@)
            + seq!['\n'] + ("Transpose: "@ + spec_cells(spec_transpose_tokens(p.steps), 16)
            + "  // DN-  -UP"@) + seq!['\n'] + ("Accent:    "@ + spec_cells(
            spec_accent_tokens(p.steps),
            16,
        ) + "  //   -AC"@) + seq!['\n'] + ("Slide:     "@ + spec_cells(
            spec_slide_tokens(p.steps),
            16,
        ) + "  //   -SL"@) + seq!['\n'] + ("Tie/Rest:  "@ + spec_cells(
            spec_time_tokens(p.steps),
            16,
        ) + "  //   -TI-RE"@) + seq!['\n']
            + "// A tied step holds its note; rest wins when tie and rest are both set"@
            + seq!['\n'],
{
    let ls = spec_render_lines(p);
    let nl = seq!['\n'];
    let t9 = seq![ls[9]];
    let t8 = seq![ls[8], ls[9]];
    let t7 = seq![ls[7], ls[8], ls[9]];
    let t6 = seq![ls[6], ls[7], ls[8], ls[9]];
    let t5 = seq![ls[5], ls[6], ls[7], ls[8], ls[9]];
    let t4 = seq![ls[4], ls[5], ls[6], ls[7], ls[8], ls[9]];
    let t3 = seq![ls[3], ls[4], ls[5], ls[6], ls[7], ls[8], ls[9]];
    let t2 = seq![ls[2], ls[3], ls[4], ls[5], ls[6], ls[7], ls[8], ls[9]];
    let t1 = seq![ls[1], ls[2], ls[3], ls[4], ls[5], ls[6], ls[7], ls[8], ls[9]];
    let f9 = ls[9] + nl;
    let f8 = ls[8] + nl + f9;
    let f7 = ls[7] + nl + f8;
    let f6 = ls[6] + nl + f7;
    let f5 = ls[5] + nl + f6;
    let f4 = ls[4] + nl + f5;
    let f3 = ls[3] + nl + f4;
    let f2 = ls[2] + nl + f3;
    let f1 = ls[1] + nl + f2;
    let f0 = ls[0] + nl + f1;
    assert(t9.drop_first() =~~= Seq::<Seq<char>>::empty());
    assert(spec_join_lines(Seq::<Seq<char>>::empty()) =~= Seq::<char>::empty());
    assert(spec_join_lines(t9) =~= f9);
    assert(t8.drop_first() =~~= t9);
    assert(spec_join_lines(t8) =~= f8);
    assert(t7.drop_first() =~~= t8);
    assert(spec_join_lines(t7) =~= f7);
    assert(t6.drop_first() =~~= t7);
    assert(spec_join_lines(t6) =~= f6);
    assert(t5.drop_first() =~~= t6);
    assert(spec_join_lines(t5) =~= f5);
    assert(t4.drop_first() =~~= t5);
    assert(spec_join_lines(t4) =~= f4);
    assert(t3.drop_first() =~~= t4);
    assert(spec_join_lines(t3) =~= f3);
    assert(t2.drop_first() =~~= t3);
    assert(spec_join_lines(t2) =~= f2);
    assert(t1.drop_first() =~~= t2);
    assert(spec_join_lines(t1) =~= f1);
    assert(ls.drop_first() =~~= t1);
    assert(spec_join_lines(ls) =~= f0);
    assert(spec_render(p) =~= "TD-3 Pattern"@ + seq!['\n'] + spec_meta_line(p) + seq!['\n'] + Seq::<char>::empty()
            + seq!['\n'] + ("// Step:   "@ + spec_cells(spec_num_tokens(), 16)) + seq!['\n'] + (
        "Note:      "@ + spec_cells(spec_note_tokens(p.steps), 16) + "  // C -C# .. B -C^"@)
            + seq!['\n'] + ("Transpose: "@ + spec_cells(spec_transpose_tokens(p.steps), 16)
            + "  // DN-  -UP"@) + seq!['\n'] + ("Accent:    "@ + spec_cells(
            spec_accent_tokens(p.steps),
            16,
        ) + "  //   -AC"@) + seq!['\n'] + ("Slide:     "@ + spec_cells(
            spec_slide_tokens(p.steps),
            16,
        ) + "  //   -SL"@) + seq!['\n'] + ("Tie/Rest:  "@ + spec_cells(
            spec_time_tokens(p.steps),
            16,
        ) + "  //   -TI-RE"@) + seq!['\n']
            + "// A tied step holds its note; rest wins when tie and rest are both set"@
            + seq!['\n']);
}

/// Appends one field line's 16 cells.
fn push_cells(s: &mut String, toks: &Vec<&'static str>)
    requires
        toks@.len() == 16,
    ensures
        final(s)@ == old(s)@ + spec_cells(toks.deep_view(), 16),
{
    let ghost t = toks.deep_view();
    let mut i: usize = 0;
    while i < 16
        invariant
            i <= 16,
            toks@.len() == 16,
            t == toks.deep_view(),
            s@ == old(s)@ + spec_cells(t, i as int),
        decreases 16 - i,
    {
        proof {
            reveal_strlit(" ");
            reveal_strlit(", ");
            reveal_strlit("  ");
        }
        if i == 0 {
            s.append(" ");
        } else {
            s.append(", ");
        }
        let tok = toks[i];
        s.append(tok);
        let l = tok.unicode_len();
        if l == 0 {
            s.append("  ");
        } else if l == 1 {
            s.append(" ");
        }
        proof {
            assert(t[i as int] == toks@[i as int]@);
            assert(spec_pad2(t[i as int]) =~= if t[i as int].len() == 0 {
                seq![' ', ' ']
            } else if t[i as int].len() == 1 {
                t[i as int] + seq![' ']
            } else {
                t[i as int]
            });
            assert(s@ =~= old(s)@ + spec_cells(t, i + 1));
        }
        i = i + 1;
    }
}

/// Appends the step-index comment's 16 cells.
fn push_num_cells(s: &mut String)
    ensures
        final(s)@ == old(s)@ + spec_cells(spec_num_tokens(), 16),
{
    let ghost t = spec_num_tokens();
    let mut i: usize = 0;
    while i < 16
        invariant
            i <= 16,
            t == spec_num_tokens(),
            s@ == old(s)@ + spec_cells(t, i as int),
        decreases 16 - i,
    {
        proof {
            reveal_strlit(" ");
            reveal_strlit(", ");
        }
        if i == 0 {
            s.append(" ");
        } else {
            s.append(", ");
        }
        let n = i + 1;
        s.push((48 + (n / 10) as u8) as char);
        s.push((48 + (n % 10) as u8) as char);
        proof {
            assert(t[i as int].len() == 2);
            assert(spec_pad2(t[i as int]) == t[i as int]);
            assert(s@ =~= old(s)@ + spec_cells(t, i + 1));
        }
        i = i + 1;
    }
}

/// Renders a pattern as its text document.
///
/// The result is exactly `spec_render` of the pattern's model; every
/// line of it is valid parser input, and parsing it restores the
/// pattern.
#[verifier::rlimit(100)]
#[verifier::spinoff_prover]
pub fn pattern_to_string(pattern: &Pattern) -> (r: String)
    requires
        pattern.wf(),
    ensures
        r@ == spec_render(pattern@),
{
    let ghost p = pattern@;
    let mut s = String::new();
    s.append("TD-3 Pattern\n");
    s.append("Active Steps: ");
    push_u8_dec(&mut s, pattern.active_steps);
    s.append(", Triplet Time: ");
    if pattern.triplet {
        s.append("On");
    } else {
        s.append("Off");
    }
    s.append("\n\n");
    proof {
        reveal_strlit("TD-3 Pattern\n");
        reveal_strlit("TD-3 Pattern");
        reveal_strlit("\n\n");
        reveal_strlit("\n");
        assert("TD-3 Pattern\n"@ =~= "TD-3 Pattern"@ + seq!['\n']);
        assert("\n\n"@ =~= seq!['\n'] + seq!['\n']);
        assert(s@ =~= "TD-3 Pattern"@ + seq!['\n'] + spec_meta_line(p) + seq!['\n'] + seq!['\n']);
    }
    let ghost head0 = s@;
    s.append("// Step:   ");
    push_num_cells(&mut s);
    s.append("\n");
    proof {
        reveal_strlit("\n");
        assert(s@ =~= head0 + "// Step:   "@ + spec_cells(spec_num_tokens(), 16) + seq!['\n']);
    }
    let ghost head1 = s@;
    let mut note_toks: Vec<&'static str> = Vec::new();
    let mut tr_toks: Vec<&'static str> = Vec::new();
    let mut ac_toks: Vec<&'static str> = Vec::new();
    let mut sl_toks: Vec<&'static str> = Vec::new();
    let mut ti_toks: Vec<&'static str> = Vec::new();
    let mut n: usize = 0;
    while n < 16
        invariant
            n <= 16,
            pattern.wf(),
            p == pattern@,
            note_toks.deep_view() == spec_note_tokens(p.steps).take(n as int),
            tr_toks.deep_view() == spec_transpose_tokens(p.steps).take(n as int),
            ac_toks.deep_view() == spec_accent_tokens(p.steps).take(n as int),
            sl_toks.deep_view() == spec_slide_tokens(p.steps).take(n as int),
            ti_toks.deep_view() == spec_time_tokens(p.steps).take(n as int),
        decreases 16 - n,
    {
        let ghost pre_note = note_toks.deep_view();
        let ghost pre_tr = tr_toks.deep_view();
        let ghost pre_ac = ac_toks.deep_view();
        let ghost pre_sl = sl_toks.deep_view();
        let ghost pre_ti = ti_toks.deep_view();
        let st = &pattern.step[n];
        note_toks.push(note_name(st.note));
        tr_toks.push(st.transpose.token());
        ac_toks.push(st.accent.token());
        sl_toks.push(st.slide.token());
        ti_toks.push(st.time.token());
        n = n + 1;
        proof {
            let j = n - 1;
            assert(note_toks.deep_view() =~~= pre_note.push(spec_note_name(p.steps[j].note as int)));
            assert(tr_toks.deep_view() =~~= pre_tr.push(transpose_token(p.steps[j].transpose)));
            assert(ac_toks.deep_view() =~~= pre_ac.push(accent_token(p.steps[j].accent)));
            assert(sl_toks.deep_view() =~~= pre_sl.push(slide_token(p.steps[j].slide)));
            assert(ti_toks.deep_view() =~~= pre_ti.push(time_token(p.steps[j].time)));
            assert(note_toks.deep_view() =~~= spec_note_tokens(p.steps).take(n as int));
            assert(tr_toks.deep_view() =~~= spec_transpose_tokens(p.steps).take(n as int));
            assert(ac_toks.deep_view() =~~= spec_accent_tokens(p.steps).take(n as int));
            assert(sl_toks.deep_view() =~~= spec_slide_tokens(p.steps).take(n as int));
            assert(ti_toks.deep_view() =~~= spec_time_tokens(p.steps).take(n as int));
        }
    }
    proof {
        assert(note_toks.deep_view() =~~= spec_note_tokens(p.steps));
        assert(tr_toks.deep_view() =~~= spec_transpose_tokens(p.steps));
        assert(ac_toks.deep_view() =~~= spec_accent_tokens(p.steps));
        assert(sl_toks.deep_view() =~~= spec_slide_tokens(p.steps));
        assert(ti_toks.deep_view() =~~= spec_time_tokens(p.steps));
    }
    s.append("Note:      ");
    push_cells(&mut s, &note_toks);
    s.append("  // C -C# .. B -C^\n");
    proof {
        reveal_strlit("  // C -C# .. B -C^\n");
        reveal_strlit("  // C -C# .. B -C^");
        reveal_strlit("\n");
        assert("  // C -C# .. B -C^\n"@ =~= "  // C -C# .. B -C^"@ + seq!['\n']);
        assert(s@ =~= head1 + "Note:      "@ + spec_cells(spec_note_tokens(p.steps), 16)
            + "  // C -C# .. B -C^"@ + seq!['\n']);
    }
    let ghost head2 = s@;
    s.append("Transpose: ");
    push_cells(&mut s, &tr_toks);
    s.append("  // DN-  -UP\n");
    proof {
        reveal_strlit("  // DN-  -UP\n");
        reveal_strlit("  // DN-  -UP");
        reveal_strlit("\n");
        assert("  // DN-  -UP\n"@ =~= "  // DN-  -UP"@ + seq!['\n']);
        assert(s@ =~= head2 + "Transpose: "@ + spec_cells(spec_transpose_tokens(p.steps), 16)
            + "  // DN-  -UP"@ + seq!['\n']);
    }
    let ghost head3 = s@;
    s.append("Accent:    ");
    push_cells(&mut s, &ac_toks);
    s.append("  //   -AC\n");
    proof {
        reveal_strlit("  //   -AC\n");
        reveal_strlit("  //   -AC");
        reveal_strlit("\n");
        assert("  //   -AC\n"@ =~= "  //   -AC"@ + seq!['\n']);
        assert(s@ =~= head3 + "Accent:    "@ + spec_cells(spec_accent_tokens(p.steps), 16)
            + "  //   -AC"@ + seq!['\n']);
    }
    let ghost head4 = s@;
    s.append("Slide:     ");
    push_cells(&mut s, &sl_toks);
    s.append("  //   -SL\n");
    proof {
        reveal_strlit("  //   -SL\n");
        reveal_strlit("  //   -SL");
        reveal_strlit("\n");
        assert("  //   -SL\n"@ =~= "  //   -SL"@ + seq!['\n']);
        assert(s@ =~= head4 + "Slide:     "@ + spec_cells(spec_slide_tokens(p.steps), 16)
            + "  //   -SL"@ + seq!['\n']);
    }
    let ghost head5 = s@;
    s.append("Tie/Rest:  ");
    push_cells(&mut s, &ti_toks);
    s.append("  //   -TI-RE\n");
    s.append("// A tied step holds its note; rest wins when tie and rest are both set\n");
    proof {
        reveal_strlit("  //   -TI-RE\n");
        reveal_strlit("  //   -TI-RE");
        reveal_strlit("// A tied step holds its note; rest wins when tie and rest are both set\n");
        reveal_strlit("// A tied step holds its note; rest wins when tie and rest are both set");
        reveal_strlit("\n");
        assert("  //   -TI-RE\n"@ =~= "  //   -TI-RE"@ + seq!['\n']);
        assert("// A tied step holds its note; rest wins when tie and rest are both set\n"@
            =~= "// A tied step holds its note; rest wins when tie and rest are both set"@
            + seq!['\n']);
        assert(s@ =~= head5 + "Tie/Rest:  "@ + spec_cells(spec_time_tokens(p.steps), 16)
            + "  //   -TI-RE"@ + seq!['\n']
            + "// A tied step holds its note; rest wins when tie and rest are both set"@
            + seq!['\n']);
        lemma_render_flat(p);
        assert(s@ =~= "TD-3 Pattern"@ + seq!['\n'] + spec_meta_line(p) + seq!['\n'] + Seq::<char>::empty()
            + seq!['\n'] + ("// Step:   "@ + spec_cells(spec_num_tokens(), 16)) + seq!['\n'] + (
        "Note:      "@ + spec_cells(spec_note_tokens(p.steps), 16) + "  // C -C# .. B -C^"@)
            + seq!['\n'] + ("Transpose: "@ + spec_cells(spec_transpose_tokens(p.steps), 16)
            + "  // DN-  -UP"@) + seq!['\n'] + ("Accent:    "@ + spec_cells(
            spec_accent_tokens(p.steps),
            16,
        ) + "  //   -AC"@) + seq!['\n'] + ("Slide:     "@ + spec_cells(
            spec_slide_tokens(p.steps),
            16,
        ) + "  //   -SL"@) + seq!['\n'] + ("Tie/Rest:  "@ + spec_cells(
            spec_time_tokens(p.steps),
            16,
        ) + "  //   -TI-RE"@) + seq!['\n']
            + "// A tied step holds its note; rest wins when tie and rest are both set"@
            + seq!['\n']);
        assert(s@ == spec_render(p));
    }
    s
}

} // verus!

verus! {

/// A raw line with its comment cut off and both ends trimmed.
pub open spec fn spec_clean_line(l: Seq<char>) -> Seq<char> {
    spec_trim(l.take(spec_comment_start(l)))
}

/// The significant lines among `ls`: each cleaned, blank ones dropped.
pub open spec fn spec_sig_of(ls: Seq<Seq<char>>) -> Seq<Seq<char>>
    decreases ls.len(),
{
    if ls.len() == 0 {
        Seq::<Seq<char>>::empty()
    } else {
        let c = spec_clean_line(ls[0]);
        let rest = spec_sig_of(ls.drop_first());
        if c.len() > 0 {
            seq![c] + rest
        } else {
            rest
        }
    }
}

/// The significant lines of a document.
pub open spec fn spec_sig_lines(s: Seq<char>) -> Seq<Seq<char>> {
    spec_sig_of(spec_split(s, '\n'))
}

/// Significant line `k`, or the empty line past the end.
pub open spec fn spec_line_at(sig: Seq<Seq<char>>, k: int) -> Seq<char> {
    if 0 <= k < sig.len() {
        sig[k]
    } else {
        Seq::<char>::empty()
    }
}

/// The significant lines still unread after `k` have been consumed.
pub open spec fn spec_suffix(sig: Seq<Seq<char>>, k: int) -> Seq<Seq<char>> {
    if 0 <= k <= sig.len() {
        sig.skip(k)
    } else {
        Seq::<Seq<char>>::empty()
    }
}

proof fn lemma_suffix_step(sig: Seq<Seq<char>>, k: int)
    requires
        0 <= k,
    ensures
        spec_line_at(sig, k) == (if spec_suffix(sig, k).len() > 0 {
            spec_suffix(sig, k)[0]
        } else {
            Seq::<char>::empty()
        }),
        spec_suffix(sig, k + 1) == (if spec_suffix(sig, k).len() > 0 {
            spec_suffix(sig, k).drop_first()
        } else {
            spec_suffix(sig, k)
        }),
{
    if k < sig.len() {
        assert(sig.skip(k)[0] == sig[k]);
        assert(sig.skip(k).drop_first() =~~= spec_suffix(sig, k + 1));
    } else {
        assert(spec_suffix(sig, k) =~~= Seq::<Seq<char>>::empty());
        assert(spec_suffix(sig, k + 1) =~~= Seq::<Seq<char>>::empty());
    }
}

/// Cleans one raw line: comment cut, ends trimmed.
pub fn clean_line(l: &Vec<char>) -> (r: Vec<char>)
    ensures
        r@ == spec_clean_line(l@),
{
    let k = comment_start(l);
    proof {
        lemma_comment_start_range(l@);
    }
    let cut = copy_range(l, 0, k);
    proof {
        assert(cut@ =~= l@.take(spec_comment_start(l@)));
    }
    trim(&cut)
}

/// Returns the next significant line, advancing `pos` past it; returns
/// the empty line when the input is exhausted.
pub fn next_nonempty_line(lines: &Vec<Vec<char>>, pos: &mut usize) -> (r: Vec<char>)
    requires
        *old(pos) <= lines@.len(),
    ensures
        *final(pos) <= lines@.len(),
        ({
            let sig = spec_sig_of(lines.deep_view().skip(*old(pos) as int));
            &&& r@ == (if sig.len() > 0 {
                sig[0]
            } else {
                Seq::<char>::empty()
            })
            &&& spec_sig_of(lines.deep_view().skip(*final(pos) as int)) == (if sig.len() > 0 {
                sig.drop_first()
            } else {
                sig
            })
        }),
{
    let ghost deep = lines.deep_view();
    while *pos < lines.len()
        invariant
            *pos <= lines@.len(),
            *old(pos) <= *pos,
            deep == lines.deep_view(),
            deep.len() == lines@.len(),
            spec_sig_of(deep.skip(*pos as int)) == spec_sig_of(deep.skip(*old(pos) as int)),
        decreases lines@.len() - *pos,
    {
        let i = *pos;
        let line = clean_line(&lines[i]);
        *pos = i + 1;
        proof {
            let suf = deep.skip(i as int);
            assert(suf[0] == lines@[i as int].deep_view());
            assert(lines@[i as int].deep_view() =~= lines@[i as int]@);
            assert(suf.drop_first() =~~= deep.skip(i + 1));
            assert(spec_sig_of(suf) == (if spec_clean_line(suf[0]).len() > 0 {
                seq![spec_clean_line(suf[0])] + spec_sig_of(deep.skip(i + 1))
            } else {
                spec_sig_of(deep.skip(i + 1))
            }));
        }
        if line.len() > 0 {
            proof {
                let sig = spec_sig_of(deep.skip(*old(pos) as int));
                assert(sig[0] == line@);
                assert(sig.drop_first() =~~= spec_sig_of(deep.skip(*pos as int)));
            }
            return line;
        }
    }
    proof {
        assert(deep.skip(lines@.len() as int) =~~= Seq::<Seq<char>>::empty());
    }
    Vec::new()
}

/// First index at or after `i` that is not grammar whitespace.
pub open spec fn spec_skip_spaces(l: Seq<char>, i: int) -> int
    decreases l.len() - i,
{
    if 0 <= i < l.len() && spec_is_space(l[i]) {
        spec_skip_spaces(l, i + 1)
    } else {
        i
    }
}

/// First index at or after `i` that is not a decimal digit.
pub open spec fn spec_digit_end(l: Seq<char>, i: int) -> int
    decreases l.len() - i,
{
    if 0 <= i < l.len() && spec_is_digit(l[i]) {
        spec_digit_end(l, i + 1)
    } else {
        i
    }
}

fn skip_spaces(l: &Vec<char>, i: usize) -> (r: usize)
    requires
        i <= l@.len(),
    ensures
        r == spec_skip_spaces(l@, i as int),
        i <= r <= l@.len(),
{
    let mut j = i;
    while j < l.len() && is_space(l[j])
        invariant
            i <= j <= l@.len(),
            spec_skip_spaces(l@, i as int) == spec_skip_spaces(l@, j as int),
        decreases l@.len() - j,
    {
        j = j + 1;
    }
    j
}

fn digit_end(l: &Vec<char>, i: usize) -> (r: usize)
    requires
        i <= l@.len(),
    ensures
        r == spec_digit_end(l@, i as int),
        i <= r <= l@.len(),
{
    let mut j = i;
    while j < l.len() && l[j] >= '0' && l[j] <= '9'
        invariant
            i <= j <= l@.len(),
            spec_digit_end(l@, i as int) == spec_digit_end(l@, j as int),
        decreases l@.len() - j,
    {
        j = j + 1;
    }
    j
}

/// The characters of `p` occur in `s` at position `at`.
pub open spec fn spec_matches_at(s: Seq<char>, p: Seq<char>, at: int) -> bool {
    0 <= at && at + p.len() <= s.len() && s.subrange(at, at + p.len()) == p
}

fn matches_at(v: &Vec<char>, p: &str, at: usize) -> (r: bool)
    ensures
        r == spec_matches_at(v@, p@, at as int),
{
    let n = p.unicode_len();
    let vlen = v.len();
    if at > vlen || vlen - at < n {
        return false;
    }
    let mut k: usize = 0;
    while k < n
        invariant
            k <= n,
            n == p@.len(),
            vlen == v@.len(),
            at + n <= vlen,
            forall|j: int| 0 <= j < k ==> v@[at + j] == p@[j],
        decreases n - k,
    {
        if v[at + k] != p.get_char(k) {
            proof {
                assert(v@.subrange(at as int, at + p@.len())[k as int] != p@[k as int]);
            }
            return false;
        }
        k = k + 1;
    }
    proof {
        assert(v@.subrange(at as int, at + p@.len()) =~= p@);
    }
    true
}

/// The metadata line read as an active-step count and a triplet flag:
/// the two labels exactly, a decimal byte value, a comma, and `On` or
/// `Off`, with any spacing between the parts.
pub open spec fn spec_parse_meta(l: Seq<char>) -> Option<(u8, bool)> {
    if !spec_starts_with(l, "Active Steps:"@) {
        None
    } else {
        let i1 = spec_skip_spaces(l, "Active Steps:"@.len() as int);
        let i2 = spec_digit_end(l, i1);
        if i2 == i1 {
            None
        } else {
            match spec_parse_u8(l.subrange(i1, i2)) {
                None => None,
                Some(v) => {
                    let i3 = spec_skip_spaces(l, i2);
                    if !(i3 < l.len() && l[i3] == ',') {
                        None
                    } else {
                        let i4 = spec_skip_spaces(l, i3 + 1);
                        if !spec_matches_at(l, "Triplet Time:"@, i4) {
                            None
                        } else {
                            let i5 = spec_skip_spaces(l, i4 + "Triplet Time:"@.len());
                            let tail = l.skip(i5);
                            if tail == "On"@ {
                                Some((v, true))
                            } else if tail == "Off"@ {
                                Some((v, false))
                            } else {
                                None
                            }
                        }
                    }
                }
            }
        }
    }
}

/// Reads the metadata line.
fn parse_meta(l: &Vec<char>) -> (r: Option<(u8, bool)>)
    ensures
        r == spec_parse_meta(l@),
{
    if !starts_with_str(l, "Active Steps:") {
        return None;
    }
    let lab = "Active Steps:";
    let i1 = skip_spaces(l, lab.unicode_len());
    let i2 = digit_end(l, i1);
    if i2 == i1 {
        return None;
    }
    let digits = copy_range(l, i1, i2);
    match parse_u8_digits(&digits) {
        None => None,
        Some(v) => {
            let i3 = skip_spaces(l, i2);
            if i3 >= l.len() || l[i3] != ',' {
                return None;
            }
            let i4 = skip_spaces(l, i3 + 1);
            let trip = "Triplet Time:";
            if !matches_at(l, trip, i4) {
                return None;
            }
            let i5 = skip_spaces(l, i4 + trip.unicode_len());
            let tail = copy_range(l, i5, l.len());
            proof {
                assert(tail@ =~= l@.skip(i5 as int));
            }
            if eq_str(&tail, "On") {
                Some((v, true))
            } else if eq_str(&tail, "Off") {
                Some((v, false))
            } else {
                None
            }
        },
    }
}

} // verus!

verus! {

/// The comma-separated tokens of a field line, after its label,
/// each trimmed.
pub open spec fn spec_trimmed_tokens(l: Seq<char>, labellen: int) -> Seq<Seq<char>> {
    let pieces = spec_split(l.skip(labellen), ',');
    Seq::new(pieces.len(), |i: int| spec_trim(pieces[i]))
}

/// Reading one field line: the exact label as prefix, then exactly 16
/// comma-separated tokens.  A missing or mislabelled line, and a wrong
/// token count, are each their own grammar violation.
pub open spec fn spec_field_tokens(l: Seq<char>, label: Seq<char>, short: Seq<char>) -> Result<
    Seq<Seq<char>>,
    ErrorModel,
> {
    if !spec_starts_with(l, label) {
        Err(ErrorModel::MissingField { label: short, found: l })
    } else {
        let toks = spec_trimmed_tokens(l, label.len() as int);
        if toks.len() != 16 {
            Err(ErrorModel::TokenCount { label: short, count: toks.len() as int })
        } else {
            Ok(toks)
        }
    }
}

/// Reads the next significant line as the field line labelled `label`,
/// returning its 16 trimmed tokens.
pub fn split_entries(lines: &Vec<Vec<char>>, pos: &mut usize, label: &str, short: &str) -> (r:
    Result<Vec<Vec<char>>, CodecError>)
    requires
        *old(pos) <= lines@.len(),
    ensures
        *final(pos) <= lines@.len(),
        ({
            let sig = spec_sig_of(lines.deep_view().skip(*old(pos) as int));
            let line = if sig.len() > 0 {
                sig[0]
            } else {
                Seq::<char>::empty()
            };
            &&& (r is Ok ==> spec_field_tokens(line, label@, short@) == Ok::<
                Seq<Seq<char>>,
                ErrorModel,
            >(r->Ok_0.deep_view()))
            &&& (r is Err ==> spec_field_tokens(line, label@, short@) == Err::<
                Seq<Seq<char>>,
                ErrorModel,
            >(r->Err_0@))
            &&& spec_sig_of(lines.deep_view().skip(*final(pos) as int)) == (if sig.len() > 0 {
                sig.drop_first()
            } else {
                sig
            })
        }),
{
    let line = next_nonempty_line(lines, pos);
    if !starts_with_str(&line, label) {
        return Err(
            CodecError::TextGrammarViolation(
                TextViolation::MissingField {
                    label: String::from_str(short),
                    found: chars_to_string(&line),
                },
            ),
        );
    }
    let lab_n = label.unicode_len();
    let pieces = split_char(&line, lab_n, ',');
    let ghost pdeep = pieces.deep_view();
    let mut toks: Vec<Vec<char>> = Vec::new();
    let mut i: usize = 0;
    while i < pieces.len()
        invariant
            i <= pieces@.len(),
            pdeep == pieces.deep_view(),
            pdeep.len() == pieces@.len(),
            toks.deep_view() == Seq::new(i as nat, |j: int| spec_trim(pdeep[j])),
        decreases pieces@.len() - i,
    {
        let ghost pre = toks.deep_view();
        toks.push(trim(&pieces[i]));
        i = i + 1;
        proof {
            assert(pieces@[i - 1].deep_view() =~= pieces@[i - 1]@);
            assert(pdeep[i - 1] == pieces@[i - 1]@);
            assert(toks.deep_view() =~~= pre.push(spec_trim(pdeep[i - 1])));
            assert(toks.deep_view() =~~= Seq::new(i as nat, |j: int| spec_trim(pdeep[j])));
        }
    }
    proof {
        assert(toks.deep_view() =~~= spec_trimmed_tokens(line@, label@.len() as int));
    }
    if toks.len() != 16 {
        return Err(
            CodecError::TextGrammarViolation(
                TextViolation::TokenCount { label: String::from_str(short), count: toks.len() },
            ),
        );
    }
    Ok(toks)
}

/// The note index named by a token: an exact, case-sensitive match
/// against the 13-entry name table.
pub open spec fn spec_note_from_token(t: Seq<char>) -> Option<u8> {
    if t == "C"@ {
        Some(0u8)
    } else if t == "C#"@ {
        Some(1u8)
    } else if t == "D"@ {
        Some(2u8)
    } else if t == "D#"@ {
        Some(3u8)
    } else if t == "E"@ {
        Some(4u8)
    } else if t == "F"@ {
        Some(5u8)
    } else if t == "F#"@ {
        Some(6u8)
    } else if t == "G"@ {
        Some(7u8)
    } else if t == "G#"@ {
        Some(8u8)
    } else if t == "A"@ {
        Some(9u8)
    } else if t == "A#"@ {
        Some(10u8)
    } else if t == "B"@ {
        Some(11u8)
    } else if t == "C^"@ {
        Some(12u8)
    } else {
        None
    }
}

/// Looks a note token up in the name table.
pub fn note_from_chars(v: &Vec<char>) -> (r: Option<u8>)
    ensures
        r == spec_note_from_token(v@),
{
    if eq_str(v, "C") {
        Some(0)
    } else if eq_str(v, "C#") {
        Some(1)
    } else if eq_str(v, "D") {
        Some(2)
    } else if eq_str(v, "D#") {
        Some(3)
    } else if eq_str(v, "E") {
        Some(4)
    } else if eq_str(v, "F") {
        Some(5)
    } else if eq_str(v, "F#") {
        Some(6)
    } else if eq_str(v, "G") {
        Some(7)
    } else if eq_str(v, "G#") {
        Some(8)
    } else if eq_str(v, "A") {
        Some(9)
    } else if eq_str(v, "A#") {
        Some(10)
    } else if eq_str(v, "B") {
        Some(11)
    } else if eq_str(v, "C^") {
        Some(12)
    } else {
        None
    }
}

/// Builds steps `i..16` from the five token lists.  Tokens are checked
/// step by step, note before transpose before accent before slide
/// before timing; the first token that matches none of its field's
/// symbols stops the parse, naming the field, position and token.
pub open spec fn spec_build_steps(
    nt: Seq<Seq<char>>,
    tt: Seq<Seq<char>>,
    at: Seq<Seq<char>>,
    st: Seq<Seq<char>>,
    ti: Seq<Seq<char>>,
    i: int,
) -> Result<Seq<Step>, ErrorModel>
    decreases 16 - i,
{
    if i < 0 || i >= 16 {
        Ok(Seq::<Step>::empty())
    } else if spec_note_from_token(nt[i]) is None {
        Err(ErrorModel::UnknownToken { label: "Note:"@, index: i, found: nt[i] })
    } else if spec_transpose_from_str(tt[i]) is Err {
        Err(ErrorModel::UnknownToken { label: "Transpose:"@, index: i, found: tt[i] })
    } else if spec_accent_from_str(at[i]) is Err {
        Err(ErrorModel::UnknownToken { label: "Accent:"@, index: i, found: at[i] })
    } else if spec_slide_from_str(st[i]) is Err {
        Err(ErrorModel::UnknownToken { label: "Slide:"@, index: i, found: st[i] })
    } else if spec_time_from_str(ti[i]) is Err {
        Err(ErrorModel::UnknownToken { label: "Tie/Rest:"@, index: i, found: ti[i] })
    } else {
        let s = Step {
            note: spec_note_from_token(nt[i])->Some_0,
            transpose: spec_transpose_from_str(tt[i])->Ok_0,
            accent: spec_accent_from_str(at[i])->Ok_0,
            slide: spec_slide_from_str(st[i])->Ok_0,
            time: spec_time_from_str(ti[i])->Ok_0,
        };
        match spec_build_steps(nt, tt, at, st, ti, i + 1) {
            Ok(rest) => Ok(seq![s] + rest),
            Err(e) => Err(e),
        }
    }
}

/// Parsing a document.  The significant lines must be, in order: the
/// exact header, the metadata line, and the five field lines; any
/// deviation is the corresponding grammar violation, and further
/// significant lines are ignored.
pub open spec fn spec_parse(s: Seq<char>) -> Result<PatternModel, ErrorModel> {
    let sig = spec_sig_lines(s);
    if spec_line_at(sig, 0) != "TD-3 Pattern"@ {
        Err(ErrorModel::Header { found: spec_line_at(sig, 0) })
    } else {
        match spec_parse_meta(spec_line_at(sig, 1)) {
            None => Err(ErrorModel::Metadata { found: spec_line_at(sig, 1) }),
            Some((active, trip)) => match spec_field_tokens(
                spec_line_at(sig, 2),
                "Note:      "@,
                "Note:"@,
            ) {
                Err(e) => Err(e),
                Ok(nt) => match spec_field_tokens(
                    spec_line_at(sig, 3),
                    "Transpose: "@,
                    "Transpose:"@,
                ) {
                    Err(e) => Err(e),
                    Ok(tt) => match spec_field_tokens(
                        spec_line_at(sig, 4),
                        "Accent:    "@,
                        "Accent:"@,
                    ) {
                        Err(e) => Err(e),
                        Ok(at) => match spec_field_tokens(
                            spec_line_at(sig, 5),
                            "Slide:     "@,
                            "Slide:"@,
                        ) {
                            Err(e) => Err(e),
                            Ok(st) => match spec_field_tokens(
                                spec_line_at(sig, 6),
                                "Tie/Rest:  "@,
                                "Tie/Rest:"@,
                            ) {
                                Err(e) => Err(e),
                                Ok(ti) => match spec_build_steps(nt, tt, at, st, ti, 0) {
                                    Err(e) => Err(e),
                                    Ok(steps) => Ok(
                                        PatternModel {
                                            triplet: trip,
                                            active_steps: active,
                                            steps,
                                        },
                                    ),
                                },
                            },
                        },
                    },
                },
            },
        }
    }
}

} // verus!

verus! {

/// Parses a text document back into a pattern.
///
/// The result is exactly `spec_parse` of the input: `Ok` with the
/// parsed pattern when the document follows the grammar, and the first
/// grammar violation in reading order otherwise.
pub fn string_to_pattern(string_pattern: String) -> (r: Result<Pattern, CodecError>)
    ensures
        result_model(r) == spec_parse(string_pattern@),
        r is Ok ==> r->Ok_0.wf(),
{
    let chars = str_chars(string_pattern.as_str());
    let raw_lines = split_char(&chars, 0, '\n');
    let ghost sig = spec_sig_lines(string_pattern@);
    proof {
        assert(chars@.skip(0) =~= chars@);
        assert(raw_lines.deep_view().skip(0) =~~= raw_lines.deep_view());
        assert(spec_sig_of(raw_lines.deep_view().skip(0)) == sig);
        assert(spec_suffix(sig, 0) =~~= sig);
    }
    let mut pos: usize = 0;
    let header = next_nonempty_line(&raw_lines, &mut pos);
    proof {
        lemma_suffix_step(sig, 0);
        assert(header@ == spec_line_at(sig, 0));
        assert(spec_sig_of(raw_lines.deep_view().skip(pos as int)) == spec_suffix(sig, 1));
    }
    if !eq_str(&header, "TD-3 Pattern") {
        return Err(
            CodecError::TextGrammarViolation(
                TextViolation::Header { found: chars_to_string(&header) },
            ),
        );
    }
    let meta_line = next_nonempty_line(&raw_lines, &mut pos);
    proof {
        lemma_suffix_step(sig, 1);
        assert(meta_line@ == spec_line_at(sig, 1));
        assert(spec_sig_of(raw_lines.deep_view().skip(pos as int)) == spec_suffix(sig, 2));
    }
    let parsed_meta = parse_meta(&meta_line);
    if parsed_meta.is_none() {
        return Err(
            CodecError::TextGrammarViolation(
                TextViolation::Metadata { found: chars_to_string(&meta_line) },
            ),
        );
    }
    let (active, trip) = match parsed_meta {
        Some(x) => x,
        None => (0, false),
    };
    let note_toks = match split_entries(&raw_lines, &mut pos, "Note:      ", "Note:") {
        Err(e) => {
            proof {
                lemma_suffix_step(sig, 2);
            }
            return Err(e);
        },
        Ok(t) => {
            proof {
                lemma_suffix_step(sig, 2);
            }
            t
        },
    };
    let tr_toks = match split_entries(&raw_lines, &mut pos, "Transpose: ", "Transpose:") {
        Err(e) => {
            proof {
                lemma_suffix_step(sig, 3);
            }
            return Err(e);
        },
        Ok(t) => {
            proof {
                lemma_suffix_step(sig, 3);
            }
            t
        },
    };
    let ac_toks = match split_entries(&raw_lines, &mut pos, "Accent:    ", "Accent:") {
        Err(e) => {
            proof {
                lemma_suffix_step(sig, 4);
            }
            return Err(e);
        },
        Ok(t) => {
            proof {
                lemma_suffix_step(sig, 4);
            }
            t
        },
    };
    let sl_toks = match split_entries(&raw_lines, &mut pos, "Slide:     ", "Slide:") {
        Err(e) => {
            proof {
                lemma_suffix_step(sig, 5);
            }
            return Err(e);
        },
        Ok(t) => {
            proof {
                lemma_suffix_step(sig, 5);
            }
            t
        },
    };
    let ti_toks = match split_entries(&raw_lines, &mut pos, "Tie/Rest:  ", "Tie/Rest:") {
        Err(e) => {
            proof {
                lemma_suffix_step(sig, 6);
            }
            return Err(e);
        },
        Ok(t) => {
            proof {
                lemma_suffix_step(sig, 6);
            }
            t
        },
    };
    let ghost nt = note_toks.deep_view();
    let ghost tt = tr_toks.deep_view();
    let ghost at = ac_toks.deep_view();
    let ghost st = sl_toks.deep_view();
    let ghost ti = ti_toks.deep_view();
    let mut steps: Vec<Step> = Vec::new();
    let mut i: usize = 0;
    while i < 16
        invariant
            i <= 16,
            steps@.len() == i,
            nt == note_toks.deep_view(),
            tt == tr_toks.deep_view(),
            at == ac_toks.deep_view(),
            st == sl_toks.deep_view(),
            ti == ti_toks.deep_view(),
            note_toks@.len() == 16 && tr_toks@.len() == 16 && ac_toks@.len() == 16
                && sl_toks@.len() == 16 && ti_toks@.len() == 16,
            forall|j: int| 0 <= j < i ==> (#[trigger] steps@[j]).wf(),
            match spec_build_steps(nt, tt, at, st, ti, i as int) {
                Ok(rest) => spec_build_steps(nt, tt, at, st, ti, 0) == Ok::<Seq<Step>, ErrorModel>(
                    steps@ + rest,
                ),
                Err(e) => spec_build_steps(nt, tt, at, st, ti, 0) == Err::<Seq<Step>, ErrorModel>(
                    e,
                ),
            },
            match spec_build_steps(nt, tt, at, st, ti, 0) {
                Ok(stps) => spec_parse(string_pattern@) == Ok::<PatternModel, ErrorModel>(
                    PatternModel { triplet: trip, active_steps: active, steps: stps },
                ),
                Err(e) => spec_parse(string_pattern@) == Err::<PatternModel, ErrorModel>(e),
            },
        decreases 16 - i,
    {
        proof {
            assert(note_toks@[i as int].deep_view() =~= note_toks@[i as int]@);
            assert(tr_toks@[i as int].deep_view() =~= tr_toks@[i as int]@);
            assert(ac_toks@[i as int].deep_view() =~= ac_toks@[i as int]@);
            assert(sl_toks@[i as int].deep_view() =~= sl_toks@[i as int]@);
            assert(ti_toks@[i as int].deep_view() =~= ti_toks@[i as int]@);
        }
        let note_val = match note_from_chars(&note_toks[i]) {
            None => {
                return Err(
                    CodecError::TextGrammarViolation(
                        TextViolation::UnknownToken {
                            label: String::from_str("Note:"),
                            index: i,
                            found: chars_to_string(&note_toks[i]),
                        },
                    ),
                );
            },
            Some(v) => v,
        };
        let tr_val = match Transpose::from_chars(&tr_toks[i]) {
            Err(_) => {
                return Err(
                    CodecError::TextGrammarViolation(
                        TextViolation::UnknownToken {
                            label: String::from_str("Transpose:"),
                            index: i,
                            found: chars_to_string(&tr_toks[i]),
                        },
                    ),
                );
            },
            Ok(v) => v,
        };
        let ac_val = match Accent::from_chars(&ac_toks[i]) {
            Err(_) => {
                return Err(
                    CodecError::TextGrammarViolation(
                        TextViolation::UnknownToken {
                            label: String::from_str("Accent:"),
                            index: i,
                            found: chars_to_string(&ac_toks[i]),
                        },
                    ),
                );
            },
            Ok(v) => v,
        };
        let sl_val = match Slide::from_chars(&sl_toks[i]) {
            Err(_) => {
                return Err(
                    CodecError::TextGrammarViolation(
                        TextViolation::UnknownToken {
                            label: String::from_str("Slide:"),
                            index: i,
                            found: chars_to_string(&sl_toks[i]),
                        },
                    ),
                );
            },
            Ok(v) => v,
        };
        let ti_val = match Time::from_chars(&ti_toks[i]) {
            Err(_) => {
                return Err(
                    CodecError::TextGrammarViolation(
                        TextViolation::UnknownToken {
                            label: String::from_str("Tie/Rest:"),
                            index: i,
                            found: chars_to_string(&ti_toks[i]),
                        },
                    ),
                );
            },
            Ok(v) => v,
        };
        let stp = Step { note: note_val, transpose: tr_val, accent: ac_val, slide: sl_val, time: ti_val };
        let ghost pre_steps = steps@;
        steps.push(stp);
        i = i + 1;
        proof {
            let j = i - 1;
            assert(spec_build_steps(nt, tt, at, st, ti, j) == match spec_build_steps(
                nt,
                tt,
                at,
                st,
                ti,
                j + 1,
            ) {
                Ok(rest) => Ok::<Seq<Step>, ErrorModel>(seq![stp] + rest),
                Err(e) => Err::<Seq<Step>, ErrorModel>(e),
            });
            if spec_build_steps(nt, tt, at, st, ti, i as int) is Ok {
                let rest = spec_build_steps(nt, tt, at, st, ti, i as int)->Ok_0;
                assert(pre_steps + (seq![stp] + rest) =~= steps@ + rest);
            }
        }
    }
    let p = Pattern { triplet: trip, active_steps: active, step: steps };
    proof {
        assert(spec_build_steps(nt, tt, at, st, ti, 16) == Ok::<Seq<Step>, ErrorModel>(
            Seq::<Step>::empty(),
        ));
        assert(steps@ + Seq::<Step>::empty() =~= steps@);
        assert(spec_build_steps(nt, tt, at, st, ti, 0) == Ok::<Seq<Step>, ErrorModel>(steps@));
        assert(spec_parse(string_pattern@) == Ok::<PatternModel, ErrorModel>(p@));
    }
    Ok(p)
}

} // verus!

verus! {

/// Characters that may stand inside a field token: nothing the
/// surrounding grammar claims for itself.
pub open spec fn token_char_ok(c: char) -> bool {
    c != '\n' && c != '/' && c != ',' && !spec_is_space(c)
}

/// A token made only of such characters.
pub open spec fn token_ok(t: Seq<char>) -> bool {
    forall|i: int| 0 <= i < t.len() ==> token_char_ok(#[trigger] t[i])
}

} // verus!

verus! {

/// No newline anywhere in `s`.
pub open spec fn nl_free(s: Seq<char>) -> bool {
    forall|i: int| 0 <= i < s.len() ==> #[trigger] s[i] != '\n'
}

/// No `//` pair anywhere in `s`.
pub open spec fn dpair_free(s: Seq<char>) -> bool {
    forall|j: int| 0 <= j && j + 2 <= s.len() ==> !(#[trigger] s[j] == '/' && s[j + 1] == '/')
}

/// Characters of a rendered cell row: separators, padding, and token
/// characters.
pub open spec fn cell_char_ok(c: char) -> bool {
    c == ' ' || c == ',' || token_char_ok(c)
}

pub open spec fn cells_ok(s: Seq<char>) -> bool {
    forall|i: int| 0 <= i < s.len() ==> cell_char_ok(#[trigger] s[i])
}

proof fn lemma_cells_ok(toks: Seq<Seq<char>>, i: int)
    requires
        0 <= i <= 16,
        forall|k: int| 0 <= k < 16 ==> token_ok(#[trigger] toks[k]),
    ensures
        cells_ok(spec_cells(toks, i)),
    decreases i,
{
    if i > 0 {
        lemma_cells_ok(toks, i - 1);
        assert(token_ok(toks[i - 1]));
        assert(cells_ok(spec_pad2(toks[i - 1])));
        assert forall|k: int| 0 <= k < spec_cells(toks, i).len() implies cell_char_ok(
            #[trigger] spec_cells(toks, i)[k],
        ) by {
            let pre = spec_cells(toks, i - 1);
            let c = spec_cell(toks, i - 1);
            if k < pre.len() {
            } else {
                assert(spec_cells(toks, i)[k] == c[k - pre.len()]);
            }
        }
    }
}

proof fn lemma_dpair_concat(a: Seq<char>, b: Seq<char>)
    requires
        dpair_free(a),
        dpair_free(b),
        a.len() > 0 && b.len() > 0 ==> !(a.last() == '/' && b[0] == '/'),
    ensures
        dpair_free(a + b),
{
    assert forall|j: int| 0 <= j && j + 2 <= (a + b).len() implies !(#[trigger] (a + b)[j] == '/' && (
    a + b)[j + 1] == '/') by {
        if j + 2 <= a.len() {
            assert((a + b)[j] == a[j] && (a + b)[j + 1] == a[j + 1]);
        } else if j < a.len() {
            assert((a + b)[j] == a[j] && (a + b)[j + 1] == b[0]);
            assert(j == a.len() - 1);
            assert(a[j] == a.last());
        } else {
            assert((a + b)[j] == b[j - a.len()] && (a + b)[j + 1] == b[j - a.len() + 1]);
        }
    }
}

proof fn lemma_nl_free_concat(a: Seq<char>, b: Seq<char>)
    requires
        nl_free(a),
        nl_free(b),
    ensures
        nl_free(a + b),
{
    assert forall|i: int| 0 <= i < (a + b).len() implies #[trigger] (a + b)[i] != '\n' by {
        if i < a.len() {
        } else {
            assert((a + b)[i] == b[i - a.len()]);
        }
    }
}

/// A prefix free of `//`, followed by text that starts with `//`,
/// places the comment exactly at the prefix's end.
proof fn lemma_comment_at(prefix: Seq<char>, rest: Seq<char>)
    requires
        dpair_free(prefix),
        prefix.len() > 0 ==> prefix.last() != '/',
        rest.len() >= 2,
        rest[0] == '/',
        rest[1] == '/',
    ensures
        spec_comment_start(prefix + rest) == prefix.len(),
{
    let s = prefix + rest;
    assert forall|j: int|
        0 <= j < prefix.len() && j + 2 <= s.len() implies !(#[trigger] s[j] == '/' && s[j + 1]
        == '/') by {
        if j + 2 <= prefix.len() {
            assert(s[j] == prefix[j] && s[j + 1] == prefix[j + 1]);
        } else {
            assert(j == prefix.len() - 1);
            assert(s[j] == prefix.last());
        }
    }
    crate::chars::lemma_comment_start_skip(s, prefix.len() as int);
    assert(s.skip(prefix.len() as int) =~= rest);
    assert(spec_comment_start(rest) == 0);
}

/// Text with no `//` pair has no comment at all.
proof fn lemma_comment_none(s: Seq<char>)
    requires
        dpair_free(s),
    ensures
        spec_comment_start(s) == s.len(),
{
    crate::chars::lemma_comment_start_skip(s, s.len() as int);
    assert(s.skip(s.len() as int).len() == 0);
}

/// Trimming does nothing to text whose ends are not whitespace.
proof fn lemma_trim_id_edges(s: Seq<char>)
    requires
        s.len() > 0 ==> !spec_is_space(s[0]) && !spec_is_space(s.last()),
    ensures
        spec_trim(s) == s,
{
}

/// Trimming a token does nothing: tokens hold no whitespace.
proof fn lemma_trim_token(t: Seq<char>)
    requires
        token_ok(t),
    ensures
        spec_trim(t) == t,
{
    if t.len() > 0 {
        assert(!spec_is_space(t[0]) && !spec_is_space(t.last()));
    }
}

/// All-whitespace text trims from the right to nothing.
proof fn lemma_trim_right_all_spaces(s: Seq<char>)
    requires
        forall|i: int| 0 <= i < s.len() ==> spec_is_space(#[trigger] s[i]),
    ensures
        spec_trim_right(s) =~= Seq::<char>::empty(),
    decreases s.len(),
{
    if s.len() > 0 {
        lemma_trim_right_all_spaces(s.drop_last());
    }
}

/// Right-trimming reaches past a left part that ends in non-whitespace.
proof fn lemma_trim_right_concat_last(a: Seq<char>, b: Seq<char>)
    requires
        a.len() > 0,
        !spec_is_space(a.last()),
    ensures
        spec_trim_right(a + b) == a + spec_trim_right(b),
    decreases b.len(),
{
    if b.len() == 0 {
        assert(a + b =~= a);
        assert((a + b).last() == a.last());
    } else if spec_is_space(b.last()) {
        assert((a + b).last() == b.last());
        assert((a + b).drop_last() =~= a + b.drop_last());
        lemma_trim_right_concat_last(a, b.drop_last());
    } else {
        assert((a + b).last() == b.last());
    }
}

/// Right-trimming cannot reach a left part when the right part holds
/// any non-whitespace character.
proof fn lemma_trim_right_concat_w(a: Seq<char>, b: Seq<char>)
    requires
        exists|k: int| 0 <= k < b.len() && !spec_is_space(#[trigger] b[k]),
    ensures
        spec_trim_right(a + b) == a + spec_trim_right(b),
    decreases b.len(),
{
    let k = choose|k: int| 0 <= k < b.len() && !spec_is_space(#[trigger] b[k]);
    if spec_is_space(b.last()) {
        assert(k < b.len() - 1);
        assert((a + b).last() == b.last());
        assert((a + b).drop_last() =~= a + b.drop_last());
        assert(b.drop_last()[k] == b[k]);
        lemma_trim_right_concat_w(a, b.drop_last());
    } else {
        assert((a + b).last() == b.last());
        assert(b.len() > 0);
    }
}

/// The cells from `j` on, as one character sequence.
pub open spec fn spec_cells_from(toks: Seq<Seq<char>>, j: int) -> Seq<char>
    decreases 16 - j,
{
    if j < 0 || j >= 16 {
        Seq::<char>::empty()
    } else {
        spec_cell(toks, j) + spec_cells_from(toks, j + 1)
    }
}

proof fn lemma_cells_assoc(toks: Seq<Seq<char>>, j: int)
    requires
        0 <= j <= 16,
    ensures
        spec_cells(toks, 16) == spec_cells(toks, j) + spec_cells_from(toks, j),
    decreases 16 - j,
{
    if j == 16 {
        assert(spec_cells(toks, 16) + spec_cells_from(toks, 16) =~= spec_cells(toks, 16));
    } else {
        lemma_cells_assoc(toks, j + 1);
        assert(spec_cells(toks, j + 1) =~= spec_cells(toks, j) + spec_cell(toks, j));
        assert((spec_cells(toks, j) + spec_cell(toks, j)) + spec_cells_from(toks, j + 1) =~= spec_cells(
            toks,
            j,
        ) + (spec_cell(toks, j) + spec_cells_from(toks, j + 1)));
    }
}

/// Splitting the right-trimmed cells from `j` on at the commas, and
/// trimming each piece, recovers tokens `j..16` exactly.
proof fn lemma_cells_split(toks: Seq<Seq<char>>, j: int)
    requires
        0 <= j < 16,
        toks.len() == 16,
        forall|k: int| 0 <= k < 16 ==> token_ok(#[trigger] toks[k]),
    ensures
        ({
            let b = spec_trim_right(seq![' '] + spec_pad2(toks[j]) + spec_cells_from(toks, j + 1));
            let pieces = spec_split(b, ',');
            pieces.len() == 16 - j && Seq::new(pieces.len(), |k: int| spec_trim(pieces[k]))
                =~~= toks.subrange(j, 16)
        }),
    decreases 16 - j,
{
    let t = toks[j];
    assert(token_ok(t));
    let body = seq![' '] + spec_pad2(t) + spec_cells_from(toks, j + 1);
    if j == 15 {
        assert(spec_cells_from(toks, 16) =~= Seq::<char>::empty());
        if t.len() == 0 {
            assert(body =~= seq![' ', ' ', ' ']);
            lemma_trim_right_all_spaces(body);
            let b = spec_trim_right(body);
            assert(b =~= Seq::<char>::empty());
            crate::chars::lemma_split_head(b, ',', 0);
            let pieces = spec_split(b, ',');
            assert(pieces =~~= seq![b]);
            assert(pieces[0] == b);
            assert(spec_trim(b) =~= t);
            assert(Seq::new(pieces.len(), |k: int| spec_trim(pieces[k]))[0] == spec_trim(
                pieces[0],
            ));
            assert(toks.subrange(15, 16)[0] == t);
            assert(Seq::new(pieces.len(), |k: int| spec_trim(pieces[k])) =~~= toks.subrange(
                15,
                16,
            ));
        } else {
            let bb = seq![' '] + t;
            assert(!spec_is_space(t[0]) && !spec_is_space(t.last()));
            assert(bb.last() == t.last());
            assert(spec_trim_right(bb) == bb);
            if t.len() == 1 {
                assert(body =~= bb + seq![' ']);
                assert(body.last() == ' ');
                assert(body.drop_last() =~= bb);
                assert(spec_trim_right(body) == spec_trim_right(bb));
            } else {
                assert(body =~= bb);
            }
            assert(spec_trim_right(body) == bb);
            assert(forall|i: int| 0 <= i < bb.len() ==> #[trigger] bb[i] != ',');
            crate::chars::lemma_split_head(bb, ',', bb.len() as int);
            let pieces = spec_split(bb, ',');
            assert(pieces =~~= seq![bb]);
            assert(pieces[0] == bb);
            assert(bb.drop_first() =~= t);
            assert(spec_trim_left(bb) == spec_trim_left(t));
            assert(spec_trim(bb) == t);
            assert(Seq::new(pieces.len(), |k: int| spec_trim(pieces[k]))[0] == spec_trim(
                pieces[0],
            ));
            assert(toks.subrange(15, 16)[0] == t);
            assert(Seq::new(pieces.len(), |k: int| spec_trim(pieces[k])) =~~= toks.subrange(
                15,
                16,
            ));
        }
    } else {
        lemma_cells_split(toks, j + 1);
        let body2 = seq![' '] + spec_pad2(toks[j + 1]) + spec_cells_from(toks, j + 2);
        assert(spec_cells_from(toks, j + 1) =~= seq![','] + body2);
        let a = seq![' '] + spec_pad2(t);
        let a2 = a + seq![','];
        assert(body =~= a2 + body2);
        assert(a2.last() == ',');
        lemma_trim_right_concat_last(a2, body2);
        assert(spec_trim_right(body) == a2 + spec_trim_right(body2));
        let rest = spec_trim_right(body2);
        assert(a2 + rest =~= a + (seq![','] + rest));
        assert(forall|i: int| 0 <= i < a.len() ==> #[trigger] a[i] != ',');
        crate::chars::lemma_split_head(a + (seq![','] + rest), ',', a.len() as int);
        assert((a + (seq![','] + rest)).take(a.len() as int) =~= a);
        assert((a + (seq![','] + rest)).skip(a.len() as int + 1) =~= rest);
        let pieces = spec_split(spec_trim_right(body), ',');
        let sub = spec_split(rest, ',');
        assert(pieces =~~= seq![a] + sub);
        assert(pieces.len() == 1 + sub.len());
        // trimming the head cell restores token j
        if t.len() == 0 {
            assert(a =~= seq![' ', ' ', ' ']);
            assert(forall|i: int| 0 <= i < a.len() ==> spec_is_space(#[trigger] a[i]));
            crate::chars::lemma_trim_left_skip(a, 3);
            assert(a.skip(3) =~= Seq::<char>::empty());
            assert(spec_trim_left(a) =~= Seq::<char>::empty());
            assert(spec_trim(a) =~= t);
        } else {
            assert(a.drop_first() =~= spec_pad2(t));
            assert(spec_trim_left(a) == spec_trim_left(spec_pad2(t)));
            assert(!spec_is_space(spec_pad2(t)[0]));
            assert(spec_trim_left(spec_pad2(t)) == spec_pad2(t));
            if t.len() == 1 {
                assert(spec_pad2(t).drop_last() =~= t);
                assert(spec_trim_right(spec_pad2(t)) == spec_trim_right(t));
                assert(spec_trim_right(t) == t);
            } else {
                assert(spec_trim_right(t) == t);
            }
            assert(spec_trim(a) == t);
        }
        assert forall|k: int| 0 <= k < pieces.len() implies spec_trim(pieces[k])
            == toks.subrange(j, 16)[k] by {
            if k == 0 {
                assert(pieces[0] == a);
            } else {
                assert(pieces[k] == sub[k - 1]);
                assert(Seq::new(sub.len(), |i: int| spec_trim(sub[i]))[k - 1] == spec_trim(
                    sub[k - 1],
                ));
                assert(toks.subrange(j + 1, 16)[k - 1] == toks.subrange(j, 16)[k]);
            }
        }
        assert(Seq::new(pieces.len(), |k: int| spec_trim(pieces[k])) =~~= toks.subrange(j, 16));
    }
}

} // verus!

verus! {

/// No slash anywhere in `s`.
pub open spec fn slash_free(s: Seq<char>) -> bool {
    forall|i: int| 0 <= i < s.len() ==> #[trigger] s[i] != '/'
}

proof fn lemma_slash_free_dpair(s: Seq<char>)
    requires
        slash_free(s),
    ensures
        dpair_free(s),
{
}

/// The decimal rendering of a byte consists of digits alone.
proof fn lemma_u8_dec_digits(n: u8)
    ensures
        forall|i: int|
            0 <= i < spec_u8_dec(n).len() ==> spec_is_digit(#[trigger] spec_u8_dec(n)[i]),
        1 <= spec_u8_dec(n).len() <= 3,
{
    assert forall|i: int|
        0 <= i < spec_u8_dec(n).len() implies spec_is_digit(#[trigger] spec_u8_dec(n)[i]) by {
        let s = spec_u8_dec(n);
        if n < 10 {
            assert(s[i] == crate::chars::spec_digit_char(n as int));
        } else if n < 100 {
            assert(i == 0 || i == 1);
        } else {
            assert(i == 0 || i == 1 || i == 2);
        }
    }
}

/// A digit is none of the grammar's structural characters.
proof fn lemma_digit_char_class(c: char)
    requires
        spec_is_digit(c),
    ensures
        c != '\n' && c != '/' && c != ',' && !spec_is_space(c),
{
}

/// The token literals of the step fields hold only token characters.
proof fn lemma_token_lits()
    ensures
        token_ok("DN"@),
        token_ok("UP"@),
        token_ok("AC"@),
        token_ok("SL"@),
        token_ok("TI"@),
        token_ok("RE"@),
        token_ok("TR"@),
        token_ok("C"@),
        token_ok("C#"@),
        token_ok("D"@),
        token_ok("D#"@),
        token_ok("E"@),
        token_ok("F"@),
        token_ok("F#"@),
        token_ok("G"@),
        token_ok("G#"@),
        token_ok("A"@),
        token_ok("A#"@),
        token_ok("B"@),
        token_ok("C^"@),
        token_ok(Seq::<char>::empty()),
{
    reveal_strlit("DN");
    reveal_strlit("UP");
    reveal_strlit("AC");
    reveal_strlit("SL");
    reveal_strlit("TI");
    reveal_strlit("RE");
    reveal_strlit("TR");
    reveal_strlit("C");
    reveal_strlit("C#");
    reveal_strlit("D");
    reveal_strlit("D#");
    reveal_strlit("E");
    reveal_strlit("F");
    reveal_strlit("F#");
    reveal_strlit("G");
    reveal_strlit("G#");
    reveal_strlit("A");
    reveal_strlit("A#");
    reveal_strlit("B");
    reveal_strlit("C^");
    assert("DN"@ =~= seq!['D', 'N']);
    assert("UP"@ =~= seq!['U', 'P']);
    assert("AC"@ =~= seq!['A', 'C']);
    assert("SL"@ =~= seq!['S', 'L']);
    assert("TI"@ =~= seq!['T', 'I']);
    assert("RE"@ =~= seq!['R', 'E']);
    assert("TR"@ =~= seq!['T', 'R']);
    assert("C"@ =~= seq!['C']);
    assert("C#"@ =~= seq!['C', '#']);
    assert("D"@ =~= seq!['D']);
    assert("D#"@ =~= seq!['D', '#']);
    assert("E"@ =~= seq!['E']);
    assert("F"@ =~= seq!['F']);
    assert("F#"@ =~= seq!['F', '#']);
    assert("G"@ =~= seq!['G']);
    assert("G#"@ =~= seq!['G', '#']);
    assert("A"@ =~= seq!['A']);
    assert("A#"@ =~= seq!['A', '#']);
    assert("B"@ =~= seq!['B']);
    assert("C^"@ =~= seq!['C', '^']);
}

/// Every note name is a clean token.
proof fn lemma_note_name_ok(v: int)
    ensures
        token_ok(spec_note_name(v)),
        spec_note_name(v).len() >= 1,
{
    lemma_token_lits();
    reveal_strlit("C");
    reveal_strlit("C#");
    reveal_strlit("D");
    reveal_strlit("D#");
    reveal_strlit("E");
    reveal_strlit("F");
    reveal_strlit("F#");
    reveal_strlit("G");
    reveal_strlit("G#");
    reveal_strlit("A");
    reveal_strlit("A#");
    reveal_strlit("B");
    reveal_strlit("C^");
}

/// A note's name looks back up to that note.
proof fn lemma_note_token_round(v: u8)
    requires
        v <= 12,
    ensures
        spec_note_from_token(spec_note_name(v as int)) == Some(v),
{
    reveal_strlit("C");
    reveal_strlit("C#");
    reveal_strlit("D");
    reveal_strlit("D#");
    reveal_strlit("E");
    reveal_strlit("F");
    reveal_strlit("F#");
    reveal_strlit("G");
    reveal_strlit("G#");
    reveal_strlit("A");
    reveal_strlit("A#");
    reveal_strlit("B");
    reveal_strlit("C^");
    assert("C"@.len() == 1);
    assert("C"@[0] == 'C');
    assert("C#"@.len() == 2);
    assert("C#"@[0] == 'C');
    assert("C#"@[1] == '#');
    assert("D"@.len() == 1);
    assert("D"@[0] == 'D');
    assert("D#"@.len() == 2);
    assert("D#"@[0] == 'D');
    assert("D#"@[1] == '#');
    assert("E"@.len() == 1);
    assert("E"@[0] == 'E');
    assert("F"@.len() == 1);
    assert("F"@[0] == 'F');
    assert("F#"@.len() == 2);
    assert("F#"@[0] == 'F');
    assert("F#"@[1] == '#');
    assert("G"@.len() == 1);
    assert("G"@[0] == 'G');
    assert("G#"@.len() == 2);
    assert("G#"@[0] == 'G');
    assert("G#"@[1] == '#');
    assert("A"@.len() == 1);
    assert("A"@[0] == 'A');
    assert("A#"@.len() == 2);
    assert("A#"@[0] == 'A');
    assert("A#"@[1] == '#');
    assert("B"@.len() == 1);
    assert("B"@[0] == 'B');
    assert("C^"@.len() == 2);
    assert("C^"@[0] == 'C');
    assert("C^"@[1] == '^');
    let t = spec_note_name(v as int);
    if v == 0 {
        assert(spec_note_from_token(t) == Some(0u8));
    } else if v == 1 {
        assert(t != "C"@);
        assert(spec_note_from_token(t) == Some(1u8));
    } else if v == 2 {
        assert(t != "C"@ && t != "C#"@);
        assert(spec_note_from_token(t) == Some(2u8));
    } else if v == 3 {
        assert(t != "C"@ && t != "C#"@ && t != "D"@);
        assert(spec_note_from_token(t) == Some(3u8));
    } else if v == 4 {
        assert(t != "C"@ && t != "C#"@ && t != "D"@ && t != "D#"@);
        assert(spec_note_from_token(t) == Some(4u8));
    } else if v == 5 {
        assert(t != "C"@ && t != "C#"@ && t != "D"@ && t != "D#"@ && t != "E"@);
        assert(spec_note_from_token(t) == Some(5u8));
    } else if v == 6 {
        assert(t != "C"@ && t != "C#"@ && t != "D"@ && t != "D#"@ && t != "E"@ && t != "F"@);
        assert(spec_note_from_token(t) == Some(6u8));
    } else if v == 7 {
        assert(t != "C"@ && t != "C#"@ && t != "D"@ && t != "D#"@ && t != "E"@ && t != "F"@ && t
            != "F#"@);
        assert(spec_note_from_token(t) == Some(7u8));
    } else if v == 8 {
        assert(t != "C"@ && t != "C#"@ && t != "D"@ && t != "D#"@ && t != "E"@ && t != "F"@ && t
            != "F#"@ && t != "G"@);
        assert(spec_note_from_token(t) == Some(8u8));
    } else if v == 9 {
        assert(t != "C"@ && t != "C#"@ && t != "D"@ && t != "D#"@ && t != "E"@ && t != "F"@ && t
            != "F#"@ && t != "G"@ && t != "G#"@);
        assert(spec_note_from_token(t) == Some(9u8));
    } else if v == 10 {
        assert(t != "C"@ && t != "C#"@ && t != "D"@ && t != "D#"@ && t != "E"@ && t != "F"@ && t
            != "F#"@ && t != "G"@ && t != "G#"@ && t != "A"@);
        assert(spec_note_from_token(t) == Some(10u8));
    } else if v == 11 {
        assert(t != "C"@ && t != "C#"@ && t != "D"@ && t != "D#"@ && t != "E"@ && t != "F"@ && t
            != "F#"@ && t != "G"@ && t != "G#"@ && t != "A"@ && t != "A#"@);
        assert(spec_note_from_token(t) == Some(11u8));
    } else {
        assert(t != "C"@ && t != "C#"@ && t != "D"@ && t != "D#"@ && t != "E"@ && t != "F"@ && t
            != "F#"@ && t != "G"@ && t != "G#"@ && t != "A"@ && t != "A#"@ && t != "B"@);
        assert(spec_note_from_token(t) == Some(12u8));
    }
}

/// A field token rendered for a step value reads back as that value.
proof fn lemma_symbol_token_round(t: Transpose, a: Accent, sl: Slide, ti: Time)
    ensures
        spec_transpose_from_str(transpose_token(t)) == Ok::<Transpose, ()>(t),
        spec_accent_from_str(accent_token(a)) == Ok::<Accent, ()>(a),
        spec_slide_from_str(slide_token(sl)) == Ok::<Slide, ()>(sl),
        spec_time_from_str(time_token(ti)) == Ok::<Time, ()>(ti),
{
    lemma_token_lits();
    reveal_strlit("DN");
    reveal_strlit("UP");
    reveal_strlit("AC");
    reveal_strlit("SL");
    reveal_strlit("TI");
    reveal_strlit("RE");
    reveal_strlit("TR");
    lemma_trim_token(transpose_token(t));
    lemma_trim_token(accent_token(a));
    lemma_trim_token(slide_token(sl));
    lemma_trim_token(time_token(ti));
    assert(spec_upper("DN"@) =~= "DN"@);
    assert(spec_upper("UP"@) =~= "UP"@);
    assert(spec_upper("AC"@) =~= "AC"@);
    assert(spec_upper("SL"@) =~= "SL"@);
    assert(spec_upper("TI"@) =~= "TI"@);
    assert(spec_upper("RE"@) =~= "RE"@);
    assert(spec_upper("TR"@) =~= "TR"@);
    assert(spec_upper(Seq::<char>::empty()) =~= Seq::<char>::empty());
}

} // verus!

verus! {



} // verus!

verus! {

/// Tokens rendered for a well-formed pattern are clean tokens.
proof fn lemma_pattern_tokens_ok(p: PatternModel)
    requires
        p.wf(),
    ensures
        forall|k: int| 0 <= k < 16 ==> token_ok(#[trigger] spec_note_tokens(p.steps)[k]),
        forall|k: int| 0 <= k < 16 ==> token_ok(#[trigger] spec_transpose_tokens(p.steps)[k]),
        forall|k: int| 0 <= k < 16 ==> token_ok(#[trigger] spec_accent_tokens(p.steps)[k]),
        forall|k: int| 0 <= k < 16 ==> token_ok(#[trigger] spec_slide_tokens(p.steps)[k]),
        forall|k: int| 0 <= k < 16 ==> token_ok(#[trigger] spec_time_tokens(p.steps)[k]),
        forall|k: int| 0 <= k < 16 ==> token_ok(#[trigger] spec_num_tokens()[k]),
{
    lemma_token_lits();
    assert forall|k: int| 0 <= k < 16 implies token_ok(#[trigger] spec_note_tokens(p.steps)[k]) by {
        lemma_note_name_ok(p.steps[k].note as int);
    }
    assert forall|k: int| 0 <= k < 16 implies token_ok(
        #[trigger] spec_transpose_tokens(p.steps)[k],
    ) by {
        match p.steps[k].transpose {
            Transpose::Down => {},
            Transpose::Normal => {},
            Transpose::Up => {},
        }
    }
    assert forall|k: int| 0 <= k < 16 implies token_ok(
        #[trigger] spec_accent_tokens(p.steps)[k],
    ) by {
        match p.steps[k].accent {
            Accent::Off => {},
            Accent::On => {},
        }
    }
    assert forall|k: int| 0 <= k < 16 implies token_ok(#[trigger] spec_slide_tokens(p.steps)[k]) by {
        match p.steps[k].slide {
            Slide::Off => {},
            Slide::On => {},
        }
    }
    assert forall|k: int| 0 <= k < 16 implies token_ok(#[trigger] spec_time_tokens(p.steps)[k]) by {
        match p.steps[k].time {
            Time::Tie => {},
            Time::Normal => {},
            Time::TieRest => {},
            Time::Rest => {},
        }
    }
    assert forall|k: int| 0 <= k < 16 implies token_ok(#[trigger] spec_num_tokens()[k]) by {
        let t = spec_num_tokens()[k];
        assert(t[0] == crate::chars::spec_digit_char((k + 1) / 10));
        assert(t[1] == crate::chars::spec_digit_char((k + 1) % 10));
        assert(spec_is_digit(crate::chars::spec_digit_char((k + 1) / 10)));
        assert(spec_is_digit(crate::chars::spec_digit_char((k + 1) % 10)));
        assert forall|i: int| 0 <= i < t.len() implies token_char_ok(#[trigger] t[i]) by {
            lemma_digit_char_class(t[i]);
        }
    }
}

/// Cleaning a rendered field line leaves its label and right-trimmed
/// cells; the parser then finds exactly the 16 tokens behind them.
proof fn lemma_field_line_round(
    label: Seq<char>,
    short: Seq<char>,
    toks: Seq<Seq<char>>,
    comment: Seq<char>,
)
    requires
        label.len() == 11,
        toks.len() == 16,
        forall|k: int| 0 <= k < 16 ==> token_ok(#[trigger] toks[k]),
        dpair_free(label),
        nl_free(label),
        nl_free(comment),
        !spec_is_space(label[0]),
        label.last() == ' ',
        comment.len() >= 4,
        comment[0] == ' ',
        comment[1] == ' ',
        comment[2] == '/',
        comment[3] == '/',
    ensures
        ({
            let cells = spec_cells(toks, 16);
            let raw = label + cells + comment;
            let line = label + spec_trim_right(cells);
            &&& spec_clean_line(raw) == line
            &&& nl_free(raw)
            &&& spec_field_tokens(line, label, short) == Ok::<Seq<Seq<char>>, ErrorModel>(toks)
        }),
{
    let cells = spec_cells(toks, 16);
    let raw = label + cells + comment;
    let line = label + spec_trim_right(cells);
    lemma_cells_ok(toks, 16);
    // cells hold no newline, slash or comma trouble
    assert(slash_free(cells));
    assert(nl_free(cells));
    // locate the comment
    let prefix = label + cells + seq![' ', ' '];
    assert(dpair_free(cells)) by {
        lemma_slash_free_dpair(cells);
    }
    lemma_dpair_concat(label, cells);
    assert(dpair_free(seq![' ', ' ']));
    lemma_dpair_concat(label + cells, seq![' ', ' ']);
    assert((label + cells) + seq![' ', ' '] =~= prefix);
    assert(prefix.last() == ' ');
    let rest = comment.skip(2);
    assert(rest.len() >= 2 && rest[0] == '/' && rest[1] == '/');
    assert(prefix + rest =~= raw);
    lemma_comment_at(prefix, rest);
    assert(spec_comment_start(raw) == prefix.len());
    assert(raw.take(prefix.len() as int) =~= prefix);
    // trim the cut line
    assert(prefix[0] == label[0]);
    assert(spec_trim_left(prefix) == prefix);
    // the cells hold a comma, so right-trimming stops inside them
    lemma_cells_assoc(toks, 1);
    assert(spec_cells(toks, 0) =~= Seq::<char>::empty());
    assert(spec_cells(toks, 1) =~= spec_cell(toks, 0));
    assert(spec_cells_from(toks, 1)[0] == ',');
    let ci = spec_cell(toks, 0).len() as int;
    assert(cells[ci] == ',');
    let tail = cells + seq![' ', ' '];
    assert(prefix =~= label + tail);
    assert(tail[ci] == ',');
    assert(!spec_is_space(tail[ci]));
    lemma_trim_right_concat_w(label, tail);
    assert(spec_trim_right(prefix) == label + spec_trim_right(tail));
    assert((cells + seq![' ', ' ']).drop_last() =~= cells + seq![' ']);
    assert((cells + seq![' ']).drop_last() =~= cells);
    assert((cells + seq![' ']).last() == ' ');
    assert(spec_trim_right(cells + seq![' ']) == spec_trim_right(cells));
    assert(spec_trim_right(tail) == spec_trim_right(cells + seq![' ']));
    assert(spec_trim_right(tail) == spec_trim_right(cells));
    assert(spec_clean_line(raw) == line);
    // newline freedom of the raw line
    lemma_nl_free_concat(label, cells);
    lemma_nl_free_concat(label + cells, comment);
    assert((label + cells) + comment =~= raw);
    assert(nl_free(raw));
    // the parser's view of the line
    assert(line.subrange(0, 11) =~= label);
    assert(spec_starts_with(line, label));
    assert(line.skip(11) =~= spec_trim_right(cells));
    lemma_cells_assoc(toks, 0);
    assert(spec_cells(toks, 0) =~= Seq::<char>::empty());
    assert(cells =~= spec_cells_from(toks, 0));
    assert(spec_cells_from(toks, 0) =~= seq![' '] + spec_pad2(toks[0]) + spec_cells_from(toks, 1));
    lemma_cells_split(toks, 0);
    let pieces = spec_split(spec_trim_right(cells), ',');
    assert(pieces.len() == 16);
    assert(Seq::new(pieces.len(), |k: int| spec_trim(pieces[k])) =~~= toks.subrange(0, 16));
    assert(toks.subrange(0, 16) =~~= toks);
    assert(spec_trimmed_tokens(line, 11) =~~= toks);
}

/// Building steps from the tokens rendered for a well-formed pattern
/// restores its steps.
proof fn lemma_build_steps_round(p: PatternModel, j: int)
    requires
        p.wf(),
        0 <= j <= 16,
    ensures
        spec_build_steps(
            spec_note_tokens(p.steps),
            spec_transpose_tokens(p.steps),
            spec_accent_tokens(p.steps),
            spec_slide_tokens(p.steps),
            spec_time_tokens(p.steps),
            j,
        ) == Ok::<Seq<Step>, ErrorModel>(p.steps.subrange(j, 16)),
    decreases 16 - j,
{
    let nt = spec_note_tokens(p.steps);
    let tt = spec_transpose_tokens(p.steps);
    let at = spec_accent_tokens(p.steps);
    let st = spec_slide_tokens(p.steps);
    let ti = spec_time_tokens(p.steps);
    if j == 16 {
        assert(p.steps.subrange(16, 16) =~= Seq::<Step>::empty());
    } else {
        let s = p.steps[j];
        lemma_note_token_round(s.note);
        lemma_symbol_token_round(s.transpose, s.accent, s.slide, s.time);
        assert(spec_note_from_token(nt[j]) == Some(s.note));
        assert(spec_transpose_from_str(tt[j]) == Ok::<Transpose, ()>(s.transpose));
        assert(spec_accent_from_str(at[j]) == Ok::<Accent, ()>(s.accent));
        assert(spec_slide_from_str(st[j]) == Ok::<Slide, ()>(s.slide));
        assert(spec_time_from_str(ti[j]) == Ok::<Time, ()>(s.time));
        lemma_build_steps_round(p, j + 1);
        assert(seq![s] + p.steps.subrange(j + 1, 16) =~= p.steps.subrange(j, 16));
    }
}

} // verus!

verus! {

/// The rendered metadata line scans back to its own active-step count
/// and triplet flag, and cleaning leaves it untouched.
#[verifier::rlimit(60)]
proof fn lemma_meta_round(p: PatternModel)
    ensures
        spec_parse_meta(spec_meta_line(p)) == Some((p.active_steps, p.triplet)),
        spec_clean_line(spec_meta_line(p)) == spec_meta_line(p),
        nl_free(spec_meta_line(p)),
{
    reveal_strlit("Active Steps: ");
    reveal_strlit("Active Steps:");
    reveal_strlit(", Triplet Time: ");
    reveal_strlit("Triplet Time:");
    reveal_strlit("On");
    reveal_strlit("Off");
    assert("Active Steps: "@ =~= seq!['A', 'c', 't', 'i', 'v', 'e', ' ', 'S', 't', 'e', 'p', 's', ':', ' ']);
    assert("Active Steps:"@ =~= seq!['A', 'c', 't', 'i', 'v', 'e', ' ', 'S', 't', 'e', 'p', 's', ':']);
    assert(", Triplet Time: "@ =~= seq![',', ' ', 'T', 'r', 'i', 'p', 'l', 'e', 't', ' ', 'T', 'i', 'm', 'e', ':', ' ']);
    assert("Triplet Time:"@ =~= seq!['T', 'r', 'i', 'p', 'l', 'e', 't', ' ', 'T', 'i', 'm', 'e', ':']);
    assert("On"@ =~= seq!['O', 'n']);
    assert("Off"@ =~= seq!['O', 'f', 'f']);
    assert("Active Steps: "@.len() == 14);
    assert("Active Steps: "@[0] == 'A');
    assert("Active Steps: "@[1] == 'c');
    assert("Active Steps: "@[2] == 't');
    assert("Active Steps: "@[3] == 'i');
    assert("Active Steps: "@[4] == 'v');
    assert("Active Steps: "@[5] == 'e');
    assert("Active Steps: "@[6] == ' ');
    assert("Active Steps: "@[7] == 'S');
    assert("Active Steps: "@[8] == 't');
    assert("Active Steps: "@[9] == 'e');
    assert("Active Steps: "@[10] == 'p');
    assert("Active Steps: "@[11] == 's');
    assert("Active Steps: "@[12] == ':');
    assert("Active Steps: "@[13] == ' ');
    assert("Active Steps:"@.len() == 13);
    assert("Active Steps:"@[0] == 'A');
    assert("Active Steps:"@[1] == 'c');
    assert("Active Steps:"@[2] == 't');
    assert("Active Steps:"@[3] == 'i');
    assert("Active Steps:"@[4] == 'v');
    assert("Active Steps:"@[5] == 'e');
    assert("Active Steps:"@[6] == ' ');
    assert("Active Steps:"@[7] == 'S');
    assert("Active Steps:"@[8] == 't');
    assert("Active Steps:"@[9] == 'e');
    assert("Active Steps:"@[10] == 'p');
    assert("Active Steps:"@[11] == 's');
    assert("Active Steps:"@[12] == ':');
    assert(", Triplet Time: "@.len() == 16);
    assert(", Triplet Time: "@[0] == ',');
    assert(", Triplet Time: "@[1] == ' ');
    assert(", Triplet Time: "@[2] == 'T');
    assert(", Triplet Time: "@[3] == 'r');
    assert(", Triplet Time: "@[4] == 'i');
    assert(", Triplet Time: "@[5] == 'p');
    assert(", Triplet Time: "@[6] == 'l');
    assert(", Triplet Time: "@[7] == 'e');
    assert(", Triplet Time: "@[8] == 't');
    assert(", Triplet Time: "@[9] == ' ');
    assert(", Triplet Time: "@[10] == 'T');
    assert(", Triplet Time: "@[11] == 'i');
    assert(", Triplet Time: "@[12] == 'm');
    assert(", Triplet Time: "@[13] == 'e');
    assert(", Triplet Time: "@[14] == ':');
    assert(", Triplet Time: "@[15] == ' ');
    assert("Triplet Time:"@.len() == 13);
    assert("Triplet Time:"@[0] == 'T');
    assert("Triplet Time:"@[1] == 'r');
    assert("Triplet Time:"@[2] == 'i');
    assert("Triplet Time:"@[3] == 'p');
    assert("Triplet Time:"@[4] == 'l');
    assert("Triplet Time:"@[5] == 'e');
    assert("Triplet Time:"@[6] == 't');
    assert("Triplet Time:"@[7] == ' ');
    assert("Triplet Time:"@[8] == 'T');
    assert("Triplet Time:"@[9] == 'i');
    assert("Triplet Time:"@[10] == 'm');
    assert("Triplet Time:"@[11] == 'e');
    assert("Triplet Time:"@[12] == ':');
    assert("On"@.len() == 2);
    assert("On"@[0] == 'O');
    assert("On"@[1] == 'n');
    assert("Off"@.len() == 3);
    assert("Off"@[0] == 'O');
    assert("Off"@[1] == 'f');
    assert("Off"@[2] == 'f');
    let a = "Active Steps: "@;
    let d = spec_u8_dec(p.active_steps);
    let b = ", Triplet Time: "@;
    let t = if p.triplet { "On"@ } else { "Off"@ };
    let l = spec_meta_line(p);
    assert(l =~= a + d + b + t);
    lemma_u8_dec_digits(p.active_steps);
    let dn = d.len() as int;
    assert forall|i: int| 0 <= i < dn implies spec_is_digit(#[trigger] l[14 + i]) by {
        assert(l[14 + i] == d[i]);
    }
    assert forall|i: int| 0 <= i < 16 implies l[14 + dn + i] == b[i] by {}
    assert forall|i: int| 0 <= i < t.len() implies l[14 + dn + 16 + i] == t[i] by {}
    assert(l.len() == 30 + dn + t.len());
    // the label
    assert(l.subrange(0, 13) =~= "Active Steps:"@);
    assert(spec_starts_with(l, "Active Steps:"@));
    // one space, then the digits
    assert(l[13] == ' ');
    assert(spec_is_digit(l[14]));
    lemma_digit_char_class(l[14]);
    assert(spec_skip_spaces(l, 13) == spec_skip_spaces(l, 14));
    assert(spec_skip_spaces(l, 14) == 14);
    // the digit run ends at the comma
    assert(l[14 + dn] == ',');
    if dn == 1 {
        assert(spec_digit_end(l, 14) == spec_digit_end(l, 15));
        assert(spec_digit_end(l, 15) == 15);
    } else if dn == 2 {
        assert(spec_digit_end(l, 14) == spec_digit_end(l, 15));
        assert(spec_is_digit(l[15]));
        assert(spec_digit_end(l, 15) == spec_digit_end(l, 16));
        assert(spec_digit_end(l, 16) == 16);
    } else {
        assert(spec_digit_end(l, 14) == spec_digit_end(l, 15));
        assert(spec_is_digit(l[15]) && spec_is_digit(l[16]));
        assert(spec_digit_end(l, 15) == spec_digit_end(l, 16));
        assert(spec_digit_end(l, 16) == spec_digit_end(l, 17));
        assert(spec_digit_end(l, 17) == 17);
    }
    let i2 = 14 + dn;
    assert(spec_digit_end(l, 14) == i2);
    assert(l.subrange(14, i2) =~= d);
    crate::chars::lemma_u8_dec_parses(p.active_steps);
    assert(spec_parse_u8(l.subrange(14, i2)) == Some(p.active_steps));
    // the comma and the second label
    assert(!spec_is_space(l[i2]));
    assert(spec_skip_spaces(l, i2) == i2);
    assert(l[i2 + 1] == ' ');
    assert(l[i2 + 2] == 'T');
    assert(spec_skip_spaces(l, i2 + 1) == spec_skip_spaces(l, i2 + 2));
    assert(spec_skip_spaces(l, i2 + 2) == i2 + 2);
    assert(l.subrange(i2 + 2, i2 + 15) =~= "Triplet Time:"@);
    assert(spec_matches_at(l, "Triplet Time:"@, i2 + 2));
    // one space, then the flag token to the end of the line
    assert(l[i2 + 15] == ' ');
    assert(l[i2 + 16] == t[0]);
    assert(!spec_is_space(t[0]));
    assert(spec_skip_spaces(l, i2 + 15) == spec_skip_spaces(l, i2 + 16));
    assert(spec_skip_spaces(l, i2 + 16) == i2 + 16);
    assert(l.skip(i2 + 16) =~= t);
    if p.triplet {
        assert(l.skip(i2 + 16) == "On"@);
    } else {
        assert("Off"@ != "On"@);
    }
    assert(spec_parse_meta(l) == Some((p.active_steps, p.triplet)));
    // the line carries no comment and no surrounding whitespace
    assert forall|i: int| 0 <= i < l.len() implies #[trigger] l[i] != '/' && l[i] != '\n' by {
        if i < 14 {
        } else if i < 14 + dn {
            assert(l[i] == d[i - 14]);
            lemma_digit_char_class(d[i - 14]);
        } else if i < 30 + dn {
            assert(l[i] == b[i - 14 - dn]);
        } else {
            assert(l[i] == t[i - 30 - dn]);
        }
    }
    lemma_comment_none(l);
    assert(l.take(l.len() as int) =~= l);
    assert(!spec_is_space(l[0]));
    assert(!spec_is_space(l.last()));
    lemma_trim_id_edges(l);
}

} // verus!

verus! {

/// A newline-free line followed by a newline and the rest of the text
/// contributes its cleaned form (if significant) to the significant
/// lines.
proof fn lemma_sig_cons(t: Seq<char>, rest: Seq<char>)
    requires
        nl_free(t),
    ensures
        spec_sig_lines(t + (seq!['\n'] + rest)) == (if spec_clean_line(t).len() > 0 {
            seq![spec_clean_line(t)]
        } else {
            Seq::<Seq<char>>::empty()
        }) + spec_sig_lines(rest),
{
    let s = t + (seq!['\n'] + rest);
    assert forall|j: int| 0 <= j < t.len() implies #[trigger] s[j] != '\n' by {
        assert(s[j] == t[j]);
    }
    assert(s[t.len() as int] == '\n');
    crate::chars::lemma_split_head(s, '\n', t.len() as int);
    assert(s.take(t.len() as int) =~= t);
    assert(s.skip(t.len() as int + 1) =~= rest);
    let tailsplit = spec_split(rest, '\n');
    assert(spec_split(s, '\n') == seq![t] + tailsplit);
    let ls = seq![t] + tailsplit;
    assert(ls[0] == t);
    assert(ls.drop_first() =~~= tailsplit);
    assert(spec_sig_of(ls) == (if spec_clean_line(t).len() > 0 {
        seq![spec_clean_line(t)]
    } else {
        Seq::<Seq<char>>::empty()
    }) + spec_sig_of(tailsplit));
}

/// Joining newline-free lines and taking the significant lines gives
/// the same as cleaning the lines directly.
proof fn lemma_sig_join(ls: Seq<Seq<char>>)
    requires
        forall|i: int| 0 <= i < ls.len() ==> nl_free(#[trigger] ls[i]),
    ensures
        spec_sig_lines(spec_join_lines(ls)) == spec_sig_of(ls),
    decreases ls.len(),
{
    if ls.len() == 0 {
        lemma_sig_lines_empty();
    } else {
        let rest = ls.drop_first();
        assert(forall|i: int| 0 <= i < rest.len() ==> nl_free(#[trigger] rest[i]));
        lemma_sig_join(rest);
        lemma_sig_cons(ls[0], spec_join_lines(rest));
    }
}

/// The empty document has no significant lines.
proof fn lemma_sig_lines_empty()
    ensures
        spec_sig_lines(Seq::<char>::empty()) == Seq::<Seq<char>>::empty(),
{
    let e = Seq::<char>::empty();
    assert(spec_split(e, '\n') =~~= seq![e]);
    assert(spec_comment_start(e) == 0);
    assert(e.take(0) =~= e);
    assert(spec_clean_line(e).len() == 0);
    assert(seq![e].drop_first() =~~= Seq::<Seq<char>>::empty());
    assert(seq![e][0] == e);
    assert(spec_sig_of(Seq::<Seq<char>>::empty()) =~~= Seq::<Seq<char>>::empty());
    assert(spec_sig_of(seq![e]) =~~= Seq::<Seq<char>>::empty());
}

/// Character facts of the render layout's fixed strings.
proof fn lemma_layout_lits()
    ensures
        "Note:      "@.len() == 11,
        dpair_free("Note:      "@),
        nl_free("Note:      "@),
        !spec_is_space("Note:      "@[0]),
        "Note:      "@.last() == ' ',
        "Transpose: "@.len() == 11,
        dpair_free("Transpose: "@),
        nl_free("Transpose: "@),
        !spec_is_space("Transpose: "@[0]),
        "Transpose: "@.last() == ' ',
        "Accent:    "@.len() == 11,
        dpair_free("Accent:    "@),
        nl_free("Accent:    "@),
        !spec_is_space("Accent:    "@[0]),
        "Accent:    "@.last() == ' ',
        "Slide:     "@.len() == 11,
        dpair_free("Slide:     "@),
        nl_free("Slide:     "@),
        !spec_is_space("Slide:     "@[0]),
        "Slide:     "@.last() == ' ',
        "Tie/Rest:  "@.len() == 11,
        dpair_free("Tie/Rest:  "@),
        nl_free("Tie/Rest:  "@),
        !spec_is_space("Tie/Rest:  "@[0]),
        "Tie/Rest:  "@.last() == ' ',
        "  // C -C# .. B -C^"@.len() >= 4,
        nl_free("  // C -C# .. B -C^"@),
        "  // C -C# .. B -C^"@[0] == ' ' && "  // C -C# .. B -C^"@[1] == ' ' && "  // C -C# .. B -C^"@[2] == '/' && "  // C -C# .. B -C^"@[3] == '/',
        "  // DN-  -UP"@.len() >= 4,
        nl_free("  // DN-  -UP"@),
        "  // DN-  -UP"@[0] == ' ' && "  // DN-  -UP"@[1] == ' ' && "  // DN-  -UP"@[2] == '/' && "  // DN-  -UP"@[3] == '/',
        "  //   -AC"@.len() >= 4,
        nl_free("  //   -AC"@),
        "  //   -AC"@[0] == ' ' && "  //   -AC"@[1] == ' ' && "  //   -AC"@[2] == '/' && "  //   -AC"@[3] == '/',
        "  //   -SL"@.len() >= 4,
        nl_free("  //   -SL"@),
        "  //   -SL"@[0] == ' ' && "  //   -SL"@[1] == ' ' && "  //   -SL"@[2] == '/' && "  //   -SL"@[3] == '/',
        "  //   -TI-RE"@.len() >= 4,
        nl_free("  //   -TI-RE"@),
        "  //   -TI-RE"@[0] == ' ' && "  //   -TI-RE"@[1] == ' ' && "  //   -TI-RE"@[2] == '/' && "  //   -TI-RE"@[3] == '/',
        nl_free("TD-3 Pattern"@),
        dpair_free("TD-3 Pattern"@),
        "TD-3 Pattern"@.len() == 12,
        !spec_is_space("TD-3 Pattern"@[0]),
        !spec_is_space("TD-3 Pattern"@.last()),
        nl_free("// Step:   "@),
        "// Step:   "@.len() >= 2,
        "// Step:   "@[0] == '/' && "// Step:   "@[1] == '/',
        nl_free("// A tied step holds its note; rest wins when tie and rest are both set"@),
        "// A tied step holds its note; rest wins when tie and rest are both set"@.len() >= 2,
        "// A tied step holds its note; rest wins when tie and rest are both set"@[0] == '/' && "// A tied step holds its note; rest wins when tie and rest are both set"@[1] == '/',
{
    reveal_strlit("Note:      ");
    reveal_strlit("Transpose: ");
    reveal_strlit("Accent:    ");
    reveal_strlit("Slide:     ");
    reveal_strlit("Tie/Rest:  ");
    reveal_strlit("  // C -C# .. B -C^");
    reveal_strlit("  // DN-  -UP");
    reveal_strlit("  //   -AC");
    reveal_strlit("  //   -SL");
    reveal_strlit("  //   -TI-RE");
    reveal_strlit("TD-3 Pattern");
    reveal_strlit("// Step:   ");
    reveal_strlit("// A tied step holds its note; rest wins when tie and rest are both set");
    assert("Note:      "@ =~= seq!['N', 'o', 't', 'e', ':', ' ', ' ', ' ', ' ', ' ', ' ']);
    assert("Transpose: "@ =~= seq!['T', 'r', 'a', 'n', 's', 'p', 'o', 's', 'e', ':', ' ']);
    assert("Accent:    "@ =~= seq!['A', 'c', 'c', 'e', 'n', 't', ':', ' ', ' ', ' ', ' ']);
    assert("Slide:     "@ =~= seq!['S', 'l', 'i', 'd', 'e', ':', ' ', ' ', ' ', ' ', ' ']);
    assert("Tie/Rest:  "@ =~= seq!['T', 'i', 'e', '/', 'R', 'e', 's', 't', ':', ' ', ' ']);
    assert("  // C -C# .. B -C^"@ =~= seq![' ', ' ', '/', '/', ' ', 'C', ' ', '-', 'C', '#', ' ', '.', '.', ' ', 'B', ' ', '-', 'C', '^']);
    assert("  // DN-  -UP"@ =~= seq![' ', ' ', '/', '/', ' ', 'D', 'N', '-', ' ', ' ', '-', 'U', 'P']);
    assert("  //   -AC"@ =~= seq![' ', ' ', '/', '/', ' ', ' ', ' ', '-', 'A', 'C']);
    assert("  //   -SL"@ =~= seq![' ', ' ', '/', '/', ' ', ' ', ' ', '-', 'S', 'L']);
    assert("  //   -TI-RE"@ =~= seq![' ', ' ', '/', '/', ' ', ' ', ' ', '-', 'T', 'I', '-', 'R', 'E']);
    assert("TD-3 Pattern"@ =~= seq!['T', 'D', '-', '3', ' ', 'P', 'a', 't', 't', 'e', 'r', 'n']);
    assert("// Step:   "@ =~= seq!['/', '/', ' ', 'S', 't', 'e', 'p', ':', ' ', ' ', ' ']);
    assert("// A tied step holds its note; rest wins when tie and rest are both set"@ =~= seq!['/', '/', ' ', 'A', ' ', 't', 'i', 'e', 'd', ' ', 's', 't', 'e', 'p', ' ', 'h', 'o', 'l', 'd', 's', ' ', 'i', 't', 's', ' ', 'n', 'o', 't', 'e', ';', ' ', 'r', 'e', 's', 't', ' ', 'w', 'i', 'n', 's', ' ', 'w', 'h', 'e', 'n', ' ', 't', 'i', 'e', ' ', 'a', 'n', 'd', ' ', 'r', 'e', 's', 't', ' ', 'a', 'r', 'e', ' ', 'b', 'o', 't', 'h', ' ', 's', 'e', 't']);
}


} // verus!

verus! {

/// The significant lines of a rendered pattern: the header, the
/// metadata line, and the five field lines with their comments cut and
/// padding trimmed.
#[verifier::rlimit(100)]
proof fn lemma_render_sig_lines(p: PatternModel)
    requires
        p.wf(),
    ensures
        spec_sig_lines(spec_render(p)) == seq![
            "TD-3 Pattern"@,
            spec_meta_line(p),
            "Note:      "@ + spec_trim_right(spec_cells(spec_note_tokens(p.steps), 16)),
            "Transpose: "@ + spec_trim_right(spec_cells(spec_transpose_tokens(p.steps), 16)),
            "Accent:    "@ + spec_trim_right(spec_cells(spec_accent_tokens(p.steps), 16)),
            "Slide:     "@ + spec_trim_right(spec_cells(spec_slide_tokens(p.steps), 16)),
            "Tie/Rest:  "@ + spec_trim_right(spec_cells(spec_time_tokens(p.steps), 16)),
        ],
{
    lemma_layout_lits();
    lemma_pattern_tokens_ok(p);
    lemma_meta_round(p);
    let nl = seq!['\n'];
    let l0 = "TD-3 Pattern"@;
    let l1 = spec_meta_line(p);
    let l2 = Seq::<char>::empty();
    let l3 = "// Step:   "@ + spec_cells(spec_num_tokens(), 16);
    let l4 = "Note:      "@ + spec_cells(spec_note_tokens(p.steps), 16) + "  // C -C# .. B -C^"@;
    let l5 = "Transpose: "@ + spec_cells(spec_transpose_tokens(p.steps), 16) + "  // DN-  -UP"@;
    let l6 = "Accent:    "@ + spec_cells(spec_accent_tokens(p.steps), 16) + "  //   -AC"@;
    let l7 = "Slide:     "@ + spec_cells(spec_slide_tokens(p.steps), 16) + "  //   -SL"@;
    let l8 = "Tie/Rest:  "@ + spec_cells(spec_time_tokens(p.steps), 16) + "  //   -TI-RE"@;
    let l9 = "// A tied step holds its note; rest wins when tie and rest are both set"@;
    lemma_field_line_round(
        "Note:      "@,
        "Note:"@,
        spec_note_tokens(p.steps),
        "  // C -C# .. B -C^"@,
    );
    lemma_field_line_round(
        "Transpose: "@,
        "Transpose:"@,
        spec_transpose_tokens(p.steps),
        "  // DN-  -UP"@,
    );
    lemma_field_line_round(
        "Accent:    "@,
        "Accent:"@,
        spec_accent_tokens(p.steps),
        "  //   -AC"@,
    );
    lemma_field_line_round(
        "Slide:     "@,
        "Slide:"@,
        spec_slide_tokens(p.steps),
        "  //   -SL"@,
    );
    lemma_field_line_round(
        "Tie/Rest:  "@,
        "Tie/Rest:"@,
        spec_time_tokens(p.steps),
        "  //   -TI-RE"@,
    );
    let s4 = "Note:      "@ + spec_trim_right(spec_cells(spec_note_tokens(p.steps), 16));
    let s5 = "Transpose: "@ + spec_trim_right(spec_cells(spec_transpose_tokens(p.steps), 16));
    let s6 = "Accent:    "@ + spec_trim_right(spec_cells(spec_accent_tokens(p.steps), 16));
    let s7 = "Slide:     "@ + spec_trim_right(spec_cells(spec_slide_tokens(p.steps), 16));
    let s8 = "Tie/Rest:  "@ + spec_trim_right(spec_cells(spec_time_tokens(p.steps), 16));
    // the index comment and the closing comment clean to nothing
    lemma_cells_ok(spec_num_tokens(), 16);
    assert forall|i: int| 0 <= i < l3.len() implies #[trigger] l3[i] != '\n' by {
        if i < "// Step:   "@.len() {
            assert(l3[i] == "// Step:   "@[i]);
        } else {
            assert(l3[i] == spec_cells(spec_num_tokens(), 16)[i - "// Step:   "@.len()]);
        }
    }
    assert(l3[0] == '/' && l3[1] == '/');
    assert(spec_comment_start(l3) == 0);
    assert(l3.take(0) =~= Seq::<char>::empty());
    assert(spec_clean_line(l3).len() == 0);
    assert(spec_comment_start(l9) == 0);
    assert(l9.take(0) =~= Seq::<char>::empty());
    assert(spec_clean_line(l9).len() == 0);
    assert(spec_comment_start(l2) == 0);
    assert(l2.take(0) =~= l2);
    assert(spec_clean_line(l2).len() == 0);
    // the header and metadata lines clean to themselves
    lemma_comment_none(l0);
    assert(l0.take(l0.len() as int) =~= l0);
    lemma_trim_id_edges(l0);
    assert(spec_clean_line(l0) == l0);
    // assemble the significant lines
    lemma_sig_join(spec_render_lines(p));
    let ls = spec_render_lines(p);
    let t9 = seq![l9];
    let t8 = seq![l8, l9];
    let t7 = seq![l7, l8, l9];
    let t6 = seq![l6, l7, l8, l9];
    let t5 = seq![l5, l6, l7, l8, l9];
    let t4 = seq![l4, l5, l6, l7, l8, l9];
    let t3 = seq![l3, l4, l5, l6, l7, l8, l9];
    let t2 = seq![l2, l3, l4, l5, l6, l7, l8, l9];
    let t1 = seq![l1, l2, l3, l4, l5, l6, l7, l8, l9];
    assert(t9.drop_first() =~~= Seq::<Seq<char>>::empty());
    assert(spec_sig_of(Seq::<Seq<char>>::empty()) =~~= Seq::<Seq<char>>::empty());
    assert(spec_sig_of(t9) =~~= Seq::<Seq<char>>::empty());
    assert(t8.drop_first() =~~= t9);
    assert(spec_sig_of(t8) =~~= seq![s8]);
    assert(t7.drop_first() =~~= t8);
    assert(spec_sig_of(t7) =~~= seq![s7, s8]);
    assert(t6.drop_first() =~~= t7);
    assert(spec_sig_of(t6) =~~= seq![s6, s7, s8]);
    assert(t5.drop_first() =~~= t6);
    assert(spec_sig_of(t5) =~~= seq![s5, s6, s7, s8]);
    assert(t4.drop_first() =~~= t5);
    assert(spec_sig_of(t4) =~~= seq![s4, s5, s6, s7, s8]);
    assert(t3.drop_first() =~~= t4);
    assert(spec_sig_of(t3) =~~= seq![s4, s5, s6, s7, s8]);
    assert(t2.drop_first() =~~= t3);
    assert(spec_sig_of(t2) =~~= seq![s4, s5, s6, s7, s8]);
    assert(t1.drop_first() =~~= t2);
    assert(spec_sig_of(t1) =~~= seq![l1, s4, s5, s6, s7, s8]);
    assert(ls.drop_first() =~~= t1);
    assert(ls[0] == l0);
    assert(spec_sig_of(ls) =~~= seq![l0, l1, s4, s5, s6, s7, s8]);
}

/// Parsing the rendered text of any well-formed pattern restores the
/// pattern exactly: the metadata and all five fields of all 16 steps.
#[verifier::rlimit(100)]
pub proof fn lemma_text_round_trip(p: PatternModel)
    requires
        p.wf(),
    ensures
        spec_parse(spec_render(p)) == Ok::<PatternModel, ErrorModel>(p),
{
    lemma_render_sig_lines(p);
    lemma_meta_round(p);
    lemma_pattern_tokens_ok(p);
    lemma_layout_lits();
    lemma_field_line_round(
        "Note:      "@,
        "Note:"@,
        spec_note_tokens(p.steps),
        "  // C -C# .. B -C^"@,
    );
    lemma_field_line_round(
        "Transpose: "@,
        "Transpose:"@,
        spec_transpose_tokens(p.steps),
        "  // DN-  -UP"@,
    );
    lemma_field_line_round(
        "Accent:    "@,
        "Accent:"@,
        spec_accent_tokens(p.steps),
        "  //   -AC"@,
    );
    lemma_field_line_round(
        "Slide:     "@,
        "Slide:"@,
        spec_slide_tokens(p.steps),
        "  //   -SL"@,
    );
    lemma_field_line_round(
        "Tie/Rest:  "@,
        "Tie/Rest:"@,
        spec_time_tokens(p.steps),
        "  //   -TI-RE"@,
    );
    let l0 = "TD-3 Pattern"@;
    let l1 = spec_meta_line(p);
    let s4 = "Note:      "@ + spec_trim_right(spec_cells(spec_note_tokens(p.steps), 16));
    let s5 = "Transpose: "@ + spec_trim_right(spec_cells(spec_transpose_tokens(p.steps), 16));
    let s6 = "Accent:    "@ + spec_trim_right(spec_cells(spec_accent_tokens(p.steps), 16));
    let s7 = "Slide:     "@ + spec_trim_right(spec_cells(spec_slide_tokens(p.steps), 16));
    let s8 = "Tie/Rest:  "@ + spec_trim_right(spec_cells(spec_time_tokens(p.steps), 16));
    let sig = spec_sig_lines(spec_render(p));
    assert(sig == seq![l0, l1, s4, s5, s6, s7, s8]);
    assert(spec_line_at(sig, 0) == l0);
    assert(spec_line_at(sig, 1) == l1);
    assert(spec_line_at(sig, 2) == s4);
    assert(spec_line_at(sig, 3) == s5);
    assert(spec_line_at(sig, 4) == s6);
    assert(spec_line_at(sig, 5) == s7);
    assert(spec_line_at(sig, 6) == s8);
    assert(spec_parse_meta(l1) == Some((p.active_steps, p.triplet)));
    assert(spec_field_tokens(s4, "Note:      "@, "Note:"@) == Ok::<Seq<Seq<char>>, ErrorModel>(
        spec_note_tokens(p.steps),
    ));
    assert(spec_field_tokens(s5, "Transpose: "@, "Transpose:"@) == Ok::<
        Seq<Seq<char>>,
        ErrorModel,
    >(spec_transpose_tokens(p.steps)));
    assert(spec_field_tokens(s6, "Accent:    "@, "Accent:"@) == Ok::<Seq<Seq<char>>, ErrorModel>(
        spec_accent_tokens(p.steps),
    ));
    assert(spec_field_tokens(s7, "Slide:     "@, "Slide:"@) == Ok::<Seq<Seq<char>>, ErrorModel>(
        spec_slide_tokens(p.steps),
    ));
    assert(spec_field_tokens(s8, "Tie/Rest:  "@, "Tie/Rest:"@) == Ok::<Seq<Seq<char>>, ErrorModel>(
        spec_time_tokens(p.steps),
    ));
    lemma_build_steps_round(p, 0);
    assert(p.steps.subrange(0, 16) =~= p.steps);
    let q = PatternModel { triplet: p.triplet, active_steps: p.active_steps, steps: p.steps };
    assert(q =~= p);
    assert(spec_parse(spec_render(p)) == Ok::<PatternModel, ErrorModel>(q));
}

} // verus!
