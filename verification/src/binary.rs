//! The binary codec: between a raw SysEx payload and a pattern.
//!
//! A pattern payload is exactly 115 bytes.  Each step stores its note as
//! a nibble-split MIDI-like value, accent and slide as one byte each,
//! and the tie/rest timing bits in two nibble-interleaved 16-bit masks
//! near the end of the payload.

use crate::errors::{result_model, CodecError, ErrorModel};
use crate::pattern::{Pattern, PatternModel};
use crate::step::{
    accent_code, slide_code, spec_time_from_code, time_rest_flag, time_tie_flag, transpose_code,
    Accent, Slide, Step, Time, Transpose,
};
use vstd::prelude::*;

verus! {

/// The fixed length of a pattern payload.
pub const PAYLOAD_LEN: usize = 115;

/// The MIDI-like 7-bit note value of a step, read from its byte pair:
/// the second byte plus the first byte shifted into the high nibble,
/// masked to 7 bits.
pub open spec fn spec_raw_note(b05: u8, b06: u8) -> u8 {
    ((b06 + b05 * 16) % 128) as u8
}

/// The upper-C flag of a step: bit 3 of the first byte of its pair, or
/// forced on when the raw note value is exactly `0x30` (a quirk the
/// device itself produces, preserved here deliberately).
pub open spec fn spec_upper_c(b05: u8, b06: u8) -> bool {
    (b05 >> 3) & 1 == 1 || spec_raw_note(b05, b06) == 0x30
}

/// The decoded note of a step: a semitone 0–11, or 12 for the high C.
pub open spec fn spec_note_val(b05: u8, b06: u8) -> int {
    spec_raw_note(b05, b06) % 12 + if spec_upper_c(b05, b06) {
        12int
    } else {
        0int
    }
}

/// The decoded transpose code of a step; values outside `{0, 1, 2}`
/// signal a malformed payload.
pub open spec fn spec_transpose_val(b05: u8, b06: u8) -> int {
    spec_raw_note(b05, b06) / 12 - 1 - if spec_upper_c(b05, b06) {
        1int
    } else {
        0int
    }
}

/// A 16-bit mask read from its four wire bytes: nibble-interleaved, in
/// wire order bits 4–7, 0–3, 12–15, 8–11.
pub open spec fn spec_mask_from_bytes(b0: u8, b1: u8, b2: u8, b3: u8) -> u16 {
    ((b0 as u16) << 4) | (b1 as u16) | ((b2 as u16) << 12) | ((b3 as u16) << 8)
}

/// Bit `n` of a 16-bit mask.
pub open spec fn spec_mask_bit(m: u16, n: u16) -> u8
    recommends
        n < 16,
{
    ((m >> n) & 1) as u8
}

/// The tie mask of a payload.
pub open spec fn spec_tie_mask_of(m: Seq<u8>) -> u16 {
    spec_mask_from_bytes(m[0x6B], m[0x6C], m[0x6D], m[0x6E])
}

/// The rest mask of a payload.
pub open spec fn spec_rest_mask_of(m: Seq<u8>) -> u16 {
    spec_mask_from_bytes(m[0x6F], m[0x70], m[0x71], m[0x72])
}

/// Whether step `n` of the payload decodes to in-range note and
/// transpose values.
pub open spec fn spec_step_fields_ok(m: Seq<u8>, n: int) -> bool {
    let b05 = m[5 + 2 * n];
    let b06 = m[6 + 2 * n];
    spec_note_val(b05, b06) <= 12 && 0 <= spec_transpose_val(b05, b06) <= 2
}

/// The transpose value of an in-range code.
pub open spec fn spec_transpose_from_code3(c: int) -> Transpose {
    if c == 0 {
        Transpose::Down
    } else if c == 1 {
        Transpose::Normal
    } else {
        Transpose::Up
    }
}

/// Step `n` decoded from the payload.  Accent and slide compare their
/// byte against 1 exactly; any other value reads as off.  The timing
/// class combines the step's tie and rest mask bits, rest dominating.
pub open spec fn spec_decoded_step(m: Seq<u8>, n: int) -> Step
    recommends
        m.len() >= 115,
        0 <= n < 16,
        spec_step_fields_ok(m, n),
{
    let b05 = m[5 + 2 * n];
    let b06 = m[6 + 2 * n];
    Step {
        note: spec_note_val(b05, b06) as u8,
        transpose: spec_transpose_from_code3(spec_transpose_val(b05, b06)),
        accent: if m[0x26 + 2 * n] == 1 {
            Accent::On
        } else {
            Accent::Off
        },
        slide: if m[0x46 + 2 * n] == 1 {
            Slide::On
        } else {
            Slide::Off
        },
        time: spec_time_from_code(
            (spec_mask_bit(spec_tie_mask_of(m), n as u16) + 2 * spec_mask_bit(
                spec_rest_mask_of(m),
                n as u16,
            )) as u8,
        ),
    }
}

/// The first step whose decoded fields are out of range, or 16 if all
/// 16 steps are in range.
pub open spec fn spec_first_bad_step(m: Seq<u8>, n: int) -> int
    decreases 16 - n,
{
    if n < 0 || n >= 16 {
        16
    } else if !spec_step_fields_ok(m, n) {
        n
    } else {
        spec_first_bad_step(m, n + 1)
    }
}

/// The active-step count read from its nibble pair, with the wrapping
/// byte arithmetic of the wire format.
pub open spec fn spec_active_steps(b67: u8, b68: u8) -> u8 {
    (((b67 % 16) * 16 + b68) % 256) as u8
}

/// Decoding a payload.  A payload shorter than 115 bytes is refused
/// outright; a payload whose note pair leaves a step's note or
/// transpose out of range is refused naming the first such step;
/// everything else decodes to a full pattern.
pub open spec fn spec_decode(m: Seq<u8>) -> Result<PatternModel, ErrorModel> {
    if m.len() < 115 {
        Err(ErrorModel::Size { expected: 115, found: m.len() as int })
    } else {
        let bad = spec_first_bad_step(m, 0);
        if bad < 16 {
            Err(
                ErrorModel::Malformed {
                    step: bad,
                    raw: spec_raw_note(m[5 + 2 * bad], m[6 + 2 * bad]),
                    upper_c: spec_upper_c(m[5 + 2 * bad], m[6 + 2 * bad]),
                },
            )
        } else {
            Ok(
                PatternModel {
                    triplet: m[0x66] == 1,
                    active_steps: spec_active_steps(m[0x67], m[0x68]),
                    steps: Seq::new(16, |n: int| spec_decoded_step(m, n)),
                },
            )
        }
    }
}

proof fn lemma_first_bad_step_at(m: Seq<u8>, n: int)
    requires
        0 <= n <= 16,
        forall|j: int| 0 <= j < n ==> spec_step_fields_ok(m, j),
    ensures
        spec_first_bad_step(m, 0) == if n < 16 && !spec_step_fields_ok(m, n) {
            n
        } else {
            spec_first_bad_step(m, n)
        },
    decreases n,
{
    if n > 0 {
        lemma_first_bad_step_prefix(m, 0, n);
    }
}

proof fn lemma_first_bad_step_prefix(m: Seq<u8>, a: int, b: int)
    requires
        0 <= a <= b <= 16,
        forall|j: int| a <= j < b ==> spec_step_fields_ok(m, j),
    ensures
        spec_first_bad_step(m, a) == spec_first_bad_step(m, b),
    decreases b - a,
{
    if a < b {
        assert(spec_step_fields_ok(m, a));
        lemma_first_bad_step_prefix(m, a + 1, b);
    }
}

/// Decodes one pattern payload.
///
/// The result is exactly `spec_decode` of the input: `Ok` with the
/// decoded pattern when the payload is at least 115 bytes and every
/// step's note pair is in range, and the corresponding error otherwise.
pub fn sysex_to_pattern(msg: &[u8]) -> (r: Result<Pattern, CodecError>)
    ensures
        result_model(r) == spec_decode(msg@),
        r is Ok ==> r->Ok_0.wf(),
{
    if msg.len() < PAYLOAD_LEN {
        return Err(CodecError::SizeContractViolation { expected: PAYLOAD_LEN, found: msg.len() });
    }
    let tienum: u16 = mask_from_bytes(msg[0x6B], msg[0x6C], msg[0x6D], msg[0x6E]);
    let restnum: u16 = mask_from_bytes(msg[0x6F], msg[0x70], msg[0x71], msg[0x72]);
    proof {
        assert(tienum == spec_tie_mask_of(msg@));
        assert(restnum == spec_rest_mask_of(msg@));
    }
    let mut step: Vec<Step> = Vec::new();
    let mut n: usize = 0;
    while n < 16
        invariant
            n <= 16,
            msg@.len() >= 115,
            tienum == spec_tie_mask_of(msg@),
            restnum == spec_rest_mask_of(msg@),
            forall|j: int| 0 <= j < n ==> spec_step_fields_ok(msg@, j),
            step@ =~= Seq::new(n as nat, |j: int| spec_decoded_step(msg@, j)),
        decreases 16 - n,
    {
        let b05 = msg[5 + 2 * n];
        let b06 = msg[6 + 2 * n];
        let raw: u8 = (((b06 as u16) + (b05 as u16) * 16) % 128) as u8;
        proof {
            assert(raw == spec_raw_note(b05, b06));
        }
        let upper_c: bool = ((b05 >> 3) & 1) == 1 || raw == 0x30;
        let note: u8 = raw % 12 + if upper_c {
            12
        } else {
            0
        };
        let tcode: i32 = (raw as i32) / 12 - 1 - if upper_c {
            1
        } else {
            0
        };
        if note > 12 || tcode < 0 || tcode > 2 {
            proof {
                assert(!spec_step_fields_ok(msg@, n as int));
                lemma_first_bad_step_at(msg@, n as int);
            }
            return Err(
                CodecError::MalformedBinaryField { step: n, raw, upper_c },
            );
        }
        let transpose = if tcode == 0 {
            Transpose::Down
        } else if tcode == 1 {
            Transpose::Normal
        } else {
            Transpose::Up
        };
        let accent = if msg[0x26 + 2 * n] == 1 {
            Accent::On
        } else {
            Accent::Off
        };
        let slide = if msg[0x46 + 2 * n] == 1 {
            Slide::On
        } else {
            Slide::Off
        };
        proof {
            lemma_bit_le_one(tienum, n as u16);
            lemma_bit_le_one(restnum, n as u16);
        }
        let tie_bit: u8 = ((tienum >> (n as u16)) & 1) as u8;
        let rest_bit: u8 = ((restnum >> (n as u16)) & 1) as u8;
        let time = Time::from_code(tie_bit + 2 * rest_bit);
        step.push(Step { note, transpose, accent, slide, time });
        n = n + 1;
        proof {
            assert(step@ =~= Seq::new(n as nat, |j: int| spec_decoded_step(msg@, j)));
        }
    }
    proof {
        lemma_first_bad_step_at(msg@, 16);
    }
    let p = Pattern {
        triplet: msg[0x66] == 1,
        active_steps: (((msg[0x67] as u16 % 16) * 16 + msg[0x68] as u16) % 256) as u8,
        step,
    };
    proof {
        assert(p@ =~= spec_decode(msg@)->Ok_0);
        assert forall|i: int| 0 <= i < 16 implies (#[trigger] p@.steps[i]).wf() by {
            assert(spec_step_fields_ok(msg@, i));
            assert(p@.steps[i] == spec_decoded_step(msg@, i));
            assert(spec_note_val(msg@[5 + 2 * i], msg@[6 + 2 * i]) >= 0);
        }
    }
    Ok(p)
}

/// Reassembles a 16-bit mask from its four wire bytes.
fn mask_from_bytes(b0: u8, b1: u8, b2: u8, b3: u8) -> (m: u16)
    ensures
        m == spec_mask_from_bytes(b0, b1, b2, b3),
{
    ((b0 as u16) << 4) | (b1 as u16) | ((b2 as u16) << 12) | ((b3 as u16) << 8)
}

proof fn lemma_bit_le_one(m: u16, n: u16)
    by (bit_vector)
    ensures
        (m >> n) & 1 <= 1,
{
}

proof fn lemma_nib_bounds(m: u16)
    by (bit_vector)
    ensures
        (m >> 4) & 0xF < 16,
        m & 0xF < 16,
        (m >> 12) & 0xF < 16,
        (m >> 8) & 0xF < 16,
{
}

/// The composed wire note value of a note and transpose code: offset by
/// one octave, shifted by the transpose, with the top bit flagging the
/// high C.
pub open spec fn spec_composed_of(note: u8, tc: u8) -> u8
    recommends
        note <= 12,
        tc <= 2,
{
    (12 + note + tc * 12 + if note >= 12 {
        128int
    } else {
        0int
    }) as u8
}

/// The composed wire note value of a step.
pub open spec fn spec_composed_note(s: Step) -> u8
    recommends
        s.wf(),
{
    spec_composed_of(s.note, transpose_code(s.transpose))
}

/// The tie bits of the first `i` steps, accumulated into a mask.
pub open spec fn spec_flag_mask(f: Seq<u8>, i: int) -> u16
    decreases i,
{
    if i <= 0 {
        0
    } else {
        spec_flag_mask(f, i - 1) | (((f[i - 1] & 1) as u16) << ((i - 1) as u16))
    }
}

/// The tie flags of a step sequence.
pub open spec fn spec_tie_flags(s: Seq<Step>) -> Seq<u8> {
    Seq::new(s.len(), |i: int| time_tie_flag(s[i].time))
}

/// The rest flags of a step sequence.
pub open spec fn spec_rest_flags(s: Seq<Step>) -> Seq<u8> {
    Seq::new(s.len(), |i: int| time_rest_flag(s[i].time))
}

/// The tie mask of a pattern's steps.
pub open spec fn spec_tie_mask(s: Seq<Step>) -> u16 {
    spec_flag_mask(spec_tie_flags(s), 16)
}

/// The rest mask of a pattern's steps.
pub open spec fn spec_rest_mask(s: Seq<Step>) -> u16 {
    spec_flag_mask(spec_rest_flags(s), 16)
}

/// Wire byte `k` of a 16-bit mask: nibbles in wire order bits 4–7,
/// 0–3, 12–15, 8–11.
pub open spec fn spec_mask_byte(m: u16, k: int) -> u8
    recommends
        0 <= k < 4,
{
    if k == 0 {
        ((m >> 4) & 0xF) as u8
    } else if k == 1 {
        (m & 0xF) as u8
    } else if k == 2 {
        ((m >> 12) & 0xF) as u8
    } else {
        ((m >> 8) & 0xF) as u8
    }
}

/// Byte `i` of the encoded payload of pattern `p` addressed at the
/// given device slot.
pub open spec fn spec_enc_byte(p: PatternModel, group: u8, pnum: u8, ab: u8, i: int) -> u8
    recommends
        p.wf(),
        pnum <= 7,
        ab <= 1,
        0 <= i < 115,
{
    if i == 0 {
        0x78
    } else if i == 1 {
        group
    } else if i == 2 {
        (pnum + ab * 8) as u8
    } else if i == 3 {
        0
    } else if i == 4 {
        1
    } else if i < 37 {
        let cn = spec_composed_note(p.steps[(i - 5) / 2]);
        if (i - 5) % 2 == 0 {
            cn / 16
        } else {
            cn % 16
        }
    } else if i < 69 {
        if (i - 37) % 2 == 1 {
            accent_code(p.steps[(i - 37) / 2].accent)
        } else {
            0
        }
    } else if i < 101 {
        if (i - 69) % 2 == 1 {
            slide_code(p.steps[(i - 69) / 2].slide)
        } else {
            0
        }
    } else if i == 101 {
        0
    } else if i == 102 {
        if p.triplet {
            1
        } else {
            0
        }
    } else if i == 103 {
        p.active_steps / 16
    } else if i == 104 {
        p.active_steps % 16
    } else if i == 105 || i == 106 {
        0
    } else if i < 111 {
        spec_mask_byte(spec_tie_mask(p.steps), i - 107)
    } else {
        spec_mask_byte(spec_rest_mask(p.steps), i - 111)
    }
}

/// The encoded payload of a pattern: always exactly 115 bytes.
pub open spec fn spec_encode(p: PatternModel, group: u8, pnum: u8, ab: u8) -> Seq<u8>
    recommends
        p.wf(),
        pnum <= 7,
        ab <= 1,
{
    Seq::new(115, |i: int| spec_enc_byte(p, group, pnum, ab, i))
}

/// Encodes a pattern into one 115-byte pattern payload addressed at
/// device group `group`, pattern `pnum`, side `ab`.
pub fn pattern_to_sysex(pattern: &Pattern, group: u8, pnum: u8, ab: u8) -> (r: Vec<u8>)
    requires
        pattern.wf(),
        group <= 3,
        pnum <= 7,
        ab <= 1,
    ensures
        r@ == spec_encode(pattern@, group, pnum, ab),
        r@.len() == 115,
{
    let ghost p = pattern@;
    let mut r: Vec<u8> = Vec::new();
    proof {
        assert(ab << 3 == ab * 8 && ab << 3 <= 8) by (bit_vector)
            requires
                ab <= 1,
        ;
    }
    r.push(0x78);
    r.push(group);
    r.push(pnum + (ab << 3));
    r.push(0);
    r.push(1);
    proof {
        assert(forall|i: int| 0 <= i < 5 ==> r@[i] == spec_enc_byte(p, group, pnum, ab, i));
    }
    let mut n: usize = 0;
    while n < 16
        invariant
            n <= 16,
            pattern.wf(),
            p == pattern@,
            group <= 3,
            pnum <= 7,
            ab <= 1,
            r@.len() == 5 + 2 * n,
            forall|i: int| 0 <= i < r@.len() ==> r@[i] == spec_enc_byte(p, group, pnum, ab, i),
        decreases 16 - n,
    {
        let s = &pattern.step[n];
        let hbit: u8 = if s.note >= 12 {
            128
        } else {
            0
        };
        assert(s.note <= 12);
        let cn: u8 = 12 + s.note + s.transpose.code() * 12 + hbit;
        proof {
            assert(cn == spec_composed_note(p.steps[n as int]));
        }
        r.push(cn / 16);
        r.push(cn % 16);
        n = n + 1;
        proof {
            assert(forall|i: int|
                0 <= i < r@.len() ==> r@[i] == spec_enc_byte(p, group, pnum, ab, i));
        }
    }
    let mut n: usize = 0;
    while n < 16
        invariant
            n <= 16,
            pattern.wf(),
            p == pattern@,
            r@.len() == 37 + 2 * n,
            forall|i: int| 0 <= i < r@.len() ==> r@[i] == spec_enc_byte(p, group, pnum, ab, i),
        decreases 16 - n,
    {
        r.push(0);
        r.push(pattern.step[n].accent.code());
        n = n + 1;
        proof {
            assert(forall|i: int|
                0 <= i < r@.len() ==> r@[i] == spec_enc_byte(p, group, pnum, ab, i));
        }
    }
    let mut n: usize = 0;
    while n < 16
        invariant
            n <= 16,
            pattern.wf(),
            p == pattern@,
            r@.len() == 69 + 2 * n,
            forall|i: int| 0 <= i < r@.len() ==> r@[i] == spec_enc_byte(p, group, pnum, ab, i),
        decreases 16 - n,
    {
        r.push(0);
        r.push(pattern.step[n].slide.code());
        n = n + 1;
        proof {
            assert(forall|i: int|
                0 <= i < r@.len() ==> r@[i] == spec_enc_byte(p, group, pnum, ab, i));
        }
    }
    r.push(0);
    r.push(if pattern.triplet {
        1
    } else {
        0
    });
    r.push(pattern.active_steps / 16);
    r.push(pattern.active_steps % 16);
    r.push(0);
    r.push(0);
    proof {
        assert(forall|i: int| 0 <= i < r@.len() ==> r@[i] == spec_enc_byte(p, group, pnum, ab, i));
    }
    let mut tie: u16 = 0;
    let mut rest: u16 = 0;
    let mut n: usize = 0;
    while n < 16
        invariant
            n <= 16,
            pattern.wf(),
            p == pattern@,
            tie == spec_flag_mask(spec_tie_flags(p.steps), n as int),
            rest == spec_flag_mask(spec_rest_flags(p.steps), n as int),
        decreases 16 - n,
    {
        let (tf, rf) = pattern.step[n].time.flags();
        tie = tie | (((tf & 1) as u16) << (n as u16));
        rest = rest | (((rf & 1) as u16) << (n as u16));
        n = n + 1;
        proof {
            assert(spec_tie_flags(p.steps)[n - 1] == tf);
            assert(spec_rest_flags(p.steps)[n - 1] == rf);
        }
    }
    proof {
        assert(tie == spec_tie_mask(p.steps));
        assert(rest == spec_rest_mask(p.steps));
    }
    proof {
        lemma_nib_bounds(tie);
        lemma_nib_bounds(rest);
    }
    r.push(((tie >> 4) & 0xF) as u8);
    r.push((tie & 0xF) as u8);
    r.push(((tie >> 12) & 0xF) as u8);
    r.push(((tie >> 8) & 0xF) as u8);
    r.push(((rest >> 4) & 0xF) as u8);
    r.push((rest & 0xF) as u8);
    r.push(((rest >> 12) & 0xF) as u8);
    r.push(((rest >> 8) & 0xF) as u8);
    proof {
        assert(forall|i: int| 0 <= i < r@.len() ==> r@[i] == spec_enc_byte(p, group, pnum, ab, i));
        assert(r@ =~= spec_encode(p, group, pnum, ab));
    }
    r
}

} // verus!

verus! {

proof fn lemma_u8_and1(b: u8)
    by (bit_vector)
    ensures
        b & 1 <= 1,
        b <= 1 ==> b & 1 == b,
{
}

proof fn lemma_or_bit_other(m: u16, f: u16, k: u16, n: u16)
    by (bit_vector)
    requires
        f <= 1,
        k < 16,
        n < 16,
        k != n,
    ensures
        ((m | (f << k)) >> n) & 1 == (m >> n) & 1,
{
}

proof fn lemma_or_bit_same(m: u16, f: u16, k: u16)
    by (bit_vector)
    requires
        f <= 1,
        k < 16,
        (m >> k) & 1 == 0,
    ensures
        ((m | (f << k)) >> k) & 1 == f,
{
}

proof fn lemma_zero_bit(n: u16)
    by (bit_vector)
    requires
        n < 16,
    ensures
        (0u16 >> n) & 1 == 0,
{
}

proof fn lemma_upper_bit(c: u8)
    by (bit_vector)
    ensures
        ((c / 16) as u8 >> 3) & 1 == c / 128,
{
}

proof fn lemma_mask_bytes_round(m: u16)
    by (bit_vector)
    ensures
        spec_mask_from_bytes(
            ((m >> 4) & 0xF) as u8,
            (m & 0xF) as u8,
            ((m >> 12) & 0xF) as u8,
            ((m >> 8) & 0xF) as u8,
        ) == m,
{
}

proof fn lemma_bytes_mask_round(b0: u8, b1: u8, b2: u8, b3: u8)
    by (bit_vector)
    requires
        b0 <= 15,
        b1 <= 15,
        b2 <= 15,
        b3 <= 15,
    ensures
        (spec_mask_from_bytes(b0, b1, b2, b3) >> 4) & 0xF == b0,
        spec_mask_from_bytes(b0, b1, b2, b3) & 0xF == b1,
        (spec_mask_from_bytes(b0, b1, b2, b3) >> 12) & 0xF == b2,
        (spec_mask_from_bytes(b0, b1, b2, b3) >> 8) & 0xF == b3,
{
}

/// Bits at positions `>= i` of a partial flag mask are still clear.
proof fn lemma_flag_mask_high(f: Seq<u8>, i: int, n: u16)
    requires
        0 <= i <= n < 16,
    ensures
        (spec_flag_mask(f, i) >> n) & 1 == 0,
    decreases i,
{
    if i <= 0 {
        lemma_zero_bit(n);
    } else {
        lemma_flag_mask_high(f, i - 1, n);
        lemma_u8_and1(f[i - 1]);
        lemma_or_bit_other(spec_flag_mask(f, i - 1), (f[i - 1] & 1) as u16, (i - 1) as u16, n);
    }
}

/// Bit `n` of a flag mask over at least `n + 1` flags is flag `n`.
proof fn lemma_flag_mask_bit(f: Seq<u8>, i: int, n: int)
    requires
        0 <= n < i <= 16,
    ensures
        ((spec_flag_mask(f, i) >> (n as u16)) & 1) as u8 == f[n] & 1,
    decreases i,
{
    let prev = spec_flag_mask(f, i - 1);
    let fb = (f[i - 1] & 1) as u16;
    lemma_u8_and1(f[i - 1]);
    if n == i - 1 {
        lemma_flag_mask_high(f, i - 1, n as u16);
        lemma_or_bit_same(prev, fb, (i - 1) as u16);
    } else {
        lemma_flag_mask_bit(f, i - 1, n);
        lemma_or_bit_other(prev, fb, (i - 1) as u16, n as u16);
    }
}

/// Decoding the nibble pair written for an in-range note and transpose
/// restores exactly that note and transpose.
proof fn lemma_note_pair_round(note: u8, tc: u8)
    requires
        note <= 12,
        tc <= 2,
    ensures
        spec_note_val(spec_composed_of(note, tc) / 16, spec_composed_of(note, tc) % 16)
            == note as int,
        spec_transpose_val(spec_composed_of(note, tc) / 16, spec_composed_of(note, tc) % 16)
            == tc as int,
        spec_upper_c(spec_composed_of(note, tc) / 16, spec_composed_of(note, tc) % 16) == (note
            >= 12),
{
    let cn = spec_composed_of(note, tc);
    let base = 12 + note as int + tc as int * 12;
    let b05 = cn / 16;
    let b06 = cn % 16;
    assert(cn == 16 * (cn as int / 16) + cn as int % 16);
    assert(b06 + b05 * 16 == cn);
    assert(base < 128);
    assert(spec_raw_note(b05, b06) == base);
    lemma_upper_bit(cn);
    assert((b05 >> 3) & 1 == cn / 128);
    if note >= 12 {
        assert(cn == base + 128);
        assert(cn as int / 128 == 1);
        assert(spec_upper_c(b05, b06));
        assert(base == 24 + tc as int * 12);
        assert(base % 12 == 0);
        assert(base / 12 == 2 + tc);
    } else {
        assert(cn == base);
        assert(cn as int / 128 == 0);
        assert(base % 12 == note);
        assert(base / 12 == 1 + tc);
        assert(base == 48 ==> note as int + tc as int * 12 == 36);
        assert(note as int + tc as int * 12 <= 11 + 24);
        assert(base != 48);
        assert(!spec_upper_c(b05, b06));
    }
}

/// One encoded step decodes back to itself.
proof fn lemma_enc_step_round(p: PatternModel, group: u8, pnum: u8, ab: u8, n: int)
    requires
        p.wf(),
        pnum <= 7,
        ab <= 1,
        0 <= n < 16,
    ensures
        spec_step_fields_ok(spec_encode(p, group, pnum, ab), n),
        spec_decoded_step(spec_encode(p, group, pnum, ab), n) == p.steps[n],
{
    let m = spec_encode(p, group, pnum, ab);
    let s = p.steps[n];
    let cn = spec_composed_note(s);
    assert((5 + 2 * n - 5) / 2 == n && (5 + 2 * n - 5) % 2 == 0);
    assert((6 + 2 * n - 5) / 2 == n && (6 + 2 * n - 5) % 2 == 1);
    assert(m[5 + 2 * n] == cn / 16);
    assert(m[6 + 2 * n] == cn % 16);
    lemma_note_pair_round(s.note, transpose_code(s.transpose));
    assert(spec_note_val(m[5 + 2 * n], m[6 + 2 * n]) == s.note as int);
    assert(spec_transpose_val(m[5 + 2 * n], m[6 + 2 * n]) == transpose_code(s.transpose) as int);
    assert(spec_transpose_from_code3(transpose_code(s.transpose) as int) == s.transpose);
    // accent and slide bytes
    assert((0x26 + 2 * n - 37) / 2 == n && (0x26 + 2 * n - 37) % 2 == 1);
    assert(m[0x26 + 2 * n] == accent_code(s.accent));
    assert((0x46 + 2 * n - 69) / 2 == n && (0x46 + 2 * n - 69) % 2 == 1);
    assert(m[0x46 + 2 * n] == slide_code(s.slide));
    // timing masks
    let tm = spec_tie_mask(p.steps);
    let rm = spec_rest_mask(p.steps);
    assert(m[0x6B] == spec_mask_byte(tm, 0));
    assert(m[0x6C] == spec_mask_byte(tm, 1));
    assert(m[0x6D] == spec_mask_byte(tm, 2));
    assert(m[0x6E] == spec_mask_byte(tm, 3));
    assert(m[0x6F] == spec_mask_byte(rm, 0));
    assert(m[0x70] == spec_mask_byte(rm, 1));
    assert(m[0x71] == spec_mask_byte(rm, 2));
    assert(m[0x72] == spec_mask_byte(rm, 3));
    lemma_mask_bytes_round(tm);
    lemma_mask_bytes_round(rm);
    assert(spec_tie_mask_of(m) == tm);
    assert(spec_rest_mask_of(m) == rm);
    lemma_flag_mask_bit(spec_tie_flags(p.steps), 16, n);
    lemma_flag_mask_bit(spec_rest_flags(p.steps), 16, n);
    lemma_u8_and1(time_tie_flag(s.time));
    lemma_u8_and1(time_rest_flag(s.time));
    assert(spec_mask_bit(tm, n as u16) == time_tie_flag(s.time));
    assert(spec_mask_bit(rm, n as u16) == time_rest_flag(s.time));
    crate::step::lemma_time_code_round(s.time);
    assert(spec_decoded_step(m, n) == s);
}

/// Encoding any well-formed pattern and decoding the payload restores
/// the pattern exactly, whatever device slot it was addressed to.
pub proof fn lemma_binary_encode_decode(p: PatternModel, group: u8, pnum: u8, ab: u8)
    requires
        p.wf(),
        group <= 3,
        pnum <= 7,
        ab <= 1,
    ensures
        spec_decode(spec_encode(p, group, pnum, ab)) == Ok::<PatternModel, ErrorModel>(p),
{
    let m = spec_encode(p, group, pnum, ab);
    assert(m.len() == 115);
    assert forall|n: int| 0 <= n < 16 implies #[trigger] spec_step_fields_ok(m, n) by {
        lemma_enc_step_round(p, group, pnum, ab, n);
    }
    assert forall|n: int| 0 <= n < 16 implies #[trigger] spec_decoded_step(m, n) == p.steps[n] by {
        lemma_enc_step_round(p, group, pnum, ab, n);
    }
    lemma_first_bad_step_prefix(m, 0, 16);
    assert(spec_first_bad_step(m, 0) == 16);
    let q = spec_decode(m)->Ok_0;
    assert(m[0x66] == spec_enc_byte(p, group, pnum, ab, 0x66));
    assert(q.triplet == p.triplet);
    let a = p.active_steps;
    assert(m[0x67] == a / 16 && m[0x68] == a % 16);
    assert(spec_active_steps(a / 16, a % 16) == a);
    assert(q.steps =~= p.steps);
    assert(q =~= p);
}

} // verus!

verus! {

/// A note byte pair as the encoder itself writes it, for some in-range
/// note and transpose.
pub open spec fn spec_canonical_note_pair(b05: u8, b06: u8) -> bool {
    exists|note: u8, tc: u8|
        note <= 12 && tc <= 2 && b05 == spec_composed_of(note, tc) / 16 && b06
            == spec_composed_of(note, tc) % 16
}

/// The per-step bytes of a canonical payload: a canonical note pair,
/// and accent and slide bytes that are plain 0/1 flags in the odd
/// position of their pair.
pub open spec fn spec_canonical_step(m: Seq<u8>, n: int) -> bool {
    &&& spec_canonical_note_pair(m[5 + 2 * n], m[6 + 2 * n])
    &&& m[37 + 2 * n] == 0
    &&& m[38 + 2 * n] <= 1
    &&& m[69 + 2 * n] == 0
    &&& m[70 + 2 * n] <= 1
}

/// A syntactically valid pattern payload: exactly the shape the encoder
/// produces, for some pattern and device slot.
pub open spec fn spec_canonical(m: Seq<u8>) -> bool {
    &&& m.len() == 115
    &&& m[0] == 0x78
    &&& m[2] <= 15
    &&& m[3] == 0
    &&& m[4] == 1
    &&& forall|n: int| 0 <= n < 16 ==> #[trigger] spec_canonical_step(m, n)
    &&& m[101] == 0
    &&& m[102] <= 1
    &&& m[103] <= 15
    &&& m[104] <= 15
    &&& m[105] == 0
    &&& m[106] == 0
    &&& forall|k: int| 107 <= k < 115 ==> #[trigger] m[k] <= 15
}

proof fn lemma_addr_byte(b: u8)
    by (bit_vector)
    requires
        b <= 15,
    ensures
        b & 7 <= 7,
        (b >> 3) & 1 <= 1,
        (b & 7) + ((b >> 3) & 1) * 8 == b,
{
}

/// The flags of a mask's bits rebuild exactly that mask.
proof fn lemma_build_step(m: u16, t: u16, f: u16, k: u16)
    by (bit_vector)
    requires
        k < 15,
        f == (m >> k) & 1,
        t == m % (1u16 << k),
    ensures
        (t | (f << k)) == m % (1u16 << ((k + 1) as u16)),
{
}

proof fn lemma_build_last(m: u16, t: u16, f: u16)
    by (bit_vector)
    requires
        f == (m >> 15) & 1,
        t == m % (1u16 << 15u16),
    ensures
        (t | (f << 15)) == m,
{
}

proof fn lemma_mod_one(m: u16)
    by (bit_vector)
    ensures
        m % (1u16 << 0u16) == 0,
{
}

/// A flag sequence that reads off the bits of `mask` accumulates back
/// to `mask` itself.
proof fn lemma_flag_mask_eq(f: Seq<u8>, mask: u16, i: int)
    requires
        0 <= i <= 16,
        forall|n: int| 0 <= n < i ==> f[n] == ((mask >> (n as u16)) & 1) as u8,
    ensures
        i < 16 ==> spec_flag_mask(f, i) == mask % (1u16 << (i as u16)),
        i == 16 ==> spec_flag_mask(f, i) == mask,
    decreases i,
{
    if i == 0 {
        lemma_mod_one(mask);
    } else {
        lemma_flag_mask_eq(f, mask, i - 1);
        let prev = spec_flag_mask(f, i - 1);
        let k = (i - 1) as u16;
        lemma_bit_le_one(mask, k);
        assert(f[i - 1] == ((mask >> k) & 1) as u8);
        lemma_u8_and1(f[i - 1]);
        assert((f[i - 1] & 1) as u16 == (mask >> k) & 1);
        if i - 1 < 15 {
            lemma_build_step(mask, prev, (mask >> k) & 1, k);
        } else {
            lemma_build_last(mask, prev, (mask >> k) & 1);
        }
    }
}

/// A canonical payload's step `n` decodes, and every byte the encoder
/// would write for the decoded step matches the payload.
proof fn lemma_canon_step(m: Seq<u8>, n: int)
    requires
        spec_canonical(m),
        0 <= n < 16,
    ensures
        spec_step_fields_ok(m, n),
        spec_composed_note(spec_decoded_step(m, n)) / 16 == m[5 + 2 * n],
        spec_composed_note(spec_decoded_step(m, n)) % 16 == m[6 + 2 * n],
        accent_code(spec_decoded_step(m, n).accent) == m[38 + 2 * n],
        slide_code(spec_decoded_step(m, n).slide) == m[70 + 2 * n],
        time_tie_flag(spec_decoded_step(m, n).time) == spec_mask_bit(spec_tie_mask_of(m), n as u16),
        time_rest_flag(spec_decoded_step(m, n).time) == spec_mask_bit(
            spec_rest_mask_of(m),
            n as u16,
        ),
{
    assert(spec_canonical_step(m, n));
    let b05 = m[5 + 2 * n];
    let b06 = m[6 + 2 * n];
    let (note, tc) = choose|note: u8, tc: u8|
        note <= 12 && tc <= 2 && b05 == spec_composed_of(note, tc) / 16 && b06
            == spec_composed_of(note, tc) % 16;
    lemma_note_pair_round(note, tc);
    assert(spec_note_val(b05, b06) == note as int);
    assert(spec_transpose_val(b05, b06) == tc as int);
    let s = spec_decoded_step(m, n);
    assert(s.note == note);
    assert(transpose_code(s.transpose) == tc);
    assert(spec_composed_note(s) == spec_composed_of(note, tc));
    lemma_bit_le_one(spec_tie_mask_of(m), n as u16);
    lemma_bit_le_one(spec_rest_mask_of(m), n as u16);
    crate::step::lemma_time_code_round(s.time);
}

/// One byte the encoder writes for a decoded canonical payload equals
/// the payload's own byte.
proof fn lemma_canon_byte(m: Seq<u8>, p: PatternModel, pnum: u8, ab: u8, i: int)
    requires
        spec_canonical(m),
        spec_first_bad_step(m, 0) == 16,
        p == spec_decode(m)->Ok_0,
        pnum as int + ab as int * 8 == m[2],
        spec_tie_mask(p.steps) == spec_tie_mask_of(m),
        spec_rest_mask(p.steps) == spec_rest_mask_of(m),
        0 <= i < 115,
    ensures
        spec_enc_byte(p, m[1], pnum, ab, i) == m[i],
{
    if 5 <= i < 37 {
        let n = (i - 5) / 2;
        lemma_canon_step(m, n);
        assert(p.steps[n] == spec_decoded_step(m, n));
        if (i - 5) % 2 == 0 {
            assert(i == 5 + 2 * n);
        } else {
            assert(i == 6 + 2 * n);
        }
    } else if 37 <= i < 69 {
        let n = (i - 37) / 2;
        lemma_canon_step(m, n);
        assert(p.steps[n] == spec_decoded_step(m, n));
        assert(spec_canonical_step(m, n));
        if (i - 37) % 2 == 0 {
            assert(i == 37 + 2 * n);
        } else {
            assert(i == 38 + 2 * n);
        }
    } else if 69 <= i < 101 {
        let n = (i - 69) / 2;
        lemma_canon_step(m, n);
        assert(p.steps[n] == spec_decoded_step(m, n));
        assert(spec_canonical_step(m, n));
        if (i - 69) % 2 == 0 {
            assert(i == 69 + 2 * n);
        } else {
            assert(i == 70 + 2 * n);
        }
    } else if i == 103 || i == 104 {
        let a = spec_active_steps(m[0x67], m[0x68]);
        assert(p.active_steps == a);
        assert(a == m[0x67] * 16 + m[0x68]);
        assert(a / 16 == m[0x67] && a % 16 == m[0x68]);
    } else if i == 102 {
        assert(p.triplet == (m[0x66] == 1));
    } else if 107 <= i < 115 {
        lemma_bytes_mask_round(m[0x6B], m[0x6C], m[0x6D], m[0x6E]);
        lemma_bytes_mask_round(m[0x6F], m[0x70], m[0x71], m[0x72]);
    }
}

/// Decoding any canonical payload succeeds, and re-encoding the decoded
/// pattern to the device slot named in the payload's own header
/// reproduces the payload byte for byte.
pub proof fn lemma_binary_decode_encode(m: Seq<u8>)
    requires
        spec_canonical(m),
    ensures
        spec_decode(m) is Ok,
        spec_encode(
            spec_decode(m)->Ok_0,
            m[1],
            (m[2] & 7) as u8,
            ((m[2] >> 3) & 1) as u8,
        ) == m,
{
    assert forall|n: int| 0 <= n < 16 implies #[trigger] spec_step_fields_ok(m, n) by {
        lemma_canon_step(m, n);
    }
    lemma_first_bad_step_prefix(m, 0, 16);
    let p = spec_decode(m)->Ok_0;
    let pnum = (m[2] & 7) as u8;
    let ab = ((m[2] >> 3) & 1) as u8;
    lemma_addr_byte(m[2]);
    let e = spec_encode(p, m[1], pnum, ab);
    // the timing masks the encoder rebuilds are the payload's own
    let tm = spec_tie_mask_of(m);
    let rm = spec_rest_mask_of(m);
    assert forall|n: int| 0 <= n < 16 implies spec_tie_flags(p.steps)[n] == ((tm >> (n as u16))
        & 1) as u8 && spec_rest_flags(p.steps)[n] == ((rm >> (n as u16)) & 1) as u8 by {
        lemma_canon_step(m, n);
        assert(p.steps[n] == spec_decoded_step(m, n));
    }
    lemma_flag_mask_eq(spec_tie_flags(p.steps), tm, 16);
    lemma_flag_mask_eq(spec_rest_flags(p.steps), rm, 16);
    assert(spec_tie_mask(p.steps) == tm);
    assert(spec_rest_mask(p.steps) == rm);
    assert forall|i: int| 0 <= i < 115 implies #[trigger] e[i] == m[i] by {
        lemma_canon_byte(m, p, pnum, ab, i);
    }
    assert(e =~= m);
}

/// A step whose tie bit and rest bit are both set decodes to `Rest`:
/// the rest bit dominates, and the step does not collapse to a plain
/// tie.
pub proof fn lemma_rest_dominates(m: Seq<u8>, n: int)
    requires
        m.len() >= 115,
        0 <= n < 16,
        spec_mask_bit(spec_tie_mask_of(m), n as u16) == 1,
        spec_mask_bit(spec_rest_mask_of(m), n as u16) == 1,
    ensures
        spec_decoded_step(m, n).time == Time::Rest,
{
}

/// A raw note value of exactly `0x30` forces the upper-C flag on,
/// whatever bit 3 of the first pair byte holds, and the step decodes to
/// the high C with transpose `Up`.
pub proof fn lemma_upper_c_quirk(m: Seq<u8>, n: int)
    requires
        m.len() >= 115,
        0 <= n < 16,
        spec_raw_note(m[5 + 2 * n], m[6 + 2 * n]) == 0x30,
    ensures
        spec_upper_c(m[5 + 2 * n], m[6 + 2 * n]),
        spec_step_fields_ok(m, n),
        spec_decoded_step(m, n).note == 12,
        spec_decoded_step(m, n).transpose == Transpose::Up,
{
    let b05 = m[5 + 2 * n];
    let b06 = m[6 + 2 * n];
    assert(spec_raw_note(b05, b06) % 12 == 0);
    assert(spec_raw_note(b05, b06) / 12 == 4);
}

} // verus!

verus! {

/// Every payload the encoder produces is canonical, so the two
/// round-trip lemmas together cover exactly the encoder's image.
pub proof fn lemma_encode_canonical(p: PatternModel, group: u8, pnum: u8, ab: u8)
    requires
        p.wf(),
        group <= 3,
        pnum <= 7,
        ab <= 1,
    ensures
        spec_canonical(spec_encode(p, group, pnum, ab)),
{
    let m = spec_encode(p, group, pnum, ab);
    assert(m[2] == pnum + ab * 8);
    assert forall|n: int| 0 <= n < 16 implies #[trigger] spec_canonical_step(m, n) by {
        let s = p.steps[n];
        assert(s.wf());
        assert((5 + 2 * n - 5) / 2 == n && (5 + 2 * n - 5) % 2 == 0);
        assert((6 + 2 * n - 5) / 2 == n && (6 + 2 * n - 5) % 2 == 1);
        let note = s.note;
        let tc = transpose_code(s.transpose);
        assert(m[5 + 2 * n] == spec_composed_of(note, tc) / 16 && m[6 + 2 * n] == spec_composed_of(
            note,
            tc,
        ) % 16);
        assert(spec_canonical_note_pair(m[5 + 2 * n], m[6 + 2 * n]));
        assert((37 + 2 * n - 37) / 2 == n && (37 + 2 * n - 37) % 2 == 0);
        assert((38 + 2 * n - 37) / 2 == n && (38 + 2 * n - 37) % 2 == 1);
        assert(m[37 + 2 * n] == 0);
        assert(m[38 + 2 * n] == accent_code(s.accent));
        assert((69 + 2 * n - 69) / 2 == n && (69 + 2 * n - 69) % 2 == 0);
        assert((70 + 2 * n - 69) / 2 == n && (70 + 2 * n - 69) % 2 == 1);
        assert(m[69 + 2 * n] == 0);
        assert(m[70 + 2 * n] == slide_code(s.slide));
    }
    assert(m[103] == p.active_steps / 16 && p.active_steps / 16 <= 15);
    assert(m[104] == p.active_steps % 16);
    lemma_nib_bounds(spec_tie_mask(p.steps));
    lemma_nib_bounds(spec_rest_mask(p.steps));
    assert forall|k: int| 107 <= k < 115 implies #[trigger] m[k] <= 15 by {
        assert(m[k] == spec_enc_byte(p, group, pnum, ab, k));
    }
}

} // verus!
