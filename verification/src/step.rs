//! The value model of one sequencer step.
//!
//! A step carries a note (0–12, where 12 is the high C one octave above
//! the low C), an octave transpose, accent and slide flags, and a timing
//! class combining the wire's tie and rest bits.

use crate::chars::{
    eq_str, spec_trim, spec_upper, str_chars, trim, upper_vec,
};
use vstd::prelude::*;

verus! {

/// Octave register shift of one step relative to its base octave.
#[derive(Copy, Clone, Debug, PartialEq, Eq, Structural)]
pub enum Transpose {
    Down,
    Normal,
    Up,
}

/// Accent flag of one step.
#[derive(Copy, Clone, Debug, PartialEq, Eq, Structural)]
pub enum Accent {
    Off,
    On,
}

/// Slide (legato) flag of one step.
#[derive(Copy, Clone, Debug, PartialEq, Eq, Structural)]
pub enum Slide {
    Off,
    On,
}

/// Timing class of one step.  The wire combines a tie bit and a rest
/// bit; rest dominates tie, so both bits set mean `Rest`.
#[derive(Copy, Clone, Debug, PartialEq, Eq, Structural)]
pub enum Time {
    Tie,
    Normal,
    TieRest,
    Rest,
}

/// Wire code of a transpose value: `Down = 0`, `Normal = 1`, `Up = 2`.
pub open spec fn transpose_code(t: Transpose) -> u8 {
    match t {
        Transpose::Down => 0,
        Transpose::Normal => 1,
        Transpose::Up => 2,
    }
}

/// Wire code of an accent flag: `Off = 0`, `On = 1`.
pub open spec fn accent_code(a: Accent) -> u8 {
    match a {
        Accent::Off => 0,
        Accent::On => 1,
    }
}

/// Wire code of a slide flag: `Off = 0`, `On = 1`.
pub open spec fn slide_code(s: Slide) -> u8 {
    match s {
        Slide::Off => 0,
        Slide::On => 1,
    }
}

/// Two-bit wire code of a timing class: the tie bit is bit 0, the rest
/// bit is bit 1, so `Tie = 0b00`, `Normal = 0b01`, `TieRest = 0b10`,
/// `Rest = 0b11`.
pub open spec fn time_code(t: Time) -> u8 {
    match t {
        Time::Tie => 0,
        Time::Normal => 1,
        Time::TieRest => 2,
        Time::Rest => 3,
    }
}

/// The tie bit of a timing class (bit 0 of its wire code).
pub open spec fn time_tie_flag(t: Time) -> u8 {
    match t {
        Time::Tie => 0,
        Time::Normal => 1,
        Time::TieRest => 0,
        Time::Rest => 1,
    }
}

/// The rest bit of a timing class (bit 1 of its wire code).
pub open spec fn time_rest_flag(t: Time) -> u8 {
    match t {
        Time::Tie => 0,
        Time::Normal => 0,
        Time::TieRest => 1,
        Time::Rest => 1,
    }
}

/// The timing class denoted by a two-bit wire code.
pub open spec fn spec_time_from_code(c: u8) -> Time {
    if c == 0 {
        Time::Tie
    } else if c == 1 {
        Time::Normal
    } else if c == 2 {
        Time::TieRest
    } else {
        Time::Rest
    }
}

/// Combining a timing class's two bits back into a code restores it.
pub proof fn lemma_time_code_round(t: Time)
    ensures
        spec_time_from_code((time_tie_flag(t) + 2 * time_rest_flag(t)) as u8) == t,
        time_code(t) == time_tie_flag(t) + 2 * time_rest_flag(t),
{
}

/// Text token of a transpose value.
pub open spec fn transpose_token(t: Transpose) -> Seq<char> {
    match t {
        Transpose::Down => "DN"@,
        Transpose::Normal => Seq::<char>::empty(),
        Transpose::Up => "UP"@,
    }
}

/// Text token of an accent flag.
pub open spec fn accent_token(a: Accent) -> Seq<char> {
    match a {
        Accent::Off => Seq::<char>::empty(),
        Accent::On => "AC"@,
    }
}

/// Text token of a slide flag.
pub open spec fn slide_token(s: Slide) -> Seq<char> {
    match s {
        Slide::Off => Seq::<char>::empty(),
        Slide::On => "SL"@,
    }
}

/// Text token of a timing class.
pub open spec fn time_token(t: Time) -> Seq<char> {
    match t {
        Time::Normal => Seq::<char>::empty(),
        Time::Tie => "TI"@,
        Time::Rest => "RE"@,
        Time::TieRest => "TR"@,
    }
}

/// The transpose value denoted by a text token, after trimming and
/// ASCII upper-casing: `DN`, the empty token, or `UP`.
pub open spec fn spec_transpose_from_str(s: Seq<char>) -> Result<Transpose, ()> {
    let t = spec_upper(spec_trim(s));
    if t == "DN"@ {
        Ok(Transpose::Down)
    } else if t.len() == 0 {
        Ok(Transpose::Normal)
    } else if t == "UP"@ {
        Ok(Transpose::Up)
    } else {
        Err(())
    }
}

/// The accent flag denoted by a text token: empty or `AC`.
pub open spec fn spec_accent_from_str(s: Seq<char>) -> Result<Accent, ()> {
    let t = spec_upper(spec_trim(s));
    if t.len() == 0 {
        Ok(Accent::Off)
    } else if t == "AC"@ {
        Ok(Accent::On)
    } else {
        Err(())
    }
}

/// The slide flag denoted by a text token: empty or `SL`.
pub open spec fn spec_slide_from_str(s: Seq<char>) -> Result<Slide, ()> {
    let t = spec_upper(spec_trim(s));
    if t.len() == 0 {
        Ok(Slide::Off)
    } else if t == "SL"@ {
        Ok(Slide::On)
    } else {
        Err(())
    }
}

/// The timing class denoted by a text token: empty, `TI`, `RE` or `TR`.
pub open spec fn spec_time_from_str(s: Seq<char>) -> Result<Time, ()> {
    let t = spec_upper(spec_trim(s));
    if t.len() == 0 {
        Ok(Time::Normal)
    } else if t == "TI"@ {
        Ok(Time::Tie)
    } else if t == "RE"@ {
        Ok(Time::Rest)
    } else if t == "TR"@ {
        Ok(Time::TieRest)
    } else {
        Err(())
    }
}

impl Transpose {
    /// The wire code of this transpose value.
    pub fn code(&self) -> (c: u8)
        ensures
            c == transpose_code(*self),
    {
        match self {
            Transpose::Down => 0,
            Transpose::Normal => 1,
            Transpose::Up => 2,
        }
    }

    /// The text token of this transpose value.
    pub fn token(&self) -> (r: &'static str)
        ensures
            r@ == transpose_token(*self),
    {
        proof {
            reveal_strlit("");
        }
        match self {
            Transpose::Down => "DN",
            Transpose::Normal => "",
            Transpose::Up => "UP",
        }
    }

    /// Narrows a wire code back to a transpose value; codes outside
    /// `{0, 1, 2}` are rejected.
    pub fn try_from(v: u8) -> (r: Result<Transpose, ()>)
        ensures
            r == (if v == 0 {
                Ok::<Transpose, ()>(Transpose::Down)
            } else if v == 1 {
                Ok::<Transpose, ()>(Transpose::Normal)
            } else if v == 2 {
                Ok::<Transpose, ()>(Transpose::Up)
            } else {
                Err::<Transpose, ()>(())
            }),
    {
        if v == 0 {
            Ok(Transpose::Down)
        } else if v == 1 {
            Ok(Transpose::Normal)
        } else if v == 2 {
            Ok(Transpose::Up)
        } else {
            Err(())
        }
    }

    /// Reads a text token, case-insensitively and ignoring surrounding
    /// whitespace.
    pub fn from_str(s: &str) -> (r: Result<Transpose, ()>)
        ensures
            r == spec_transpose_from_str(s@),
    {
        let v = str_chars(s);
        Transpose::from_chars(&v)
    }

    /// Reads a text token held as a character vector.
    pub fn from_chars(v: &Vec<char>) -> (r: Result<Transpose, ()>)
        ensures
            r == spec_transpose_from_str(v@),
    {
        let t = upper_vec(&trim(v));
        if eq_str(&t, "DN") {
            Ok(Transpose::Down)
        } else if t.len() == 0 {
            Ok(Transpose::Normal)
        } else if eq_str(&t, "UP") {
            Ok(Transpose::Up)
        } else {
            Err(())
        }
    }
}

impl Accent {
    /// The wire code of this accent flag.
    pub fn code(&self) -> (c: u8)
        ensures
            c == accent_code(*self),
    {
        match self {
            Accent::Off => 0,
            Accent::On => 1,
        }
    }

    /// The text token of this accent flag.
    pub fn token(&self) -> (r: &'static str)
        ensures
            r@ == accent_token(*self),
    {
        proof {
            reveal_strlit("");
        }
        match self {
            Accent::Off => "",
            Accent::On => "AC",
        }
    }

    /// Narrows a wire code back to an accent flag.
    pub fn try_from(v: u8) -> (r: Result<Accent, ()>)
        ensures
            r == (if v == 0 {
                Ok::<Accent, ()>(Accent::Off)
            } else if v == 1 {
                Ok::<Accent, ()>(Accent::On)
            } else {
                Err::<Accent, ()>(())
            }),
    {
        if v == 0 {
            Ok(Accent::Off)
        } else if v == 1 {
            Ok(Accent::On)
        } else {
            Err(())
        }
    }

    /// Reads a text token, case-insensitively and ignoring surrounding
    /// whitespace.
    pub fn from_str(s: &str) -> (r: Result<Accent, ()>)
        ensures
            r == spec_accent_from_str(s@),
    {
        let v = str_chars(s);
        Accent::from_chars(&v)
    }

    /// Reads a text token held as a character vector.
    pub fn from_chars(v: &Vec<char>) -> (r: Result<Accent, ()>)
        ensures
            r == spec_accent_from_str(v@),
    {
        let t = upper_vec(&trim(v));
        if t.len() == 0 {
            Ok(Accent::Off)
        } else if eq_str(&t, "AC") {
            Ok(Accent::On)
        } else {
            Err(())
        }
    }
}

impl Slide {
    /// The wire code of this slide flag.
    pub fn code(&self) -> (c: u8)
        ensures
            c == slide_code(*self),
    {
        match self {
            Slide::Off => 0,
            Slide::On => 1,
        }
    }

    /// The text token of this slide flag.
    pub fn token(&self) -> (r: &'static str)
        ensures
            r@ == slide_token(*self),
    {
        proof {
            reveal_strlit("");
        }
        match self {
            Slide::Off => "",
            Slide::On => "SL",
        }
    }

    /// Narrows a wire code back to a slide flag.
    pub fn try_from(v: u8) -> (r: Result<Slide, ()>)
        ensures
            r == (if v == 0 {
                Ok::<Slide, ()>(Slide::Off)
            } else if v == 1 {
                Ok::<Slide, ()>(Slide::On)
            } else {
                Err::<Slide, ()>(())
            }),
    {
        if v == 0 {
            Ok(Slide::Off)
        } else if v == 1 {
            Ok(Slide::On)
        } else {
            Err(())
        }
    }

    /// Reads a text token, case-insensitively and ignoring surrounding
    /// whitespace.
    pub fn from_str(s: &str) -> (r: Result<Slide, ()>)
        ensures
            r == spec_slide_from_str(s@),
    {
        let v = str_chars(s);
        Slide::from_chars(&v)
    }

    /// Reads a text token held as a character vector.
    pub fn from_chars(v: &Vec<char>) -> (r: Result<Slide, ()>)
        ensures
            r == spec_slide_from_str(v@),
    {
        let t = upper_vec(&trim(v));
        if t.len() == 0 {
            Ok(Slide::Off)
        } else if eq_str(&t, "SL") {
            Ok(Slide::On)
        } else {
            Err(())
        }
    }
}

impl Time {
    /// The two-bit wire code of this timing class.
    pub fn code(&self) -> (c: u8)
        ensures
            c == time_code(*self),
    {
        match self {
            Time::Tie => 0,
            Time::Normal => 1,
            Time::TieRest => 2,
            Time::Rest => 3,
        }
    }

    /// The tie and rest bits of this timing class.
    pub fn flags(&self) -> (r: (u8, u8))
        ensures
            r.0 == time_tie_flag(*self),
            r.1 == time_rest_flag(*self),
    {
        match self {
            Time::Tie => (0, 0),
            Time::Normal => (1, 0),
            Time::TieRest => (0, 1),
            Time::Rest => (1, 1),
        }
    }

    /// The text token of this timing class.
    pub fn token(&self) -> (r: &'static str)
        ensures
            r@ == time_token(*self),
    {
        proof {
            reveal_strlit("");
        }
        match self {
            Time::Normal => "",
            Time::Tie => "TI",
            Time::Rest => "RE",
            Time::TieRest => "TR",
        }
    }

    /// Builds the timing class with the given two-bit wire code.
    pub fn from_code(c: u8) -> (r: Time)
        requires
            c <= 3,
        ensures
            r == spec_time_from_code(c),
    {
        if c == 0 {
            Time::Tie
        } else if c == 1 {
            Time::Normal
        } else if c == 2 {
            Time::TieRest
        } else {
            Time::Rest
        }
    }

    /// Narrows a wire code back to a timing class; codes above 3 are
    /// rejected.
    pub fn try_from(v: u8) -> (r: Result<Time, ()>)
        ensures
            r == (if v <= 3 {
                Ok::<Time, ()>(spec_time_from_code(v))
            } else {
                Err::<Time, ()>(())
            }),
    {
        if v <= 3 {
            Ok(Time::from_code(v))
        } else {
            Err(())
        }
    }

    /// Reads a text token, case-insensitively and ignoring surrounding
    /// whitespace.
    pub fn from_str(s: &str) -> (r: Result<Time, ()>)
        ensures
            r == spec_time_from_str(s@),
    {
        let v = str_chars(s);
        Time::from_chars(&v)
    }

    /// Reads a text token held as a character vector.
    pub fn from_chars(v: &Vec<char>) -> (r: Result<Time, ()>)
        ensures
            r == spec_time_from_str(v@),
    {
        let t = upper_vec(&trim(v));
        if t.len() == 0 {
            Ok(Time::Normal)
        } else if eq_str(&t, "TI") {
            Ok(Time::Tie)
        } else if eq_str(&t, "RE") {
            Ok(Time::Rest)
        } else if eq_str(&t, "TR") {
            Ok(Time::TieRest)
        } else {
            Err(())
        }
    }
}

/// One sequencer step.
#[derive(Copy, Clone, Debug, PartialEq, Eq, Structural)]
pub struct Step {
    pub note: u8,
    pub transpose: Transpose,
    pub accent: Accent,
    pub slide: Slide,
    pub time: Time,
}

/// The default step: low C, no transpose, no accent, no slide, normal
/// timing.
pub open spec fn spec_default_step() -> Step {
    Step {
        note: 0,
        transpose: Transpose::Normal,
        accent: Accent::Off,
        slide: Slide::Off,
        time: Time::Normal,
    }
}

impl Step {
    /// The step's note stays in the 13-name range, low C to high C.
    pub open spec fn wf(self) -> bool {
        self.note <= 12
    }
}

impl Default for Step {
    /// Builds the default step.
    fn default() -> (s: Step)
        ensures
            s == spec_default_step(),
    {
        Step {
            note: 0,
            transpose: Transpose::Normal,
            accent: Accent::Off,
            slide: Slide::Off,
            time: Time::Normal,
        }
    }
}

} // verus!
