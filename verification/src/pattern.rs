//! The pattern model: 16 ordered steps plus pattern-wide flags.

use crate::step::{spec_default_step, Step};
use vstd::prelude::*;

verus! {

/// A full sequencer pattern: exactly 16 steps, a triplet-timing flag,
/// and the number of steps played before looping.
#[derive(Debug, Clone, PartialEq, Eq)]
pub struct Pattern {
    pub triplet: bool,
    pub active_steps: u8,
    pub step: Vec<Step>,
}

/// The mathematical shape of a pattern.
#[verifier::ext_equal]
pub struct PatternModel {
    pub triplet: bool,
    pub active_steps: u8,
    pub steps: Seq<Step>,
}

impl PatternModel {
    /// Exactly 16 steps, each with its note in range.
    pub open spec fn wf(self) -> bool {
        self.steps.len() == 16 && forall|i: int| 0 <= i < 16 ==> (#[trigger] self.steps[i]).wf()
    }
}

impl View for Pattern {
    type V = PatternModel;

    open spec fn view(&self) -> PatternModel {
        PatternModel { triplet: self.triplet, active_steps: self.active_steps, steps: self.step@ }
    }
}

impl Pattern {
    /// Exactly 16 steps, each with its note in range.
    pub open spec fn wf(self) -> bool {
        self@.wf()
    }
}

/// The default pattern: 16 default steps, triplet off, one active step.
pub open spec fn spec_default_pattern() -> PatternModel {
    PatternModel {
        triplet: false,
        active_steps: 1,
        steps: Seq::new(16, |i: int| spec_default_step()),
    }
}

impl Default for Pattern {
    /// Builds the default pattern.
    fn default() -> (p: Pattern)
        ensures
            p@ == spec_default_pattern(),
            p.wf(),
    {
        let mut step: Vec<Step> = Vec::new();
        let mut i: usize = 0;
        while i < 16
            invariant
                i <= 16,
                step@ =~= Seq::new(i as nat, |j: int| spec_default_step()),
            decreases 16 - i,
        {
            step.push(Step::default());
            i = i + 1;
            proof {
                assert(step@ =~= Seq::new(i as nat, |j: int| spec_default_step()));
            }
        }
        let p = Pattern { triplet: false, active_steps: 1, step };
        proof {
            assert(p@ =~= spec_default_pattern());
        }
        p
    }
}

} // verus!
