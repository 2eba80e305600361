use vstd::prelude::*;

verus! {

/// The stage an ADSR envelope is in.
#[derive(Debug, Clone, Copy, PartialEq, Eq, Structural)]
pub enum ADSRState {
    Attack,
    Decay,
    Sustain,
    Release,
}

/// Position of a stage in the envelope: attack 0, decay 1, sustain 2, release 3.
pub open spec fn stage_rank(s: ADSRState) -> int {
    match s {
        ADSRState::Attack => 0,
        ADSRState::Decay => 1,
        ADSRState::Sustain => 2,
        ADSRState::Release => 3,
    }
}

/// The stage that follows `s`; release is the last stage and follows itself.
pub open spec fn spec_next_stage(s: ADSRState) -> ADSRState {
    match s {
        ADSRState::Attack => ADSRState::Decay,
        ADSRState::Decay => ADSRState::Sustain,
        ADSRState::Sustain => ADSRState::Release,
        ADSRState::Release => ADSRState::Release,
    }
}

impl Default for ADSRState {
    fn default() -> (r: Self)
        ensures
            r == ADSRState::Attack,
    {
        ADSRState::Attack
    }
}

impl ADSRState {
    /// The stage that comes after this one.
    pub fn next(&self) -> (r: Self)
        ensures
            r == spec_next_stage(*self),
    {
        match self {
            ADSRState::Attack => ADSRState::Decay,
            ADSRState::Decay => ADSRState::Sustain,
            ADSRState::Sustain => ADSRState::Release,
            ADSRState::Release => ADSRState::Release,
        }
    }

    /// Returns the envelope to its first stage.
    pub fn reset(&mut self)
        ensures
            *final(self) == ADSRState::Attack,
    {
        *self = ADSRState::default();
    }
}

/// Advancing moves an envelope exactly one stage forward, except at release,
/// which it never leaves.
pub proof fn lemma_next_advances_one_stage(s: ADSRState)
    ensures
        s != ADSRState::Release ==> stage_rank(spec_next_stage(s)) == stage_rank(s) + 1,
        s == ADSRState::Release ==> spec_next_stage(s) == ADSRState::Release,
{
}

/// From any stage, three advances reach release.
pub proof fn lemma_three_advances_reach_release(s: ADSRState)
    ensures
        spec_next_stage(spec_next_stage(spec_next_stage(s))) == ADSRState::Release,
{
}

/// Advancing never moves an envelope back to an earlier stage.
pub proof fn lemma_next_is_monotone(s: ADSRState)
    ensures
        stage_rank(s) <= stage_rank(spec_next_stage(s)),
{
}

} // verus!
