use vstd::prelude::*;

verus! {

/// How a sub wave shapes the stretch between two anchors.
#[derive(Debug, Clone, Copy, PartialEq, Eq, Structural)]
pub enum SubWaveMode {
    Off,
    Step,
    Hop,
    Oscilate,
}

/// The mode that follows `mode` when cycling: Off, Step, Hop, Oscilate, then
/// Off again.
pub open spec fn next_mode(mode: SubWaveMode) -> SubWaveMode {
    match mode {
        SubWaveMode::Off => SubWaveMode::Step,
        SubWaveMode::Step => SubWaveMode::Hop,
        SubWaveMode::Hop => SubWaveMode::Oscilate,
        SubWaveMode::Oscilate => SubWaveMode::Off,
    }
}

impl SubWaveMode {
    /// Moves to the next mode and returns the one it left.
    pub fn cycle(&mut self) -> (previous: Self)
        ensures
            previous == *old(self),
            *final(self) == next_mode(*old(self)),
    {
        let previous = *self;
        *self = match *self {
            Self::Off => Self::Step,
            Self::Step => Self::Hop,
            Self::Hop => Self::Oscilate,
            Self::Oscilate => Self::Off,
        };
        previous
    }
}

/// Cycling goes Off, Step, Hop, Oscilate and back to Off.
pub proof fn lemma_cycle_order()
    ensures
        next_mode(SubWaveMode::Off) == SubWaveMode::Step,
        next_mode(SubWaveMode::Step) == SubWaveMode::Hop,
        next_mode(SubWaveMode::Hop) == SubWaveMode::Oscilate,
        next_mode(SubWaveMode::Oscilate) == SubWaveMode::Off,
{
}

/// Cycling visits all four modes before coming back: four steps return to
/// the mode started from, and fewer steps never do.
pub proof fn lemma_cycle_period(mode: SubWaveMode)
    ensures
        next_mode(next_mode(next_mode(next_mode(mode)))) == mode,
        next_mode(mode) != mode,
        next_mode(next_mode(mode)) != mode,
        next_mode(next_mode(next_mode(mode))) != mode,
{
}

} // verus!
