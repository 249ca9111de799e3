use vstd::prelude::*;

verus! {

/// Laps of a race.
pub const RACE_LAPS: u32 = 3;

/// Race against the field, or lap alone against the clock.
#[derive(Clone, Copy, PartialEq, Eq, Structural, Debug)]
pub enum Mode {
    Race,
    TimeTrial,
}

/// The driving controls held during one simulation step.
#[derive(Clone, Copy, Debug, PartialEq, Eq, Structural)]
pub struct InputState {
    pub throttle: bool,
    pub brake: bool,
    pub left: bool,
    pub right: bool,
}

impl InputState {
    /// No control held.
    pub fn none() -> (i: Self)
        ensures
            !i.throttle && !i.brake && !i.left && !i.right,
    {
        InputState { throttle: false, brake: false, left: false, right: false }
    }
}

} // verus!
