use vstd::prelude::*;

verus! {

/// The controls held on a three-lane road.
#[derive(Clone, Copy, PartialEq, Eq, Structural, Debug)]
pub struct InputState {
    pub accelerate: bool,
    pub brake: bool,
    pub steer_left: bool,
    pub steer_right: bool,
}

impl InputState {
    /// No control held.
    pub fn new() -> (i: Self)
        ensures
            !i.accelerate && !i.brake && !i.steer_left && !i.steer_right,
    {
        InputState { accelerate: false, brake: false, steer_left: false, steer_right: false }
    }
}

/// The lane after one step of steering: left moves one lane left unless
/// already in the leftmost lane (-1), then right moves one lane right unless
/// in the rightmost lane (1).
pub open spec fn lane_after(lane: i32, input: InputState) -> i32 {
    let l1: int = if input.steer_left && lane > -1 {
        lane - 1
    } else {
        lane as int
    };
    if input.steer_right && l1 < 1 {
        (l1 + 1) as i32
    } else {
        l1 as i32
    }
}

/// Apply one step of steering to a lane.
pub fn steer_lane(lane: i32, input: &InputState) -> (l: i32)
    ensures
        l == lane_after(lane, *input),
{
    let mut l = lane;
    if input.steer_left && l > -1 {
        l -= 1;
    }
    if input.steer_right && l < 1 {
        l += 1;
    }
    l
}

/// The starting lane of opponent `id`: lanes -1, 0 and 1 in turn.
pub fn grid_lane(id: usize) -> (l: i32)
    ensures
        l == (id % 3) as i32 - 1,
        -1 <= l <= 1,
{
    (id % 3) as i32 - 1
}

/// A car in one of the three lanes stays in one of them, whatever is
/// held.
pub proof fn lemma_lane_stays_on_road(lane: i32, input: InputState)
    requires
        -1 <= lane <= 1,
    ensures
        -1 <= lane_after(lane, input) <= 1,
{
}

/// Steering one way moves the car one lane that way, except off the road:
/// left alone gives the lane to the left unless in the leftmost lane,
/// right alone the lane to the right unless in the rightmost lane, and with
/// neither held the car keeps its lane.
pub proof fn lemma_steer_one_lane(lane: i32, input: InputState)
    requires
        -1 <= lane <= 1,
    ensures
        input.steer_left && !input.steer_right ==> lane_after(lane, input) == if lane == -1 {
            -1
        } else {
            lane - 1
        },
        input.steer_right && !input.steer_left ==> lane_after(lane, input) == if lane == 1 {
            1
        } else {
            lane + 1
        },
        !input.steer_left && !input.steer_right ==> lane_after(lane, input) == lane,
{
}

} // verus!
