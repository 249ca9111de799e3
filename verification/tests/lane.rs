use lotus_racer::lane::{grid_lane, steer_lane, InputState};

fn held(left: bool, right: bool) -> InputState {
    InputState { accelerate: false, brake: false, steer_left: left, steer_right: right }
}

#[test]
fn steering_moves_one_lane_and_stops_at_edges() {
    assert_eq!(steer_lane(0, &held(true, false)), -1);
    assert_eq!(steer_lane(-1, &held(true, false)), -1);
    assert_eq!(steer_lane(0, &held(false, true)), 1);
    assert_eq!(steer_lane(1, &held(false, true)), 1);
    assert_eq!(steer_lane(0, &held(true, true)), 0);
    assert_eq!(steer_lane(-1, &held(true, true)), 0);
    assert_eq!(steer_lane(1, &held(true, true)), 1);
    assert_eq!(steer_lane(1, &InputState::new()), 1);
}

#[test]
fn lanes_stay_on_the_road() {
    for lane in -1..=1 {
        for l in [false, true] {
            for r in [false, true] {
                assert!((-1..=1).contains(&steer_lane(lane, &held(l, r))));
            }
        }
    }
}

#[test]
fn opponents_start_in_turning_lanes() {
    let lanes: Vec<i32> = (0..6).map(grid_lane).collect();
    assert_eq!(lanes, vec![-1, 0, 1, -1, 0, 1]);
}
