use lotus_racer::circuit::{
    ai_car_colors, field_position, lap_completed, player_car_color, GameState, HeldKeys, KeyAction,
    RacingControls, SpriteType, KEY_ESCAPE, KEY_RETURN, KEY_SPACE,
};

#[test]
fn scenery_colors_and_barriers() {
    assert_eq!(SpriteType::TreeLarge.color(), [0, 120, 0]);
    assert_eq!(SpriteType::TreeSmall.color(), [0, 120, 0]);
    assert_eq!(SpriteType::BarrierRed.color(), [200, 0, 0]);
    assert_eq!(SpriteType::BarrierWhite.color(), [200, 200, 200]);
    assert_eq!(SpriteType::Bush.color(), [0, 100, 0]);
    assert_eq!(SpriteType::Rock.color(), [100, 100, 100]);
    assert!(SpriteType::BarrierRed.is_barrier());
    assert!(SpriteType::BarrierWhite.is_barrier());
    assert!(!SpriteType::Rock.is_barrier());
    assert!(!SpriteType::TreeLarge.is_barrier());
}

#[test]
fn car_colors() {
    assert_eq!(player_car_color(), [220, 30, 30]);
    assert_eq!(
        ai_car_colors(),
        [[30, 100, 220], [30, 200, 80], [240, 200, 30], [220, 220, 220], [240, 140, 20]]
    );
}

#[test]
fn escape_pauses_and_resumes() {
    assert_eq!(GameState::Racing.on_key_down(KEY_ESCAPE), (GameState::Pause, KeyAction::Nothing));
    assert_eq!(GameState::Countdown(2).on_key_down(KEY_ESCAPE), (GameState::Pause, KeyAction::Nothing));
    assert_eq!(GameState::Pause.on_key_down(KEY_ESCAPE), (GameState::Racing, KeyAction::Nothing));
    assert_eq!(GameState::Title.on_key_down(KEY_ESCAPE), (GameState::Title, KeyAction::Nothing));
    let (s, _) = GameState::Racing.on_key_down(KEY_ESCAPE);
    assert_eq!(s.on_key_down(KEY_ESCAPE).0, GameState::Racing);
}

#[test]
fn return_or_space_starts_and_resets() {
    assert_eq!(GameState::Title.on_key_down(KEY_RETURN), (GameState::Countdown(3), KeyAction::StartRace));
    assert_eq!(GameState::Title.on_key_down(KEY_SPACE), (GameState::Countdown(3), KeyAction::StartRace));
    assert_eq!(GameState::Results.on_key_down(KEY_RETURN), (GameState::Title, KeyAction::ResetGame));
    assert_eq!(GameState::Racing.on_key_down(KEY_SPACE), (GameState::Racing, KeyAction::Nothing));
    assert_eq!(GameState::Racing.on_key_down(65), (GameState::Racing, KeyAction::Nothing));
}

#[test]
fn held_keys_give_controls() {
    let mut h = HeldKeys::new();
    h.press(273);
    h.press(276);
    h.press(97);
    h.press(32);
    assert_eq!(
        h.racing_controls(),
        RacingControls { steer: -2, accelerating: true, braking: false, handbrake: true }
    );
    h.release(97);
    h.press(100);
    h.press(115);
    assert_eq!(
        h.racing_controls(),
        RacingControls { steer: 0, accelerating: true, braking: true, handbrake: true }
    );
}

#[test]
fn release_drops_every_entry_of_the_key() {
    let mut h = HeldKeys::new();
    h.press(5);
    h.press(6);
    h.press(5);
    h.release(5);
    assert_eq!(h.keys, vec![6]);
    h.release(9);
    assert_eq!(h.keys, vec![6]);
}

#[test]
fn field_position_counts_cars_ahead() {
    assert_eq!(field_position(&[]), 1);
    assert_eq!(field_position(&[false, true, false, true, false]), 3);
    assert_eq!(field_position(&[true; 5]), 6);
    assert_eq!(field_position(&[true; 9]), 6);
}

#[test]
fn laps_move_on_and_end_the_race() {
    assert_eq!(lap_completed(1, 3, GameState::Racing), (2, GameState::Racing));
    assert_eq!(lap_completed(3, 3, GameState::Racing), (4, GameState::Results));
    let mut lap = 1;
    let mut state = GameState::Racing;
    let mut crossings = 0;
    while state == GameState::Racing {
        let (l, s) = lap_completed(lap, 3, state);
        lap = l;
        state = s;
        crossings += 1;
    }
    assert_eq!(crossings, 3);
}
