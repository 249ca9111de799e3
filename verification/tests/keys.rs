use lotus_racer::keys::{
    audio_step, input_from, map_key, AudioCue, CODE_A, CODE_D, CODE_DOWN, CODE_ESCAPE, CODE_LEFT,
    CODE_P, CODE_RETURN, CODE_RIGHT, CODE_S, CODE_TAB, CODE_UP, CODE_W, CODE_X,
};
use lotus_racer::game::Mode;
use lotus_racer::menu::{Key, Menu, State};

#[test]
fn menu_keys() {
    assert_eq!(map_key(CODE_RETURN), Some(Key::Enter));
    assert_eq!(map_key(CODE_ESCAPE), Some(Key::Esc));
    assert_eq!(map_key(CODE_TAB), Some(Key::Mode));
    assert_eq!(map_key(CODE_X), Some(Key::Mode));
    assert_eq!(map_key(CODE_P), Some(Key::Pause));
    // Arrows and letters drive; they are no menu keys.
    assert_eq!(map_key(CODE_UP), None);
    assert_eq!(map_key(CODE_LEFT), None);
    assert_eq!(map_key(CODE_A), None);
    assert_eq!(map_key(109), None);
}

#[test]
fn held_keys_drive() {
    let i = input_from(&[CODE_W, CODE_LEFT]);
    assert!(i.throttle && !i.brake && i.left && !i.right);
    let j = input_from(&[CODE_DOWN, CODE_D, CODE_RIGHT]);
    assert!(!j.throttle && j.brake && !j.left && j.right);
    let k = input_from(&[CODE_UP, CODE_S, CODE_A]);
    assert!(k.throttle && k.brake && k.left && !k.right);
    let none = input_from(&[CODE_RETURN, 42]);
    assert!(!none.throttle && !none.brake && !none.left && !none.right);
}

#[test]
fn music_starts_once_per_track() {
    assert_eq!(audio_step(None, Some(0)), (Some(0), AudioCue::EngineAndMusic(0)));
    assert_eq!(audio_step(Some(0), Some(0)), (Some(0), AudioCue::Engine));
    assert_eq!(audio_step(Some(0), Some(1)), (Some(1), AudioCue::EngineAndMusic(1)));
    assert_eq!(audio_step(Some(1), None), (Some(1), AudioCue::EngineOff));
    // Back to the same track after the menu: the music is not restarted.
    assert_eq!(audio_step(Some(1), Some(1)), (Some(1), AudioCue::Engine));
}

#[test]
fn tab_switches_mode_on_selection_screen() {
    let mut m = Menu::new();
    m.handle_key(map_key(CODE_RETURN).unwrap());
    assert_eq!(m.state, State::Select);
    m.handle_key(map_key(CODE_TAB).unwrap());
    assert_eq!(m.sel.mode, Mode::TimeTrial);
    m.handle_key(map_key(CODE_X).unwrap());
    assert_eq!(m.sel.mode, Mode::Race);
    assert_eq!((m.sel.track_idx, m.sel.difficulty), (0, 1));
}
