use lotus_racer::game::{InputState, Mode, RACE_LAPS};
use lotus_racer::menu::{Key, Menu, MenuAction, SelOpts, State};

#[test]
fn starts_on_title_with_defaults() {
    let m = Menu::new();
    assert_eq!(m.state, State::Title);
    assert_eq!(m.sel, SelOpts { track_idx: 0, mode: Mode::Race, difficulty: 1 });
    assert!(!m.paused);
    assert_eq!(RACE_LAPS, 3);
}

#[test]
fn title_enter_and_escape() {
    let mut m = Menu::new();
    assert_eq!(m.handle_key(Key::Up), MenuAction::Nothing);
    assert_eq!(m.state, State::Title);
    assert_eq!(m.handle_key(Key::Enter), MenuAction::Nothing);
    assert_eq!(m.state, State::Select);
    let mut t = Menu::new();
    assert_eq!(t.handle_key(Key::Esc), MenuAction::Quit);
    assert_eq!(t.state, State::Title);
}

#[test]
fn select_keys_change_the_event() {
    let mut m = Menu::new();
    m.handle_key(Key::Enter);
    m.handle_key(Key::Down);
    assert_eq!(m.sel.track_idx, 1);
    m.handle_key(Key::Up);
    assert_eq!(m.sel.track_idx, 0);
    m.handle_key(Key::Left);
    assert_eq!(m.sel.difficulty, 0);
    m.handle_key(Key::Left);
    assert_eq!(m.sel.difficulty, 2);
    m.handle_key(Key::Right);
    assert_eq!(m.sel.difficulty, 0);
    m.handle_key(Key::Mode);
    assert_eq!(m.sel.mode, Mode::TimeTrial);
    m.handle_key(Key::Mode);
    assert_eq!(m.sel.mode, Mode::Race);
    assert_eq!(m.handle_key(Key::Pause), MenuAction::Nothing);
    assert_eq!(m.state, State::Select);
}

#[test]
fn race_flow_pause_results_and_back() {
    let mut m = Menu::new();
    m.handle_key(Key::Enter);
    m.paused = true;
    assert_eq!(m.handle_key(Key::Enter), MenuAction::StartRace);
    assert_eq!(m.state, State::Race);
    assert!(!m.paused);
    assert!(m.race_runs());
    m.handle_key(Key::Pause);
    assert!(m.paused);
    assert!(!m.race_runs());
    m.handle_key(Key::Pause);
    assert!(m.race_runs());
    assert_eq!(m.music_track(Some(1)), Some(1));
    m.race_over();
    assert_eq!(m.state, State::Results);
    assert_eq!(m.music_track(Some(1)), None);
    assert_eq!(m.handle_key(Key::Up), MenuAction::Nothing);
    assert_eq!(m.handle_key(Key::Enter), MenuAction::EndRace);
    assert_eq!(m.state, State::Select);
}

#[test]
fn escape_leaves_a_race() {
    let mut m = Menu::new();
    m.handle_key(Key::Enter);
    m.handle_key(Key::Enter);
    assert_eq!(m.handle_key(Key::Esc), MenuAction::EndRace);
    assert_eq!(m.state, State::Select);
    assert_eq!(m.handle_key(Key::Esc), MenuAction::Nothing);
    assert_eq!(m.state, State::Title);
}

#[test]
fn race_over_elsewhere_changes_nothing() {
    let mut m = Menu::new();
    m.race_over();
    assert_eq!(m.state, State::Title);
    assert!(!m.race_runs());
    assert_eq!(m.music_track(Some(0)), None);
}

#[test]
fn no_input_holds_nothing() {
    let i = InputState::none();
    assert!(!i.throttle && !i.brake && !i.left && !i.right);
}
