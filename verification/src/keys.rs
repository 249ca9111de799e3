use crate::game::InputState;
use crate::menu::{menu_step, toggled_mode, Key, Menu, State};
use vstd::prelude::*;

verus! {

/// Tab, as the platform layer reports it.
pub const CODE_TAB: i32 = 9;

/// Return.
pub const CODE_RETURN: i32 = 13;

/// Escape.
pub const CODE_ESCAPE: i32 = 27;

/// The letter A.
pub const CODE_A: i32 = 97;

/// The letter D.
pub const CODE_D: i32 = 100;

/// The letter P.
pub const CODE_P: i32 = 112;

/// The letter S.
pub const CODE_S: i32 = 115;

/// The letter W.
pub const CODE_W: i32 = 119;

/// The letter X.
pub const CODE_X: i32 = 120;

/// Right arrow.
pub const CODE_RIGHT: i32 = 1073741903;

/// Left arrow.
pub const CODE_LEFT: i32 = 1073741904;

/// Down arrow.
pub const CODE_DOWN: i32 = 1073741905;

/// Up arrow.
pub const CODE_UP: i32 = 1073741906;

/// The menu key a key code stands for: Return confirms, Escape goes
/// back, Tab or X switches the mode, P pauses; other keys have none.
pub open spec fn key_of_code(code: i32) -> Option<Key> {
    if code == CODE_RETURN {
        Some(Key::Enter)
    } else if code == CODE_ESCAPE {
        Some(Key::Esc)
    } else if code == CODE_TAB || code == CODE_X {
        Some(Key::Mode)
    } else if code == CODE_P {
        Some(Key::Pause)
    } else {
        None
    }
}

/// The menu key for key code `code`, if it has one.
pub fn map_key(code: i32) -> (k: Option<Key>)
    ensures
        k == key_of_code(code),
{
    if code == CODE_RETURN {
        Some(Key::Enter)
    } else if code == CODE_ESCAPE {
        Some(Key::Esc)
    } else if code == CODE_TAB || code == CODE_X {
        Some(Key::Mode)
    } else if code == CODE_P {
        Some(Key::Pause)
    } else {
        None
    }
}

/// Whether `code` is among the held key codes.
fn held_has(held: &[i32], code: i32) -> (b: bool)
    ensures
        b == held@.contains(code),
{
    let mut i: usize = 0;
    while i < held.len()
        invariant
            0 <= i <= held@.len(),
            forall|j: int| 0 <= j < i ==> held@[j] != code,
        decreases held@.len() - i,
    {
        if held[i] == code {
            assert(held@[i as int] == code);
            return true;
        }
        i += 1;
    }
    false
}

/// The driving controls that the held keys give: Up or W throttle, Down
/// or S brake, Left or A and Right or D steer.
pub fn input_from(held: &[i32]) -> (i: InputState)
    ensures
        i.throttle == (held@.contains(CODE_UP) || held@.contains(CODE_W)),
        i.brake == (held@.contains(CODE_DOWN) || held@.contains(CODE_S)),
        i.left == (held@.contains(CODE_LEFT) || held@.contains(CODE_A)),
        i.right == (held@.contains(CODE_RIGHT) || held@.contains(CODE_D)),
{
    InputState {
        throttle: held_has(held, CODE_UP) || held_has(held, CODE_W),
        brake: held_has(held, CODE_DOWN) || held_has(held, CODE_S),
        left: held_has(held, CODE_LEFT) || held_has(held, CODE_A),
        right: held_has(held, CODE_RIGHT) || held_has(held, CODE_D),
    }
}

/// The arrow and letter keys drive the car; no key code gives a
/// directional menu key, so the selection screen's track and difficulty
/// cannot be changed from the keyboard.
pub proof fn lemma_no_directional_menu_keys(code: i32)
    ensures
        key_of_code(code) != Some(Key::Up),
        key_of_code(code) != Some(Key::Down),
        key_of_code(code) != Some(Key::Left),
        key_of_code(code) != Some(Key::Right),
{
}

/// On the selection screen, Tab or X switches between race and time trial
/// and changes nothing else.
pub proof fn lemma_tab_or_x_switches_mode(m: Menu, code: i32)
    requires
        m.state == State::Select,
        code == CODE_TAB || code == CODE_X,
    ensures
        key_of_code(code) == Some(Key::Mode),
        menu_step(m, Key::Mode).0.sel.mode == toggled_mode(m.sel.mode),
        menu_step(m, Key::Mode).0.sel.track_idx == m.sel.track_idx,
        menu_step(m, Key::Mode).0.sel.difficulty == m.sel.difficulty,
        menu_step(m, Key::Mode).0.state == State::Select,
{
}

/// What the sound system must do after a simulation step.
#[derive(Clone, Copy, PartialEq, Eq, Structural, Debug)]
pub enum AudioCue {
    /// No race on screen: the engine note stops.
    EngineOff,
    /// The engine note follows the player's car.
    Engine,
    /// The engine note follows the player's car, and the music of this
    /// track starts.
    EngineAndMusic(usize),
}

/// Given the track whose music last started (`playing`) and the track of
/// the race on screen (`race_track`), what the sound system must do and
/// which music then counts as started. The music starts only when the
/// race's track differs from the one last started; leaving the race stops
/// the engine but keeps the record of the last music.
pub open spec fn audio_plan(playing: Option<usize>, race_track: Option<usize>) -> (Option<usize>, AudioCue) {
    match race_track {
        Some(t) => if playing == Some(t) {
            (playing, AudioCue::Engine)
        } else {
            (Some(t), AudioCue::EngineAndMusic(t))
        },
        None => (playing, AudioCue::EngineOff),
    }
}

/// What the sound system must do after a step; see `audio_plan`.
pub fn audio_step(playing: Option<usize>, race_track: Option<usize>) -> (r: (Option<usize>, AudioCue))
    ensures
        r == audio_plan(playing, race_track),
{
    match race_track {
        Some(t) => {
            let same = match playing {
                Some(p) => p == t,
                None => false,
            };
            if same {
                (playing, AudioCue::Engine)
            } else {
                (Some(t), AudioCue::EngineAndMusic(t))
            }
        },
        None => (playing, AudioCue::EngineOff),
    }
}

/// A track's music starts at most once while its race stays on screen:
/// the step after, the same race asks for the engine alone.
pub proof fn lemma_music_starts_once(playing: Option<usize>, t: usize)
    ensures
        audio_plan(audio_plan(playing, Some(t)).0, Some(t)) == (Some(t), AudioCue::Engine),
{
}

} // verus!
