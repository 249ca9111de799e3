use crate::game::Mode;
use vstd::prelude::*;

verus! {

/// Discrete key actions (mapped from platform keys by the front end).
#[derive(Clone, Copy, PartialEq, Eq, Structural, Debug)]
pub enum Key {
    Up,
    Down,
    Left,
    Right,
    Enter,
    Esc,
    Mode,
    Pause,
}

/// The screen the game shows.
#[derive(Clone, Copy, PartialEq, Eq, Structural, Debug)]
pub enum State {
    Title,
    Select,
    Race,
    Results,
}

/// The event chosen on the selection screen.
#[derive(Clone, Copy, PartialEq, Eq, Structural, Debug)]
pub struct SelOpts {
    pub track_idx: usize,
    pub mode: Mode,
    /// 0 easy, 1 normal, 2 hard.
    pub difficulty: u8,
}

/// The menu flow: current screen, selected event and pause flag.
#[derive(Clone, Copy, PartialEq, Eq, Structural, Debug)]
pub struct Menu {
    pub state: State,
    pub sel: SelOpts,
    pub paused: bool,
}

/// What the front end must do after a key.
#[derive(Clone, Copy, PartialEq, Eq, Structural, Debug)]
pub enum MenuAction {
    /// Nothing beyond the menu change.
    Nothing,
    /// Leave the game.
    Quit,
    /// Start a race scene for the selected event.
    StartRace,
    /// Drop the running race scene.
    EndRace,
}

/// The other mode.
pub open spec fn toggled_mode(m: Mode) -> Mode {
    match m {
        Mode::Race => Mode::TimeTrial,
        Mode::TimeTrial => Mode::Race,
    }
}

/// The menu after key `k`, and what the front end must do.
pub open spec fn menu_step(m: Menu, k: Key) -> (Menu, MenuAction) {
    match m.state {
        State::Title => match k {
            Key::Enter => (Menu { state: State::Select, ..m }, MenuAction::Nothing),
            Key::Esc => (m, MenuAction::Quit),
            _ => (m, MenuAction::Nothing),
        },
        State::Select => match k {
            Key::Up | Key::Down => (
                Menu { sel: SelOpts { track_idx: m.sel.track_idx ^ 1, ..m.sel }, ..m },
                MenuAction::Nothing,
            ),
            Key::Left => (
                Menu {
                    sel: SelOpts { difficulty: ((m.sel.difficulty + 2) % 3) as u8, ..m.sel },
                    ..m
                },
                MenuAction::Nothing,
            ),
            Key::Right => (
                Menu {
                    sel: SelOpts { difficulty: ((m.sel.difficulty + 1) % 3) as u8, ..m.sel },
                    ..m
                },
                MenuAction::Nothing,
            ),
            Key::Mode => (
                Menu { sel: SelOpts { mode: toggled_mode(m.sel.mode), ..m.sel }, ..m },
                MenuAction::Nothing,
            ),
            Key::Enter => (Menu { state: State::Race, paused: false, ..m }, MenuAction::StartRace),
            Key::Esc => (Menu { state: State::Title, ..m }, MenuAction::Nothing),
            _ => (m, MenuAction::Nothing),
        },
        State::Race => match k {
            Key::Pause => (Menu { paused: !m.paused, ..m }, MenuAction::Nothing),
            Key::Esc => (Menu { state: State::Select, ..m }, MenuAction::EndRace),
            _ => (m, MenuAction::Nothing),
        },
        State::Results => match k {
            Key::Enter | Key::Esc => (Menu { state: State::Select, ..m }, MenuAction::EndRace),
            _ => (m, MenuAction::Nothing),
        },
    }
}

/// The key does not push the difficulty past the range of a byte.
pub open spec fn key_fits(m: Menu, k: Key) -> bool {
    m.state == State::Select ==> (k == Key::Left ==> m.sel.difficulty + 2 <= 255) && (k
        == Key::Right ==> m.sel.difficulty + 1 <= 255)
}

impl Menu {
    /// The menu at start-up: title screen, first track, race mode, normal
    /// difficulty.
    pub fn new() -> (m: Self)
        ensures
            m.state == State::Title,
            m.sel == (SelOpts { track_idx: 0, mode: Mode::Race, difficulty: 1 }),
            !m.paused,
    {
        Menu {
            state: State::Title,
            sel: SelOpts { track_idx: 0, mode: Mode::Race, difficulty: 1 },
            paused: false,
        }
    }

    /// Handle a discrete key action.
    pub fn handle_key(&mut self, k: Key) -> (a: MenuAction)
        requires
            key_fits(*old(self), k),
        ensures
            (*final(self), a) == menu_step(*old(self), k),
    {
        match self.state {
            State::Title => match k {
                Key::Enter => self.state = State::Select,
                Key::Esc => return MenuAction::Quit,
                _ => {},
            },
            State::Select => match k {
                Key::Up | Key::Down => self.sel.track_idx = self.sel.track_idx ^ 1,
                Key::Left => self.sel.difficulty = (self.sel.difficulty + 2) % 3,
                Key::Right => self.sel.difficulty = (self.sel.difficulty + 1) % 3,
                Key::Mode => {
                    self.sel.mode = match self.sel.mode {
                        Mode::Race => Mode::TimeTrial,
                        Mode::TimeTrial => Mode::Race,
                    };
                },
                Key::Enter => {
                    self.state = State::Race;
                    self.paused = false;
                    return MenuAction::StartRace;
                },
                Key::Esc => self.state = State::Title,
                _ => {},
            },
            State::Race => match k {
                Key::Pause => self.paused = !self.paused,
                Key::Esc => {
                    self.state = State::Select;
                    return MenuAction::EndRace;
                },
                _ => {},
            },
            State::Results => {
                if matches!(k, Key::Enter | Key::Esc) {
                    self.state = State::Select;
                    return MenuAction::EndRace;
                }
            },
        }
        MenuAction::Nothing
    }

    /// Whether the race simulation advances: a race is on screen and not
    /// paused.
    pub fn race_runs(&self) -> (b: bool)
        ensures
            b == (self.state == State::Race && !self.paused),
    {
        self.state == State::Race && !self.paused
    }

    /// The running race reported that it is over: the results screen
    /// replaces the race; on any other screen nothing changes.
    pub fn race_over(&mut self)
        ensures
            final(self).state == (if old(self).state == State::Race {
                State::Results
            } else {
                old(self).state
            }),
            final(self).sel == old(self).sel,
            final(self).paused == old(self).paused,
    {
        if self.state == State::Race {
            self.state = State::Results;
        }
    }

    /// The track whose music plays: that of the race scene `race_track`
    /// while a race is on screen, none otherwise.
    pub fn music_track(&self, race_track: Option<usize>) -> (t: Option<usize>)
        ensures
            t == (if self.state == State::Race {
                race_track
            } else {
                None
            }),
    {
        if self.state == State::Race {
            race_track
        } else {
            None
        }
    }
}

/// No key leads to the results screen (only the end of a race does), and
/// from it Enter or Escape returns to the selection screen, dropping the
/// race.
pub proof fn lemma_results_round_trip(m: Menu, k: Key)
    ensures
        menu_step(m, k).0.state == State::Results ==> m.state == State::Results,
        m.state == State::Results && (k == Key::Enter || k == Key::Esc) ==> menu_step(m, k).0.state
            == State::Select && menu_step(m, k).1 == MenuAction::EndRace,
{
}

/// A selection with one of the two tracks and one of the three
/// difficulties stays so whatever key is pressed.
pub proof fn lemma_selection_stays_valid(m: Menu, k: Key)
    requires
        m.sel.track_idx < 2,
        m.sel.difficulty < 3,
    ensures
        menu_step(m, k).0.sel.track_idx < 2,
        menu_step(m, k).0.sel.difficulty < 3,
{
    assert(0usize ^ 1 == 1usize && 1usize ^ 1 == 0usize) by (bit_vector);
}

/// On the selection screen, a key and its opposite undo each other: up
/// then down (or twice either) returns to the same track, left then right
/// to the same difficulty, and the mode key twice to the same mode.
pub proof fn lemma_select_keys_undo(m: Menu)
    requires
        m.state == State::Select,
        m.sel.difficulty < 3,
    ensures
        menu_step(menu_step(m, Key::Up).0, Key::Down).0 == m,
        menu_step(menu_step(m, Key::Up).0, Key::Up).0 == m,
        menu_step(menu_step(m, Key::Left).0, Key::Right).0 == m,
        menu_step(menu_step(m, Key::Right).0, Key::Left).0 == m,
        menu_step(menu_step(m, Key::Mode).0, Key::Mode).0 == m,
{
    let t = m.sel.track_idx;
    assert((t ^ 1) ^ 1 == t) by (bit_vector);
}

/// Only Escape on the title screen quits.
pub proof fn lemma_quit_only_from_title(m: Menu, k: Key)
    ensures
        menu_step(m, k).1 == MenuAction::Quit <==> (m.state == State::Title && k == Key::Esc),
{
}

/// A race starts only from the selection screen, unpaused.
pub proof fn lemma_race_starts_unpaused(m: Menu, k: Key)
    ensures
        menu_step(m, k).1 == MenuAction::StartRace ==> m.state == State::Select && menu_step(
            m,
            k,
        ).0.state == State::Race && !menu_step(m, k).0.paused,
{
}

} // verus!
