use vstd::prelude::*;

verus! {

/// Kinds of roadside scenery.
#[derive(Clone, Copy, PartialEq, Eq, Structural, Debug)]
pub enum SpriteType {
    TreeLarge,
    TreeSmall,
    BarrierRed,
    BarrierWhite,
    Bush,
    Rock,
}

/// A car's look: its color and size on screen.
pub struct CarSprite {
    pub color: [u8; 3],
    pub width: u16,
    pub height: u16,
}

impl SpriteType {
    /// The color a scenery item is drawn in.
    pub fn color(&self) -> (c: [u8; 3])
        ensures
            c == match *self {
                SpriteType::TreeLarge | SpriteType::TreeSmall => [0u8, 120, 0],
                SpriteType::BarrierRed => [200u8, 0, 0],
                SpriteType::BarrierWhite => [200u8, 200, 200],
                SpriteType::Bush => [0u8, 100, 0],
                SpriteType::Rock => [100u8, 100, 100],
            },
    {
        match self {
            SpriteType::TreeLarge | SpriteType::TreeSmall => [0, 120, 0],
            SpriteType::BarrierRed => [200, 0, 0],
            SpriteType::BarrierWhite => [200, 200, 200],
            SpriteType::Bush => [0, 100, 0],
            SpriteType::Rock => [100, 100, 100],
        }
    }

    /// Barriers are the red and the white ones.
    pub fn is_barrier(&self) -> (b: bool)
        ensures
            b <==> (*self == SpriteType::BarrierRed || *self == SpriteType::BarrierWhite),
    {
        matches!(self, SpriteType::BarrierRed | SpriteType::BarrierWhite)
    }
}

/// The player's car color: red.
pub fn player_car_color() -> (c: [u8; 3])
    ensures
        c == [220u8, 30, 30],
{
    [220, 30, 30]
}

/// The opponents' car colors: blue, green, yellow, white, orange.
pub fn ai_car_colors() -> (c: [[u8; 3]; 5])
    ensures
        c@ == seq![[30u8, 100, 220], [30u8, 200, 80], [240u8, 200, 30], [220u8, 220, 220], [240u8, 140, 20]],
{
    let c = [[30, 100, 220], [30, 200, 80], [240, 200, 30], [220, 220, 220], [240, 140, 20]];
    assert(c@ =~= seq![[30u8, 100, 220], [30u8, 200, 80], [240u8, 200, 30], [220u8, 220, 220], [240u8, 140, 20]]);
    c
}

/// The screen the race shows.
#[derive(Clone, Copy, PartialEq, Eq, Structural, Debug)]
pub enum GameState {
    Title,
    Countdown(u32),
    Racing,
    Results,
    Pause,
}

/// Escape key code.
pub const KEY_ESCAPE: i32 = 27;

/// Return key code.
pub const KEY_RETURN: i32 = 13;

/// Space bar key code.
pub const KEY_SPACE: i32 = 32;

/// What the front end must do after a key press, besides showing the new
/// screen.
#[derive(Clone, Copy, PartialEq, Eq, Structural, Debug)]
pub enum KeyAction {
    /// Nothing more.
    Nothing,
    /// Put the cars back on the grid and restart the clock and the lap
    /// count for a new race (the countdown starts).
    StartRace,
    /// Put the cars back on the grid and restart the clock and the lap
    /// count, back on the title screen.
    ResetGame,
}

/// The screen after pressing key code `key`, and what else must happen:
/// Escape pauses a race or its countdown and resumes a paused one; Return
/// or Space starts a race from the title and leaves the results for the
/// title.
pub open spec fn key_down_step(state: GameState, key: i32) -> (GameState, KeyAction) {
    if key == KEY_ESCAPE {
        match state {
            GameState::Racing | GameState::Countdown(_) => (GameState::Pause, KeyAction::Nothing),
            GameState::Pause => (GameState::Racing, KeyAction::Nothing),
            _ => (state, KeyAction::Nothing),
        }
    } else if key == KEY_RETURN || key == KEY_SPACE {
        match state {
            GameState::Title => (GameState::Countdown(3), KeyAction::StartRace),
            GameState::Results => (GameState::Title, KeyAction::ResetGame),
            _ => (state, KeyAction::Nothing),
        }
    } else {
        (state, KeyAction::Nothing)
    }
}

impl GameState {
    /// React to a key press.
    pub fn on_key_down(self, key: i32) -> (r: (GameState, KeyAction))
        ensures
            r == key_down_step(self, key),
    {
        match key {
            27 => match self {
                GameState::Racing | GameState::Countdown(_) => (GameState::Pause, KeyAction::Nothing),
                GameState::Pause => (GameState::Racing, KeyAction::Nothing),
                _ => (self, KeyAction::Nothing),
            },
            13 | 32 => match self {
                GameState::Title => (GameState::Countdown(3), KeyAction::StartRace),
                GameState::Results => (GameState::Title, KeyAction::ResetGame),
                _ => (self, KeyAction::Nothing),
            },
            _ => (self, KeyAction::Nothing),
        }
    }
}

/// Escape twice during a race pauses and resumes it.
pub proof fn lemma_escape_twice_resumes()
    ensures
        key_down_step(key_down_step(GameState::Racing, KEY_ESCAPE).0, KEY_ESCAPE).0
            == GameState::Racing,
{
}

/// The key codes held down, one entry per key press still held.
pub struct HeldKeys {
    pub keys: Vec<i32>,
}

/// The driving controls the held keys give: steering counts each held
/// left key as -1 and each held right key as +1.
#[derive(Clone, Copy, PartialEq, Eq, Structural, Debug)]
pub struct RacingControls {
    pub steer: i32,
    pub accelerating: bool,
    pub braking: bool,
    pub handbrake: bool,
}

/// Up arrow or W.
pub open spec fn is_accel_key(k: i32) -> bool {
    k == 273 || k == 119
}

/// Down arrow or S.
pub open spec fn is_brake_key(k: i32) -> bool {
    k == 274 || k == 115
}

/// Left arrow or A.
pub open spec fn is_left_key(k: i32) -> bool {
    k == 276 || k == 97
}

/// Right arrow or D.
pub open spec fn is_right_key(k: i32) -> bool {
    k == 275 || k == 100
}

/// The controls that the held keys `keys` give.
pub open spec fn controls_of(keys: Seq<i32>) -> RacingControls
    decreases keys.len(),
{
    if keys.len() == 0 {
        RacingControls { steer: 0, accelerating: false, braking: false, handbrake: false }
    } else {
        let c = controls_of(keys.drop_last());
        let k = keys.last();
        RacingControls {
            steer: if is_left_key(k) {
                (c.steer - 1) as i32
            } else if is_right_key(k) {
                (c.steer + 1) as i32
            } else {
                c.steer
            },
            accelerating: c.accelerating || is_accel_key(k),
            braking: c.braking || is_brake_key(k),
            handbrake: c.handbrake || k == KEY_SPACE,
        }
    }
}

proof fn lemma_steer_bound(keys: Seq<i32>)
    ensures
        -keys.len() <= controls_of(keys).steer <= keys.len(),
    decreases keys.len(),
{
    if keys.len() > 0 {
        lemma_steer_bound(keys.drop_last());
    }
}

impl HeldKeys {
    /// No key held.
    pub fn new() -> (h: Self)
        ensures
            h.keys@ == Seq::<i32>::empty(),
    {
        HeldKeys { keys: Vec::new() }
    }

    /// A key went down.
    pub fn press(&mut self, k: i32)
        ensures
            final(self).keys@ == old(self).keys@.push(k),
    {
        self.keys.push(k);
    }

    /// A key went up: every entry of it goes.
    pub fn release(&mut self, k: i32)
        ensures
            final(self).keys@ == old(self).keys@.filter(|key: i32| key != k),
    {
        let mut kept: Vec<i32> = Vec::new();
        let mut i: usize = 0;
        while i < self.keys.len()
            invariant
                self.keys@ == old(self).keys@,
                0 <= i <= self.keys@.len(),
                kept@ == self.keys@.take(i as int).filter(|key: i32| key != k),
            decreases self.keys@.len() - i,
        {
            let key = self.keys[i];
            proof {
                reveal_with_fuel(Seq::<_>::filter, 1);
                assert(self.keys@.take(i + 1).drop_last() =~= self.keys@.take(i as int));
            }
            if key != k {
                kept.push(key);
            }
            i += 1;
        }
        assert(self.keys@.take(self.keys@.len() as int) =~= self.keys@);
        self.keys = kept;
    }

    /// The driving controls the held keys give.
    pub fn racing_controls(&self) -> (c: RacingControls)
        requires
            self.keys@.len() <= i32::MAX,
        ensures
            c == controls_of(self.keys@),
    {
        let mut c = RacingControls { steer: 0, accelerating: false, braking: false, handbrake: false };
        let mut i: usize = 0;
        while i < self.keys.len()
            invariant
                self.keys@.len() <= i32::MAX,
                0 <= i <= self.keys@.len(),
                c == controls_of(self.keys@.take(i as int)),
            decreases self.keys@.len() - i,
        {
            let key = self.keys[i];
            proof {
                assert(self.keys@.take(i + 1).drop_last() =~= self.keys@.take(i as int));
                lemma_steer_bound(self.keys@.take(i as int));
            }
            match key {
                273 | 119 => c.accelerating = true,
                274 | 115 => c.braking = true,
                276 | 97 => c.steer = c.steer - 1,
                275 | 100 => c.steer = c.steer + 1,
                32 => c.handbrake = true,
                _ => {},
            }
            i += 1;
        }
        assert(self.keys@.take(self.keys@.len() as int) =~= self.keys@);
        c
    }
}

/// A sequence holds `x` exactly when its prefix without the last entry
/// holds it or its last entry is `x`.
proof fn lemma_contains_last(keys: Seq<i32>, x: i32)
    requires
        keys.len() > 0,
    ensures
        keys.contains(x) <==> (keys.drop_last().contains(x) || keys.last() == x),
{
    if keys.contains(x) {
        let i = choose|i: int| 0 <= i < keys.len() && keys[i] == x;
        if i < keys.len() - 1 {
            assert(keys.drop_last()[i] == x);
        }
    }
    if keys.drop_last().contains(x) {
        let i = choose|i: int| 0 <= i < keys.drop_last().len() && keys.drop_last()[i] == x;
        assert(keys[i] == x);
    }
    if keys.last() == x {
        assert(keys[keys.len() - 1] == x);
    }
}

/// The driving controls count the held keys: steering is the number of
/// held right-arrow (275) or D (100) entries minus the number of held
/// left-arrow (276) or A (97) entries; the car accelerates while up arrow
/// (273) or W (119) is held, brakes while down arrow (274) or S (115) is
/// held, and the handbrake is on while Space (32) is held.
pub proof fn lemma_controls_count_keys(keys: Seq<i32>)
    requires
        keys.len() <= i32::MAX,
    ensures
        controls_of(keys).steer == keys.filter(|k: i32| k == 275 || k == 100).len() as int
            - keys.filter(|k: i32| k == 276 || k == 97).len() as int,
        controls_of(keys).accelerating == (keys.contains(273) || keys.contains(119)),
        controls_of(keys).braking == (keys.contains(274) || keys.contains(115)),
        controls_of(keys).handbrake == keys.contains(32),
    decreases keys.len(),
{
    let right = |k: i32| k == 275 || k == 100;
    let left = |k: i32| k == 276 || k == 97;
    reveal_with_fuel(Seq::<_>::filter, 1);
    if keys.len() == 0 {
        assert(!keys.contains(273) && !keys.contains(119) && !keys.contains(274));
        assert(!keys.contains(115) && !keys.contains(32));
    } else {
        let rest = keys.drop_last();
        lemma_controls_count_keys(rest);
        lemma_steer_bound(rest);
        rest.lemma_filter_len(right);
        rest.lemma_filter_len(left);
        lemma_contains_last(keys, 273);
        lemma_contains_last(keys, 119);
        lemma_contains_last(keys, 274);
        lemma_contains_last(keys, 115);
        lemma_contains_last(keys, 32);
    }
}

/// Return and Space act alike on every screen: from the title either one
/// starts a race with a countdown from three, from the results either one
/// goes back to the title and resets the game, and on any other screen
/// neither changes anything.
pub proof fn lemma_return_and_space_agree(s: GameState)
    ensures
        key_down_step(s, 32) == key_down_step(s, 13),
        s == GameState::Title ==> key_down_step(s, 13) == (GameState::Countdown(3), KeyAction::StartRace),
        s == GameState::Results ==> key_down_step(s, 13) == (GameState::Title, KeyAction::ResetGame),
        s != GameState::Title && s != GameState::Results ==> key_down_step(s, 13) == (s, KeyAction::Nothing),
{
}

/// Escape pauses a race or its countdown and resumes a paused race; it
/// never starts or resets anything, and leaves the title and results as
/// they are. Keys other than Escape, Return and Space change nothing.
pub proof fn lemma_other_keys(s: GameState, key: i32)
    ensures
        key_down_step(s, 27).1 == KeyAction::Nothing,
        (s is Racing || s is Countdown) ==> key_down_step(s, 27).0 == GameState::Pause,
        s == GameState::Pause ==> key_down_step(s, 27).0 == GameState::Racing,
        (s == GameState::Title || s == GameState::Results) ==> key_down_step(s, 27).0 == s,
        key != 27 && key != 13 && key != 32 ==> key_down_step(s, key) == (s, KeyAction::Nothing),
{
}

/// After a key goes up it is no longer held; other keys stay as they were.
pub proof fn lemma_release_clears(keys: Seq<i32>, k: i32)
    ensures
        !keys.filter(|key: i32| key != k).contains(k),
        forall|j: i32| j != k ==> (keys.filter(|key: i32| key != k).contains(j) <==> keys.contains(j)),
{
    let pred = |key: i32| key != k;
    let f = keys.filter(pred);
    if f.contains(k) {
        let i = choose|i: int| 0 <= i < f.len() && f[i] == k;
        keys.lemma_filter_pred(pred, i);
    }
    assert forall|j: i32| j != k implies (f.contains(j) <==> keys.contains(j)) by {
        if f.contains(j) {
            keys.lemma_filter_contains_rev(pred, j);
        }
        if keys.contains(j) {
            let idx = choose|idx: int| 0 <= idx < keys.len() && keys[idx] == j;
            keys.lemma_filter_contains(pred, idx);
        }
    }
}

/// Field size: the player and five opponents.
pub const FIELD_SIZE: u32 = 6;

/// How many of `flags` are set.
pub open spec fn count_set(flags: Seq<bool>) -> nat
    decreases flags.len(),
{
    if flags.len() == 0 {
        0
    } else {
        count_set(flags.drop_last()) + if flags.last() {
            1nat
        } else {
            0nat
        }
    }
}

/// The player's place given, for each opponent, whether it is ahead: one
/// behind each car ahead, never past the last of the six places.
pub fn field_position(ahead: &[bool]) -> (p: u32)
    ensures
        p == (if 1 + count_set(ahead@) < FIELD_SIZE {
            1 + count_set(ahead@)
        } else {
            FIELD_SIZE as nat
        }),
        1 <= p <= FIELD_SIZE,
{
    let mut p: u32 = 1;
    let mut i: usize = 0;
    while i < ahead.len()
        invariant
            0 <= i <= ahead@.len(),
            p == (if 1 + count_set(ahead@.take(i as int)) < FIELD_SIZE {
                1 + count_set(ahead@.take(i as int))
            } else {
                FIELD_SIZE as nat
            }),
        decreases ahead@.len() - i,
    {
        proof {
            assert(ahead@.take(i + 1).drop_last() =~= ahead@.take(i as int));
        }
        if ahead[i] && p < FIELD_SIZE {
            p = p + 1;
        }
        i += 1;
    }
    assert(ahead@.take(ahead@.len() as int) =~= ahead@);
    p
}

/// The player crossed the start line: the lap counter moves on, and once
/// it passes the race distance the results screen shows.
pub fn lap_completed(lap: u32, total_laps: u32, state: GameState) -> (r: (u32, GameState))
    requires
        lap < u32::MAX,
    ensures
        r.0 == lap + 1,
        r.1 == (if lap + 1 > total_laps {
            GameState::Results
        } else {
            state
        }),
{
    let next = lap + 1;
    if next > total_laps {
        (next, GameState::Results)
    } else {
        (next, state)
    }
}

} // verus!
