use vstd::prelude::*;

verus! {

/// One step of the scenery generator: `state * 1664525 + 1013904223`,
/// wrapping at 2^32.
#[verifier::opaque]
pub open spec fn lcg_step(s: u32) -> u32 {
    vstd::wrapping::u32_specs::wrapping_add(
        vstd::wrapping::u32_specs::wrapping_mul(s, 1664525),
        1013904223,
    )
}

/// The 24-bit draw a generator state yields: its top 24 bits. A draw `d`
/// stands for the fraction `d / 2^24` in `[0, 1)`.
pub open spec fn lcg_draw(s: u32) -> u32 {
    s >> 8
}

/// Deterministic linear congruential generator for scenery placement.
pub struct Lcg {
    state: u32,
}

impl Lcg {
    /// The generator's current state.
    pub closed spec fn state(&self) -> u32 {
        self.state
    }

    /// A generator seeded with `seed`; a zero seed becomes 1.
    pub fn new(seed: u32) -> (g: Self)
        ensures
            g.state() == if seed < 1 {
                1
            } else {
                seed
            },
    {
        Lcg { state: if seed < 1 { 1 } else { seed } }
    }

    /// Advance the generator and return the new state's 24-bit draw.
    pub fn next_draw(&mut self) -> (d: u32)
        ensures
            final(self).state() == lcg_step(old(self).state()),
            d == lcg_draw(final(self).state()),
            d < 0x100_0000,
    {
        proof {
            reveal(lcg_step);
        }
        self.state = self.state.wrapping_mul(1664525).wrapping_add(1013904223);
        let s = self.state;
        let d = s >> 8;
        assert(s >> 8 < 0x100_0000) by (bit_vector);
        d
    }
}

/// Largest draw fraction below which a segment gets a scenery sprite
/// (0.42 in single precision, times 2^24, rounded up).
pub const PLACE_BELOW: u32 = 7046431;

/// Draws below this are pine trees (0.45 in single precision, times 2^24).
pub const PINE_BELOW: u32 = 7549747;

/// Draws below this (and not pines) are bushes (0.7 in single precision).
pub const BUSH_BELOW: u32 = 11744051;

/// Draws below this (and not bushes) are rocks (0.9 in single precision);
/// the rest are signs.
pub const ROCK_BELOW: u32 = 15099494;

/// Draws below this put the sprite on the left side (one half).
pub const LEFT_BELOW: u32 = 0x80_0000;

/// A roadside sprite placed on a segment.
#[derive(Clone, Copy, PartialEq, Eq, Structural)]
pub struct Placement {
    /// Index of the segment that carries the sprite.
    pub segment: usize,
    /// Scenery kind: 1 pine, 2 bush, 3 rock, 4 sign, 5 start flag.
    pub kind: u8,
    /// Left of the road (negative lateral offset) rather than right.
    pub left: bool,
    /// For scattered sprites, the draw that sets how far beyond the verge
    /// the sprite stands; start flags stand at a fixed distance.
    pub spread: Option<u32>,
}

/// The scenery kind a draw selects.
pub open spec fn kind_of_draw(d: u32) -> u8 {
    if d < PINE_BELOW {
        1
    } else if d < BUSH_BELOW {
        2
    } else if d < ROCK_BELOW {
        3
    } else {
        4
    }
}

/// What segment `seg` gets from a generator in state `s`: the state after
/// the draws it takes, and the sprite placed on it, if any. One draw decides
/// whether a sprite is placed; a placed sprite takes three more for its
/// kind, side and spread.
pub open spec fn scatter_segment(s: u32, seg: usize) -> (u32, Option<Placement>) {
    let s1 = lcg_step(s);
    if lcg_draw(s1) < PLACE_BELOW {
        let s2 = lcg_step(s1);
        let s3 = lcg_step(s2);
        let s4 = lcg_step(s3);
        (
            s4,
            Some(
                Placement {
                    segment: seg,
                    kind: kind_of_draw(lcg_draw(s2)),
                    left: lcg_draw(s3) < LEFT_BELOW,
                    spread: Some(lcg_draw(s4)),
                },
            ),
        )
    } else {
        (s1, None)
    }
}

/// The scattered sprites of segments `from..to`, and the generator state
/// after them, starting from state `s`.
pub open spec fn scatter_range(s: u32, from: nat, to: nat) -> (u32, Seq<Placement>)
    decreases to - from,
{
    if from >= to {
        (s, Seq::empty())
    } else {
        let (s1, p) = scatter_range(s, from, (to - 1) as nat);
        let (s2, q) = scatter_segment(s1, (to - 1) as usize);
        (
            s2,
            match q {
                Some(pl) => p.push(pl),
                None => p,
            },
        )
    }
}

/// The four flag poles flanking the start line, on segments 0 and 1, for
/// tracks longer than two segments.
pub open spec fn start_flags(n: nat) -> Seq<Placement> {
    if n > 2 {
        seq![
            Placement { segment: 0, kind: 5, left: true, spread: None },
            Placement { segment: 0, kind: 5, left: false, spread: None },
            Placement { segment: 1, kind: 5, left: true, spread: None },
            Placement { segment: 1, kind: 5, left: false, spread: None },
        ]
    } else {
        Seq::empty()
    }
}

/// All roadside sprites of a track of `n` segments scattered with `seed`:
/// segments from the seventh on are scattered in order, then the start
/// flags are added.
pub open spec fn scenery_plan(seed: u32, n: nat) -> Seq<Placement> {
    scatter_range(if seed < 1 { 1 } else { seed }, 6, n).1 + start_flags(n)
}

/// Every scattered sprite sits on a segment in `from..to`, segments come
/// in increasing order, and each kind is one of the four scattered kinds.
pub proof fn lemma_scatter_range_shape(s: u32, from: nat, to: nat)
    requires
        to <= usize::MAX,
    ensures
        ({
            let p = scatter_range(s, from, to).1;
            &&& p.len() <= if to > from { to - from } else { 0 }
            &&& forall|i: int|
                #![trigger p[i]]
                0 <= i < p.len() ==> from <= p[i].segment < to && 1 <= p[i].kind <= 4
                    && p[i].spread is Some
            &&& forall|i: int, j: int| 0 <= i < j < p.len() ==> p[i].segment < p[j].segment
        }),
    decreases to - from,
{
    if from < to {
        lemma_scatter_range_shape(s, from, (to - 1) as nat);
        let (s1, p) = scatter_range(s, from, (to - 1) as nat);
        let (s2, q) = scatter_segment(s1, (to - 1) as usize);
        let full = scatter_range(s, from, to).1;
        assert(((to - 1) as usize) as int == to - 1);
        assert forall|i: int| #![trigger full[i]] 0 <= i < full.len() implies from <= full[i].segment
            < to && 1 <= full[i].kind <= 4 && full[i].spread is Some by {
            if i < p.len() {
                assert(full[i] == p[i]);
            }
        }
        assert forall|i: int, j: int| 0 <= i < j < full.len() implies full[i].segment
            < full[j].segment by {
            if j < p.len() {
                assert(full[i] == p[i] && full[j] == p[j]);
            } else {
                assert(full[i] == p[i]);
            }
        }
    }
}

/// A track's scenery: scattered sprites on segments from the seventh on,
/// at most one per segment and in segment order, then the start flags.
pub proof fn lemma_scenery_plan_shape(seed: u32, n: nat)
    requires
        n <= usize::MAX,
    ensures
        ({
            let plan = scenery_plan(seed, n);
            let scattered = scatter_range(if seed < 1 { 1 } else { seed }, 6, n).1;
            &&& plan.len() == scattered.len() + (if n > 2 { 4int } else { 0 })
            &&& forall|i: int|
                #![trigger plan[i]]
                0 <= i < scattered.len() ==> 6 <= plan[i].segment < n && 1 <= plan[i].kind <= 4
            &&& forall|i: int|
                #![trigger plan[i]]
                scattered.len() <= i < plan.len() ==> plan[i].segment < 2 && plan[i].kind == 5
        }),
{
    let scattered = scatter_range(if seed < 1 { 1 } else { seed }, 6, n).1;
    lemma_scatter_range_shape(if seed < 1 { 1 } else { seed }, 6, n);
    let plan = scenery_plan(seed, n);
    assert forall|i: int| #![trigger plan[i]] 0 <= i < scattered.len() implies 6 <= plan[i].segment < n
        && 1 <= plan[i].kind <= 4 by {
        assert(plan[i] == scattered[i]);
    }
}

/// Placement `p` is what the four draws following generator state `t`
/// give: the first is below the placing threshold (0.42 of 2^24), the
/// second picks the kind (pine below 0.45, bush below 0.7, rock below 0.9,
/// else sign), the third picks the side (left below one half), and the
/// fourth is the spread, the 24-bit draw that sets how far beyond the verge
/// the sprite stands.
pub open spec fn drawn_from(t: u32, p: Placement) -> bool {
    let s1 = lcg_step(t);
    let s2 = lcg_step(s1);
    let s3 = lcg_step(s2);
    let s4 = lcg_step(s3);
    &&& (s1 >> 8) < 7046431
    &&& p.kind == (if (s2 >> 8) < 7549747 {
        1u8
    } else if (s2 >> 8) < 11744051 {
        2u8
    } else if (s2 >> 8) < 15099494 {
        3u8
    } else {
        4u8
    })
    &&& p.left == ((s3 >> 8) < 0x80_0000)
    &&& p.spread == Some(s4 >> 8)
}

/// A segment takes one draw to decide whether it gets a sprite; one that
/// gets a sprite takes three more, its placement is what those four draws
/// give, and the generator goes on from the fourth state, whose 24-bit draw
/// is the spread. A segment without a sprite hands on the first state.
pub proof fn lemma_segment_draws(s: u32, seg: usize)
    ensures
        ({
            let s1 = lcg_step(s);
            let (t, q) = scatter_segment(s, seg);
            &&& (q is Some) == ((s1 >> 8) < 7046431)
            &&& q matches Some(p) ==> p.segment == seg && drawn_from(s, p) && p.spread == Some(t >> 8)
                && t == lcg_step(lcg_step(lcg_step(s1)))
            &&& q is None ==> t == s1
        }),
{
}

/// Every scattered sprite of segments `from..to` is what the four draws
/// following a generator state give: `states[i]` is the state that the
/// `i`-th sprite's draws follow, so its spread is the 24-bit draw of the
/// fourth step from it.
pub proof fn lemma_scatter_range_draws(s: u32, from: nat, to: nat) -> (states: Seq<u32>)
    requires
        to <= usize::MAX,
    ensures
        states.len() == scatter_range(s, from, to).1.len(),
        forall|i: int|
            #![trigger scatter_range(s, from, to).1[i]]
            0 <= i < states.len() ==> drawn_from(states[i], scatter_range(s, from, to).1[i]),
    decreases to - from,
{
    if from < to {
        let prev = lemma_scatter_range_draws(s, from, (to - 1) as nat);
        let (s1, p) = scatter_range(s, from, (to - 1) as nat);
        let (s2, q) = scatter_segment(s1, (to - 1) as usize);
        let full = scatter_range(s, from, to).1;
        lemma_segment_draws(s1, (to - 1) as usize);
        let states = if q is Some { prev.push(s1) } else { prev };
        assert forall|i: int| #![trigger full[i]] 0 <= i < states.len() implies drawn_from(
            states[i],
            full[i],
        ) by {
            if i < p.len() {
                assert(full[i] == p[i]);
                assert(states[i] == prev[i]);
            }
        }
        states
    } else {
        Seq::empty()
    }
}

/// The scattered sprites of a track's scenery, which come first in its
/// plan, are each what the four draws following a generator state give:
/// kind, side and spread all come from the draws, the spread from the
/// fourth.
pub proof fn lemma_scenery_plan_draws(seed: u32, n: nat) -> (states: Seq<u32>)
    requires
        n <= usize::MAX,
    ensures
        states.len() == scatter_range(if seed < 1 { 1 } else { seed }, 6, n).1.len(),
        forall|i: int|
            #![trigger scenery_plan(seed, n)[i]]
            0 <= i < states.len() ==> drawn_from(states[i], scenery_plan(seed, n)[i]),
{
    let scattered = scatter_range(if seed < 1 { 1 } else { seed }, 6, n).1;
    let states = lemma_scatter_range_draws(if seed < 1 { 1 } else { seed }, 6, n);
    let plan = scenery_plan(seed, n);
    assert forall|i: int| #![trigger plan[i]] 0 <= i < states.len() implies drawn_from(
        states[i],
        plan[i],
    ) by {
        assert(plan[i] == scattered[i]);
    }
    states
}

/// Scatter scenery sprites along a track of `n_segments` segments
/// (deterministic per seed): each segment from the seventh on may get a
/// pine, bush, rock or sign on either side, and the start line gets flag
/// poles on both sides of its first two segments.
pub fn scatter_scenery(seed: u32, n_segments: usize) -> (plan: Vec<Placement>)
    ensures
        plan@ == scenery_plan(seed, n_segments as nat),
{
    let mut rng = Lcg::new(seed);
    let mut plan: Vec<Placement> = Vec::new();
    let mut seg: usize = 6;
    if seg < n_segments {
        while seg < n_segments
            invariant
                6 <= seg <= n_segments,
                (rng.state(), plan@) == scatter_range(
                    if seed < 1 {
                        1
                    } else {
                        seed
                    },
                    6,
                    seg as nat,
                ),
            decreases n_segments - seg,
        {
            let d = rng.next_draw();
            if d < PLACE_BELOW {
                let r = rng.next_draw();
                let kind = if r < PINE_BELOW {
                    1
                } else if r < BUSH_BELOW {
                    2
                } else if r < ROCK_BELOW {
                    3
                } else {
                    4
                };
                let left = rng.next_draw() < LEFT_BELOW;
                let spread = rng.next_draw();
                plan.push(Placement { segment: seg, kind, left, spread: Some(spread) });
            }
            seg += 1;
        }
    }
    if n_segments > 2 {
        plan.push(Placement { segment: 0, kind: 5, left: true, spread: None });
        plan.push(Placement { segment: 0, kind: 5, left: false, spread: None });
        plan.push(Placement { segment: 1, kind: 5, left: true, spread: None });
        plan.push(Placement { segment: 1, kind: 5, left: false, spread: None });
    }
    proof {
        let scattered = scatter_range(if seed < 1 { 1 } else { seed }, 6, n_segments as nat).1;
        if n_segments > 2 {
            assert(plan@ =~= scattered + start_flags(n_segments as nat));
        } else {
            assert(plan@ =~= scattered + start_flags(n_segments as nat));
        }
    }
    plan
}

} // verus!
