use lotus_racer::track::{scatter_scenery, Lcg, Placement};

/// The scenery scatter as the game wrote it with floats, for comparison.
fn float_plan(seed: u32, n: usize) -> Vec<(usize, u8, bool)> {
    let mut state = seed.max(1);
    let mut next = || {
        state = state.wrapping_mul(1664525).wrapping_add(1013904223);
        (state >> 8) as f32 / 16777216.0
    };
    let mut out = Vec::new();
    for seg in 6..n {
        if next() < 0.42 {
            let r = next();
            let kind = if r < 0.45 {
                1
            } else if r < 0.7 {
                2
            } else if r < 0.9 {
                3
            } else {
                4
            };
            let left = next() < 0.5;
            let _spread = next();
            out.push((seg, kind, left));
        }
    }
    if n > 2 {
        out.extend([(0, 5, true), (0, 5, false), (1, 5, true), (1, 5, false)]);
    }
    out
}

#[test]
fn lcg_first_draws() {
    let mut g = Lcg::new(0);
    let s1 = 1u32.wrapping_mul(1664525).wrapping_add(1013904223);
    assert_eq!(g.next_draw(), s1 >> 8);
    let s2 = s1.wrapping_mul(1664525).wrapping_add(1013904223);
    assert_eq!(g.next_draw(), s2 >> 8);
    let mut h = Lcg::new(1);
    assert_eq!(h.next_draw(), s1 >> 8);
}

#[test]
fn lcg_draws_fit_24_bits() {
    let mut g = Lcg::new(98765);
    for _ in 0..1000 {
        assert!(g.next_draw() < 1 << 24);
    }
}

#[test]
fn scatter_matches_float_rules_for_both_tracks() {
    for (seed, n) in [(1234u32, 300usize), (98765, 326), (0, 50), (7, 7)] {
        let plan = scatter_scenery(seed, n);
        let got: Vec<(usize, u8, bool)> = plan.iter().map(|p| (p.segment, p.kind, p.left)).collect();
        assert_eq!(got, float_plan(seed, n), "seed {seed}");
    }
}

#[test]
fn scatter_spread_and_flags() {
    let plan = scatter_scenery(1234, 100);
    let flags: Vec<&Placement> = plan.iter().filter(|p| p.kind == 5).collect();
    assert_eq!(flags.len(), 4);
    assert!(flags.iter().all(|p| p.spread.is_none() && p.segment < 2));
    assert!(plan.iter().filter(|p| p.kind != 5).all(|p| p.segment >= 6 && p.segment < 100));
    assert!(plan.iter().filter(|p| p.kind != 5).all(|p| matches!(p.spread, Some(d) if d < 1 << 24)));
}

#[test]
fn short_tracks_get_no_scenery() {
    assert!(scatter_scenery(1234, 2).is_empty());
    assert_eq!(scatter_scenery(1234, 3).len(), 4);
    assert_eq!(scatter_scenery(1234, 6).len(), 4);
}
