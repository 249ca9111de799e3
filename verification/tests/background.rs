use lotus_racer::background::{render_hills, SkyTheme};
use lotus_racer::framebuffer::{Palette, Renderer, W};
use lotus_racer::sprite::Sprite;
use lotus_racer::theme::{RoadColors, TrackTheme};

fn hill_strip() -> Sprite {
    let mut px = vec![None; 2 * W];
    px[0] = Some(1);
    px[W + W - 1] = Some(2);
    Sprite { w: W, h: 2, px }
}

#[test]
fn hills_wrap_with_offset() {
    let mut r = Renderer::new(W, 4);
    r.clear(7);
    render_hills(&mut r, &hill_strip(), 1, 3);
    // Strip row 0 lands on screen row 1, row 1 on screen row 2; screen x
    // shows strip column (x + 1) mod W.
    for y in 0..4 {
        for x in 0..W {
            let want = if y == 1 && x == W - 1 {
                1
            } else if y == 2 && x == W - 2 {
                2
            } else {
                7
            };
            assert_eq!(r.idx[y * W + x], want, "pixel {x},{y}");
        }
    }
}

#[test]
fn hills_negative_offset_and_clipping() {
    let mut r = Renderer::new(W, 4);
    render_hills(&mut r, &hill_strip(), -1, 1);
    // Only strip row 1 fits above the horizon (screen row 0); row 0 would
    // be at screen row -1.
    for x in 0..W {
        assert_eq!(r.idx[x], if x == 0 { 2 } else { 0 }, "pixel {x},0");
    }
    assert!(r.idx[W..].iter().all(|&p| p == 0));
}

#[test]
fn sky_bands_register_in_order_with_reuse() {
    let mut pal = Palette::new();
    pal.add(9, 9, 9);
    let sky = SkyTheme::from_colors(&mut pal, &vec![[1, 2, 3], [9, 9, 9], [4, 5, 6], [1, 2, 3]]);
    assert_eq!(sky.bands, vec![1, 0, 2, 1]);
    assert_eq!(pal.len(), 3);
}

fn theme(bands: Vec<u8>, cycle: Vec<Vec<[u8; 3]>>) -> TrackTheme {
    let road = RoadColors {
        grass_a: 0,
        grass_b: 0,
        road_a: 0,
        road_b: 0,
        rumble_a: 0,
        rumble_b: 0,
        lane: 0,
        checker_a: 0,
        checker_b: 0,
    };
    TrackTheme { road, sky: SkyTheme { bands }, hills_img: Sprite { w: 0, h: 0, px: vec![] }, sky_cycle: cycle }
}

#[test]
fn sky_cycles_every_six_frames_and_repeats_after_24() {
    let mut pal = Palette::new();
    pal.add(0, 0, 0);
    pal.add(1, 1, 1);
    let variants = vec![vec![[10, 0, 0], [11, 0, 0], [12, 0, 0], [13, 0, 0]]];
    let t = theme(vec![1], variants);
    for (frame, want) in [(0, 10), (5, 10), (6, 11), (12, 12), (23, 13), (24, 10), (30, 11)] {
        t.cycle_sky(&mut pal, frame);
        assert_eq!(pal.get(1), [want, 0, 0], "frame {frame}");
        assert_eq!(pal.get(0), [0, 0, 0]);
    }
}
