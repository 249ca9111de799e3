use lotus_racer::assets::{
    add_base_colors, add_track_colors, base_palette_colors, build_sprites, bush_map, car_map, flag_map, pine_map,
    rock_map, sign_map, sprite_palette_colors, KIND_BUSH, KIND_FLAG, KIND_PINE, KIND_ROCK, KIND_SIGN,
};
use lotus_racer::framebuffer::Palette;
use lotus_racer::sprite::Sprite;

/// Check that every pixel of `s` shows, through `pal`, the color `table`
/// gives the map character, and that other characters are transparent.
fn check(s: &Sprite, map: &[&str], pal: &Palette, table: &dyn Fn(char) -> Option<[u8; 3]>) {
    let w = map[0].chars().count();
    assert_eq!(s.w, w);
    assert_eq!(s.h, map.len());
    for (y, row) in map.iter().enumerate() {
        let chars: Vec<char> = row.chars().collect();
        for x in 0..w {
            let want = chars.get(x).and_then(|&c| table(c));
            let got = s.px[y * w + x].map(|i| pal.get(i as usize));
            assert_eq!(got, want, "pixel {x},{y}");
        }
    }
}

#[test]
fn map_sizes() {
    assert_eq!((car_map().len(), car_map()[0].len()), (9, 24));
    assert_eq!((pine_map().len(), pine_map()[0].len()), (14, 10));
    assert_eq!((bush_map().len(), bush_map()[0].len()), (6, 12));
    assert_eq!((rock_map().len(), rock_map()[0].len()), (6, 12));
    assert_eq!((sign_map().len(), sign_map()[0].len()), (11, 16));
    assert_eq!((flag_map().len(), flag_map()[0].len()), (16, 4));
}

#[test]
fn kinds_are_numbered_from_one() {
    assert_eq!([KIND_PINE, KIND_BUSH, KIND_ROCK, KIND_SIGN, KIND_FLAG], [1, 2, 3, 4, 5]);
}

#[test]
fn base_colors_fill_a_fresh_palette_in_order() {
    let mut pal = Palette::new();
    let b = add_base_colors(&mut pal);
    assert_eq!((b.black, b.white, b.road_a, b.road_b, b.rumble_red, b.dim), (0, 1, 2, 3, 4, 5));
    assert_eq!(pal.len(), 6);
    assert_eq!(pal.get(b.rumble_red as usize), [205, 45, 40]);
    assert_eq!(pal.get(b.dim as usize), [170, 170, 175]);
}

#[test]
fn track_colors_reuse_shared_entries() {
    let mut pal = Palette::new();
    let b = add_base_colors(&mut pal);
    let (road, hf, hn) =
        add_track_colors(&mut pal, b, [85, 165, 75], [65, 135, 58], [60, 90, 140], [90, 120, 160]);
    assert_eq!((road.grass_a, road.grass_b, hf, hn), (6, 7, 8, 9));
    assert_eq!(pal.get(road.grass_b as usize), [65, 135, 58]);
    assert_eq!((road.road_a, road.road_b), (b.road_a, b.road_b));
    assert_eq!((road.rumble_a, road.rumble_b, road.lane), (b.rumble_red, b.white, b.white));
    assert_eq!((road.checker_a, road.checker_b), (b.white, b.black));
    // A second track with one grass shade equal to a hill color shares it.
    let (road2, _, _) =
        add_track_colors(&mut pal, b, [60, 90, 140], [1, 2, 3], [4, 5, 6], [7, 8, 9]);
    assert_eq!(road2.grass_a, hf);
    assert_eq!(pal.len(), 13);
}

#[test]
fn sprites_show_their_maps() {
    let mut pal = Palette::new();
    let b = add_base_colors(&mut pal);
    let black = pal.get(b.black as usize);
    let white = pal.get(b.white as usize);
    let (player, ais, scenery) = build_sprites(&mut pal, b.black, b.white);
    let car = |body: [u8; 3], dark: [u8; 3]| {
        move |c: char| match c {
            'G' => Some([140, 190, 220]),
            'B' => Some(body),
            'D' => Some(dark),
            'T' => Some(black),
            'R' => Some([255, 60, 50]),
            _ => None,
        }
    };
    check(&player, car_map(), &pal, &car([30, 60, 160], [18, 34, 92]));
    let bodies = [
        ([200, 50, 40], [120, 26, 22]),
        ([230, 180, 40], [140, 108, 24]),
        ([60, 170, 70], [34, 100, 40]),
        ([225, 225, 225], [140, 140, 140]),
    ];
    assert_eq!(ais.len(), 4);
    for (s, (b, d)) in ais.iter().zip(bodies) {
        check(s, car_map(), &pal, &car(b, d));
    }
    assert_eq!(scenery.len(), 6);
    assert_eq!((scenery[0].w, scenery[0].h, scenery[0].px.len()), (1, 1, 0));
    let pine = |c: char| match c {
        'G' => Some([30, 90, 45]),
        'T' => Some([120, 80, 40]),
        _ => None,
    };
    check(&scenery[KIND_PINE as usize], pine_map(), &pal, &pine);
    let bush = |c: char| match c {
        'G' => Some([70, 140, 60]),
        'L' => Some([105, 172, 82]),
        _ => None,
    };
    check(&scenery[KIND_BUSH as usize], bush_map(), &pal, &bush);
    let rock = |c: char| match c {
        'K' => Some([120, 120, 125]),
        'k' => Some([88, 88, 94]),
        _ => None,
    };
    check(&scenery[KIND_ROCK as usize], rock_map(), &pal, &rock);
    let sign = move |c: char| match c {
        'W' => Some(white),
        'O' => Some([230, 140, 40]),
        'P' => Some([70, 70, 75]),
        _ => None,
    };
    check(&scenery[KIND_SIGN as usize], sign_map(), &pal, &sign);
    let flag = move |c: char| match c {
        'W' => Some(white),
        'B' => Some(black),
        'P' => Some([90, 90, 95]),
        _ => None,
    };
    check(&scenery[KIND_FLAG as usize], flag_map(), &pal, &flag);
    // 6 shared colors, 4 car colors, 2 per opponent, 9 scenery colors.
    assert_eq!(pal.len(), 6 + 4 + 8 + 9);
}

#[test]
fn color_lists_fit_a_fresh_palette() {
    let p = Palette::new();
    let base = base_palette_colors();
    assert_eq!(base.len(), 6);
    assert_eq!(base[0], [15, 15, 15]);
    assert!(p.fits_all(&base));
    let sprites = sprite_palette_colors();
    assert_eq!(sprites[0], [140, 190, 220]);
    assert!(p.fits_all(&sprites));
}
