use lotus_racer::framebuffer::Palette;

#[test]
fn add_dedups_colors() {
    let mut p = Palette::new();
    let a = p.add(10, 20, 30);
    let b = p.add(40, 50, 60);
    let c = p.add(10, 20, 30);
    assert_eq!(a, 0);
    assert_eq!(b, 1);
    assert_eq!(c, 0);
    assert_eq!(p.len(), 2);
    assert_eq!(p.get(1), [40, 50, 60]);
}

#[test]
fn add_twice_changes_nothing() {
    let mut p = Palette::new();
    p.add(1, 2, 3);
    p.add(4, 5, 6);
    let before = p.len();
    let i = p.add(4, 5, 6);
    assert_eq!(i, 1);
    assert_eq!(p.len(), before);
    assert_eq!(p.get(0), [1, 2, 3]);
}

#[test]
fn get_clamps_to_last_entry() {
    let mut p = Palette::new();
    p.add(1, 1, 1);
    p.add(2, 2, 2);
    assert_eq!(p.get(0), [1, 1, 1]);
    assert_eq!(p.get(7), [2, 2, 2]);
    assert_eq!(p.get(255), [2, 2, 2]);
}

#[test]
fn set_overwrites_and_reindexes() {
    let mut p = Palette::new();
    p.add(9, 9, 9);
    p.add(8, 8, 8);
    p.set(0, [7, 7, 7]);
    assert_eq!(p.get(0), [7, 7, 7]);
    assert_eq!(p.len(), 2);
    // The new color is found again at the slot it was set in.
    assert_eq!(p.add(7, 7, 7), 0);
    // The overwritten color is gone from the lookup and gets a new slot.
    assert_eq!(p.add(9, 9, 9), 2);
}

#[test]
fn set_out_of_range_is_ignored() {
    let mut p = Palette::new();
    p.add(3, 3, 3);
    p.set(5, [1, 1, 1]);
    assert_eq!(p.len(), 1);
    assert_eq!(p.get(0), [3, 3, 3]);
}

#[test]
fn palette_holds_256_colors() {
    let mut p = Palette::new();
    for i in 0..256u32 {
        let idx = p.add(i as u8, (i / 2) as u8, 0);
        assert_eq!(idx as u32, i);
    }
    assert_eq!(p.len(), 256);
    assert_eq!(p.add(5, 2, 0), 5);
}

#[test]
fn length_counts_distinct_colors() {
    let mut p = Palette::new();
    assert_eq!(p.len(), 0);
    let colors = [[1, 2, 3], [4, 5, 6], [1, 2, 3], [7, 8, 9], [4, 5, 6], [1, 2, 3]];
    for c in colors {
        p.add(c[0], c[1], c[2]);
    }
    assert_eq!(p.len(), 3);
}

#[test]
fn full_palette_fits_only_known_colors() {
    let mut p = Palette::new();
    for i in 0..256u32 {
        p.add(i as u8, 0, 0);
    }
    assert!(p.fits_all(&[]));
    assert!(p.fits_all(&[[3, 0, 0], [255, 0, 0], [3, 0, 0]]));
    assert!(!p.fits_all(&[[3, 0, 0], [0, 1, 0]]));
}

#[test]
fn fits_all_counts_repeats_once() {
    let mut p = Palette::new();
    for i in 0..255u32 {
        p.add(i as u8, 0, 0);
    }
    assert!(p.fits_all(&[[9, 9, 9], [9, 9, 9], [1, 0, 0]]));
    assert!(!p.fits_all(&[[9, 9, 9], [8, 8, 8]]));
}
