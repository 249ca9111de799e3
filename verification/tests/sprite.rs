use lotus_racer::sprite::Sprite;
use std::collections::HashMap;

fn colors(pairs: &[(char, u8)]) -> HashMap<u32, u8> {
    pairs.iter().map(|&(c, i)| (c as u32, i)).collect()
}

#[test]
fn from_map_reads_rows_and_transparency() {
    let map = ["AB.", ".A."];
    let s = Sprite::from_map(&map, &colors(&[('A', 3), ('B', 7)]));
    assert_eq!(s.w, 3);
    assert_eq!(s.h, 2);
    assert_eq!(s.px, vec![Some(3), Some(7), None, None, Some(3), None]);
}

#[test]
fn from_map_cuts_long_rows_and_pads_short_ones() {
    let map = ["AA", "AAAA", "A"];
    let s = Sprite::from_map(&map, &colors(&[('A', 1)]));
    assert_eq!(s.w, 2);
    assert_eq!(s.h, 3);
    assert_eq!(s.px, vec![Some(1), Some(1), Some(1), Some(1), Some(1), None]);
}

#[test]
fn from_map_with_empty_first_row() {
    let map = ["", "ABC"];
    let s = Sprite::from_map(&map, &colors(&[('A', 1)]));
    assert_eq!(s.w, 0);
    assert_eq!(s.h, 2);
    assert!(s.px.is_empty());
}

#[test]
fn remap_switches_one_index() {
    let s = Sprite { w: 2, h: 2, px: vec![Some(1), Some(2), None, Some(1)] };
    let t = s.remap(1, 9);
    assert_eq!((t.w, t.h), (2, 2));
    assert_eq!(t.px, vec![Some(9), Some(2), None, Some(9)]);
    let u = s.remap(5, 6);
    assert_eq!(u.px, s.px);
}

#[test]
fn generate_asks_each_pixel_row_by_row() {
    let s = Sprite::generate(3, 2, |x, y| if x == y { Some((x + 10 * y) as u8) } else { None });
    assert_eq!((s.w, s.h), (3, 2));
    assert_eq!(s.px, vec![Some(0), None, None, None, Some(11), None]);
}

#[test]
fn remap_to_itself_changes_nothing() {
    let s = Sprite { w: 3, h: 1, px: vec![Some(4), None, Some(2)] };
    assert_eq!(s.remap(4, 4).px, s.px);
    assert_eq!(s.remap(2, 2).px, s.px);
}
