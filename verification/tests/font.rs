use lotus_racer::font::{draw_text, glyph, text_width};
use lotus_racer::framebuffer::Renderer;
use lotus_racer::hud::text_w;

#[test]
fn glyph_letters_and_digits() {
    assert_eq!(glyph(b'A'), Some([2, 5, 7, 5, 5]));
    assert_eq!(glyph(b'0'), Some([2, 5, 5, 5, 2]));
    assert_eq!(glyph(b'9'), Some([2, 5, 5, 1, 3]));
    assert_eq!(glyph(b' '), Some([0, 0, 0, 0, 0]));
    assert_eq!(glyph(b'%'), Some([5, 1, 2, 4, 5]));
}

#[test]
fn glyph_missing_for_lowercase_and_controls() {
    assert_eq!(glyph(b'a'), None);
    assert_eq!(glyph(b'\n'), None);
    assert_eq!(glyph(200), None);
}

#[test]
fn text_width_formula() {
    assert_eq!(text_width("LAP", 1), 11);
    assert_eq!(text_width("PAUSED", 4), 92);
    assert_eq!(text_width("", 2), -2);
    assert_eq!(text_w("12 MPH"), 46);
}

#[test]
fn draw_text_paints_glyph_cells() {
    let mut r = Renderer::new(10, 6);
    draw_text(&mut r, 1, 0, "T", 3, 1);
    // T = rows 7,2,2,2,2 -> top row three cells, then the middle column.
    for y in 0..6usize {
        for x in 0..10usize {
            let lit = (y == 0 && (1..=3).contains(&x)) || ((1..5).contains(&y) && x == 2);
            assert_eq!(r.idx[y * 10 + x], if lit { 3 } else { 0 }, "pixel {x},{y}");
        }
    }
}

#[test]
fn draw_text_scales_and_skips_unknown() {
    let mut r = Renderer::new(16, 10);
    draw_text(&mut r, 0, 0, "a.", 4, 2);
    // 'a' has no glyph: nothing in its cell; '.' lights its bottom middle
    // cell, 2x2 pixels at x 10..12, y 8..10.
    for y in 0..10usize {
        for x in 0..16usize {
            let lit = (8..10).contains(&y) && (10..12).contains(&x);
            assert_eq!(r.idx[y * 16 + x], if lit { 4 } else { 0 }, "pixel {x},{y}");
        }
    }
}

#[test]
fn draw_text_clips_at_screen_edge() {
    let mut r = Renderer::new(3, 3);
    draw_text(&mut r, -1, -2, "8", 1, 1);
    // 8 = 2,5,7,5,2 drawn from (-1,-2): rows 2..5 of the glyph land on
    // y 0..3, columns 1..3 on x 0..2.
    let expect = [[1, 1, 0], [0, 1, 0], [1, 0, 0]];
    for y in 0..3usize {
        for x in 0..3usize {
            assert_eq!(r.idx[y * 3 + x], expect[y][x], "pixel {x},{y}");
        }
    }
}

#[test]
fn drawn_text_fits_its_width() {
    let (w, h) = (80usize, 20usize);
    let mut r = Renderer::new(w, h);
    let (x, y, scale) = (3, 2, 2);
    draw_text(&mut r, x, y, "HUD 42", 1, scale);
    let width = text_width("HUD 42", scale);
    let lit: Vec<(usize, usize)> =
        (0..w * h).filter(|&k| r.idx[k] != 0).map(|k| (k % w, k / w)).collect();
    assert!(!lit.is_empty());
    assert!(lit.iter().all(|&(px, py)| px as i32 >= x && (px as i32) < x + width));
    assert!(lit.iter().all(|&(_, py)| py as i32 >= y && (py as i32) < y + 5 * scale));
    // The last character's right column is lit: the text fills its width.
    assert_eq!(lit.iter().map(|&(px, _)| px as i32).max(), Some(x + width - 1));
}

#[test]
fn scale_below_one_draws_nothing() {
    let mut r = Renderer::new(8, 8);
    draw_text(&mut r, 2, 2, "A8", 5, 0);
    draw_text(&mut r, 6, 6, "A8", 5, -1);
    assert!(r.idx.iter().all(|&p| p == 0));
}
