use lotus_racer::framebuffer::{Palette, Renderer, H, W};

fn at(r: &Renderer, x: usize, y: usize) -> u8 {
    r.idx[y * r.w + x]
}

#[test]
fn screen_size() {
    assert_eq!(W, 640);
    assert_eq!(H, 256);
}

#[test]
fn new_renderer_is_all_index_zero() {
    let r = Renderer::new(5, 3);
    assert_eq!(r.w, 5);
    assert_eq!(r.h, 3);
    assert_eq!(r.idx.len(), 15);
    assert!(r.idx.iter().all(|&p| p == 0));
    assert_eq!(r.pal.len(), 0);
}

#[test]
fn set_ignores_off_screen() {
    let mut r = Renderer::new(4, 4);
    r.set(1, 2, 7);
    r.set(-1, 0, 9);
    r.set(0, -3, 9);
    r.set(4, 0, 9);
    r.set(0, 4, 9);
    assert_eq!(at(&r, 1, 2), 7);
    assert_eq!(r.idx.iter().filter(|&&p| p != 0).count(), 1);
}

#[test]
fn clear_fills_everything() {
    let mut r = Renderer::new(3, 2);
    r.set(0, 0, 4);
    r.clear(6);
    assert!(r.idx.iter().all(|&p| p == 6));
}

#[test]
fn hline_clamps_and_accepts_reversed_ends() {
    let mut r = Renderer::new(6, 3);
    r.hline(1, 4, -2, 5);
    for x in 0..6 {
        assert_eq!(at(&r, x, 1), if x <= 4 { 5 } else { 0 });
        assert_eq!(at(&r, x, 0), 0);
        assert_eq!(at(&r, x, 2), 0);
    }
    r.hline(-1, 0, 5, 8);
    r.hline(3, 0, 5, 8);
    r.hline(0, 10, 20, 8);
    assert!(r.idx.iter().all(|&p| p != 8));
}

#[test]
fn rect_fills_clamped_box() {
    let mut r = Renderer::new(5, 5);
    r.rect(3, -2, 10, 1, 2);
    for y in 0..5 {
        for x in 0..5 {
            let inside = x >= 3 && y <= 1;
            assert_eq!(at(&r, x, y), if inside { 2 } else { 0 });
        }
    }
}

#[test]
fn rect_with_rows_reversed_draws_nothing() {
    let mut r = Renderer::new(4, 4);
    r.rect(0, 3, 3, 1, 9);
    assert!(r.idx.iter().all(|&p| p == 0));
}

#[test]
fn rgba_maps_palette_and_sets_alpha() {
    let mut p = Palette::new();
    p.add(10, 20, 30);
    p.add(200, 100, 50);
    let mut r = Renderer::with_palette(2, 2, p);
    r.set(1, 0, 1);
    r.set(0, 1, 9); // beyond the palette: shows the last entry
    let out = r.rgba();
    assert_eq!(
        out,
        vec![10, 20, 30, 255, 200, 100, 50, 255, 200, 100, 50, 255, 10, 20, 30, 255]
    );
}
