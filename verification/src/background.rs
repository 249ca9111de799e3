use crate::framebuffer::{
    lemma_fits_prefix, lemma_palette_add_all, palette_add_all, palette_fits_all, Palette, Renderer, W,
};
use crate::sprite::Sprite;
use vstd::prelude::*;

verus! {

/// Palette indices of the sky gradient bands, top of the screen first.
pub struct SkyTheme {
    pub bands: Vec<u8>,
}

impl SkyTheme {
    /// Register the band colors of a gradient, top first, in the palette
    /// and keep the index each one got.
    pub fn from_colors(pal: &mut Palette, colors: &Vec<[u8; 3]>) -> (s: Self)
        requires
            old(pal).wf(),
            palette_fits_all(old(pal).colors(), old(pal).index(), colors@),
        ensures
            final(pal).wf(),
            (final(pal).colors(), final(pal).index(), s.bands@) == palette_add_all(
                old(pal).colors(),
                old(pal).index(),
                colors@,
            ),
            s.bands@.len() == colors@.len(),
            forall|i: int|
                #![trigger s.bands@[i]]
                0 <= i < colors@.len() ==> final(pal).colors()[s.bands@[i] as int] == colors@[i],
    {
        let mut bands: Vec<u8> = Vec::new();
        let mut i: usize = 0;
        while i < colors.len()
            invariant
                0 <= i <= colors@.len(),
                pal.wf(),
                palette_fits_all(old(pal).colors(), old(pal).index(), colors@),
                (pal.colors(), pal.index(), bands@) == palette_add_all(
                    old(pal).colors(),
                    old(pal).index(),
                    colors@.take(i as int),
                ),
            decreases colors@.len() - i,
        {
            proof {
                lemma_fits_prefix(old(pal).colors(), old(pal).index(), colors@, i as int + 1);
                assert(colors@.take(i + 1).drop_last() =~= colors@.take(i as int));
            }
            let c = colors[i];
            let b = pal.add(c[0], c[1], c[2]);
            assert([c[0], c[1], c[2]] =~= c);
            bands.push(b);
            i += 1;
        }
        proof {
            assert(colors@.take(colors@.len() as int) =~= colors@);
            lemma_palette_add_all(old(pal).colors(), old(pal).index(), colors@);
        }
        SkyTheme { bands }
    }
}

/// Whether pixel `k` of a renderer `rw` wide shows the hill strip drawn
/// from `img` (`img_h` rows of `W` pixels) just above row `horizon_y`,
/// scrolled by `offset`: the pixel's row lies in the strip, above the
/// horizon and on screen, its column is among the first `W`, and the strip
/// is opaque there. Only the first `rows` strip rows, and of row `rows` the
/// first `cols` columns, count as drawn.
pub open spec fn hill_drawn(
    rw: int,
    img: Seq<Option<u8>>,
    img_h: int,
    offset: int,
    horizon_y: int,
    rows: int,
    cols: int,
    k: int,
) -> bool {
    let ry = k / rw;
    let cx = k % rw;
    let py = ry - (horizon_y - img_h);
    &&& 0 <= ry < horizon_y
    &&& 0 <= py < img_h
    &&& 0 <= cx < W
    &&& (py < rows || (py == rows && cx < cols))
    &&& img[py * W + (cx + offset) % (W as int)] is Some
}

/// The pixel value the hill strip shows at pixel `k`.
pub open spec fn hill_color(rw: int, img: Seq<Option<u8>>, img_h: int, offset: int, horizon_y: int, k: int) -> u8 {
    let ry = k / rw;
    let cx = k % rw;
    let py = ry - (horizon_y - img_h);
    img[py * W + (cx + offset) % (W as int)]->Some_0
}

/// `px` with the drawn part of the hill strip on top.
pub open spec fn hills_over(
    px: Seq<u8>,
    rw: int,
    img: Seq<Option<u8>>,
    img_h: int,
    offset: int,
    horizon_y: int,
    rows: int,
    cols: int,
) -> Seq<u8> {
    Seq::new(
        px.len(),
        |k: int|
            if hill_drawn(rw, img, img_h, offset, horizon_y, rows, cols, k) {
                hill_color(rw, img, img_h, offset, horizon_y, k)
            } else {
                px[k]
            },
    )
}

/// Draw a hill silhouette strip just above `horizon_y`, wrapped
/// horizontally by `offset` (parallax scroll driven by the curves). The
/// strip's rows are `W` pixels wide; transparent pixels leave the frame as
/// it was.
pub fn render_hills(r: &mut Renderer, img: &Sprite, offset: i32, horizon_y: i32)
    requires
        old(r).wf(),
        old(r).w >= 1,
        img.h <= i32::MAX,
        img.px@.len() >= img.h * W,
        horizon_y - img.h >= i32::MIN,
        offset + W <= i32::MAX,
    ensures
        final(r).wf(),
        final(r).w == old(r).w,
        final(r).h == old(r).h,
        final(r).pal == old(r).pal,
        final(r).pixels() == hills_over(
            old(r).pixels(),
            old(r).w as int,
            img.px@,
            img.h as int,
            offset as int,
            horizon_y as int,
            img.h as int,
            0,
        ),
{
    let ghost rw = r.w as int;
    let ghost start = r.pixels();
    let ghost ih = img.h as int;
    let h = img.h;
    let n_px = img.px.len();
    proof {
        vstd::arithmetic::mul::lemma_mul_is_commutative(h as int, W as int);
    }
    assert(r.pixels() =~= hills_over(start, rw, img.px@, ih, offset as int, horizon_y as int, 0, 0));
    let mut py: usize = 0;
    while py < h
        invariant
            r.wf(),
            r.w == old(r).w,
            r.h == old(r).h,
            r.pal == old(r).pal,
            rw == r.w,
            rw >= 1,
            start == old(r).pixels(),
            ih == h,
            h == img.h,
            h <= i32::MAX,
            img.px@.len() >= h * W,
            h * W <= usize::MAX,
            horizon_y - h >= i32::MIN,
            offset + W <= i32::MAX,
            0 <= py <= h,
            r.pixels() == hills_over(start, rw, img.px@, ih, offset as int, horizon_y as int, py as int, 0),
        decreases h - py,
    {
        let row_y = horizon_y - h as i32 + py as i32;
        if row_y < 0 || row_y >= horizon_y {
            proof {
                assert forall|k: int| 0 <= k < start.len() implies hill_drawn(
                    rw,
                    img.px@,
                    ih,
                    offset as int,
                    horizon_y as int,
                    py + 1,
                    0,
                    k,
                ) == hill_drawn(rw, img.px@, ih, offset as int, horizon_y as int, py as int, 0, k) by {
                    crate::framebuffer::lemma_pixel_offset(rw, k);
                }
                assert(r.pixels() =~= hills_over(
                    start,
                    rw,
                    img.px@,
                    ih,
                    offset as int,
                    horizon_y as int,
                    py + 1,
                    0,
                ));
            }
            py += 1;
            continue;
        }
        assert(r.pixels() =~= hills_over(start, rw, img.px@, ih, offset as int, horizon_y as int, py as int, 0));
        let mut x: usize = 0;
        while x < W
            invariant
                r.wf(),
                r.w == old(r).w,
                r.h == old(r).h,
                r.pal == old(r).pal,
                rw == r.w,
                rw >= 1,
                start == old(r).pixels(),
                ih == h,
                h == img.h,
                img.px@.len() >= h * W,
                h * W <= usize::MAX,
                offset + W <= i32::MAX,
                0 <= py < h,
                0 <= row_y < horizon_y,
                row_y == horizon_y - h + py,
                0 <= x <= W,
                r.pixels() == hills_over(start, rw, img.px@, ih, offset as int, horizon_y as int, py as int, x as int),
            decreases W - x,
        {
            let v = x as i32 + offset;
            let sx = match v.checked_rem_euclid(W as i32) {
                Some(m) => m as usize,
                None => 0,
            };
            proof {
                vstd::arithmetic::mul::lemma_mul_inequality(py as int + 1, h as int, W as int);
                vstd::arithmetic::mul::lemma_mul_is_distributive_add_other_way(W as int, py as int, 1);
            }
            let ghost before = r.pixels();
            let ghost target = hills_over(start, rw, img.px@, ih, offset as int, horizon_y as int, py as int, x + 1);
            let ghost kx = row_y * rw + x;
            assert(sx == (x as int + offset as int) % (W as int));
            match img.px[py * W + sx] {
                Some(c) => {
                    let xi = x as i32;
                    assert(xi as int == x as int);
                    r.set(xi, row_y, c);
                    proof {
                        if x < rw && row_y < r.h {
                            crate::framebuffer::lemma_pixel_coords(rw, row_y as int, x as int);
                            crate::framebuffer::lemma_pixel_index_in_bounds(rw, r.h as int, x as int, row_y as int);
                        }
                        assert forall|k: int| 0 <= k < start.len() implies #[trigger] r.pixels()[k] == target[k] by {
                            crate::framebuffer::lemma_pixel_offset(rw, k);
                            crate::framebuffer::lemma_pixel_in_rows(rw, r.h as int, k);
                            if k / rw == row_y && k % rw == x {
                                assert(k == kx);
                                assert(x < rw && row_y < r.h);
                                assert(r.pixels()[k] == c);
                                assert(hill_drawn(rw, img.px@, ih, offset as int, horizon_y as int, py as int, x + 1, k));
                                assert(hill_color(rw, img.px@, ih, offset as int, horizon_y as int, k) == c);
                            } else {
                                if x < rw && row_y < r.h {
                                    assert(k != kx);
                                    assert(r.pixels() == before.update(kx, c));
                                    assert(r.pixels()[k] == before[k]);
                                } else {
                                    assert(r.pixels() == before);
                                }
                            }
                        }
                    }
                },
                None => {
                    proof {
                        assert forall|k: int| 0 <= k < start.len() implies #[trigger] r.pixels()[k] == target[k] by {
                            crate::framebuffer::lemma_pixel_offset(rw, k);
                        }
                    }
                },
            }
            assert(r.pixels() =~= target);
            x += 1;
        }
        proof {
            assert forall|k: int| 0 <= k < start.len() implies hill_drawn(
                rw,
                img.px@,
                ih,
                offset as int,
                horizon_y as int,
                py + 1,
                0,
                k,
            ) == hill_drawn(rw, img.px@, ih, offset as int, horizon_y as int, py as int, W as int, k) by {
                crate::framebuffer::lemma_pixel_offset(rw, k);
            }
            assert(r.pixels() =~= hills_over(start, rw, img.px@, ih, offset as int, horizon_y as int, py + 1, 0));
        }
        py += 1;
    }
}

} // verus!
