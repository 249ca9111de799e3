use std::collections::HashMap;
use vstd::prelude::*;

verus! {

broadcast use vstd::std_specs::hash::group_hash_axioms;

/// What character `ch` of a sprite map shows: the palette index its code
/// is mapped to, or transparency when it has none.
pub open spec fn map_color(colors: Map<u32, u8>, ch: char) -> Option<u8> {
    if colors.contains_key(ch as u32) {
        Some(colors[ch as u32])
    } else {
        None
    }
}

/// Pixels of a sprite built from the rows of a character map: `w` columns
/// per row, each row's characters beyond `w` dropped and short rows padded
/// with transparency.
pub open spec fn map_pixels(rows: Seq<Seq<char>>, w: nat, colors: Map<u32, u8>) -> Seq<Option<u8>> {
    Seq::new(
        rows.len() * w,
        |k: int|
            if k % (w as int) < rows[k / (w as int)].len() {
                map_color(colors, rows[k / (w as int)][k % (w as int)])
            } else {
                None
            },
    )
}

/// `px` with every pixel showing index `from` switched to index `to`.
pub open spec fn remap_pixels(px: Seq<Option<u8>>, from: u8, to: u8) -> Seq<Option<u8>> {
    Seq::new(px.len(), |k: int| if px[k] == Some(from) { Some(to) } else { px[k] })
}

/// Remapping an index to itself changes nothing.
pub proof fn lemma_remap_same_index(px: Seq<Option<u8>>, c: u8)
    ensures
        remap_pixels(px, c, c) == px,
{
    assert(remap_pixels(px, c, c) =~= px);
}

/// After remapping `from` to a different index, no pixel shows `from`.
pub proof fn lemma_remap_clears_source(px: Seq<Option<u8>>, from: u8, to: u8)
    requires
        from != to,
    ensures
        forall|k: int| 0 <= k < px.len() ==> remap_pixels(px, from, to)[k] != Some(from),
{
}

/// A pre-rendered sprite: palette-indexed pixels, row by row, `None` being
/// transparent.
#[derive(Clone)]
pub struct Sprite {
    pub w: usize,
    pub h: usize,
    pub px: Vec<Option<u8>>,
}

impl Sprite {
    /// Build a sprite from an ASCII character map. `colors` maps each
    /// character's code to a palette index; any unmapped character is
    /// transparent. The first row sets the width; longer rows are cut and
    /// shorter ones padded with transparency.
    pub fn from_map(map: &[&str], colors: &HashMap<u32, u8>) -> (s: Self)
        requires
            map@.len() > 0,
            map@.len() * map@[0]@.len() <= usize::MAX,
        ensures
            s.h == map@.len(),
            s.w == map@[0]@.len(),
            s.px@ == map_pixels(map@.map_values(|r: &str| r@), map@[0]@.len(), colors@),
    {
        let h = map.len();
        let mut w: usize = 0;
        let first = map[0];
        for _ch in it: first.chars()
            invariant
                it.seq() == map@[0]@,
                w == it.index(),
                w <= map@[0]@.len(),
                map@.len() * map@[0]@.len() <= usize::MAX,
                map@.len() > 0,
        {
            proof {
                vstd::arithmetic::mul::lemma_mul_inequality(1, map@.len() as int, map@[0]@.len() as int);
            }
            w += 1;
        }
        let ghost rows = map@.map_values(|r: &str| r@);
        let ghost target = map_pixels(rows, w as nat, colors@);
        let mut px: Vec<Option<u8>> = Vec::new();
        let mut i: usize = 0;
        while i < h
            invariant
                h == map@.len(),
                w == map@[0]@.len(),
                h * w <= usize::MAX,
                rows == map@.map_values(|r: &str| r@),
                target == map_pixels(rows, w as nat, colors@),
                0 <= i <= h,
                px@ == target.take(i * w),
            decreases h - i,
        {
            proof {
                vstd::arithmetic::mul::lemma_mul_inequality(i as int + 1, h as int, w as int);
                vstd::arithmetic::mul::lemma_mul_is_distributive_add_other_way(w as int, i as int, 1);
            }
            let row = map[i];
            let mut j: usize = 0;
            for ch in it: row.chars()
                invariant
                    it.seq() == row@,
                    row@ == rows[i as int],
                    j == if it.index() < w { it.index() } else { w as int },
                    h == map@.len(),
                    rows.len() == h,
                    w == map@[0]@.len(),
                    h * w <= usize::MAX,
                    (i + 1) * w <= h * w,
                    (i + 1) * w == i * w + w,
                    rows == map@.map_values(|r: &str| r@),
                    target == map_pixels(rows, w as nat, colors@),
                    0 <= i < h,
                    px@ == target.take(i * w + j),
            {
                if j < w {
                    let p = match colors.get(&(ch as u32)) {
                        Some(c) => Some(*c),
                        None => None,
                    };
                    proof {
                        crate::framebuffer::lemma_pixel_coords(w as int, i as int, j as int);
                        assert(j == it.index());
                        assert(target[i * w + j] == p);
                        assert(target.take(i * w + j + 1) =~= target.take(i * w + j).push(p));
                    }
                    px.push(p);
                    j += 1;
                }
            }
            let mut k: usize = j;
            while k < w
                invariant
                    j == if row@.len() < w { row@.len() as int } else { w as int },
                    row@ == rows[i as int],
                    h == map@.len(),
                    rows.len() == h,
                    w == map@[0]@.len(),
                    h * w <= usize::MAX,
                    (i + 1) * w == i * w + w,
                    (i + 1) * w <= h * w,
                    target == map_pixels(rows, w as nat, colors@),
                    0 <= i < h,
                    j <= k <= w,
                    px@ == target.take(i * w + k),
                decreases w - k,
            {
                proof {
                    crate::framebuffer::lemma_pixel_coords(w as int, i as int, k as int);
                    assert(target[i * w + k] == None::<u8>);
                    assert(target.take(i * w + k + 1) =~= target.take(i * w + k).push(None));
                }
                px.push(None);
                k += 1;
            }
            i += 1;
        }
        assert(px@ =~= target);
        Sprite { w, h, px }
    }

    /// A copy with every pixel of index `from` switched to index `to`
    /// (sprite color variants).
    pub fn remap(&self, from: u8, to: u8) -> (s: Self)
        ensures
            s.w == self.w,
            s.h == self.h,
            s.px@ == remap_pixels(self.px@, from, to),
    {
        let mut px: Vec<Option<u8>> = Vec::new();
        let mut k: usize = 0;
        while k < self.px.len()
            invariant
                0 <= k <= self.px@.len(),
                px@ == remap_pixels(self.px@, from, to).take(k as int),
            decreases self.px@.len() - k,
        {
            let p = match self.px[k] {
                Some(c) => if c == from {
                    Some(to)
                } else {
                    Some(c)
                },
                None => None,
            };
            px.push(p);
            k += 1;
            assert(px@ =~= remap_pixels(self.px@, from, to).take(k as int));
        }
        assert(px@ =~= remap_pixels(self.px@, from, to));
        Sprite { w: self.w, h: self.h, px }
    }

    /// Generate a `w` by `h` sprite procedurally, asking `f` for the pixel at
    /// each column `x` and row `y`.
    pub fn generate<F: Fn(usize, usize) -> Option<u8>>(w: usize, h: usize, f: F) -> (s: Self)
        requires
            w * h <= usize::MAX,
            forall|x: usize, y: usize| x < w && y < h ==> f.requires((x, y)),
        ensures
            s.w == w,
            s.h == h,
            s.px@.len() == w * h,
            forall|x: int, y: int|
                0 <= x < w && 0 <= y < h ==> f.ensures((x as usize, y as usize), #[trigger] s.px@[y * w + x]),
    {
        let mut px: Vec<Option<u8>> = Vec::new();
        let mut y: usize = 0;
        while y < h
            invariant
                w * h <= usize::MAX,
                forall|x: usize, y: usize| x < w && y < h ==> f.requires((x, y)),
                0 <= y <= h,
                px@.len() == y * w,
                forall|k: int|
                    0 <= k < px@.len() ==> f.ensures(((k % w as int) as usize, (k / w as int) as usize), #[trigger] px@[k]),
            decreases h - y,
        {
            proof {
                vstd::arithmetic::mul::lemma_mul_inequality(y as int + 1, h as int, w as int);
                vstd::arithmetic::mul::lemma_mul_is_distributive_add_other_way(w as int, y as int, 1);
                vstd::arithmetic::mul::lemma_mul_is_commutative(w as int, h as int);
            }
            let mut x: usize = 0;
            while x < w
                invariant
                    w * h <= usize::MAX,
                    forall|x: usize, y: usize| x < w && y < h ==> f.requires((x, y)),
                    0 <= y < h,
                    0 <= x <= w,
                    (y + 1) * w == y * w + w,
                    (y + 1) * w <= w * h,
                    px@.len() == y * w + x,
                    forall|k: int|
                        0 <= k < px@.len() ==> f.ensures(((k % w as int) as usize, (k / w as int) as usize), #[trigger] px@[k]),
                decreases w - x,
            {
                let p = f(x, y);
                proof {
                    crate::framebuffer::lemma_pixel_coords(w as int, y as int, x as int);
                }
                px.push(p);
                x += 1;
            }
            y += 1;
        }
        proof {
            vstd::arithmetic::mul::lemma_mul_is_commutative(w as int, h as int);
            assert forall|x: int, y: int| 0 <= x < w && 0 <= y < h implies f.ensures(
                (x as usize, y as usize),
                #[trigger] px@[y * w + x],
            ) by {
                vstd::arithmetic::mul::lemma_mul_inequality(y, h as int - 1, w as int);
                vstd::arithmetic::mul::lemma_mul_is_distributive_sub_other_way(w as int, h as int, 1);
                crate::framebuffer::lemma_pixel_coords(w as int, y, x);
            }
        }
        Sprite { w, h, px }
    }
}

} // verus!
