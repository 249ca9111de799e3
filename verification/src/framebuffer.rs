use std::collections::HashMap;
use vstd::prelude::*;

verus! {

broadcast use vstd::std_specs::hash::group_hash_axioms;

/// Width of the internal framebuffer in pixels.
pub const W: usize = 640;

/// Height of the internal framebuffer in pixels.
pub const H: usize = 256;

/// The lookup key of a color: its three channels packed as `0xRRGGBB`.
pub open spec fn rgb_key(c: [u8; 3]) -> u32 {
    (c[0] * 65536 + c[1] * 256 + c[2]) as u32
}

/// Two colors share a key only when they are the same color.
pub proof fn lemma_rgb_key_injective(a: [u8; 3], b: [u8; 3])
    ensures
        rgb_key(a) == rgb_key(b) <==> a == b,
{
    if rgb_key(a) == rgb_key(b) {
        assert(a[0] == b[0] && a[1] == b[1] && a[2] == b[2]);
        assert(a =~= b);
    }
}

fn rgb_key_of(r: u8, g: u8, b: u8) -> (k: u32)
    ensures
        k == rgb_key([r, g, b]),
{
    (r as u32) * 65536 + (g as u32) * 256 + (b as u32)
}

/// The palette model is consistent: at most 256 entries, and every indexed
/// key points at an entry holding exactly that color.
pub open spec fn palette_consistent(colors: Seq<[u8; 3]>, index: Map<u32, u8>) -> bool {
    &&& colors.len() <= 256
    &&& forall|k: u32|
        #![trigger index[k]]
        index.contains_key(k) ==> (index[k] as int) < colors.len() && rgb_key(
            colors[index[k] as int],
        ) == k
}

/// What registering `c` does to the palette model: a color already indexed
/// gives back its index and changes nothing; any other color is appended.
pub open spec fn palette_add(colors: Seq<[u8; 3]>, index: Map<u32, u8>, c: [u8; 3]) -> (
    Seq<[u8; 3]>,
    Map<u32, u8>,
    u8,
) {
    if index.contains_key(rgb_key(c)) {
        (colors, index, index[rgb_key(c)])
    } else {
        (colors.push(c), index.insert(rgb_key(c), colors.len() as u8), colors.len() as u8)
    }
}

/// What overwriting entry `i` with `c` does to the palette model.
pub open spec fn palette_set(colors: Seq<[u8; 3]>, index: Map<u32, u8>, i: int, c: [u8; 3]) -> (
    Seq<[u8; 3]>,
    Map<u32, u8>,
) {
    if 0 <= i < colors.len() {
        (colors.update(i, c), index.remove(rgb_key(colors[i])).insert(rgb_key(c), i as u8))
    } else {
        (colors, index)
    }
}

/// Registering a color keeps the palette consistent, and the returned
/// index holds that color.
pub proof fn lemma_palette_add_consistent(colors: Seq<[u8; 3]>, index: Map<u32, u8>, c: [u8; 3])
    requires
        palette_consistent(colors, index),
        index.contains_key(rgb_key(c)) || colors.len() < 256,
    ensures
        palette_consistent(palette_add(colors, index, c).0, palette_add(colors, index, c).1),
        palette_add(colors, index, c).0[palette_add(colors, index, c).2 as int] == c,
        (palette_add(colors, index, c).2 as int) < palette_add(colors, index, c).0.len(),
{
    let (cs, ix, i) = palette_add(colors, index, c);
    if index.contains_key(rgb_key(c)) {
        let j = index[rgb_key(c)];
        lemma_rgb_key_injective(colors[j as int], c);
    } else {
        assert forall|k: u32| #![trigger ix[k]] ix.contains_key(k) implies (ix[k] as int) < cs.len()
            && rgb_key(cs[ix[k] as int]) == k by {
            if k != rgb_key(c) {
                assert(index.contains_key(k));
                assert(index[k] == ix[k]);
            }
        }
    }
}

/// Registering a color twice gives the same index and leaves the palette as
/// the first registration left it.
pub proof fn lemma_palette_add_idempotent(colors: Seq<[u8; 3]>, index: Map<u32, u8>, c: [u8; 3])
    requires
        palette_consistent(colors, index),
        index.contains_key(rgb_key(c)) || colors.len() < 256,
    ensures
        ({
            let (cs1, ix1, i1) = palette_add(colors, index, c);
            let (cs2, ix2, i2) = palette_add(cs1, ix1, c);
            cs2 == cs1 && ix2 == ix1 && i2 == i1
        }),
{
}

/// Overwriting an entry keeps the palette consistent.
pub proof fn lemma_palette_set_consistent(
    colors: Seq<[u8; 3]>,
    index: Map<u32, u8>,
    i: int,
    c: [u8; 3],
)
    requires
        palette_consistent(colors, index),
    ensures
        palette_consistent(palette_set(colors, index, i, c).0, palette_set(colors, index, i, c).1),
{
    if 0 <= i < colors.len() {
        let (cs, ix) = palette_set(colors, index, i, c);
        assert forall|k: u32| #![trigger ix[k]] ix.contains_key(k) implies (ix[k] as int) < cs.len()
            && rgb_key(cs[ix[k] as int]) == k by {
            if k != rgb_key(c) {
                assert(index.contains_key(k));
                assert(k != rgb_key(colors[i]));
                if index[k] as int == i {
                    assert(false);
                }
            }
        }
    }
}

/// A 256-color palette that hands out one index per distinct color.
#[derive(Clone)]
pub struct Palette {
    colors: Vec<[u8; 3]>,
    map: HashMap<u32, u8>,
}

impl Palette {
    /// The palette entries, in index order.
    pub closed spec fn colors(&self) -> Seq<[u8; 3]> {
        self.colors@
    }

    /// The color-to-index lookup table, keyed by `rgb_key`.
    pub closed spec fn index(&self) -> Map<u32, u8> {
        self.map@
    }

    /// The lookup table and the entries agree (see `palette_consistent`).
    pub open spec fn wf(&self) -> bool {
        palette_consistent(self.colors(), self.index())
    }

    /// An empty palette.
    pub fn new() -> (p: Self)
        ensures
            p.wf(),
            p.colors() == Seq::<[u8; 3]>::empty(),
            p.index() == Map::<u32, u8>::empty(),
    {
        Palette { colors: Vec::new(), map: HashMap::new() }
    }

    /// Register a color and return its palette index; a color already in the
    /// lookup table gets its existing index.
    pub fn add(&mut self, r: u8, g: u8, b: u8) -> (i: u8)
        requires
            old(self).wf(),
            old(self).index().contains_key(rgb_key([r, g, b])) || old(self).colors().len() < 256,
        ensures
            final(self).wf(),
            (final(self).colors(), final(self).index(), i) == palette_add(
                old(self).colors(),
                old(self).index(),
                [r, g, b],
            ),
            final(self).colors()[i as int] == [r, g, b],
            (i as int) < final(self).colors().len(),
    {
        proof {
            lemma_palette_add_consistent(self.colors@, self.map@, [r, g, b]);
        }
        let c = [r, g, b];
        let key = rgb_key_of(r, g, b);
        match self.map.get(&key) {
            Some(i) => {
                return *i;
            },
            None => {},
        }
        let i = self.colors.len() as u8;
        self.colors.push(c);
        self.map.insert(key, i);
        i
    }

    /// The color at index `i`, clamped to the last entry.
    pub fn get(&self, i: usize) -> (c: [u8; 3])
        requires
            self.colors().len() > 0,
        ensures
            c == self.colors()[if i < self.colors().len() {
                i as int
            } else {
                self.colors().len() - 1
            }],
    {
        let last = self.colors.len() - 1;
        let j = if i < last {
            i
        } else {
            last
        };
        self.colors[j]
    }

    /// Overwrite entry `i` (used for color cycling); out-of-range indices are
    /// ignored.
    pub fn set(&mut self, i: usize, c: [u8; 3])
        requires
            old(self).wf(),
        ensures
            final(self).wf(),
            (final(self).colors(), final(self).index()) == palette_set(
                old(self).colors(),
                old(self).index(),
                i as int,
                c,
            ),
    {
        proof {
            lemma_palette_set_consistent(self.colors@, self.map@, i as int, c);
        }
        if i < self.colors.len() {
            let old_key = rgb_key_of(self.colors[i][0], self.colors[i][1], self.colors[i][2]);
            assert([self.colors@[i as int][0], self.colors@[i as int][1], self.colors@[i as int][2]]
                =~= self.colors@[i as int]);
            self.map.remove(&old_key);
            self.colors.set(i, c);
            let new_key = rgb_key_of(c[0], c[1], c[2]);
            assert([c[0], c[1], c[2]] =~= c);
            self.map.insert(new_key, i as u8);
        }
    }

    /// Whether registering the colors `cs` in order finds room for every
    /// new one: what registering them asks of the palette.
    pub fn fits_all(&self, cs: &[[u8; 3]]) -> (b: bool)
        requires
            self.wf(),
        ensures
            b == palette_fits_all(self.colors(), self.index(), cs@),
    {
        let mut colors: Vec<[u8; 3]> = Vec::new();
        let mut i: usize = 0;
        while i < self.colors.len()
            invariant
                0 <= i <= self.colors@.len(),
                colors@ == self.colors@.take(i as int),
            decreases self.colors@.len() - i,
        {
            colors.push(self.colors[i]);
            i += 1;
            assert(colors@ =~= self.colors@.take(i as int));
        }
        assert(colors@ =~= self.colors@);
        let mut scratch = Palette { colors, map: self.map.clone() };
        let mut j: usize = 0;
        while j < cs.len()
            invariant
                0 <= j <= cs@.len(),
                scratch.wf(),
                scratch.colors() == palette_add_all(self.colors(), self.index(), cs@.take(j as int)).0,
                scratch.index() == palette_add_all(self.colors(), self.index(), cs@.take(j as int)).1,
                palette_fits_all(self.colors(), self.index(), cs@.take(j as int)),
            decreases cs@.len() - j,
        {
            let c = cs[j];
            assert([c[0], c[1], c[2]] =~= c);
            assert(cs@.take(j + 1).drop_last() =~= cs@.take(j as int));
            let key = rgb_key_of(c[0], c[1], c[2]);
            if !(scratch.map.contains_key(&key) || scratch.colors.len() < 256) {
                proof {
                    if palette_fits_all(self.colors(), self.index(), cs@) {
                        lemma_fits_prefix(self.colors(), self.index(), cs@, j + 1);
                    }
                }
                return false;
            }
            scratch.add(c[0], c[1], c[2]);
            proof {
                lemma_add_all_push(self.colors(), self.index(), cs@.take(j as int), c);
                assert(cs@.take(j as int).push(c) =~= cs@.take(j + 1));
            }
            j += 1;
        }
        assert(cs@.take(cs@.len() as int) =~= cs@);
        true
    }

    /// Number of palette entries.
    pub fn len(&self) -> (n: usize)
        ensures
            n == self.colors().len(),
    {
        self.colors.len()
    }
}


/// Lowest column a span from `x0` to `x1` touches once clamped to the screen.
pub open spec fn span_lo(x0: int, x1: int) -> int {
    let lo = if x0 <= x1 { x0 } else { x1 };
    if lo < 0 { 0 } else { lo }
}

/// Highest column a span from `x0` to `x1` touches once clamped to a screen
/// `w` pixels wide.
pub open spec fn span_hi(x0: int, x1: int, w: int) -> int {
    let hi = if x0 <= x1 { x1 } else { x0 };
    if hi < w - 1 { hi } else { w - 1 }
}

/// Pixel `k` of a `w`-wide, `h`-high buffer lies on the clamped horizontal
/// line at row `y` from `x0` to `x1`.
pub open spec fn hline_covers(w: int, h: int, y: int, x0: int, x1: int, k: int) -> bool {
    &&& 0 <= y < h
    &&& k / w == y
    &&& span_lo(x0, x1) <= k % w <= span_hi(x0, x1, w)
}

/// Pixel `k` of a `w`-wide, `h`-high buffer lies in the clamped rectangle
/// with corners `(x0, y0)` and `(x1, y1)` (rows from `y0` up to `y1`).
pub open spec fn rect_covers(w: int, h: int, x0: int, y0: int, x1: int, y1: int, k: int) -> bool {
    &&& (if y0 < 0 { 0 } else { y0 }) <= k / w
    &&& k / w <= (if y1 < h - 1 { y1 } else { h - 1 })
    &&& span_lo(x0, x1) <= k % w <= span_hi(x0, x1, w)
}

/// `px` with every pixel that `covered` selects set to `c`.
pub open spec fn paint(px: Seq<u8>, covered: spec_fn(int) -> bool, c: u8) -> Seq<u8> {
    Seq::new(px.len(), |k: int| if covered(k) { c } else { px[k] })
}

/// Row and column of the pixel at offset `y * w + x`.
pub proof fn lemma_pixel_coords(w: int, y: int, x: int)
    requires
        0 <= x < w,
        0 <= y,
    ensures
        (y * w + x) / w == y,
        (y * w + x) % w == x,
{
    vstd::arithmetic::div_mod::lemma_fundamental_div_mod_converse(y * w + x, w, y, x);
}

/// Offset of the pixel in row `k / w`, column `k % w`.
pub proof fn lemma_pixel_offset(w: int, k: int)
    requires
        0 < w,
        0 <= k,
    ensures
        k == (k / w) * w + k % w,
        0 <= k % w < w,
        0 <= k / w,
{
    vstd::arithmetic::div_mod::lemma_fundamental_div_mod(k, w);
    vstd::arithmetic::mul::lemma_mul_is_commutative(w, k / w);
    vstd::arithmetic::div_mod::lemma_div_pos_is_pos(k, w);
}

/// The pixel at column `x`, row `y` lies inside a `w * h` buffer.
pub proof fn lemma_pixel_index_in_bounds(w: int, h: int, x: int, y: int)
    requires
        0 <= x < w,
        0 <= y < h,
    ensures
        0 <= y * w + x < w * h,
{
    vstd::arithmetic::mul::lemma_mul_inequality(y, h - 1, w);
    vstd::arithmetic::mul::lemma_mul_is_distributive_sub(w, h, 1);
    vstd::arithmetic::mul::lemma_mul_is_commutative(w, h - 1);
    vstd::arithmetic::mul::lemma_mul_nonnegative(y, w);
}

/// A buffer of `w * h` pixels is `h` rows of `w`.
pub proof fn lemma_pixel_in_rows(w: int, h: int, k: int)
    requires
        0 < w,
        0 <= k < w * h,
    ensures
        0 <= k / w < h,
{
    lemma_pixel_offset(w, k);
    if k / w >= h {
        vstd::arithmetic::mul::lemma_mul_inequality(h, k / w, w);
        vstd::arithmetic::mul::lemma_mul_is_commutative(h, w);
    }
}

/// Registering the colors `cs` one after another: the final palette model
/// and the index handed out for each color.
pub open spec fn palette_add_all(colors: Seq<[u8; 3]>, index: Map<u32, u8>, cs: Seq<[u8; 3]>) -> (
    Seq<[u8; 3]>,
    Map<u32, u8>,
    Seq<u8>,
)
    decreases cs.len(),
{
    if cs.len() == 0 {
        (colors, index, Seq::empty())
    } else {
        let (c1, i1, b1) = palette_add_all(colors, index, cs.drop_last());
        let (c2, i2, b) = palette_add(c1, i1, cs.last());
        (c2, i2, b1.push(b))
    }
}

/// Registering one more color after a list is registering the longer
/// list.
pub proof fn lemma_add_all_push(colors: Seq<[u8; 3]>, index: Map<u32, u8>, cs: Seq<[u8; 3]>, c: [u8; 3])
    ensures
        palette_add_all(colors, index, cs.push(c)) == ({
            let (c1, i1, b1) = palette_add_all(colors, index, cs);
            let (c2, i2, b) = palette_add(c1, i1, c);
            (c2, i2, b1.push(b))
        }),
{
    assert(cs.push(c).drop_last() =~= cs);
}

/// Registering `cs` in an empty palette keeps each color once, in order of
/// first appearance: the entries hold no color twice, hold exactly the
/// colors of `cs`, and the lookup table has a key for exactly those colors.
proof fn lemma_add_all_from_empty(cs: Seq<[u8; 3]>)
    ensures
        ({
            let (d, idx, b) = palette_add_all(Seq::empty(), Map::empty(), cs);
            &&& d.no_duplicates()
            &&& forall|c: [u8; 3]| d.contains(c) <==> cs.contains(c)
            &&& forall|c: [u8; 3]| #![trigger idx.contains_key(rgb_key(c))] idx.contains_key(rgb_key(c)) <==> cs.contains(c)
        }),
    decreases cs.len(),
{
    if cs.len() > 0 {
        let prev = cs.drop_last();
        let c = cs.last();
        lemma_add_all_from_empty(prev);
        let (d0, i0, b0) = palette_add_all(Seq::empty(), Map::empty(), prev);
        let (d, idx, b) = palette_add_all(Seq::empty(), Map::empty(), cs);
        assert(cs =~= prev.push(c));
        assert forall|x: [u8; 3]| cs.contains(x) <==> (prev.contains(x) || x == c) by {
            if cs.contains(x) {
                let j = choose|j: int| 0 <= j < cs.len() && cs[j] == x;
                if j < cs.len() - 1 {
                    assert(prev[j] == x);
                }
            }
            if prev.contains(x) {
                let j = choose|j: int| 0 <= j < prev.len() && prev[j] == x;
                assert(cs[j] == x);
            }
            if x == c {
                assert(cs[cs.len() - 1] == x);
            }
        }
        if i0.contains_key(rgb_key(c)) {
            assert(prev.contains(c));
        } else {
            assert(!prev.contains(c));
            assert(!d0.contains(c));
            assert(d =~= d0.push(c));
            assert forall|x: [u8; 3]| d.contains(x) <==> (d0.contains(x) || x == c) by {
                if d.contains(x) {
                    let j = choose|j: int| 0 <= j < d.len() && d[j] == x;
                    if j < d.len() - 1 {
                        assert(d0[j] == x);
                    }
                }
                if d0.contains(x) {
                    let j = choose|j: int| 0 <= j < d0.len() && d0[j] == x;
                    assert(d[j] == x);
                }
                if x == c {
                    assert(d[d.len() - 1] == x);
                }
            }
            assert forall|i: int, j: int| 0 <= i < d.len() && 0 <= j < d.len() && i != j implies d[i] != d[j] by {
                if i == d.len() - 1 {
                    assert(d0.contains(d[j]));
                } else if j == d.len() - 1 {
                    assert(d0.contains(d[i]));
                }
            }
            assert forall|x: [u8; 3]| #![trigger idx.contains_key(rgb_key(x))] idx.contains_key(rgb_key(x)) <==> cs.contains(x) by {
                lemma_rgb_key_injective(x, c);
                assert(i0.contains_key(rgb_key(x)) <==> prev.contains(x));
            }
        }
    }
}

/// A palette built from an empty one by registering the colors `cs` (and
/// nothing else) has one entry per distinct color of `cs`: repeated colors
/// are not counted.
pub proof fn lemma_palette_len_counts_distinct(cs: Seq<[u8; 3]>)
    ensures
        palette_add_all(Seq::empty(), Map::empty(), cs).0.len() == cs.to_set().len(),
{
    lemma_add_all_from_empty(cs);
    let d = palette_add_all(Seq::empty(), Map::empty(), cs).0;
    assert(d.to_set() =~= cs.to_set());
    d.unique_seq_to_set();
}

/// Every color of `cs`, registered in order, either is already indexed or
/// finds a free entry.
pub open spec fn palette_fits_all(colors: Seq<[u8; 3]>, index: Map<u32, u8>, cs: Seq<[u8; 3]>) -> bool
    decreases cs.len(),
{
    cs.len() == 0 || (palette_fits_all(colors, index, cs.drop_last()) && ({
        let (c1, i1, b1) = palette_add_all(colors, index, cs.drop_last());
        i1.contains_key(rgb_key(cs.last())) || c1.len() < 256
    }))
}

/// Fitting a sequence of colors means fitting each of its prefixes.
pub proof fn lemma_fits_prefix(colors: Seq<[u8; 3]>, index: Map<u32, u8>, cs: Seq<[u8; 3]>, n: int)
    requires
        palette_fits_all(colors, index, cs),
        0 <= n <= cs.len(),
    ensures
        palette_fits_all(colors, index, cs.take(n)),
    decreases cs.len(),
{
    if n < cs.len() {
        assert(cs.drop_last().take(n) =~= cs.take(n));
        lemma_fits_prefix(colors, index, cs.drop_last(), n);
    } else {
        assert(cs.take(n) =~= cs);
    }
}

/// Fitting two lists joined means fitting the second one after the first
/// has been registered.
pub proof fn lemma_fits_concat(colors: Seq<[u8; 3]>, index: Map<u32, u8>, a: Seq<[u8; 3]>, b: Seq<[u8; 3]>)
    requires
        palette_fits_all(colors, index, a + b),
    ensures
        palette_fits_all(palette_add_all(colors, index, a).0, palette_add_all(colors, index, a).1, b),
    decreases b.len(),
{
    if b.len() > 0 {
        assert((a + b).drop_last() =~= a + b.drop_last());
        assert((a + b).last() == b.last());
        lemma_fits_concat(colors, index, a, b.drop_last());
        lemma_add_all_concat(colors, index, a, b.drop_last());
    }
}

/// Registering two lists one after the other is registering them joined.
pub proof fn lemma_add_all_concat(colors: Seq<[u8; 3]>, index: Map<u32, u8>, a: Seq<[u8; 3]>, b: Seq<[u8; 3]>)
    ensures
        palette_add_all(colors, index, a + b).0 == palette_add_all(
            palette_add_all(colors, index, a).0,
            palette_add_all(colors, index, a).1,
            b,
        ).0,
        palette_add_all(colors, index, a + b).1 == palette_add_all(
            palette_add_all(colors, index, a).0,
            palette_add_all(colors, index, a).1,
            b,
        ).1,
    decreases b.len(),
{
    if b.len() == 0 {
        assert(a + b =~= a);
    } else {
        lemma_add_all_concat(colors, index, a, b.drop_last());
        assert((a + b).drop_last() =~= a + b.drop_last());
        assert((a + b).last() == b.last());
    }
}

/// Registering colors in order keeps the palette consistent, hands out one
/// index per color, and each index holds its color.
pub proof fn lemma_palette_add_all(colors: Seq<[u8; 3]>, index: Map<u32, u8>, cs: Seq<[u8; 3]>)
    requires
        palette_consistent(colors, index),
        palette_fits_all(colors, index, cs),
    ensures
        ({
            let (c2, i2, b) = palette_add_all(colors, index, cs);
            &&& palette_consistent(c2, i2)
            &&& b.len() == cs.len()
            &&& forall|j: int| #![trigger b[j]] 0 <= j < cs.len() ==> (b[j] as int) < c2.len() && c2[b[j] as int] == cs[j]
            &&& colors.len() <= c2.len()
            &&& c2.take(colors.len() as int) == colors
        }),
    decreases cs.len(),
{
    if cs.len() > 0 {
        lemma_palette_add_all(colors, index, cs.drop_last());
        let (c1, i1, b1) = palette_add_all(colors, index, cs.drop_last());
        lemma_palette_add_consistent(c1, i1, cs.last());
        let (c2, i2, b) = palette_add_all(colors, index, cs);
        assert forall|j: int| #![trigger b[j]] 0 <= j < cs.len() implies (b[j] as int) < c2.len() && c2[b[j] as int]
            == cs[j] by {
            if j < cs.len() - 1 {
                assert(cs.drop_last()[j] == cs[j]);
                assert(b[j] == b1[j]);
                assert(c1.len() <= c2.len());
                if !i1.contains_key(rgb_key(cs.last())) {
                    assert(c2[b[j] as int] == c1[b[j] as int]);
                }
            }
        }
        if !i1.contains_key(rgb_key(cs.last())) {
            assert(c2.take(colors.len() as int) =~= c1.take(colors.len() as int));
        }
        assert(b.len() == cs.len());
    } else {
        assert(colors.take(colors.len() as int) =~= colors);
    }
}

/// Overwriting entries `slots[j]` with `cs[j]` one after another.
pub open spec fn palette_set_all(colors: Seq<[u8; 3]>, index: Map<u32, u8>, slots: Seq<u8>, cs: Seq<[u8; 3]>) -> (
    Seq<[u8; 3]>,
    Map<u32, u8>,
)
    decreases slots.len(),
{
    if slots.len() == 0 {
        (colors, index)
    } else {
        let (c1, i1) = palette_set_all(colors, index, slots.drop_last(), cs);
        palette_set(c1, i1, slots.last() as int, cs[slots.len() - 1])
    }
}

/// Overwriting entries one after another keeps the palette consistent.
pub proof fn lemma_palette_set_all(colors: Seq<[u8; 3]>, index: Map<u32, u8>, slots: Seq<u8>, cs: Seq<[u8; 3]>)
    requires
        palette_consistent(colors, index),
    ensures
        palette_consistent(
            palette_set_all(colors, index, slots, cs).0,
            palette_set_all(colors, index, slots, cs).1,
        ),
    decreases slots.len(),
{
    if slots.len() > 0 {
        lemma_palette_set_all(colors, index, slots.drop_last(), cs);
        let (c1, i1) = palette_set_all(colors, index, slots.drop_last(), cs);
        lemma_palette_set_consistent(c1, i1, slots.last() as int, cs[slots.len() - 1]);
    }
}

/// A palette whose entries were only ever overwritten keeps its length.
pub proof fn lemma_palette_set_all_len(colors: Seq<[u8; 3]>, index: Map<u32, u8>, slots: Seq<u8>, cs: Seq<[u8; 3]>)
    ensures
        palette_set_all(colors, index, slots, cs).0.len() == colors.len(),
    decreases slots.len(),
{
    if slots.len() > 0 {
        lemma_palette_set_all_len(colors, index, slots.drop_last(), cs);
    }
}

/// A software framebuffer: palette indices for `w * h` pixels, row by row,
/// together with the palette they index.
pub struct Renderer {
    pub w: usize,
    pub h: usize,
    pub pal: Palette,
    pub idx: Vec<u8>,
}

impl Renderer {
    /// The palette index of every pixel, row by row.
    pub open spec fn pixels(&self) -> Seq<u8> {
        self.idx@
    }

    /// Dimensions fit the `i32` coordinates the drawing calls take, and
    /// there is one pixel per cell.
    pub open spec fn wf(&self) -> bool {
        &&& self.w <= i32::MAX
        &&& self.h <= i32::MAX
        &&& self.w * self.h <= usize::MAX
        &&& self.pixels().len() == self.w * self.h
    }

    /// A `w` by `h` frame of index 0 with an empty palette.
    pub fn new(w: usize, h: usize) -> (r: Self)
        requires
            w <= i32::MAX,
            h <= i32::MAX,
            w * h <= usize::MAX,
        ensures
            r.wf(),
            r.w == w,
            r.h == h,
            r.pal.wf(),
            r.pal.colors().len() == 0,
            r.pixels() == Seq::new((w * h) as nat, |k: int| 0u8),
    {
        Renderer { w, h, pal: Palette::new(), idx: vec_filled((w * h) as usize, 0) }
    }

    /// A renderer drawing with an already built palette.
    pub fn with_palette(w: usize, h: usize, pal: Palette) -> (r: Self)
        requires
            w <= i32::MAX,
            h <= i32::MAX,
            w * h <= usize::MAX,
        ensures
            r.wf(),
            r.w == w,
            r.h == h,
            r.pal == pal,
            r.pixels() == Seq::new((w * h) as nat, |k: int| 0u8),
    {
        Renderer { w, h, pal, idx: vec_filled((w * h) as usize, 0) }
    }

    /// Set one pixel; coordinates off the screen are ignored.
    pub fn set(&mut self, x: i32, y: i32, c: u8)
        requires
            old(self).wf(),
        ensures
            final(self).wf(),
            final(self).w == old(self).w,
            final(self).h == old(self).h,
            final(self).pal == old(self).pal,
            final(self).pixels() == if 0 <= x < old(self).w && 0 <= y < old(self).h {
                old(self).pixels().update(y * old(self).w + x, c)
            } else {
                old(self).pixels()
            },
    {
        if 0 <= x && 0 <= y && (x as usize) < self.w && (y as usize) < self.h {
            proof {
                vstd::arithmetic::mul::lemma_mul_inequality(y as int, self.h as int - 1, self.w as int);
                vstd::arithmetic::mul::lemma_mul_is_distributive_sub(self.w as int, self.h as int, 1);
                vstd::arithmetic::mul::lemma_mul_is_commutative(self.w as int, self.h as int - 1);
            }
            let k = y as usize * self.w + x as usize;
            self.idx.set(k, c);
        }
    }

    /// Fill every pixel with `c`.
    pub fn clear(&mut self, c: u8)
        requires
            old(self).wf(),
        ensures
            final(self).wf(),
            final(self).w == old(self).w,
            final(self).h == old(self).h,
            final(self).pal == old(self).pal,
            final(self).pixels() == Seq::new(old(self).pixels().len(), |k: int| c),
    {
        let n = self.idx.len();
        let mut k: usize = 0;
        while k < n
            invariant
                n == self.idx@.len(),
                0 <= k <= n,
                self.w == old(self).w,
                self.h == old(self).h,
                self.pal == old(self).pal,
                n == old(self).pixels().len(),
                forall|j: int| 0 <= j < k ==> self.idx@[j] == c,
            decreases n - k,
        {
            self.idx.set(k, c);
            k += 1;
        }
        assert(self.idx@ =~= Seq::new(n as nat, |k: int| c));
    }

    /// Horizontal line on row `y` from `x0` to `x1` inclusive (in either
    /// order), clamped to the screen.
    pub fn hline(&mut self, y: i32, x0: i32, x1: i32, c: u8)
        requires
            old(self).wf(),
            0 <= y < old(self).h ==> old(self).w >= 1,
        ensures
            final(self).wf(),
            final(self).w == old(self).w,
            final(self).h == old(self).h,
            final(self).pal == old(self).pal,
            final(self).pixels() == paint(
                old(self).pixels(),
                |k: int| hline_covers(old(self).w as int, old(self).h as int, y as int, x0 as int, x1 as int, k),
                c,
            ),
    {
        let ghost w = self.w as int;
        let ghost h = self.h as int;
        let ghost covered = |k: int| hline_covers(w, h, y as int, x0 as int, x1 as int, k);
        if y < 0 || (y as usize) >= self.h {
            assert(self.idx@ =~= paint(old(self).pixels(), covered, c));
            return;
        }
        let (lo, hi) = if x0 <= x1 {
            (x0, x1)
        } else {
            (x1, x0)
        };
        let a = if lo < 0 {
            0
        } else {
            lo
        };
        let wm = (self.w - 1) as i32;
        let b = if hi < wm {
            hi
        } else {
            wm
        };
        if a > b {
            assert forall|k: int| 0 <= k < self.idx@.len() implies !#[trigger] covered(k) by {
                lemma_pixel_offset(w, k);
            }
            assert(self.idx@ =~= paint(old(self).pixels(), covered, c));
            return;
        }
        proof {
            vstd::arithmetic::mul::lemma_mul_inequality(y as int, h - 1, w);
            vstd::arithmetic::mul::lemma_mul_is_distributive_sub(w, h, 1);
            vstd::arithmetic::mul::lemma_mul_is_commutative(w, h - 1);
        }
        let row = y as usize * self.w;
        let mut x = a;
        while x <= b
            invariant
                self.wf(),
                self.w == old(self).w,
                self.h == old(self).h,
                self.pal == old(self).pal,
                w == self.w,
                h == self.h,
                0 <= y < h,
                row == y * w,
                row + w <= w * h,
                0 <= a <= b < w,
                a <= x <= b + 1,
                a == span_lo(x0 as int, x1 as int),
                b == span_hi(x0 as int, x1 as int, w),
                self.idx@ == paint(
                    old(self).pixels(),
                    |k: int| k / w == y && a <= k % w < x,
                    c,
                ),
            decreases b + 1 - x,
        {
            let k = row + x as usize;
            let ghost before = self.idx@;
            self.idx.set(k, c);
            proof {
                lemma_pixel_coords(w, y as int, x as int);
                assert forall|j: int| 0 <= j < self.idx@.len() implies self.idx@[j] == (if j / w
                    == y && a <= j % w < x + 1 {
                    c
                } else {
                    old(self).pixels()[j]
                }) by {
                    lemma_pixel_offset(w, j);
                    if j != k {
                        if j / w == y && j % w == x {
                            assert(j == y * w + x);
                        }
                    }
                }
            }
            x += 1;
            assert(self.idx@ =~= paint(
                old(self).pixels(),
                |k: int| k / w == y && a <= k % w < x,
                c,
            ));
        }
        assert(self.idx@ =~= paint(old(self).pixels(), covered, c));
    }

    /// Filled rectangle covering rows `y0..=y1` and columns from `x0` to
    /// `x1`, clamped to the screen.
    pub fn rect(&mut self, x0: i32, y0: i32, x1: i32, y1: i32, c: u8)
        requires
            old(self).wf(),
            old(self).w >= 1,
            old(self).h >= 1,
        ensures
            final(self).wf(),
            final(self).w == old(self).w,
            final(self).h == old(self).h,
            final(self).pal == old(self).pal,
            final(self).pixels() == paint(
                old(self).pixels(),
                |k: int|
                    rect_covers(
                        old(self).w as int,
                        old(self).h as int,
                        x0 as int,
                        y0 as int,
                        x1 as int,
                        y1 as int,
                        k,
                    ),
                c,
            ),
    {
        let ghost w = self.w as int;
        let ghost h = self.h as int;
        let ys = if y0 < 0 {
            0
        } else {
            y0
        };
        let hm = (self.h - 1) as i32;
        let ye = if y1 < hm {
            y1
        } else {
            hm
        };
        if ys > ye {
            assert forall|k: int| 0 <= k < self.idx@.len() implies !rect_covers(
                w,
                h,
                x0 as int,
                y0 as int,
                x1 as int,
                y1 as int,
                k,
            ) by {
                lemma_pixel_offset(w, k);
                lemma_pixel_in_rows(w, h, k);
            }
            assert(self.idx@ =~= paint(
                old(self).pixels(),
                |k: int| rect_covers(w, h, x0 as int, y0 as int, x1 as int, y1 as int, k),
                c,
            ));
            return;
        }
        let mut y = ys;
        while y <= ye
            invariant
                self.wf(),
                self.w == old(self).w,
                self.h == old(self).h,
                self.pal == old(self).pal,
                w == self.w,
                h == self.h,
                w >= 1,
                0 <= ys <= ye < h,
                ys <= y <= ye + 1,
                self.idx@ == paint(
                    old(self).pixels(),
                    |k: int| ys <= k / w < y && span_lo(x0 as int, x1 as int) <= k % w <= span_hi(x0 as int, x1 as int, w),
                    c,
                ),
            decreases ye + 1 - y,
        {
            self.hline(y, x0, x1, c);
            y += 1;
            assert(self.idx@ =~= paint(
                old(self).pixels(),
                |k: int| ys <= k / w < y && span_lo(x0 as int, x1 as int) <= k % w <= span_hi(x0 as int, x1 as int, w),
                c,
            ));
        }
        assert(self.idx@ =~= paint(
            old(self).pixels(),
            |k: int| rect_covers(w, h, x0 as int, y0 as int, x1 as int, y1 as int, k),
            c,
        ));
    }

    /// The frame as RGBA bytes: each pixel's palette color followed by an
    /// opaque alpha of 255.
    pub fn rgba(&self) -> (out: Vec<u8>)
        requires
            self.wf(),
            self.w * self.h * 4 <= usize::MAX,
            self.w * self.h > 0 ==> self.pal.colors().len() > 0,
        ensures
            out@ == rgba_bytes(self.pixels(), self.pal.colors()),
    {
        let n = self.w * self.h;
        let mut out: Vec<u8> = Vec::new();
        let mut i: usize = 0;
        while i < n
            invariant
                n == self.w * self.h,
                n == self.pixels().len(),
                n * 4 <= usize::MAX,
                n > 0 ==> self.pal.colors().len() > 0,
                0 <= i <= n,
                out@ == rgba_bytes(self.pixels().take(i as int), self.pal.colors()),
            decreases n - i,
        {
            let c = self.pal.get(self.idx[i] as usize);
            let ghost prev = out@;
            out.push(c[0]);
            out.push(c[1]);
            out.push(c[2]);
            out.push(255);
            proof {
                let px = self.pixels();
                assert(px.take(i + 1).drop_last() =~= px.take(i as int));
                lemma_rgba_bytes_push(px.take(i as int), px[i as int], self.pal.colors());
                assert(px.take(i as int).push(px[i as int]) =~= px.take(i + 1));
                assert(out@ =~= prev + seq![c[0], c[1], c[2], 255u8]);
            }
            i += 1;
        }
        assert(self.pixels().take(n as int) =~= self.pixels());
        out
    }
}

/// The palette color that pixel value `p` shows: the entry it indexes,
/// clamped to the last one.
pub open spec fn shown_color(colors: Seq<[u8; 3]>, p: u8) -> [u8; 3] {
    colors[if (p as int) < colors.len() { p as int } else { colors.len() - 1 }]
}

/// RGBA bytes of a sequence of pixels: three color channels then 255.
pub open spec fn rgba_bytes(px: Seq<u8>, colors: Seq<[u8; 3]>) -> Seq<u8>
    decreases px.len(),
{
    if px.len() == 0 {
        Seq::empty()
    } else {
        let c = shown_color(colors, px.last());
        rgba_bytes(px.drop_last(), colors) + seq![c[0], c[1], c[2], 255u8]
    }
}

/// Byte `4 * i + j` of the RGBA conversion is channel `j` of pixel `i`'s
/// color, or 255 for the alpha channel.
pub proof fn lemma_rgba_bytes_index(px: Seq<u8>, colors: Seq<[u8; 3]>, i: int, j: int)
    requires
        0 <= i < px.len(),
        0 <= j < 4,
    ensures
        rgba_bytes(px, colors).len() == 4 * px.len(),
        rgba_bytes(px, colors)[4 * i + j] == (if j < 3 {
            shown_color(colors, px[i])[j]
        } else {
            255u8
        }),
    decreases px.len(),
{
    lemma_rgba_bytes_len(px, colors);
    if i < px.len() - 1 {
        lemma_rgba_bytes_index(px.drop_last(), colors, i, j);
    }
}

proof fn lemma_rgba_bytes_len(px: Seq<u8>, colors: Seq<[u8; 3]>)
    ensures
        rgba_bytes(px, colors).len() == 4 * px.len(),
    decreases px.len(),
{
    if px.len() > 0 {
        lemma_rgba_bytes_len(px.drop_last(), colors);
    }
}

proof fn lemma_rgba_bytes_push(px: Seq<u8>, p: u8, colors: Seq<[u8; 3]>)
    ensures
        rgba_bytes(px.push(p), colors) == rgba_bytes(px, colors) + seq![
            shown_color(colors, p)[0],
            shown_color(colors, p)[1],
            shown_color(colors, p)[2],
            255u8,
        ],
{
    assert(px.push(p).drop_last() =~= px);
}

fn vec_filled(n: usize, v: u8) -> (out: Vec<u8>)
    ensures
        out@ == Seq::new(n as nat, |k: int| v),
{
    let mut out: Vec<u8> = Vec::new();
    let mut i: usize = 0;
    while i < n
        invariant
            0 <= i <= n,
            out@ == Seq::new(i as nat, |k: int| v),
        decreases n - i,
    {
        out.push(v);
        i += 1;
        assert(out@ =~= Seq::new(i as nat, |k: int| v));
    }
    out
}

} // verus!
