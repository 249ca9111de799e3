use crate::background::SkyTheme;
use crate::framebuffer::{lemma_palette_set_all, palette_set_all, Palette};
use crate::sprite::Sprite;
use vstd::prelude::*;

verus! {

/// Palette indices for the road surface, verge and markings, alternating
/// between a light (`_a`) and a dark (`_b`) shade every two segments.
#[derive(Clone, Copy)]
pub struct RoadColors {
    pub grass_a: u8,
    pub grass_b: u8,
    pub road_a: u8,
    pub road_b: u8,
    pub rumble_a: u8,
    pub rumble_b: u8,
    pub lane: u8,
    pub checker_a: u8,
    pub checker_b: u8,
}

/// The colors, sky and hills of one track.
pub struct TrackTheme {
    pub road: RoadColors,
    pub sky: SkyTheme,
    /// Distant hill silhouette strip (640 wide).
    pub hills_img: Sprite,
    /// Precomputed palette-cycling variants for each sky band (4 per band).
    pub sky_cycle: Vec<Vec<[u8; 3]>>,
}

/// Which of the four sky variants frame number `frame` shows: each one is
/// held for six frames.
pub open spec fn cycle_variant(frame: u32) -> int {
    ((frame / 6) % 4) as int
}

/// The sky variants repeat every 24 frames.
pub proof fn lemma_cycle_period(frame: u32)
    requires
        frame + 24 <= u32::MAX,
    ensures
        cycle_variant((frame + 24) as u32) == cycle_variant(frame),
{
    assert(((frame + 24) as u32) / 6 == frame / 6 + 4);
}

/// Palette cycling touches only the sky bands: every other entry keeps its
/// color, and the palette keeps its size.
pub proof fn lemma_cycle_touches_only_bands(
    colors: Seq<[u8; 3]>,
    index: Map<u32, u8>,
    bands: Seq<u8>,
    cs: Seq<[u8; 3]>,
    j: int,
)
    requires
        0 <= j < colors.len(),
        forall|i: int| 0 <= i < bands.len() ==> bands[i] != j,
    ensures
        palette_set_all(colors, index, bands, cs).0.len() == colors.len(),
        palette_set_all(colors, index, bands, cs).0[j] == colors[j],
    decreases bands.len(),
{
    if bands.len() > 0 {
        lemma_cycle_touches_only_bands(colors, index, bands.drop_last(), cs, j);
        assert(bands.last() != j);
    }
}

impl TrackTheme {
    /// The band colors shown at frame `frame`, one per sky band.
    pub open spec fn cycled_colors(&self, frame: u32) -> Seq<[u8; 3]> {
        Seq::new(self.sky.bands@.len(), |i: int| self.sky_cycle@[i]@[cycle_variant(frame)])
    }

    /// Period-correct palette cycling: overwrite each sky band's palette
    /// entry with the variant frame `frame` shows.
    pub fn cycle_sky(&self, pal: &mut Palette, frame: u32)
        requires
            old(pal).wf(),
            self.sky_cycle@.len() >= self.sky.bands@.len(),
            forall|i: int|
                0 <= i < self.sky.bands@.len() ==> #[trigger] self.sky_cycle@[i]@.len() > cycle_variant(
                    frame,
                ),
        ensures
            final(pal).wf(),
            (final(pal).colors(), final(pal).index()) == palette_set_all(
                old(pal).colors(),
                old(pal).index(),
                self.sky.bands@,
                self.cycled_colors(frame),
            ),
    {
        let v = ((frame / 6) % 4) as usize;
        let n = self.sky.bands.len();
        let mut i: usize = 0;
        while i < n
            invariant
                n == self.sky.bands@.len(),
                v == cycle_variant(frame),
                self.sky_cycle@.len() >= n,
                forall|i: int| 0 <= i < n ==> #[trigger] self.sky_cycle@[i]@.len() > v,
                0 <= i <= n,
                pal.wf(),
                (pal.colors(), pal.index()) == palette_set_all(
                    old(pal).colors(),
                    old(pal).index(),
                    self.sky.bands@.take(i as int),
                    self.cycled_colors(frame),
                ),
            decreases n - i,
        {
            let c = self.sky_cycle[i][v];
            pal.set(self.sky.bands[i] as usize, c);
            proof {
                assert(self.sky.bands@.take(i + 1).drop_last() =~= self.sky.bands@.take(i as int));
            }
            i += 1;
        }
        assert(self.sky.bands@.take(n as int) =~= self.sky.bands@);
    }
}

} // verus!
