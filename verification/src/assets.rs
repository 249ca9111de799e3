use crate::framebuffer::{
    lemma_add_all_concat, lemma_add_all_push, lemma_fits_concat, lemma_fits_prefix, palette_add, palette_add_all,
    palette_fits_all, rgb_key, Palette,
};
use crate::theme::RoadColors;
use crate::sprite::{map_color, map_pixels, Sprite};
use std::collections::HashMap;
use vstd::prelude::*;

verus! {

broadcast use vstd::std_specs::hash::group_hash_axioms;

/// Scenery kind: pine tree.
pub const KIND_PINE: u8 = 1;

/// Scenery kind: bush.
pub const KIND_BUSH: u8 = 2;

/// Scenery kind: rock.
pub const KIND_ROCK: u8 = 3;

/// Scenery kind: sign.
pub const KIND_SIGN: u8 = 4;

/// Scenery kind: start-line flag.
pub const KIND_FLAG: u8 = 5;

/// Character map of the cars: `G` glass, `B` body, `D` dark body, `R`
/// tail lights, `T` tires; anything else is transparent.
pub fn car_map() -> (m: &'static [&'static str])
    ensures
        map_rows(m@) == car_rows(),
{
    let m: &'static [&'static str] = &[
        "........GGGGGGGG........",
        "......GGGGGGGGGGGG......",
        "....BBBBGGGGGGGGGGBB....",
        "..BBBBBBBBBBBBBBBBBBBB..",
        ".BBBBBBBBBBBBBBBBBBBBBB.",
        ".BBRRBBBBBBBBBBBBBBRRBB.",
        ".DDDBBBBBBBBBBBBBBBBDDD.",
        "TTTTBBBBBBBBBBBBBBBBTTTT",
        "TTTTDDDDDDDDDDDDDDDDTTTT",
    ];
    assert(map_rows(m@) =~= car_rows());
    m
}

/// The rows of the car map.
pub open spec fn car_rows() -> Seq<Seq<char>> {
    seq![
        "........GGGGGGGG........"@,
        "......GGGGGGGGGGGG......"@,
        "....BBBBGGGGGGGGGGBB...."@,
        "..BBBBBBBBBBBBBBBBBBBB.."@,
        ".BBBBBBBBBBBBBBBBBBBBBB."@,
        ".BBRRBBBBBBBBBBBBBBRRBB."@,
        ".DDDBBBBBBBBBBBBBBBBDDD."@,
        "TTTTBBBBBBBBBBBBBBBBTTTT"@,
        "TTTTDDDDDDDDDDDDDDDDTTTT"@,
    ]
}

/// Character map of a pine tree: `G` needles, `T` trunk.
pub fn pine_map() -> (m: &'static [&'static str])
    ensures
        map_rows(m@) == pine_rows(),
{
    let m: &'static [&'static str] = &[
        "....GG....",
        "...GGGG...",
        "..GGGGGG..",
        "..GGGGGG..",
        ".GGGGGGGG.",
        ".GGGGGGGG.",
        "GGGGGGGGGG",
        "GGGGGGGGGG",
        "....TT....",
        "....TT....",
        "....TT....",
        "....TT....",
        "....TT....",
        "....TT....",
    ];
    assert(map_rows(m@) =~= pine_rows());
    m
}

/// The rows of the pine map.
pub open spec fn pine_rows() -> Seq<Seq<char>> {
    seq![
        "....GG...."@,
        "...GGGG..."@,
        "..GGGGGG.."@,
        "..GGGGGG.."@,
        ".GGGGGGGG."@,
        ".GGGGGGGG."@,
        "GGGGGGGGGG"@,
        "GGGGGGGGGG"@,
        "....TT...."@,
        "....TT...."@,
        "....TT...."@,
        "....TT...."@,
        "....TT...."@,
        "....TT...."@,
    ]
}

/// Character map of a bush: `G` leaves, `L` light leaves.
pub fn bush_map() -> (m: &'static [&'static str])
    ensures
        map_rows(m@) == bush_rows(),
{
    let m: &'static [&'static str] = &[
        "...GGGGGG...",
        ".GLLGGGGLLGG",
        "GGGGGGGGGGGG",
        ".GGGGGGGGGG.",
        ".GGGGGGGGGG.",
        "..GGGGGGGG..",
    ];
    assert(map_rows(m@) =~= bush_rows());
    m
}

/// The rows of the bush map.
pub open spec fn bush_rows() -> Seq<Seq<char>> {
    seq![
        "...GGGGGG..."@,
        ".GLLGGGGLLGG"@,
        "GGGGGGGGGGGG"@,
        ".GGGGGGGGGG."@,
        ".GGGGGGGGGG."@,
        "..GGGGGGGG.."@,
    ]
}

/// Character map of a rock: `K` lit side, `k` shaded side.
pub fn rock_map() -> (m: &'static [&'static str])
    ensures
        map_rows(m@) == rock_rows(),
{
    let m: &'static [&'static str] = &[
        "....KKkk....",
        "..KKKKkkkk..",
        ".KKKKKKkkkk.",
        "KKKKKKKkkkkk",
        ".kkkkkkkkk.",
        "..kkkkkkkk..",
    ];
    assert(map_rows(m@) =~= rock_rows());
    m
}

/// The rows of the rock map.
pub open spec fn rock_rows() -> Seq<Seq<char>> {
    seq![
        "....KKkk...."@,
        "..KKKKkkkk.."@,
        ".KKKKKKkkkk."@,
        "KKKKKKKkkkkk"@,
        ".kkkkkkkkk."@,
        "..kkkkkkkk.."@,
    ]
}

/// Character map of a roadside sign: `W` white frame, `O` orange
/// panels, `P` post.
pub fn sign_map() -> (m: &'static [&'static str])
    ensures
        map_rows(m@) == sign_rows(),
{
    let m: &'static [&'static str] = &[
        "WWWWWWWWWWWWWWWW",
        "WOOOOOOOOOOOOOOW",
        "WOOOOOOOOOOOOOOW",
        "WOOOOOOOOOOOOOOW",
        "WWWWWWWWWWWWWWWW",
        "WOOOOOOOOOOOOOOW",
        "WOOOOOOOOOOOOOOW",
        "WWWWWWWWWWWWWWWW",
        ".......PP.......",
        ".......PP.......",
        ".......PP.......",
    ];
    assert(map_rows(m@) =~= sign_rows());
    m
}

/// The rows of the sign map.
pub open spec fn sign_rows() -> Seq<Seq<char>> {
    seq![
        "WWWWWWWWWWWWWWWW"@,
        "WOOOOOOOOOOOOOOW"@,
        "WOOOOOOOOOOOOOOW"@,
        "WOOOOOOOOOOOOOOW"@,
        "WWWWWWWWWWWWWWWW"@,
        "WOOOOOOOOOOOOOOW"@,
        "WOOOOOOOOOOOOOOW"@,
        "WWWWWWWWWWWWWWWW"@,
        ".......PP......."@,
        ".......PP......."@,
        ".......PP......."@,
    ]
}

/// Character map of a start-line flag: `W` white and `B` black checks,
/// `P` pole.
pub fn flag_map() -> (m: &'static [&'static str])
    ensures
        map_rows(m@) == flag_rows(),
{
    let m: &'static [&'static str] = &[
        "WBWB",
        "BWBW",
        "WBWB",
        "BWBW",
        ".P..",
        ".P..",
        ".P..",
        ".P..",
        ".P..",
        ".P..",
        ".P..",
        ".P..",
        ".P..",
        ".P..",
        ".P..",
        ".P..",
    ];
    assert(map_rows(m@) =~= flag_rows());
    m
}

/// The rows of the flag map.
pub open spec fn flag_rows() -> Seq<Seq<char>> {
    seq![
        "WBWB"@,
        "BWBW"@,
        "WBWB"@,
        "BWBW"@,
        ".P.."@,
        ".P.."@,
        ".P.."@,
        ".P.."@,
        ".P.."@,
        ".P.."@,
        ".P.."@,
        ".P.."@,
        ".P.."@,
        ".P.."@,
        ".P.."@,
        ".P.."@,
    ]
}


/// The character shown at pixel `k` of a sprite built from `rows`, `w`
/// columns wide; pixels past the end of a short row show none.
pub open spec fn cell_char(rows: Seq<Seq<char>>, w: nat, k: int) -> Option<char> {
    if k % (w as int) < rows[k / (w as int)].len() {
        Some(rows[k / (w as int)][k % (w as int)])
    } else {
        None
    }
}

/// Sprite `s` shows the character map `rows` colored by `table` through a
/// palette with entries `colors`: it has the map's size, every character
/// with a table color is an opaque pixel whose palette entry is exactly
/// that color, and every other pixel is transparent.
pub open spec fn sprite_shows(
    s: Sprite,
    rows: Seq<Seq<char>>,
    colors: Seq<[u8; 3]>,
    table: spec_fn(char) -> Option<[u8; 3]>,
) -> bool {
    &&& s.h == rows.len()
    &&& s.w == rows[0].len()
    &&& s.px@.len() == s.h * s.w
    &&& forall|k: int|
        #![trigger s.px@[k]]
        0 <= k < s.px@.len() ==> match s.px@[k] {
            Some(i) => (i as int) < colors.len() && (cell_char(rows, s.w as nat, k) matches Some(
                ch,
            ) && table(ch) == Some(colors[i as int])),
            None => match cell_char(rows, s.w as nat, k) {
                Some(ch) => table(ch) is None,
                None => true,
            },
        }
}

/// The lookup table that inserting `entries` in order builds, keyed by
/// character code.
pub open spec fn entry_map(entries: Seq<(char, u8)>) -> Map<u32, u8>
    decreases entries.len(),
{
    if entries.len() == 0 {
        Map::empty()
    } else {
        entry_map(entries.drop_last()).insert(entries.last().0 as u32, entries.last().1)
    }
}

/// The color `table` gives each character is the palette color of the
/// index `entries` pairs with it, and characters without an entry get none.
pub open spec fn entries_match(
    entries: Seq<(char, u8)>,
    colors: Seq<[u8; 3]>,
    table: spec_fn(char) -> Option<[u8; 3]>,
) -> bool {
    &&& forall|j: int|
        #![trigger entries[j]]
        0 <= j < entries.len() ==> (entries[j].1 as int) < colors.len() && table(entries[j].0)
            == Some(colors[entries[j].1 as int])
    &&& forall|ch: char| #[trigger] table(ch) is Some ==> exists|j: int| 0 <= j < entries.len() && entries[j].0 == ch
}

proof fn lemma_entry_map(entries: Seq<(char, u8)>, ch: char)
    ensures
        entry_map(entries).contains_key(ch as u32) <==> exists|j: int| 0 <= j < entries.len() && entries[j].0 == ch,
        entry_map(entries).contains_key(ch as u32) ==> exists|j: int|
            0 <= j < entries.len() && entries[j].0 == ch && #[trigger] entries[j].1 == entry_map(entries)[ch as u32],
    decreases entries.len(),
{
    if entries.len() > 0 {
        let init = entries.drop_last();
        lemma_entry_map(init, ch);
        let last = entries.last();
        if last.0 as u32 == ch as u32 {
            vstd::utf8::char_u32_cast(last.0, last.0 as u32);
            vstd::utf8::char_u32_cast(ch, ch as u32);
            assert(last.0 == ch);
            assert(entries[entries.len() - 1] == last);
        } else {
            if exists|j: int| 0 <= j < entries.len() && entries[j].0 == ch {
                let j = choose|j: int| 0 <= j < entries.len() && entries[j].0 == ch;
                if j == entries.len() - 1 {
                    assert(last.0 == ch);
                }
                assert(init[j] == entries[j]);
            }
            if entry_map(init).contains_key(ch as u32) {
                let j = choose|j: int|
                    0 <= j < init.len() && init[j].0 == ch && #[trigger] init[j].1 == entry_map(init)[ch as u32];
                assert(entries[j] == init[j]);
            }
        }
    }
}

/// A sprite built from a map with the lookup table of `entries` shows the
/// map colored by `table` when the two agree.
proof fn lemma_sprite_shows(
    s: Sprite,
    rows: Seq<Seq<char>>,
    entries: Seq<(char, u8)>,
    colors: Seq<[u8; 3]>,
    table: spec_fn(char) -> Option<[u8; 3]>,
)
    requires
        rows.len() > 0,
        s.h == rows.len(),
        s.w == rows[0].len(),
        s.px@ == map_pixels(rows, rows[0].len(), entry_map(entries)),
        entries_match(entries, colors, table),
    ensures
        sprite_shows(s, rows, colors, table),
{
    let em = entry_map(entries);
    assert forall|k: int| #![trigger s.px@[k]] 0 <= k < s.px@.len() implies match s.px@[k] {
        Some(i) => (i as int) < colors.len() && (cell_char(rows, s.w as nat, k) matches Some(ch)
            && table(ch) == Some(colors[i as int])),
        None => match cell_char(rows, s.w as nat, k) {
            Some(ch) => table(ch) is None,
            None => true,
        },
    } by {
        match cell_char(rows, s.w as nat, k) {
            Some(ch) => {
                lemma_entry_map(entries, ch);
                assert(s.px@[k] == map_color(em, ch));
                if em.contains_key(ch as u32) {
                    let j = choose|j: int|
                        0 <= j < entries.len() && entries[j].0 == ch && #[trigger] entries[j].1
                            == em[ch as u32];
                } else {
                    if table(ch) is Some {
                        let j = choose|j: int| 0 <= j < entries.len() && entries[j].0 == ch;
                    }
                }
            },
            None => {},
        }
    }
}

fn color_table(entries: &[(char, u8)]) -> (m: HashMap<u32, u8>)
    ensures
        m@ == entry_map(entries@),
{
    let mut m: HashMap<u32, u8> = HashMap::new();
    let mut j: usize = 0;
    while j < entries.len()
        invariant
            0 <= j <= entries@.len(),
            m@ == entry_map(entries@.take(j as int)),
        decreases entries@.len() - j,
    {
        let (ch, c) = entries[j];
        m.insert(ch as u32, c);
        assert(entries@.take(j + 1).drop_last() =~= entries@.take(j as int));
        j += 1;
    }
    assert(entries@.take(entries@.len() as int) =~= entries@);
    m
}

fn sprite_from(map: &[&str], entries: &[(char, u8)]) -> (s: Sprite)
    requires
        map_rows(map@).len() > 0,
        map_rows(map@).len() * map_rows(map@)[0].len() <= usize::MAX,
    ensures
        s.h == map_rows(map@).len(),
        s.w == map_rows(map@)[0].len(),
        s.px@ == map_pixels(map_rows(map@), map_rows(map@)[0].len(), entry_map(entries@)),
{
    assert(map_rows(map@)[0] == map@[0]@);
    let colors = color_table(entries);
    Sprite::from_map(map, &colors)
}

/// Car glass.
pub open spec fn glass_rgb() -> [u8; 3] {
    [140u8, 190, 220]
}

/// Car tail lights.
pub open spec fn tail_rgb() -> [u8; 3] {
    [255u8, 60, 50]
}

/// The car colors: glass, tail lights, tires, and the given body and dark
/// body colors.
pub open spec fn car_table(body: [u8; 3], dark: [u8; 3], tire: [u8; 3]) -> spec_fn(char) -> Option<[u8; 3]> {
    |ch: char|
        if ch == 'G' {
            Some(glass_rgb())
        } else if ch == 'B' {
            Some(body)
        } else if ch == 'D' {
            Some(dark)
        } else if ch == 'T' {
            Some(tire)
        } else if ch == 'R' {
            Some(tail_rgb())
        } else {
            None
        }
}

/// Body and dark body colors of the opponents' cars: red, yellow, green,
/// white.
pub open spec fn ai_body_colors() -> Seq<([u8; 3], [u8; 3])> {
    seq![
        ([200u8, 50, 40], [120u8, 26, 22]),
        ([230u8, 180, 40], [140u8, 108, 24]),
        ([60u8, 170, 70], [34u8, 100, 40]),
        ([225u8, 225, 225], [140u8, 140, 140]),
    ]
}

/// The colors the car sprites register, in order: glass, tail lights,
/// and the player's body and dark body.
pub open spec fn car_rgbs() -> Seq<[u8; 3]> {
    seq![glass_rgb(), tail_rgb(), [30u8, 60, 160], [18u8, 34, 92]]
}

/// The opponents' body and dark body colors, car after car.
pub open spec fn ai_rgbs() -> Seq<[u8; 3]> {
    Seq::new(8, |k: int| if k % 2 == 0 { ai_body_colors()[k / 2].0 } else { ai_body_colors()[k / 2].1 })
}

/// The colors the scenery sprites register, in order.
pub open spec fn scenery_rgbs() -> Seq<[u8; 3]> {
    seq![
        [30u8, 90, 45],
        [120u8, 80, 40],
        [70u8, 140, 60],
        [105u8, 172, 82],
        [120u8, 120, 125],
        [88u8, 88, 94],
        [230u8, 140, 40],
        [70u8, 70, 75],
        [90u8, 90, 95],
    ]
}

/// Pine colors.
pub open spec fn pine_table() -> spec_fn(char) -> Option<[u8; 3]> {
    |ch: char|
        if ch == 'G' {
            Some([30u8, 90, 45])
        } else if ch == 'T' {
            Some([120u8, 80, 40])
        } else {
            None
        }
}

/// Bush colors.
pub open spec fn bush_table() -> spec_fn(char) -> Option<[u8; 3]> {
    |ch: char|
        if ch == 'G' {
            Some([70u8, 140, 60])
        } else if ch == 'L' {
            Some([105u8, 172, 82])
        } else {
            None
        }
}

/// Rock colors.
pub open spec fn rock_table() -> spec_fn(char) -> Option<[u8; 3]> {
    |ch: char|
        if ch == 'K' {
            Some([120u8, 120, 125])
        } else if ch == 'k' {
            Some([88u8, 88, 94])
        } else {
            None
        }
}

/// Sign colors, with the given white.
pub open spec fn sign_table(white: [u8; 3]) -> spec_fn(char) -> Option<[u8; 3]> {
    |ch: char|
        if ch == 'W' {
            Some(white)
        } else if ch == 'O' {
            Some([230u8, 140, 40])
        } else if ch == 'P' {
            Some([70u8, 70, 75])
        } else {
            None
        }
}

/// Flag colors, with the given white and black.
pub open spec fn flag_table(white: [u8; 3], black: [u8; 3]) -> spec_fn(char) -> Option<[u8; 3]> {
    |ch: char|
        if ch == 'W' {
            Some(white)
        } else if ch == 'B' {
            Some(black)
        } else if ch == 'P' {
            Some([90u8, 90, 95])
        } else {
            None
        }
}

/// Character `ch` is drawn somewhere in the character map `rows`.
pub open spec fn map_uses(rows: Seq<Seq<char>>, ch: char) -> bool {
    exists|r: int, c: int|
        #![trigger rows[r][c]]
        0 <= r < rows.len() && 0 <= c < rows[r].len() && rows[r][c] == ch
}

/// Every map character that a sprite's color table gives a color is drawn
/// somewhere in that sprite's map: each color the sprites register shows
/// on some pixel, for whatever body, dark body, tire, white and black
/// colors the tables are given.
pub proof fn lemma_maps_use_their_colors(
    body: [u8; 3],
    dark: [u8; 3],
    tire: [u8; 3],
    white: [u8; 3],
    black: [u8; 3],
    ch: char,
)
    ensures
        car_table(body, dark, tire)(ch) is Some ==> map_uses(car_rows(), ch),
        pine_table()(ch) is Some ==> map_uses(pine_rows(), ch),
        bush_table()(ch) is Some ==> map_uses(bush_rows(), ch),
        rock_table()(ch) is Some ==> map_uses(rock_rows(), ch),
        sign_table(white)(ch) is Some ==> map_uses(sign_rows(), ch),
        flag_table(white, black)(ch) is Some ==> map_uses(flag_rows(), ch),
{
    reveal_strlit("........GGGGGGGG........");
    assert(car_rows()[0][8] == 'G');
    reveal_strlit("....BBBBGGGGGGGGGGBB....");
    assert(car_rows()[2][4] == 'B');
    reveal_strlit(".DDDBBBBBBBBBBBBBBBBDDD.");
    assert(car_rows()[6][1] == 'D');
    reveal_strlit("TTTTBBBBBBBBBBBBBBBBTTTT");
    assert(car_rows()[7][0] == 'T');
    reveal_strlit(".BBRRBBBBBBBBBBBBBBRRBB.");
    assert(car_rows()[5][3] == 'R');
    reveal_strlit("....GG....");
    assert(pine_rows()[0][4] == 'G');
    reveal_strlit("....TT....");
    assert(pine_rows()[8][4] == 'T');
    reveal_strlit("...GGGGGG...");
    assert(bush_rows()[0][3] == 'G');
    reveal_strlit(".GLLGGGGLLGG");
    assert(bush_rows()[1][2] == 'L');
    reveal_strlit("....KKkk....");
    assert(rock_rows()[0][4] == 'K');
    assert(rock_rows()[0][6] == 'k');
    reveal_strlit("WWWWWWWWWWWWWWWW");
    assert(sign_rows()[0][0] == 'W');
    reveal_strlit("WOOOOOOOOOOOOOOW");
    assert(sign_rows()[1][1] == 'O');
    reveal_strlit(".......PP.......");
    assert(sign_rows()[8][7] == 'P');
    reveal_strlit("WBWB");
    assert(flag_rows()[0][0] == 'W');
    assert(flag_rows()[0][1] == 'B');
    reveal_strlit(".P..");
    assert(flag_rows()[4][1] == 'P');
}

/// The cars' tail lights are exactly the cells of the sixth map row at
/// columns 3, 4, 19 and 20: two lights on each side, mirrored about the
/// middle of the car.
pub proof fn lemma_tail_lights(r: int, c: int)
    requires
        0 <= r < 9,
        0 <= c < 24,
    ensures
        car_rows()[r][c] == 'R' <==> (r == 5 && (c == 3 || c == 4 || c == 19 || c == 20)),
{
    reveal_strlit("........GGGGGGGG........");
    reveal_strlit("......GGGGGGGGGGGG......");
    reveal_strlit("....BBBBGGGGGGGGGGBB....");
    reveal_strlit("..BBBBBBBBBBBBBBBBBBBB..");
    reveal_strlit(".BBBBBBBBBBBBBBBBBBBBBB.");
    reveal_strlit(".BBRRBBBBBBBBBBBBBBRRBB.");
    reveal_strlit(".DDDBBBBBBBBBBBBBBBBDDD.");
    reveal_strlit("TTTTBBBBBBBBBBBBBBBBTTTT");
    reveal_strlit("TTTTDDDDDDDDDDDDDDDDTTTT");
}

/// The rows of a character map.
pub open spec fn map_rows(m: Seq<&str>) -> Seq<Seq<char>> {
    m.map_values(|r: &str| r@)
}

/// `now` keeps every entry of `prev` at its index, possibly with more
/// after them.
pub open spec fn extends(now: Seq<[u8; 3]>, prev: Seq<[u8; 3]>) -> bool {
    prev.len() <= now.len() && now.take(prev.len() as int) == prev
}

proof fn lemma_extends_trans(a: Seq<[u8; 3]>, b: Seq<[u8; 3]>, c: Seq<[u8; 3]>)
    requires
        extends(b, a),
        extends(c, b),
    ensures
        extends(c, a),
{
    assert(c.take(a.len() as int) =~= b.take(a.len() as int));
}

proof fn lemma_extends_refl(a: Seq<[u8; 3]>)
    ensures
        extends(a, a),
{
    assert(a.take(a.len() as int) =~= a);
}

/// Palette snapshots taken one after another, each extending the one
/// before: the last extends every earlier one.
proof fn lemma_extends_along(s: Seq<Seq<[u8; 3]>>, m: int)
    requires
        forall|j: int, k: int| #![trigger s[j], s[k]] 0 <= j && k == j + 1 && k < s.len() ==> extends(s[k], s[j]),
        0 <= m < s.len(),
    ensures
        extends(s.last(), s[m]),
    decreases s.len() - m,
{
    if m < s.len() - 1 {
        assert(extends(s[m + 1], s[m]));
        lemma_extends_along(s, m + 1);
        lemma_extends_trans(s[m], s[m + 1], s.last());
    } else {
        lemma_extends_refl(s[m]);
    }
}

/// Palette snapshots taken one after another, each extending the one
/// before: the last snapshot holds, at each index of an earlier one, what
/// that one held there.
proof fn lemma_kept_along(s: Seq<Seq<[u8; 3]>>, m: int, i: int)
    requires
        forall|j: int, k: int| #![trigger s[j], s[k]] 0 <= j && k == j + 1 && k < s.len() ==> extends(s[k], s[j]),
        0 <= m < s.len(),
        0 <= i < s[m].len(),
    ensures
        i < s.last().len(),
        s.last()[i] == s[m][i],
    decreases s.len() - m,
{
    if m < s.len() - 1 {
        assert(extends(s[m + 1], s[m]));
        assert(s[m + 1].take(s[m].len() as int)[i] == s[m + 1][i]);
        lemma_kept_along(s, m + 1, i);
    }
}

proof fn lemma_add_extends(colors: Seq<[u8; 3]>, index: Map<u32, u8>, c: [u8; 3])
    ensures
        extends(crate::framebuffer::palette_add(colors, index, c).0, colors),
{
    let now = crate::framebuffer::palette_add(colors, index, c).0;
    assert(now.take(colors.len() as int) =~= colors);
}

proof fn lemma_shows_grow(
    s: Sprite,
    rows: Seq<Seq<char>>,
    c1: Seq<[u8; 3]>,
    c2: Seq<[u8; 3]>,
    table: spec_fn(char) -> Option<[u8; 3]>,
)
    requires
        sprite_shows(s, rows, c1, table),
        extends(c2, c1),
    ensures
        sprite_shows(s, rows, c2, table),
{
    assert forall|k: int| #![trigger s.px@[k]] 0 <= k < s.px@.len() && s.px@[k] is Some implies c2[s.px@[k]->Some_0 as int] == c1[s.px@[k]->Some_0 as int] by {
        let i = s.px@[k]->Some_0 as int;
        assert(c2.take(c1.len() as int)[i] == c2[i]);
    }
}

/// The maps' sizes: each has rows, and the car map is 24 wide.
proof fn lemma_map_dims()
    ensures
        car_rows().len() == 9 && car_rows()[0].len() == 24,
        pine_rows().len() == 14 && pine_rows()[0].len() == 10,
        bush_rows().len() == 6 && bush_rows()[0].len() == 12,
        rock_rows().len() == 6 && rock_rows()[0].len() == 12,
        sign_rows().len() == 11 && sign_rows()[0].len() == 16,
        flag_rows().len() == 16 && flag_rows()[0].len() == 4,
{
    reveal_strlit("........GGGGGGGG........");
    reveal_strlit("....GG....");
    reveal_strlit("...GGGGGG...");
    reveal_strlit("....KKkk....");
    reveal_strlit("WWWWWWWWWWWWWWWW");
    reveal_strlit("WBWB");
}

fn car_sprite(
    cm: &[&str],
    glass: u8,
    body: u8,
    dark: u8,
    tire: u8,
    tail: u8,
    Ghost(colors): Ghost<Seq<[u8; 3]>>,
    Ghost(body_rgb): Ghost<[u8; 3]>,
    Ghost(dark_rgb): Ghost<[u8; 3]>,
    Ghost(tire_rgb): Ghost<[u8; 3]>,
) -> (s: Sprite)
    requires
        map_rows(cm@) == car_rows(),
        car_rows().len() == 9 && car_rows()[0].len() == 24,
        (glass as int) < colors.len() && colors[glass as int] == glass_rgb(),
        (body as int) < colors.len() && colors[body as int] == body_rgb,
        (dark as int) < colors.len() && colors[dark as int] == dark_rgb,
        (tire as int) < colors.len() && colors[tire as int] == tire_rgb,
        (tail as int) < colors.len() && colors[tail as int] == tail_rgb(),
    ensures
        sprite_shows(s, car_rows(), colors, car_table(body_rgb, dark_rgb, tire_rgb)),
{
    let entries = [('G', glass), ('B', body), ('D', dark), ('T', tire), ('R', tail)];
    let s = sprite_from(cm, &entries);
    proof {
        let t = car_table(body_rgb, dark_rgb, tire_rgb);
        assert forall|ch: char| #[trigger] t(ch) is Some implies exists|j: int|
            0 <= j < entries@.len() && entries@[j].0 == ch by {
            if ch == 'G' {
                assert(entries@[0].0 == ch);
            } else if ch == 'B' {
                assert(entries@[1].0 == ch);
            } else if ch == 'D' {
                assert(entries@[2].0 == ch);
            } else if ch == 'T' {
                assert(entries@[3].0 == ch);
            } else {
                assert(entries@[4].0 == ch);
            }
        }
        lemma_sprite_shows(s, car_rows(), entries@, colors, t);
    }
    s
}

/// Register a color and note that the palette only grew.
fn add_color(pal: &mut Palette, r: u8, g: u8, b: u8) -> (i: u8)
    requires
        old(pal).wf(),
        old(pal).index().contains_key(rgb_key([r, g, b])) || old(pal).colors().len() < 256,
    ensures
        final(pal).wf(),
        extends(final(pal).colors(), old(pal).colors()),
        final(pal).colors().len() <= old(pal).colors().len() + 1,
        (i as int) < final(pal).colors().len(),
        final(pal).colors()[i as int] == [r, g, b],
        (final(pal).colors(), final(pal).index(), i) == palette_add(
            old(pal).colors(),
            old(pal).index(),
            [r, g, b],
        ),
{
    let i = pal.add(r, g, b);
    proof {
        lemma_add_extends(old(pal).colors(), old(pal).index(), [r, g, b]);
    }
    i
}

/// Register color `k` of the list `full`: if the palette is what
/// registering the first `k` colors of `full` made of `(c0, i0)`, it then is
/// what registering the first `k + 1` makes of it, and the index handed out
/// is the one that registration hands out last.
fn add_next(
    pal: &mut Palette,
    r: u8,
    g: u8,
    b: u8,
    Ghost(c0): Ghost<Seq<[u8; 3]>>,
    Ghost(i0): Ghost<Map<u32, u8>>,
    Ghost(full): Ghost<Seq<[u8; 3]>>,
    Ghost(k): Ghost<int>,
) -> (i: u8)
    requires
        old(pal).wf(),
        palette_fits_all(c0, i0, full),
        0 <= k < full.len(),
        full[k] == [r, g, b],
        old(pal).colors() == palette_add_all(c0, i0, full.take(k)).0,
        old(pal).index() == palette_add_all(c0, i0, full.take(k)).1,
    ensures
        final(pal).wf(),
        extends(final(pal).colors(), old(pal).colors()),
        final(pal).colors().len() <= old(pal).colors().len() + 1,
        (i as int) < final(pal).colors().len(),
        final(pal).colors()[i as int] == [r, g, b],
        final(pal).colors() == palette_add_all(c0, i0, full.take(k + 1)).0,
        final(pal).index() == palette_add_all(c0, i0, full.take(k + 1)).1,
        palette_add_all(c0, i0, full.take(k + 1)).2 == palette_add_all(c0, i0, full.take(k)).2.push(i),
{
    proof {
        lemma_fits_prefix(c0, i0, full, k + 1);
        assert(full.take(k + 1).drop_last() =~= full.take(k));
        assert(full.take(k).push([r, g, b]) =~= full.take(k + 1));
        lemma_add_all_push(c0, i0, full.take(k), [r, g, b]);
    }
    add_color(pal, r, g, b)
}

/// The scenery sprites indexed by kind (index 0 unused), their colors
/// registered in `pal` after the existing `black` and `white` entries.
#[verifier::rlimit(40)]
fn scenery_sprites(pal: &mut Palette, black: u8, white: u8) -> (v: Vec<Sprite>)
    requires
        old(pal).wf(),
        palette_fits_all(old(pal).colors(), old(pal).index(), scenery_rgbs()),
        (black as int) < old(pal).colors().len(),
        (white as int) < old(pal).colors().len(),
    ensures
        final(pal).wf(),
        final(pal).colors().len() <= old(pal).colors().len() + 9,
        extends(final(pal).colors(), old(pal).colors()),
        final(pal).colors() == palette_add_all(old(pal).colors(), old(pal).index(), scenery_rgbs()).0,
        final(pal).index() == palette_add_all(old(pal).colors(), old(pal).index(), scenery_rgbs()).1,
        v@.len() == 6,
        v@[0].w == 1 && v@[0].h == 1 && v@[0].px@.len() == 0,
        sprite_shows(v@[KIND_PINE as int], pine_rows(), final(pal).colors(), pine_table()),
        sprite_shows(v@[KIND_BUSH as int], bush_rows(), final(pal).colors(), bush_table()),
        sprite_shows(v@[KIND_ROCK as int], rock_rows(), final(pal).colors(), rock_table()),
        sprite_shows(
            v@[KIND_SIGN as int],
            sign_rows(),
            final(pal).colors(),
            sign_table(old(pal).colors()[white as int]),
        ),
        sprite_shows(
            v@[KIND_FLAG as int],
            flag_rows(),
            final(pal).colors(),
            flag_table(old(pal).colors()[white as int], old(pal).colors()[black as int]),
        ),
{
    proof {
        lemma_map_dims();
    }
    let ghost c0 = pal.colors();
    let ghost i0 = pal.index();
    let ghost full = scenery_rgbs();
    assert(full.take(0) =~= Seq::<[u8; 3]>::empty());
    let pine_g = add_next(pal, 30, 90, 45, Ghost(c0), Ghost(i0), Ghost(full), Ghost(0));
    let ghost c1 = pal.colors();
    let pine_t = add_next(pal, 120, 80, 40, Ghost(c0), Ghost(i0), Ghost(full), Ghost(1));
    let ghost c2 = pal.colors();
    let bush_g = add_next(pal, 70, 140, 60, Ghost(c0), Ghost(i0), Ghost(full), Ghost(2));
    let ghost c3 = pal.colors();
    let bush_l = add_next(pal, 105, 172, 82, Ghost(c0), Ghost(i0), Ghost(full), Ghost(3));
    let ghost c4 = pal.colors();
    let rock_k = add_next(pal, 120, 120, 125, Ghost(c0), Ghost(i0), Ghost(full), Ghost(4));
    let ghost c5 = pal.colors();
    let rock_s = add_next(pal, 88, 88, 94, Ghost(c0), Ghost(i0), Ghost(full), Ghost(5));
    let ghost c6 = pal.colors();
    let sign_o = add_next(pal, 230, 140, 40, Ghost(c0), Ghost(i0), Ghost(full), Ghost(6));
    let ghost c7 = pal.colors();
    let sign_p = add_next(pal, 70, 70, 75, Ghost(c0), Ghost(i0), Ghost(full), Ghost(7));
    let ghost c8 = pal.colors();
    let flag_p = add_next(pal, 90, 90, 95, Ghost(c0), Ghost(i0), Ghost(full), Ghost(8));
    assert(full.take(9) =~= full);
    let ghost c9 = pal.colors();
    proof {
        let snaps = seq![c0, c1, c2, c3, c4, c5, c6, c7, c8, c9];
        lemma_kept_along(snaps, 1, pine_g as int);
        lemma_kept_along(snaps, 2, pine_t as int);
        lemma_kept_along(snaps, 3, bush_g as int);
        lemma_kept_along(snaps, 4, bush_l as int);
        lemma_kept_along(snaps, 5, rock_k as int);
        lemma_kept_along(snaps, 6, rock_s as int);
        lemma_kept_along(snaps, 7, sign_o as int);
        lemma_kept_along(snaps, 8, sign_p as int);
        lemma_kept_along(snaps, 0, white as int);
        lemma_kept_along(snaps, 0, black as int);
        lemma_extends_along(snaps, 0);
    }
    let pine_e = [('G', pine_g), ('T', pine_t)];
    let pine = sprite_from(pine_map(), &pine_e);
    let bush_e = [('G', bush_g), ('L', bush_l)];
    let bush = sprite_from(bush_map(), &bush_e);
    let rock_e = [('K', rock_k), ('k', rock_s)];
    let rock = sprite_from(rock_map(), &rock_e);
    let sign_e = [('W', white), ('O', sign_o), ('P', sign_p)];
    let sign = sprite_from(sign_map(), &sign_e);
    let flag_e = [('W', white), ('B', black), ('P', flag_p)];
    let flag = sprite_from(flag_map(), &flag_e);
    proof {
        let wt = c0[white as int];
        let bk = c0[black as int];
        assert forall|ch: char| #[trigger] pine_table()(ch) is Some implies exists|j: int|
            0 <= j < pine_e@.len() && pine_e@[j].0 == ch by {
            if ch == 'G' { assert(pine_e@[0].0 == ch); } else { assert(pine_e@[1].0 == ch); }
        }
        assert forall|ch: char| #[trigger] bush_table()(ch) is Some implies exists|j: int|
            0 <= j < bush_e@.len() && bush_e@[j].0 == ch by {
            if ch == 'G' { assert(bush_e@[0].0 == ch); } else { assert(bush_e@[1].0 == ch); }
        }
        assert forall|ch: char| #[trigger] rock_table()(ch) is Some implies exists|j: int|
            0 <= j < rock_e@.len() && rock_e@[j].0 == ch by {
            if ch == 'K' { assert(rock_e@[0].0 == ch); } else { assert(rock_e@[1].0 == ch); }
        }
        assert forall|ch: char| #[trigger] sign_table(wt)(ch) is Some implies exists|j: int|
            0 <= j < sign_e@.len() && sign_e@[j].0 == ch by {
            if ch == 'W' { assert(sign_e@[0].0 == ch); } else if ch == 'O' { assert(sign_e@[1].0 == ch); } else { assert(sign_e@[2].0 == ch); }
        }
        assert forall|ch: char| #[trigger] flag_table(wt, bk)(ch) is Some implies exists|j: int|
            0 <= j < flag_e@.len() && flag_e@[j].0 == ch by {
            if ch == 'W' { assert(flag_e@[0].0 == ch); } else if ch == 'B' { assert(flag_e@[1].0 == ch); } else { assert(flag_e@[2].0 == ch); }
        }
        lemma_sprite_shows(pine, pine_rows(), pine_e@, c9, pine_table());
        lemma_sprite_shows(bush, bush_rows(), bush_e@, c9, bush_table());
        lemma_sprite_shows(rock, rock_rows(), rock_e@, c9, rock_table());
        lemma_sprite_shows(sign, sign_rows(), sign_e@, c9, sign_table(wt));
        lemma_sprite_shows(flag, flag_rows(), flag_e@, c9, flag_table(wt, bk));
    }
    let mut scenery: Vec<Sprite> = Vec::new();
    scenery.push(Sprite { w: 1, h: 1, px: Vec::new() });
    scenery.push(pine);
    scenery.push(bush);
    scenery.push(rock);
    scenery.push(sign);
    scenery.push(flag);
    scenery
}

/// Palette indices of the colors that every track shares.
#[derive(Clone, Copy, Debug)]
pub struct BaseColors {
    pub black: u8,
    pub white: u8,
    pub road_a: u8,
    pub road_b: u8,
    pub rumble_red: u8,
    pub dim: u8,
}

/// The shared colors, in the order they are registered.
pub open spec fn base_rgbs() -> Seq<[u8; 3]> {
    seq![[15u8, 15, 15], [245u8, 245, 245], [155u8, 155, 160], [125u8, 125, 130], [205u8, 45, 40], [170u8, 170, 175]]
}

/// The shared colors, in the order `add_base_colors` registers them (for
/// checking beforehand that the palette has room).
pub fn base_palette_colors() -> (v: Vec<[u8; 3]>)
    ensures
        v@ == base_rgbs(),
{
    let v = vec![[15u8, 15, 15], [245u8, 245, 245], [155u8, 155, 160], [125u8, 125, 130], [205u8, 45, 40], [170u8, 170, 175]];
    assert(v@ =~= base_rgbs());
    v
}

/// Each shared color's index lies in `colors` and shows the shared color.
pub open spec fn base_shows(b: BaseColors, colors: Seq<[u8; 3]>) -> bool {
    &&& (b.black as int) < colors.len() && colors[b.black as int] == [15u8, 15, 15]
    &&& (b.white as int) < colors.len() && colors[b.white as int] == [245u8, 245, 245]
    &&& (b.road_a as int) < colors.len() && colors[b.road_a as int] == [155u8, 155, 160]
    &&& (b.road_b as int) < colors.len() && colors[b.road_b as int] == [125u8, 125, 130]
    &&& (b.rumble_red as int) < colors.len() && colors[b.rumble_red as int] == [205u8, 45, 40]
    &&& (b.dim as int) < colors.len() && colors[b.dim as int] == [170u8, 170, 175]
}

/// Register the colors shared by every track: black, white, the two road
/// greys, the rumble-strip red and the dim text grey.
pub fn add_base_colors(pal: &mut Palette) -> (b: BaseColors)
    requires
        old(pal).wf(),
        palette_fits_all(old(pal).colors(), old(pal).index(), base_rgbs()),
    ensures
        final(pal).wf(),
        extends(final(pal).colors(), old(pal).colors()),
        final(pal).colors().len() <= old(pal).colors().len() + 6,
        base_shows(b, final(pal).colors()),
        (final(pal).colors(), final(pal).index(), seq![b.black, b.white, b.road_a, b.road_b, b.rumble_red, b.dim])
            == palette_add_all(old(pal).colors(), old(pal).index(), base_rgbs()),
{
    let ghost c0 = pal.colors();
    let ghost i0 = pal.index();
    let ghost full = base_rgbs();
    assert(full.take(0) =~= Seq::<[u8; 3]>::empty());
    let black = add_next(pal, 15, 15, 15, Ghost(c0), Ghost(i0), Ghost(full), Ghost(0));
    let ghost c1 = pal.colors();
    let white = add_next(pal, 245, 245, 245, Ghost(c0), Ghost(i0), Ghost(full), Ghost(1));
    let ghost c2 = pal.colors();
    let road_a = add_next(pal, 155, 155, 160, Ghost(c0), Ghost(i0), Ghost(full), Ghost(2));
    let ghost c3 = pal.colors();
    let road_b = add_next(pal, 125, 125, 130, Ghost(c0), Ghost(i0), Ghost(full), Ghost(3));
    let ghost c4 = pal.colors();
    let rumble_red = add_next(pal, 205, 45, 40, Ghost(c0), Ghost(i0), Ghost(full), Ghost(4));
    let ghost c5 = pal.colors();
    let dim = add_next(pal, 170, 170, 175, Ghost(c0), Ghost(i0), Ghost(full), Ghost(5));
    let ghost c6 = pal.colors();
    proof {
        assert(full.take(6) =~= full);
        assert(Seq::<u8>::empty().push(black).push(white).push(road_a).push(road_b).push(rumble_red).push(dim)
            =~= seq![black, white, road_a, road_b, rumble_red, dim]);
        let snaps = seq![c0, c1, c2, c3, c4, c5, c6];
        lemma_extends_along(snaps, 0);
        lemma_kept_along(snaps, 1, black as int);
        lemma_kept_along(snaps, 2, white as int);
        lemma_kept_along(snaps, 3, road_a as int);
        lemma_kept_along(snaps, 4, road_b as int);
        lemma_kept_along(snaps, 5, rumble_red as int);
    }
    BaseColors { black, white, road_a, road_b, rumble_red, dim }
}

/// A track's road colors: its own two grass shades, the shared road greys,
/// red and white rumble strips, white lane marks and a white and black
/// start-line checker.
pub open spec fn road_shows(
    road: RoadColors,
    b: BaseColors,
    colors: Seq<[u8; 3]>,
    grass_a: [u8; 3],
    grass_b: [u8; 3],
) -> bool {
    &&& (road.grass_a as int) < colors.len() && colors[road.grass_a as int] == grass_a
    &&& (road.grass_b as int) < colors.len() && colors[road.grass_b as int] == grass_b
    &&& road.road_a == b.road_a && road.road_b == b.road_b
    &&& road.rumble_a == b.rumble_red && road.rumble_b == b.white
    &&& road.lane == b.white
    &&& road.checker_a == b.white && road.checker_b == b.black
}

/// Register one track's grass and hill colors and assemble its road
/// colors from them and the shared ones; returns the road colors and the
/// far and near hill indices.
pub fn add_track_colors(
    pal: &mut Palette,
    b: BaseColors,
    grass_a: [u8; 3],
    grass_b: [u8; 3],
    hill_far: [u8; 3],
    hill_near: [u8; 3],
) -> (r: (RoadColors, u8, u8))
    requires
        old(pal).wf(),
        palette_fits_all(old(pal).colors(), old(pal).index(), seq![grass_a, grass_b, hill_far, hill_near]),
        base_shows(b, old(pal).colors()),
    ensures
        final(pal).wf(),
        extends(final(pal).colors(), old(pal).colors()),
        final(pal).colors().len() <= old(pal).colors().len() + 4,
        base_shows(b, final(pal).colors()),
        road_shows(r.0, b, final(pal).colors(), grass_a, grass_b),
        (r.1 as int) < final(pal).colors().len() && final(pal).colors()[r.1 as int] == hill_far,
        (r.2 as int) < final(pal).colors().len() && final(pal).colors()[r.2 as int] == hill_near,
        (final(pal).colors(), final(pal).index(), seq![r.0.grass_a, r.0.grass_b, r.1, r.2]) == palette_add_all(
            old(pal).colors(),
            old(pal).index(),
            seq![grass_a, grass_b, hill_far, hill_near],
        ),
{
    proof {
        assert([grass_a[0], grass_a[1], grass_a[2]] =~= grass_a);
        assert([grass_b[0], grass_b[1], grass_b[2]] =~= grass_b);
        assert([hill_far[0], hill_far[1], hill_far[2]] =~= hill_far);
        assert([hill_near[0], hill_near[1], hill_near[2]] =~= hill_near);
    }
    let ghost c0 = pal.colors();
    let ghost i0 = pal.index();
    let ghost full = seq![grass_a, grass_b, hill_far, hill_near];
    assert(full.take(0) =~= Seq::<[u8; 3]>::empty());
    let ga = add_next(pal, grass_a[0], grass_a[1], grass_a[2], Ghost(c0), Ghost(i0), Ghost(full), Ghost(0));
    let ghost c1 = pal.colors();
    let gb = add_next(pal, grass_b[0], grass_b[1], grass_b[2], Ghost(c0), Ghost(i0), Ghost(full), Ghost(1));
    let ghost c2 = pal.colors();
    let hf = add_next(pal, hill_far[0], hill_far[1], hill_far[2], Ghost(c0), Ghost(i0), Ghost(full), Ghost(2));
    let ghost c3 = pal.colors();
    let hn = add_next(pal, hill_near[0], hill_near[1], hill_near[2], Ghost(c0), Ghost(i0), Ghost(full), Ghost(3));
    let ghost c4 = pal.colors();
    proof {
        assert(full.take(4) =~= full);
        assert(Seq::<u8>::empty().push(ga).push(gb).push(hf).push(hn) =~= seq![ga, gb, hf, hn]);
        let snaps = seq![c0, c1, c2, c3, c4];
        lemma_extends_along(snaps, 0);
        lemma_kept_along(snaps, 1, ga as int);
        lemma_kept_along(snaps, 2, gb as int);
        lemma_kept_along(snaps, 3, hf as int);
        lemma_kept_along(snaps, 0, b.black as int);
        lemma_kept_along(snaps, 0, b.white as int);
        lemma_kept_along(snaps, 0, b.road_a as int);
        lemma_kept_along(snaps, 0, b.road_b as int);
        lemma_kept_along(snaps, 0, b.rumble_red as int);
        lemma_kept_along(snaps, 0, b.dim as int);
    }
    let road = RoadColors {
        grass_a: ga,
        grass_b: gb,
        road_a: b.road_a,
        road_b: b.road_b,
        rumble_a: b.rumble_red,
        rumble_b: b.white,
        lane: b.white,
        checker_a: b.white,
        checker_b: b.black,
    };
    (road, hf, hn)
}

/// The colors `build_sprites` registers, in order (for checking
/// beforehand that the palette has room).
pub fn sprite_palette_colors() -> (v: Vec<[u8; 3]>)
    ensures
        v@ == car_rgbs() + ai_rgbs() + scenery_rgbs(),
{
    let v = vec![
        [140u8, 190, 220],
        [255u8, 60, 50],
        [30u8, 60, 160],
        [18u8, 34, 92],
        [200u8, 50, 40],
        [120u8, 26, 22],
        [230u8, 180, 40],
        [140u8, 108, 24],
        [60u8, 170, 70],
        [34u8, 100, 40],
        [225u8, 225, 225],
        [140u8, 140, 140],
        [30u8, 90, 45],
        [120u8, 80, 40],
        [70u8, 140, 60],
        [105u8, 172, 82],
        [120u8, 120, 125],
        [88u8, 88, 94],
        [230u8, 140, 40],
        [70u8, 70, 75],
        [90u8, 90, 95],
    ];
    assert(v@ =~= car_rgbs() + ai_rgbs() + scenery_rgbs());
    v
}

/// Build the car and scenery sprites, registering their colors in `pal`
/// after the palette's existing `black` and `white` entries: the player's
/// blue car, the four opponents' cars, and the scenery sprites indexed by
/// kind (index 0 unused).
pub fn build_sprites(pal: &mut Palette, black: u8, white: u8) -> (r: (Sprite, Vec<Sprite>, Vec<Sprite>))
    requires
        old(pal).wf(),
        palette_fits_all(old(pal).colors(), old(pal).index(), car_rgbs() + ai_rgbs() + scenery_rgbs()),
        (black as int) < old(pal).colors().len(),
        (white as int) < old(pal).colors().len(),
    ensures
        final(pal).wf(),
        final(pal).colors().len() <= old(pal).colors().len() + 21,
        extends(final(pal).colors(), old(pal).colors()),
        final(pal).colors() == palette_add_all(
            old(pal).colors(),
            old(pal).index(),
            car_rgbs() + ai_rgbs() + scenery_rgbs(),
        ).0,
        final(pal).index() == palette_add_all(
            old(pal).colors(),
            old(pal).index(),
            car_rgbs() + ai_rgbs() + scenery_rgbs(),
        ).1,
        sprite_shows(
            r.0,
            car_rows(),
            final(pal).colors(),
            car_table([30u8, 60, 160], [18u8, 34, 92], old(pal).colors()[black as int]),
        ),
        r.1@.len() == 4,
        forall|i: int|
            0 <= i < 4 ==> sprite_shows(
                #[trigger] r.1@[i],
                car_rows(),
                final(pal).colors(),
                car_table(ai_body_colors()[i].0, ai_body_colors()[i].1, old(pal).colors()[black as int]),
            ),
        r.2@.len() == 6,
        r.2@[0].w == 1 && r.2@[0].h == 1 && r.2@[0].px@.len() == 0,
        sprite_shows(r.2@[KIND_PINE as int], pine_rows(), final(pal).colors(), pine_table()),
        sprite_shows(r.2@[KIND_BUSH as int], bush_rows(), final(pal).colors(), bush_table()),
        sprite_shows(r.2@[KIND_ROCK as int], rock_rows(), final(pal).colors(), rock_table()),
        sprite_shows(
            r.2@[KIND_SIGN as int],
            sign_rows(),
            final(pal).colors(),
            sign_table(old(pal).colors()[white as int]),
        ),
        sprite_shows(
            r.2@[KIND_FLAG as int],
            flag_rows(),
            final(pal).colors(),
            flag_table(old(pal).colors()[white as int], old(pal).colors()[black as int]),
        ),
{
    proof {
        lemma_map_dims();
    }
    let ghost start = pal.colors();
    let ghost i0 = pal.index();
    let ghost bk = start[black as int];
    let tire = black;
    let ghost ca = car_rgbs() + ai_rgbs();
    proof {
        lemma_fits_prefix(start, i0, ca + scenery_rgbs(), 12);
        assert((ca + scenery_rgbs()).take(12) =~= ca);
        assert(ca.take(0) =~= Seq::<[u8; 3]>::empty());
    }
    let glass = add_next(pal, 140, 190, 220, Ghost(start), Ghost(i0), Ghost(ca), Ghost(0));
    let ghost p1 = pal.colors();
    let tail = add_next(pal, 255, 60, 50, Ghost(start), Ghost(i0), Ghost(ca), Ghost(1));
    let ghost p2 = pal.colors();
    let player_body = add_next(pal, 30, 60, 160, Ghost(start), Ghost(i0), Ghost(ca), Ghost(2));
    let ghost p3 = pal.colors();
    let player_dark = add_next(pal, 18, 34, 92, Ghost(start), Ghost(i0), Ghost(ca), Ghost(3));
    let ghost c1 = pal.colors();
    proof {
        let snaps = seq![start, p1, p2, p3, c1];
        lemma_extends_along(snaps, 0);
        lemma_kept_along(snaps, 1, glass as int);
        lemma_kept_along(snaps, 2, tail as int);
        lemma_kept_along(snaps, 3, player_body as int);
        lemma_kept_along(snaps, 0, black as int);
    }
    let cm = car_map();
    let player_car = car_sprite(
        cm,
        glass,
        player_body,
        player_dark,
        tire,
        tail,
        Ghost(c1),
        Ghost([30u8, 60, 160]),
        Ghost([18u8, 34, 92]),
        Ghost(bk),
    );
    let mut ai_cars: Vec<Sprite> = Vec::new();
    let bodies: [([u8; 3], [u8; 3]); 4] = [
        ([200, 50, 40], [120, 26, 22]),
        ([230, 180, 40], [140, 108, 24]),
        ([60, 170, 70], [34, 100, 40]),
        ([225, 225, 225], [140, 140, 140]),
    ];
    assert(bodies@ =~= ai_body_colors());
    let mut n: usize = 0;
    proof {
        lemma_extends_refl(c1);
    }
    while n < 4
        invariant
            0 <= n <= 4,
            bodies@ == ai_body_colors(),
            pal.wf(),
            car_rows().len() == 9 && car_rows()[0].len() == 24,
            map_rows(cm@) == car_rows(),
            palette_fits_all(start, i0, ca),
            ca == car_rgbs() + ai_rgbs(),
            c1.len() <= start.len() + 4,
            extends(pal.colors(), c1),
            pal.colors().len() <= c1.len() + 2 * n,
            (glass as int) < c1.len() && c1[glass as int] == glass_rgb(),
            (tail as int) < c1.len() && c1[tail as int] == tail_rgb(),
            (black as int) < c1.len() && c1[black as int] == bk,
            tire == black,
            pal.colors() == palette_add_all(start, i0, ca.take(4 + 2 * n)).0,
            pal.index() == palette_add_all(start, i0, ca.take(4 + 2 * n)).1,
            ai_cars@.len() == n,
            forall|i: int|
                0 <= i < n ==> sprite_shows(
                    #[trigger] ai_cars@[i],
                    car_rows(),
                    pal.colors(),
                    car_table(ai_body_colors()[i].0, ai_body_colors()[i].1, bk),
                ),
        decreases 4 - n,
    {
        let (b, d) = bodies[n];
        let ghost before = pal.colors();
        proof {
            assert([b[0], b[1], b[2]] =~= b);
            assert([d[0], d[1], d[2]] =~= d);
            assert(ca[4 + 2 * n] == ai_rgbs()[2 * n]);
            assert(ca[5 + 2 * n] == ai_rgbs()[2 * n + 1]);
            assert(ai_rgbs()[2 * n] == b);
            assert(ai_rgbs()[2 * n + 1] == d);
        }
        let bi = add_next(pal, b[0], b[1], b[2], Ghost(start), Ghost(i0), Ghost(ca), Ghost(4 + 2 * n));
        let ghost mid = pal.colors();
        let di = add_next(pal, d[0], d[1], d[2], Ghost(start), Ghost(i0), Ghost(ca), Ghost(5 + 2 * n));
        let ghost after = pal.colors();
        proof {
            let snaps = seq![c1, before, mid, after];
            lemma_extends_along(snaps, 0);
            lemma_extends_along(snaps, 1);
            lemma_kept_along(snaps, 2, bi as int);
            lemma_kept_along(snaps, 0, glass as int);
            lemma_kept_along(snaps, 0, tail as int);
            lemma_kept_along(snaps, 0, black as int);
            assert((tire as int) < after.len() && after[tire as int] == bk);
        }
        let car = car_sprite(cm, glass, bi, di, tire, tail, Ghost(after), Ghost(b), Ghost(d), Ghost(bk));
        proof {
            assert forall|i: int| 0 <= i < n implies sprite_shows(
                #[trigger] ai_cars@[i],
                car_rows(),
                after,
                car_table(ai_body_colors()[i].0, ai_body_colors()[i].1, bk),
            ) by {
                lemma_shows_grow(ai_cars@[i], car_rows(), before, after, car_table(ai_body_colors()[i].0, ai_body_colors()[i].1, bk));
            }
        }
        ai_cars.push(car);
        n += 1;
    }
    let ghost c2 = pal.colors();
    let ghost i2 = pal.index();
    proof {
        assert(ca.take(12) =~= ca);
        lemma_fits_concat(start, i0, ca, scenery_rgbs());
        let snaps = seq![start, c1, c2];
        lemma_kept_along(snaps, 0, black as int);
        lemma_kept_along(snaps, 0, white as int);
    }
    let scenery = scenery_sprites(pal, black, white);
    let ghost c3 = pal.colors();
    proof {
        lemma_add_all_concat(start, i0, ca, scenery_rgbs());
        let snaps = seq![start, c1, c2, c3];
        lemma_extends_along(snaps, 0);
        lemma_extends_along(snaps, 1);
        lemma_shows_grow(player_car, car_rows(), c1, c3, car_table([30u8, 60, 160], [18u8, 34, 92], bk));
        assert forall|i: int| 0 <= i < 4 implies sprite_shows(
            #[trigger] ai_cars@[i],
            car_rows(),
            c3,
            car_table(ai_body_colors()[i].0, ai_body_colors()[i].1, bk),
        ) by {
            lemma_shows_grow(ai_cars@[i], car_rows(), c2, c3, car_table(ai_body_colors()[i].0, ai_body_colors()[i].1, bk));
        }
    }
    (player_car, ai_cars, scenery)
}

} // verus!
