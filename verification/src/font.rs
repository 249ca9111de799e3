use crate::framebuffer::{paint, rect_covers, Renderer};
use vstd::prelude::*;
use vstd::string::StringSliceAdditionalSpecFns;

verus! {

/// The 3x5 bitmap of byte `c`: five rows of three bits, the high bit being
/// the leftmost pixel; bytes without a glyph have none.
pub open spec fn glyph_bits(c: u8) -> Option<[u8; 5]> {
    match c {
        65 /* A */ => Some([2, 5, 7, 5, 5]),
        66 /* B */ => Some([6, 5, 6, 5, 6]),
        67 /* C */ => Some([3, 4, 4, 4, 3]),
        68 /* D */ => Some([6, 5, 5, 5, 6]),
        69 /* E */ => Some([7, 4, 6, 4, 7]),
        70 /* F */ => Some([7, 4, 6, 4, 4]),
        71 /* G */ => Some([3, 4, 5, 5, 3]),
        72 /* H */ => Some([5, 5, 7, 5, 5]),
        73 /* I */ => Some([7, 2, 2, 2, 7]),
        74 /* J */ => Some([1, 1, 1, 5, 2]),
        75 /* K */ => Some([5, 5, 6, 5, 5]),
        76 /* L */ => Some([4, 4, 4, 4, 7]),
        77 /* M */ => Some([5, 7, 7, 5, 5]),
        78 /* N */ => Some([5, 7, 5, 5, 5]),
        79 /* O */ => Some([2, 5, 5, 5, 2]),
        80 /* P */ => Some([6, 5, 6, 4, 4]),
        81 /* Q */ => Some([2, 5, 5, 6, 3]),
        82 /* R */ => Some([6, 5, 6, 5, 5]),
        83 /* S */ => Some([3, 4, 2, 1, 6]),
        84 /* T */ => Some([7, 2, 2, 2, 2]),
        85 /* U */ => Some([5, 5, 5, 5, 3]),
        86 /* V */ => Some([5, 5, 5, 5, 2]),
        87 /* W */ => Some([5, 5, 5, 7, 5]),
        88 /* X */ => Some([5, 5, 2, 5, 5]),
        89 /* Y */ => Some([5, 5, 2, 2, 2]),
        90 /* Z */ => Some([7, 1, 2, 4, 7]),
        48 /* 0 */ => Some([2, 5, 5, 5, 2]),
        49 /* 1 */ => Some([2, 6, 2, 2, 7]),
        50 /* 2 */ => Some([3, 1, 2, 4, 7]),
        51 /* 3 */ => Some([3, 1, 3, 1, 3]),
        52 /* 4 */ => Some([5, 5, 7, 1, 1]),
        53 /* 5 */ => Some([7, 4, 6, 1, 6]),
        54 /* 6 */ => Some([3, 4, 6, 5, 2]),
        55 /* 7 */ => Some([7, 1, 1, 2, 2]),
        56 /* 8 */ => Some([2, 5, 7, 5, 2]),
        57 /* 9 */ => Some([2, 5, 5, 1, 3]),
        32 /*   */ => Some([0, 0, 0, 0, 0]),
        46 /* . */ => Some([0, 0, 0, 0, 2]),
        44 /* , */ => Some([0, 0, 0, 2, 4]),
        58 /* : */ => Some([0, 2, 0, 2, 0]),
        47 /* / */ => Some([1, 1, 2, 4, 4]),
        45 /* - */ => Some([0, 0, 7, 0, 0]),
        43 /* + */ => Some([0, 2, 7, 2, 0]),
        33 /* ! */ => Some([2, 2, 2, 0, 2]),
        63 /* ? */ => Some([3, 1, 2, 0, 2]),
        39 /* ' */ => Some([2, 2, 0, 0, 0]),
        62 /* > */ => Some([4, 2, 1, 2, 4]),
        60 /* < */ => Some([1, 2, 4, 2, 1]),
        61 /* = */ => Some([0, 7, 0, 7, 0]),
        37 /* % */ => Some([5, 1, 2, 4, 5]),
        _ => None,
    }
}

/// The capital letter a 3x5 bitmap reads as, if any: how the letters of
/// the period font are recognised on screen.
pub open spec fn read_letter(g: [u8; 5]) -> Option<u8> {
    if g == [2u8, 5, 7, 5, 5] {
        Some(65u8)
    } else if g == [6u8, 5, 6, 5, 6] {
        Some(66u8)
    } else if g == [3u8, 4, 4, 4, 3] {
        Some(67u8)
    } else if g == [6u8, 5, 5, 5, 6] {
        Some(68u8)
    } else if g == [7u8, 4, 6, 4, 7] {
        Some(69u8)
    } else if g == [7u8, 4, 6, 4, 4] {
        Some(70u8)
    } else if g == [3u8, 4, 5, 5, 3] {
        Some(71u8)
    } else if g == [5u8, 5, 7, 5, 5] {
        Some(72u8)
    } else if g == [7u8, 2, 2, 2, 7] {
        Some(73u8)
    } else if g == [1u8, 1, 1, 5, 2] {
        Some(74u8)
    } else if g == [5u8, 5, 6, 5, 5] {
        Some(75u8)
    } else if g == [4u8, 4, 4, 4, 7] {
        Some(76u8)
    } else if g == [5u8, 7, 7, 5, 5] {
        Some(77u8)
    } else if g == [5u8, 7, 5, 5, 5] {
        Some(78u8)
    } else if g == [2u8, 5, 5, 5, 2] {
        Some(79u8)
    } else if g == [6u8, 5, 6, 4, 4] {
        Some(80u8)
    } else if g == [2u8, 5, 5, 6, 3] {
        Some(81u8)
    } else if g == [6u8, 5, 6, 5, 5] {
        Some(82u8)
    } else if g == [3u8, 4, 2, 1, 6] {
        Some(83u8)
    } else if g == [7u8, 2, 2, 2, 2] {
        Some(84u8)
    } else if g == [5u8, 5, 5, 5, 3] {
        Some(85u8)
    } else if g == [5u8, 5, 5, 5, 2] {
        Some(86u8)
    } else if g == [5u8, 5, 5, 7, 5] {
        Some(87u8)
    } else if g == [5u8, 5, 2, 5, 5] {
        Some(88u8)
    } else if g == [5u8, 5, 2, 2, 2] {
        Some(89u8)
    } else if g == [7u8, 1, 2, 4, 7] {
        Some(90u8)
    } else {
        None
    }
}

/// Every capital letter has a bitmap, and that bitmap reads back as the
/// same letter: no letter is drawn like another one or like a bitmap the
/// reader does not know.
pub proof fn lemma_letters_read_back(c: u8)
    requires
        65 <= c <= 90,
    ensures
        glyph_bits(c) is Some,
        read_letter(glyph_bits(c)->0) == Some(c),
{
}

/// The capital letters are told apart: two different letters never share
/// a bitmap.
pub proof fn lemma_letters_distinct(a: u8, b: u8)
    requires
        65 <= a <= 90,
        65 <= b <= 90,
        a != b,
    ensures
        glyph_bits(a) != glyph_bits(b),
{
    lemma_letters_read_back(a);
    lemma_letters_read_back(b);
}

/// Each glyph row fits the three columns of a cell.
pub proof fn lemma_glyph_rows_fit(c: u8)
    ensures
        glyph_bits(c) matches Some(g) ==> forall|r: int| 0 <= r < 5 ==> g[r] < 8,
{
}

/// Bitmap of byte `c` in the period 3x5 font.
pub fn glyph(c: u8) -> (g: Option<[u8; 5]>)
    ensures
        g == glyph_bits(c),
{
    Some(
        match c {
            65 /* A */ => [2, 5, 7, 5, 5],
            66 /* B */ => [6, 5, 6, 5, 6],
            67 /* C */ => [3, 4, 4, 4, 3],
            68 /* D */ => [6, 5, 5, 5, 6],
            69 /* E */ => [7, 4, 6, 4, 7],
            70 /* F */ => [7, 4, 6, 4, 4],
            71 /* G */ => [3, 4, 5, 5, 3],
            72 /* H */ => [5, 5, 7, 5, 5],
            73 /* I */ => [7, 2, 2, 2, 7],
            74 /* J */ => [1, 1, 1, 5, 2],
            75 /* K */ => [5, 5, 6, 5, 5],
            76 /* L */ => [4, 4, 4, 4, 7],
            77 /* M */ => [5, 7, 7, 5, 5],
            78 /* N */ => [5, 7, 5, 5, 5],
            79 /* O */ => [2, 5, 5, 5, 2],
            80 /* P */ => [6, 5, 6, 4, 4],
            81 /* Q */ => [2, 5, 5, 6, 3],
            82 /* R */ => [6, 5, 6, 5, 5],
            83 /* S */ => [3, 4, 2, 1, 6],
            84 /* T */ => [7, 2, 2, 2, 2],
            85 /* U */ => [5, 5, 5, 5, 3],
            86 /* V */ => [5, 5, 5, 5, 2],
            87 /* W */ => [5, 5, 5, 7, 5],
            88 /* X */ => [5, 5, 2, 5, 5],
            89 /* Y */ => [5, 5, 2, 2, 2],
            90 /* Z */ => [7, 1, 2, 4, 7],
            48 /* 0 */ => [2, 5, 5, 5, 2],
            49 /* 1 */ => [2, 6, 2, 2, 7],
            50 /* 2 */ => [3, 1, 2, 4, 7],
            51 /* 3 */ => [3, 1, 3, 1, 3],
            52 /* 4 */ => [5, 5, 7, 1, 1],
            53 /* 5 */ => [7, 4, 6, 1, 6],
            54 /* 6 */ => [3, 4, 6, 5, 2],
            55 /* 7 */ => [7, 1, 1, 2, 2],
            56 /* 8 */ => [2, 5, 7, 5, 2],
            57 /* 9 */ => [2, 5, 5, 1, 3],
            32 /*   */ => [0, 0, 0, 0, 0],
            46 /* . */ => [0, 0, 0, 0, 2],
            44 /* , */ => [0, 0, 0, 2, 4],
            58 /* : */ => [0, 2, 0, 2, 0],
            47 /* / */ => [1, 1, 2, 4, 4],
            45 /* - */ => [0, 0, 7, 0, 0],
            43 /* + */ => [0, 2, 7, 2, 0],
            33 /* ! */ => [2, 2, 2, 0, 2],
            63 /* ? */ => [3, 1, 2, 0, 2],
            39 /* ' */ => [2, 2, 0, 0, 0],
            62 /* > */ => [4, 2, 1, 2, 4],
            60 /* < */ => [1, 2, 4, 2, 1],
            61 /* = */ => [0, 7, 0, 7, 0],
            37 /* % */ => [5, 1, 2, 4, 5],
            _ => {
                return None;
            },
        },
    )
}

/// Width in pixels of `s` drawn with the 3x5 font at `scale`: four columns
/// per byte (three lit, one gap) minus the trailing gap.
pub fn text_width(s: &str, scale: i32) -> (w: i32)
    requires
        s.spec_bytes().len() * 4 <= i32::MAX,
        i32::MIN <= s.spec_bytes().len() * 4 * scale <= i32::MAX,
        i32::MIN <= s.spec_bytes().len() * 4 * scale - scale <= i32::MAX,
    ensures
        w == s.spec_bytes().len() * 4 * scale - scale,
{
    let n = s.len() as i32;
    n * 4 * scale - scale
}

/// Cell `(row, col)` of bitmap `g` is lit.
pub open spec fn cell_lit(g: [u8; 5], row: int, col: int) -> bool {
    (g[row] >> ((2 - col) as u8)) & 1u8 == 1u8
}

/// Pixel `k` lies under a lit cell, among the first cells in row-major
/// order before `(row_end, col_end)`, of bitmap `g` drawn at `(cx, y)` with
/// `scale`-pixel cells on a `w` by `h` buffer.
pub open spec fn glyph_cells_cover(
    g: [u8; 5],
    cx: int,
    y: int,
    scale: int,
    w: int,
    h: int,
    row_end: int,
    col_end: int,
    k: int,
) -> bool {
    exists|row: int, col: int|
        0 <= row < 5 && 0 <= col < 3 && (row < row_end || (row == row_end && col < col_end))
            && #[trigger] cell_lit(g, row, col) && rect_covers(
            w,
            h,
            cx + col * scale,
            y + row * scale,
            cx + col * scale + scale - 1,
            y + row * scale + scale - 1,
            k,
        )
}

/// Pixel `k` lies under a lit cell of bitmap `g` drawn at `(cx, y)`.
pub open spec fn glyph_covers(g: [u8; 5], cx: int, y: int, scale: int, w: int, h: int, k: int) -> bool {
    glyph_cells_cover(g, cx, y, scale, w, h, 5, 0, k)
}

/// Pixel `k` lies under a lit cell of the glyph that character `ch` shows
/// when drawn at `(cx, y)`; characters beyond ASCII and bytes without a
/// glyph show nothing.
pub open spec fn char_covers(ch: char, cx: int, y: int, scale: int, w: int, h: int, k: int) -> bool {
    (ch as u32) < 128 && match glyph_bits(ch as u8) {
        Some(g) => glyph_covers(g, cx, y, scale, w, h, k),
        None => false,
    }
}

/// Pixel `k` lies under a lit cell of text `chars` drawn from `(x, y)`,
/// each character advancing four cells.
pub open spec fn text_covers(chars: Seq<char>, x: int, y: int, scale: int, w: int, h: int, k: int) -> bool {
    exists|i: int|
        0 <= i < chars.len() && #[trigger] char_covers(chars[i], x + 4 * scale * i, y, scale, w, h, k)
}

/// A scale below one gives every font cell no rows, so text covers no
/// pixel.
proof fn lemma_text_needs_scale(chars: Seq<char>, x: int, y: int, scale: int, w: int, h: int, k: int)
    requires
        text_covers(chars, x, y, scale, w, h, k),
    ensures
        scale >= 1,
{
    let i = choose|i: int| 0 <= i < chars.len() && #[trigger] char_covers(chars[i], x + 4 * scale * i, y, scale, w, h, k);
    let cx = x + 4 * scale * i;
    let g = glyph_bits(chars[i] as u8)->Some_0;
    let (row, col) = choose|row: int, col: int|
        0 <= row < 5 && 0 <= col < 3 && (row < 5 || (row == 5 && col < 0))
            && #[trigger] cell_lit(g, row, col) && rect_covers(
            w,
            h,
            cx + col * scale,
            y + row * scale,
            cx + col * scale + scale - 1,
            y + row * scale + scale - 1,
            k,
        );
}

/// Text drawn by `draw_text` stays in its box: the pixels it paints lie in
/// the `text_width` columns from `x` and the five cell rows from `y`.
pub proof fn lemma_text_within_width(chars: Seq<char>, x: int, y: int, scale: int, w: int, h: int, k: int)
    requires
        scale >= 1,
        w >= 1,
        text_covers(chars, x, y, scale, w, h, k),
    ensures
        x <= k % w <= x + chars.len() * 4 * scale - scale - 1,
        y <= k / w <= y + 5 * scale - 1,
{
    let i = choose|i: int| 0 <= i < chars.len() && #[trigger] char_covers(chars[i], x + 4 * scale * i, y, scale, w, h, k);
    let cx = x + 4 * scale * i;
    let g = glyph_bits(chars[i] as u8)->Some_0;
    let (row, col) = choose|row: int, col: int|
        0 <= row < 5 && 0 <= col < 3 && (row < 5 || (row == 5 && col < 0))
            && #[trigger] cell_lit(g, row, col) && rect_covers(
            w,
            h,
            cx + col * scale,
            y + row * scale,
            cx + col * scale + scale - 1,
            y + row * scale + scale - 1,
            k,
        );
    assert(0 <= col * scale <= 2 * scale) by (nonlinear_arith)
        requires
            0 <= col < 3,
            scale >= 1,
    ;
    assert(0 <= row * scale <= 4 * scale) by (nonlinear_arith)
        requires
            0 <= row < 5,
            scale >= 1,
    ;
    assert(0 <= 4 * scale * i <= chars.len() * 4 * scale - 4 * scale) by (nonlinear_arith)
        requires
            0 <= i < chars.len(),
            scale >= 1,
    ;
}

/// Painting two sets of pixels with one color paints their union.
pub proof fn lemma_paint_union(px: Seq<u8>, a: spec_fn(int) -> bool, b: spec_fn(int) -> bool, c: u8)
    ensures
        paint(paint(px, a, c), b, c) == paint(px, |k: int| a(k) || b(k), c),
{
    assert(paint(paint(px, a, c), b, c) =~= paint(px, |k: int| a(k) || b(k), c));
}

/// Draw the lit cells of bitmap `g` at `(cx, y)`.
fn draw_glyph(r: &mut Renderer, cx: i32, y: i32, g: [u8; 5], c: u8, scale: i32)
    requires
        old(r).wf(),
        old(r).w >= 1,
        old(r).h >= 1,
        scale >= 1,
        5 * scale <= i32::MAX,
        cx + 3 * scale <= i32::MAX,
        y + 5 * scale <= i32::MAX,
    ensures
        final(r).wf(),
        final(r).w == old(r).w,
        final(r).h == old(r).h,
        final(r).pal == old(r).pal,
        final(r).pixels() == paint(
            old(r).pixels(),
            |k: int| glyph_covers(g, cx as int, y as int, scale as int, old(r).w as int, old(r).h as int, k),
            c,
        ),
{
    let ghost w = r.w as int;
    let ghost h = r.h as int;
    let ghost start = r.pixels();
    assert(r.pixels() =~= paint(
        start,
        |k: int| glyph_cells_cover(g, cx as int, y as int, scale as int, w, h, 0, 0, k),
        c,
    ));
    let mut row: i32 = 0;
    while row < 5
        invariant
            r.wf(),
            r.w == old(r).w,
            r.h == old(r).h,
            r.pal == old(r).pal,
            w == r.w,
            h == r.h,
            w >= 1,
            h >= 1,
            start == old(r).pixels(),
            scale >= 1,
            5 * scale <= i32::MAX,
            cx + 3 * scale <= i32::MAX,
            y + 5 * scale <= i32::MAX,
            0 <= row <= 5,
            r.pixels() == paint(
                start,
                |k: int| glyph_cells_cover(g, cx as int, y as int, scale as int, w, h, row as int, 0, k),
                c,
            ),
        decreases 5 - row,
    {
        let bits = g[row as usize];
        let mut col: i32 = 0;
        while col < 3
            invariant
                r.wf(),
                r.w == old(r).w,
                r.h == old(r).h,
                r.pal == old(r).pal,
                w == r.w,
                h == r.h,
                w >= 1,
                h >= 1,
                start == old(r).pixels(),
                scale >= 1,
                5 * scale <= i32::MAX,
                cx + 3 * scale <= i32::MAX,
                y + 5 * scale <= i32::MAX,
                0 <= row < 5,
                0 <= col <= 3,
                bits == g[row as int],
                r.pixels() == paint(
                    start,
                    |k: int|
                        glyph_cells_cover(
                            g,
                            cx as int,
                            y as int,
                            scale as int,
                            w,
                            h,
                            row as int,
                            col as int,
                            k,
                        ),
                    c,
                ),
            decreases 3 - col,
        {
            proof {
                vstd::arithmetic::mul::lemma_mul_inequality(col as int, 2, scale as int);
                vstd::arithmetic::mul::lemma_mul_inequality(row as int, 4, scale as int);
                vstd::arithmetic::mul::lemma_mul_nonnegative(col as int, scale as int);
                vstd::arithmetic::mul::lemma_mul_nonnegative(row as int, scale as int);
            }
            let ghost before = r.pixels();
            let lit = (bits >> ((2 - col) as u32)) & 1 == 1;
            assert(lit == cell_lit(g, row as int, col as int)) by {
                assert((bits >> ((2 - col) as u32)) == (bits >> ((2 - col) as u8)));
            }
            let ghost rect_k = |k: int|
                rect_covers(
                    w,
                    h,
                    cx + col * scale,
                    y + row * scale,
                    cx + col * scale + scale - 1,
                    y + row * scale + scale - 1,
                    k,
                );
            if lit {
                r.rect(
                    cx + col * scale,
                    y + row * scale,
                    cx + col * scale + scale - 1,
                    y + row * scale + scale - 1,
                    c,
                );
                proof {
                    lemma_paint_union(
                        start,
                        |k: int|
                            glyph_cells_cover(
                                g,
                                cx as int,
                                y as int,
                                scale as int,
                                w,
                                h,
                                row as int,
                                col as int,
                                k,
                            ),
                        rect_k,
                        c,
                    );
                }
            }
            proof {
                assert forall|k: int|
                    (glyph_cells_cover(
                        g,
                        cx as int,
                        y as int,
                        scale as int,
                        w,
                        h,
                        row as int,
                        col as int,
                        k,
                    ) || (lit && rect_k(k))) == glyph_cells_cover(
                        g,
                        cx as int,
                        y as int,
                        scale as int,
                        w,
                        h,
                        row as int,
                        col + 1,
                        k,
                    ) by {
                    if glyph_cells_cover(
                        g,
                        cx as int,
                        y as int,
                        scale as int,
                        w,
                        h,
                        row as int,
                        col + 1,
                        k,
                    ) {
                        let (rr, cc) = choose|rr: int, cc: int|
                            0 <= rr < 5 && 0 <= cc < 3 && (rr < row || (rr == row && cc < col
                                + 1)) && #[trigger] cell_lit(g, rr, cc) && rect_covers(
                                w,
                                h,
                                cx + cc * scale,
                                y + rr * scale,
                                cx + cc * scale + scale - 1,
                                y + rr * scale + scale - 1,
                                k,
                            );
                        if !(rr < row || (rr == row && cc < col)) {
                            assert(rr == row && cc == col);
                        }
                    }
                    if lit && rect_k(k) {
                        assert(cell_lit(g, row as int, col as int));
                    }
                }
                assert(r.pixels() =~= paint(
                    start,
                    |k: int|
                        glyph_cells_cover(
                            g,
                            cx as int,
                            y as int,
                            scale as int,
                            w,
                            h,
                            row as int,
                            col + 1,
                            k,
                        ),
                    c,
                ));
            }
            col += 1;
        }
        proof {
            assert forall|k: int|
                glyph_cells_cover(g, cx as int, y as int, scale as int, w, h, row as int, 3, k)
                    == glyph_cells_cover(g, cx as int, y as int, scale as int, w, h, row + 1, 0, k) by {
                if glyph_cells_cover(g, cx as int, y as int, scale as int, w, h, row + 1, 0, k) {
                    let (rr, cc) = choose|rr: int, cc: int|
                        0 <= rr < 5 && 0 <= cc < 3 && (rr < row + 1 || (rr == row + 1 && cc < 0))
                            && #[trigger] cell_lit(g, rr, cc) && rect_covers(
                            w,
                            h,
                            cx + cc * scale,
                            y + rr * scale,
                            cx + cc * scale + scale - 1,
                            y + rr * scale + scale - 1,
                            k,
                        );
                    assert(rr < row || (rr == row && cc < 3));
                }
            }
            assert(r.pixels() =~= paint(
                start,
                |k: int| glyph_cells_cover(g, cx as int, y as int, scale as int, w, h, row + 1, 0, k),
                c,
            ));
        }
        row += 1;
    }
}

/// Draw `s` at `(x, y)` in palette color `c`, each font cell `scale` pixels
/// square and each character four cells wide. Characters beyond ASCII and
/// bytes without a glyph leave a blank space; a scale below one draws
/// nothing.
pub fn draw_text(r: &mut Renderer, x: i32, y: i32, s: &str, c: u8, scale: i32)
    requires
        old(r).wf(),
        old(r).w >= 1,
        old(r).h >= 1,
        5 * scale <= i32::MAX,
        x + 4 * scale * s@.len() <= i32::MAX,
        y + 5 * scale <= i32::MAX,
    ensures
        final(r).wf(),
        final(r).w == old(r).w,
        final(r).h == old(r).h,
        final(r).pal == old(r).pal,
        final(r).pixels() == paint(
            old(r).pixels(),
            |k: int| text_covers(s@, x as int, y as int, scale as int, old(r).w as int, old(r).h as int, k),
            c,
        ),
{
    let ghost w = r.w as int;
    let ghost h = r.h as int;
    let ghost start = r.pixels();
    let ghost chars = s@;
    if scale < 1 {
        proof {
            assert forall|k: int| !text_covers(chars, x as int, y as int, scale as int, w, h, k) by {
                if text_covers(chars, x as int, y as int, scale as int, w, h, k) {
                    lemma_text_needs_scale(chars, x as int, y as int, scale as int, w, h, k);
                }
            }
        }
        assert(r.pixels() =~= paint(
            start,
            |k: int| text_covers(chars, x as int, y as int, scale as int, w, h, k),
            c,
        ));
        return;
    }
    let mut cx = x;
    let mut n: usize = 0;
    assert(r.pixels() =~= paint(
        start,
        |k: int| text_covers(chars.take(0), x as int, y as int, scale as int, w, h, k),
        c,
    ));
    for ch in it: s.chars()
        invariant
            r.wf(),
            r.w == old(r).w,
            r.h == old(r).h,
            r.pal == old(r).pal,
            w == r.w,
            h == r.h,
            w >= 1,
            h >= 1,
            start == old(r).pixels(),
            chars == s@,
            it.seq() == chars,
            n == it.index(),
            n <= chars.len(),
            scale >= 1,
            5 * scale <= i32::MAX,
            x + 4 * scale * chars.len() <= i32::MAX,
            y + 5 * scale <= i32::MAX,
            cx == x + 4 * scale * n,
            r.pixels() == paint(
                start,
                |k: int| text_covers(chars.take(n as int), x as int, y as int, scale as int, w, h, k),
                c,
            ),
    {
        let ghost prev = r.pixels();
        proof {
            assert(n < chars.len());
            vstd::arithmetic::mul::lemma_mul_inequality(1, 4 * scale, chars.len() as int);
            vstd::arithmetic::mul::lemma_mul_inequality(n as int + 1, chars.len() as int, 4 * scale);
            vstd::arithmetic::mul::lemma_mul_is_distributive_add(4 * scale, n as int, 1);
            vstd::arithmetic::mul::lemma_mul_is_commutative(4 * scale, n as int + 1);
            vstd::arithmetic::mul::lemma_mul_is_commutative(4 * scale, chars.len() as int);
            vstd::arithmetic::mul::lemma_mul_nonnegative(4 * scale, n as int);
        }
        let ghost here = |k: int| char_covers(ch, cx as int, y as int, scale as int, w, h, k);
        let ghost pre = |k: int| text_covers(chars.take(n as int), x as int, y as int, scale as int, w, h, k);
        if (ch as u32) < 128 {
            match glyph(ch as u8) {
                Some(g) => {
                    draw_glyph(r, cx, y, g, c, scale);
                    proof {
                        assert((ch as u32) < 128);
                        assert(glyph_bits(ch as u8) == Some(g));
                        lemma_paint_union(
                            start,
                            pre,
                            |k: int| glyph_covers(g, cx as int, y as int, scale as int, w, h, k),
                            c,
                        );
                        assert(r.pixels() =~= paint(start, |k: int| pre(k) || here(k), c));
                    }
                },
                None => {
                    assert(r.pixels() =~= paint(start, |k: int| pre(k) || here(k), c));
                },
            }
        } else {
            assert(r.pixels() =~= paint(start, |k: int| pre(k) || here(k), c));
        }
        proof {
            assert(chars[n as int] == ch);
            assert forall|k: int|
                (text_covers(chars.take(n as int), x as int, y as int, scale as int, w, h, k)
                    || here(k)) == text_covers(chars.take(n + 1), x as int, y as int, scale as int, w, h, k) by {
                let pre = chars.take(n as int);
                let post = chars.take(n + 1);
                if text_covers(post, x as int, y as int, scale as int, w, h, k) {
                    let i = choose|i: int|
                        0 <= i < post.len() && #[trigger] char_covers(post[i], x + 4 * scale * i, y as int, scale as int, w, h, k);
                    if i < n {
                        assert(pre[i] == post[i]);
                    } else {
                        assert(i == n);
                    }
                }
                if text_covers(pre, x as int, y as int, scale as int, w, h, k) {
                    let i = choose|i: int|
                        0 <= i < pre.len() && #[trigger] char_covers(pre[i], x + 4 * scale * i, y as int, scale as int, w, h, k);
                    assert(pre[i] == post[i]);
                }
                if here(k) {
                    assert(post[n as int] == ch);
                    assert(char_covers(post[n as int], x + 4 * scale * n, y as int, scale as int, w, h, k));
                }
            }
            assert(r.pixels() =~= paint(
                start,
                |k: int| text_covers(chars.take(n + 1), x as int, y as int, scale as int, w, h, k),
                c,
            ));
        }
        cx += 4 * scale;
        n += 1;
    }
    assert(chars.take(n as int) =~= chars);
}

} // verus!
