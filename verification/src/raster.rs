//! Integer raster steps of text baking: the glyph-coverage canvas and the
//! square max-filter that grows coverage into an outline. Grids are row-major
//! byte buffers, `w` cells wide.

use vstd::prelude::*;
use vstd::arithmetic::div_mod::{lemma_fundamental_div_mod_converse_div, lemma_fundamental_div_mod_converse_mod};

verus! {

/// The larger of two bytes.
pub open spec fn max8(a: u8, b: u8) -> u8 {
    if a >= b { a } else { b }
}

/// The cell at column `x`, row `y` of a `w`-wide grid.
pub open spec fn px(g: Seq<u8>, w: int, x: int, y: int) -> u8 {
    g[y * w + x]
}

/// Largest value in row `y` over columns `lo..=hi` (zero for an empty range).
pub open spec fn row_max(g: Seq<u8>, w: int, y: int, lo: int, hi: int) -> u8
    decreases hi - lo + 1,
{
    if hi < lo {
        0
    } else {
        max8(row_max(g, w, y, lo, hi - 1), px(g, w, hi, y))
    }
}

/// Largest value in column `x` over rows `lo..=hi` (zero for an empty range).
pub open spec fn col_max(g: Seq<u8>, w: int, x: int, lo: int, hi: int) -> u8
    decreases hi - lo + 1,
{
    if hi < lo {
        0
    } else {
        max8(col_max(g, w, x, lo, hi - 1), px(g, w, x, hi))
    }
}

/// Largest value in the box of columns `xlo..=xhi` and rows `ylo..=yhi`.
pub open spec fn box_max(g: Seq<u8>, w: int, xlo: int, xhi: int, ylo: int, yhi: int) -> u8
    decreases yhi - ylo + 1,
{
    if yhi < ylo {
        0
    } else {
        max8(box_max(g, w, xlo, xhi, ylo, yhi - 1), row_max(g, w, yhi, xlo, xhi))
    }
}

/// First coordinate of a radius-`r` window around `c`, clipped at zero.
pub open spec fn win_lo(c: int, r: int) -> int {
    if c >= r { c - r } else { 0 }
}

/// Last coordinate of a radius-`r` window around `c`, clipped at `n - 1`.
pub open spec fn win_hi(c: int, r: int, n: int) -> int {
    if c + r <= n - 1 { c + r } else { n - 1 }
}

/// The largest coverage within `r` cells of (x, y) along each axis: the value
/// of the dilated grid at (x, y).
pub open spec fn dilated_at(g: Seq<u8>, w: int, h: int, r: int, x: int, y: int) -> u8 {
    box_max(g, w, win_lo(x, r), win_hi(x, r, w), win_lo(y, r), win_hi(y, r, h))
}

/// Row-major cells of a `w` by `h` grid lie inside it.
pub proof fn lemma_cell_in_grid(w: int, h: int, x: int, y: int)
    requires
        0 <= x < w,
        0 <= y < h,
    ensures
        0 <= y * w + x < w * h,
        y * w + x + 1 <= w * h,
{
    assert(0 <= y * w + x < w * h && y * w + x + 1 <= w * h) by (nonlinear_arith)
        requires
            0 <= x < w,
            0 <= y < h,
    ;
}

/// The flat index of (x, y) gives back x and y.
pub proof fn lemma_cell_coords(w: int, x: int, y: int)
    requires
        0 <= x < w,
        0 <= y,
    ensures
        (y * w + x) % w == x,
        (y * w + x) / w == y,
{
    lemma_fundamental_div_mod_converse_mod(y * w + x, w, y, x);
    lemma_fundamental_div_mod_converse_div(y * w + x, w, y, x);
}

/// A row or column maximum is at least each value in its range.
pub proof fn lemma_row_max_bounds(g: Seq<u8>, w: int, y: int, lo: int, hi: int, x: int)
    requires
        lo <= x <= hi,
    ensures
        row_max(g, w, y, lo, hi) >= px(g, w, x, y),
    decreases hi - lo + 1,
{
    if x < hi {
        lemma_row_max_bounds(g, w, y, lo, hi - 1, x);
    }
}

/// A box maximum is at least each value in its box.
pub proof fn lemma_box_max_bounds(g: Seq<u8>, w: int, xlo: int, xhi: int, ylo: int, yhi: int, x: int, y: int)
    requires
        xlo <= x <= xhi,
        ylo <= y <= yhi,
    ensures
        box_max(g, w, xlo, xhi, ylo, yhi) >= px(g, w, x, y),
    decreases yhi - ylo + 1,
{
    if y < yhi {
        lemma_box_max_bounds(g, w, xlo, xhi, ylo, yhi - 1, x, y);
    } else {
        lemma_row_max_bounds(g, w, y, xlo, xhi, x);
    }
}

/// A column maximum over row maxima is the box maximum.
proof fn lemma_col_of_rows(g: Seq<u8>, t: Seq<u8>, w: int, x: int, xlo: int, xhi: int, lo: int, hi: int)
    requires
        forall|yy: int| lo <= yy <= hi ==> #[trigger] px(t, w, x, yy) == row_max(g, w, yy, xlo, xhi),
    ensures
        col_max(t, w, x, lo, hi) == box_max(g, w, xlo, xhi, lo, hi),
    decreases hi - lo + 1,
{
    if hi >= lo {
        lemma_col_of_rows(g, t, w, x, xlo, xhi, lo, hi - 1);
        assert(px(t, w, x, hi) == row_max(g, w, hi, xlo, xhi));
    }
}

/// Dilating by radius zero leaves every cell as it was.
pub proof fn lemma_dilate_zero_is_identity(g: Seq<u8>, w: int, h: int, x: int, y: int)
    requires
        0 <= x < w,
        0 <= y < h,
    ensures
        dilated_at(g, w, h, 0, x, y) == px(g, w, x, y),
{
    assert(row_max(g, w, y, x, x - 1) == 0);
    assert(row_max(g, w, y, x, x) == px(g, w, x, y));
    assert(box_max(g, w, x, x, y, y - 1) == 0);
}

/// Dilation only grows coverage: each cell of the dilated grid is at least the
/// cell it came from.
pub proof fn lemma_dilate_covers(g: Seq<u8>, w: int, h: int, r: int, x: int, y: int)
    requires
        0 <= x < w,
        0 <= y < h,
        r >= 0,
    ensures
        dilated_at(g, w, h, r, x, y) >= px(g, w, x, y),
{
    lemma_box_max_bounds(g, w, win_lo(x, r), win_hi(x, r, w), win_lo(y, r), win_hi(y, r, h), x, y);
}

/// A row maximum is zero or the value of some cell in its range.
proof fn lemma_row_max_attained(g: Seq<u8>, w: int, y: int, lo: int, hi: int)
    ensures
        row_max(g, w, y, lo, hi) == 0
            || exists|x: int| lo <= x <= hi && #[trigger] px(g, w, x, y) == row_max(g, w, y, lo, hi),
    decreases hi - lo + 1,
{
    if hi >= lo {
        lemma_row_max_attained(g, w, y, lo, hi - 1);
        if row_max(g, w, y, lo, hi) == px(g, w, hi, y) {
        } else {
            let m = row_max(g, w, y, lo, hi - 1);
            if m != 0 {
                let x = choose|x: int| lo <= x <= hi - 1 && #[trigger] px(g, w, x, y) == m;
                assert(px(g, w, x, y) == row_max(g, w, y, lo, hi));
            }
        }
    }
}

/// A box maximum is zero or the value of some cell in its box.
proof fn lemma_box_max_attained(g: Seq<u8>, w: int, xlo: int, xhi: int, ylo: int, yhi: int)
    ensures
        box_max(g, w, xlo, xhi, ylo, yhi) == 0
            || exists|x: int, y: int| xlo <= x <= xhi && ylo <= y <= yhi
                && #[trigger] px(g, w, x, y) == box_max(g, w, xlo, xhi, ylo, yhi),
    decreases yhi - ylo + 1,
{
    if yhi >= ylo {
        lemma_box_max_attained(g, w, xlo, xhi, ylo, yhi - 1);
        lemma_row_max_attained(g, w, yhi, xlo, xhi);
        let b = box_max(g, w, xlo, xhi, ylo, yhi);
        let prev = box_max(g, w, xlo, xhi, ylo, yhi - 1);
        let row = row_max(g, w, yhi, xlo, xhi);
        if b != 0 {
            if b == row {
                let x = choose|x: int| xlo <= x <= xhi && #[trigger] px(g, w, x, yhi) == row;
                assert(px(g, w, x, yhi) == b);
            } else {
                let (x, y) = choose|x: int, y: int| xlo <= x <= xhi && ylo <= y <= yhi - 1
                    && #[trigger] px(g, w, x, y) == prev;
                assert(px(g, w, x, y) == b);
            }
        }
    }
}

/// The outline reaches exactly `r` cells: the dilated value at (x, y) is at
/// least every grid cell within `r` columns and `r` rows of it, and it is the
/// value of one of those cells (or zero), so nothing further away leaks in.
pub proof fn lemma_dilate_is_window_max(g: Seq<u8>, w: int, h: int, r: int, x: int, y: int)
    requires
        0 <= x < w,
        0 <= y < h,
        r >= 0,
    ensures
        forall|x2: int, y2: int| 0 <= x2 < w && 0 <= y2 < h && x - r <= x2 <= x + r && y - r <= y2 <= y + r
            ==> dilated_at(g, w, h, r, x, y) >= #[trigger] px(g, w, x2, y2),
        dilated_at(g, w, h, r, x, y) == 0
            || exists|x2: int, y2: int| 0 <= x2 < w && 0 <= y2 < h && x - r <= x2 <= x + r && y - r <= y2 <= y + r
                && #[trigger] px(g, w, x2, y2) == dilated_at(g, w, h, r, x, y),
{
    let xlo = win_lo(x, r);
    let xhi = win_hi(x, r, w);
    let ylo = win_lo(y, r);
    let yhi = win_hi(y, r, h);
    assert forall|x2: int, y2: int| 0 <= x2 < w && 0 <= y2 < h && x - r <= x2 <= x + r && y - r <= y2 <= y + r
        implies dilated_at(g, w, h, r, x, y) >= #[trigger] px(g, w, x2, y2) by {
        lemma_box_max_bounds(g, w, xlo, xhi, ylo, yhi, x2, y2);
    }
    lemma_box_max_attained(g, w, xlo, xhi, ylo, yhi);
}

/// A single covered cell spreads to the full square of side `2r + 1` around
/// it, clipped to the grid.
pub proof fn lemma_dilate_spreads_point(g: Seq<u8>, w: int, h: int, r: int, cx: int, cy: int, x: int, y: int)
    requires
        0 <= cx < w,
        0 <= cy < h,
        0 <= x < w,
        0 <= y < h,
        r >= 0,
        cx - r <= x <= cx + r,
        cy - r <= y <= cy + r,
    ensures
        dilated_at(g, w, h, r, x, y) >= px(g, w, cx, cy),
{
    lemma_dilate_is_window_max(g, w, h, r, x, y);
    assert(0 <= cx < w && 0 <= cy < h && x - r <= cx <= x + r && y - r <= cy <= y + r);
}

/// Horizontal pass: each cell becomes the maximum of its row window.
fn dilate_rows(cov: &[u8], w: usize, h: usize, r: usize) -> (t: Vec<u8>)
    requires
        cov@.len() == w * h,
        w + r <= usize::MAX,
    ensures
        t@.len() == w * h,
        forall|x: int, y: int| 0 <= x < w && 0 <= y < h ==>
            #[trigger] px(t@, w as int, x, y) == row_max(cov@, w as int, y, win_lo(x, r as int), win_hi(x, r as int, w as int)),
{
    proof { assert(cov@.len() == cov.len()); }
    let mut t: Vec<u8> = Vec::new();
    let mut y: usize = 0;
    while y < h
        invariant
            y <= h,
            cov@.len() == w * h,
            w * h <= usize::MAX,
            w + r <= usize::MAX,
            t@.len() == y * w,
            forall|k: int| 0 <= k < t@.len() ==>
                #[trigger] t@[k] == row_max(cov@, w as int, k / (w as int), win_lo(k % (w as int), r as int), win_hi(k % (w as int), r as int, w as int)),
        decreases h - y,
    {
        let mut x: usize = 0;
        while x < w
            invariant
                y < h,
                x <= w,
                cov@.len() == w * h,
                w * h <= usize::MAX,
                w + r <= usize::MAX,
                t@.len() == y * w + x,
                forall|k: int| 0 <= k < t@.len() ==>
                    #[trigger] t@[k] == row_max(cov@, w as int, k / (w as int), win_lo(k % (w as int), r as int), win_hi(k % (w as int), r as int, w as int)),
            decreases w - x,
        {
            let x0: usize = if x >= r { x - r } else { 0 };
            let x1: usize = if x + r <= w - 1 { x + r } else { w - 1 };
            let mut m: u8 = 0;
            let mut xx: usize = x0;
            while xx <= x1
                invariant
                    x0 <= xx <= x1 + 1,
                    x1 < w,
                    y < h,
                    cov@.len() == w * h,
                    w * h <= usize::MAX,
                    m == row_max(cov@, w as int, y as int, x0 as int, xx - 1),
                decreases x1 + 1 - xx,
            {
                proof {
                    lemma_cell_in_grid(w as int, h as int, xx as int, y as int);
                }
                let c = cov[y * w + xx];
                if c > m {
                    m = c;
                }
                xx = xx + 1;
            }
            proof {
                lemma_cell_coords(w as int, x as int, y as int);
                lemma_cell_in_grid(w as int, h as int, x as int, y as int);
            }
            t.push(m);
            x = x + 1;
        }
        proof {
            assert((y + 1) * w == y * w + w) by (nonlinear_arith);
        }
        y = y + 1;
    }
    proof {
        assert(h * w == w * h) by (nonlinear_arith);
        assert forall|x: int, y: int| 0 <= x < w && 0 <= y < h implies
            #[trigger] px(t@, w as int, x, y) == row_max(cov@, w as int, y, win_lo(x, r as int), win_hi(x, r as int, w as int)) by {
            lemma_cell_coords(w as int, x, y);
            lemma_cell_in_grid(w as int, h as int, x, y);
            assert(t@[y * (w as int) + x] == px(t@, w as int, x, y));
        }
    }
    t
}

/// Vertical pass over the row maxima: each cell becomes the maximum of its
/// column window, which is the maximum of its square window in `cov`.
fn dilate_cols(cov: &[u8], t: &Vec<u8>, w: usize, h: usize, r: usize) -> (out: Vec<u8>)
    requires
        cov@.len() == w * h,
        t@.len() == w * h,
        h + r <= usize::MAX,
        forall|x: int, y: int| 0 <= x < w && 0 <= y < h ==>
            #[trigger] px(t@, w as int, x, y) == row_max(cov@, w as int, y, win_lo(x, r as int), win_hi(x, r as int, w as int)),
    ensures
        out@.len() == w * h,
        forall|x: int, y: int| 0 <= x < w && 0 <= y < h ==>
            #[trigger] px(out@, w as int, x, y) == dilated_at(cov@, w as int, h as int, r as int, x, y),
{
    proof { assert(t@.len() == t.len()); }
    let mut out: Vec<u8> = Vec::new();
    let mut y: usize = 0;
    while y < h
        invariant
            y <= h,
            t@.len() == w * h,
            w * h <= usize::MAX,
            h + r <= usize::MAX,
            out@.len() == y * w,
            forall|k: int| 0 <= k < out@.len() ==>
                #[trigger] out@[k] == col_max(t@, w as int, k % (w as int), win_lo(k / (w as int), r as int), win_hi(k / (w as int), r as int, h as int)),
        decreases h - y,
    {
        let y0: usize = if y >= r { y - r } else { 0 };
        let y1: usize = if y + r <= h - 1 { y + r } else { h - 1 };
        let mut x: usize = 0;
        while x < w
            invariant
                y < h,
                x <= w,
                y0 == win_lo(y as int, r as int),
                y1 == win_hi(y as int, r as int, h as int),
                y1 < h,
                t@.len() == w * h,
                w * h <= usize::MAX,
                out@.len() == y * w + x,
                forall|k: int| 0 <= k < out@.len() ==>
                    #[trigger] out@[k] == col_max(t@, w as int, k % (w as int), win_lo(k / (w as int), r as int), win_hi(k / (w as int), r as int, h as int)),
            decreases w - x,
        {
            let mut m: u8 = 0;
            let mut yy: usize = y0;
            while yy <= y1
                invariant
                    y0 <= yy <= y1 + 1,
                    y1 < h,
                    x < w,
                    t@.len() == w * h,
                    w * h <= usize::MAX,
                    m == col_max(t@, w as int, x as int, y0 as int, yy - 1),
                decreases y1 + 1 - yy,
            {
                proof {
                    lemma_cell_in_grid(w as int, h as int, x as int, yy as int);
                }
                let c = t[yy * w + x];
                if c > m {
                    m = c;
                }
                yy = yy + 1;
            }
            proof {
                lemma_cell_coords(w as int, x as int, y as int);
                lemma_cell_in_grid(w as int, h as int, x as int, y as int);
            }
            out.push(m);
            x = x + 1;
        }
        proof {
            assert((y + 1) * w == y * w + w) by (nonlinear_arith);
        }
        y = y + 1;
    }
    proof {
        assert(h * w == w * h) by (nonlinear_arith);
        assert forall|x: int, y: int| 0 <= x < w && 0 <= y < h implies
            #[trigger] px(out@, w as int, x, y) == dilated_at(cov@, w as int, h as int, r as int, x, y) by {
            lemma_cell_coords(w as int, x, y);
            lemma_cell_in_grid(w as int, h as int, x, y);
            assert(out@[y * (w as int) + x] == px(out@, w as int, x, y));
            lemma_col_of_rows(cov@, t@, w as int, x, win_lo(x, r as int), win_hi(x, r as int, w as int),
                win_lo(y, r as int), win_hi(y, r as int, h as int));
        }
    }
    out
}

/// Separable square max-filter: grows covered regions by `r` cells in every
/// direction to form an outline. Each cell of the result is the largest
/// coverage within `r` cells of it along both axes, clipped at the edges.
pub fn dilate(cov: &[u8], w: usize, h: usize, r: usize) -> (out: Vec<u8>)
    requires
        cov@.len() == w * h,
        w + r <= usize::MAX,
        h + r <= usize::MAX,
    ensures
        out@.len() == w * h,
        forall|x: int, y: int| 0 <= x < w && 0 <= y < h ==>
            #[trigger] px(out@, w as int, x, y) == dilated_at(cov@, w as int, h as int, r as int, x, y),
{
    if r == 0 {
        let out = vstd::slice::slice_to_vec(cov);
        proof {
            assert forall|x: int, y: int| 0 <= x < w && 0 <= y < h implies
                #[trigger] px(out@, w as int, x, y) == dilated_at(cov@, w as int, h as int, r as int, x, y) by {
                lemma_dilate_zero_is_identity(cov@, w as int, h as int, x, y);
            }
        }
        return out;
    }
    let t = dilate_rows(cov, w, h, r);
    dilate_cols(cov, &t, w, h, r)
}

/// Coverage of a `gw` by `gh` glyph bitmap at glyph cell (gx, gy); zero
/// outside the glyph.
pub open spec fn glyph_at(bitmap: Seq<u8>, gw: int, gh: int, gx: int, gy: int) -> u8 {
    if 0 <= gx < gw && 0 <= gy < gh { bitmap[gy * gw + gx] } else { 0 }
}

/// Glyph coverage restricted to the first `done` cells in row-major order.
pub open spec fn glyph_prefix_at(bitmap: Seq<u8>, gw: int, gh: int, done: int, gx: int, gy: int) -> u8 {
    if 0 <= gx < gw && 0 <= gy < gh && gy * gw + gx < done { bitmap[gy * gw + gx] } else { 0 }
}

/// Two cells of a `w`-wide grid share a flat index only if they are the same cell.
proof fn lemma_cell_index_injective(w: int, x1: int, y1: int, x2: int, y2: int)
    requires
        0 <= x1 < w,
        0 <= x2 < w,
        0 <= y1,
        0 <= y2,
        y1 * w + x1 == y2 * w + x2,
    ensures
        x1 == x2,
        y1 == y2,
{
    lemma_cell_coords(w, x1, y1);
    lemma_cell_coords(w, x2, y2);
}

/// Stamps a glyph bitmap onto a coverage canvas with its top-left cell at
/// (x0, y0), keeping the larger coverage in each cell; glyph cells that fall
/// outside the canvas are dropped.
pub fn stamp_glyph(cov: &mut Vec<u8>, w: usize, h: usize, x0: i32, y0: i32, bitmap: &[u8], gw: usize, gh: usize)
    requires
        old(cov)@.len() == w * h,
        bitmap@.len() == gw * gh,
        w <= i32::MAX,
        h <= i32::MAX,
        gw <= i32::MAX,
        gh <= i32::MAX,
        x0 + gw <= i32::MAX,
        y0 + gh <= i32::MAX,
    ensures
        final(cov)@.len() == w * h,
        forall|x: int, y: int| 0 <= x < w && 0 <= y < h ==>
            #[trigger] px(final(cov)@, w as int, x, y)
                == max8(px(old(cov)@, w as int, x, y), glyph_at(bitmap@, gw as int, gh as int, x - x0, y - y0)),
{
    proof { assert(cov@.len() == cov.len()); }
    proof { assert(bitmap@.len() == bitmap.len()); }
    let ghost start = cov@;
    let ghost wi = w as int;
    let ghost gwi = gw as int;
    let mut gy: usize = 0;
    while gy < gh
        invariant
            gy <= gh,
            cov@.len() == w * h,
            w * h <= usize::MAX,
            bitmap@.len() == gw * gh,
            gw * gh <= usize::MAX,
            w <= i32::MAX,
            h <= i32::MAX,
            gw <= i32::MAX,
            gh <= i32::MAX,
            x0 + gw <= i32::MAX,
            y0 + gh <= i32::MAX,
            wi == w,
            gwi == gw,
            forall|x: int, y: int| 0 <= x < w && 0 <= y < h ==>
                #[trigger] px(cov@, wi, x, y)
                    == max8(px(start, wi, x, y), glyph_prefix_at(bitmap@, gwi, gh as int, gy * gwi, x - x0, y - y0)),
        decreases gh - gy,
    {
        let mut gx: usize = 0;
        while gx < gw
            invariant
                gy < gh,
                gx <= gw,
                cov@.len() == w * h,
                w * h <= usize::MAX,
                bitmap@.len() == gw * gh,
                gw * gh <= usize::MAX,
                w <= i32::MAX,
                h <= i32::MAX,
                gw <= i32::MAX,
                gh <= i32::MAX,
                x0 + gw <= i32::MAX,
                y0 + gh <= i32::MAX,
                wi == w,
                gwi == gw,
                forall|x: int, y: int| 0 <= x < w && 0 <= y < h ==>
                    #[trigger] px(cov@, wi, x, y)
                        == max8(px(start, wi, x, y), glyph_prefix_at(bitmap@, gwi, gh as int, gy * gwi + gx, x - x0, y - y0)),
            decreases gw - gx,
        {
            proof {
                lemma_cell_in_grid(gwi, gh as int, gx as int, gy as int);
            }
            let c = bitmap[gy * gw + gx];
            let dx: i32 = x0 + gx as i32;
            let dy: i32 = y0 + gy as i32;
            let ghost done = gy * gwi + gx;
            let ghost before = cov@;
            if c != 0 && dx >= 0 && dy >= 0 && dx < w as i32 && dy < h as i32 {
                proof {
                    lemma_cell_in_grid(wi, h as int, dx as int, dy as int);
                }
                let idx = dy as usize * w + dx as usize;
                if c > cov[idx] {
                    cov.set(idx, c);
                }
                proof {
                    assert forall|x: int, y: int| 0 <= x < w && 0 <= y < h implies
                        #[trigger] px(cov@, wi, x, y)
                            == max8(px(start, wi, x, y), glyph_prefix_at(bitmap@, gwi, gh as int, done + 1, x - x0, y - y0)) by {
                        lemma_cell_in_grid(wi, h as int, x, y);
                        assert(px(before, wi, x, y) == max8(px(start, wi, x, y), glyph_prefix_at(bitmap@, gwi, gh as int, done, x - x0, y - y0)));
                        if x == dx && y == dy {
                            lemma_cell_coords(gwi, gx as int, gy as int);
                        } else {
                            if y * wi + x == dy * wi + dx {
                                lemma_cell_index_injective(wi, x, y, dx as int, dy as int);
                            }
                            let gxx = x - x0;
                            let gyy = y - y0;
                            if 0 <= gxx < gwi && 0 <= gyy < gh && gyy * gwi + gxx == done {
                                lemma_cell_index_injective(gwi, gxx, gyy, gx as int, gy as int);
                            }
                        }
                    }
                }
            } else {
                proof {
                    assert forall|x: int, y: int| 0 <= x < w && 0 <= y < h implies
                        #[trigger] px(cov@, wi, x, y)
                            == max8(px(start, wi, x, y), glyph_prefix_at(bitmap@, gwi, gh as int, done + 1, x - x0, y - y0)) by {
                        let gxx = x - x0;
                        let gyy = y - y0;
                        if 0 <= gxx < gwi && 0 <= gyy < gh && gyy * gwi + gxx == done {
                            lemma_cell_index_injective(gwi, gxx, gyy, gx as int, gy as int);
                        }
                    }
                }
            }
            gx = gx + 1;
        }
        proof {
            assert((gy + 1) * gwi == gy * gwi + gwi) by (nonlinear_arith);
        }
        gy = gy + 1;
    }
    proof {
        assert forall|x: int, y: int| 0 <= x < w && 0 <= y < h implies
            #[trigger] px(cov@, wi, x, y)
                == max8(px(start, wi, x, y), glyph_at(bitmap@, gwi, gh as int, x - x0, y - y0)) by {
            let gxx = x - x0;
            let gyy = y - y0;
            if 0 <= gxx < gwi && 0 <= gyy < gh {
                lemma_cell_in_grid(gwi, gh as int, gxx, gyy);
                assert(gh * gwi == gwi * gh) by (nonlinear_arith);
            }
        }
    }
}

/// Vertical extent of a glyph: the row of its lowest pixel relative to the
/// baseline (negative below it) and its height in pixels.
pub type GlyphExtent = (i32, usize);

/// Highest pixel row above the baseline over all glyphs, at least one.
pub open spec fn max_top(exts: Seq<GlyphExtent>) -> int
    decreases exts.len(),
{
    if exts.len() == 0 {
        1
    } else {
        let rest = max_top(exts.drop_last());
        let top = exts.last().0 + exts.last().1;
        if top > rest { top } else { rest }
    }
}

/// Lowest pixel row over all glyphs, at most zero (the baseline).
pub open spec fn min_bottom(exts: Seq<GlyphExtent>) -> int
    decreases exts.len(),
{
    if exts.len() == 0 {
        0
    } else {
        let rest = min_bottom(exts.drop_last());
        if exts.last().0 < rest { exts.last().0 as int } else { rest }
    }
}

/// The text box reaches every glyph: its top is at least one row above the
/// baseline and at least every glyph's top (lowest row plus height), and it
/// is one of those rows; its bottom is at most the baseline and at most every
/// glyph's lowest row, and it is one of those rows.
pub proof fn lemma_extent_bounds(exts: Seq<GlyphExtent>)
    ensures
        max_top(exts) >= 1,
        forall|i: int| 0 <= i < exts.len() ==> max_top(exts) >= (#[trigger] exts[i]).0 + exts[i].1,
        max_top(exts) == 1 || exists|i: int| 0 <= i < exts.len() && max_top(exts) == (#[trigger] exts[i]).0 + exts[i].1,
        min_bottom(exts) <= 0,
        forall|i: int| 0 <= i < exts.len() ==> min_bottom(exts) <= (#[trigger] exts[i]).0,
        min_bottom(exts) == 0 || exists|i: int| 0 <= i < exts.len() && min_bottom(exts) == (#[trigger] exts[i]).0,
    decreases exts.len(),
{
    if exts.len() > 0 {
        let rest = exts.drop_last();
        lemma_extent_bounds(rest);
        let n = exts.len() - 1;
        assert forall|i: int| 0 <= i < exts.len() implies max_top(exts) >= (#[trigger] exts[i]).0 + exts[i].1
            && min_bottom(exts) <= exts[i].0 by {
            if i < n {
                assert(exts[i] == rest[i]);
            }
        }
        if max_top(exts) != 1 {
            if max_top(exts) == exts[n].0 + exts[n].1 {
            } else {
                let i = choose|i: int| 0 <= i < rest.len() && max_top(rest) == (#[trigger] rest[i]).0 + rest[i].1;
                assert(exts[i] == rest[i]);
            }
        }
        if min_bottom(exts) != 0 {
            if min_bottom(exts) == exts[n].0 {
            } else {
                let i = choose|i: int| 0 <= i < rest.len() && min_bottom(rest) == (#[trigger] rest[i]).0;
                assert(exts[i] == rest[i]);
            }
        }
    }
}

/// Every glyph lands inside the text box: measured from the box's top row
/// (the ascent), a glyph starts at or below it and ends at or above its
/// bottom row, so with the padding added no glyph row falls off the canvas.
pub proof fn lemma_glyphs_fit_text_box(exts: Seq<GlyphExtent>, i: int)
    requires
        0 <= i < exts.len(),
    ensures
        max_top(exts) - (exts[i].0 + exts[i].1) >= 0,
        max_top(exts) - (exts[i].0 + exts[i].1) + exts[i].1 <= max_top(exts) - min_bottom(exts),
{
    lemma_extent_bounds(exts);
    assert(max_top(exts) >= exts[i].0 + exts[i].1);
    assert(min_bottom(exts) <= exts[i].0);
}

/// Size of the canvas a line of text is drawn on.
#[derive(Clone, Copy, Debug, PartialEq, Eq, Structural)]
pub struct CanvasLayout {
    /// Canvas width in pixels, padding included.
    pub width: usize,
    /// Canvas height in pixels, padding included.
    pub height: usize,
    /// Pixel rows above the baseline.
    pub ascent: i32,
    /// Empty border on each side, wide enough for the outline.
    pub pad: usize,
}

/// Lays out the canvas for a line whose pen advance rounds up to `text_width`
/// pixels and whose glyphs have the given vertical extents: the text box spans
/// from the highest glyph top (at least one row above the baseline) down to the
/// lowest glyph bottom (at least the baseline), at least one pixel each way,
/// with a border of `outline + 2` pixels all round.
pub fn canvas_layout(text_width: usize, extents: &Vec<GlyphExtent>, outline: usize) -> (l: CanvasLayout)
    requires
        forall|i: int| 0 <= i < extents@.len() ==>
            (#[trigger] extents@[i]).1 <= i32::MAX && extents@[i].0 + extents@[i].1 <= i32::MAX,
        max_top(extents@) - min_bottom(extents@) <= i32::MAX,
        outline + 2 <= usize::MAX,
        (if text_width > 0 { text_width as int } else { 1 }) + 2 * (outline + 2) <= usize::MAX,
        max_top(extents@) - min_bottom(extents@) + 2 * (outline + 2) <= usize::MAX,
    ensures
        l.pad == outline + 2,
        l.ascent == max_top(extents@),
        l.width == (if text_width > 0 { text_width as int } else { 1 }) + 2 * l.pad,
        l.height == max_top(extents@) - min_bottom(extents@) + 2 * l.pad,
{
    let n = extents.len();
    let mut top: i32 = 1;
    let mut bottom: i32 = 0;
    let mut i: usize = 0;
    while i < n
        invariant
            i <= n,
            n == extents@.len(),
            forall|j: int| 0 <= j < extents@.len() ==>
                (#[trigger] extents@[j]).1 <= i32::MAX && extents@[j].0 + extents@[j].1 <= i32::MAX,
            top == max_top(extents@.take(i as int)),
            bottom == min_bottom(extents@.take(i as int)),
        decreases n - i,
    {
        assert(extents@.take(i + 1).drop_last() == extents@.take(i as int));
        let (ymin, gh) = extents[i];
        let t: i32 = ymin + gh as i32;
        if t > top {
            top = t;
        }
        if ymin < bottom {
            bottom = ymin;
        }
        i = i + 1;
    }
    assert(extents@.take(n as int) == extents@);
    let pad = outline + 2;
    let text_w: usize = if text_width > 0 { text_width } else { 1 };
    let text_h: usize = (top as i64 - bottom as i64) as usize;
    CanvasLayout { width: text_w + 2 * pad, height: text_h + 2 * pad, ascent: top, pad }
}

/// Canvas cell of a glyph's top-left pixel: `left_px` columns from the left
/// of the text box and `ymin + glyph_height` rows above the baseline, shifted
/// by the padding.
pub fn glyph_origin(layout: &CanvasLayout, left_px: i32, ymin: i32, glyph_height: usize) -> (o: (i32, i32))
    requires
        layout.pad <= i32::MAX,
        glyph_height <= i32::MAX,
        i32::MIN <= left_px + layout.pad <= i32::MAX,
        i32::MIN <= ymin + glyph_height <= i32::MAX,
        i32::MIN <= layout.ascent - (ymin + glyph_height) <= i32::MAX,
        i32::MIN <= layout.ascent - (ymin + glyph_height) + layout.pad <= i32::MAX,
    ensures
        o.0 == left_px + layout.pad,
        o.1 == layout.ascent - (ymin + glyph_height) + layout.pad,
{
    let pad = layout.pad as i32;
    (left_px + pad, (layout.ascent - (ymin + glyph_height as i32)) + pad)
}

} // verus!
