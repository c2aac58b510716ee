use vstd::prelude::*;
use crate::text::{push_repeat, repeat};

verus! {

/// Size of the terminal: rows and columns of the character grid, and the
/// pixel width (`x`) and height (`y`) of one cell.
#[derive(Clone, Copy, Debug, PartialEq, Eq, Structural)]
pub struct TermSize {
    pub row: u16,
    pub col: u16,
    pub x: u16,
    pub y: u16,
}

/// An image placed in the text: its footprint in cells (columns, rows), the
/// file it was read from, and an identifier that is left empty.
#[derive(Debug)]
pub struct Image {
    pub size: (u32, u32),
    pub path: String,
    pub id: String,
}

impl Image {
    /// An image of the file `path` with no footprint yet.
    pub fn new(path: &str) -> (r: Image)
        ensures
            r.size == (0u32, 0u32),
            r.path@ == path@,
            r.id@ == Seq::<char>::empty(),
    {
        Image { size: (0, 0), path: path.to_string(), id: String::new() }
    }
}

/// `x / y` rounded up, and 0 when `y` is 0.
pub open spec fn ceil_div(x: int, y: int) -> int {
    if y <= 0 {
        0
    } else {
        (x + y - 1) / y
    }
}

/// Rows the image needs at its natural size.
pub open spec fn rows_needed(h_px: int, t: TermSize) -> int {
    ceil_div(h_px * t.row, t.y as int)
}

/// Columns the image needs at its natural size.
pub open spec fn cols_needed(w_px: int, t: TermSize) -> int {
    ceil_div(w_px * t.col, t.x as int)
}

/// Columns the image takes once clamped to the terminal width.
pub open spec fn cols_fit(w_px: int, t: TermSize) -> int {
    let c = cols_needed(w_px, t);
    if c < t.col {
        c
    } else {
        t.col as int
    }
}

/// Rows the image takes once its width is clamped, keeping its aspect ratio.
pub open spec fn rows_fit(w_px: int, h_px: int, t: TermSize) -> int {
    ceil_div(cols_fit(w_px, t) * rows_needed(h_px, t), cols_needed(w_px, t))
}

/// The footprint in cells (columns, rows) of an image of `w_px` by `h_px`
/// pixels; a height beyond `u32::MAX` is held at `u32::MAX`.
pub open spec fn fitted_cells(w_px: int, h_px: int, t: TermSize) -> (u32, u32) {
    let r = rows_fit(w_px, h_px, t);
    (cols_fit(w_px, t) as u32, if r <= u32::MAX { r as u32 } else { u32::MAX })
}

/// `x / y` rounded up, and 0 when `y` is 0.
pub fn ceil(x: u128, y: u128) -> (r: u128)
    requires
        x + y <= u128::MAX,
    ensures
        r == ceil_div(x as int, y as int),
{
    if y == 0 {
        0
    } else {
        (x + (y - 1)) / y
    }
}

proof fn lemma_ceil_le(x: int, y: int, b: int)
    requires
        0 <= x <= b * y,
        y > 0,
        b >= 0,
    ensures
        0 <= ceil_div(x, y) <= b,
{
    assert((x + y - 1) / y <= b) by (nonlinear_arith)
        requires 0 <= x <= b * y, y > 0, b >= 0;
    assert((x + y - 1) / y >= 0) by (nonlinear_arith)
        requires 0 <= x, y > 0;
}

/// Footprint in cells (columns, rows) of an image of `w_px` by `h_px` pixels
/// on the terminal `t`. The width never exceeds the terminal's columns.
pub fn fit_image(w_px: u32, h_px: u32, t: TermSize) -> (r: (u32, u32))
    ensures
        r == fitted_cells(w_px as int, h_px as int, t),
        r.0 <= t.col,
{
    let rows = t.row as u128;
    let cols = t.col as u128;
    let hp = h_px as u128;
    let wp = w_px as u128;
    assert(hp * rows <= 0xffff_ffff * 0xffff) by (nonlinear_arith)
        requires hp <= 0xffff_ffff, rows <= 0xffff;
    assert(wp * cols <= 0xffff_ffff * 0xffff) by (nonlinear_arith)
        requires wp <= 0xffff_ffff, cols <= 0xffff;
    let rn = ceil(hp * rows, t.y as u128);
    let cn = ceil(wp * cols, t.x as u128);
    proof {
        if t.y > 0 {
            lemma_ceil_le(hp * rows, t.y as int, (0xffff_ffff * 0xffff) as int);
        }
        if t.x > 0 {
            lemma_ceil_le(wp * cols, t.x as int, (0xffff_ffff * 0xffff) as int);
        }
    }
    let cf = if cn < cols { cn } else { cols };
    assert(cf * rn <= 0xffff * (0xffff_ffff * 0xffff)) by (nonlinear_arith)
        requires cf <= 0xffff, rn <= 0xffff_ffff * 0xffff;
    let rf = ceil(cf * rn, cn);
    proof {
        if cn > 0 {
            assert(cf * rn <= rn * cn) by (nonlinear_arith)
                requires cf <= cn, rn >= 0;
            lemma_ceil_le(cf * rn, cn as int, rn as int);
        }
    }
    let h = if rf <= 0xffff_ffff { rf as u32 } else { 0xffff_ffff };
    (cf as u32, h)
}

/// Filler that ends each row of a grid `h` rows high: up to the terminal
/// width when the grid spans more than one row, else nothing.
pub open spec fn row_padding(w: nat, h: nat, cols: nat) -> Seq<char> {
    if h > 1 {
        repeat('N', (cols - w) as nat)
    } else {
        Seq::empty()
    }
}

/// `k` copies of `row`, one after the other.
pub open spec fn repeat_rows(row: Seq<char>, k: nat) -> Seq<char>
    decreases k,
{
    if k == 0 {
        Seq::empty()
    } else {
        repeat_rows(row, (k - 1) as nat) + row
    }
}

/// The text that reserves room for an image of `w` by `h` cells: a start
/// marker `S` and `w - 1` fill markers `I` on the first row, then `h - 1` rows
/// of `w` fill markers, each row padded with `N` markers as `row_padding` says.
pub open spec fn glyph_grid(w: nat, h: nat, cols: nat) -> Seq<char> {
    let pad = row_padding(w, h, cols);
    let first = seq!['S'] + repeat('I', if w > 0 { (w - 1) as nat } else { 0 }) + pad;
    let row = repeat('I', w) + pad;
    first + repeat_rows(row, if h > 0 { (h - 1) as nat } else { 0 })
}

/// Builds the placeholder text for an image of `w` by `h` cells on a
/// terminal `cols` columns wide.
pub fn placeholder(w: u32, h: u32, cols: u16) -> (r: String)
    requires
        h > 1 ==> w <= cols,
    ensures
        r@ == glyph_grid(w as nat, h as nat, cols as nat),
{
    let pad: usize = if h > 1 { (cols as usize) - (w as usize) } else { 0 };
    let mut row = String::new();
    push_repeat(&mut row, 'I', w as usize);
    push_repeat(&mut row, 'N', pad);
    let mut out = String::new();
    push_repeat(&mut out, 'S', 1);
    push_repeat(&mut out, 'I', if w > 0 { (w - 1) as usize } else { 0 });
    push_repeat(&mut out, 'N', pad);
    let ghost pad_s = row_padding(w as nat, h as nat, cols as nat);
    let ghost row_s = repeat('I', w as nat) + pad_s;
    assert(row@ == row_s);
    assert(out@ =~= seq!['S'] + repeat('I', if w > 0 { (w - 1) as nat } else { 0 }) + pad_s);
    let ghost first = out@;
    let rest: u32 = if h > 0 { h - 1 } else { 0 };
    let mut k: u32 = 0;
    while k < rest
        invariant
            k <= rest,
            row@ == row_s,
            out@ == first + repeat_rows(row_s, k as nat),
        decreases rest - k,
    {
        out.append(row.as_str());
        k = k + 1;
        assert(out@ =~= first + repeat_rows(row_s, k as nat));
    }
    out
}

} // verus!
