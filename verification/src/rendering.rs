//! Filling RGBA images: the terminal pixmap copied into a texture, and a
//! debug image that draws the cell grid of the screen, one rectangle at a
//! time.
use vstd::prelude::*;

use crate::color::{vt100_debug_color, vt_rgba, Rgba, VtColor};
use crate::screen::{
    screen_cell, screen_cursor_position, screen_hides_cursor, vt_cell, vt_cursor_position,
    vt_hide_cursor, CellInfo,
};

verus! {

pub const DEBUG_BG: Rgba = [18, 20, 28, 255];
pub const DEBUG_GRID: Rgba = [33, 36, 48, 255];
pub const DEBUG_GRID_OUTLINE: Rgba = [51, 57, 72, 255];
pub const DEBUG_CURSOR: Rgba = [126, 156, 216, 255];
pub const DEBUG_FG_FALLBACK: Rgba = [220, 215, 186, 255];
pub const DEBUG_BG_FALLBACK: Rgba = [31, 31, 40, 255];
pub const DEBUG_BOLD_OUTLINE: Rgba = [255, 255, 255, 90];

/// The image `rgb` (three bytes a pixel) as RGBA, fully opaque, in a buffer
/// of `len` bytes: the pixels that both hold are copied, the bytes past
/// them are those of `old` (zero where `old` was shorter).
pub open spec fn rgba_from_rgb(old: Seq<u8>, rgb: Seq<u8>, len: nat) -> Seq<u8> {
    Seq::new(
        len,
        |i: int|
            if i / 4 < len / 4 && i / 4 < rgb.len() / 3 {
                if i % 4 == 3 {
                    255u8
                } else {
                    rgb[3 * (i / 4) + i % 4]
                }
            } else if i < old.len() {
                old[i]
            } else {
                0u8
            },
    )
}

/// Resizes `data` to `width * height` RGBA pixels and copies the RGB pixmap
/// `rgb` into it, with full alpha.
pub fn sync_terminal_image(data: &mut Vec<u8>, rgb: &[u8], width: u32, height: u32)
    requires
        width as int * height as int * 4 <= usize::MAX,
    ensures
        final(data)@ == rgba_from_rgb(old(data)@, rgb@, (width as int * height as int * 4) as nat),
{
    let ghost old_data = data@;
    proof {
        vstd::arithmetic::mul::lemma_mul_nonnegative(width as int, height as int);
    }
    let rgba_len = width as usize * height as usize * 4;
    if data.len() != rgba_len {
        data.resize(rgba_len, 0);
    }
    let ghost sized = data@;
    assert(forall|i: int| 0 <= i < rgba_len ==> sized[i] == if i < old_data.len() { old_data[i] } else { 0u8 }) by {
        assert forall|i: int| 0 <= i < rgba_len implies sized[i] == if i < old_data.len() { old_data[i] } else { 0u8 } by {
            if old_data.len() < rgba_len && i >= old_data.len() {
                assert(vstd::pervasive::cloned::<u8>(0u8, sized[i]));
            }
        }
    }
    let pixels = if rgba_len / 4 < rgb.len() / 3 { rgba_len / 4 } else { rgb.len() / 3 };
    let mut p: usize = 0;
    while p < pixels
        invariant
            p <= pixels,
            pixels <= rgba_len / 4,
            pixels <= rgb@.len() / 3,
            data@.len() == rgba_len,
            rgba_len == width as int * height as int * 4,
            forall|i: int|
                0 <= i < rgba_len ==> #[trigger] data@[i] == if i / 4 < p {
                    if i % 4 == 3 {
                        255u8
                    } else {
                        rgb@[3 * (i / 4) + i % 4]
                    }
                } else {
                    sized[i]
                },
            forall|i: int| 0 <= i < rgba_len ==> sized[i] == if i < old_data.len() { old_data[i] } else { 0u8 },
        decreases pixels - p,
    {
        let d = 4 * p;
        let s = 3 * p;
        data.set(d, rgb[s]);
        data.set(d + 1, rgb[s + 1]);
        data.set(d + 2, rgb[s + 2]);
        data.set(d + 3, 255);
        p += 1;
    }
    assert(data@ =~= rgba_from_rgb(old_data, rgb@, rgba_len as nat));
}

/// A rectangle of pixels, from (`x0`, `y0`) up to but not including
/// (`x1`, `y1`); it is empty when `x0 >= x1` or `y0 >= y1`.
#[derive(Clone, Copy, Debug, PartialEq, Eq, Structural)]
pub struct CellRect {
    pub x0: u32,
    pub y0: u32,
    pub x1: u32,
    pub y1: u32,
}

pub open spec fn sat_sub(a: int, b: int) -> int {
    if a >= b { a - b } else { 0 }
}

pub open spec fn sat_add_u32(a: int, b: int) -> int {
    if a + b <= u32::MAX { a + b } else { u32::MAX as int }
}

pub open spec fn min(a: int, b: int) -> int {
    if a <= b { a } else { b }
}

pub open spec fn max(a: int, b: int) -> int {
    if a >= b { a } else { b }
}

impl CellRect {
    pub open spec fn is_empty(self) -> bool {
        self.x0 >= self.x1 || self.y0 >= self.y1
    }

    pub open spec fn contains(self, x: int, y: int) -> bool {
        self.x0 <= x < self.x1 && self.y0 <= y < self.y1
    }

    pub open spec fn spec_inset(self, amount: u32) -> CellRect {
        CellRect {
            x0: sat_add_u32(self.x0 as int, amount as int) as u32,
            y0: sat_add_u32(self.y0 as int, amount as int) as u32,
            x1: sat_sub(self.x1 as int, amount as int) as u32,
            y1: sat_sub(self.y1 as int, amount as int) as u32,
        }
    }

    /// The rectangle shrunk by `amount` on every side.
    pub fn inset(self, amount: u32) -> (r: CellRect)
        ensures
            r == self.spec_inset(amount),
    {
        CellRect {
            x0: self.x0.saturating_add(amount),
            y0: self.y0.saturating_add(amount),
            x1: self.x1.saturating_sub(amount),
            y1: self.y1.saturating_sub(amount),
        }
    }

    pub open spec fn spec_width(self) -> int {
        sat_sub(self.x1 as int, self.x0 as int)
    }

    pub open spec fn spec_height(self) -> int {
        sat_sub(self.y1 as int, self.y0 as int)
    }

    /// The width, zero for an empty rectangle.
    pub fn width(self) -> (w: u32)
        ensures
            w == self.spec_width(),
    {
        self.x1.saturating_sub(self.x0)
    }

    /// The height, zero for an empty rectangle.
    pub fn height(self) -> (h: u32)
        ensures
            h == self.spec_height(),
    {
        self.y1.saturating_sub(self.y0)
    }

    pub open spec fn spec_centered_subrect(self, width: u32, height: u32) -> CellRect {
        let x0 = self.x0 + sat_sub(self.spec_width(), width as int) / 2;
        let y0 = self.y0 + sat_sub(self.spec_height(), height as int) / 2;
        CellRect {
            x0: x0 as u32,
            y0: y0 as u32,
            x1: min(x0 + width, self.x1 as int) as u32,
            y1: min(y0 + height, self.y1 as int) as u32,
        }
    }

    /// Whether `centered_subrect` can compute its corners in 32 bits.
    pub open spec fn can_center(self, width: u32, height: u32) -> bool {
        &&& self.x0 + sat_sub(self.spec_width(), width as int) / 2 + width <= u32::MAX
        &&& self.y0 + sat_sub(self.spec_height(), height as int) / 2 + height <= u32::MAX
    }

    /// A `width` by `height` rectangle centred in this one, clipped to it.
    pub fn centered_subrect(self, width: u32, height: u32) -> (r: CellRect)
        requires
            self.can_center(width, height),
        ensures
            r == self.spec_centered_subrect(width, height),
    {
        let x0 = self.x0 + self.width().saturating_sub(width) / 2;
        let y0 = self.y0 + self.height().saturating_sub(height) / 2;
        let x1 = if x0 + width < self.x1 { x0 + width } else { self.x1 };
        let y1 = if y0 + height < self.y1 { y0 + height } else { self.y1 };
        CellRect { x0, y0, x1, y1 }
    }
}

/// One drawing step: a rectangle filled with a colour.
pub type DrawOp = (CellRect, Rgba);

/// The image `img`, `width` pixels a row, with the pixels of `rect` set to
/// `color`.
pub open spec fn draw_rect_img(img: Seq<u8>, width: nat, rect: CellRect, color: Rgba) -> Seq<u8> {
    Seq::new(
        img.len(),
        |i: int|
            if rect.contains((i / 4) % (width as int), (i / 4) / (width as int)) {
                color[i % 4]
            } else {
                img[i]
            },
    )
}

/// The image after the drawing steps `ops`, in order.
pub open spec fn paint(img: Seq<u8>, width: nat, ops: Seq<DrawOp>) -> Seq<u8>
    decreases ops.len(),
{
    if ops.len() == 0 {
        img
    } else {
        draw_rect_img(paint(img, width, ops.drop_last()), width, ops.last().0, ops.last().1)
    }
}

/// Every pixel of the image set to `color` (a trailing partial pixel is
/// left as it was).
pub open spec fn fill_img(img: Seq<u8>, color: Rgba) -> Seq<u8> {
    Seq::new(img.len(), |i: int| if i / 4 < img.len() / 4 { color[i % 4] } else { img[i] })
}

/// The four one-pixel edges of a rectangle: top, bottom, left, right; none
/// for an empty rectangle.
pub open spec fn outline_ops(rect: CellRect, color: Rgba) -> Seq<DrawOp> {
    if rect.is_empty() {
        Seq::empty()
    } else {
        seq![
            (CellRect { x0: rect.x0, y0: rect.y0, x1: rect.x1, y1: min(rect.y0 + 1, rect.y1 as int) as u32 }, color),
            (CellRect { x0: rect.x0, y0: (rect.y1 - 1) as u32, x1: rect.x1, y1: rect.y1 }, color),
            (CellRect { x0: rect.x0, y0: rect.y0, x1: min(rect.x0 + 1, rect.x1 as int) as u32, y1: rect.y1 }, color),
            (CellRect { x0: (rect.x1 - 1) as u32, y0: rect.y0, x1: rect.x1, y1: rect.y1 }, color),
        ]
    }
}

/// The faded background colours of the debug image: for each channel, the
/// level that a cell without text shows for each background level.
pub struct FadeTable {
    pub red: Vec<u8>,
    pub green: Vec<u8>,
    pub blue: Vec<u8>,
}

impl FadeTable {
    pub open spec fn wf(&self) -> bool {
        self.red@.len() == 256 && self.green@.len() == 256 && self.blue@.len() == 256
    }

    pub open spec fn spec_fade(&self, c: Rgba) -> Rgba {
        [self.red@[c[0] as int], self.green@[c[1] as int], self.blue@[c[2] as int], 255]
    }

    /// The faded colour of `c`.
    pub fn fade(&self, c: Rgba) -> (f: Rgba)
        requires
            self.wf(),
        ensures
            f == self.spec_fade(c),
    {
        [self.red[c[0] as usize], self.green[c[1] as usize], self.blue[c[2] as usize], 255]
    }
}

/// Draws the cell grid of a screen into an RGBA image of `width` by
/// `height` pixels: one cell of `cols` by `rows`, right to left, per
/// character cell.
pub struct CellDebugImageRenderer {
    pub width: u32,
    pub height: u32,
    pub cols: u32,
    pub rows: u32,
    pub cell_width: u32,
    pub cell_height: u32,
}

/// The background of a cell, the fallback when the cell has the default.
pub open spec fn cell_bg(cell: CellInfo) -> Rgba {
    match vt_rgba(cell.bg) {
        Some(c) => c,
        None => DEBUG_BG_FALLBACK,
    }
}

/// The foreground of a cell, the fallback when the cell has the default.
pub open spec fn cell_fg(cell: CellInfo) -> Rgba {
    match vt_rgba(cell.fg) {
        Some(c) => c,
        None => DEBUG_FG_FALLBACK,
    }
}

/// A cell is drawn as holding text when it has text and is not the second
/// half of a wide character.
pub open spec fn cell_active(cell: CellInfo) -> bool {
    cell.has_contents && !cell.wide_continuation
}

impl CellDebugImageRenderer {
    /// At least one column and row, and cells at least one pixel wide and
    /// high that divide the image between them.
    pub open spec fn wf(&self) -> bool {
        &&& 1 <= self.cols <= u16::MAX
        &&& 1 <= self.rows <= u16::MAX
        &&& self.cell_width == max((self.width / self.cols) as int, 1)
        &&& self.cell_height == max((self.height / self.rows) as int, 1)
    }

    /// A well-formed renderer whose image byte offsets fit in 32 bits, as
    /// drawing computes them.
    pub open spec fn drawable(&self) -> bool {
        &&& self.wf()
        &&& self.width as int * self.height as int <= 0x4000_0000
    }

    pub open spec fn image_len(&self) -> nat {
        (self.width as int * self.height as int * 4) as nat
    }

    pub open spec fn spec_new(width: u32, height: u32, cols: u16, rows: u16) -> CellDebugImageRenderer {
        let cols = max(cols as int, 1);
        let rows = max(rows as int, 1);
        CellDebugImageRenderer {
            width,
            height,
            cols: cols as u32,
            rows: rows as u32,
            cell_width: max(width as int / cols, 1) as u32,
            cell_height: max(height as int / rows, 1) as u32,
        }
    }

    /// A renderer for a `width` by `height` image of a `cols` by `rows`
    /// screen (at least one column and row).
    pub fn new(width: u32, height: u32, cols: u16, rows: u16) -> (r: CellDebugImageRenderer)
        ensures
            r == Self::spec_new(width, height, cols, rows),
            r.wf(),
    {
        let cols = if cols > 1 { cols as u32 } else { 1 };
        let rows = if rows > 1 { rows as u32 } else { 1 };
        let cw = width / cols;
        let ch = height / rows;
        CellDebugImageRenderer {
            width,
            height,
            cols,
            rows,
            cell_width: if cw > 1 { cw } else { 1 },
            cell_height: if ch > 1 { ch } else { 1 },
        }
    }

    /// The pixels of cell (`row`, `col`); columns run right to left, and the
    /// last column and row reach the edge of the image.
    pub open spec fn spec_cell_rect(&self, row: int, col: int) -> CellRect {
        let draw_col = self.cols - 1 - col;
        CellRect {
            x0: (draw_col * self.cell_width) as u32,
            y0: (row * self.cell_height) as u32,
            x1: (if draw_col + 1 == self.cols {
                self.width as int
            } else {
                min((draw_col + 1) * self.cell_width, self.width as int)
            }) as u32,
            y1: (if row + 1 == self.rows {
                self.height as int
            } else {
                min((row + 1) * self.cell_height, self.height as int)
            }) as u32,
        }
    }

    proof fn lemma_cell_extent(&self, n: int, cells: int, cell: int, size: int)
        requires
            0 <= n <= cells,
            1 <= cells <= u16::MAX,
            0 <= size <= u32::MAX,
            cell == max(size / cells, 1),
        ensures
            0 <= n * cell <= max(size, cells),
    {
        if size / cells >= 1 {
            vstd::arithmetic::mul::lemma_mul_inequality(n, cells, cell);
            vstd::arithmetic::div_mod::lemma_fundamental_div_mod(size, cells);
            vstd::arithmetic::mul::lemma_mul_is_commutative(cells, cell);
        }
        vstd::arithmetic::mul::lemma_mul_nonnegative(n, cell);
    }

    proof fn lemma_cell_start(&self, n: int, cells: int, cell: int, size: int)
        requires
            0 <= n < cells,
            1 <= cells <= u16::MAX,
            0 <= size <= u32::MAX,
            cell == max(size / cells, 1),
        ensures
            n * cell + 2 <= u32::MAX,
    {
        if size / cells >= 2 {
            vstd::arithmetic::mul::lemma_mul_inequality(n + 1, cells, cell);
            vstd::arithmetic::div_mod::lemma_fundamental_div_mod(size, cells);
            vstd::arithmetic::mul::lemma_mul_is_commutative(cells, cell);
            vstd::arithmetic::div_mod::lemma_mod_pos_bound(size, cells);
            assert((n + 1) * cell == n * cell + cell) by (nonlinear_arith);
        } else {
            assert(cell == 1);
            assert(n * cell == n) by (nonlinear_arith)
                requires
                    cell == 1,
            ;
        }
    }

    /// The pixels of cell (`row`, `col`) of the grid.
    fn cell_rect(&self, row: u32, col: u32) -> (r: CellRect)
        requires
            self.wf(),
            row < self.rows,
            col < self.cols,
        ensures
            r == self.spec_cell_rect(row as int, col as int),
            r.x1 <= self.width,
            r.y1 <= self.height,
            r.x0 + 2 <= u32::MAX,
            r.y0 + 2 <= u32::MAX,
    {
        let draw_col = self.cols - 1 - col;
        proof {
            self.lemma_cell_start(draw_col as int, self.cols as int, self.cell_width as int, self.width as int);
            assert((draw_col + 1) * self.cell_width == draw_col * self.cell_width + self.cell_width) by (nonlinear_arith);
            assert((row + 1) * self.cell_height == row * self.cell_height + self.cell_height) by (nonlinear_arith);
            self.lemma_cell_extent(draw_col as int, self.cols as int, self.cell_width as int, self.width as int);
            self.lemma_cell_extent(draw_col + 1, self.cols as int, self.cell_width as int, self.width as int);
            self.lemma_cell_start(row as int, self.rows as int, self.cell_height as int, self.height as int);
            self.lemma_cell_extent(row as int, self.rows as int, self.cell_height as int, self.height as int);
            self.lemma_cell_extent(row + 1, self.rows as int, self.cell_height as int, self.height as int);
        }
        let x0 = draw_col * self.cell_width;
        let y0 = row * self.cell_height;
        let x1 = if draw_col + 1 == self.cols {
            self.width
        } else {
            let x = (draw_col + 1) * self.cell_width;
            if x < self.width { x } else { self.width }
        };
        let y1 = if row + 1 == self.rows {
            self.height
        } else {
            let y = (row + 1) * self.cell_height;
            if y < self.height { y } else { self.height }
        };
        CellRect { x0, y0, x1, y1 }
    }

    /// The pixels of the cursor's cell (`row`, `col`): a cell of the grid,
    /// or, for a row below the grid, what is left of its pixel rows within
    /// the image (possibly nothing).
    pub open spec fn spec_cursor_rect(&self, row: int, col: int) -> CellRect {
        let cell = self.spec_cell_rect(if row < self.rows { row } else { 0 }, col);
        if row < self.rows {
            cell
        } else {
            CellRect {
                x0: cell.x0,
                y0: min(row * self.cell_height, self.height as int) as u32,
                x1: cell.x1,
                y1: min((row + 1) * self.cell_height, self.height as int) as u32,
            }
        }
    }

    /// The pixels of the cursor's cell, clipped to the image.
    fn cursor_rect(&self, row: u32, col: u32) -> (r: CellRect)
        requires
            self.wf(),
            col < self.cols,
        ensures
            r == self.spec_cursor_rect(row as int, col as int),
            r.x1 <= self.width,
            r.y1 <= self.height,
    {
        if row < self.rows {
            return self.cell_rect(row, col);
        }
        let cell = self.cell_rect(0, col);
        proof {
            assert(row as int * self.cell_height as int <= 0xffff_ffff * 0xffff_ffff) by (nonlinear_arith)
                requires
                    row <= 0xffff_ffff,
                    self.cell_height <= 0xffff_ffff,
            ;
            assert((row as int + 1) * self.cell_height as int <= 0x1_0000_0000 * 0xffff_ffff) by (nonlinear_arith)
                requires
                    row <= 0xffff_ffff,
                    self.cell_height <= 0xffff_ffff,
            ;
        }
        let top = row as u64 * self.cell_height as u64;
        let bottom = (row as u64 + 1) * self.cell_height as u64;
        let y0 = if top < self.height as u64 { top as u32 } else { self.height };
        let y1 = if bottom < self.height as u64 { bottom as u32 } else { self.height };
        CellRect { x0: cell.x0, y0, x1: cell.x1, y1 }
    }
}

/// Pixel `p` of a `w` pixels wide image lies in row `p / w`, column `p % w`.
proof fn lemma_pixel_split(i: int, w: int)
    requires
        0 <= i,
        w > 0,
    ensures
        i == 4 * (i / 4) + i % 4,
        0 <= i % 4 < 4,
        0 <= i / 4,
        i / 4 == ((i / 4) / w) * w + (i / 4) % w,
        0 <= (i / 4) % w < w,
        0 <= (i / 4) / w,
{
    vstd::arithmetic::div_mod::lemma_fundamental_div_mod(i / 4, w);
    vstd::arithmetic::mul::lemma_mul_is_commutative(w, (i / 4) / w);
    vstd::arithmetic::div_mod::lemma_div_pos_is_pos(i / 4, w);
}

/// The bytes of pixel (`x`, `y`) of a `w` pixels wide image start at
/// `4 * (y * w + x)`.
proof fn lemma_pixel_bytes(x: int, y: int, w: int, k: int)
    requires
        0 <= x < w,
        0 <= y,
        0 <= k < 4,
    ensures
        ((y * w + x) * 4 + k) / 4 == y * w + x,
        ((y * w + x) * 4 + k) % 4 == k,
        (y * w + x) % w == x,
        (y * w + x) / w == y,
{
    vstd::arithmetic::mul::lemma_mul_nonnegative(y, w);
    vstd::arithmetic::div_mod::lemma_fundamental_div_mod_converse(y * w + x, w, y, x);
}

/// A row of a pixel inside an image of `h` rows of `w` pixels comes before
/// the end of the image.
proof fn lemma_pixel_in_image(x: int, y: int, w: int, h: int)
    requires
        0 <= x < w,
        0 <= y < h,
    ensures
        0 <= y * w + x < h * w,
{
    vstd::arithmetic::mul::lemma_mul_inequality(y + 1, h, w);
    vstd::arithmetic::mul::lemma_mul_nonnegative(y, w);
    assert((y + 1) * w == y * w + w) by (nonlinear_arith);
}

impl CellDebugImageRenderer {
    /// A rectangle that lies within the image.
    pub open spec fn fits(&self, rect: CellRect) -> bool {
        rect.x1 <= self.width && rect.y1 <= self.height
    }

    /// Sets every pixel to `color`.
    fn fill(&self, data: &mut Vec<u8>, color: Rgba)
        ensures
            final(data)@ == fill_img(old(data)@, color),
    {
        let ghost start = data@;
        let pixels = data.len() / 4;
        assert(start.len() <= usize::MAX);
        let mut p: usize = 0;
        while p < pixels
            invariant
                p <= pixels,
                pixels == start.len() / 4,
                start.len() <= usize::MAX,
                data@.len() == start.len(),
                forall|i: int|
                    0 <= i < start.len() ==> #[trigger] data@[i] == if i / 4 < p { color[i % 4] } else { start[i] },
            decreases pixels - p,
        {
            let d = 4 * p;
            data.set(d, color[0]);
            data.set(d + 1, color[1]);
            data.set(d + 2, color[2]);
            data.set(d + 3, color[3]);
            p += 1;
        }
        assert(data@ =~= fill_img(start, color));
    }

    /// Sets the pixels of `rect` to `color`.
    fn draw_rect(&self, data: &mut Vec<u8>, rect: CellRect, color: Rgba)
        requires
            self.drawable(),
            old(data)@.len() == self.image_len(),
            self.fits(rect),
        ensures
            final(data)@ == draw_rect_img(old(data)@, self.width as nat, rect, color),
    {
        let ghost start = data@;
        let ghost w = self.width as int;
        if rect.x0 >= rect.x1 || rect.y0 >= rect.y1 {
            assert(data@ =~= draw_rect_img(start, self.width as nat, rect, color));
            return;
        }
        let mut y = rect.y0;
        while y < rect.y1
            invariant
                self.drawable(),
                self.fits(rect),
                rect.x0 < rect.x1,
                rect.y0 <= y <= rect.y1,
                w == self.width,
                w > 0,
                start.len() == self.image_len(),
                data@.len() == start.len(),
                forall|i: int|
                    0 <= i < start.len() ==> #[trigger] data@[i] == if (CellRect { y1: y, ..rect }).contains((i / 4) % w, (i / 4) / w) {
                        color[i % 4]
                    } else {
                        start[i]
                    },
            decreases rect.y1 - y,
        {
            let mut x = rect.x0;
            while x < rect.x1
                invariant
                    self.drawable(),
                    self.fits(rect),
                    rect.x0 <= x <= rect.x1,
                    rect.y0 <= y < rect.y1,
                    w == self.width,
                    w > 0,
                    start.len() == self.image_len(),
                    data@.len() == start.len(),
                    forall|i: int|
                        0 <= i < start.len() ==> #[trigger] data@[i] == if (CellRect { y1: y, ..rect }).contains((i / 4) % w, (i / 4) / w)
                            || ((i / 4) / w == y && rect.x0 <= (i / 4) % w < x) {
                            color[i % 4]
                        } else {
                            start[i]
                        },
                decreases rect.x1 - x,
            {
                proof {
                    lemma_pixel_in_image(x as int, y as int, w, self.height as int);
                    lemma_pixel_bytes(x as int, y as int, w, 0);
                    lemma_pixel_bytes(x as int, y as int, w, 1);
                    lemma_pixel_bytes(x as int, y as int, w, 2);
                    lemma_pixel_bytes(x as int, y as int, w, 3);
                }
                let idx = ((y * self.width + x) * 4) as usize;
                let ghost before = data@;
                data.set(idx, color[0]);
                data.set(idx + 1, color[1]);
                data.set(idx + 2, color[2]);
                data.set(idx + 3, color[3]);
                assert forall|i: int| 0 <= i < start.len() implies #[trigger] data@[i] == if (CellRect { y1: y, ..rect }).contains((i / 4) % w, (i / 4) / w)
                    || ((i / 4) / w == y && rect.x0 <= (i / 4) % w < x + 1) {
                    color[i % 4]
                } else {
                    start[i]
                } by {
                    lemma_pixel_split(i, w);
                    if (i / 4) / w == y && (i / 4) % w == x {
                        assert(i / 4 == y * w + x);
                    }
                }
                x += 1;
            }
            assert forall|i: int| 0 <= i < start.len() implies #[trigger] data@[i] == if (CellRect { y1: (y + 1) as u32, ..rect }).contains((i / 4) % w, (i / 4) / w) {
                color[i % 4]
            } else {
                start[i]
            } by {
                lemma_pixel_split(i, w);
            }
            y += 1;
        }
        assert(data@ =~= draw_rect_img(start, self.width as nat, rect, color));
    }

    /// Draws the four one-pixel edges of `rect` in `color`.
    fn draw_rect_outline(&self, data: &mut Vec<u8>, rect: CellRect, color: Rgba)
        requires
            self.drawable(),
            old(data)@.len() == self.image_len(),
            self.fits(rect),
        ensures
            final(data)@ == paint(old(data)@, self.width as nat, outline_ops(rect, color)),
    {
        let ghost start = data@;
        if rect.x0 >= rect.x1 || rect.y0 >= rect.y1 {
            return;
        }
        let ghost w = self.width as nat;
        let top = CellRect { x0: rect.x0, y0: rect.y0, x1: rect.x1, y1: if rect.y0 + 1 < rect.y1 { rect.y0 + 1 } else { rect.y1 } };
        let bottom = CellRect { x0: rect.x0, y0: rect.y1.saturating_sub(1), x1: rect.x1, y1: rect.y1 };
        let left = CellRect { x0: rect.x0, y0: rect.y0, x1: if rect.x0 + 1 < rect.x1 { rect.x0 + 1 } else { rect.x1 }, y1: rect.y1 };
        let right = CellRect { x0: rect.x1.saturating_sub(1), y0: rect.y0, x1: rect.x1, y1: rect.y1 };
        let ghost ops = outline_ops(rect, color);
        self.draw_rect(data, top, color);
        assert(data@ == paint(start, w, ops.take(1))) by {
            assert(ops.take(1).drop_last() =~= Seq::<DrawOp>::empty());
            assert(paint(start, w, Seq::<DrawOp>::empty()) == start);
            assert(ops.take(1).last() == (top, color));
        }
        self.draw_rect(data, bottom, color);
        assert(data@ == paint(start, w, ops.take(2))) by {
            assert(ops.take(2).drop_last() =~= ops.take(1));
        }
        self.draw_rect(data, left, color);
        assert(data@ == paint(start, w, ops.take(3))) by {
            assert(ops.take(3).drop_last() =~= ops.take(2));
        }
        self.draw_rect(data, right, color);
        assert(data@ == paint(start, w, ops.take(4))) by {
            assert(ops.take(4).drop_last() =~= ops.take(3));
        }
        assert(ops.take(4) =~= ops);
    }
}

/// The rectangle drawn under an underlined cell: two pixels in from the
/// sides, the second-to-last pixel row.
pub open spec fn underline_rect(rect: CellRect) -> CellRect {
    CellRect {
        x0: sat_add_u32(rect.x0 as int, 2) as u32,
        y0: sat_sub(rect.y1 as int, 2) as u32,
        x1: sat_sub(rect.x1 as int, 2) as u32,
        y1: sat_sub(rect.y1 as int, 1) as u32,
    }
}

/// Painting two runs of steps is painting their concatenation.
pub proof fn lemma_paint_append(img: Seq<u8>, width: nat, a: Seq<DrawOp>, b: Seq<DrawOp>)
    ensures
        paint(paint(img, width, a), width, b) == paint(img, width, a + b),
    decreases b.len(),
{
    if b.len() == 0 {
        assert(a + b =~= a);
    } else {
        lemma_paint_append(img, width, a, b.drop_last());
        assert((a + b).drop_last() =~= a + b.drop_last());
    }
}

/// Painting keeps the length of the image.
pub proof fn lemma_paint_len(img: Seq<u8>, width: nat, ops: Seq<DrawOp>)
    ensures
        paint(img, width, ops).len() == img.len(),
    decreases ops.len(),
{
    if ops.len() > 0 {
        lemma_paint_len(img, width, ops.drop_last());
    }
}

impl CellDebugImageRenderer {
    /// The steps that draw cell (`row`, `col`): the grid cell and its
    /// outline; then, for a cell of the screen, its background (faded when
    /// it holds no text) inside a one-pixel margin, a centred block in the
    /// foreground colour when it holds text, an underline, and a light
    /// outline inside the margin when it is bold.
    pub open spec fn cell_ops(&self, row: int, col: int, cell: Option<CellInfo>, fade: &FadeTable) -> Seq<DrawOp> {
        let rect = self.spec_cell_rect(row, col);
        let grid = seq![(rect, DEBUG_GRID)] + outline_ops(rect, DEBUG_GRID_OUTLINE);
        match cell {
            None => grid,
            Some(c) => {
                let inner = rect.spec_inset(1);
                let fill = if cell_active(c) { cell_bg(c) } else { fade.spec_fade(cell_bg(c)) };
                grid + seq![(inner, fill)] + (if cell_active(c) {
                    seq![(rect.spec_centered_subrect(
                        max(rect.spec_width() / 2, 2) as u32,
                        max(rect.spec_height() / 2, 2) as u32,
                    ), cell_fg(c))]
                } else {
                    Seq::empty()
                }) + (if c.underline {
                    seq![(underline_rect(rect), cell_fg(c))]
                } else {
                    Seq::empty()
                }) + (if c.bold {
                    outline_ops(inner, DEBUG_BOLD_OUTLINE)
                } else {
                    Seq::empty()
                })
            },
        }
    }

    /// The steps for the first `n` cells in row-major order.
    pub open spec fn grid_ops(&self, cells: Seq<Seq<Option<CellInfo>>>, fade: &FadeTable, n: nat) -> Seq<DrawOp>
        decreases n,
    {
        if n == 0 || self.cols == 0 {
            Seq::empty()
        } else {
            let k = n - 1;
            let row = k / (self.cols as int);
            let col = k % (self.cols as int);
            self.grid_ops(cells, fade, k as nat) + self.cell_ops(row, col, cells[row][col], fade)
        }
    }

    /// All the steps of the debug image: every cell, then an outline round
    /// the cursor's cell unless the cursor is hidden.
    pub open spec fn render_ops(
        &self,
        cells: Seq<Seq<Option<CellInfo>>>,
        cursor: Option<(u16, u16)>,
        fade: &FadeTable,
    ) -> Seq<DrawOp> {
        self.grid_ops(cells, fade, (self.rows * self.cols) as nat) + match cursor {
            Some((r, c)) => outline_ops(self.spec_cursor_rect(r as int, c as int), DEBUG_CURSOR),
            None => Seq::empty(),
        }
    }

    /// The debug image: the background everywhere, then the steps of
    /// `render_ops`.
    pub open spec fn rendered(
        &self,
        old: Seq<u8>,
        cells: Seq<Seq<Option<CellInfo>>>,
        cursor: Option<(u16, u16)>,
        fade: &FadeTable,
    ) -> Seq<u8> {
        paint(fill_img(old, DEBUG_BG), self.width as nat, self.render_ops(cells, cursor, fade))
    }

    /// The cells of the screen, `rows` rows of `cols` entries each.
    pub open spec fn cells_fit(&self, cells: Seq<Seq<Option<CellInfo>>>) -> bool {
        cells.len() == self.rows && forall|r: int| 0 <= r < self.rows ==> #[trigger] cells[r].len() == self.cols
    }

    /// The cursor, when shown, stands in a column of the grid (its row may
    /// lie below the grid).
    pub open spec fn cursor_fits(&self, cursor: Option<(u16, u16)>) -> bool {
        match cursor {
            Some((_r, c)) => c < self.cols,
            None => true,
        }
    }

    /// Draws the steps of cell (`row`, `col`).
    fn render_cell(&self, data: &mut Vec<u8>, row: u32, col: u32, cell: &Option<CellInfo>, fade: &FadeTable)
        requires
            self.drawable(),
            fade.wf(),
            row < self.rows,
            col < self.cols,
            old(data)@.len() == self.image_len(),
        ensures
            final(data)@ == paint(old(data)@, self.width as nat, self.cell_ops(row as int, col as int, *cell, fade)),
    {
        let ghost start = data@;
        let ghost w = self.width as nat;
        let rect = self.cell_rect(row, col);
        self.draw_rect(data, rect, DEBUG_GRID);
        let ghost ops1 = seq![(rect, DEBUG_GRID)];
        assert(data@ == paint(start, w, ops1)) by {
            assert(ops1.drop_last() =~= Seq::<DrawOp>::empty());
            assert(paint(start, w, Seq::<DrawOp>::empty()) == start);
        }
        self.draw_rect_outline(data, rect, DEBUG_GRID_OUTLINE);
        proof {
            lemma_paint_append(start, w, ops1, outline_ops(rect, DEBUG_GRID_OUTLINE));
            lemma_paint_len(start, w, ops1);
        }
        let ghost grid = ops1 + outline_ops(rect, DEBUG_GRID_OUTLINE);
        assert(data@ == paint(start, w, grid));
        match cell {
            None => {},
            Some(cell) => {
                let bg = match vt100_debug_color(cell.bg) {
                    Some(c) => c,
                    None => DEBUG_BG_FALLBACK,
                };
                let fg = match vt100_debug_color(cell.fg) {
                    Some(c) => c,
                    None => DEBUG_FG_FALLBACK,
                };
                let active = cell.has_contents && !cell.wide_continuation;
                let fill = if active { bg } else { fade.fade(bg) };
                let inner = rect.inset(1);
                proof { lemma_paint_len(start, w, grid); }
                self.draw_rect(data, inner, fill);
                let ghost acc = grid + seq![(inner, fill)];
                assert(data@ == paint(start, w, acc)) by {
                    assert(acc.drop_last() =~= grid);
                }
                let ghost acc2 = acc + (if active {
                    seq![(rect.spec_centered_subrect(
                        max(rect.spec_width() / 2, 2) as u32,
                        max(rect.spec_height() / 2, 2) as u32,
                    ), fg)]
                } else {
                    Seq::empty()
                });
                if active {
                    let half_w = rect.width() / 2;
                    let half_h = rect.height() / 2;
                    let indicator = rect.centered_subrect(
                        if half_w > 2 { half_w } else { 2 },
                        if half_h > 2 { half_h } else { 2 },
                    );
                    proof { lemma_paint_len(start, w, acc); }
                    self.draw_rect(data, indicator, fg);
                    assert(acc2.drop_last() =~= acc);
                } else {
                    assert(acc2 =~= acc);
                }
                assert(data@ == paint(start, w, acc2));
                let ghost acc3 = acc2 + (if cell.underline {
                    seq![(underline_rect(rect), fg)]
                } else {
                    Seq::empty()
                });
                if cell.underline {
                    let underline = CellRect {
                        x0: rect.x0.saturating_add(2),
                        y0: rect.y1.saturating_sub(2),
                        x1: rect.x1.saturating_sub(2),
                        y1: rect.y1.saturating_sub(1),
                    };
                    proof { lemma_paint_len(start, w, acc2); }
                    self.draw_rect(data, underline, fg);
                    assert(acc3.drop_last() =~= acc2);
                } else {
                    assert(acc3 =~= acc2);
                }
                assert(data@ == paint(start, w, acc3));
                if cell.bold {
                    proof { lemma_paint_len(start, w, acc3); }
                    self.draw_rect_outline(data, rect.inset(1), DEBUG_BOLD_OUTLINE);
                    proof {
                        lemma_paint_append(start, w, acc3, outline_ops(inner, DEBUG_BOLD_OUTLINE));
                    }
                    assert(acc3 + outline_ops(inner, DEBUG_BOLD_OUTLINE) =~= self.cell_ops(row as int, col as int, Some(*cell), fade));
                } else {
                    assert(acc3 + Seq::<DrawOp>::empty() =~= acc3);
                    assert(acc3 =~= self.cell_ops(row as int, col as int, Some(*cell), fade));
                }
            },
        }
    }

    /// Draws the debug image of the screen whose cells are `cells` and
    /// whose shown cursor is `cursor` (`None` when hidden), fading the
    /// background of cells without text through `fade`.
    pub fn render_cells(
        &self,
        data: &mut Vec<u8>,
        cells: &Vec<Vec<Option<CellInfo>>>,
        cursor: Option<(u16, u16)>,
        fade: &FadeTable,
    )
        requires
            self.drawable(),
            fade.wf(),
            old(data)@.len() == self.image_len(),
            self.cells_fit(cells@.map_values(|r: Vec<Option<CellInfo>>| r@)),
            self.cursor_fits(cursor),
        ensures
            final(data)@ == self.rendered(old(data)@, cells@.map_values(|r: Vec<Option<CellInfo>>| r@), cursor, fade),
    {
        let ghost start = data@;
        let ghost w = self.width as nat;
        let ghost cs = cells@.map_values(|r: Vec<Option<CellInfo>>| r@);
        self.fill(data, DEBUG_BG);
        let ghost base = data@;
        assert(paint(base, w, Seq::<DrawOp>::empty()) == base);
        let mut row: u32 = 0;
        while row < self.rows
            invariant
                self.drawable(),
                fade.wf(),
                row <= self.rows,
                base == fill_img(start, DEBUG_BG),
                base.len() == self.image_len(),
                cs == cells@.map_values(|r: Vec<Option<CellInfo>>| r@),
                self.cells_fit(cs),
                data@ == paint(base, w, self.grid_ops(cs, fade, (row * self.cols) as nat)),
                w == self.width,
            decreases self.rows - row,
        {
            let mut col: u32 = 0;
            while col < self.cols
                invariant
                    self.drawable(),
                    fade.wf(),
                    row < self.rows,
                    col <= self.cols,
                    base.len() == self.image_len(),
                    cs == cells@.map_values(|r: Vec<Option<CellInfo>>| r@),
                    self.cells_fit(cs),
                    data@ == paint(base, w, self.grid_ops(cs, fade, (row * self.cols + col) as nat)),
                    w == self.width,
                decreases self.cols - col,
            {
                let ghost n = (row * self.cols + col) as nat;
                proof {
                    lemma_paint_len(base, w, self.grid_ops(cs, fade, n));
                    vstd::arithmetic::div_mod::lemma_fundamental_div_mod_converse(
                        n as int, self.cols as int, row as int, col as int);
                    assert(cs[row as int].len() == self.cols);
                    assert(cs[row as int] == cells@[row as int]@);
                }
                self.render_cell(data, row, col, &cells[row as usize][col as usize], fade);
                proof {
                    lemma_paint_append(base, w, self.grid_ops(cs, fade, n), self.cell_ops(row as int, col as int, cs[row as int][col as int], fade));
                    assert(self.grid_ops(cs, fade, n + 1) == self.grid_ops(cs, fade, n) + self.cell_ops(row as int, col as int, cs[row as int][col as int], fade));
                }
                col += 1;
            }
            assert((row + 1) * self.cols == row * self.cols + self.cols) by (nonlinear_arith);
            row += 1;
        }
        proof {
            lemma_paint_len(base, w, self.grid_ops(cs, fade, (self.rows * self.cols) as nat));
        }
        let ghost grid = self.grid_ops(cs, fade, (self.rows * self.cols) as nat);
        match cursor {
            Some((cursor_row, cursor_col)) => {
                let rect = self.cursor_rect(cursor_row as u32, cursor_col as u32);
                self.draw_rect_outline(data, rect, DEBUG_CURSOR);
                proof {
                    lemma_paint_append(base, w, grid, outline_ops(rect, DEBUG_CURSOR));
                }
            },
            None => {
                assert(grid + Seq::<DrawOp>::empty() =~= grid);
            },
        }
    }
}

/// `old` cut or padded with zeros to `len` bytes.
pub open spec fn resized(old: Seq<u8>, len: nat) -> Seq<u8> {
    Seq::new(len, |i: int| if i < old.len() { old[i] } else { 0u8 })
}

/// Sets the length of `data` to `len`, padding with zeros.
fn resize_zeroed(data: &mut Vec<u8>, len: usize)
    ensures
        final(data)@ == resized(old(data)@, len as nat),
{
    let ghost start = data@;
    if data.len() != len {
        data.resize(len, 0);
    }
    assert forall|i: int| 0 <= i < len implies data@[i] == (if i < start.len() { start[i] } else { 0u8 }) by {
        if start.len() < len && i >= start.len() {
            assert(vstd::pervasive::cloned::<u8>(0u8, data@[i]));
        }
    }
    assert(data@ =~= resized(start, len as nat));
}

/// The cells of `screen` that a `rows` by `cols` grid shows, as named by
/// `screen_cell`.
pub open spec fn screen_cells(screen: vt100::Screen, rows: nat, cols: nat) -> Seq<Seq<Option<CellInfo>>> {
    Seq::new(rows, |r: int| Seq::new(cols, |c: int| screen_cell(screen, r as u16, c as u16)))
}

/// The cursor of `screen` when it is shown.
pub open spec fn shown_cursor(screen: vt100::Screen) -> Option<(u16, u16)> {
    if screen_hides_cursor(screen) {
        None
    } else {
        Some(screen_cursor_position(screen))
    }
}

impl CellDebugImageRenderer {
    /// Reads the cells of the grid from `screen`.
    fn read_cells(&self, screen: &vt100::Screen) -> (cells: Vec<Vec<Option<CellInfo>>>)
        requires
            self.wf(),
        ensures
            cells@.map_values(|r: Vec<Option<CellInfo>>| r@) == screen_cells(*screen, self.rows as nat, self.cols as nat),
    {
        let mut cells: Vec<Vec<Option<CellInfo>>> = Vec::new();
        let mut row: u32 = 0;
        while row < self.rows
            invariant
                self.wf(),
                row <= self.rows,
                cells@.len() == row,
                forall|r: int| 0 <= r < row ==> #[trigger] cells@[r]@ == screen_cells(*screen, self.rows as nat, self.cols as nat)[r],
            decreases self.rows - row,
        {
            let mut line: Vec<Option<CellInfo>> = Vec::new();
            let mut col: u32 = 0;
            while col < self.cols
                invariant
                    self.wf(),
                    row < self.rows,
                    col <= self.cols,
                    line@.len() == col,
                    forall|c: int| 0 <= c < col ==> #[trigger] line@[c] == screen_cell(*screen, row as u16, c as u16),
                decreases self.cols - col,
            {
                line.push(vt_cell(screen, row as u16, col as u16));
                col += 1;
            }
            assert(line@ =~= screen_cells(*screen, self.rows as nat, self.cols as nat)[row as int]);
            cells.push(line);
            row += 1;
        }
        assert(cells@.map_values(|r: Vec<Option<CellInfo>>| r@) =~= screen_cells(*screen, self.rows as nat, self.cols as nat));
        cells
    }

    /// Draws the debug image of `screen`.
    fn render(&self, data: &mut Vec<u8>, screen: &vt100::Screen, fade: &FadeTable)
        requires
            self.drawable(),
            fade.wf(),
            old(data)@.len() == self.image_len(),
            self.cursor_fits(shown_cursor(*screen)),
        ensures
            final(data)@ == self.rendered(
                old(data)@,
                screen_cells(*screen, self.rows as nat, self.cols as nat),
                shown_cursor(*screen),
                fade,
            ),
    {
        let cells = self.read_cells(screen);
        let cursor = if vt_hide_cursor(screen) { None } else { Some(vt_cursor_position(screen)) };
        self.render_cells(data, &cells, cursor, fade);
    }
}

/// Fits `data` to a `width` by `height` RGBA image (padding with zeros) and
/// draws into it the debug image of `screen` as a `cols` by `rows` grid.
/// A shown cursor below the grid gets the outline of what its cell leaves
/// within the image (nothing when the cell lies wholly below it).  When the
/// screen shows its cursor past the last column, its cell has no place in
/// the image: nothing is drawn and the result is `false`.
pub fn sync_terminal_debug_image(
    data: &mut Vec<u8>,
    width: u32,
    height: u32,
    cols: u16,
    rows: u16,
    screen: &vt100::Screen,
    fade: &FadeTable,
) -> (drawn: bool)
    requires
        width as int * height as int <= 0x4000_0000,
        width as int * height as int * 4 <= usize::MAX,
        fade.wf(),
    ensures
        ({
            let r = CellDebugImageRenderer::spec_new(width, height, cols, rows);
            let sized = resized(old(data)@, (width * height * 4) as nat);
            &&& drawn == r.cursor_fits(shown_cursor(*screen))
            &&& drawn ==> final(data)@ == r.rendered(
                sized,
                screen_cells(*screen, r.rows as nat, r.cols as nat),
                shown_cursor(*screen),
                fade,
            )
            &&& !drawn ==> final(data)@ == sized
        }),
{
    proof {
        vstd::arithmetic::mul::lemma_mul_nonnegative(width as int, height as int);
    }
    let rgba_len = width as usize * height as usize * 4;
    resize_zeroed(data, rgba_len);
    let renderer = CellDebugImageRenderer::new(width, height, cols, rows);
    let hidden = vt_hide_cursor(screen);
    if !hidden {
        let (cursor_row, cursor_col) = vt_cursor_position(screen);
        if cursor_col as u32 >= renderer.cols {
            return false;
        }
    }
    renderer.render(data, screen, fade);
    true
}

/// Every cell of the grid lies within the image; the cells of the first
/// column (drawn rightmost) end at the right edge, and those of the last
/// row end at the bottom edge.
pub proof fn lemma_cell_within_image(r: CellDebugImageRenderer, row: int, col: int)
    requires
        r.wf(),
        0 <= row < r.rows,
        0 <= col < r.cols,
    ensures
        r.spec_cell_rect(row, col).x1 <= r.width,
        r.spec_cell_rect(row, col).y1 <= r.height,
        r.spec_cell_rect(row, 0).x1 == r.width,
        r.spec_cell_rect(r.rows - 1, col).y1 == r.height,
{
    let d = r.cols - 1 - col;
    r.lemma_cell_extent(d + 1, r.cols as int, r.cell_width as int, r.width as int);
    r.lemma_cell_extent(row + 1, r.rows as int, r.cell_height as int, r.height as int);
}

/// With at least one pixel per column, the cells of a row tile it from
/// edge to edge: the last column starts at the left edge, the first
/// column ends at the right edge, and each column starts where the one to
/// its left (the next column) ends.
pub proof fn lemma_columns_tile(r: CellDebugImageRenderer, row: int, col: int)
    requires
        r.wf(),
        r.width >= r.cols,
        0 <= row < r.rows,
        0 <= col < r.cols - 1,
    ensures
        r.spec_cell_rect(row, r.cols - 1).x0 == 0,
        r.spec_cell_rect(row, 0).x1 == r.width,
        r.spec_cell_rect(row, col + 1).x1 == r.spec_cell_rect(row, col).x0,
{
    let n = r.cols - 1 - col;
    let cw = r.cell_width as int;
    vstd::arithmetic::div_mod::lemma_fundamental_div_mod(r.width as int, r.cols as int);
    vstd::arithmetic::div_mod::lemma_mod_pos_bound(r.width as int, r.cols as int);
    vstd::arithmetic::div_mod::lemma_div_pos_is_pos(r.width as int, r.cols as int);
    vstd::arithmetic::div_mod::lemma_div_is_ordered(r.cols as int, r.width as int, r.cols as int);
    vstd::arithmetic::div_mod::lemma_div_basics(r.cols as int);
    assert(cw == r.width / r.cols);
    vstd::arithmetic::mul::lemma_mul_inequality(n, r.cols as int, cw);
    vstd::arithmetic::mul::lemma_mul_is_commutative(r.cols as int, cw);
    vstd::arithmetic::mul::lemma_mul_nonnegative(n, cw);
    assert(0 * cw == 0);
}

/// Drawing a rectangle sets the four bytes of each of its pixels to the
/// colour and leaves every other byte as it was.
pub proof fn lemma_draw_rect_pixel(img: Seq<u8>, width: nat, rect: CellRect, color: Rgba, x: int, y: int, k: int)
    requires
        width > 0,
        0 <= x < width,
        0 <= y,
        0 <= k < 4,
        (y * width + x) * 4 + k < img.len(),
    ensures
        draw_rect_img(img, width, rect, color).len() == img.len(),
        draw_rect_img(img, width, rect, color)[(y * width + x) * 4 + k] == if rect.contains(x, y) {
            color[k]
        } else {
            img[(y * width + x) * 4 + k]
        },
{
    lemma_pixel_bytes(x, y, width as int, k);
}

/// A pixel lies on the one-pixel border of a rectangle.
pub open spec fn on_border(rect: CellRect, x: int, y: int) -> bool {
    rect.contains(x, y) && (x == rect.x0 || x == rect.x1 - 1 || y == rect.y0 || y == rect.y1 - 1)
}

/// Drawing the outline of a rectangle sets exactly the pixels of its
/// one-pixel border to the colour and leaves every other byte as it was.
pub proof fn lemma_outline_pixel(img: Seq<u8>, width: nat, rect: CellRect, color: Rgba, x: int, y: int, k: int)
    requires
        width > 0,
        0 <= x < width,
        0 <= y,
        0 <= k < 4,
        (y * width + x) * 4 + k < img.len(),
    ensures
        paint(img, width, outline_ops(rect, color))[(y * width + x) * 4 + k] == if on_border(rect, x, y) {
            color[k]
        } else {
            img[(y * width + x) * 4 + k]
        },
{
    let ops = outline_ops(rect, color);
    if rect.is_empty() {
        assert(paint(img, width, ops) == img);
    } else {
        let p1 = paint(img, width, ops.take(1));
        let p2 = paint(img, width, ops.take(2));
        let p3 = paint(img, width, ops.take(3));
        assert(ops.take(1).drop_last() =~= Seq::<DrawOp>::empty());
        assert(paint(img, width, Seq::<DrawOp>::empty()) == img);
        assert(ops.take(2).drop_last() =~= ops.take(1));
        assert(ops.take(3).drop_last() =~= ops.take(2));
        assert(ops.drop_last() =~= ops.take(3));
        lemma_draw_rect_pixel(img, width, ops[0].0, color, x, y, k);
        lemma_draw_rect_pixel(p1, width, ops[1].0, color, x, y, k);
        lemma_draw_rect_pixel(p2, width, ops[2].0, color, x, y, k);
        lemma_draw_rect_pixel(p3, width, ops[3].0, color, x, y, k);
    }
}

/// A point of a run of `len` units cut into `n` pieces of `len / n` units
/// (at least one), the last piece taking the rest, lies in piece `i`
/// exactly when `i` is its unit count over the piece size, capped at the
/// last piece.  With more pieces than units, the pieces past the run are
/// empty.
#[verifier::spinoff_prover]
proof fn lemma_piece(i: int, n: int, len: int, p: int)
    requires
        1 <= n,
        0 <= i < n,
        0 <= p < len,
    ensures
        ({
            let c = max(len / n, 1);
            let end = if i + 1 == n { len } else { min((i + 1) * c, len) };
            &&& 0 <= i * c <= max(len, n)
            &&& (i * c <= p < end) <==> i == min(p / c, n - 1)
        }),
{
    if len < n {
        vstd::arithmetic::div_mod::lemma_basic_div(len, n);
        vstd::arithmetic::div_mod::lemma_div_basics(p);
        assert(i * 1 == i);
        assert((i + 1) * 1 == i + 1);
        return;
    }
    let c = len / n;
    vstd::arithmetic::div_mod::lemma_fundamental_div_mod(len, n);
    vstd::arithmetic::div_mod::lemma_mod_pos_bound(len, n);
    vstd::arithmetic::div_mod::lemma_div_is_ordered(n, len, n);
    vstd::arithmetic::div_mod::lemma_div_basics(n);
    assert(c >= 1);
    vstd::arithmetic::mul::lemma_mul_is_commutative(n, c);
    vstd::arithmetic::mul::lemma_mul_inequality(i + 1, n, c);
    vstd::arithmetic::mul::lemma_mul_nonnegative(i, c);
    assert((i + 1) * c == i * c + c) by (nonlinear_arith);
    vstd::arithmetic::div_mod::lemma_fundamental_div_mod(p, c);
    vstd::arithmetic::div_mod::lemma_mod_pos_bound(p, c);
    vstd::arithmetic::div_mod::lemma_div_pos_is_pos(p, c);
    let q = p / c;
    if i * c <= p && p < i * c + c {
        vstd::arithmetic::div_mod::lemma_fundamental_div_mod_converse(p, c, i, p - i * c);
    }
    if q >= i {
        vstd::arithmetic::mul::lemma_mul_inequality(i, q, c);
    }
    if q <= i - 1 {
        vstd::arithmetic::mul::lemma_mul_inequality(q + 1, i, c);
        assert((q + 1) * c == q * c + c) by (nonlinear_arith);
    }
    if q >= i + 1 {
        vstd::arithmetic::mul::lemma_mul_inequality(i + 1, q, c);
    }
}

/// The cells of the grid tile the image: each pixel lies in exactly one
/// cell, the one whose row is its pixel row over the cell height and whose
/// drawn column is its pixel column over the cell width (both capped at the
/// last), columns counting from the right.  (When the image has fewer
/// pixels than the grid has columns or rows, the cells past its edge are
/// empty.)
pub proof fn lemma_cells_tile(r: CellDebugImageRenderer, x: int, y: int, row: int, col: int)
    requires
        r.wf(),
        0 <= x < r.width,
        0 <= y < r.height,
        0 <= row < r.rows,
        0 <= col < r.cols,
    ensures
        r.spec_cell_rect(row, col).contains(x, y) <==> (row == min(y / r.cell_height as int, r.rows - 1)
            && r.cols - 1 - col == min(x / r.cell_width as int, r.cols - 1)),
{
    let d = r.cols - 1 - col;
    lemma_piece(d, r.cols as int, r.width as int, x);
    lemma_piece(row, r.rows as int, r.height as int, y);
}

/// The colour a cell's text is drawn in: its foreground, and for the
/// default colour the fallback [220, 215, 186].
pub open spec fn text_color(cell: CellInfo) -> Rgba {
    match vt_rgba(cell.fg) {
        Some(c) => c,
        None => [220u8, 215, 186, 255],
    }
}

/// In the drawing of an underlined cell that is not bold, the strip two
/// pixels in from the sides of the cell on its second-to-last pixel row
/// ends in the colour of the cell's text, whatever the image held before.
/// (A bold cell draws its light inner outline over that row.)
pub proof fn lemma_underline_drawn(
    r: CellDebugImageRenderer,
    img: Seq<u8>,
    row: int,
    col: int,
    c: CellInfo,
    fade: &FadeTable,
    x: int,
    y: int,
    k: int,
)
    requires
        r.wf(),
        0 <= row < r.rows,
        0 <= col < r.cols,
        c.underline,
        !c.bold,
        r.spec_cell_rect(row, col).x0 + 2 <= x < r.spec_cell_rect(row, col).x1 - 2,
        y == r.spec_cell_rect(row, col).y1 - 2,
        0 <= y,
        0 <= k < 4,
        (y * r.width + x) * 4 + k < img.len(),
    ensures
        paint(img, r.width as nat, r.cell_ops(row, col, Some(c), fade))[(y * r.width + x) * 4 + k] == text_color(c)[k],
{
    let rect = r.spec_cell_rect(row, col);
    let w = r.width as nat;
    let ops = r.cell_ops(row, col, Some(c), fade);
    let op = (underline_rect(rect), cell_fg(c));
    lemma_cell_within_image(r, row, col);
    assert(ops.last() == op);
    lemma_paint_len(img, w, ops.drop_last());
    assert(rect.x0 + 2 <= u32::MAX);
    assert(underline_rect(rect).x0 == rect.x0 + 2);
    assert(underline_rect(rect).x1 == rect.x1 - 2);
    assert(underline_rect(rect).y0 == y);
    assert(underline_rect(rect).y1 == y + 1);
    assert(underline_rect(rect).contains(x, y));
    lemma_draw_rect_pixel(paint(img, w, ops.drop_last()), w, op.0, op.1, x, y, k);
}

/// Rectangle `a` lies inside rectangle `b` (an empty one lies anywhere).
pub open spec fn rect_within(a: CellRect, b: CellRect) -> bool {
    a.is_empty() || (b.x0 <= a.x0 && a.x1 <= b.x1 && b.y0 <= a.y0 && a.y1 <= b.y1)
}

/// Every step of `ops` fills a rectangle inside `bound`.
pub open spec fn ops_within(ops: Seq<DrawOp>, bound: CellRect) -> bool {
    forall|i: int| 0 <= i < ops.len() ==> rect_within(#[trigger] ops[i].0, bound)
}

proof fn lemma_within_concat(a: Seq<DrawOp>, b: Seq<DrawOp>, bound: CellRect)
    requires
        ops_within(a, bound),
        ops_within(b, bound),
    ensures
        ops_within(a + b, bound),
{
    assert forall|i: int| 0 <= i < (a + b).len() implies rect_within(#[trigger] (a + b)[i].0, bound) by {
        if i >= a.len() {
            assert((a + b)[i] == b[i - a.len()]);
        }
    }
}

proof fn lemma_outline_within(rect: CellRect, color: Rgba, bound: CellRect)
    requires
        rect_within(rect, bound),
    ensures
        ops_within(outline_ops(rect, color), bound),
{
}

/// Steps that stay inside `bound` leave every pixel outside it as it was.
proof fn lemma_paint_keeps(img: Seq<u8>, width: nat, ops: Seq<DrawOp>, bound: CellRect, x: int, y: int, k: int)
    requires
        ops_within(ops, bound),
        !bound.contains(x, y),
        width > 0,
        0 <= x < width,
        0 <= y,
        0 <= k < 4,
        (y * width + x) * 4 + k < img.len(),
    ensures
        paint(img, width, ops)[(y * width + x) * 4 + k] == img[(y * width + x) * 4 + k],
    decreases ops.len(),
{
    if ops.len() > 0 {
        let rest = ops.drop_last();
        assert(ops_within(rest, bound)) by {
            assert forall|i: int| 0 <= i < rest.len() implies rect_within(#[trigger] rest[i].0, bound) by {
                assert(rest[i] == ops[i]);
            }
        }
        lemma_paint_keeps(img, width, rest, bound, x, y, k);
        lemma_paint_len(img, width, rest);
        assert(rect_within(ops[ops.len() - 1].0, bound));
        lemma_draw_rect_pixel(paint(img, width, rest), width, ops.last().0, ops.last().1, x, y, k);
    }
}

/// With cells at least two pixels high, each cell of the grid is at least
/// two pixel rows high.
proof fn lemma_cell_tall(r: CellDebugImageRenderer, row: int, col: int)
    requires
        r.wf(),
        r.cell_height >= 2,
        0 <= row < r.rows,
    ensures
        r.spec_cell_rect(row, col).y0 + 2 <= r.spec_cell_rect(row, col).y1,
        r.spec_cell_rect(row, col).y0 == row * r.cell_height,
{
    let ch = r.cell_height as int;
    vstd::arithmetic::div_mod::lemma_fundamental_div_mod(r.height as int, r.rows as int);
    vstd::arithmetic::div_mod::lemma_mod_pos_bound(r.height as int, r.rows as int);
    assert(ch == r.height / r.rows);
    vstd::arithmetic::mul::lemma_mul_is_commutative(r.rows as int, ch);
    vstd::arithmetic::mul::lemma_mul_inequality(row + 1, r.rows as int, ch);
    vstd::arithmetic::mul::lemma_mul_nonnegative(row, ch);
    assert((row + 1) * ch == row * ch + ch) by (nonlinear_arith);
}

/// With cells at least two pixels high, every step that draws a cell stays
/// inside the cell.
proof fn lemma_cell_ops_within(r: CellDebugImageRenderer, row: int, col: int, cell: Option<CellInfo>, fade: &FadeTable)
    requires
        r.wf(),
        r.cell_height >= 2,
        0 <= row < r.rows,
        0 <= col < r.cols,
    ensures
        ops_within(r.cell_ops(row, col, cell, fade), r.spec_cell_rect(row, col)),
{
    let rect = r.spec_cell_rect(row, col);
    lemma_cell_tall(r, row, col);
    lemma_cell_within_image(r, row, col);
    let first = seq![(rect, DEBUG_GRID)];
    assert(ops_within(first, rect));
    lemma_outline_within(rect, DEBUG_GRID_OUTLINE, rect);
    lemma_within_concat(first, outline_ops(rect, DEBUG_GRID_OUTLINE), rect);
    let grid = first + outline_ops(rect, DEBUG_GRID_OUTLINE);
    match cell {
        None => {},
        Some(c) => {
            let inner = rect.spec_inset(1);
            let fill = if cell_active(c) { cell_bg(c) } else { fade.spec_fade(cell_bg(c)) };
            assert(rect_within(inner, rect));
            let p1 = seq![(inner, fill)];
            assert(ops_within(p1, rect));
            let block = rect.spec_centered_subrect(
                max(rect.spec_width() / 2, 2) as u32,
                max(rect.spec_height() / 2, 2) as u32,
            );
            assert(rect_within(block, rect));
            let p2: Seq<DrawOp> = if cell_active(c) { seq![(block, cell_fg(c))] } else { Seq::empty() };
            assert(ops_within(p2, rect));
            assert(rect_within(underline_rect(rect), rect));
            let p3: Seq<DrawOp> = if c.underline { seq![(underline_rect(rect), cell_fg(c))] } else { Seq::empty() };
            assert(ops_within(p3, rect));
            lemma_outline_within(inner, DEBUG_BOLD_OUTLINE, rect);
            let p4: Seq<DrawOp> = if c.bold { outline_ops(inner, DEBUG_BOLD_OUTLINE) } else { Seq::empty() };
            assert(ops_within(p4, rect));
            lemma_within_concat(grid, p1, rect);
            lemma_within_concat(grid + p1, p2, rect);
            lemma_within_concat(grid + p1 + p2, p3, rect);
            lemma_within_concat(grid + p1 + p2 + p3, p4, rect);
            assert(r.cell_ops(row, col, cell, fade) == grid + p1 + p2 + p3 + p4);
        },
    }
}

/// With cells at least two pixels high, the cells drawn after cell
/// (`row`, `col`) leave its pixels as they were.
proof fn lemma_later_cells(
    r: CellDebugImageRenderer,
    img: Seq<u8>,
    cells: Seq<Seq<Option<CellInfo>>>,
    fade: &FadeTable,
    row: int,
    col: int,
    m: nat,
    x: int,
    y: int,
    k: int,
)
    requires
        r.wf(),
        r.cell_height >= 2,
        0 <= row < r.rows,
        0 <= col < r.cols,
        r.spec_cell_rect(row, col).contains(x, y),
        0 <= x < r.width,
        0 <= y < r.height,
        row * r.cols + col < m <= r.rows * r.cols,
        0 <= k < 4,
        (y * r.width + x) * 4 + k < img.len(),
    ensures
        paint(img, r.width as nat, r.grid_ops(cells, fade, m))[(y * r.width + x) * 4 + k]
            == paint(img, r.width as nat, r.grid_ops(cells, fade, (row * r.cols + col + 1) as nat))[(y * r.width + x) * 4 + k],
    decreases m,
{
    let n = row * r.cols + col;
    if m > n + 1 {
        let w = r.width as nat;
        let j = m - 1;
        let cols = r.cols as int;
        let row2 = j / cols;
        let col2 = j % cols;
        vstd::arithmetic::div_mod::lemma_fundamental_div_mod(j, cols);
        vstd::arithmetic::div_mod::lemma_mod_pos_bound(j, cols);
        vstd::arithmetic::div_mod::lemma_div_pos_is_pos(j, cols);
        vstd::arithmetic::mul::lemma_mul_is_commutative(cols, row2);
        if row2 >= r.rows {
            vstd::arithmetic::mul::lemma_mul_inequality(r.rows as int, row2, cols);
            vstd::arithmetic::mul::lemma_mul_is_commutative(r.rows as int, cols);
        }
        assert(0 <= row2 < r.rows);
        let ops2 = r.cell_ops(row2, col2, cells[row2][col2], fade);
        assert(r.grid_ops(cells, fade, m) == r.grid_ops(cells, fade, j as nat) + ops2);
        lemma_later_cells(r, img, cells, fade, row, col, j as nat, x, y, k);
        lemma_paint_append(img, w, r.grid_ops(cells, fade, j as nat), ops2);
        lemma_paint_len(img, w, r.grid_ops(cells, fade, j as nat));
        lemma_cells_tile(r, x, y, row, col);
        lemma_cells_tile(r, x, y, row2, col2);
        assert(!r.spec_cell_rect(row2, col2).contains(x, y));
        lemma_cell_ops_within(r, row2, col2, cells[row2][col2], fade);
        lemma_paint_keeps(paint(img, w, r.grid_ops(cells, fade, j as nat)), w, ops2, r.spec_cell_rect(row2, col2), x, y, k);
    }
}

/// In the debug image, an underlined cell that is not bold shows the
/// colour of its text on the strip two pixels in from its sides on its
/// second-to-last pixel row, wherever the cursor's outline does not pass;
/// this holds whenever the cells are at least two pixels high.
pub proof fn lemma_rendered_underline(
    r: CellDebugImageRenderer,
    old: Seq<u8>,
    cells: Seq<Seq<Option<CellInfo>>>,
    cursor: Option<(u16, u16)>,
    fade: &FadeTable,
    row: int,
    col: int,
    c: CellInfo,
    x: int,
    y: int,
    k: int,
)
    requires
        r.wf(),
        r.cell_height >= 2,
        old.len() == r.image_len(),
        r.cells_fit(cells),
        0 <= row < r.rows,
        0 <= col < r.cols,
        cells[row][col] == Some(c),
        c.underline,
        !c.bold,
        r.spec_cell_rect(row, col).x0 + 2 <= x < r.spec_cell_rect(row, col).x1 - 2,
        y == r.spec_cell_rect(row, col).y1 - 2,
        0 <= k < 4,
        cursor matches Some((cr, cc)) ==> !on_border(r.spec_cursor_rect(cr as int, cc as int), x, y),
    ensures
        r.rendered(old, cells, cursor, fade)[(y * r.width + x) * 4 + k] == text_color(c)[k],
{
    let w = r.width as nat;
    let rect = r.spec_cell_rect(row, col);
    let cols = r.cols as int;
    let n = row * cols + col;
    let total = (r.rows * r.cols) as nat;
    let idx = (y * r.width + x) * 4 + k;
    lemma_cell_tall(r, row, col);
    lemma_cell_within_image(r, row, col);
    assert(rect.contains(x, y));
    lemma_pixel_in_image(x, y, r.width as int, r.height as int);
    vstd::arithmetic::mul::lemma_mul_is_commutative(r.height as int, r.width as int);
    let base = fill_img(old, DEBUG_BG);
    assert(idx < base.len());
    vstd::arithmetic::mul::lemma_mul_inequality(row + 1, r.rows as int, cols);
    assert((row + 1) * cols == row * cols + cols) by (nonlinear_arith);
    assert(n < total);
    vstd::arithmetic::mul::lemma_mul_nonnegative(row, cols);
    vstd::arithmetic::div_mod::lemma_fundamental_div_mod_converse(n, cols, row, col);
    let before = r.grid_ops(cells, fade, n as nat);
    let own = r.cell_ops(row, col, Some(c), fade);
    assert(r.grid_ops(cells, fade, (n + 1) as nat) == before + own);
    lemma_paint_append(base, w, before, own);
    lemma_paint_len(base, w, before);
    lemma_underline_drawn(r, paint(base, w, before), row, col, c, fade, x, y, k);
    if n + 1 < total {
        lemma_later_cells(r, base, cells, fade, row, col, total, x, y, k);
    }
    let grid = r.grid_ops(cells, fade, total);
    assert(paint(base, w, grid)[idx] == text_color(c)[k]);
    lemma_paint_len(base, w, grid);
    let tail: Seq<DrawOp> = match cursor {
        Some((cr, cc)) => outline_ops(r.spec_cursor_rect(cr as int, cc as int), DEBUG_CURSOR),
        None => Seq::empty(),
    };
    assert(r.render_ops(cells, cursor, fade) == grid + tail);
    lemma_paint_append(base, w, grid, tail);
    match cursor {
        Some((cr, cc)) => {
            lemma_outline_pixel(paint(base, w, grid), w, r.spec_cursor_rect(cr as int, cc as int), DEBUG_CURSOR, x, y, k);
        },
        None => {},
    }
}

/// One drawing step sets a pixel inside its rectangle and keeps the rest.
proof fn lemma_paint_single(img: Seq<u8>, width: nat, op: DrawOp, x: int, y: int, k: int)
    requires
        width > 0,
        0 <= x < width,
        0 <= y,
        0 <= k < 4,
        (y * width + x) * 4 + k < img.len(),
    ensures
        paint(img, width, seq![op]).len() == img.len(),
        paint(img, width, seq![op])[(y * width + x) * 4 + k] == if op.0.contains(x, y) {
            op.1[k]
        } else {
            img[(y * width + x) * 4 + k]
        },
{
    assert(seq![op].drop_last() =~= Seq::<DrawOp>::empty());
    assert(paint(img, width, Seq::<DrawOp>::empty()) == img);
    lemma_draw_rect_pixel(img, width, op.0, op.1, x, y, k);
}

/// The colour the drawing of a screen cell leaves on a pixel, layer by
/// layer from the top.
pub open spec fn cell_pixel(r: CellDebugImageRenderer, row: int, col: int, c: CellInfo, fade: &FadeTable, x: int, y: int, under: Rgba) -> Rgba {
    let rect = r.spec_cell_rect(row, col);
    let inner = rect.spec_inset(1);
    let block = rect.spec_centered_subrect(
        max(rect.spec_width() / 2, 2) as u32,
        max(rect.spec_height() / 2, 2) as u32,
    );
    let fill = if cell_active(c) { cell_bg(c) } else { fade.spec_fade(cell_bg(c)) };
    if c.bold && on_border(inner, x, y) {
        DEBUG_BOLD_OUTLINE
    } else if c.underline && underline_rect(rect).contains(x, y) {
        cell_fg(c)
    } else if cell_active(c) && block.contains(x, y) {
        cell_fg(c)
    } else if inner.contains(x, y) {
        fill
    } else if on_border(rect, x, y) {
        DEBUG_GRID_OUTLINE
    } else if rect.contains(x, y) {
        DEBUG_GRID
    } else {
        under
    }
}

/// The drawing of a screen cell leaves each pixel as `cell_pixel` says.
proof fn lemma_cell_pixel(
    r: CellDebugImageRenderer,
    img: Seq<u8>,
    row: int,
    col: int,
    c: CellInfo,
    fade: &FadeTable,
    x: int,
    y: int,
    k: int,
)
    requires
        r.wf(),
        0 <= row < r.rows,
        0 <= col < r.cols,
        0 <= x < r.width,
        0 <= y,
        0 <= k < 4,
        (y * r.width + x) * 4 + k < img.len(),
    ensures
        ({
            let idx = (y * r.width + x) * 4 + k;
            let under: Rgba = [img[idx - k], img[idx - k + 1], img[idx - k + 2], img[idx - k + 3]];
            paint(img, r.width as nat, r.cell_ops(row, col, Some(c), fade))[idx]
                == cell_pixel(r, row, col, c, fade, x, y, under)[k]
        }),
{
    let w = r.width as nat;
    let idx = (y * r.width + x) * 4 + k;
    let rect = r.spec_cell_rect(row, col);
    let inner = rect.spec_inset(1);
    let block = rect.spec_centered_subrect(
        max(rect.spec_width() / 2, 2) as u32,
        max(rect.spec_height() / 2, 2) as u32,
    );
    let fill = if cell_active(c) { cell_bg(c) } else { fade.spec_fade(cell_bg(c)) };
    let first = seq![(rect, DEBUG_GRID)];
    let outline = outline_ops(rect, DEBUG_GRID_OUTLINE);
    let p1 = seq![(inner, fill)];
    let p2: Seq<DrawOp> = if cell_active(c) { seq![(block, cell_fg(c))] } else { Seq::empty() };
    let p3: Seq<DrawOp> = if c.underline { seq![(underline_rect(rect), cell_fg(c))] } else { Seq::empty() };
    let p4: Seq<DrawOp> = if c.bold { outline_ops(inner, DEBUG_BOLD_OUTLINE) } else { Seq::empty() };
    assert(r.cell_ops(row, col, Some(c), fade) == first + outline + p1 + p2 + p3 + p4);
    let under: Rgba = [img[idx - k], img[idx - k + 1], img[idx - k + 2], img[idx - k + 3]];
    assert(img[idx] == under[k]);
    lemma_paint_single(img, w, (rect, DEBUG_GRID), x, y, k);
    let v0 = paint(img, w, first);
    lemma_paint_append(img, w, first, outline);
    lemma_outline_pixel(v0, w, rect, DEBUG_GRID_OUTLINE, x, y, k);
    lemma_paint_len(v0, w, outline);
    let v1 = paint(img, w, first + outline);
    lemma_paint_append(img, w, first + outline, p1);
    lemma_paint_single(v1, w, (inner, fill), x, y, k);
    let v2 = paint(img, w, first + outline + p1);
    lemma_paint_append(img, w, first + outline + p1, p2);
    if cell_active(c) {
        lemma_paint_single(v2, w, (block, cell_fg(c)), x, y, k);
    } else {
        assert(paint(v2, w, p2) == v2);
    }
    let v3 = paint(img, w, first + outline + p1 + p2);
    lemma_paint_len(img, w, first + outline + p1 + p2);
    lemma_paint_append(img, w, first + outline + p1 + p2, p3);
    if c.underline {
        lemma_paint_single(v3, w, (underline_rect(rect), cell_fg(c)), x, y, k);
    } else {
        assert(paint(v3, w, p3) == v3);
    }
    let v4 = paint(img, w, first + outline + p1 + p2 + p3);
    lemma_paint_len(img, w, first + outline + p1 + p2 + p3);
    lemma_paint_append(img, w, first + outline + p1 + p2 + p3, p4);
    if c.bold {
        lemma_outline_pixel(v4, w, inner, DEBUG_BOLD_OUTLINE, x, y, k);
    } else {
        assert(paint(v4, w, p4) == v4);
    }
}

/// With cells at least two pixels high, a pixel of cell (`row`, `col`)
/// that the cursor's outline does not pass shows what the drawing of that
/// cell leaves on it.
proof fn lemma_rendered_cell(
    r: CellDebugImageRenderer,
    old: Seq<u8>,
    cells: Seq<Seq<Option<CellInfo>>>,
    cursor: Option<(u16, u16)>,
    fade: &FadeTable,
    row: int,
    col: int,
    x: int,
    y: int,
    k: int,
)
    requires
        r.wf(),
        r.cell_height >= 2,
        old.len() == r.image_len(),
        0 <= row < r.rows,
        0 <= col < r.cols,
        r.spec_cell_rect(row, col).contains(x, y),
        0 <= k < 4,
        cursor matches Some((cr, cc)) ==> !on_border(r.spec_cursor_rect(cr as int, cc as int), x, y),
    ensures
        0 <= x < r.width,
        0 <= y < r.height,
        (y * r.width + x) * 4 + k < fill_img(old, DEBUG_BG).len(),
        paint(fill_img(old, DEBUG_BG), r.width as nat, r.grid_ops(cells, fade, (row * r.cols + col) as nat)).len() == old.len(),
        r.rendered(old, cells, cursor, fade)[(y * r.width + x) * 4 + k] == paint(
            paint(fill_img(old, DEBUG_BG), r.width as nat, r.grid_ops(cells, fade, (row * r.cols + col) as nat)),
            r.width as nat,
            r.cell_ops(row, col, cells[row][col], fade),
        )[(y * r.width + x) * 4 + k],
{
    let w = r.width as nat;
    let cols = r.cols as int;
    let n = row * cols + col;
    let total = (r.rows * r.cols) as nat;
    let idx = (y * r.width + x) * 4 + k;
    lemma_cell_within_image(r, row, col);
    lemma_pixel_in_image(x, y, r.width as int, r.height as int);
    vstd::arithmetic::mul::lemma_mul_is_commutative(r.height as int, r.width as int);
    let base = fill_img(old, DEBUG_BG);
    vstd::arithmetic::mul::lemma_mul_inequality(row + 1, r.rows as int, cols);
    assert((row + 1) * cols == row * cols + cols) by (nonlinear_arith);
    vstd::arithmetic::mul::lemma_mul_nonnegative(row, cols);
    vstd::arithmetic::div_mod::lemma_fundamental_div_mod_converse(n, cols, row, col);
    let before = r.grid_ops(cells, fade, n as nat);
    let own = r.cell_ops(row, col, cells[row][col], fade);
    assert(r.grid_ops(cells, fade, (n + 1) as nat) == before + own);
    lemma_paint_append(base, w, before, own);
    lemma_paint_len(base, w, before);
    if n + 1 < total {
        lemma_later_cells(r, base, cells, fade, row, col, total, x, y, k);
    }
    let grid = r.grid_ops(cells, fade, total);
    lemma_paint_len(base, w, grid);
    let tail: Seq<DrawOp> = match cursor {
        Some((cr, cc)) => outline_ops(r.spec_cursor_rect(cr as int, cc as int), DEBUG_CURSOR),
        None => Seq::empty(),
    };
    assert(r.render_ops(cells, cursor, fade) == grid + tail);
    lemma_paint_append(base, w, grid, tail);
    match cursor {
        Some((cr, cc)) => {
            lemma_outline_pixel(paint(base, w, grid), w, r.spec_cursor_rect(cr as int, cc as int), DEBUG_CURSOR, x, y, k);
        },
        None => {},
    }
}

/// The colour the background of a cell is drawn in: its background, and
/// for the default colour the fallback [31, 31, 40].
pub open spec fn back_color(cell: CellInfo) -> Rgba {
    match vt_rgba(cell.bg) {
        Some(c) => c,
        None => [31u8, 31, 40, 255],
    }
}

/// In the debug image (cells at least two pixels high), a cell of at least
/// 5 by 5 pixels that holds text shows the colour of its text at its
/// centre, wherever the cursor's outline does not pass.
pub proof fn lemma_rendered_text_block(
    r: CellDebugImageRenderer,
    old: Seq<u8>,
    cells: Seq<Seq<Option<CellInfo>>>,
    cursor: Option<(u16, u16)>,
    fade: &FadeTable,
    row: int,
    col: int,
    c: CellInfo,
    k: int,
)
    requires
        r.wf(),
        r.cell_height >= 2,
        old.len() == r.image_len(),
        0 <= row < r.rows,
        0 <= col < r.cols,
        cells[row][col] == Some(c),
        c.has_contents,
        !c.wide_continuation,
        r.spec_cell_rect(row, col).x1 - r.spec_cell_rect(row, col).x0 >= 5,
        r.spec_cell_rect(row, col).y1 - r.spec_cell_rect(row, col).y0 >= 5,
        0 <= k < 4,
        cursor matches Some((cr, cc)) ==> !on_border(
            r.spec_cursor_rect(cr as int, cc as int),
            r.spec_cell_rect(row, col).x0 + (r.spec_cell_rect(row, col).x1 - r.spec_cell_rect(row, col).x0) / 2,
            r.spec_cell_rect(row, col).y0 + (r.spec_cell_rect(row, col).y1 - r.spec_cell_rect(row, col).y0) / 2,
        ),
    ensures
        ({
            let rect = r.spec_cell_rect(row, col);
            let x = rect.x0 + (rect.x1 - rect.x0) / 2;
            let y = rect.y0 + (rect.y1 - rect.y0) / 2;
            r.rendered(old, cells, cursor, fade)[(y * r.width + x) * 4 + k] == text_color(c)[k]
        }),
{
    let rect = r.spec_cell_rect(row, col);
    let x = rect.x0 + (rect.x1 - rect.x0) / 2;
    let y = rect.y0 + (rect.y1 - rect.y0) / 2;
    lemma_rendered_cell(r, old, cells, cursor, fade, row, col, x, y, k);
    let img = paint(fill_img(old, DEBUG_BG), r.width as nat, r.grid_ops(cells, fade, (row * r.cols + col) as nat));
    lemma_cell_pixel(r, img, row, col, c, fade, x, y, k);
}

/// In the debug image (cells at least two pixels high), a cell of the
/// screen shows its background two pixels in from its top left corner,
/// faded when it holds no text, wherever the cursor's outline does not
/// pass; this holds for cells of at least 5 by 5 pixels, and of at least
/// 11 by 11 pixels for a cell that holds text (whose centred block is
/// smaller than the cell by at least three pixels on each side).
pub proof fn lemma_rendered_cell_background(
    r: CellDebugImageRenderer,
    old: Seq<u8>,
    cells: Seq<Seq<Option<CellInfo>>>,
    cursor: Option<(u16, u16)>,
    fade: &FadeTable,
    row: int,
    col: int,
    c: CellInfo,
    k: int,
)
    requires
        r.wf(),
        r.cell_height >= 2,
        old.len() == r.image_len(),
        0 <= row < r.rows,
        0 <= col < r.cols,
        cells[row][col] == Some(c),
        r.spec_cell_rect(row, col).x1 - r.spec_cell_rect(row, col).x0 >= if cell_active(c) { 11int } else { 5int },
        r.spec_cell_rect(row, col).y1 - r.spec_cell_rect(row, col).y0 >= if cell_active(c) { 11int } else { 5int },
        0 <= k < 4,
        cursor matches Some((cr, cc)) ==> !on_border(
            r.spec_cursor_rect(cr as int, cc as int),
            r.spec_cell_rect(row, col).x0 + 2,
            r.spec_cell_rect(row, col).y0 + 2,
        ),
    ensures
        r.rendered(old, cells, cursor, fade)[((r.spec_cell_rect(row, col).y0 + 2) * r.width + r.spec_cell_rect(row, col).x0 + 2) * 4 + k]
            == (if cell_active(c) { back_color(c) } else { fade.spec_fade(back_color(c)) })[k],
{
    let rect = r.spec_cell_rect(row, col);
    let x = rect.x0 + 2;
    let y = rect.y0 + 2;
    lemma_rendered_cell(r, old, cells, cursor, fade, row, col, x, y, k);
    let img = paint(fill_img(old, DEBUG_BG), r.width as nat, r.grid_ops(cells, fade, (row * r.cols + col) as nat));
    lemma_cell_pixel(r, img, row, col, c, fade, x, y, k);
}

/// In the debug image (cells at least two pixels high), the top left
/// pixel of every cell of at least 5 by 5 pixels is grid outline, whatever
/// the cell holds, wherever the cursor's outline does not pass.
pub proof fn lemma_rendered_grid_outline(
    r: CellDebugImageRenderer,
    old: Seq<u8>,
    cells: Seq<Seq<Option<CellInfo>>>,
    cursor: Option<(u16, u16)>,
    fade: &FadeTable,
    row: int,
    col: int,
    k: int,
)
    requires
        r.wf(),
        r.cell_height >= 2,
        old.len() == r.image_len(),
        0 <= row < r.rows,
        0 <= col < r.cols,
        r.spec_cell_rect(row, col).x1 - r.spec_cell_rect(row, col).x0 >= 5,
        r.spec_cell_rect(row, col).y1 - r.spec_cell_rect(row, col).y0 >= 5,
        0 <= k < 4,
        cursor matches Some((cr, cc)) ==> !on_border(
            r.spec_cursor_rect(cr as int, cc as int),
            r.spec_cell_rect(row, col).x0 as int,
            r.spec_cell_rect(row, col).y0 as int,
        ),
    ensures
        r.rendered(old, cells, cursor, fade)[(r.spec_cell_rect(row, col).y0 * r.width + r.spec_cell_rect(row, col).x0) * 4 + k]
            == [51u8, 57, 72, 255][k],
{
    let w = r.width as nat;
    let rect = r.spec_cell_rect(row, col);
    let x = rect.x0 as int;
    let y = rect.y0 as int;
    lemma_rendered_cell(r, old, cells, cursor, fade, row, col, x, y, k);
    let img = paint(fill_img(old, DEBUG_BG), w, r.grid_ops(cells, fade, (row * r.cols + col) as nat));
    match cells[row][col] {
        Some(c) => {
            lemma_cell_pixel(r, img, row, col, c, fade, x, y, k);
        },
        None => {
            let first = seq![(rect, DEBUG_GRID)];
            assert(r.cell_ops(row, col, None, fade) == first + outline_ops(rect, DEBUG_GRID_OUTLINE));
            lemma_paint_single(img, w, (rect, DEBUG_GRID), x, y, k);
            lemma_paint_append(img, w, first, outline_ops(rect, DEBUG_GRID_OUTLINE));
            lemma_outline_pixel(paint(img, w, first), w, rect, DEBUG_GRID_OUTLINE, x, y, k);
        },
    }
}

/// In the debug image, a shown cursor's outline lies on top of everything:
/// every pixel of the image on the border of the cursor's cell is cursor
/// colour; on the grid the cursor's cell is the grid cell at its row and
/// column.
pub proof fn lemma_rendered_cursor(
    r: CellDebugImageRenderer,
    old: Seq<u8>,
    cells: Seq<Seq<Option<CellInfo>>>,
    cr: u16,
    cc: u16,
    fade: &FadeTable,
    x: int,
    y: int,
    k: int,
)
    requires
        r.wf(),
        old.len() == r.image_len(),
        0 <= x < r.width,
        0 <= y < r.height,
        0 <= k < 4,
        on_border(r.spec_cursor_rect(cr as int, cc as int), x, y),
    ensures
        r.rendered(old, cells, Some((cr, cc)), fade)[(y * r.width + x) * 4 + k] == [126u8, 156, 216, 255][k],
        cr < r.rows ==> r.spec_cursor_rect(cr as int, cc as int) == r.spec_cell_rect(cr as int, cc as int),
{
    let w = r.width as nat;
    let base = fill_img(old, DEBUG_BG);
    let grid = r.grid_ops(cells, fade, (r.rows * r.cols) as nat);
    let tail = outline_ops(r.spec_cursor_rect(cr as int, cc as int), DEBUG_CURSOR);
    lemma_pixel_in_image(x, y, r.width as int, r.height as int);
    vstd::arithmetic::mul::lemma_mul_is_commutative(r.height as int, r.width as int);
    lemma_paint_len(base, w, grid);
    assert(r.render_ops(cells, Some((cr, cc)), fade) == grid + tail);
    lemma_paint_append(base, w, grid, tail);
    lemma_outline_pixel(paint(base, w, grid), w, r.spec_cursor_rect(cr as int, cc as int), DEBUG_CURSOR, x, y, k);
}

/// Pixel `p` of the RGB image, when both images hold it, lands on bytes
/// `4 p` to `4 p + 3` of the RGBA image: its red, green and blue, then an
/// opaque alpha.
pub proof fn lemma_rgba_pixel(old: Seq<u8>, rgb: Seq<u8>, len: nat, p: int)
    requires
        0 <= p,
        p < len / 4,
        p < rgb.len() / 3,
    ensures
        rgba_from_rgb(old, rgb, len)[4 * p] == rgb[3 * p],
        rgba_from_rgb(old, rgb, len)[4 * p + 1] == rgb[3 * p + 1],
        rgba_from_rgb(old, rgb, len)[4 * p + 2] == rgb[3 * p + 2],
        rgba_from_rgb(old, rgb, len)[4 * p + 3] == 255,
{
    vstd::arithmetic::div_mod::lemma_fundamental_div_mod(len as int, 4);
    vstd::arithmetic::div_mod::lemma_fundamental_div_mod(rgb.len() as int, 3);
    vstd::arithmetic::div_mod::lemma_fundamental_div_mod_converse(4 * p, 4, p, 0);
    vstd::arithmetic::div_mod::lemma_fundamental_div_mod_converse(4 * p + 1, 4, p, 1);
    vstd::arithmetic::div_mod::lemma_fundamental_div_mod_converse(4 * p + 2, 4, p, 2);
    vstd::arithmetic::div_mod::lemma_fundamental_div_mod_converse(4 * p + 3, 4, p, 3);
}

} // verus!
