//! Glyphs stamped on a canvas: which pixels they cover and what painting them
//! does to a run list.
use crate::common::text::glyph_rows;
use crate::format::image::RLE;
use crate::format::runs::{
    lemma_row_interval, lemma_row_member, lemma_run_pixels_len, lemma_splice_interval,
    paint_interval, run_pixels, run_total, runs_positive, splice_interval,
};
use vstd::arithmetic::div_mod::{lemma_fundamental_div_mod, lemma_fundamental_div_mod_converse};
use vstd::prelude::*;

verus! {

/// A glyph placed on a canvas, its top left cell at column `left` of row
/// `top`. Either may be negative, and the glyph may reach over any edge.
pub struct Stamp {
    pub rows: Seq<Seq<u8>>,
    pub left: int,
    pub top: int,
}

impl Stamp {
    /// The first column of the canvas that the glyph reaches.
    pub open spec fn x_start(self) -> int {
        if self.left > 0 {
            self.left
        } else {
            0
        }
    }

    /// The first row of the canvas that the glyph reaches.
    pub open spec fn y_start(self) -> int {
        if self.top > 0 {
            self.top
        } else {
            0
        }
    }

    /// The number of columns of a canvas `width` wide that the glyph reaches.
    pub open spec fn columns(self, width: int) -> int {
        let end = if self.left + self.rows[0].len() < width {
            self.left + self.rows[0].len()
        } else {
            width
        };
        if end > self.x_start() {
            end - self.x_start()
        } else {
            0
        }
    }

    /// The number of rows of a canvas `height` high that the glyph reaches.
    pub open spec fn lines(self, height: int) -> int {
        let end = if self.top + self.rows.len() < height {
            self.top + self.rows.len()
        } else {
            height
        };
        if end > self.y_start() {
            end - self.y_start()
        } else {
            0
        }
    }

    /// The number of cells of the glyph that lie on the canvas.
    pub open spec fn cells(self, width: int, height: int) -> int {
        self.lines(height) * self.columns(width)
    }

    /// The glyph has a set cell at column `x` of row `y` of the canvas.
    pub open spec fn covers(self, x: int, y: int) -> bool {
        &&& 0 <= y - self.top < self.rows.len()
        &&& 0 <= x - self.left < self.rows[0].len()
        &&& self.rows[y - self.top][x - self.left] == 1
    }

    /// The place among the cells on the canvas, row by row, of the cell at
    /// column `x` of row `y`.
    pub open spec fn cell_index(self, width: int, x: int, y: int) -> int {
        (y - self.y_start()) * self.columns(width) + (x - self.x_start())
    }
}

/// The run list after the first `count` cells of the glyph that lie on the
/// canvas have been visited row by row, and each set cell has been painted as
/// an interval of one pixel.
pub open spec fn draw_stamp_cells<T>(
    runs: Seq<RLE<T>>,
    width: int,
    stamp: Stamp,
    value: T,
    count: int,
) -> Seq<RLE<T>>
    decreases count,
{
    if count <= 0 {
        runs
    } else {
        let before = draw_stamp_cells(runs, width, stamp, value, count - 1);
        let x = stamp.x_start() + (count - 1) % stamp.columns(width);
        let y = stamp.y_start() + (count - 1) / stamp.columns(width);
        if stamp.covers(x, y) {
            splice_interval(before, y * width + x, y * width + x, value)
        } else {
            before
        }
    }
}

/// The run list after the glyph has been painted cell by cell.
pub open spec fn draw_stamp<T>(
    runs: Seq<RLE<T>>,
    width: int,
    height: int,
    stamp: Stamp,
    value: T,
) -> Seq<RLE<T>> {
    draw_stamp_cells(runs, width, stamp, value, stamp.cells(width, height))
}

/// The pixels after every pixel that the glyph covers has been given `value`.
pub open spec fn paint_stamp<T>(pixels: Seq<T>, width: int, stamp: Stamp, value: T) -> Seq<T> {
    Seq::new(
        pixels.len(),
        |p: int|
            if stamp.covers(p % width, p / width) {
                value
            } else {
                pixels[p]
            },
    )
}

/// The pixels after the covered pixels among the first `count` cells have been given `value`.
pub open spec fn paint_stamp_cells<T>(
    pixels: Seq<T>,
    width: int,
    stamp: Stamp,
    value: T,
    count: int,
) -> Seq<T> {
    Seq::new(
        pixels.len(),
        |p: int|
            if stamp.covers(p % width, p / width) && stamp.cell_index(width, p % width, p / width)
                < count {
                value
            } else {
                pixels[p]
            },
    )
}

/// Where cell `k` of the glyph's part on the canvas lies.
pub proof fn lemma_stamp_cell(stamp: Stamp, width: int, height: int, k: int)
    requires
        0 < width,
        0 <= height,
        0 <= k < stamp.cells(width, height),
    ensures
        stamp.columns(width) > 0,
        0 <= k % stamp.columns(width) < stamp.columns(width),
        0 <= k / stamp.columns(width) < stamp.lines(height),
        0 <= stamp.x_start() + k % stamp.columns(width) < width,
        0 <= stamp.y_start() + k / stamp.columns(width) < height,
        stamp.cell_index(
            width,
            stamp.x_start() + k % stamp.columns(width),
            stamp.y_start() + k / stamp.columns(width),
        ) == k,
{
    let cols = stamp.columns(width);
    let lines = stamp.lines(height);
    assert(cols > 0) by (nonlinear_arith)
        requires
            0 <= k < lines * cols,
            cols >= 0,
    ;
    lemma_fundamental_div_mod(k, cols);
    assert(k / cols < lines) by (nonlinear_arith)
        requires
            0 <= k < lines * cols,
            cols > 0,
            k == cols * (k / cols) + k % cols,
            0 <= k % cols,
    ;
    assert(0 <= k / cols) by (nonlinear_arith)
        requires
            0 <= k,
            cols > 0,
    ;
    assert(cols * (k / cols) == (k / cols) * cols) by (nonlinear_arith);
}

/// A cell on the canvas that comes `k`-th in the row-by-row order is cell `k`.
pub proof fn lemma_stamp_cell_unique(stamp: Stamp, width: int, x: int, y: int, k: int)
    requires
        stamp.columns(width) > 0,
        0 <= x - stamp.x_start() < stamp.columns(width),
        stamp.cell_index(width, x, y) == k,
    ensures
        x == stamp.x_start() + k % stamp.columns(width),
        y == stamp.y_start() + k / stamp.columns(width),
{
    let cols = stamp.columns(width);
    lemma_fundamental_div_mod_converse(k, cols, y - stamp.y_start(), x - stamp.x_start());
}

/// Painting the glyph cell by cell on the run list gives every pixel that the
/// glyph covers the value and leaves the others; the runs still cover the canvas.
pub proof fn lemma_draw_stamp_cells<T>(
    runs: Seq<RLE<T>>,
    width: int,
    height: int,
    stamp: Stamp,
    value: T,
    count: int,
)
    requires
        0 < width,
        0 <= height,
        run_total(runs) == height * width,
        height * width <= usize::MAX,
        0 <= count <= stamp.cells(width, height),
    ensures
        run_total(draw_stamp_cells(runs, width, stamp, value, count)) == run_total(runs),
        run_pixels(draw_stamp_cells(runs, width, stamp, value, count)) == paint_stamp_cells(
            run_pixels(runs),
            width,
            stamp,
            value,
            count,
        ),
        runs_positive(runs) ==> runs_positive(draw_stamp_cells(runs, width, stamp, value, count)),
    decreases count,
{
    lemma_run_pixels_len(runs);
    let px = run_pixels(runs);
    if count <= 0 {
        let none = paint_stamp_cells(px, width, stamp, value, count);
        assert forall|p: int| 0 <= p < px.len() implies none[p] == px[p] by {
            lemma_pixel_cell(stamp, width, height, p);
        }
        assert(none == px);
    } else {
        let k = count - 1;
        let before = draw_stamp_cells(runs, width, stamp, value, k);
        lemma_draw_stamp_cells(runs, width, height, stamp, value, k);
        lemma_stamp_cell(stamp, width, height, k);
        let cols = stamp.columns(width);
        let x = stamp.x_start() + k % cols;
        let y = stamp.y_start() + k / cols;
        let at = y * width + x;
        lemma_row_interval(width, height, y, x, x);
        lemma_row_member(width, y, x, x, at);
        let was = paint_stamp_cells(px, width, stamp, value, k);
        let now = paint_stamp_cells(px, width, stamp, value, count);
        if stamp.covers(x, y) {
            lemma_splice_interval(before, at, at, value);
            let painted = paint_interval(was, at, at, value);
            assert(painted.len() == now.len());
            assert forall|p: int| 0 <= p < now.len() implies painted[p] == now[p] by {
                lemma_pixel_cell(stamp, width, height, p);
                if p != at && stamp.covers(p % width, p / width) && stamp.cell_index(
                    width,
                    p % width,
                    p / width,
                ) == k {
                    lemma_stamp_cell_unique(stamp, width, p % width, p / width, k);
                    lemma_fundamental_div_mod(p, width);
                    assert(width * (p / width) == (p / width) * width) by (nonlinear_arith);
                }
            }
            assert(painted == now);
        } else {
            assert(was.len() == now.len());
            assert forall|p: int| 0 <= p < now.len() implies was[p] == now[p] by {
                lemma_pixel_cell(stamp, width, height, p);
                if stamp.covers(p % width, p / width) && stamp.cell_index(
                    width,
                    p % width,
                    p / width,
                ) == k {
                    lemma_stamp_cell_unique(stamp, width, p % width, p / width, k);
                }
            }
            assert(was == now);
        }
    }
}

/// A pixel of the canvas that the glyph covers is one of its cells on the canvas.
pub proof fn lemma_pixel_cell(stamp: Stamp, width: int, height: int, p: int)
    requires
        0 < width,
        0 <= height,
        0 <= p < height * width,
    ensures
        0 <= p % width < width,
        0 <= p / width < height,
        stamp.covers(p % width, p / width) ==> {
            &&& 0 <= p % width - stamp.x_start() < stamp.columns(width)
            &&& 0 <= p / width - stamp.y_start() < stamp.lines(height)
            &&& 0 <= stamp.cell_index(width, p % width, p / width) < stamp.cells(width, height)
        },
{
    lemma_fundamental_div_mod(p, width);
    let x = p % width;
    let y = p / width;
    assert(0 <= y < height) by (nonlinear_arith)
        requires
            0 <= p < height * width,
            p == width * y + x,
            0 <= x < width,
    ;
    if stamp.covers(x, y) {
        let cols = stamp.columns(width);
        let lines = stamp.lines(height);
        let dx = x - stamp.x_start();
        let dy = y - stamp.y_start();
        assert(0 <= dy * cols + dx < lines * cols) by (nonlinear_arith)
            requires
                0 <= dx < cols,
                0 <= dy < lines,
        ;
    }
}

/// Painting the whole glyph cell by cell paints what the glyph covers.
pub proof fn lemma_draw_stamp<T>(
    runs: Seq<RLE<T>>,
    width: int,
    height: int,
    stamp: Stamp,
    value: T,
)
    requires
        0 <= width,
        0 <= height,
        run_total(runs) == height * width,
        height * width <= usize::MAX,
    ensures
        run_total(draw_stamp(runs, width, height, stamp, value)) == run_total(runs),
        run_pixels(draw_stamp(runs, width, height, stamp, value)) == paint_stamp(
            run_pixels(runs),
            width,
            stamp,
            value,
        ),
        runs_positive(runs) ==> runs_positive(draw_stamp(runs, width, height, stamp, value)),
{
    lemma_run_pixels_len(runs);
    let px = run_pixels(runs);
    let cells = stamp.cells(width, height);
    if width == 0 {
        assert(height * width == 0) by (nonlinear_arith)
            requires
                width == 0,
        ;
        assert(stamp.columns(width) == 0);
        assert(cells == 0) by (nonlinear_arith)
            requires
                cells == stamp.lines(height) * stamp.columns(width),
                stamp.columns(width) == 0,
        ;
        assert(paint_stamp(px, width, stamp, value) == px);
    } else {
        assert(cells >= 0) by (nonlinear_arith)
            requires
                cells == stamp.lines(height) * stamp.columns(width),
                stamp.lines(height) >= 0,
                stamp.columns(width) >= 0,
        ;
        lemma_draw_stamp_cells(runs, width, height, stamp, value, cells);
        let cellwise = paint_stamp_cells(px, width, stamp, value, cells);
        let whole = paint_stamp(px, width, stamp, value);
        assert forall|p: int| 0 <= p < px.len() implies cellwise[p] == whole[p] by {
            lemma_pixel_cell(stamp, width, height, p);
        }
        assert(cellwise == whole);
    }
}

/// The glyph of character `n` of a text that begins at column `left` of row
/// `top`: each character lies a font size and a third of it to the right of
/// the one before.
pub open spec fn text_stamp(chars: Seq<char>, n: int, size: int, left: int, top: int) -> Stamp {
    Stamp { rows: glyph_rows(chars[n], size), left: left + n * (size + size / 3), top }
}

/// The run list after the first `count` characters of a text have been painted.
pub open spec fn draw_text_stamps<T>(
    runs: Seq<RLE<T>>,
    width: int,
    height: int,
    chars: Seq<char>,
    size: int,
    left: int,
    top: int,
    value: T,
    count: int,
) -> Seq<RLE<T>>
    decreases count,
{
    if count <= 0 {
        runs
    } else {
        draw_stamp(
            draw_text_stamps(runs, width, height, chars, size, left, top, value, count - 1),
            width,
            height,
            text_stamp(chars, count - 1, size, left, top),
            value,
        )
    }
}

/// The pixels after every pixel that one of the first `count` characters of a
/// text covers has been given `value`.
pub open spec fn paint_text_stamps<T>(
    pixels: Seq<T>,
    width: int,
    chars: Seq<char>,
    size: int,
    left: int,
    top: int,
    value: T,
    count: int,
) -> Seq<T>
    decreases count,
{
    if count <= 0 {
        pixels
    } else {
        paint_stamp(
            paint_text_stamps(pixels, width, chars, size, left, top, value, count - 1),
            width,
            text_stamp(chars, count - 1, size, left, top),
            value,
        )
    }
}

/// Painting a text glyph by glyph on the run list paints what its glyphs cover.
pub proof fn lemma_draw_text_stamps<T>(
    runs: Seq<RLE<T>>,
    width: int,
    height: int,
    chars: Seq<char>,
    size: int,
    left: int,
    top: int,
    value: T,
    count: int,
)
    requires
        0 <= width,
        0 <= height,
        run_total(runs) == height * width,
        height * width <= usize::MAX,
    ensures
        run_total(draw_text_stamps(runs, width, height, chars, size, left, top, value, count))
            == run_total(runs),
        run_pixels(draw_text_stamps(runs, width, height, chars, size, left, top, value, count))
            == paint_text_stamps(run_pixels(runs), width, chars, size, left, top, value, count),
        runs_positive(runs) ==> runs_positive(
            draw_text_stamps(runs, width, height, chars, size, left, top, value, count),
        ),
    decreases count,
{
    if count > 0 {
        lemma_draw_text_stamps(runs, width, height, chars, size, left, top, value, count - 1);
        lemma_draw_stamp(
            draw_text_stamps(runs, width, height, chars, size, left, top, value, count - 1),
            width,
            height,
            text_stamp(chars, count - 1, size, left, top),
            value,
        );
    }
}

/// A glyph that begins right of the canvas or below it leaves the run list as it is.
pub proof fn lemma_stamp_off_canvas<T>(
    runs: Seq<RLE<T>>,
    width: int,
    height: int,
    stamp: Stamp,
    value: T,
)
    requires
        stamp.left >= width || stamp.top >= height,
        0 <= width,
        0 <= height,
    ensures
        draw_stamp(runs, width, height, stamp, value) == runs,
{
    let cells = stamp.cells(width, height);
    assert(cells == 0) by (nonlinear_arith)
        requires
            cells == stamp.lines(height) * stamp.columns(width),
            stamp.lines(height) == 0 || stamp.columns(width) == 0,
    ;
}

/// Painting a text changes no pixel but to `value`, and adds and removes none.
pub proof fn lemma_paint_text_stamps_values<T>(
    pixels: Seq<T>,
    width: int,
    chars: Seq<char>,
    size: int,
    left: int,
    top: int,
    value: T,
    count: int,
)
    ensures
        paint_text_stamps(pixels, width, chars, size, left, top, value, count).len()
            == pixels.len(),
        forall|p: int|
            0 <= p < pixels.len() ==> {
                let painted = #[trigger] paint_text_stamps(
                    pixels,
                    width,
                    chars,
                    size,
                    left,
                    top,
                    value,
                    count,
                )[p];
                painted == value || painted == pixels[p]
            },
    decreases count,
{
    if count > 0 {
        lemma_paint_text_stamps_values(pixels, width, chars, size, left, top, value, count - 1);
        let before = paint_text_stamps(pixels, width, chars, size, left, top, value, count - 1);
        let after = paint_text_stamps(pixels, width, chars, size, left, top, value, count);
        assert forall|p: int| 0 <= p < pixels.len() implies {
            let painted = #[trigger] after[p];
            painted == value || painted == pixels[p]
        } by {
            assert(before[p] == value || before[p] == pixels[p]);
        }
    }
}

} // verus!
