//! The run-length encoded canvas.
use crate::common::text::{
    glyph_rows, glyph_wf, letter_rows, FontSize, Letter, Text, DEFAULT_FONT_SIZE,
};
use crate::common::types::{DrawError, IPosition, Position};
use crate::format::runs::{
    coalesce_runs, draw_rows, fragment, lemma_coalesce_runs, lemma_draw_rows,
    lemma_row_interval, lemma_run_index_bounds, lemma_run_index_monotonic,
    lemma_run_index_unique, lemma_run_offset_monotonic, lemma_run_offset_step, lemma_run_single,
    lemma_run_total_nonnegative, lemma_splice_interval, no_adjacent_equal, paint_interval,
    paint_rectangle, repeat, run_index, run_offset, run_pixels, run_total, runs_positive,
    splice_interval,
};
use crate::format::stamps::{
    draw_stamp, draw_stamp_cells, draw_text_stamps, lemma_draw_stamp, lemma_draw_text_stamps,
    lemma_stamp_off_canvas, paint_stamp, paint_text_stamps, text_stamp, Stamp,
};
use vstd::arithmetic::div_mod::lemma_fundamental_div_mod_converse;
use vstd::laws_eq::obeys_concrete_eq;
use vstd::prelude::*;

verus! {

/// One run: `freq` consecutive pixels of the same `value`.
#[derive(Clone, Debug, PartialEq)]
pub struct RLE<T> {
    pub freq: usize,
    pub value: T,
}

impl<T> RLE<T> {
    pub fn new(freq: usize, value: T) -> (run: Self)
        ensures
            run == (RLE { freq, value }),
    {
        RLE { freq, value }
    }
}

/// A canvas of `height` rows and `width` columns, stored row by row as a list of runs.
pub struct Image<T> {
    pub height: usize,
    pub width: usize,
    pub pixels_indexes: Vec<RLE<T>>,
}

impl<T> View for Image<T> {
    type V = Seq<T>;

    /// The pixels of the canvas in row-major order.
    open spec fn view(&self) -> Seq<T> {
        run_pixels(self.pixels_indexes@)
    }
}

impl<T: Copy> Image<T> {
    /// The number of pixels of the canvas.
    pub open spec fn area(&self) -> int {
        self.height * self.width
    }

    /// The run list covers the canvas exactly, and the canvas can be addressed.
    pub open spec fn wf(&self) -> bool {
        &&& self.area() <= usize::MAX
        &&& run_total(self.pixels_indexes@) == self.area()
    }

    pub fn new(height: usize, width: usize, default_color: T) -> (image: Self)
        requires
            height * width <= usize::MAX,
        ensures
            image.wf(),
            image.height == height,
            image.width == width,
            image.pixels_indexes@ == seq![
                RLE { freq: (height * width) as usize, value: default_color },
            ],
            image@ == repeat(height * width, default_color),
    {
        proof {
            assert(width * height == height * width) by (nonlinear_arith);
        }
        let run = RLE::new(width * height, default_color);
        let runs = vec![run];
        proof {
            assert(runs@ == seq![RLE { freq: (height * width) as usize, value: default_color }]);
            lemma_run_single(runs@[0]);
        }
        Image { height, width, pixels_indexes: runs }
    }

    /// Replaces the run list by one run that covers the whole canvas.
    pub fn fill(&mut self, color: T) -> (canvas: &mut Self)
        requires
            old(self).area() <= usize::MAX,
        ensures
            canvas.height == old(self).height,
            canvas.width == old(self).width,
            canvas.pixels_indexes@ == seq![RLE { freq: old(self).area() as usize, value: color }],
            canvas@ == repeat(old(self).area(), color),
            canvas.wf(),
            *final(self) == *final(canvas),
    {
        let run = RLE::new(self.height * self.width, color);
        let runs = vec![run];
        proof {
            assert(runs@ == seq![RLE { freq: self.area() as usize, value: color }]);
            lemma_run_single(runs@[0]);
        }
        self.pixels_indexes = runs;
        self
    }

    /// Finds the run that holds pixel `position`, walking on from run `from`,
    /// which begins at `offset`. Returns the run's index and where it begins.
    fn locate(&self, position: usize, from: usize, offset: usize) -> (found: (usize, usize))
        requires
            from <= self.pixels_indexes@.len(),
            offset == run_offset(self.pixels_indexes@, from as int),
            offset <= position < run_total(self.pixels_indexes@),
        ensures
            from <= found.0 < self.pixels_indexes@.len(),
            found.0 == run_index(self.pixels_indexes@, position as int),
            found.1 == run_offset(self.pixels_indexes@, found.0 as int),
            found.1 <= position < found.1 + self.pixels_indexes@[found.0 as int].freq,
    {
        let ghost runs = self.pixels_indexes@;
        let mut index: usize = from;
        let mut start_count: usize = offset;
        proof {
            assert(runs.take(runs.len() as int) == runs);
        }
        while position - start_count >= self.pixels_indexes[index].freq
            invariant
                runs == self.pixels_indexes@,
                runs.len() == self.pixels_indexes.len(),
                from <= index < runs.len(),
                start_count == run_offset(runs, index as int),
                start_count <= position < run_total(runs),
            decreases runs.len() - index,
        {
            proof {
                lemma_run_offset_step(runs, index as int);
                assert(runs.take(runs.len() as int) == runs);
            }
            start_count = start_count + self.pixels_indexes[index].freq;
            index = index + 1;
        }
        proof {
            lemma_run_index_unique(runs, position as int, index as int);
        }
        (index, start_count)
    }

    /// Gives the pixels `interval_start..=interval_end` the value `color`.
    ///
    /// The run that holds the start keeps what lies before it, the run that
    /// holds the end keeps what lies behind it, and one new run takes the place
    /// of all that lay between. An interval whose end lies before its start, or
    /// outside the canvas, is refused and the canvas stays as it was.
    pub fn add_interval(&mut self, interval_start: usize, interval_end: usize, color: T) -> (res:
        Result<(), DrawError>)
        requires
            old(self).wf(),
        ensures
            final(self).wf(),
            final(self).height == old(self).height,
            final(self).width == old(self).width,
            interval_start > interval_end ==> res == Err::<(), DrawError>(
                DrawError::InvertedInterval,
            ),
            interval_start <= interval_end && interval_end >= old(self).area() ==> res == Err::<
                (),
                DrawError,
            >(DrawError::InvalidRegion),
            interval_start <= interval_end < old(self).area() ==> res is Ok,
            res is Err ==> *final(self) == *old(self),
            res is Ok ==> final(self).pixels_indexes@ == splice_interval(
                old(self).pixels_indexes@,
                interval_start as int,
                interval_end as int,
                color,
            ),
            res is Ok ==> final(self)@ == paint_interval(
                old(self)@,
                interval_start as int,
                interval_end as int,
                color,
            ),
            final(self).pixels_indexes@.len() <= old(self).pixels_indexes@.len() + 2,
            runs_positive(old(self).pixels_indexes@) ==> runs_positive(final(self).pixels_indexes@),
    {
        if interval_start > interval_end {
            return Err(DrawError::InvertedInterval);
        }
        if interval_end >= self.height * self.width {
            return Err(DrawError::InvalidRegion);
        }
        let ghost runs = self.pixels_indexes@;
        proof {
            assert(runs.take(0) == Seq::<RLE<T>>::empty());
            lemma_splice_interval(runs, interval_start as int, interval_end as int, color);
            lemma_run_index_bounds(runs, interval_start as int);
            lemma_run_index_bounds(runs, interval_end as int);
            lemma_run_index_monotonic(runs, interval_start as int, interval_end as int);
        }
        let (index_start, start_offset) = self.locate(interval_start, 0, 0);
        proof {
            lemma_run_offset_monotonic(runs, index_start as int, index_start as int);
        }
        let (index_end, end_offset) = self.locate(interval_end, index_start, start_offset);
        let before: usize = interval_start - start_offset;
        let after: usize = self.pixels_indexes[index_end].freq - (interval_end - end_offset) - 1;
        let total: usize = self.pixels_indexes.len();

        let mut new_entries: Vec<RLE<T>> = Vec::new();
        let mut i: usize = 0;
        while i < index_start
            invariant
                runs == self.pixels_indexes@,
                i <= index_start < runs.len(),
                new_entries@ == runs.take(i as int),
            decreases index_start - i,
        {
            new_entries.push(RLE::new(self.pixels_indexes[i].freq, self.pixels_indexes[i].value));
            proof {
                assert(runs.take(i + 1) == runs.take(i as int).push(runs[i as int]));
            }
            i = i + 1;
        }
        if before > 0 {
            new_entries.push(RLE::new(before, self.pixels_indexes[index_start].value));
        }
        new_entries.push(RLE::new(interval_end - interval_start + 1, color));
        if after > 0 {
            new_entries.push(RLE::new(after, self.pixels_indexes[index_end].value));
        }
        let ghost front = new_entries@;
        proof {
            assert(front == runs.take(index_start as int) + fragment(
                before as int,
                runs[index_start as int].value,
            ) + seq![RLE { freq: (interval_end - interval_start + 1) as usize, value: color }]
                + fragment(after as int, runs[index_end as int].value));
        }
        let mut j: usize = index_end + 1;
        while j < total
            invariant
                runs == self.pixels_indexes@,
                total == runs.len(),
                index_end < j <= total,
                new_entries@ == front + runs.subrange(index_end + 1, j as int),
            decreases total - j,
        {
            new_entries.push(RLE::new(self.pixels_indexes[j].freq, self.pixels_indexes[j].value));
            proof {
                assert(runs.subrange(index_end + 1, j + 1) == runs.subrange(
                    index_end + 1,
                    j as int,
                ).push(runs[j as int]));
            }
            j = j + 1;
        }
        proof {
            assert(runs.subrange(index_end + 1, total as int) == runs.skip(index_end + 1));
        }
        self.pixels_indexes = new_entries;
        Ok(())
    }
}

impl<T: Copy> Image<T> {
    /// Gives every pixel of the rectangle from `start`, its top left corner,
    /// to `end`, its bottom right corner, the value `color`; both corners belong
    /// to the rectangle.
    ///
    /// Each row of the rectangle is one interval. A rectangle whose end lies
    /// left of or above its start, or outside the canvas, is refused and the
    /// canvas stays as it was.
    pub fn draw_rectangle(&mut self, start: Position, end: Position, color: T) -> (res: Result<
        &mut Self,
        DrawError,
    >)
        requires
            old(self).wf(),
        ensures
            (end.x < start.x || end.y < start.y) ==> res is Err && res->Err_0
                == DrawError::InvertedInterval,
            start.x <= end.x && start.y <= end.y && (end.x >= old(self).width || end.y >= old(
                self,
            ).height) ==> res is Err && res->Err_0 == DrawError::InvalidRegion,
            start.x <= end.x < old(self).width && start.y <= end.y < old(self).height ==> res is Ok,
            res is Err ==> *final(self) == *old(self),
            res matches Ok(canvas) ==> {
                &&& *final(self) == *final(canvas)
                &&& canvas.wf()
                &&& canvas.height == old(self).height
                &&& canvas.width == old(self).width
                &&& canvas.pixels_indexes@ == draw_rows(
                    old(self).pixels_indexes@,
                    old(self).width as int,
                    start.x as int,
                    end.x as int,
                    start.y as int,
                    end.y - start.y + 1,
                    color,
                )
                &&& canvas@ == paint_rectangle(
                    old(self)@,
                    old(self).width as int,
                    start.x as int,
                    end.x as int,
                    start.y as int,
                    end.y as int,
                    color,
                )
                &&& canvas.pixels_indexes@.len() <= old(self).pixels_indexes@.len() + 2 * (end.y
                    - start.y + 1)
                &&& runs_positive(old(self).pixels_indexes@) ==> runs_positive(
                    canvas.pixels_indexes@,
                )
            },
    {
        if end.x < start.x || end.y < start.y {
            return Err(DrawError::InvertedInterval);
        }
        if end.x >= self.width || end.y >= self.height {
            return Err(DrawError::InvalidRegion);
        }
        let ghost runs = self.pixels_indexes@;
        let ghost width = self.width as int;
        let ghost height = self.height as int;
        let mut y: usize = start.y;
        while y <= end.y
            invariant
                self.wf(),
                self.width == width,
                self.height == height,
                run_total(runs) == height * width,
                start.x <= end.x < width,
                start.y <= y <= end.y + 1,
                end.y < height,
                self.pixels_indexes@ == draw_rows(
                    runs,
                    width,
                    start.x as int,
                    end.x as int,
                    start.y as int,
                    y - start.y,
                    color,
                ),
            decreases end.y + 1 - y,
        {
            proof {
                lemma_row_interval(width, height, y as int, start.x as int, end.x as int);
            }
            let interval_start: usize = y * self.width + start.x;
            let interval_end: usize = y * self.width + end.x;
            let _ = self.add_interval(interval_start, interval_end, color);
            y = y + 1;
        }
        proof {
            lemma_draw_rows(
                runs,
                width,
                height,
                start.x as int,
                end.x as int,
                start.y as int,
                end.y - start.y + 1,
                color,
            );
        }
        Ok(self)
    }
}

impl<T: Copy + PartialEq> Image<T> {
    /// Merges neighbouring runs of one value into one run, in one pass from
    /// left to right. The pixels stay as they are.
    pub fn coalesce(&mut self)
        requires
            run_total(old(self).pixels_indexes@) <= usize::MAX,
            obeys_concrete_eq::<T>(),
        ensures
            final(self).pixels_indexes@ == coalesce_runs(old(self).pixels_indexes@),
            final(self)@ == old(self)@,
            final(self).height == old(self).height,
            final(self).width == old(self).width,
            run_total(final(self).pixels_indexes@) == run_total(old(self).pixels_indexes@),
            no_adjacent_equal(final(self).pixels_indexes@),
            final(self).pixels_indexes@.len() <= old(self).pixels_indexes@.len(),
            runs_positive(old(self).pixels_indexes@) ==> runs_positive(final(self).pixels_indexes@),
    {
        let ghost runs = self.pixels_indexes@;
        let total: usize = self.pixels_indexes.len();
        let mut result: Vec<RLE<T>> = Vec::new();
        let mut i: usize = 0;
        proof {
            assert(runs.take(0) == Seq::<RLE<T>>::empty());
        }
        while i < total
            invariant
                runs == self.pixels_indexes@,
                total == runs.len(),
                i <= total,
                run_total(runs) <= usize::MAX,
                result@ == coalesce_runs(runs.take(i as int)),
                obeys_concrete_eq::<T>(),
            decreases total - i,
        {
            let freq: usize = self.pixels_indexes[i].freq;
            let value: T = self.pixels_indexes[i].value;
            let n: usize = result.len();
            proof {
                reveal(obeys_concrete_eq);
                assert(runs.take(i + 1).drop_last() == runs.take(i as int));
                assert(runs.take(i + 1).last() == runs[i as int]);
                lemma_run_offset_monotonic(runs, i as int + 1, total as int);
                lemma_coalesce_runs(runs.take(i + 1));
                lemma_coalesce_runs(runs.take(i as int));
                lemma_run_total_nonnegative(result@.drop_last());
            }
            if n > 0 && result[n - 1].value == value {
                let merged: usize = result[n - 1].freq + freq;
                let _ = result.pop();
                result.push(RLE::new(merged, value));
            } else {
                result.push(RLE::new(freq, value));
            }
            i = i + 1;
        }
        proof {
            assert(runs.take(total as int) == runs);
            lemma_coalesce_runs(runs);
        }
        self.pixels_indexes = result;
    }
}

impl<T: Copy> Image<T> {
    /// Paints a glyph with its top left cell at column `left` of row `top`:
    /// every set cell of the glyph that lies on the canvas gets the value
    /// `color`, as an interval of one pixel, row by row. The cells beside the
    /// canvas are passed over.
    fn draw_glyph(&mut self, glyph: &Letter, left: i128, top: i128, color: T)
        requires
            old(self).wf(),
            glyph_wf(letter_rows(glyph)),
            -0x1_0000_0000_0000_0000 <= left <= 0x4_0000_0000_0000_0000,
            -0x1_0000_0000_0000_0000 <= top <= 0x4_0000_0000_0000_0000,
        ensures
            final(self).wf(),
            final(self).height == old(self).height,
            final(self).width == old(self).width,
            final(self).pixels_indexes@ == draw_stamp(
                old(self).pixels_indexes@,
                old(self).width as int,
                old(self).height as int,
                Stamp { rows: letter_rows(glyph), left: left as int, top: top as int },
                color,
            ),
            final(self)@ == paint_stamp(
                old(self)@,
                old(self).width as int,
                Stamp { rows: letter_rows(glyph), left: left as int, top: top as int },
                color,
            ),
            runs_positive(old(self).pixels_indexes@) ==> runs_positive(final(self).pixels_indexes@),
    {
        let ghost rows = letter_rows(glyph);
        let ghost stamp = Stamp { rows, left: left as int, top: top as int };
        let ghost runs = self.pixels_indexes@;
        let ghost width = self.width as int;
        let ghost height = self.height as int;
        proof {
            lemma_draw_stamp(runs, width, height, stamp, color);
            assert(rows[0] == glyph@[0]@);
        }
        let letter_h: i128 = glyph.len() as i128;
        let letter_w: i128 = glyph[0].len() as i128;
        let x_start: i128 = if left > 0 {
            left
        } else {
            0
        };
        let y_start: i128 = if top > 0 {
            top
        } else {
            0
        };
        let x_end: i128 = if left + letter_w < self.width as i128 {
            left + letter_w
        } else {
            self.width as i128
        };
        let y_end: i128 = if top + letter_h < self.height as i128 {
            top + letter_h
        } else {
            self.height as i128
        };
        if x_end <= x_start || y_end <= y_start {
            proof {
                let cells = stamp.cells(width, height);
                assert(cells == 0) by (nonlinear_arith)
                    requires
                        cells == stamp.lines(height) * stamp.columns(width),
                        stamp.lines(height) == 0 || stamp.columns(width) == 0,
                ;
            }
            return ;
        }
        let columns: usize = (x_end - x_start) as usize;
        let lines: usize = (y_end - y_start) as usize;
        // get the offset for the letter if the beginning of the letter is off canvas
        let letter_x_offset: usize = (x_start - left) as usize;
        let letter_y_offset: usize = (y_start - top) as usize;
        let first_x: usize = x_start as usize;
        let first_y: usize = y_start as usize;
        proof {
            assert(lines * columns == stamp.cells(width, height));
            assert(0 * columns == 0);
        }
        let mut i: usize = 0;
        while i < lines
            invariant
                self.wf(),
                self.width == width,
                self.height == height,
                run_total(runs) == height * width,
                rows == letter_rows(glyph),
                glyph_wf(rows),
                stamp == (Stamp { rows, left: left as int, top: top as int }),
                columns == stamp.columns(width),
                lines == stamp.lines(height),
                columns > 0,
                first_x == stamp.x_start(),
                first_y == stamp.y_start(),
                letter_x_offset == first_x - left,
                letter_y_offset == first_y - top,
                first_x + columns <= width,
                first_y + lines <= height,
                letter_x_offset + columns <= rows[0].len(),
                letter_y_offset + lines <= rows.len(),
                rows.len() <= usize::MAX,
                rows[0].len() <= usize::MAX,
                i <= lines,
                self.pixels_indexes@ == draw_stamp_cells(runs, width, stamp, color, i * columns),
                runs_positive(runs) ==> runs_positive(self.pixels_indexes@),
            decreases lines - i,
        {
            let y: usize = first_y + i;
            let mut j: usize = 0;
            while j < columns
                invariant
                    self.wf(),
                    self.width == width,
                    self.height == height,
                    run_total(runs) == height * width,
                    rows == letter_rows(glyph),
                    glyph_wf(rows),
                    stamp == (Stamp { rows, left: left as int, top: top as int }),
                    columns == stamp.columns(width),
                    lines == stamp.lines(height),
                    columns > 0,
                    first_x == stamp.x_start(),
                    first_y == stamp.y_start(),
                    letter_x_offset == first_x - left,
                    letter_y_offset == first_y - top,
                    first_x + columns <= width,
                    first_y + lines <= height,
                    letter_x_offset + columns <= rows[0].len(),
                    letter_y_offset + lines <= rows.len(),
                    rows.len() <= usize::MAX,
                    rows[0].len() <= usize::MAX,
                    i < lines,
                    y == first_y + i,
                    j <= columns,
                    self.pixels_indexes@ == draw_stamp_cells(
                        runs,
                        width,
                        stamp,
                        color,
                        i * columns + j,
                    ),
                    runs_positive(runs) ==> runs_positive(self.pixels_indexes@),
                decreases columns - j,
            {
                let x: usize = first_x + j;
                let ghost k = i * columns + j;
                proof {
                    lemma_fundamental_div_mod_converse(k, columns as int, i as int, j as int);
                    lemma_row_interval(width, height, y as int, x as int, x as int);
                    assert(rows[i + letter_y_offset] == glyph@[i + letter_y_offset]@);
                    assert(rows[i + letter_y_offset].len() == rows[0].len());
                    assert(stamp.covers(x as int, y as int) == (rows[i + letter_y_offset][j
                        + letter_x_offset] == 1));
                }
                let interval: usize = y * self.width + x;
                if glyph[i + letter_y_offset][j + letter_x_offset] == 1 {
                    let _ = self.add_interval(interval, interval, color);
                }
                proof {
                    assert(i * columns + (j + 1) == k + 1);
                }
                j = j + 1;
            }
            proof {
                assert((i + 1) * columns == i * columns + columns) by (nonlinear_arith);
            }
            i = i + 1;
        }
    }

    /// Paints the glyph of `letter` at `font_size` with its top left cell at `top_left`.
    pub fn draw_letter(
        &mut self,
        letter: char,
        glyphs: &mut Text,
        font_size: FontSize,
        top_left: IPosition,
        color: T,
    ) -> (canvas: &mut Self)
        requires
            old(self).wf(),
            old(glyphs).wf(),
            font_size.spec_value() >= DEFAULT_FONT_SIZE,
        ensures
            final(glyphs).wf(),
            *final(self) == *final(canvas),
            canvas.wf(),
            canvas.height == old(self).height,
            canvas.width == old(self).width,
            canvas.pixels_indexes@ == draw_stamp(
                old(self).pixels_indexes@,
                old(self).width as int,
                old(self).height as int,
                Stamp {
                    rows: glyph_rows(letter, font_size.spec_value() as int),
                    left: top_left.x as int,
                    top: top_left.y as int,
                },
                color,
            ),
            canvas@ == paint_stamp(
                old(self)@,
                old(self).width as int,
                Stamp {
                    rows: glyph_rows(letter, font_size.spec_value() as int),
                    left: top_left.x as int,
                    top: top_left.y as int,
                },
                color,
            ),
            runs_positive(old(self).pixels_indexes@) ==> runs_positive(canvas.pixels_indexes@),
    {
        // Fetch text to reuse already instanciated letter size
        let glyph: &Letter = glyphs.get_letter(letter, font_size);
        self.draw_glyph(glyph, top_left.x as i128, top_left.y as i128, color);
        self
    }
}

impl<T: Copy + PartialEq> Image<T> {
    /// Paints `text` from `top_left` to the right, one glyph beside the
    /// other, each a font size and a third of it to the right of the one
    /// before; then merges neighbouring runs of one value.
    pub fn draw_text(
        &mut self,
        text: &str,
        glyphs: &mut Text,
        font_size: FontSize,
        top_left: IPosition,
        color: T,
    ) -> (canvas: &mut Self)
        requires
            old(self).wf(),
            old(glyphs).wf(),
            font_size.spec_value() >= DEFAULT_FONT_SIZE,
            obeys_concrete_eq::<T>(),
        ensures
            final(glyphs).wf(),
            *final(self) == *final(canvas),
            canvas.wf(),
            canvas.height == old(self).height,
            canvas.width == old(self).width,
            canvas.pixels_indexes@ == coalesce_runs(
                draw_text_stamps(
                    old(self).pixels_indexes@,
                    old(self).width as int,
                    old(self).height as int,
                    text@,
                    font_size.spec_value() as int,
                    top_left.x as int,
                    top_left.y as int,
                    color,
                    text@.len() as int,
                ),
            ),
            canvas@ == paint_text_stamps(
                old(self)@,
                old(self).width as int,
                text@,
                font_size.spec_value() as int,
                top_left.x as int,
                top_left.y as int,
                color,
                text@.len() as int,
            ),
            no_adjacent_equal(canvas.pixels_indexes@),
            runs_positive(old(self).pixels_indexes@) ==> runs_positive(canvas.pixels_indexes@),
    {
        let size: usize = font_size.get_value();
        let spacing: usize = size / 3;
        let advance: i128 = size as i128 + spacing as i128;
        let top: i128 = top_left.y as i128;
        let ghost runs = self.pixels_indexes@;
        let ghost width = self.width as int;
        let ghost height = self.height as int;
        let ghost chars = text@;
        let ghost left = top_left.x as int;
        let mut current_offset: i128 = top_left.x as i128;
        proof {
            lemma_draw_text_stamps(
                runs,
                width,
                height,
                chars,
                size as int,
                left,
                top as int,
                color,
                chars.len() as int,
            );
        }
        for c in iter: text.chars()
            invariant
                self.wf(),
                glyphs.wf(),
                self.width == width,
                self.height == height,
                run_total(runs) == height * width,
                iter.seq() == chars,
                size == font_size.spec_value(),
                size >= DEFAULT_FONT_SIZE,
                advance == size + size / 3,
                top == top_left.y,
                left == top_left.x,
                current_offset == left + iter.index() * advance || (current_offset >= width
                    && left + iter.index() * advance >= current_offset),
                isize::MIN <= current_offset <= 0x3_0000_0000_0000_0000,
                self.pixels_indexes@ == draw_text_stamps(
                    runs,
                    width,
                    height,
                    chars,
                    size as int,
                    left,
                    top as int,
                    color,
                    iter.index(),
                ),
                runs_positive(runs) ==> runs_positive(self.pixels_indexes@),
        {
            let ghost n = iter.index();
            let ghost stamp = text_stamp(chars, n, size as int, left, top as int);
            let ghost before = self.pixels_indexes@;
            proof {
                assert((n + 1) * advance == n * advance + advance) by (nonlinear_arith);
                assert(chars[n] == c);
            }
            if current_offset < self.width as i128 {
                let glyph: &Letter = glyphs.get_letter(c, font_size);
                self.draw_glyph(glyph, current_offset, top, color);
                current_offset = current_offset + advance;
            } else {
                proof {
                    lemma_stamp_off_canvas(before, width, height, stamp, color);
                }
            }
        }
        proof {
            lemma_coalesce_runs(self.pixels_indexes@);
        }
        self.coalesce();
        self
    }
}

/// A canvas that is painted in colors of type `T`.
///
/// Every operation hands the canvas back, so that calls can be chained, or
/// says why it left the canvas untouched.
pub trait ImageFormat<T>: Sized {
    /// The canvas is in a state in which it can be painted.
    spec fn paintable(&self) -> bool;

    /// Fill the image with a given color
    fn fill(&mut self, color: &T) -> (res: Result<&mut Self, DrawError>)
        requires
            old(self).paintable(),
        ensures
            res matches Ok(canvas) ==> canvas.paintable() && *final(self) == *final(canvas),
    ;

    /// Draw a rectangle from a position that start from the top left and that goes to a
    /// position bottom right with a given color.
    fn draw_rectangle(&mut self, top_left: Position, bottom_right: Position, color: &T) -> (res:
        Result<&mut Self, DrawError>)
        requires
            old(self).paintable(),
        ensures
            res matches Ok(canvas) ==> canvas.paintable() && *final(self) == *final(canvas),
    ;

    /// Draw text
    fn draw_text(
        &mut self,
        letter: &str,
        font_size: FontSize,
        top_left: IPosition,
        color: &T,
    ) -> (res: Result<&mut Self, DrawError>)
        requires
            old(self).paintable(),
            font_size.spec_value() >= DEFAULT_FONT_SIZE,
        ensures
            res matches Ok(canvas) ==> canvas.paintable() && *final(self) == *final(canvas),
    ;
}

} // verus!
