//! The mathematical model of a run list.
//!
//! A run list stands for the row-major sequence of pixels that is obtained by
//! repeating each run's value as often as the run is long. Everything that
//! the canvas promises is stated over the functions of this module.
use crate::format::image::RLE;
use vstd::arithmetic::div_mod::{lemma_fundamental_div_mod, lemma_fundamental_div_mod_converse};
use vstd::prelude::*;

verus! {

/// The number of pixels that a run list covers.
pub open spec fn run_total<T>(runs: Seq<RLE<T>>) -> int
    decreases runs.len(),
{
    if runs.len() == 0 {
        0
    } else {
        run_total(runs.drop_last()) + runs.last().freq
    }
}

/// `n` copies of `value`.
pub open spec fn repeat<T>(n: int, value: T) -> Seq<T> {
    Seq::new(
        if n >= 0 {
            n as nat
        } else {
            0
        },
        |i: int| value,
    )
}

/// The pixels that a run list stands for, in row-major order.
pub open spec fn run_pixels<T>(runs: Seq<RLE<T>>) -> Seq<T>
    decreases runs.len(),
{
    if runs.len() == 0 {
        Seq::empty()
    } else {
        run_pixels(runs.drop_last()) + repeat(runs.last().freq as int, runs.last().value)
    }
}

/// The position of the first pixel of run `index`.
pub open spec fn run_offset<T>(runs: Seq<RLE<T>>, index: int) -> int {
    run_total(runs.take(index))
}

/// The index of the run that holds pixel `position`: the last run that begins
/// at or before it.
pub open spec fn run_index<T>(runs: Seq<RLE<T>>, position: int) -> int
    decreases runs.len(),
{
    if runs.len() <= 1 {
        0
    } else if run_total(runs.drop_last()) <= position {
        runs.len() - 1
    } else {
        run_index(runs.drop_last(), position)
    }
}

/// A boundary fragment: one run of `n` pixels, or nothing where `n` is not positive.
pub open spec fn fragment<T>(n: int, value: T) -> Seq<RLE<T>> {
    if n > 0 {
        seq![RLE { freq: n as usize, value }]
    } else {
        Seq::empty()
    }
}

/// The run list after the pixels `start..=end` have been given `value`.
///
/// The run that holds `start` keeps what lies before `start`, the run that
/// holds `end` keeps what lies behind `end`, and one new run replaces every
/// run and part of a run in between.
pub open spec fn splice_interval<T>(runs: Seq<RLE<T>>, start: int, end: int, value: T) -> Seq<
    RLE<T>,
> {
    let first = run_index(runs, start);
    let last = run_index(runs, end);
    let before = start - run_offset(runs, first);
    let after = run_offset(runs, last) + runs[last].freq - end - 1;
    runs.take(first) + fragment(before, runs[first].value) + seq![
        RLE { freq: (end - start + 1) as usize, value },
    ] + fragment(after, runs[last].value) + runs.skip(last + 1)
}

/// The pixels after `start..=end` have been given `value`.
pub open spec fn paint_interval<T>(pixels: Seq<T>, start: int, end: int, value: T) -> Seq<T> {
    pixels.take(start) + repeat(end - start + 1, value) + pixels.skip(end + 1)
}

/// No run is empty.
pub open spec fn runs_positive<T>(runs: Seq<RLE<T>>) -> bool {
    forall|i: int| 0 <= i < runs.len() ==> (#[trigger] runs[i]).freq > 0
}

pub proof fn lemma_run_total_nonnegative<T>(runs: Seq<RLE<T>>)
    ensures
        run_total(runs) >= 0,
    decreases runs.len(),
{
    if runs.len() > 0 {
        lemma_run_total_nonnegative(runs.drop_last());
    }
}

/// Totals and pixels of a concatenation are the concatenation's parts put together.
pub proof fn lemma_runs_concat<T>(a: Seq<RLE<T>>, b: Seq<RLE<T>>)
    ensures
        run_total(a + b) == run_total(a) + run_total(b),
        run_pixels(a + b) == run_pixels(a) + run_pixels(b),
    decreases b.len(),
{
    if b.len() == 0 {
        assert(a + b == a);
        assert(run_pixels(a) + Seq::<T>::empty() == run_pixels(a));
    } else {
        lemma_runs_concat(a, b.drop_last());
        assert((a + b).drop_last() == a + b.drop_last());
        assert((a + b).last() == b.last());
        let tail = repeat(b.last().freq as int, b.last().value);
        assert(run_pixels(a + b) == (run_pixels(a) + run_pixels(b.drop_last())) + tail);
        assert((run_pixels(a) + run_pixels(b.drop_last())) + tail == run_pixels(a) + (run_pixels(
            b.drop_last(),
        ) + tail));
    }
}

pub proof fn lemma_run_single<T>(run: RLE<T>)
    ensures
        run_total(seq![run]) == run.freq,
        run_pixels(seq![run]) == repeat(run.freq as int, run.value),
{
    let s = seq![run];
    assert(s.drop_last() == Seq::<RLE<T>>::empty());
    assert(run_total(s.drop_last()) == 0);
    assert(run_pixels(s.drop_last()) == Seq::<T>::empty());
    assert(s.last() == run);
    assert(Seq::<T>::empty() + repeat(run.freq as int, run.value) == repeat(
        run.freq as int,
        run.value,
    ));
}

pub proof fn lemma_fragment<T>(n: int, value: T)
    requires
        n <= usize::MAX,
    ensures
        run_total(fragment(n, value)) == if n > 0 {
            n
        } else {
            0
        },
        run_pixels(fragment(n, value)) == repeat(n, value),
        fragment(n, value).len() <= 1,
        runs_positive(fragment(n, value)),
{
    if n > 0 {
        lemma_run_single(RLE { freq: n as usize, value });
    } else {
        assert(repeat(n, value) == Seq::<T>::empty());
    }
}

/// A run list stands for as many pixels as its runs are long in total.
pub proof fn lemma_run_pixels_len<T>(runs: Seq<RLE<T>>)
    ensures
        run_pixels(runs).len() == run_total(runs),
    decreases runs.len(),
{
    if runs.len() > 0 {
        lemma_run_pixels_len(runs.drop_last());
    }
}

/// Runs begin in the order in which they are listed.
pub proof fn lemma_run_offset_monotonic<T>(runs: Seq<RLE<T>>, i: int, j: int)
    requires
        0 <= i <= j <= runs.len(),
    ensures
        0 <= run_offset(runs, i) <= run_offset(runs, j) <= run_total(runs),
    decreases runs.len() - i,
{
    lemma_run_total_nonnegative(runs.take(i));
    assert(runs.take(j) == runs.take(i) + runs.subrange(i, j));
    lemma_runs_concat(runs.take(i), runs.subrange(i, j));
    lemma_run_total_nonnegative(runs.subrange(i, j));
    assert(runs == runs.take(j) + runs.skip(j));
    lemma_runs_concat(runs.take(j), runs.skip(j));
    lemma_run_total_nonnegative(runs.skip(j));
}

/// Where the next run begins.
pub proof fn lemma_run_offset_step<T>(runs: Seq<RLE<T>>, i: int)
    requires
        0 <= i < runs.len(),
    ensures
        run_offset(runs, i + 1) == run_offset(runs, i) + runs[i].freq,
{
    assert(runs.take(i + 1).drop_last() == runs.take(i));
    assert(runs.take(i + 1).last() == runs[i]);
}

/// The run in which a pixel lies is the one that `run_index` names.
pub proof fn lemma_run_index_unique<T>(runs: Seq<RLE<T>>, position: int, i: int)
    requires
        0 <= i < runs.len(),
        run_offset(runs, i) <= position < run_offset(runs, i) + runs[i].freq,
    ensures
        run_index(runs, position) == i,
    decreases runs.len(),
{
    if runs.len() <= 1 {
    } else if i == runs.len() - 1 {
        assert(runs.take(i) == runs.drop_last());
    } else {
        let front = runs.drop_last();
        lemma_run_offset_step(runs, i);
        lemma_run_offset_monotonic(runs, i + 1, runs.len() - 1);
        assert(runs.take(runs.len() - 1) == front);
        assert(front.take(i) == runs.take(i));
        lemma_run_index_unique(front, position, i);
    }
}

/// Every pixel of a non-empty canvas lies in exactly one run.
pub proof fn lemma_run_index_bounds<T>(runs: Seq<RLE<T>>, position: int)
    requires
        0 <= position < run_total(runs),
    ensures
        0 <= run_index(runs, position) < runs.len(),
        run_offset(runs, run_index(runs, position)) <= position < run_offset(
            runs,
            run_index(runs, position),
        ) + runs[run_index(runs, position)].freq,
    decreases runs.len(),
{
    if runs.len() == 0 {
    } else if runs.len() == 1 {
        assert(runs.take(0) == Seq::<RLE<T>>::empty());
        assert(runs.drop_last() == Seq::<RLE<T>>::empty());
    } else if run_total(runs.drop_last()) <= position {
        assert(runs.take(runs.len() - 1) == runs.drop_last());
    } else {
        let front = runs.drop_last();
        lemma_run_index_bounds(front, position);
        let i = run_index(front, position);
        assert(front.take(i) == runs.take(i));
    }
}

/// The run that holds a later pixel is not listed before the run that holds an earlier one.
pub proof fn lemma_run_index_monotonic<T>(runs: Seq<RLE<T>>, p: int, q: int)
    requires
        0 <= p <= q < run_total(runs),
    ensures
        run_index(runs, p) <= run_index(runs, q),
{
    lemma_run_index_bounds(runs, p);
    lemma_run_index_bounds(runs, q);
    let i = run_index(runs, p);
    let j = run_index(runs, q);
    if j < i {
        lemma_run_offset_step(runs, j);
        lemma_run_offset_monotonic(runs, j + 1, i);
    }
}

/// A run list is its first `i` runs, then run `i`, then the rest; so are its pixels.
pub proof fn lemma_runs_split_at<T>(runs: Seq<RLE<T>>, i: int)
    requires
        0 <= i < runs.len(),
    ensures
        run_total(runs) == run_offset(runs, i) + runs[i].freq + run_total(runs.skip(i + 1)),
        run_pixels(runs) == run_pixels(runs.take(i)) + repeat(runs[i].freq as int, runs[i].value)
            + run_pixels(runs.skip(i + 1)),
        run_pixels(runs.take(i)) == run_pixels(runs).take(run_offset(runs, i)),
        run_pixels(runs.skip(i + 1)) == run_pixels(runs).skip(
            run_offset(runs, i) + runs[i].freq,
        ),
{
    let head = runs.take(i);
    let tail = runs.skip(i + 1);
    let mid = seq![runs[i]];
    assert(runs == head + mid + tail);
    lemma_runs_concat(head, mid);
    lemma_runs_concat(head + mid, tail);
    lemma_run_single(runs[i]);
    lemma_run_pixels_len(head);
    lemma_run_pixels_len(tail);
    lemma_run_pixels_len(runs);
    let px = run_pixels(runs);
    assert(px.take(run_offset(runs, i)) == run_pixels(head));
    assert(px.skip(run_offset(runs, i) + runs[i].freq) == run_pixels(tail));
}

/// What `splice_interval` does to the run list, it does to the pixels as
/// `paint_interval` says; the total stays, and at most two runs are added.
pub proof fn lemma_splice_interval<T>(runs: Seq<RLE<T>>, start: int, end: int, value: T)
    requires
        0 <= start <= end < run_total(runs),
        run_total(runs) <= usize::MAX,
    ensures
        run_total(splice_interval(runs, start, end, value)) == run_total(runs),
        run_pixels(splice_interval(runs, start, end, value)) == paint_interval(
            run_pixels(runs),
            start,
            end,
            value,
        ),
        splice_interval(runs, start, end, value).len() <= runs.len() + 2,
        runs_positive(runs) ==> runs_positive(splice_interval(runs, start, end, value)),
{
    let first = run_index(runs, start);
    let last = run_index(runs, end);
    lemma_run_index_bounds(runs, start);
    lemma_run_index_bounds(runs, end);
    lemma_run_index_monotonic(runs, start, end);
    let before = start - run_offset(runs, first);
    let after = run_offset(runs, last) + runs[last].freq - end - 1;
    let head = runs.take(first);
    let tail = runs.skip(last + 1);
    let f1 = fragment(before, runs[first].value);
    let f2 = fragment(after, runs[last].value);
    let mid = seq![RLE { freq: (end - start + 1) as usize, value }];
    let result = splice_interval(runs, start, end, value);
    assert(result == head + f1 + mid + f2 + tail);
    lemma_runs_split_at(runs, first);
    lemma_runs_split_at(runs, last);
    lemma_run_offset_monotonic(runs, first, last);
    lemma_run_total_nonnegative(tail);
    lemma_run_total_nonnegative(head);
    lemma_fragment(before, runs[first].value);
    lemma_fragment(after, runs[last].value);
    lemma_run_single(mid[0]);
    lemma_runs_concat(head, f1);
    lemma_runs_concat(head + f1, mid);
    lemma_runs_concat(head + f1 + mid, f2);
    lemma_runs_concat(head + f1 + mid + f2, tail);
    lemma_run_pixels_len(runs);
    lemma_run_pixels_len(head);
    lemma_run_pixels_len(tail);
    let px = run_pixels(runs);
    let new_px = run_pixels(result);
    let want = paint_interval(px, start, end, value);
    assert(new_px == run_pixels(head) + repeat(before, runs[first].value) + repeat(
        end - start + 1,
        value,
    ) + repeat(after, runs[last].value) + run_pixels(tail));
    assert(new_px.len() == want.len());
    assert forall|k: int| 0 <= k < want.len() implies new_px[k] == want[k] by {
        if k < run_offset(runs, first) {
        } else if k < start {
            assert(px[k] == runs[first].value);
        } else if k <= end {
        } else if k < run_offset(runs, last) + runs[last].freq {
            assert(px[k] == runs[last].value);
        } else {
        }
    }
    assert(new_px == want);
    if runs_positive(runs) {
        assert forall|k: int| 0 <= k < result.len() implies (#[trigger] result[k]).freq > 0 by {
            if k < head.len() {
                assert(result[k] == runs[k]);
            } else if k < head.len() + f1.len() {
            } else if k < head.len() + f1.len() + 1 {
            } else if k < head.len() + f1.len() + 1 + f2.len() {
            } else {
                let m = k - (head.len() + f1.len() + 1 + f2.len());
                assert(result[k] == tail[m]);
                assert(tail[m] == runs[last + 1 + m]);
            }
        }
    }
}

/// The run list after one pass from left to right that merges each run into
/// the run before it where the two have the same value.
pub open spec fn coalesce_runs<T>(runs: Seq<RLE<T>>) -> Seq<RLE<T>>
    decreases runs.len(),
{
    if runs.len() == 0 {
        Seq::empty()
    } else {
        let front = coalesce_runs(runs.drop_last());
        let run = runs.last();
        if front.len() > 0 && front.last().value == run.value {
            front.drop_last().push(
                RLE { freq: (front.last().freq + run.freq) as usize, value: run.value },
            )
        } else {
            front.push(run)
        }
    }
}

/// No run has the value of the run before it.
pub open spec fn no_adjacent_equal<T>(runs: Seq<RLE<T>>) -> bool {
    forall|i: int| 0 <= i < runs.len() - 1 ==> (#[trigger] runs[i]).value != runs[i + 1].value
}

/// Merging keeps the pixels and their number, adds no run, and leaves no two
/// neighbours of one value.
pub proof fn lemma_coalesce_runs<T>(runs: Seq<RLE<T>>)
    requires
        run_total(runs) <= usize::MAX,
    ensures
        run_total(coalesce_runs(runs)) == run_total(runs),
        run_pixels(coalesce_runs(runs)) == run_pixels(runs),
        coalesce_runs(runs).len() <= runs.len(),
        runs.len() > 0 ==> coalesce_runs(runs).len() > 0 && coalesce_runs(runs).last().value
            == runs.last().value,
        no_adjacent_equal(coalesce_runs(runs)),
        runs_positive(runs) ==> runs_positive(coalesce_runs(runs)),
    decreases runs.len(),
{
    if runs.len() > 0 {
        let front = coalesce_runs(runs.drop_last());
        let run = runs.last();
        lemma_run_total_nonnegative(runs.drop_last());
        lemma_coalesce_runs(runs.drop_last());
        let merged = coalesce_runs(runs);
        if front.len() > 0 && front.last().value == run.value {
            let head = front.drop_last();
            let sum = RLE { freq: (front.last().freq + run.freq) as usize, value: run.value };
            lemma_run_total_nonnegative(head);
            assert(merged.drop_last() == head);
            assert(merged.last() == sum);
            assert(repeat(front.last().freq as int, run.value) + repeat(
                run.freq as int,
                run.value,
            ) == repeat(sum.freq as int, run.value));
            assert(run_pixels(merged) == run_pixels(head) + repeat(sum.freq as int, run.value));
            assert(run_pixels(front) == run_pixels(head) + repeat(
                front.last().freq as int,
                run.value,
            ));
            assert(run_pixels(runs) == (run_pixels(head) + repeat(
                front.last().freq as int,
                run.value,
            )) + repeat(run.freq as int, run.value));
            assert forall|i: int| 0 <= i < merged.len() - 1 implies (#[trigger] merged[i]).value
                != merged[i + 1].value by {
                assert(merged[i] == front[i]);
                assert(merged[i + 1].value == front[i + 1].value);
            }
            if runs_positive(runs) {
                assert forall|i: int| 0 <= i < merged.len() implies (#[trigger] merged[i]).freq
                    > 0 by {
                    if i < head.len() {
                        assert(merged[i] == front[i]);
                    } else {
                        assert(runs[runs.len() - 1].freq > 0);
                    }
                }
            }
        } else {
            assert(merged.drop_last() == front);
            assert(merged.last() == run);
            assert forall|i: int| 0 <= i < merged.len() - 1 implies (#[trigger] merged[i]).value
                != merged[i + 1].value by {
                if i < front.len() - 1 {
                    assert(merged[i] == front[i]);
                    assert(merged[i + 1] == front[i + 1]);
                }
            }
            if runs_positive(runs) {
                assert forall|i: int| 0 <= i < merged.len() implies (#[trigger] merged[i]).freq
                    > 0 by {
                    if i < front.len() {
                        assert(forall|k: int|
                            0 <= k < runs.drop_last().len() ==> runs.drop_last()[k] == runs[k]);
                        assert(merged[i] == front[i]);
                    } else {
                        assert(runs[runs.len() - 1].freq > 0);
                    }
                }
            }
        }
    }
}

/// A run list without two neighbours of one value is left as it is.
pub proof fn lemma_coalesce_runs_fixed<T>(runs: Seq<RLE<T>>)
    requires
        no_adjacent_equal(runs),
    ensures
        coalesce_runs(runs) == runs,
    decreases runs.len(),
{
    if runs.len() > 0 {
        let front = runs.drop_last();
        assert forall|i: int| 0 <= i < front.len() - 1 implies (#[trigger] front[i]).value
            != front[i + 1].value by {
            assert(front[i] == runs[i]);
            assert(front[i + 1] == runs[i + 1]);
        }
        lemma_coalesce_runs_fixed(front);
        if front.len() > 0 {
            assert(front.last() == runs[runs.len() - 2]);
            assert(runs[runs.len() - 2].value != runs[runs.len() - 2 + 1].value);
        }
        assert(front.push(runs.last()) == runs);
    }
}

/// Merging twice gives what merging once gives.
pub proof fn lemma_coalesce_idempotent<T>(runs: Seq<RLE<T>>)
    requires
        run_total(runs) <= usize::MAX,
    ensures
        coalesce_runs(coalesce_runs(runs)) == coalesce_runs(runs),
        no_adjacent_equal(coalesce_runs(runs)),
{
    lemma_coalesce_runs(runs);
    lemma_coalesce_runs_fixed(coalesce_runs(runs));
}

/// The run list after `rows` rows of a rectangle have been painted, from row
/// `top` downwards, each as the interval from column `left` to column `right`.
pub open spec fn draw_rows<T>(
    runs: Seq<RLE<T>>,
    width: int,
    left: int,
    right: int,
    top: int,
    rows: int,
    value: T,
) -> Seq<RLE<T>>
    decreases rows,
{
    if rows <= 0 {
        runs
    } else {
        let row = top + rows - 1;
        splice_interval(
            draw_rows(runs, width, left, right, top, rows - 1, value),
            row * width + left,
            row * width + right,
            value,
        )
    }
}

/// Pixel `position` of a canvas `width` columns wide lies in the rectangle
/// from column `left` to `right` and from row `top` to `bottom`, all four included.
pub open spec fn in_rectangle(
    position: int,
    width: int,
    left: int,
    right: int,
    top: int,
    bottom: int,
) -> bool {
    &&& left <= position % width <= right
    &&& top <= position / width <= bottom
}

/// The pixels after each pixel of the rectangle has been given `value`, one by one.
pub open spec fn paint_rectangle<T>(
    pixels: Seq<T>,
    width: int,
    left: int,
    right: int,
    top: int,
    bottom: int,
    value: T,
) -> Seq<T> {
    Seq::new(
        pixels.len(),
        |p: int|
            if in_rectangle(p, width, left, right, top, bottom) {
                value
            } else {
                pixels[p]
            },
    )
}

/// Where a row's interval begins and ends on a canvas `height` rows high.
pub proof fn lemma_row_interval(width: int, height: int, row: int, left: int, right: int)
    requires
        0 <= left <= right < width,
        0 <= row < height,
    ensures
        0 <= row * width + left <= row * width + right < height * width,
{
    assert(row * width + width <= height * width) by (nonlinear_arith)
        requires
            0 <= row < height,
            0 < width,
    ;
    assert(0 <= row * width) by (nonlinear_arith)
        requires
            0 <= row,
            0 < width,
    ;
}

/// A pixel lies in a row's interval where it lies in that row and between the two columns.
pub proof fn lemma_row_member(width: int, row: int, left: int, right: int, position: int)
    requires
        0 <= left <= right < width,
    ensures
        row * width + left <= position <= row * width + right <==> (position / width == row
            && left <= position % width <= right),
{
    lemma_fundamental_div_mod(position, width);
    if row * width + left <= position <= row * width + right {
        lemma_fundamental_div_mod_converse(position, width, row, position - row * width);
    }
    if position / width == row {
        assert(width * row == row * width) by (nonlinear_arith);
    }
}

/// Painting a rectangle row by row on the run list paints it pixel by pixel
/// on the canvas; each row adds at most two runs.
pub proof fn lemma_draw_rows<T>(
    runs: Seq<RLE<T>>,
    width: int,
    height: int,
    left: int,
    right: int,
    top: int,
    rows: int,
    value: T,
)
    requires
        0 <= left <= right < width,
        0 <= top,
        0 <= rows,
        top + rows <= height,
        run_total(runs) == height * width,
        height * width <= usize::MAX,
    ensures
        run_total(draw_rows(runs, width, left, right, top, rows, value)) == run_total(runs),
        run_pixels(draw_rows(runs, width, left, right, top, rows, value)) == paint_rectangle(
            run_pixels(runs),
            width,
            left,
            right,
            top,
            top + rows - 1,
            value,
        ),
        draw_rows(runs, width, left, right, top, rows, value).len() <= runs.len() + 2 * rows,
        runs_positive(runs) ==> runs_positive(
            draw_rows(runs, width, left, right, top, rows, value),
        ),
    decreases rows,
{
    lemma_run_pixels_len(runs);
    let px = run_pixels(runs);
    if rows == 0 {
        assert(paint_rectangle(px, width, left, right, top, top - 1, value) == px);
    } else {
        let row = top + rows - 1;
        let prev = draw_rows(runs, width, left, right, top, rows - 1, value);
        lemma_draw_rows(runs, width, height, left, right, top, rows - 1, value);
        lemma_row_interval(width, height, row, left, right);
        let start = row * width + left;
        let end = row * width + right;
        lemma_splice_interval(prev, start, end, value);
        let before = paint_rectangle(px, width, left, right, top, row - 1, value);
        let after = paint_rectangle(px, width, left, right, top, row, value);
        let painted = paint_interval(before, start, end, value);
        assert(painted.len() == after.len());
        assert forall|p: int| 0 <= p < after.len() implies painted[p] == after[p] by {
            lemma_row_member(width, row, left, right, p);
        }
        assert(painted == after);
    }
}

/// A rectangle of a canvas with the value that it is painted in: the columns
/// `left..=right` of the rows `top..=bottom`.
pub struct Region<T> {
    pub left: int,
    pub right: int,
    pub top: int,
    pub bottom: int,
    pub value: T,
}

impl<T> Region<T> {
    /// The rectangle is not inverted and lies on a canvas of the given size.
    pub open spec fn fits(self, width: int, height: int) -> bool {
        &&& 0 <= self.left <= self.right < width
        &&& 0 <= self.top <= self.bottom < height
    }
}

/// The run list after each of `regions` has been painted row by row, in their order.
pub open spec fn draw_regions<T>(runs: Seq<RLE<T>>, width: int, regions: Seq<Region<T>>) -> Seq<
    RLE<T>,
>
    decreases regions.len(),
{
    if regions.len() == 0 {
        runs
    } else {
        let region = regions.last();
        draw_rows(
            draw_regions(runs, width, regions.drop_last()),
            width,
            region.left,
            region.right,
            region.top,
            region.bottom - region.top + 1,
            region.value,
        )
    }
}

/// The pixels after each of `regions` has been painted pixel by pixel, in their order.
pub open spec fn paint_regions<T>(pixels: Seq<T>, width: int, regions: Seq<Region<T>>) -> Seq<T>
    decreases regions.len(),
{
    if regions.len() == 0 {
        pixels
    } else {
        let region = regions.last();
        paint_rectangle(
            paint_regions(pixels, width, regions.drop_last()),
            width,
            region.left,
            region.right,
            region.top,
            region.bottom,
            region.value,
        )
    }
}

/// However many rectangles are drawn on a run list, its pixels are those of a
/// dense canvas on which the same rectangles were painted pixel by pixel in
/// the same order, and the runs still cover the canvas exactly.
pub proof fn lemma_draw_regions_dense<T>(
    runs: Seq<RLE<T>>,
    width: int,
    height: int,
    regions: Seq<Region<T>>,
)
    requires
        run_total(runs) == height * width,
        height * width <= usize::MAX,
        forall|i: int| 0 <= i < regions.len() ==> (#[trigger] regions[i]).fits(width, height),
    ensures
        run_total(draw_regions(runs, width, regions)) == height * width,
        run_pixels(draw_regions(runs, width, regions)) == paint_regions(
            run_pixels(runs),
            width,
            regions,
        ),
    decreases regions.len(),
{
    if regions.len() > 0 {
        let earlier = regions.drop_last();
        let region = regions.last();
        assert forall|i: int| 0 <= i < earlier.len() implies (#[trigger] earlier[i]).fits(
            width,
            height,
        ) by {
            assert(earlier[i] == regions[i]);
        }
        assert(regions[regions.len() - 1].fits(width, height));
        lemma_draw_regions_dense(runs, width, height, earlier);
        lemma_draw_rows(
            draw_regions(runs, width, earlier),
            width,
            height,
            region.left,
            region.right,
            region.top,
            region.bottom - region.top + 1,
            region.value,
        );
    }
}

} // verus!
