//! The color table that the frames of one file share.
//!
//! A color gets its index when it is first painted: the number of colors that
//! were painted before it. The table only grows, so the index stays.
use crate::common::types::Color;
use vstd::prelude::*;

verus! {

/// The most colors that a table can hold: an index is one byte.
pub const COLOR_TABLE_MAX_SIZE: usize = 256;

/// A color table holds no color twice and no more colors than a byte can index.
pub open spec fn palette_wf(colors: Seq<Color>) -> bool {
    &&& colors.len() <= COLOR_TABLE_MAX_SIZE
    &&& colors.no_duplicates()
}

/// The table after `color` has been painted: as it was where it holds the
/// color or is full, else with the color at its end.
pub open spec fn palette_insert(colors: Seq<Color>, color: Color) -> Seq<Color> {
    if colors.contains(color) || colors.len() >= COLOR_TABLE_MAX_SIZE {
        colors
    } else {
        colors.push(color)
    }
}

/// The table after each of `painted` has been painted, in their order.
pub open spec fn palette_insert_all(colors: Seq<Color>, painted: Seq<Color>) -> Seq<Color>
    decreases painted.len(),
{
    if painted.len() == 0 {
        colors
    } else {
        palette_insert(palette_insert_all(colors, painted.drop_last()), painted.last())
    }
}

/// Painting a color keeps the table valid and every index that was given.
pub proof fn lemma_palette_insert(colors: Seq<Color>, color: Color)
    requires
        palette_wf(colors),
    ensures
        palette_wf(palette_insert(colors, color)),
        colors.len() <= palette_insert(colors, color).len(),
        palette_insert(colors, color).take(colors.len() as int) == colors,
        forall|c: Color|
            colors.contains(c) ==> palette_insert(colors, color).contains(c) && palette_insert(
                colors,
                color,
            ).index_of(c) == colors.index_of(c),
{
    let after = palette_insert(colors, color);
    assert(after.take(colors.len() as int) == colors);
    assert forall|c: Color| colors.contains(c) implies after.contains(c) && after.index_of(c)
        == colors.index_of(c) by {
        let i = colors.index_of(c);
        assert(after[i] == c);
        assert(after[after.index_of(c)] == c);
    }
}

/// Index stability: a color that the table holds keeps its index whatever is
/// painted later, and the table never holds a color twice.
pub proof fn lemma_palette_index_stable(colors: Seq<Color>, painted: Seq<Color>, color: Color)
    requires
        palette_wf(colors),
        colors.contains(color),
    ensures
        palette_wf(palette_insert_all(colors, painted)),
        palette_insert_all(colors, painted).contains(color),
        palette_insert_all(colors, painted).index_of(color) == colors.index_of(color),
        palette_insert(palette_insert_all(colors, painted), color) == palette_insert_all(
            colors,
            painted,
        ),
    decreases painted.len(),
{
    if painted.len() > 0 {
        lemma_palette_index_stable(colors, painted.drop_last(), color);
        lemma_palette_insert(palette_insert_all(colors, painted.drop_last()), painted.last());
    }
}

/// A color that is painted for the first time is found again under the index it got then.
pub proof fn lemma_palette_first_index(colors: Seq<Color>, color: Color, painted: Seq<Color>)
    requires
        palette_wf(colors),
        !colors.contains(color),
        colors.len() < COLOR_TABLE_MAX_SIZE,
    ensures
        palette_insert(colors, color).index_of(color) == colors.len(),
        palette_insert_all(palette_insert(colors, color), painted).index_of(color) == colors.len(),
{
    let first = palette_insert(colors, color);
    lemma_palette_insert(colors, color);
    assert(first[colors.len() as int] == color);
    assert(first.contains(color));
    assert(first[first.index_of(color)] == color);
    lemma_palette_index_stable(first, painted, color);
}

} // verus!
