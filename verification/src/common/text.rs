//! The bitmap font: a glyph for each character, and glyphs of larger sizes
//! made from them on demand.
use vstd::prelude::*;

verus! {

/// The size of the glyphs as they are drawn here; no glyph is made smaller.
pub const DEFAULT_FONT_SIZE: usize = 5;

#[derive(Clone, Copy)]
pub enum FontSize {
    Default,
    Size(usize),
}

impl FontSize {
    pub open spec fn spec_value(&self) -> usize {
        match self {
            FontSize::Default => DEFAULT_FONT_SIZE,
            FontSize::Size(size) => *size,
        }
    }

    pub fn get_value(&self) -> (value: usize)
        ensures
            value == self.spec_value(),
    {
        match self {
            FontSize::Default => DEFAULT_FONT_SIZE,
            FontSize::Size(size) => *size,
        }
    }
}

/// A glyph: rows of cells from top to bottom, each cell 0 or 1.
pub type Letter = Vec<Vec<u8>>;

/// The rows of a glyph.
pub open spec fn letter_rows(letter: &Letter) -> Seq<Seq<u8>> {
    Seq::new(letter@.len(), |i: int| letter@[i]@)
}

/// The rows of a bitmap.
pub open spec fn rows_of<const N: usize>(bitmap: Seq<[u8; N]>) -> Seq<Seq<u8>> {
    Seq::new(bitmap.len(), |i: int| bitmap[i]@)
}

/// A glyph of the default size in both directions.
pub struct DefaultLetter {
    pub bitmap: [[u8; 5]; 5],
}

impl DefaultLetter {
    pub fn to_vec2d(&self) -> (letter: Vec<Vec<u8>>)
        ensures
            letter_rows(&letter) == rows_of(self.bitmap@),
    {
        to_vec2d(&self.bitmap)
    }
}

// Font inspired by https://www.dafont.com/minecraft.charmap?back=bitmap
pub fn to_vec2d<const N: usize>(bitmap: &[[u8; N]]) -> (letter: Vec<Vec<u8>>)
    ensures
        letter_rows(&letter) == rows_of(bitmap@),
{
    let mut rows: Vec<Vec<u8>> = Vec::new();
    let total: usize = bitmap.len();
    let mut i: usize = 0;
    while i < total
        invariant
            total == bitmap@.len(),
            i <= total,
            rows@.len() == i,
            forall|a: int| 0 <= a < i ==> (#[trigger] rows@[a])@ == bitmap@[a]@,
        decreases total - i,
    {
        let mut row: Vec<u8> = Vec::new();
        let mut j: usize = 0;
        while j < N
            invariant
                i < total,
                total == bitmap@.len(),
                j <= N,
                row@.len() == j,
                forall|b: int| 0 <= b < j ==> #[trigger] row@[b] == bitmap@[i as int]@[b],
            decreases N - j,
        {
            row.push(bitmap[i][j]);
            j = j + 1;
        }
        assert(row@ == bitmap@[i as int]@);
        rows.push(row);
        i = i + 1;
    }
    assert(letter_rows(&rows) == rows_of(bitmap@));
    rows
}

pub const A_BITMAP: [[u8; 5]; 5] = [
    [0, 1, 1, 1, 0], // .###.
    [1, 0, 0, 0, 1], // #...#
    [1, 1, 1, 1, 1], // #####
    [1, 0, 0, 0, 1], // #...#
    [1, 0, 0, 0, 1], // #...#
];

pub const B_BITMAP: [[u8; 5]; 5] = [
    [1, 1, 1, 1, 0], // ####.
    [1, 0, 0, 0, 1], // #...#
    [1, 1, 1, 1, 0], // ####.
    [1, 0, 0, 0, 1], // #...#
    [1, 1, 1, 1, 0], // ####.
];

pub const C_BITMAP: [[u8; 5]; 5] = [
    [0, 1, 1, 1, 0], // .###.
    [1, 0, 0, 0, 1], // #...#
    [1, 0, 0, 0, 0], // #....
    [1, 0, 0, 0, 1], // #...#
    [0, 1, 1, 1, 0], // .###.
];

pub const D_BITMAP: [[u8; 5]; 5] = [
    [1, 1, 1, 1, 0], // ####.
    [1, 0, 0, 0, 1], // #...#
    [1, 0, 0, 0, 1], // #...#
    [1, 0, 0, 0, 1], // #...#
    [1, 1, 1, 1, 0], // ####.
];

pub const E_BITMAP: [[u8; 5]; 5] = [
    [1, 1, 1, 1, 1], // #####
    [1, 0, 0, 0, 0], // #....
    [1, 1, 1, 1, 0], // ####.
    [1, 0, 0, 0, 0], // #....
    [1, 1, 1, 1, 1], // #####
];

pub const F_BITMAP: [[u8; 5]; 5] = [
    [1, 1, 1, 1, 1], // #####
    [1, 0, 0, 0, 0], // #....
    [1, 1, 1, 1, 0], // ####.
    [1, 0, 0, 0, 0], // #....
    [1, 0, 0, 0, 0], // #....
];

pub const G_BITMAP: [[u8; 5]; 5] = [
    [0, 1, 1, 1, 1], // .####
    [1, 0, 0, 0, 0], // #....
    [1, 0, 1, 1, 1], // #.###
    [1, 0, 0, 0, 1], // #...#
    [0, 1, 1, 1, 0], // .###.
];

pub const H_BITMAP: [[u8; 5]; 5] = [
    [1, 0, 0, 0, 1], // #...#
    [1, 0, 0, 0, 1], // #...#
    [1, 1, 1, 1, 1], // #####
    [1, 0, 0, 0, 1], // #...#
    [1, 0, 0, 0, 1], // #...#
];

pub const I_BITMAP: [[u8; 5]; 5] = [
    [1, 1, 1, 1, 1], // #####
    [0, 0, 1, 0, 0], // ..#..
    [0, 0, 1, 0, 0], // ..#..
    [0, 0, 1, 0, 0], // ..#..
    [1, 1, 1, 1, 1], // #####
];

pub const J_BITMAP: [[u8; 5]; 5] = [
    [0, 0, 0, 1, 0], // ...#.
    [0, 0, 0, 1, 0], // ...#.
    [0, 0, 0, 1, 0], // ...#.
    [1, 0, 0, 1, 0], // #..#.
    [0, 1, 1, 1, 0], // .###.
];

pub const K_BITMAP: [[u8; 5]; 5] = [
    [1, 0, 0, 0, 1], // #...#
    [1, 0, 0, 1, 0], // #..#.
    [1, 1, 1, 0, 0], // ###..
    [1, 0, 0, 1, 0], // #..#.
    [1, 0, 0, 0, 1], // #...#
];

pub const L_BITMAP: [[u8; 5]; 5] = [
    [1, 0, 0, 0, 0], // #....
    [1, 0, 0, 0, 0], // #....
    [1, 0, 0, 0, 0], // #....
    [1, 0, 0, 0, 0], // #....
    [1, 1, 1, 1, 1], // #####
];

pub const M_BITMAP: [[u8; 5]; 5] = [
    [1, 0, 0, 0, 1], // #...#
    [1, 1, 0, 1, 1], // ##.##
    [1, 0, 1, 0, 1], // #.#.#
    [1, 0, 0, 0, 1], // #...#
    [1, 0, 0, 0, 1], // #...#
];

pub const N_BITMAP: [[u8; 5]; 5] = [
    [1, 0, 0, 0, 1], // #...#
    [1, 1, 0, 0, 1], // ##..#
    [1, 0, 1, 0, 1], // #.#.#
    [1, 0, 0, 1, 1], // #..##
    [1, 0, 0, 0, 1], // #...#
];

pub const O_BITMAP: [[u8; 5]; 5] = [
    [0, 1, 1, 1, 0], // .###.
    [1, 0, 0, 0, 1], // #...#
    [1, 0, 0, 0, 1], // #...#
    [1, 0, 0, 0, 1], // #...#
    [0, 1, 1, 1, 0], // .###.
];

pub const P_BITMAP: [[u8; 5]; 5] = [
    [1, 1, 1, 1, 0], // ####.
    [1, 0, 0, 0, 1], // #...#
    [1, 1, 1, 1, 0], // ####.
    [1, 0, 0, 0, 0], // #....
    [1, 0, 0, 0, 0], // #....
];

pub const Q_BITMAP: [[u8; 5]; 5] = [
    [0, 1, 1, 0, 0], // .##..
    [1, 0, 0, 1, 0], // #..#.
    [1, 0, 0, 1, 0], // #..#.
    [1, 0, 0, 1, 0], // #..#.
    [0, 1, 1, 1, 1], // .####
];

pub const R_BITMAP: [[u8; 5]; 5] = [
    [1, 1, 1, 1, 0], // ####.
    [1, 0, 0, 0, 1], // #...#
    [1, 1, 1, 1, 0], // ####.
    [1, 0, 1, 0, 0], // #.#..
    [1, 0, 0, 1, 0], // #..#.
];

pub const S_BITMAP: [[u8; 5]; 5] = [
    [0, 1, 1, 1, 1], // .####
    [1, 0, 0, 0, 0], // #....
    [0, 1, 1, 1, 0], // .###.
    [0, 0, 0, 0, 1], // ....#
    [1, 1, 1, 1, 0], // ####.
];

pub const T_BITMAP: [[u8; 5]; 5] = [
    [1, 1, 1, 1, 1], // #####
    [0, 0, 1, 0, 0], // ..#..
    [0, 0, 1, 0, 0], // ..#..
    [0, 0, 1, 0, 0], // ..#..
    [0, 0, 1, 0, 0], // ..#..
];

pub const U_BITMAP: [[u8; 5]; 5] = [
    [1, 0, 0, 0, 1], // #...#
    [1, 0, 0, 0, 1], // #...#
    [1, 0, 0, 0, 1], // #...#
    [1, 0, 0, 0, 1], // #...#
    [0, 1, 1, 1, 0], // .###.
];

pub const V_BITMAP: [[u8; 5]; 5] = [
    [1, 0, 0, 0, 1], // #...#
    [1, 0, 0, 0, 1], // #...#
    [0, 1, 0, 1, 0], // .#.#.
    [0, 1, 0, 1, 0], // .#.#.
    [0, 0, 1, 0, 0], // ..#..
];

pub const W_BITMAP: [[u8; 5]; 5] = [
    [1, 0, 0, 0, 1], // #...#
    [1, 0, 0, 0, 1], // #...#
    [1, 0, 1, 0, 1], // #.#.#
    [1, 1, 0, 1, 1], // ##.##
    [1, 0, 0, 0, 1], // #...#
];

pub const X_BITMAP: [[u8; 5]; 5] = [
    [1, 0, 0, 0, 1], // #...#
    [0, 1, 0, 1, 0], // .#.#.
    [0, 0, 1, 0, 0], // ..#..
    [0, 1, 0, 1, 0], // .#.#.
    [1, 0, 0, 0, 1], // #...#
];

pub const Y_BITMAP: [[u8; 5]; 5] = [
    [1, 0, 0, 0, 1], // #...#
    [0, 1, 0, 1, 0], // .#.#.
    [0, 0, 1, 0, 0], // ..#..
    [0, 0, 1, 0, 0], // ..#..
    [0, 0, 1, 0, 0], // ..#..
];

pub const Z_BITMAP: [[u8; 5]; 5] = [
    [1, 1, 1, 1, 1], // #####
    [0, 0, 0, 1, 0], // ...#.
    [0, 0, 1, 0, 0], // ..#..
    [0, 1, 0, 0, 0], // .#...
    [1, 1, 1, 1, 1], // #####
];

pub const MIN_A_BITMAP: [[u8; 4]; 5] = [
    [0, 1, 1, 0], // .##.
    [0, 0, 0, 1], // ...#
    [0, 1, 1, 1], // .###
    [1, 0, 0, 1], // #..#
    [0, 1, 1, 1], // .###
];

pub const MIN_B_BITMAP: [[u8; 5]; 5] = [
    [1, 0, 0, 0, 0], // #....
    [1, 0, 1, 1, 0], // #.##.
    [1, 1, 0, 0, 1], // ##..#
    [1, 0, 0, 0, 1], // #...#
    [1, 1, 1, 1, 0], // ####.
];

pub const MIN_C_BITMAP: [[u8; 4]; 5] = [
    [0, 0, 0, 0], // ....
    [0, 1, 1, 1], // .###
    [1, 0, 0, 0], // #...
    [1, 0, 0, 0], // #...
    [0, 1, 1, 1], // .###
];

pub const MIN_D_BITMAP: [[u8; 4]; 5] = [
    [0, 0, 0, 1], // ...#
    [0, 1, 1, 1], // .###
    [1, 0, 0, 1], // #..#
    [1, 0, 0, 1], // #..#
    [1, 1, 1, 1], // ####
];

pub const MIN_E_BITMAP: [[u8; 4]; 5] = [
    [0, 1, 1, 1], // .###
    [1, 0, 0, 1], // #..#
    [1, 1, 1, 0], // ###.
    [1, 0, 0, 0], // #...
    [0, 1, 1, 1], // .###
];

pub const MIN_F_BITMAP: [[u8; 4]; 5] = [
    [0, 1, 1, 0], // .##.
    [0, 1, 0, 0], // .#..
    [1, 1, 1, 1], // ####
    [0, 1, 0, 0], // .#..
    [0, 1, 0, 0], // .#..
];

pub const MIN_G_BITMAP: [[u8; 4]; 7] = [
    [0, 0, 0, 0], // ....
    [0, 1, 1, 1], // .###
    [1, 0, 0, 1], // #..#
    [0, 1, 1, 1], // .###
    [0, 0, 0, 1], // ...#
    [1, 0, 0, 1], // #..#
    [0, 1, 1, 0], // .##.
];

pub const MIN_H_BITMAP: [[u8; 4]; 5] = [
    [1, 0, 0, 0], // #...
    [1, 0, 0, 0], // #...
    [1, 0, 1, 0], // #.#.
    [1, 1, 0, 1], // ##.#
    [1, 0, 0, 1], // #..#
];

pub const MIN_I_BITMAP: [[u8; 1]; 5] = [
    [1], // #
    [0], // .
    [1], // #
    [1], // #
    [1], // #
];

pub const MIN_J_BITMAP: [[u8; 4]; 6] = [
    [0, 0, 0, 1], // ...#
    [0, 0, 0, 0], // ....
    [0, 0, 0, 1], // ...#
    [0, 0, 0, 1], // ...#
    [1, 0, 0, 1], // #..#
    [0, 1, 1, 1], // .###
];

pub const MIN_K_BITMAP: [[u8; 4]; 5] = [
    [1, 0, 0, 1], // #..#
    [1, 0, 1, 0], // #.#.
    [1, 1, 0, 0], // ##..
    [1, 0, 1, 0], // #.#.
    [1, 0, 0, 1], // #..#
];

pub const MIN_L_BITMAP: [[u8; 3]; 5] = [
    [1, 1, 0], // ##.
    [0, 1, 0], // .#.
    [0, 1, 0], // .#.
    [0, 1, 0], // .#.
    [0, 0, 1], // ..#
];

pub const MIN_M_BITMAP: [[u8; 5]; 5] = [
    [0, 0, 0, 0, 0], // .....
    [1, 1, 0, 1, 0], // ##.#.
    [1, 0, 1, 0, 1], // #.#.#
    [1, 0, 1, 0, 1], // #.#.#
    [1, 0, 1, 0, 1], // #.#.#
];

pub const MIN_N_BITMAP: [[u8; 4]; 5] = [
    [0, 0, 0, 0], // ....
    [1, 1, 1, 0], // ###.
    [1, 0, 0, 1], // #..#
    [1, 0, 0, 1], // #..#
    [1, 0, 0, 1], // #..#
];

pub const MIN_O_BITMAP: [[u8; 4]; 5] = [
    [0, 0, 0, 0], // ....
    [0, 1, 1, 0], // .##.
    [1, 0, 0, 1], // #..#
    [1, 0, 0, 1], // #..#
    [0, 1, 1, 0], // .##.
];

pub const MIN_P_BITMAP: [[u8; 4]; 6] = [
    [0, 0, 0, 0], // ....
    [1, 1, 1, 0], // ###.
    [1, 0, 0, 1], // #..#
    [1, 1, 1, 1], // ####
    [1, 0, 0, 0], // #...
    [1, 0, 0, 0], // #...
];

pub const MIN_Q_BITMAP: [[u8; 4]; 6] = [
    [0, 0, 0, 0], // ....
    [1, 1, 1, 1], // ####
    [1, 0, 0, 1], // #..#
    [0, 1, 1, 1], // .###
    [0, 0, 0, 1], // ...#
    [0, 0, 0, 1], // ...#
];

pub const MIN_R_BITMAP: [[u8; 4]; 5] = [
    [0, 0, 0, 0], // ....
    [1, 0, 1, 0], // #.#.
    [1, 1, 0, 1], // ##.#
    [1, 0, 0, 0], // #...
    [1, 0, 0, 0], // #...
];

pub const MIN_T_BITMAP: [[u8; 3]; 5] = [
    [0, 1, 0], // .#.
    [1, 1, 1], // ###
    [0, 1, 0], // .#.
    [0, 1, 0], // .#.
    [0, 1, 1], // .##
];

pub const MIN_S_BITMAP: [[u8; 4]; 5] = [
    [0, 0, 0, 0], // ....
    [0, 0, 1, 1], // ..##
    [0, 1, 0, 0], // .#..
    [0, 0, 1, 0], // ..#.
    [1, 1, 0, 0], // ##..
];

pub const MIN_U_BITMAP: [[u8; 4]; 5] = [
    [0, 0, 0, 0], // ....
    [1, 0, 0, 1], // #..#
    [1, 0, 0, 1], // #..#
    [1, 0, 0, 1], // #..#
    [0, 1, 1, 1], // .###
];

pub const MIN_V_BITMAP: [[u8; 5]; 5] = [
    [0, 0, 0, 0, 0], // .....
    [1, 0, 0, 0, 1], // #...#
    [1, 0, 0, 0, 1], // #...#
    [0, 1, 0, 1, 0], // .#.#.
    [0, 0, 1, 0, 0], // ..#..
];

pub const MIN_W_BITMAP: [[u8; 5]; 5] = [
    [0, 0, 0, 0, 0], // .....
    [1, 0, 0, 0, 1], // #...#
    [1, 0, 1, 0, 1], // #.#.#
    [1, 0, 1, 0, 1], // #.#.#
    [0, 1, 0, 1, 1], // .#.##
];

pub const MIN_X_BITMAP: [[u8; 5]; 5] = [
    [0, 0, 0, 0, 0], // .....
    [1, 0, 0, 0, 1], // #...#
    [0, 1, 0, 1, 0], // .#.#.
    [0, 0, 1, 0, 0], // ..#..
    [1, 1, 0, 1, 1], // ##.##
];

pub const MIN_Y_BITMAP: [[u8; 4]; 6] = [
    [0, 0, 0, 0], // ....
    [1, 0, 0, 1], // #..#
    [1, 0, 0, 1], // #..#
    [0, 1, 1, 1], // .###
    [0, 0, 0, 1], // ...#
    [1, 1, 1, 0], // ###.
];

pub const MIN_Z_BITMAP: [[u8; 4]; 5] = [
    [0, 0, 0, 0], // ....
    [1, 1, 1, 1], // ####
    [0, 0, 1, 0], // ..#.
    [0, 1, 0, 0], // .#..
    [1, 1, 1, 1], // ####
];

pub const BITMAP_0: [[u8; 4]; 5] = [
    [0, 1, 1, 0], // .##.
    [1, 1, 0, 1], // ##.#
    [1, 0, 0, 1], // #..#
    [1, 0, 1, 1], // #.##
    [0, 1, 1, 0], // .##.
];

pub const BITMAP_1: [[u8; 3]; 5] = [
    [0, 1, 0], // .#.
    [1, 1, 0], // ##.
    [0, 1, 0], // .#.
    [0, 1, 0], // .#.
    [1, 1, 1], // ###
];

pub const BITMAP_2: [[u8; 4]; 5] = [
    [0, 1, 1, 0], // .##.
    [1, 0, 0, 1], // #..#
    [0, 0, 1, 0], // ..#.
    [0, 1, 0, 0], // .#..
    [1, 1, 1, 1], // ####
];

pub const BITMAP_3: [[u8; 4]; 5] = [
    [0, 1, 1, 0], // .##.
    [1, 0, 0, 1], // #..#
    [0, 0, 1, 0], // ..#.
    [1, 0, 0, 1], // #..#
    [0, 1, 1, 0], // .##.
];

pub const BITMAP_4: [[u8; 5]; 5] = [
    [0, 0, 1, 1, 0], // ..##.
    [0, 1, 0, 1, 0], // .#.#.
    [1, 0, 0, 1, 0], // #..#.
    [1, 1, 1, 1, 1], // #####
    [0, 0, 0, 1, 0], // ...#.
];

pub const BITMAP_5: [[u8; 5]; 5] = [
    [1, 1, 1, 1, 0], // ####.
    [1, 0, 0, 0, 0], // #....
    [0, 1, 1, 1, 0], // .###.
    [0, 0, 0, 0, 1], // ....#
    [1, 1, 1, 1, 0], // ####.
];

pub const BITMAP_6: [[u8; 4]; 5] = [
    [0, 1, 1, 1], // .###
    [1, 0, 0, 0], // #...
    [1, 1, 1, 0], // ###.
    [1, 0, 0, 1], // #..#
    [1, 1, 1, 1], // ####
];

pub const BITMAP_7: [[u8; 4]; 5] = [
    [1, 1, 1, 1], // ####
    [1, 0, 0, 1], // #..#
    [0, 0, 1, 0], // ..#.
    [0, 1, 0, 0], // .#..
    [0, 1, 0, 0], // .#..
];

pub const BITMAP_8: [[u8; 4]; 5] = [
    [0, 1, 1, 1], // .###
    [1, 0, 0, 1], // #..#
    [0, 1, 1, 0], // .##.
    [1, 0, 0, 1], // #..#
    [1, 1, 1, 0], // ###.
];

pub const BITMAP_9: [[u8; 5]; 5] = [
    [0, 1, 1, 1, 1], // .####
    [1, 0, 0, 1, 1], // #..##
    [0, 1, 1, 0, 1], // .##.#
    [0, 0, 0, 0, 1], // ....#
    [0, 0, 0, 0, 1], // ....#
];

pub const BITMAP_LEFT_PARENTHESE: [[u8; 2]; 7] = [
    [0, 1], // .#
    [1, 0], // #.
    [1, 0], // #.
    [1, 0], // #.
    [1, 0], // #.
    [1, 0], // #.
    [0, 1], // .#
];

pub const BITMAP_RIGHT_PARENTHESE: [[u8; 2]; 7] = [
    [1, 0], // #.
    [0, 1], // .#
    [0, 1], // .#
    [0, 1], // .#
    [0, 1], // .#
    [0, 1], // .#
    [1, 0], // #.
];

pub const BITMAP_LEFT_BRACKET: [[u8; 2]; 7] = [
    [1, 1], // ##
    [1, 0], // #.
    [1, 0], // #.
    [1, 0], // #.
    [1, 0], // #.
    [1, 0], // #.
    [1, 1], // ##
];

pub const BITMAP_RIGHT_BRACKET: [[u8; 2]; 7] = [
    [1, 1], // ##
    [0, 1], // .#
    [0, 1], // .#
    [0, 1], // .#
    [0, 1], // .#
    [0, 1], // .#
    [1, 1], // ##
];

pub const BITMAP_LEFT_BRACE: [[u8; 3]; 7] = [
    [0, 0, 1], // ..#
    [0, 1, 0], // .#.
    [0, 1, 0], // .#.
    [1, 0, 0], // #..
    [0, 1, 0], // .#.
    [0, 1, 0], // .#.
    [0, 0, 1], // ..#
];

pub const BITMAP_RIGHT_BRACE: [[u8; 3]; 7] = [
    [1, 0, 0], // #..
    [0, 1, 0], // .#.
    [0, 1, 0], // .#.
    [0, 0, 1], // ..#
    [0, 1, 0], // .#.
    [0, 1, 0], // .#.
    [1, 0, 0], // #..
];

pub const BITMAP_PLUS: [[u8; 5]; 5] = [
    [0, 0, 1, 0, 0], // ..#..
    [0, 0, 1, 0, 0], // ..#..
    [1, 1, 1, 1, 1], // #####
    [0, 0, 1, 0, 0], // ..#..
    [0, 0, 1, 0, 0], // ..#..
];

pub const BITMAP_HYPHEN: [[u8; 4]; 5] = [
    [0, 0, 0, 0], // ....
    [0, 0, 0, 0], // ....
    [1, 1, 1, 1], // ####
    [0, 0, 0, 0], // ....
    [0, 0, 0, 0], // ....
];

pub const BITMAP_ASTERISK: [[u8; 5]; 5] = [
    [1, 0, 1, 0, 1], // #.#.#
    [0, 1, 1, 1, 0], // .###.
    [1, 0, 1, 0, 1], // #.#.#
    [0, 0, 0, 0, 0], // .....
    [0, 0, 0, 0, 0], // .....
];

pub const BITMAP_EQUAL: [[u8; 5]; 5] = [
    [0, 0, 0, 0, 0], // .....
    [1, 1, 1, 1, 0], // ####.
    [0, 0, 0, 0, 0], // .....
    [1, 1, 1, 1, 0], // ####.
    [0, 0, 0, 0, 0], // .....
];

pub const BITMAP_PERCENT: [[u8; 5]; 5] = [
    [1, 0, 0, 0, 1], // #...#
    [0, 0, 0, 1, 0], // ...#.
    [0, 0, 1, 0, 0], // ..#..
    [0, 1, 0, 0, 0], // .#...
    [1, 0, 0, 0, 1], // #...#
];

pub const BITMAP_SLASH: [[u8; 5]; 5] = [
    [0, 0, 0, 0, 1], // ....#
    [0, 0, 0, 1, 0], // ...#.
    [0, 0, 1, 0, 0], // ..#..
    [0, 1, 0, 0, 0], // .#...
    [1, 0, 0, 0, 0], // #....
];

pub const BITMAP_BACKSLASH: [[u8; 5]; 5] = [
    [1, 0, 0, 0, 0], // #....
    [0, 1, 0, 0, 0], // .#...
    [0, 0, 1, 0, 0], // ..#..
    [0, 0, 0, 1, 0], // ...#.
    [0, 0, 0, 0, 1], // ....#
];

pub const BITMAP_SPACE: [[u8; 5]; 5] = [
    [0, 0, 0, 0, 0], // .....
    [0, 0, 0, 0, 0], // .....
    [0, 0, 0, 0, 0], // .....
    [0, 0, 0, 0, 0], // .....
    [0, 0, 0, 0, 0], // .....
];

pub const BITMAP_QUOTE_DOUBLE: [[u8; 3]; 5] = [
    [1, 0, 1], // #.#
    [1, 0, 1], // #.#
    [0, 0, 0], // ...
    [0, 0, 0], // ...
    [0, 0, 0], // ...
];

pub const BITMAP_QUOTE_SINGLE: [[u8; 1]; 5] = [
    [1], // #
    [1], // #
    [0], // .
    [0], // .
    [0], // .
];

pub const BITMAP_HASHTAG: [[u8; 5]; 5] = [
    [0, 1, 0, 1, 0], // .#.#.
    [1, 1, 1, 1, 1], // #####
    [0, 1, 0, 1, 0], // .#.#.
    [1, 1, 1, 1, 1], // #####
    [0, 1, 0, 1, 0], // .#.#.
];

pub const BITMAP_AT: [[u8; 5]; 7] = [
    [1, 1, 1, 1, 1], // #####
    [1, 0, 0, 0, 1], // #...#
    [1, 1, 1, 1, 1], // #####
    [1, 1, 0, 1, 1], // ##.##
    [1, 1, 1, 1, 1], // #####
    [1, 0, 0, 0, 0], // #....
    [1, 1, 1, 1, 1], // #####
];

pub const BITMAP_AMPERSAND: [[u8; 5]; 6] = [
    [0, 0, 1, 0, 0], // ..#..
    [0, 1, 0, 1, 0], // .#.#.
    [0, 1, 0, 0, 1], // .#..#
    [1, 0, 1, 0, 0], // #.#..
    [1, 0, 0, 1, 0], // #..#.
    [0, 1, 1, 0, 0], // .##..
];

pub const BITMAP_UNDERSCORE: [[u8; 5]; 6] = [
    [0, 0, 0, 0, 0], // .....
    [0, 0, 0, 0, 0], // .....
    [0, 0, 0, 0, 0], // .....
    [0, 0, 0, 0, 0], // .....
    [0, 0, 0, 0, 0], // .....
    [1, 1, 1, 1, 1], // #####
];

pub const BITMAP_COMMA: [[u8; 2]; 7] = [
    [0, 0], // ..
    [0, 0], // ..
    [0, 0], // ..
    [0, 0], // ..
    [0, 0], // ..
    [0, 1], // .#
    [1, 0], // #.
];

pub const BITMAP_PERIOD: [[u8; 1]; 6] = [
    [0], // .
    [0], // .
    [0], // .
    [0], // .
    [0], // .
    [1], // #
];

pub const BITMAP_SEMICOLON: [[u8; 2]; 6] = [
    [0, 0], // ..
    [0, 0], // ..
    [0, 1], // .#
    [0, 0], // ..
    [0, 1], // .#
    [1, 0], // #.
];

pub const BITMAP_COLON: [[u8; 2]; 5] = [
    [0, 0], // ..
    [0, 0], // ..
    [0, 1], // .#
    [0, 0], // ..
    [0, 1], // .#
];

pub const BITMAP_QUESTION: [[u8; 4]; 7] = [
    [0, 1, 1, 0], // .##.
    [1, 0, 0, 1], // #..#
    [0, 0, 0, 1], // ...#
    [0, 0, 1, 0], // ..#.
    [0, 1, 0, 0], // .#..
    [0, 0, 0, 0], // ....
    [0, 1, 0, 0], // .#..
];

pub const BITMAP_EXCLAMATION: [[u8; 1]; 5] = [
    [1], // #
    [1], // #
    [1], // #
    [0], // .
    [1], // #
];

pub const BITMAP_BAR: [[u8; 1]; 6] = [
    [1], // #
    [1], // #
    [1], // #
    [1], // #
    [1], // #
    [1], // #
];

pub const BITMAP_LESS: [[u8; 3]; 5] = [
    [0, 0, 1], // ..#
    [0, 1, 0], // .#.
    [1, 0, 0], // #..
    [0, 1, 0], // .#.
    [0, 0, 1], // ..#
];

pub const BITMAP_GREATER: [[u8; 3]; 5] = [
    [1, 0, 0], // #..
    [0, 1, 0], // .#.
    [0, 0, 1], // ..#
    [0, 1, 0], // .#.
    [1, 0, 0], // #..
];

pub const BITMAP_CIRCUM: [[u8; 5]; 5] = [
    [0, 0, 1, 0, 0], // ..#..
    [0, 1, 0, 1, 0], // .#.#.
    [1, 0, 0, 0, 1], // #...#
    [0, 0, 0, 0, 0], // .....
    [0, 0, 0, 0, 0], // .....
];

pub const BITMAP_TILDE: [[u8; 4]; 5] = [
    [0, 0, 0, 0], // ....
    [0, 0, 0, 0], // ....
    [1, 1, 0, 0], // ##..
    [0, 0, 1, 1], // ..##
    [0, 0, 0, 0], // ....
];

pub const UNKNOWN_BITMAP: [[u8; 5]; 5] = [
    [1, 1, 1, 1, 1], // #####
    [1, 0, 1, 0, 1], // #.#.#
    [1, 1, 0, 1, 1], // ##.##
    [1, 0, 1, 0, 1], // #.#.#
    [1, 1, 1, 1, 1], // #####
];

/// The glyph of a character that the font knows, at the default size.
pub open spec fn base_rows(letter: char) -> Option<Seq<Seq<u8>>> {
    match letter {
        'A' => Some(rows_of(A_BITMAP@)),
        'B' => Some(rows_of(B_BITMAP@)),
        'C' => Some(rows_of(C_BITMAP@)),
        'D' => Some(rows_of(D_BITMAP@)),
        'E' => Some(rows_of(E_BITMAP@)),
        'F' => Some(rows_of(F_BITMAP@)),
        'G' => Some(rows_of(G_BITMAP@)),
        'H' => Some(rows_of(H_BITMAP@)),
        'I' => Some(rows_of(I_BITMAP@)),
        'J' => Some(rows_of(J_BITMAP@)),
        'K' => Some(rows_of(K_BITMAP@)),
        'L' => Some(rows_of(L_BITMAP@)),
        'M' => Some(rows_of(M_BITMAP@)),
        'N' => Some(rows_of(N_BITMAP@)),
        'O' => Some(rows_of(O_BITMAP@)),
        'P' => Some(rows_of(P_BITMAP@)),
        'Q' => Some(rows_of(Q_BITMAP@)),
        'R' => Some(rows_of(R_BITMAP@)),
        'S' => Some(rows_of(S_BITMAP@)),
        'T' => Some(rows_of(T_BITMAP@)),
        'U' => Some(rows_of(U_BITMAP@)),
        'V' => Some(rows_of(V_BITMAP@)),
        'W' => Some(rows_of(W_BITMAP@)),
        'X' => Some(rows_of(X_BITMAP@)),
        'Y' => Some(rows_of(Y_BITMAP@)),
        'Z' => Some(rows_of(Z_BITMAP@)),
        'a' => Some(rows_of(MIN_A_BITMAP@)),
        'b' => Some(rows_of(MIN_B_BITMAP@)),
        'c' => Some(rows_of(MIN_C_BITMAP@)),
        'd' => Some(rows_of(MIN_D_BITMAP@)),
        'e' => Some(rows_of(MIN_E_BITMAP@)),
        'f' => Some(rows_of(MIN_F_BITMAP@)),
        'g' => Some(rows_of(MIN_G_BITMAP@)),
        'h' => Some(rows_of(MIN_H_BITMAP@)),
        'i' => Some(rows_of(MIN_I_BITMAP@)),
        'j' => Some(rows_of(MIN_J_BITMAP@)),
        'k' => Some(rows_of(MIN_K_BITMAP@)),
        'l' => Some(rows_of(MIN_L_BITMAP@)),
        'm' => Some(rows_of(MIN_M_BITMAP@)),
        'n' => Some(rows_of(MIN_N_BITMAP@)),
        'o' => Some(rows_of(MIN_O_BITMAP@)),
        'p' => Some(rows_of(MIN_P_BITMAP@)),
        'q' => Some(rows_of(MIN_Q_BITMAP@)),
        'r' => Some(rows_of(MIN_R_BITMAP@)),
        't' => Some(rows_of(MIN_T_BITMAP@)),
        's' => Some(rows_of(MIN_S_BITMAP@)),
        'u' => Some(rows_of(MIN_U_BITMAP@)),
        'v' => Some(rows_of(MIN_V_BITMAP@)),
        'w' => Some(rows_of(MIN_W_BITMAP@)),
        'x' => Some(rows_of(MIN_X_BITMAP@)),
        'y' => Some(rows_of(MIN_Y_BITMAP@)),
        'z' => Some(rows_of(MIN_Z_BITMAP@)),
        '0' => Some(rows_of(BITMAP_0@)),
        '1' => Some(rows_of(BITMAP_1@)),
        '2' => Some(rows_of(BITMAP_2@)),
        '3' => Some(rows_of(BITMAP_3@)),
        '4' => Some(rows_of(BITMAP_4@)),
        '5' => Some(rows_of(BITMAP_5@)),
        '6' => Some(rows_of(BITMAP_6@)),
        '7' => Some(rows_of(BITMAP_7@)),
        '8' => Some(rows_of(BITMAP_8@)),
        '9' => Some(rows_of(BITMAP_9@)),
        '(' => Some(rows_of(BITMAP_LEFT_PARENTHESE@)),
        ')' => Some(rows_of(BITMAP_RIGHT_PARENTHESE@)),
        '[' => Some(rows_of(BITMAP_LEFT_BRACKET@)),
        ']' => Some(rows_of(BITMAP_RIGHT_BRACKET@)),
        '{' => Some(rows_of(BITMAP_LEFT_BRACE@)),
        '}' => Some(rows_of(BITMAP_RIGHT_BRACE@)),
        '+' => Some(rows_of(BITMAP_PLUS@)),
        '-' => Some(rows_of(BITMAP_HYPHEN@)),
        '*' => Some(rows_of(BITMAP_ASTERISK@)),
        '=' => Some(rows_of(BITMAP_EQUAL@)),
        '%' => Some(rows_of(BITMAP_PERCENT@)),
        '/' => Some(rows_of(BITMAP_SLASH@)),
        '\\' => Some(rows_of(BITMAP_BACKSLASH@)),
        ' ' => Some(rows_of(BITMAP_SPACE@)),
        '\"' => Some(rows_of(BITMAP_QUOTE_DOUBLE@)),
        '\'' => Some(rows_of(BITMAP_QUOTE_SINGLE@)),
        '#' => Some(rows_of(BITMAP_HASHTAG@)),
        '@' => Some(rows_of(BITMAP_AT@)),
        '&' => Some(rows_of(BITMAP_AMPERSAND@)),
        '_' => Some(rows_of(BITMAP_UNDERSCORE@)),
        ',' => Some(rows_of(BITMAP_COMMA@)),
        '.' => Some(rows_of(BITMAP_PERIOD@)),
        ';' => Some(rows_of(BITMAP_SEMICOLON@)),
        ':' => Some(rows_of(BITMAP_COLON@)),
        '?' => Some(rows_of(BITMAP_QUESTION@)),
        '!' => Some(rows_of(BITMAP_EXCLAMATION@)),
        '|' => Some(rows_of(BITMAP_BAR@)),
        '<' => Some(rows_of(BITMAP_LESS@)),
        '>' => Some(rows_of(BITMAP_GREATER@)),
        '^' => Some(rows_of(BITMAP_CIRCUM@)),
        '~' => Some(rows_of(BITMAP_TILDE@)),
        _ => None,
    }
}

/// The glyph that stands for every character that the font does not know.
pub open spec fn unknown_rows() -> Seq<Seq<u8>> {
    rows_of(UNKNOWN_BITMAP@)
}

/// The glyph of the default size for a character that the font knows.
pub fn base_letter(letter: char) -> (glyph: Option<Letter>)
    ensures
        glyph is Some <==> base_rows(letter) is Some,
        glyph matches Some(rows) ==> letter_rows(&rows) == base_rows(letter)->0,
{
    match letter {
        'A' => Some(to_vec2d(&A_BITMAP)),
        'B' => Some(DefaultLetter { bitmap: B_BITMAP }.to_vec2d()),
        'C' => Some(DefaultLetter { bitmap: C_BITMAP }.to_vec2d()),
        'D' => Some(DefaultLetter { bitmap: D_BITMAP }.to_vec2d()),
        'E' => Some(DefaultLetter { bitmap: E_BITMAP }.to_vec2d()),
        'F' => Some(DefaultLetter { bitmap: F_BITMAP }.to_vec2d()),
        'G' => Some(DefaultLetter { bitmap: G_BITMAP }.to_vec2d()),
        'H' => Some(DefaultLetter { bitmap: H_BITMAP }.to_vec2d()),
        'I' => Some(DefaultLetter { bitmap: I_BITMAP }.to_vec2d()),
        'J' => Some(DefaultLetter { bitmap: J_BITMAP }.to_vec2d()),
        'K' => Some(DefaultLetter { bitmap: K_BITMAP }.to_vec2d()),
        'L' => Some(DefaultLetter { bitmap: L_BITMAP }.to_vec2d()),
        'M' => Some(DefaultLetter { bitmap: M_BITMAP }.to_vec2d()),
        'N' => Some(DefaultLetter { bitmap: N_BITMAP }.to_vec2d()),
        'O' => Some(DefaultLetter { bitmap: O_BITMAP }.to_vec2d()),
        'P' => Some(DefaultLetter { bitmap: P_BITMAP }.to_vec2d()),
        'Q' => Some(DefaultLetter { bitmap: Q_BITMAP }.to_vec2d()),
        'R' => Some(DefaultLetter { bitmap: R_BITMAP }.to_vec2d()),
        'S' => Some(DefaultLetter { bitmap: S_BITMAP }.to_vec2d()),
        'T' => Some(DefaultLetter { bitmap: T_BITMAP }.to_vec2d()),
        'U' => Some(DefaultLetter { bitmap: U_BITMAP }.to_vec2d()),
        'V' => Some(DefaultLetter { bitmap: V_BITMAP }.to_vec2d()),
        'W' => Some(DefaultLetter { bitmap: W_BITMAP }.to_vec2d()),
        'X' => Some(DefaultLetter { bitmap: X_BITMAP }.to_vec2d()),
        'Y' => Some(DefaultLetter { bitmap: Y_BITMAP }.to_vec2d()),
        'Z' => Some(DefaultLetter { bitmap: Z_BITMAP }.to_vec2d()),
        'a' => Some(to_vec2d(&MIN_A_BITMAP)),
        'b' => Some(to_vec2d(&MIN_B_BITMAP)),
        'c' => Some(to_vec2d(&MIN_C_BITMAP)),
        'd' => Some(to_vec2d(&MIN_D_BITMAP)),
        'e' => Some(to_vec2d(&MIN_E_BITMAP)),
        'f' => Some(to_vec2d(&MIN_F_BITMAP)),
        'g' => Some(to_vec2d(&MIN_G_BITMAP)),
        'h' => Some(to_vec2d(&MIN_H_BITMAP)),
        'i' => Some(to_vec2d(&MIN_I_BITMAP)),
        'j' => Some(to_vec2d(&MIN_J_BITMAP)),
        'k' => Some(to_vec2d(&MIN_K_BITMAP)),
        'l' => Some(to_vec2d(&MIN_L_BITMAP)),
        'm' => Some(to_vec2d(&MIN_M_BITMAP)),
        'n' => Some(to_vec2d(&MIN_N_BITMAP)),
        'o' => Some(to_vec2d(&MIN_O_BITMAP)),
        'p' => Some(to_vec2d(&MIN_P_BITMAP)),
        'q' => Some(to_vec2d(&MIN_Q_BITMAP)),
        'r' => Some(to_vec2d(&MIN_R_BITMAP)),
        't' => Some(to_vec2d(&MIN_T_BITMAP)),
        's' => Some(to_vec2d(&MIN_S_BITMAP)),
        'u' => Some(to_vec2d(&MIN_U_BITMAP)),
        'v' => Some(to_vec2d(&MIN_V_BITMAP)),
        'w' => Some(to_vec2d(&MIN_W_BITMAP)),
        'x' => Some(to_vec2d(&MIN_X_BITMAP)),
        'y' => Some(to_vec2d(&MIN_Y_BITMAP)),
        'z' => Some(to_vec2d(&MIN_Z_BITMAP)),
        '0' => Some(to_vec2d(&BITMAP_0)),
        '1' => Some(to_vec2d(&BITMAP_1)),
        '2' => Some(to_vec2d(&BITMAP_2)),
        '3' => Some(to_vec2d(&BITMAP_3)),
        '4' => Some(to_vec2d(&BITMAP_4)),
        '5' => Some(to_vec2d(&BITMAP_5)),
        '6' => Some(to_vec2d(&BITMAP_6)),
        '7' => Some(to_vec2d(&BITMAP_7)),
        '8' => Some(to_vec2d(&BITMAP_8)),
        '9' => Some(to_vec2d(&BITMAP_9)),
        '(' => Some(to_vec2d(&BITMAP_LEFT_PARENTHESE)),
        ')' => Some(to_vec2d(&BITMAP_RIGHT_PARENTHESE)),
        '[' => Some(to_vec2d(&BITMAP_LEFT_BRACKET)),
        ']' => Some(to_vec2d(&BITMAP_RIGHT_BRACKET)),
        '{' => Some(to_vec2d(&BITMAP_LEFT_BRACE)),
        '}' => Some(to_vec2d(&BITMAP_RIGHT_BRACE)),
        '+' => Some(to_vec2d(&BITMAP_PLUS)),
        '-' => Some(to_vec2d(&BITMAP_HYPHEN)),
        '*' => Some(to_vec2d(&BITMAP_ASTERISK)),
        '=' => Some(to_vec2d(&BITMAP_EQUAL)),
        '%' => Some(to_vec2d(&BITMAP_PERCENT)),
        '/' => Some(to_vec2d(&BITMAP_SLASH)),
        '\\' => Some(to_vec2d(&BITMAP_BACKSLASH)),
        ' ' => Some(to_vec2d(&BITMAP_SPACE)),
        '\"' => Some(to_vec2d(&BITMAP_QUOTE_DOUBLE)),
        '\'' => Some(to_vec2d(&BITMAP_QUOTE_SINGLE)),
        '#' => Some(to_vec2d(&BITMAP_HASHTAG)),
        '@' => Some(to_vec2d(&BITMAP_AT)),
        '&' => Some(to_vec2d(&BITMAP_AMPERSAND)),
        '_' => Some(to_vec2d(&BITMAP_UNDERSCORE)),
        ',' => Some(to_vec2d(&BITMAP_COMMA)),
        '.' => Some(to_vec2d(&BITMAP_PERIOD)),
        ';' => Some(to_vec2d(&BITMAP_SEMICOLON)),
        ':' => Some(to_vec2d(&BITMAP_COLON)),
        '?' => Some(to_vec2d(&BITMAP_QUESTION)),
        '!' => Some(to_vec2d(&BITMAP_EXCLAMATION)),
        '|' => Some(to_vec2d(&BITMAP_BAR)),
        '<' => Some(to_vec2d(&BITMAP_LESS)),
        '>' => Some(to_vec2d(&BITMAP_GREATER)),
        '^' => Some(to_vec2d(&BITMAP_CIRCUM)),
        '~' => Some(to_vec2d(&BITMAP_TILDE)),
        _ => None,
    }
}

/// A glyph has at least one row and one column, rows of one length, and cells that are 0 or 1.
pub open spec fn glyph_wf(rows: Seq<Seq<u8>>) -> bool {
    &&& rows.len() >= 1
    &&& rows[0].len() >= 1
    &&& forall|i: int| 0 <= i < rows.len() ==> (#[trigger] rows[i]).len() == rows[0].len()
    &&& forall|i: int, j: int|
        0 <= i < rows.len() && 0 <= j < rows[0].len() ==> (#[trigger] rows[i][j]) <= 1
}

/// The rows of a bitmap of zeros and ones are a glyph.
pub proof fn lemma_rows_of_wf<const N: usize>(bitmap: Seq<[u8; N]>)
    requires
        bitmap.len() >= 1,
        N >= 1,
        forall|i: int, j: int|
            0 <= i < bitmap.len() && 0 <= j < N ==> (#[trigger] bitmap[i]@[j]) <= 1,
    ensures
        glyph_wf(rows_of(bitmap)),
        rows_of(bitmap).len() == bitmap.len(),
        rows_of(bitmap)[0].len() == N,
{
    let rows = rows_of(bitmap);
    assert forall|i: int, j: int| 0 <= i < rows.len() && 0 <= j < rows[0].len() implies (
    #[trigger] rows[i][j]) <= 1 by {
        assert(rows[i][j] == bitmap[i]@[j]);
    }
}

/// Every glyph of the font is a glyph, at most as wide as the default size.
pub proof fn lemma_base_rows(letter: char)
    ensures
        glyph_wf(unknown_rows()),
        unknown_rows().len() == DEFAULT_FONT_SIZE,
        unknown_rows()[0].len() == DEFAULT_FONT_SIZE,
        base_rows(letter) matches Some(rows) ==> glyph_wf(rows) && rows[0].len()
            <= DEFAULT_FONT_SIZE && rows.len() <= 7,
{
    lemma_rows_of_wf(UNKNOWN_BITMAP@);
    match letter {
        'A' => lemma_rows_of_wf(A_BITMAP@),
        'B' => lemma_rows_of_wf(B_BITMAP@),
        'C' => lemma_rows_of_wf(C_BITMAP@),
        'D' => lemma_rows_of_wf(D_BITMAP@),
        'E' => lemma_rows_of_wf(E_BITMAP@),
        'F' => lemma_rows_of_wf(F_BITMAP@),
        'G' => lemma_rows_of_wf(G_BITMAP@),
        'H' => lemma_rows_of_wf(H_BITMAP@),
        'I' => lemma_rows_of_wf(I_BITMAP@),
        'J' => lemma_rows_of_wf(J_BITMAP@),
        'K' => lemma_rows_of_wf(K_BITMAP@),
        'L' => lemma_rows_of_wf(L_BITMAP@),
        'M' => lemma_rows_of_wf(M_BITMAP@),
        'N' => lemma_rows_of_wf(N_BITMAP@),
        'O' => lemma_rows_of_wf(O_BITMAP@),
        'P' => lemma_rows_of_wf(P_BITMAP@),
        'Q' => lemma_rows_of_wf(Q_BITMAP@),
        'R' => lemma_rows_of_wf(R_BITMAP@),
        'S' => lemma_rows_of_wf(S_BITMAP@),
        'T' => lemma_rows_of_wf(T_BITMAP@),
        'U' => lemma_rows_of_wf(U_BITMAP@),
        'V' => lemma_rows_of_wf(V_BITMAP@),
        'W' => lemma_rows_of_wf(W_BITMAP@),
        'X' => lemma_rows_of_wf(X_BITMAP@),
        'Y' => lemma_rows_of_wf(Y_BITMAP@),
        'Z' => lemma_rows_of_wf(Z_BITMAP@),
        'a' => lemma_rows_of_wf(MIN_A_BITMAP@),
        'b' => lemma_rows_of_wf(MIN_B_BITMAP@),
        'c' => lemma_rows_of_wf(MIN_C_BITMAP@),
        'd' => lemma_rows_of_wf(MIN_D_BITMAP@),
        'e' => lemma_rows_of_wf(MIN_E_BITMAP@),
        'f' => lemma_rows_of_wf(MIN_F_BITMAP@),
        'g' => lemma_rows_of_wf(MIN_G_BITMAP@),
        'h' => lemma_rows_of_wf(MIN_H_BITMAP@),
        'i' => lemma_rows_of_wf(MIN_I_BITMAP@),
        'j' => lemma_rows_of_wf(MIN_J_BITMAP@),
        'k' => lemma_rows_of_wf(MIN_K_BITMAP@),
        'l' => lemma_rows_of_wf(MIN_L_BITMAP@),
        'm' => lemma_rows_of_wf(MIN_M_BITMAP@),
        'n' => lemma_rows_of_wf(MIN_N_BITMAP@),
        'o' => lemma_rows_of_wf(MIN_O_BITMAP@),
        'p' => lemma_rows_of_wf(MIN_P_BITMAP@),
        'q' => lemma_rows_of_wf(MIN_Q_BITMAP@),
        'r' => lemma_rows_of_wf(MIN_R_BITMAP@),
        't' => lemma_rows_of_wf(MIN_T_BITMAP@),
        's' => lemma_rows_of_wf(MIN_S_BITMAP@),
        'u' => lemma_rows_of_wf(MIN_U_BITMAP@),
        'v' => lemma_rows_of_wf(MIN_V_BITMAP@),
        'w' => lemma_rows_of_wf(MIN_W_BITMAP@),
        'x' => lemma_rows_of_wf(MIN_X_BITMAP@),
        'y' => lemma_rows_of_wf(MIN_Y_BITMAP@),
        'z' => lemma_rows_of_wf(MIN_Z_BITMAP@),
        '0' => lemma_rows_of_wf(BITMAP_0@),
        '1' => lemma_rows_of_wf(BITMAP_1@),
        '2' => lemma_rows_of_wf(BITMAP_2@),
        '3' => lemma_rows_of_wf(BITMAP_3@),
        '4' => lemma_rows_of_wf(BITMAP_4@),
        '5' => lemma_rows_of_wf(BITMAP_5@),
        '6' => lemma_rows_of_wf(BITMAP_6@),
        '7' => lemma_rows_of_wf(BITMAP_7@),
        '8' => lemma_rows_of_wf(BITMAP_8@),
        '9' => lemma_rows_of_wf(BITMAP_9@),
        '(' => lemma_rows_of_wf(BITMAP_LEFT_PARENTHESE@),
        ')' => lemma_rows_of_wf(BITMAP_RIGHT_PARENTHESE@),
        '[' => lemma_rows_of_wf(BITMAP_LEFT_BRACKET@),
        ']' => lemma_rows_of_wf(BITMAP_RIGHT_BRACKET@),
        '{' => lemma_rows_of_wf(BITMAP_LEFT_BRACE@),
        '}' => lemma_rows_of_wf(BITMAP_RIGHT_BRACE@),
        '+' => lemma_rows_of_wf(BITMAP_PLUS@),
        '-' => lemma_rows_of_wf(BITMAP_HYPHEN@),
        '*' => lemma_rows_of_wf(BITMAP_ASTERISK@),
        '=' => lemma_rows_of_wf(BITMAP_EQUAL@),
        '%' => lemma_rows_of_wf(BITMAP_PERCENT@),
        '/' => lemma_rows_of_wf(BITMAP_SLASH@),
        '\\' => lemma_rows_of_wf(BITMAP_BACKSLASH@),
        ' ' => lemma_rows_of_wf(BITMAP_SPACE@),
        '\"' => lemma_rows_of_wf(BITMAP_QUOTE_DOUBLE@),
        '\'' => lemma_rows_of_wf(BITMAP_QUOTE_SINGLE@),
        '#' => lemma_rows_of_wf(BITMAP_HASHTAG@),
        '@' => lemma_rows_of_wf(BITMAP_AT@),
        '&' => lemma_rows_of_wf(BITMAP_AMPERSAND@),
        '_' => lemma_rows_of_wf(BITMAP_UNDERSCORE@),
        ',' => lemma_rows_of_wf(BITMAP_COMMA@),
        '.' => lemma_rows_of_wf(BITMAP_PERIOD@),
        ';' => lemma_rows_of_wf(BITMAP_SEMICOLON@),
        ':' => lemma_rows_of_wf(BITMAP_COLON@),
        '?' => lemma_rows_of_wf(BITMAP_QUESTION@),
        '!' => lemma_rows_of_wf(BITMAP_EXCLAMATION@),
        '|' => lemma_rows_of_wf(BITMAP_BAR@),
        '<' => lemma_rows_of_wf(BITMAP_LESS@),
        '>' => lemma_rows_of_wf(BITMAP_GREATER@),
        '^' => lemma_rows_of_wf(BITMAP_CIRCUM@),
        '~' => lemma_rows_of_wf(BITMAP_TILDE@),
        _ => {},
    }
}

/// The glyph `src` made `size` cells high: each cell takes the value of the
/// cell of `src` that lies at the same relative place. The result is `size`
/// cells wide as well; a glyph that is narrower than the default size stays
/// narrower by as many columns, and the columns behind it are empty.
pub open spec fn resample(src: Seq<Seq<u8>>, size: int) -> Seq<Seq<u8>> {
    let src_h = src.len() as int;
    let src_w = src[0].len() as int;
    let res_w = size - (DEFAULT_FONT_SIZE - src_w);
    Seq::new(
        size as nat,
        |y: int|
            Seq::new(
                size as nat,
                |x: int|
                    if x < res_w {
                        src[y * src_h / size][x * src_w / res_w]
                    } else {
                        0u8
                    },
            ),
    )
}

/// The glyph of `letter` at font size `size`: the font's own glyph at the
/// default size, a resampled one at a larger size, and the glyph for unknown
/// characters where the font does not know the letter.
pub open spec fn glyph_rows(letter: char, size: int) -> Seq<Seq<u8>> {
    match base_rows(letter) {
        Some(rows) => if size == DEFAULT_FONT_SIZE {
            rows
        } else {
            resample(rows, size)
        },
        None => resample(unknown_rows(), size),
    }
}

/// Where a cell of a resampled glyph comes from.
pub proof fn lemma_resample_source(position: int, from: int, to: int)
    requires
        0 <= position < to,
        0 < from,
    ensures
        0 <= position * from / to < from,
{
    assert(0 <= position * from < to * from) by (nonlinear_arith)
        requires
            0 <= position < to,
            0 < from,
    ;
    assert(position * from / to < from) by (nonlinear_arith)
        requires
            0 <= position * from < to * from,
            0 < to,
    ;
    assert(0 <= position * from / to) by (nonlinear_arith)
        requires
            0 <= position * from,
            0 < to,
    ;
}

/// A resampled glyph is a glyph.
pub proof fn lemma_resample_wf(src: Seq<Seq<u8>>, size: int)
    requires
        glyph_wf(src),
        src[0].len() <= DEFAULT_FONT_SIZE,
        size >= DEFAULT_FONT_SIZE,
    ensures
        glyph_wf(resample(src, size)),
        resample(src, size).len() == size,
        resample(src, size)[0].len() == size,
{
    let out = resample(src, size);
    let src_h = src.len() as int;
    let src_w = src[0].len() as int;
    let res_w = size - (DEFAULT_FONT_SIZE - src_w);
    assert forall|i: int, j: int| 0 <= i < out.len() && 0 <= j < out[0].len() implies (
    #[trigger] out[i][j]) <= 1 by {
        if j < res_w {
            lemma_resample_source(i, src_h, size);
            lemma_resample_source(j, src_w, res_w);
            let y = i * src_h / size;
            let x = j * src_w / res_w;
            assert(src[y].len() == src[0].len());
            assert(src[y][x] <= 1);
        }
    }
}

/// Every glyph that the font hands out is a glyph.
pub proof fn lemma_glyph_rows_wf(letter: char, size: int)
    requires
        size >= DEFAULT_FONT_SIZE,
    ensures
        glyph_wf(glyph_rows(letter, size)),
{
    lemma_base_rows(letter);
    match base_rows(letter) {
        Some(rows) => {
            if size != DEFAULT_FONT_SIZE {
                lemma_resample_wf(rows, size);
            }
        },
        None => {
            lemma_resample_wf(unknown_rows(), size);
        },
    }
}

/// A glyph that was made once, kept to be handed out again.
pub struct CachedLetter {
    pub letter: char,
    pub size: usize,
    pub bitmap: Letter,
}

/// The font with the glyphs that were made from it so far.
pub struct Text {
    letters_in_memory: Vec<CachedLetter>,
}

impl Text {
    /// The glyphs that are kept.
    pub closed spec fn cached(&self) -> Seq<CachedLetter> {
        self.letters_in_memory@
    }

    /// Every glyph that is kept is the glyph of its letter at its size.
    pub open spec fn wf(&self) -> bool {
        forall|i: int|
            0 <= i < self.cached().len() ==> {
                &&& (#[trigger] self.cached()[i]).size >= DEFAULT_FONT_SIZE
                &&& letter_rows(&self.cached()[i].bitmap) == glyph_rows(
                    self.cached()[i].letter,
                    self.cached()[i].size as int,
                )
            }
    }

    pub fn new() -> (text: Self)
        ensures
            text.wf(),
            text.cached() == Seq::<CachedLetter>::empty(),
    {
        Text { letters_in_memory: Vec::new() }
    }

    /// The glyph of `letter` at `font_size`, made now where it was not made before.
    pub fn get_letter(&mut self, letter: char, font_size: FontSize) -> (glyph: &Letter)
        requires
            old(self).wf(),
            font_size.spec_value() >= DEFAULT_FONT_SIZE,
        ensures
            final(self).wf(),
            letter_rows(glyph) == glyph_rows(letter, font_size.spec_value() as int),
            glyph_wf(letter_rows(glyph)),
    {
        let size: usize = font_size.get_value();
        proof {
            lemma_glyph_rows_wf(letter, size as int);
        }
        let total: usize = self.letters_in_memory.len();
        let mut i: usize = 0;
        while i < total
            invariant
                self.wf(),
                *self == *old(self),
                total == self.cached().len(),
                i <= total,
                size == font_size.spec_value(),
                glyph_wf(glyph_rows(letter, size as int)),
            decreases total - i,
        {
            if self.letters_in_memory[i].letter == letter && self.letters_in_memory[i].size
                == size {
                proof {
                    let entry = self.cached()[i as int];
                    assert(entry.size >= DEFAULT_FONT_SIZE);
                    assert(letter_rows(&entry.bitmap) == glyph_rows(letter, size as int));
                }
                return &self.letters_in_memory[i].bitmap;
            }
            i = i + 1;
        }
        self.add_new_letter_format(letter, size)
    }

    /// Makes the glyph of `letter` at `font_size` from the font's glyph of the
    /// default size, and keeps it.
    pub fn add_new_letter_format(&mut self, letter: char, font_size: usize) -> (glyph: &Letter)
        requires
            old(self).wf(),
            font_size >= DEFAULT_FONT_SIZE,
        ensures
            final(self).wf(),
            letter_rows(glyph) == glyph_rows(letter, font_size as int),
            glyph_wf(letter_rows(glyph)),
    {
        proof {
            lemma_glyph_rows_wf(letter, font_size as int);
            lemma_base_rows(letter);
        }
        let known = base_letter(letter);
        let new_bitmap: Letter = match known {
            Some(existing) => {
                if font_size == DEFAULT_FONT_SIZE {
                    existing
                } else {
                    resample_letter(&existing, font_size)
                }
            },
            None => {
                let unknown = to_vec2d(&UNKNOWN_BITMAP);
                resample_letter(&unknown, font_size)
            },
        };
        self.letters_in_memory.push(CachedLetter { letter, size: font_size, bitmap: new_bitmap });
        let last: usize = self.letters_in_memory.len() - 1;
        proof {
            assert forall|i: int| 0 <= i < self.cached().len() implies {
                &&& (#[trigger] self.cached()[i]).size >= DEFAULT_FONT_SIZE
                &&& letter_rows(&self.cached()[i].bitmap) == glyph_rows(
                    self.cached()[i].letter,
                    self.cached()[i].size as int,
                )
            } by {
                if i < last {
                    assert(self.cached()[i] == old(self).cached()[i]);
                }
            }
        }
        &self.letters_in_memory[last].bitmap
    }
}

/// The product of two sizes fits into 128 bits.
pub proof fn lemma_product_fits(a: usize, b: usize)
    ensures
        a * b <= u128::MAX,
{
    assert(a * b <= 0xffff_ffff_ffff_ffff * 0xffff_ffff_ffff_ffff) by (nonlinear_arith)
        requires
            0 <= a <= 0xffff_ffff_ffff_ffff,
            0 <= b <= 0xffff_ffff_ffff_ffff,
    ;
}

/// Makes a glyph `font_size` cells high and wide from `src`.
pub fn resample_letter(src: &Letter, font_size: usize) -> (letter: Letter)
    requires
        glyph_wf(letter_rows(src)),
        letter_rows(src)[0].len() <= DEFAULT_FONT_SIZE,
        font_size >= DEFAULT_FONT_SIZE,
    ensures
        letter_rows(&letter) == resample(letter_rows(src), font_size as int),
{
    let ghost rows = letter_rows(src);
    let src_h: usize = src.len();
    assert(rows[0] == src@[0]@);
    let src_w: usize = src[0].len();
    let diff_w: usize = DEFAULT_FONT_SIZE - src_w;
    let res_h: usize = font_size;
    let res_w: usize = font_size - diff_w;
    let ghost want = resample(rows, font_size as int);
    let mut new_bitmap: Vec<Vec<u8>> = Vec::new();
    let mut y: usize = 0;
    while y < res_h
        invariant
            rows == letter_rows(src),
            glyph_wf(rows),
            src_h == rows.len(),
            src_w == rows[0].len(),
            1 <= src_w <= DEFAULT_FONT_SIZE,
            res_h == font_size,
            res_w == font_size - (DEFAULT_FONT_SIZE - src_w),
            font_size >= DEFAULT_FONT_SIZE,
            want == resample(rows, font_size as int),
            y <= res_h,
            new_bitmap@.len() == y,
            forall|a: int| 0 <= a < y ==> (#[trigger] new_bitmap@[a])@ == want[a],
        decreases res_h - y,
    {
        proof {
            lemma_resample_source(y as int, src_h as int, res_h as int);
            lemma_product_fits(y, src_h);
        }
        let src_y: usize = ((y as u128) * (src_h as u128) / (res_h as u128)) as usize;
        assert(rows[src_y as int] == src@[src_y as int]@);
        assert(rows[src_y as int].len() == rows[0].len());
        let mut row: Vec<u8> = Vec::new();
        let mut x: usize = 0;
        while x < font_size
            invariant
                rows == letter_rows(src),
                src_y < src_h,
                src_h == rows.len(),
                src_y == y * src_h / (font_size as int),
                src@[src_y as int]@.len() == src_w,
                src_w == rows[0].len(),
                rows[src_y as int] == src@[src_y as int]@,
                1 <= src_w <= DEFAULT_FONT_SIZE,
                res_w == font_size - (DEFAULT_FONT_SIZE - src_w),
                font_size >= DEFAULT_FONT_SIZE,
                want == resample(rows, font_size as int),
                y < font_size,
                x <= font_size,
                row@.len() == x,
                forall|b: int| 0 <= b < x ==> #[trigger] row@[b] == want[y as int][b],
            decreases font_size - x,
        {
            if x < res_w {
                proof {
                    lemma_resample_source(x as int, src_w as int, res_w as int);
                    lemma_product_fits(x, src_w);
                }
                let src_x: usize = ((x as u128) * (src_w as u128) / (res_w as u128)) as usize;
                row.push(src[src_y][src_x]);
            } else {
                row.push(0);
            }
            x = x + 1;
        }
        assert(row@ == want[y as int]);
        new_bitmap.push(row);
        y = y + 1;
    }
    assert(letter_rows(&new_bitmap) == want);
    new_bitmap
}

} // verus!
