use gif_encoder::common::text::{to_vec2d, DefaultLetter, FontSize, Text, A_BITMAP, B_BITMAP};
use gif_encoder::common::types::IPosition;
use gif_encoder::format::image::{Image, RLE};

#[test]
fn font_size_values() {
    assert_eq!(FontSize::Default.get_value(), 5);
    assert_eq!(FontSize::Size(9).get_value(), 9);
}

#[test]
fn bitmaps_become_rows() {
    let a = to_vec2d(&A_BITMAP);
    assert_eq!(
        a,
        vec![
            vec![0, 1, 1, 1, 0],
            vec![1, 0, 0, 0, 1],
            vec![1, 1, 1, 1, 1],
            vec![1, 0, 0, 0, 1],
            vec![1, 0, 0, 0, 1],
        ]
    );
    let b = DefaultLetter { bitmap: B_BITMAP }.to_vec2d();
    assert_eq!(b[0], vec![1, 1, 1, 1, 0]);
    assert_eq!(b.len(), 5);
}

#[test]
fn glyphs_of_known_and_unknown_letters() {
    let mut text = Text::new();
    let a = text.get_letter('A', FontSize::Default).clone();
    assert_eq!(a, to_vec2d(&A_BITMAP));
    // a glyph that is handed out twice is the same glyph
    let again = text.get_letter('A', FontSize::Default).clone();
    assert_eq!(a, again);
    // the narrow glyph of 'i' keeps its width at the default size
    let i = text.get_letter('i', FontSize::Default).clone();
    assert_eq!(i.len(), 5);
    assert_eq!(i[0].len(), 1);
    // an unknown letter gets the replacement glyph
    let unknown = text.get_letter('$', FontSize::Default).clone();
    assert_eq!(
        unknown,
        vec![
            vec![1, 1, 1, 1, 1],
            vec![1, 0, 1, 0, 1],
            vec![1, 1, 0, 1, 1],
            vec![1, 0, 1, 0, 1],
            vec![1, 1, 1, 1, 1],
        ]
    );
}

#[test]
fn larger_glyphs_are_resampled() {
    let mut text = Text::new();
    let a = text.get_letter('A', FontSize::Size(10)).clone();
    assert_eq!(a.len(), 10);
    for row in &a {
        assert_eq!(row.len(), 10);
    }
    // each cell of the default glyph becomes a square of four cells
    assert_eq!(a[0], vec![0, 0, 1, 1, 1, 1, 1, 1, 0, 0]);
    assert_eq!(a[1], vec![0, 0, 1, 1, 1, 1, 1, 1, 0, 0]);
    assert_eq!(a[2], vec![1, 1, 0, 0, 0, 0, 0, 0, 1, 1]);
    // a glyph one column wide stays four columns narrower than the font size
    let i = text.get_letter('i', FontSize::Size(6)).clone();
    assert_eq!(i.len(), 6);
    // rows 0 and 1 come from row 0 of the glyph, row 2 from its empty row 1
    assert_eq!(i[0], vec![1, 1, 0, 0, 0, 0]);
    assert_eq!(i[1], vec![1, 1, 0, 0, 0, 0]);
    assert_eq!(i[2], vec![0, 0, 0, 0, 0, 0]);
    assert_eq!(i[3], vec![1, 1, 0, 0, 0, 0]);
}

fn pixels(img: &Image<char>) -> Vec<char> {
    let mut out = Vec::new();
    for run in &img.pixels_indexes {
        for _ in 0..run.freq {
            out.push(run.value);
        }
    }
    out
}

#[test]
fn draw_letter_paints_the_set_cells() {
    let mut text = Text::new();
    let mut img = Image::new(6, 7, '.');
    img.draw_letter('A', &mut text, FontSize::Default, IPosition::new(1, 1), '#');
    let rows: Vec<String> = pixels(&img)
        .chunks(7)
        .map(|row| row.iter().collect())
        .collect();
    assert_eq!(
        rows,
        vec![".......", "..###..", ".#...#.", ".#####.", ".#...#.", ".#...#."]
    );
}

#[test]
fn draw_letter_clips_at_every_edge() {
    let mut text = Text::new();
    let mut img = Image::new(3, 3, '.');
    img.draw_letter('A', &mut text, FontSize::Default, IPosition::new(-1, -1), '#');
    let rows: Vec<String> = pixels(&img)
        .chunks(3)
        .map(|row| row.iter().collect())
        .collect();
    assert_eq!(rows, vec!["...", "###", "..."]);

    let mut img = Image::new(3, 3, '.');
    img.draw_letter('A', &mut text, FontSize::Default, IPosition::new(-10, 0), '#');
    assert_eq!(img.pixels_indexes, vec![RLE::new(9, '.')]);
    img.draw_letter('A', &mut text, FontSize::Default, IPosition::new(3, 0), '#');
    assert_eq!(img.pixels_indexes, vec![RLE::new(9, '.')]);
    img.draw_letter('A', &mut text, FontSize::Default, IPosition::new(0, 3), '#');
    assert_eq!(img.pixels_indexes, vec![RLE::new(9, '.')]);
}

#[test]
fn draw_text_advances_and_coalesces() {
    let mut text = Text::new();
    let mut img = Image::new(5, 12, '.');
    img.draw_text("il", &mut text, FontSize::Default, IPosition::new(0, 0), '#');
    let rows: Vec<String> = pixels(&img)
        .chunks(12)
        .map(|row| row.iter().collect())
        .collect();
    // the second glyph begins a font size and a third of it to the right: column 6
    assert_eq!(
        rows,
        vec![
            "#.....##....",
            ".......#....",
            "#......#....",
            "#......#....",
            "#.......#...",
        ]
    );
    for pair in img.pixels_indexes.windows(2) {
        assert_ne!(pair[0].value, pair[1].value);
    }
    let total: usize = img.pixels_indexes.iter().map(|run| run.freq).sum();
    assert_eq!(total, 60);
}
