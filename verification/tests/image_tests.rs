use gif_encoder::common::types::{DrawError, Position};
use gif_encoder::format::image::{Image, RLE};

#[test]
fn image_add_interval_start_is_end() {
    // [(4, 'A')] ==> [(1, 'B'), (3, 'A')]
    let mut img = Image::new(1, 4, 'A');
    img.add_interval(0, 0, 'B').unwrap();
    assert_eq!(img.pixels_indexes, vec![RLE::new(1, 'B'), RLE::new(3, 'A')]);

    // [(4, 'A')] ==> [(3, 'A'), (1, 'B')]
    let mut img = Image::new(1, 4, 'A');
    img.add_interval(3, 3, 'B').unwrap();
    assert_eq!(img.pixels_indexes, vec![RLE::new(3, 'A'), RLE::new(1, 'B')]);

    // [(4, 'A')] ==> [(1, 'A'), (1, 'B'), (2, 'A')]
    let mut img = Image::new(1, 4, 'A');
    img.add_interval(1, 1, 'B').unwrap();
    assert_eq!(
        img.pixels_indexes,
        vec![RLE::new(1, 'A'), RLE::new(1, 'B'), RLE::new(2, 'A')]
    );

    // [(1, 'A'), (1, 'B'), (4, 'C')] ==> [(1, 'A'), (1, 'B'), (1, 'D'), (3, 'C')]
    let mut img = Image::new(1, 6, 'A');
    img.pixels_indexes = vec![RLE::new(1, 'A'), RLE::new(1, 'B'), RLE::new(4, 'C')];
    img.add_interval(2, 2, 'D').unwrap();
    assert_eq!(
        img.pixels_indexes,
        vec![
            RLE::new(1, 'A'),
            RLE::new(1, 'B'),
            RLE::new(1, 'D'),
            RLE::new(3, 'C')
        ]
    );
}

#[test]
fn image_add_interval_within_same_index_test() {
    // [(4, 'A')] ==> [(2, 'B'), (2, 'A')]
    let mut img = Image::new(1, 4, 'A');
    img.add_interval(0, 1, 'B').unwrap();
    assert_eq!(img.pixels_indexes, vec![RLE::new(2, 'B'), RLE::new(2, 'A')]);

    // [(4, 'A')] ==> [(2, 'A'), (2, 'B')]
    let mut img = Image::new(1, 4, 'A');
    img.add_interval(2, 3, 'B').unwrap();
    assert_eq!(img.pixels_indexes, vec![RLE::new(2, 'A'), RLE::new(2, 'B')]);

    // [(4, 'A')] ==> [(1, 'A'), (2, 'B'), (1, 'A')]
    let mut img = Image::new(1, 4, 'A');
    img.add_interval(1, 2, 'B').unwrap();
    assert_eq!(
        img.pixels_indexes,
        vec![RLE::new(1, 'A'), RLE::new(2, 'B'), RLE::new(1, 'A')]
    );

    // [(4, 'A')] ==> [(4, 'B')]
    let mut img = Image::new(1, 4, 'A');
    img.add_interval(0, 3, 'B').unwrap();
    assert_eq!(img.pixels_indexes, vec![RLE::new(4, 'B')]);
}

#[test]
fn image_add_interval_with_different_index_test() {
    // [(2, 'A'), (2, 'C')] ==> [(2, 'B'), (2, 'C')]
    let mut img = Image::new(1, 4, 'A');
    img.pixels_indexes = vec![RLE::new(2, 'A'), RLE::new(2, 'C')];
    img.add_interval(0, 1, 'B').unwrap();
    assert_eq!(img.pixels_indexes, vec![RLE::new(2, 'B'), RLE::new(2, 'C')]);

    // [(2, 'A'), (2, 'C')] ==> [(2, 'A'), (2, 'B')]
    let mut img = Image::new(1, 4, 'A');
    img.pixels_indexes = vec![RLE::new(2, 'A'), RLE::new(2, 'C')];
    img.add_interval(2, 3, 'B').unwrap();
    assert_eq!(img.pixels_indexes, vec![RLE::new(2, 'A'), RLE::new(2, 'B')]);

    // [(2, 'A'), (2, 'C')] ==> [(1, 'A'), (2, 'B'), (1, 'C')]
    let mut img = Image::new(1, 4, 'A');
    img.pixels_indexes = vec![RLE::new(2, 'A'), RLE::new(2, 'C')];
    img.add_interval(1, 2, 'B').unwrap();
    assert_eq!(
        img.pixels_indexes,
        vec![RLE::new(1, 'A'), RLE::new(2, 'B'), RLE::new(1, 'C')]
    );

    // [(2, 'A'), (3, 'C')] ==> [(1, 'A'), (2, 'B'), (2, 'C')]
    let mut img = Image::new(1, 5, 'A');
    img.pixels_indexes = vec![RLE::new(2, 'A'), RLE::new(3, 'C')];
    img.add_interval(1, 2, 'B').unwrap();
    assert_eq!(
        img.pixels_indexes,
        vec![RLE::new(1, 'A'), RLE::new(2, 'B'), RLE::new(2, 'C')]
    );

    // [(2, 'A'), (2, 'C')] ==> [(4, 'B')]
    let mut img = Image::new(1, 4, 'A');
    img.pixels_indexes = vec![RLE::new(2, 'A'), RLE::new(2, 'C')];
    img.add_interval(0, 3, 'B').unwrap();
    assert_eq!(img.pixels_indexes, vec![RLE::new(4, 'B')]);
}

#[test]
fn image_draw_rectangle_test() {
    let mut img = Image::new(10, 10, 'A');
    img.draw_rectangle(Position { x: 0, y: 0 }, Position { x: 4, y: 4 }, 'B')
        .unwrap();
    img.draw_rectangle(Position { x: 5, y: 5 }, Position { x: 9, y: 9 }, 'B')
        .unwrap();

    let mut expected = Vec::with_capacity(20);
    for _ in 0..5 {
        expected.push(RLE::new(5, 'B'));
        expected.push(RLE::new(5, 'A'));
    }

    let last_index = expected.len() - 1;
    expected[last_index] = RLE::new(10, 'A');
    expected.push(RLE::new(5, 'B'));

    for _ in 0..4 {
        expected.push(RLE::new(5, 'A'));
        expected.push(RLE::new(5, 'B'));
    }

    assert_eq!(expected, img.pixels_indexes);
}

#[test]
fn coalesce_test() {
    // [(4, 'A')] ==> [(4, 'A')]
    let mut img = Image::new(1, 4, 'A');
    img.pixels_indexes = vec![RLE::new(4, 'A')];
    img.coalesce();
    assert_eq!(img.pixels_indexes, vec![RLE::new(4, 'A')]);

    // [(2, 'A'), (2, 'A')] ==> [(4, 'A')]
    let mut img = Image::new(1, 4, 'A');
    img.pixels_indexes = vec![RLE::new(2, 'A'), RLE::new(2, 'A')];
    img.coalesce();
    assert_eq!(img.pixels_indexes, vec![RLE::new(4, 'A')]);

    // [(2, 'A'), (2, 'A'), (2, 'A'),(2, 'B'), (2, 'B') ] ==> [(6, 'A'), (4, B)]
    let mut img = Image::new(1, 4, 'A');
    img.pixels_indexes = vec![
        RLE::new(2, 'A'),
        RLE::new(2, 'A'),
        RLE::new(2, 'A'),
        RLE::new(2, 'B'),
        RLE::new(2, 'B'),
    ];
    img.coalesce();
    assert_eq!(img.pixels_indexes, vec![RLE::new(6, 'A'), RLE::new(4, 'B')]);
}

#[test]
fn add_interval_rejects_inverted_and_outside() {
    let mut img = Image::new(1, 4, 'A');
    assert_eq!(img.add_interval(2, 1, 'B'), Err(DrawError::InvertedInterval));
    assert_eq!(img.add_interval(2, 4, 'B'), Err(DrawError::InvalidRegion));
    assert_eq!(img.pixels_indexes, vec![RLE::new(4, 'A')]);
}

fn dense(img: &Image<char>) -> Vec<char> {
    let mut out = Vec::new();
    for run in &img.pixels_indexes {
        for _ in 0..run.freq {
            out.push(run.value);
        }
    }
    out
}

#[test]
fn runs_cover_the_canvas_after_every_mutation() {
    let mut img = Image::new(7, 9, 'A');
    let total = |img: &Image<char>| -> usize { img.pixels_indexes.iter().map(|r| r.freq).sum() };
    assert_eq!(total(&img), 63);
    img.add_interval(0, 62, 'B').unwrap();
    assert_eq!(total(&img), 63);
    img.add_interval(5, 5, 'C').unwrap();
    assert_eq!(total(&img), 63);
    img.add_interval(5, 5, 'D').unwrap();
    assert_eq!(total(&img), 63);
    img.add_interval(4, 6, 'E').unwrap();
    assert_eq!(total(&img), 63);
    img.draw_rectangle(Position::new(2, 1), Position::new(8, 6), 'F').unwrap();
    assert_eq!(total(&img), 63);
    img.coalesce();
    assert_eq!(total(&img), 63);
    img.fill('G');
    assert_eq!(img.pixels_indexes, vec![RLE::new(63, 'G')]);
    assert!(img.add_interval(0, 63, 'H').is_err());
    assert_eq!(total(&img), 63);
}

#[test]
fn a_run_of_one_pixel_is_replaced_not_kept() {
    // the pixel that is painted is a run of its own
    let mut img = Image::new(1, 4, 'A');
    img.pixels_indexes = vec![RLE::new(1, 'A'), RLE::new(3, 'B')];
    img.add_interval(0, 0, 'X').unwrap();
    assert_eq!(img.pixels_indexes, vec![RLE::new(1, 'X'), RLE::new(3, 'B')]);

    // the interval ends on a run of one pixel: the run is removed, no empty run stays
    let mut img = Image::new(1, 4, 'A');
    img.pixels_indexes = vec![RLE::new(2, 'A'), RLE::new(1, 'B'), RLE::new(1, 'C')];
    img.add_interval(0, 2, 'X').unwrap();
    assert_eq!(img.pixels_indexes, vec![RLE::new(3, 'X'), RLE::new(1, 'C')]);

    // one call adds at most two runs
    let mut img = Image::new(1, 9, 'A');
    img.add_interval(4, 4, 'B').unwrap();
    assert_eq!(img.pixels_indexes.len(), 3);
    img.add_interval(1, 7, 'C').unwrap();
    assert_eq!(
        img.pixels_indexes,
        vec![RLE::new(1, 'A'), RLE::new(7, 'C'), RLE::new(1, 'A')]
    );
}

#[test]
fn coalesce_is_idempotent() {
    let mut img = Image::new(2, 6, 'A');
    img.pixels_indexes = vec![
        RLE::new(1, 'A'),
        RLE::new(2, 'A'),
        RLE::new(3, 'B'),
        RLE::new(1, 'A'),
        RLE::new(0, 'A'),
        RLE::new(4, 'C'),
        RLE::new(1, 'C'),
    ];
    img.coalesce();
    let once = img.pixels_indexes.clone();
    assert_eq!(
        once,
        vec![RLE::new(3, 'A'), RLE::new(3, 'B'), RLE::new(1, 'A'), RLE::new(5, 'C')]
    );
    img.coalesce();
    assert_eq!(img.pixels_indexes, once);
    for pair in img.pixels_indexes.windows(2) {
        assert_ne!(pair[0].value, pair[1].value);
    }
}

#[test]
fn rectangles_match_a_dense_simulation() {
    let (height, width) = (9usize, 11usize);
    let mut img = Image::new(height, width, '.');
    let mut grid = vec!['.'; height * width];
    let rectangles = [
        (0, 0, 10, 8, 'a'),
        (3, 2, 7, 5, 'b'),
        (0, 0, 0, 0, 'c'),
        (10, 8, 10, 8, 'd'),
        (5, 0, 5, 8, 'e'),
        (0, 4, 10, 4, 'f'),
        (2, 3, 9, 3, 'b'),
        (1, 1, 9, 7, 'g'),
        (4, 4, 6, 6, '.'),
    ];
    for (left, top, right, bottom, value) in rectangles {
        img.draw_rectangle(Position::new(left, top), Position::new(right, bottom), value)
            .unwrap();
        for y in top..=bottom {
            for x in left..=right {
                grid[y * width + x] = value;
            }
        }
        assert_eq!(dense(&img), grid);
    }
}

#[test]
fn draw_rectangle_rejects_inverted_and_outside() {
    let mut img = Image::new(4, 5, 'A');
    let before = img.pixels_indexes.clone();
    assert_eq!(
        img.draw_rectangle(Position::new(3, 0), Position::new(2, 0), 'B').err(),
        Some(DrawError::InvertedInterval)
    );
    assert_eq!(
        img.draw_rectangle(Position::new(0, 2), Position::new(0, 1), 'B').err(),
        Some(DrawError::InvertedInterval)
    );
    assert_eq!(
        img.draw_rectangle(Position::new(0, 0), Position::new(5, 0), 'B').err(),
        Some(DrawError::InvalidRegion)
    );
    assert_eq!(
        img.draw_rectangle(Position::new(0, 0), Position::new(0, 4), 'B').err(),
        Some(DrawError::InvalidRegion)
    );
    // an inverted rectangle is named inverted even where it lies outside
    assert_eq!(
        img.draw_rectangle(Position::new(9, 0), Position::new(8, 0), 'B').err(),
        Some(DrawError::InvertedInterval)
    );
    assert_eq!(img.pixels_indexes, before);
    assert!(img
        .draw_rectangle(Position::new(4, 3), Position::new(4, 3), 'B')
        .is_ok());
    assert_eq!(img.pixels_indexes, vec![RLE::new(19, 'A'), RLE::new(1, 'B')]);
}
