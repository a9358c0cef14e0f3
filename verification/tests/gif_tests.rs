use gif_encoder::common::text::{FontSize, Text};
use gif_encoder::common::types::{DrawError, IPosition, Pixel, Position};
use gif_encoder::format::gif::gif::{Gif, Loop};
use gif_encoder::format::gif::gif_image::GifImage;
use gif_encoder::format::image::ImageFormat;

#[test]
fn gif_global_color_bits_test() {
    let mut gif = Gif::new(10, 10, None);

    let white = Pixel::new(255, 255, 255);
    let red = Pixel::new(255, 0, 0);
    let blue = Pixel::new(0, 0, 255);
    let black = Pixel::new(0, 0, 255);

    gif.add_image();
    gif.fill(&white).unwrap();
    assert_eq!(gif.get_global_color_table_size_bits(), 0);

    gif.add_image();
    gif.fill(&red).unwrap();
    assert_eq!(gif.get_global_color_table_size_bits(), 0);

    gif.add_image();
    gif.fill(&blue).unwrap();
    assert_eq!(gif.get_global_color_table_size_bits(), 1);

    gif.add_image();
    gif.fill(&black).unwrap();
    assert_eq!(gif.get_global_color_table_size_bits(), 1);
}

// Based on the following example:
// https://giflib.sourceforge.net/whatsinagif/bits_and_bytes.html#image_data_block
#[test]
fn image_data_test() {
    let white = Pixel::new(255, 255, 255);
    let red = Pixel::new(255, 0, 0);
    let blue = Pixel::new(0, 0, 255);
    let black = Pixel::new(0, 0, 0);

    let mut color_table = vec![white.clone(), red.clone(), blue.clone(), black.clone()];

    let mut img = GifImage::new(10, 10);
    img.fill(&mut color_table, &red)
        .unwrap()
        .draw_rectangle(&mut color_table, Position::new(5, 0), Position::new(9, 4), &blue)
        .unwrap()
        .draw_rectangle(&mut color_table, Position::new(0, 5), Position::new(4, 9), &blue)
        .unwrap()
        .draw_rectangle(&mut color_table, Position::new(3, 3), Position::new(6, 6), &white)
        .unwrap();

    let result = img.get_image_data(&color_table);
    let expected = vec![
        b'\x02', // lzw_min_code_size
        b'\x16', // Number of bytes in sub block
        // Data sub block
        b'\x8C', b'\x2D', b'\x99', b'\x87', b'\x2A', b'\x1C', b'\xDC', b'\x33', b'\xA0',
        b'\x02', b'\x75', b'\xEC', b'\x95', b'\xFA', b'\xA8', b'\xDE', b'\x60', b'\x8C',
        b'\x04', b'\x91', b'\x4C', b'\x01',
        // End of block
        b'\x00', // Block Terminator
    ];

    assert_eq!(expected, result);
}

#[test]
fn container_bytes_single_frame_with_delay() {
    let mut gif = Gif::new(2, 3, Some(Loop::Repeat(0x0102)));
    let red = Pixel::new(255, 0, 0);
    let green = Pixel::new(0, 255, 0);
    let blue = Pixel::new(0, 0, 255);
    let image = gif.add_image();
    gif.image_mut(image).add_delay(0x0a0b).add_left(1).add_top(2);
    gif.fill(&red)
        .unwrap()
        .draw_rectangle(Position::new(1, 0), Position::new(2, 0), &green)
        .unwrap()
        .draw_rectangle(Position::new(0, 1), Position::new(0, 1), &blue)
        .unwrap();
    let bytes = gif.as_bytes();

    let mut expected: Vec<u8> = Vec::new();
    expected.extend_from_slice(b"GIF89a");
    // width 3, height 2, three colors in a table of four
    expected.extend_from_slice(&[3, 0, 2, 0, 0x91, 0, 0]);
    expected.extend_from_slice(&[255, 0, 0, 0, 255, 0, 0, 0, 255, 0, 0, 0]);
    expected.extend_from_slice(&[0x21, 0xFF, 0x0B]);
    expected.extend_from_slice(b"NETSCAPE2.0");
    expected.extend_from_slice(&[0x03, 0x01, 0x02, 0x01, 0x00]);
    expected.extend_from_slice(&[0x21, 0xF9, 0x04, 0x00, 0x0b, 0x0a, 0x00, 0x00]);
    expected.extend_from_slice(&[0x2C, 1, 0, 2, 0, 3, 0, 2, 0, 0]);
    // pixels 0 1 1 2 0 0 for the table of four. Codes of three bits: 4 (clear), 0, 1, 1;
    // the ninth code of the dictionary makes the width four: 2, 0, 0, 5 (end).
    expected.extend_from_slice(&[0x02, 0x04, 0x44, 0x22, 0x00, 0x05, 0x00]);
    expected.push(0x3B);
    assert_eq!(bytes, expected);
}

#[test]
fn palette_refuses_the_257th_color() {
    let mut color_table: Vec<Pixel> = Vec::new();
    for i in 0..=255u8 {
        assert_eq!(
            GifImage::get_color_index(&mut color_table, &Pixel::new(i, 0, 0)),
            Ok(i as usize)
        );
    }
    assert_eq!(
        GifImage::get_color_index(&mut color_table, &Pixel::new(0, 1, 0)),
        Err(DrawError::PaletteCapacityExceeded)
    );
    assert_eq!(color_table.len(), 256);
    // a color that the table holds keeps its index
    assert_eq!(
        GifImage::get_color_index(&mut color_table, &Pixel::new(7, 0, 0)),
        Ok(7)
    );
}

#[test]
fn a_color_keeps_the_index_it_got_first() {
    let mut color_table: Vec<Pixel> = Vec::new();
    let red = Pixel::new(255, 0, 0);
    let green = Pixel::new(0, 255, 0);
    let blue = Pixel::new(0, 0, 255);
    assert_eq!(GifImage::get_color_index(&mut color_table, &red), Ok(0));
    assert_eq!(GifImage::get_color_index(&mut color_table, &green), Ok(1));
    assert_eq!(GifImage::get_color_index(&mut color_table, &red), Ok(0));
    assert_eq!(GifImage::get_color_index(&mut color_table, &blue), Ok(2));
    assert_eq!(GifImage::get_color_index(&mut color_table, &green), Ok(1));
    assert_eq!(GifImage::get_color_index(&mut color_table, &red), Ok(0));
    assert_eq!(color_table, vec![red, green, blue]);

    // frames of one file share the table
    let mut gif = Gif::new(2, 2, None);
    gif.add_image();
    gif.fill(&red).unwrap();
    gif.add_image();
    gif.fill(&green).unwrap();
    gif.add_image();
    gif.fill(&red).unwrap();
    assert_eq!(gif.color_table(), &vec![red, green]);
    assert_eq!(gif.image_count(), 3);
}

#[test]
fn frame_blocks_have_the_layout_of_the_format() {
    let mut img = GifImage::new(0x0102, 0x0304);
    img.add_left(0x0506).add_top(0x0708).add_delay(0x090a);
    assert_eq!(img.get_gce(), vec![0x21, 0xF9, 0x04, 0x00, 0x0a, 0x09, 0x00, 0x00]);
    assert_eq!(
        img.get_image_descriptor(),
        vec![0x2C, 0x06, 0x05, 0x08, 0x07, 0x04, 0x03, 0x02, 0x01, 0x00]
    );
    assert_eq!(img.get_delay(), 0x090a);
    // a frame without delay has no Graphic Control Extension
    let color_table = vec![Pixel::new(0, 0, 0), Pixel::new(1, 1, 1)];
    let mut still = GifImage::new(1, 1);
    assert_eq!(still.as_bytes(&color_table)[0], 0x2C);
    still.add_delay(1);
    let bytes = still.as_bytes(&color_table);
    assert_eq!(&bytes[0..8], &[0x21, 0xF9, 0x04, 0x00, 0x01, 0x00, 0x00, 0x00]);
    assert_eq!(bytes[8], 0x2C);
    assert_eq!(&bytes[18..], &still.get_image_data(&color_table)[..]);
}

#[test]
fn frames_are_compressed_for_the_table_of_the_file() {
    // three colors make a table of four: the Clear code is 4 and a code has three bits
    let mut gif = Gif::new(1, 1, None);
    gif.add_image();
    gif.fill(&Pixel::new(1, 0, 0)).unwrap();
    gif.fill(&Pixel::new(2, 0, 0)).unwrap();
    gif.fill(&Pixel::new(3, 0, 0)).unwrap();
    assert_eq!(gif.get_padded_color_table().len(), 4);
    let bytes = gif.as_bytes();
    // header, screen descriptor, four colors, image descriptor
    let data = &bytes[6 + 7 + 12 + 10..];
    // codes 4 (clear), 2, 5 (end): 001 010 101
    assert_eq!(data, &[0x02, 0x02, 0b01_010_100, 0b0000_0001, 0x00, 0x3B]);
}

#[test]
fn errors_say_what_went_wrong() {
    assert_eq!(DrawError::InvertedInterval.description(), "inverted interval");
    assert_eq!(DrawError::InvalidRegion.description(), "invalid region");
    assert_eq!(
        DrawError::PaletteCapacityExceeded.description(),
        "palette capacity exceeded"
    );
}

#[test]
fn loop_policies_of_the_application_extension() {
    assert_eq!(
        Gif::new(1, 1, None).get_application_extension_block(),
        Vec::<u8>::new()
    );
    let mut expected = vec![0x21, 0xFF, 0x0B];
    expected.extend_from_slice(b"NETSCAPE2.0");
    expected.extend_from_slice(&[0x03, 0x01, 0x00, 0x00, 0x00]);
    assert_eq!(
        Gif::new(1, 1, Some(Loop::Forever)).get_application_extension_block(),
        expected
    );
    expected[16] = 0x34;
    expected[17] = 0x12;
    assert_eq!(
        Gif::new(1, 1, Some(Loop::Repeat(0x1234))).get_application_extension_block(),
        expected
    );
    assert_eq!(expected.len(), 19);
}

#[test]
fn color_table_is_padded_to_a_power_of_two() {
    let mut gif = Gif::new(1, 1, None);
    // without colors the table holds two black entries
    assert_eq!(gif.get_global_color_table_size_bits(), 0);
    assert_eq!(gif.get_global_color_table(), vec![0; 6]);
    assert_eq!(gif.get_logical_screen_descriptor(), vec![1, 0, 1, 0, 0x90, 0, 0]);
    gif.add_image();
    for i in 1..=5u8 {
        gif.fill(&Pixel::new(i, i, i)).unwrap();
    }
    assert_eq!(gif.get_global_color_table_size_bits(), 2);
    let table = gif.get_global_color_table();
    assert_eq!(table.len(), 24);
    assert_eq!(&table[0..15], &[1, 1, 1, 2, 2, 2, 3, 3, 3, 4, 4, 4, 5, 5, 5]);
    assert_eq!(&table[15..], &[0; 9]);
    // the padding is written to the file only
    assert_eq!(gif.color_table().len(), 5);
    assert_eq!(gif.get_logical_screen_descriptor()[4], 0x92);
    for i in 6..=129u8 {
        gif.fill(&Pixel::new(i, i, i)).unwrap();
    }
    assert_eq!(gif.get_global_color_table_size_bits(), 7);
    assert_eq!(gif.get_global_color_table().len(), 768);
}

#[test]
fn the_file_refuses_what_the_frame_refuses() {
    let mut gif = Gif::new(3, 4, None);
    gif.add_image();
    let red = Pixel::new(255, 0, 0);
    assert_eq!(
        gif.draw_rectangle(Position::new(2, 0), Position::new(1, 0), &red).err(),
        Some(DrawError::InvertedInterval)
    );
    assert_eq!(
        gif.draw_rectangle(Position::new(0, 0), Position::new(4, 0), &red).err(),
        Some(DrawError::InvalidRegion)
    );
    // a rectangle that is refused brings no color into the table
    assert_eq!(gif.color_table().len(), 0);
    for i in 0..=255u8 {
        gif.fill(&Pixel::new(0, i, 0)).unwrap();
    }
    assert_eq!(gif.fill(&red).err(), Some(DrawError::PaletteCapacityExceeded));
    assert_eq!(
        gif.draw_rectangle(Position::new(0, 0), Position::new(1, 1), &red).err(),
        Some(DrawError::PaletteCapacityExceeded)
    );
    assert_eq!(gif.color_table().len(), 256);
    assert!(gif
        .draw_rectangle(Position::new(0, 0), Position::new(1, 1), &Pixel::new(0, 7, 0))
        .is_ok());
}

#[test]
fn text_is_painted_on_the_frame_added_last() {
    let mut gif = Gif::new(5, 5, None);
    gif.add_image();
    gif.fill(&Pixel::new(255, 255, 255)).unwrap();
    gif.add_image();
    gif.fill(&Pixel::new(255, 255, 255))
        .unwrap()
        .draw_text("A", FontSize::Default, IPosition::new(0, 0), &Pixel::new(0, 0, 0))
        .unwrap();
    let first = gif.image(0).get_image_data(&gif.get_padded_color_table());
    let second = gif.image(1).get_image_data(&gif.get_padded_color_table());
    assert_ne!(first, second);
    let mut plain = GifImage::new(5, 5);
    let mut table = vec![Pixel::new(255, 255, 255), Pixel::new(0, 0, 0)];
    let mut glyphs = Text::new();
    plain
        .draw_text(
            &mut table,
            "A",
            &mut glyphs,
            FontSize::Default,
            IPosition::new(0, 0),
            &Pixel::new(0, 0, 0),
        )
        .unwrap();
    assert_eq!(plain.get_image_data(&table), second);
}

/// Reads image data as a decoder does that knows nothing but the bytes: the
/// Clear code is two to the power of the minimum code size.
fn read_image_data(data: &[u8]) -> Vec<u8> {
    let code_size = data[0] as u32;
    let mut stream = Vec::new();
    let mut at = 1;
    while data[at] != 0 {
        let len = data[at] as usize;
        stream.extend_from_slice(&data[at + 1..at + 1 + len]);
        at += 1 + len;
    }
    let clear = 1usize << code_size;
    let mut entries: Vec<Vec<u8>> = Vec::new();
    let mut previous: Vec<u8> = Vec::new();
    let mut width = code_size + 1;
    let mut output = Vec::new();
    let mut position = 0usize;
    while position + width as usize <= stream.len() * 8 {
        let mut code = 0usize;
        for i in 0..width as usize {
            let bit = (stream[(position + i) / 8] >> ((position + i) % 8)) & 1;
            code |= (bit as usize) << i;
        }
        position += width as usize;
        if code == clear {
            entries.clear();
            previous.clear();
            width = code_size + 1;
            continue;
        }
        if code == clear + 1 {
            break;
        }
        let sequence = if code < clear {
            vec![code as u8]
        } else if code - clear - 2 < entries.len() {
            entries[code - clear - 2].clone()
        } else {
            assert!(code - clear - 2 == entries.len() && !previous.is_empty());
            let mut sequence = previous.clone();
            sequence.push(previous[0]);
            sequence
        };
        if !previous.is_empty() && clear + 2 + entries.len() < 4096 {
            let mut entry = previous.clone();
            entry.push(sequence[0]);
            entries.push(entry);
        }
        if clear + 2 + entries.len() >= (1 << width) && width < 12 {
            width += 1;
        }
        output.extend_from_slice(&sequence);
        previous = sequence;
    }
    output
}

#[test]
fn frames_of_a_file_are_read_back() {
    for colors in [1usize, 2, 3, 5, 8, 9, 100, 256] {
        let (height, width) = (13u16, 17u16);
        let mut gif = Gif::new(height, width, None);
        gif.add_image();
        let mut expected = vec![0u8; height as usize * width as usize];
        let mut seed = colors as u32;
        for step in 0..colors * 3 {
            seed = seed.wrapping_mul(1664525).wrapping_add(1013904223);
            let index = step % colors;
            let color = Pixel::new(index as u8, (index / 256) as u8, 7);
            let left = (seed >> 8) as usize % width as usize;
            let top = (seed >> 16) as usize % height as usize;
            let right = (left + (seed >> 24) as usize % 6).min(width as usize - 1);
            let bottom = (top + (seed >> 28) as usize % 5).min(height as usize - 1);
            if step < colors {
                gif.fill(&color).unwrap();
                expected.iter_mut().for_each(|pixel| *pixel = index as u8);
            }
            gif.draw_rectangle(Position::new(left, top), Position::new(right, bottom), &color)
                .unwrap();
            for y in top..=bottom {
                for x in left..=right {
                    expected[y * width as usize + x] = index as u8;
                }
            }
        }
        // a frame that was never painted holds index 0
        gif.add_image();
        let table = gif.get_padded_color_table();
        assert!(table.len().is_power_of_two() && table.len() >= colors.max(2));
        let painted = gif.image(0).get_image_data(&table);
        assert_eq!(read_image_data(&painted), expected);
        let blank = gif.image(1).get_image_data(&table);
        assert_eq!(read_image_data(&blank), vec![0u8; expected.len()]);
    }
}
