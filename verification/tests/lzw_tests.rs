use gif_encoder::format::gif::bits::BitCoder;
use gif_encoder::format::gif::gif_image::frame_image_data;
use gif_encoder::format::gif::lzw::lzw_encode;
use gif_encoder::format::image::RLE;

/// A decoder of the usual kind: it knows the Clear code and the width of the
/// first code, learns one entry for each code but the first after a Clear
/// code, and stops at the End-of-Information code or at the end of the data.
fn decode(bytes: &[u8], clear: usize, first_width: u32) -> Option<Vec<u8>> {
    let mut entries: Vec<Vec<u8>> = Vec::new();
    let mut previous: Vec<u8> = Vec::new();
    let mut width = first_width;
    let mut output = Vec::new();
    let mut position = 0usize;
    loop {
        if position + width as usize > bytes.len() * 8 {
            return Some(output);
        }
        let mut code = 0usize;
        for i in 0..width as usize {
            let bit = (bytes[(position + i) / 8] >> ((position + i) % 8)) & 1;
            code |= (bit as usize) << i;
        }
        position += width as usize;
        if code == clear {
            entries.clear();
            previous.clear();
            width = first_width;
            continue;
        }
        if code == clear + 1 {
            return Some(output);
        }
        let sequence = if code < clear {
            vec![code as u8]
        } else if code - clear - 2 < entries.len() {
            entries[code - clear - 2].clone()
        } else if code - clear - 2 == entries.len() && !previous.is_empty() {
            let mut sequence = previous.clone();
            sequence.push(previous[0]);
            sequence
        } else {
            return None;
        };
        if !previous.is_empty() && clear + 2 + entries.len() < 4096 {
            let mut entry = previous.clone();
            entry.push(sequence[0]);
            entries.push(entry);
        }
        if clear + 2 + entries.len() >= (1 << width) && width < 12 {
            width += 1;
        }
        output.extend_from_slice(&sequence);
        previous = sequence;
    }
}

fn min_code_size(num_colors: usize) -> u8 {
    let mut b = 0u8;
    while (1usize << (b + 1)) < num_colors + 2 {
        b += 1;
    }
    b
}

fn pixels(runs: &[RLE<u8>]) -> Vec<u8> {
    let mut out = Vec::new();
    for run in runs {
        for _ in 0..run.freq {
            out.push(run.value);
        }
    }
    out
}

fn round_trip(runs: Vec<RLE<u8>>, num_colors: usize) {
    let (code_size, bytes) = lzw_encode(&runs, num_colors);
    assert_eq!(code_size, min_code_size(num_colors));
    let decoded = decode(&bytes, num_colors, code_size as u32 + 1);
    assert_eq!(decoded, Some(pixels(&runs)));
}

#[test]
fn round_trip_of_a_single_run() {
    round_trip(vec![RLE::new(100, 0)], 4);
    round_trip(vec![RLE::new(1, 3)], 4);
    round_trip(vec![RLE::new(5000, 1)], 2);
}

#[test]
fn round_trip_of_alternating_short_runs() {
    let mut runs = Vec::new();
    for i in 0..300usize {
        runs.push(RLE::new(1 + i % 3, (i % 2) as u8));
    }
    round_trip(runs, 2);
    let mut runs = Vec::new();
    for i in 0..500usize {
        runs.push(RLE::new(1, (i % 3) as u8));
    }
    round_trip(runs, 3);
}

#[test]
fn round_trip_of_nothing_and_of_empty_runs() {
    round_trip(vec![], 4);
    round_trip(vec![RLE::new(0, 1)], 4);
    round_trip(vec![RLE::new(0, 1), RLE::new(2, 3), RLE::new(0, 0), RLE::new(1, 2)], 4);
    round_trip(vec![], 0);
}

#[test]
fn round_trip_for_every_palette_size_up_to_sixteen() {
    for num_colors in 1..=16usize {
        let mut runs = Vec::new();
        let mut seed = 12345u32;
        for _ in 0..400 {
            seed = seed.wrapping_mul(1664525).wrapping_add(1013904223);
            let value = ((seed >> 16) as usize % num_colors) as u8;
            let freq = 1 + (seed >> 28) as usize % 4;
            runs.push(RLE::new(freq, value));
        }
        round_trip(runs, num_colors);
    }
}

#[test]
fn round_trip_across_a_full_dictionary() {
    // enough symbols without pattern to fill the dictionary more than once
    let mut runs = Vec::new();
    let mut seed = 7u32;
    for _ in 0..30000 {
        seed = seed.wrapping_mul(1664525).wrapping_add(1013904223);
        runs.push(RLE::new(1, (seed >> 24) as u8));
    }
    let (code_size, bytes) = lzw_encode(&runs, 256);
    assert_eq!(code_size, 8);
    // the Clear code is written again when the dictionary is full
    assert_eq!(decode(&bytes, 256, 9), Some(pixels(&runs)));
    round_trip(runs, 256);
}

#[test]
fn whole_bytes_are_not_followed_by_padding() {
    // four colors: codes of three bits; Clear, 1, End make nine bits
    let (code_size, bytes) = lzw_encode(&vec![RLE::new(1, 1)], 4);
    assert_eq!(code_size, 2);
    assert_eq!(bytes, vec![0b01_001_100, 0b0000_0001]);
    // two colors: codes of two bits; Clear, 1, 1, End: the second code makes the width three
    let (code_size, bytes) = lzw_encode(&vec![RLE::new(1, 1), RLE::new(1, 1)], 2);
    assert_eq!(code_size, 1);
    // 10, 01, then 001 and 011 at three bits: ten bits
    assert_eq!(bytes, vec![0b01_001_01_10, 0b0000_0001]);
}

#[test]
fn bit_coder_packs_the_least_significant_bit_first() {
    let mut coder = BitCoder::new();
    coder.write_code(0b101, 3);
    coder.write_code(0b11111, 5);
    // a byte that is full is moved to the buffer at once
    assert_eq!(coder.buffer, vec![0b1111_1101]);
    assert_eq!(coder.bit_pos, 0);
    // nothing is pending, so nothing is flushed
    coder.flush();
    assert_eq!(coder.buffer, vec![0b1111_1101]);
    coder.write_code(0x1ff, 9);
    assert_eq!(coder.buffer, vec![0b1111_1101, 0xff]);
    assert_eq!(coder.bit_pos, 1);
    assert_eq!(coder.curr_byte, 1);
    coder.flush();
    // the last byte is padded with zeros at its high end
    assert_eq!(coder.buffer, vec![0b1111_1101, 0xff, 0b0000_0001]);
    // only the lowest bits of a code are written
    let mut coder = BitCoder::new();
    coder.write_code(0xff, 4);
    coder.flush();
    assert_eq!(coder.buffer, vec![0x0f]);
    // a width beyond the code's size writes zeros
    let mut coder = BitCoder::new();
    coder.write_code(1, 70);
    coder.flush();
    assert_eq!(coder.buffer, vec![1, 0, 0, 0, 0, 0, 0, 0, 0]);
}

#[test]
fn image_data_is_cut_into_sub_blocks() {
    assert_eq!(frame_image_data(2, &vec![]), vec![2, 0]);
    assert_eq!(frame_image_data(2, &vec![9, 8]), vec![2, 2, 9, 8, 0]);
    let data: Vec<u8> = (0..=255u8).cycle().take(600).collect();
    let framed = frame_image_data(8, &data);
    assert_eq!(framed.len(), 1 + 600 + 3 + 1);
    assert_eq!(framed[0], 8);
    assert_eq!(framed[1], 255);
    assert_eq!(&framed[2..257], &data[0..255]);
    assert_eq!(framed[257], 255);
    assert_eq!(&framed[258..513], &data[255..510]);
    assert_eq!(framed[513], 90);
    assert_eq!(&framed[514..604], &data[510..600]);
    assert_eq!(framed[604], 0);
    // a stream of exactly 255 bytes is one block
    let data: Vec<u8> = vec![7; 255];
    let framed = frame_image_data(3, &data);
    assert_eq!(framed.len(), 1 + 1 + 255 + 1);
    assert_eq!(framed[1], 255);
    assert_eq!(framed[257], 0);
}
