//! One frame of a GIF file: a canvas of color indexes, its placement and its delay.
use crate::common::text::{FontSize, Text, DEFAULT_FONT_SIZE};
use crate::common::types::{Color, DrawError, IPosition, Position};
use crate::format::gif::decoder::gif_decode;
use crate::format::gif::lzw::{lzw_bytes, lzw_encode, min_code_size};
use crate::format::gif::palette::{
    lemma_palette_insert, palette_insert, palette_wf, COLOR_TABLE_MAX_SIZE,
};
use crate::format::image::{Image, RLE};
use crate::format::runs::{
    coalesce_runs, draw_rows, lemma_run_pixels_len, no_adjacent_equal, paint_rectangle, repeat,
    runs_positive,
};
use crate::format::stamps::{
    draw_text_stamps, lemma_paint_text_stamps_values, paint_text_stamps,
};
use vstd::laws_eq::obeys_concrete_eq;
use vstd::prelude::*;

verus! {

/// The number of bytes of a Graphic Control Extension.
pub const GRAPHICAL_CONTROL_EXTENSION_SIZE: usize = 8;

pub const EXTENSIONS_INTRODUCER: u8 = 0x21;

pub const GRAPHIC_CONTROL_LABEL: u8 = 0xF9;

pub const GCE_BYTE_SIZE: u8 = 0x04;

/// The number of bytes of an Image Descriptor.
pub const IMAGE_DESCRIPTOR_SIZE: usize = 10;

pub const IMAGE_SEPARATOR: u8 = 0x2C;

/// The most bytes that one sub-block of image data holds.
pub const SUB_BLOCK_MAX_SIZE: usize = 255;

/// The two bytes of a 16-bit number, the low byte first.
pub open spec fn le_bytes(value: u16) -> Seq<u8> {
    seq![(value % 256) as u8, (value / 256) as u8]
}

/// The Graphic Control Extension of a frame that is shown for `delay`
/// hundredths of a second: no transparency, no disposal method.
pub open spec fn gce_bytes(delay: u16) -> Seq<u8> {
    seq![EXTENSIONS_INTRODUCER, GRAPHIC_CONTROL_LABEL, GCE_BYTE_SIZE, 0u8] + le_bytes(delay)
        + seq![0u8, 0u8]
}

/// The Image Descriptor of a frame: no local color table, no interlacing.
pub open spec fn image_descriptor_bytes(left: u16, top: u16, width: u16, height: u16) -> Seq<u8> {
    seq![IMAGE_SEPARATOR] + le_bytes(left) + le_bytes(top) + le_bytes(width) + le_bytes(height)
        + seq![0u8]
}

/// `data` cut into sub-blocks: each is a length byte and up to 255 bytes of data.
pub open spec fn sub_blocks(data: Seq<u8>) -> Seq<u8>
    decreases data.len(),
{
    if data.len() == 0 {
        Seq::empty()
    } else if data.len() <= SUB_BLOCK_MAX_SIZE {
        seq![data.len() as u8] + data
    } else {
        seq![SUB_BLOCK_MAX_SIZE as u8] + data.take(SUB_BLOCK_MAX_SIZE as int) + sub_blocks(
            data.skip(SUB_BLOCK_MAX_SIZE as int),
        )
    }
}

/// The image data of a frame: the minimum code size, the compressed stream in
/// sub-blocks, and the empty block that ends it.
pub open spec fn image_data_bytes(code_size: u8, data: Seq<u8>) -> Seq<u8> {
    seq![code_size] + sub_blocks(data) + seq![0u8]
}

/// The data that a sequence of sub-blocks holds, up to the empty block that ends it.
pub open spec fn unblock(bytes: Seq<u8>) -> Seq<u8>
    decreases bytes.len(),
{
    if bytes.len() == 0 || bytes[0] == 0 {
        Seq::empty()
    } else if bytes.len() < 1 + bytes[0] {
        bytes.skip(1)
    } else {
        bytes.subrange(1, 1 + bytes[0]) + unblock(bytes.skip(1 + bytes[0]))
    }
}

/// What was cut into sub-blocks is read back from them, whatever follows the
/// empty block that ends them.
pub proof fn lemma_unblock(data: Seq<u8>, rest: Seq<u8>)
    ensures
        unblock(sub_blocks(data) + seq![0u8] + rest) == data,
    decreases data.len(),
{
    let blocks = sub_blocks(data) + seq![0u8] + rest;
    if data.len() == 0 {
        assert(blocks[0] == 0);
    } else if data.len() <= SUB_BLOCK_MAX_SIZE {
        assert(blocks[0] == data.len());
        assert(blocks.subrange(1, 1 + blocks[0]) == data);
        let tail = blocks.skip(1 + blocks[0]);
        assert(tail == seq![0u8] + rest);
        assert(tail[0] == 0);
        assert(unblock(tail) == Seq::<u8>::empty());
        assert(data + Seq::<u8>::empty() == data);
    } else {
        let first = data.take(SUB_BLOCK_MAX_SIZE as int);
        let later = data.skip(SUB_BLOCK_MAX_SIZE as int);
        lemma_unblock(later, rest);
        assert(blocks[0] == SUB_BLOCK_MAX_SIZE);
        assert(blocks.subrange(1, 1 + blocks[0]) == first);
        assert(blocks.skip(1 + blocks[0]) == sub_blocks(later) + seq![0u8] + rest);
        assert(first + later == data);
    }
}

/// What a reader makes of image data: the symbols that a decoder gets from
/// the stream in the sub-blocks, knowing the minimum code size at their head.
pub open spec fn read_image_data(bytes: Seq<u8>) -> Option<Seq<u8>> {
    gif_decode(bytes[0] as nat, unblock(bytes.skip(1)))
}

pub fn u16_le_bytes(value: u16) -> (bytes: [u8; 2])
    ensures
        bytes@ == le_bytes(value),
{
    let bytes = [(value % 256) as u8, (value / 256) as u8];
    assert(bytes@ == le_bytes(value));
    bytes
}

/// One frame of a file. Its canvas holds indexes into the color table that
/// all frames of the file share, and that is handed to each painting call.
pub struct GifImage {
    /// Image of u8 which represents the indexes of the colors
    image: Image<u8>,
    left: u16,
    top: u16,
    height: u16,
    width: u16,
    delay: u16,
}

impl GifImage {
    /// The canvas of color indexes.
    pub closed spec fn canvas(&self) -> Image<u8> {
        self.image
    }

    pub closed spec fn left(&self) -> u16 {
        self.left
    }

    pub closed spec fn top(&self) -> u16 {
        self.top
    }

    pub closed spec fn height(&self) -> u16 {
        self.height
    }

    pub closed spec fn width(&self) -> u16 {
        self.width
    }

    /// The time for which the frame is shown, in hundredths of a second.
    pub closed spec fn delay(&self) -> u16 {
        self.delay
    }

    /// The canvas is valid and has the frame's size.
    pub open spec fn wf(&self) -> bool {
        &&& self.canvas().wf()
        &&& self.canvas().height == self.height()
        &&& self.canvas().width == self.width()
    }

    /// Every pixel is an index below `num_colors`.
    pub open spec fn indexes_below(&self, num_colors: int) -> bool {
        forall|i: int| 0 <= i < self.canvas()@.len() ==> (#[trigger] self.canvas()@[i]) < num_colors
    }

    /// No pixel differs from the pixel of `was` but those that are `value`.
    pub open spec fn repainted(&self, was: &GifImage, value: u8) -> bool {
        &&& self.canvas()@.len() == was.canvas()@.len()
        &&& forall|i: int|
            0 <= i < self.canvas()@.len() ==> (#[trigger] self.canvas()@[i]) == value
                || self.canvas()@[i] == was.canvas()@[i]
    }

    /// The frame with another canvas, and everything else as it is.
    pub open spec fn same_placement(&self, other: &GifImage) -> bool {
        &&& self.left() == other.left()
        &&& self.top() == other.top()
        &&& self.height() == other.height()
        &&& self.width() == other.width()
        &&& self.delay() == other.delay()
    }

    /// The bytes of the frame in a file whose color table holds `num_colors`
    /// colors: a Graphic Control Extension where the frame has a delay, the
    /// Image Descriptor, and the image data.
    pub open spec fn spec_bytes(&self, num_colors: int) -> Seq<u8> {
        (if self.delay() != 0 {
            gce_bytes(self.delay())
        } else {
            Seq::empty()
        }) + image_descriptor_bytes(self.left(), self.top(), self.width(), self.height())
            + image_data_bytes(
            min_code_size(num_colors) as u8,
            lzw_bytes(self.canvas()@, num_colors),
        )
    }

    /// A frame at the top left corner, without delay, every pixel of index 0.
    pub fn new(height: u16, width: u16) -> (frame: Self)
        ensures
            frame.wf(),
            frame.height() == height,
            frame.width() == width,
            frame.left() == 0,
            frame.top() == 0,
            frame.delay() == 0,
            frame.canvas().pixels_indexes@ == seq![
                RLE { freq: (height * width) as usize, value: 0u8 },
            ],
            frame.canvas()@ == repeat(height * width, 0u8),
    {
        proof {
            assert(height * width <= 0xffff * 0xffff) by (nonlinear_arith)
                requires
                    height <= 0xffff,
                    width <= 0xffff,
            ;
        }
        GifImage {
            image: Image::new(height as usize, width as usize, 0),
            left: 0,
            top: 0,
            height,
            width,
            delay: 0,
        }
    }

    /// add left beginning of image
    pub fn add_left(&mut self, position: u16) -> (frame: &mut GifImage)
        ensures
            frame.left() == position,
            frame.top() == old(self).top(),
            frame.height() == old(self).height(),
            frame.width() == old(self).width(),
            frame.delay() == old(self).delay(),
            frame.canvas() == old(self).canvas(),
            *final(self) == *final(frame),
    {
        self.left = position;
        self
    }

    /// add top beginning of image
    pub fn add_top(&mut self, position: u16) -> (frame: &mut GifImage)
        ensures
            frame.top() == position,
            frame.left() == old(self).left(),
            frame.height() == old(self).height(),
            frame.width() == old(self).width(),
            frame.delay() == old(self).delay(),
            frame.canvas() == old(self).canvas(),
            *final(self) == *final(frame),
    {
        self.top = position;
        self
    }

    /// add delay in centiseconds. Ex: delay = 10 = 0.1s
    pub fn add_delay(&mut self, delay: u16) -> (frame: &mut GifImage)
        ensures
            frame.delay() == delay,
            frame.left() == old(self).left(),
            frame.top() == old(self).top(),
            frame.height() == old(self).height(),
            frame.width() == old(self).width(),
            frame.canvas() == old(self).canvas(),
            *final(self) == *final(frame),
    {
        self.delay = delay;
        self
    }

    /// The time for which the frame is shown, in hundredths of a second.
    pub fn get_delay(&self) -> (delay: u16)
        ensures
            delay == self.delay(),
    {
        self.delay
    }

    /// Finds the index of `color` in the color table, and gives the color the
    /// next index where the table does not hold it yet. A table that is full
    /// takes no new color and stays as it is.
    pub fn get_color_index(color_table: &mut Vec<Color>, color: &Color) -> (res: Result<
        usize,
        DrawError,
    >)
        requires
            palette_wf(old(color_table)@),
        ensures
            palette_wf(final(color_table)@),
            final(color_table)@ == palette_insert(old(color_table)@, *color),
            res is Err <==> !old(color_table)@.contains(*color) && old(color_table)@.len()
                >= COLOR_TABLE_MAX_SIZE,
            res is Err ==> res->Err_0 == DrawError::PaletteCapacityExceeded,
            res matches Ok(index) ==> {
                &&& index < final(color_table)@.len()
                &&& final(color_table)@.contains(*color)
                &&& final(color_table)@[index as int] == *color
                &&& index == final(color_table)@.index_of(*color)
                &&& old(color_table)@.contains(*color) ==> index == old(color_table)@.index_of(
                    *color,
                )
                &&& !old(color_table)@.contains(*color) ==> index == old(color_table)@.len()
            },
    {
        let ghost colors = color_table@;
        proof {
            lemma_palette_insert(colors, *color);
        }
        let total: usize = color_table.len();
        let mut i: usize = 0;
        while i < total
            invariant
                colors == color_table@,
                colors == old(color_table)@,
                palette_wf(colors),
                total == colors.len(),
                i <= total,
                forall|k: int| 0 <= k < i ==> colors[k] != *color,
            decreases total - i,
        {
            if color_table[i] == *color {
                proof {
                    assert(colors[i as int] == *color);
                    assert(colors.contains(*color));
                    assert(colors[colors.index_of(*color)] == *color);
                    assert(palette_insert(colors, *color) == colors);
                }
                return Ok(i);
            }
            i = i + 1;
        }
        proof {
            assert(!colors.contains(*color));
        }
        if total >= COLOR_TABLE_MAX_SIZE {
            return Err(DrawError::PaletteCapacityExceeded);
        }
        color_table.push(*color);
        proof {
            let after = color_table@;
            assert(after[total as int] == *color);
            assert(after.contains(*color));
            assert(after[after.index_of(*color)] == *color);
        }
        Ok(total)
    }

    /// Gives every pixel of the frame the color `color`.
    pub fn fill(&mut self, color_table: &mut Vec<Color>, color: &Color) -> (res: Result<
        &mut Self,
        DrawError,
    >)
        requires
            old(self).wf(),
            palette_wf(old(color_table)@),
        ensures
            palette_wf(final(color_table)@),
            final(color_table)@ == palette_insert(old(color_table)@, *color),
            res is Err <==> !old(color_table)@.contains(*color) && old(color_table)@.len()
                >= COLOR_TABLE_MAX_SIZE,
            res is Err ==> res->Err_0 == DrawError::PaletteCapacityExceeded && *final(self) == *old(
                self,
            ),
            res matches Ok(frame) ==> {
                let index = final(color_table)@.index_of(*color) as u8;
                &&& *final(self) == *final(frame)
                &&& frame.wf()
                &&& frame.same_placement(old(self))
                &&& frame.repainted(old(self), index)
                &&& final(color_table)@.contains(*color)
                &&& final(color_table)@[index as int] == *color
                &&& frame.canvas().pixels_indexes@ == seq![
                    RLE { freq: old(self).canvas().area() as usize, value: index },
                ]
                &&& frame.canvas()@ == repeat(old(self).canvas().area(), index)
                &&& frame.indexes_below(final(color_table)@.len() as int)
            },
    {
        let color_index: u8 = match Self::get_color_index(color_table, color) {
            Ok(index) => index as u8,
            Err(error) => {
                return Err(error);
            },
        };
        proof {
            lemma_run_pixels_len(self.image.pixels_indexes@);
        }
        let _ = self.image.fill(color_index);
        Ok(self)
    }

    /// Gives every pixel of the rectangle from `top_left` to `bottom_right`,
    /// both corners included, the color `color`.
    ///
    /// A rectangle that is inverted or reaches outside the frame is refused,
    /// and so is a new color where the table is full; the frame and the table
    /// then stay as they were.
    pub fn draw_rectangle(
        &mut self,
        color_table: &mut Vec<Color>,
        top_left: Position,
        bottom_right: Position,
        color: &Color,
    ) -> (res: Result<&mut Self, DrawError>)
        requires
            old(self).wf(),
            palette_wf(old(color_table)@),
        ensures
            palette_wf(final(color_table)@),
            res is Err ==> *final(self) == *old(self) && final(color_table)@ == old(color_table)@,
            (bottom_right.x < top_left.x || bottom_right.y < top_left.y) ==> res is Err
                && res->Err_0 == DrawError::InvertedInterval,
            top_left.x <= bottom_right.x && top_left.y <= bottom_right.y && (bottom_right.x
                >= old(self).width() || bottom_right.y >= old(self).height()) ==> res is Err
                && res->Err_0 == DrawError::InvalidRegion,
            top_left.x <= bottom_right.x < old(self).width() && top_left.y <= bottom_right.y < old(
                self,
            ).height() ==> (res is Err <==> !old(color_table)@.contains(*color) && old(
                color_table,
            )@.len() >= COLOR_TABLE_MAX_SIZE),
            top_left.x <= bottom_right.x < old(self).width() && top_left.y <= bottom_right.y < old(
                self,
            ).height() && res is Err ==> res->Err_0 == DrawError::PaletteCapacityExceeded,
            res matches Ok(frame) ==> {
                let index = final(color_table)@.index_of(*color) as u8;
                &&& *final(self) == *final(frame)
                &&& frame.wf()
                &&& frame.same_placement(old(self))
                &&& frame.repainted(old(self), index)
                &&& final(color_table)@ == palette_insert(old(color_table)@, *color)
                &&& final(color_table)@.contains(*color)
                &&& final(color_table)@[index as int] == *color
                &&& frame.canvas().pixels_indexes@ == draw_rows(
                    old(self).canvas().pixels_indexes@,
                    old(self).width() as int,
                    top_left.x as int,
                    bottom_right.x as int,
                    top_left.y as int,
                    bottom_right.y - top_left.y + 1,
                    index,
                )
                &&& frame.canvas()@ == paint_rectangle(
                    old(self).canvas()@,
                    old(self).width() as int,
                    top_left.x as int,
                    bottom_right.x as int,
                    top_left.y as int,
                    bottom_right.y as int,
                    index,
                )
                &&& old(self).indexes_below(old(color_table)@.len() as int)
                    ==> frame.indexes_below(final(color_table)@.len() as int)
                &&& runs_positive(old(self).canvas().pixels_indexes@) ==> runs_positive(
                    frame.canvas().pixels_indexes@,
                )
            },
    {
        if bottom_right.x < top_left.x || bottom_right.y < top_left.y {
            return Err(DrawError::InvertedInterval);
        }
        if bottom_right.x >= self.image.width || bottom_right.y >= self.image.height {
            return Err(DrawError::InvalidRegion);
        }
        let ghost colors = color_table@;
        proof {
            lemma_palette_insert(colors, *color);
        }
        let color_index: u8 = match Self::get_color_index(color_table, color) {
            Ok(index) => index as u8,
            Err(error) => {
                return Err(error);
            },
        };
        let _ = self.image.draw_rectangle(top_left, bottom_right, color_index);
        Ok(self)
    }

    /// Paints `letter` in the color `color` from `top_left` to the right; what
    /// lies beside the frame is passed over.
    ///
    /// A new color is refused where the table is full; the frame and the
    /// table then stay as they were.
    pub fn draw_text(
        &mut self,
        color_table: &mut Vec<Color>,
        letter: &str,
        glyphs: &mut Text,
        font_size: FontSize,
        top_left: IPosition,
        color: &Color,
    ) -> (res: Result<&mut Self, DrawError>)
        requires
            old(self).wf(),
            palette_wf(old(color_table)@),
            old(glyphs).wf(),
            font_size.spec_value() >= DEFAULT_FONT_SIZE,
        ensures
            palette_wf(final(color_table)@),
            final(glyphs).wf(),
            final(color_table)@ == palette_insert(old(color_table)@, *color),
            res is Err <==> !old(color_table)@.contains(*color) && old(color_table)@.len()
                >= COLOR_TABLE_MAX_SIZE,
            res is Err ==> res->Err_0 == DrawError::PaletteCapacityExceeded && *final(self) == *old(
                self,
            ),
            res matches Ok(frame) ==> {
                let index = final(color_table)@.index_of(*color) as u8;
                &&& *final(self) == *final(frame)
                &&& frame.wf()
                &&& frame.same_placement(old(self))
                &&& frame.repainted(old(self), index)
                &&& final(color_table)@.contains(*color)
                &&& final(color_table)@[index as int] == *color
                &&& frame.canvas().pixels_indexes@ == coalesce_runs(
                    draw_text_stamps(
                        old(self).canvas().pixels_indexes@,
                        old(self).width() as int,
                        old(self).height() as int,
                        letter@,
                        font_size.spec_value() as int,
                        top_left.x as int,
                        top_left.y as int,
                        index,
                        letter@.len() as int,
                    ),
                )
                &&& frame.canvas()@ == paint_text_stamps(
                    old(self).canvas()@,
                    old(self).width() as int,
                    letter@,
                    font_size.spec_value() as int,
                    top_left.x as int,
                    top_left.y as int,
                    index,
                    letter@.len() as int,
                )
                &&& no_adjacent_equal(frame.canvas().pixels_indexes@)
            },
    {
        let color_index: u8 = match Self::get_color_index(color_table, color) {
            Ok(index) => index as u8,
            Err(error) => {
                return Err(error);
            },
        };
        proof {
            reveal(obeys_concrete_eq);
            assert(obeys_concrete_eq::<u8>());
        }
        proof {
            lemma_paint_text_stamps_values(
                self.image@,
                self.image.width as int,
                letter@,
                font_size.spec_value() as int,
                top_left.x as int,
                top_left.y as int,
                color_index,
                letter@.len() as int,
            );
        }
        let _ = self.image.draw_text(letter, glyphs, font_size, top_left, color_index);
        Ok(self)
    }

    /** Converting the image to bytes **/
    pub fn as_bytes(&self, color_table: &Vec<Color>) -> (bytes: Vec<u8>)
        requires
            color_table@.len() <= COLOR_TABLE_MAX_SIZE,
        ensures
            bytes@ == self.spec_bytes(color_table@.len() as int),
    {
        let img_descriptor = self.get_image_descriptor();
        let img_data = self.get_image_data(color_table);
        let mut bytes: Vec<u8> = Vec::new();
        if self.delay != 0 {
            let gce = self.get_gce();
            append_bytes(&mut bytes, &gce);
        }
        append_bytes(&mut bytes, &img_descriptor);
        append_bytes(&mut bytes, &img_data);
        bytes
    }

    // Graphic Control Extension
    pub fn get_gce(&self) -> (bytes: Vec<u8>)
        ensures
            bytes@ == gce_bytes(self.delay()),
    {
        let delay_bytes = u16_le_bytes(self.delay);
        let mut bytes: Vec<u8> = Vec::new();
        bytes.push(EXTENSIONS_INTRODUCER);
        bytes.push(GRAPHIC_CONTROL_LABEL);
        bytes.push(GCE_BYTE_SIZE);
        // Packed field
        bytes.push(0);
        // adding delay bytes
        bytes.push(delay_bytes[0]);
        bytes.push(delay_bytes[1]);
        // Transparent color index and block terminator
        bytes.push(0);
        bytes.push(0);
        assert(bytes@ == gce_bytes(self.delay()));
        bytes
    }

    pub fn get_image_descriptor(&self) -> (bytes: Vec<u8>)
        ensures
            bytes@ == image_descriptor_bytes(self.left(), self.top(), self.width(), self.height()),
    {
        let left = u16_le_bytes(self.left);
        let top = u16_le_bytes(self.top);
        let width = u16_le_bytes(self.width);
        let height = u16_le_bytes(self.height);
        let mut img_desc: Vec<u8> = Vec::new();
        img_desc.push(IMAGE_SEPARATOR);
        img_desc.push(left[0]);
        img_desc.push(left[1]);
        img_desc.push(top[0]);
        img_desc.push(top[1]);
        img_desc.push(width[0]);
        img_desc.push(width[1]);
        img_desc.push(height[0]);
        img_desc.push(height[1]);
        // packed field
        img_desc.push(0);
        assert(img_desc@ == image_descriptor_bytes(
            self.left(),
            self.top(),
            self.width(),
            self.height(),
        ));
        img_desc
    }

    pub fn get_image_data(&self, color_table: &Vec<Color>) -> (bytes: Vec<u8>)
        requires
            color_table@.len() <= COLOR_TABLE_MAX_SIZE,
        ensures
            bytes@ == image_data_bytes(
                min_code_size(color_table@.len() as int) as u8,
                lzw_bytes(self.canvas()@, color_table@.len() as int),
            ),
    {
        let (lzw_min_code_size, encoded) = self.encode_to_lzw(color_table);
        frame_image_data(lzw_min_code_size, &encoded)
    }

    /// Encode input to lzw and variable length code
    pub fn encode_to_lzw(&self, color_table: &Vec<Color>) -> (encoded: (u8, Vec<u8>))
        requires
            color_table@.len() <= COLOR_TABLE_MAX_SIZE,
        ensures
            encoded.0 == min_code_size(color_table@.len() as int),
            encoded.1@ == lzw_bytes(self.canvas()@, color_table@.len() as int),
    {
        lzw_encode(&self.image.pixels_indexes, color_table.len())
    }
}

/// Appends `bytes` to `out`.
pub fn append_bytes(out: &mut Vec<u8>, bytes: &Vec<u8>)
    ensures
        final(out)@ == old(out)@ + bytes@,
{
    let total: usize = bytes.len();
    let mut i: usize = 0;
    while i < total
        invariant
            total == bytes@.len(),
            i <= total,
            out@ == old(out)@ + bytes@.take(i as int),
        decreases total - i,
    {
        out.push(bytes[i]);
        proof {
            assert(bytes@.take(i + 1) == bytes@.take(i as int).push(bytes@[i as int]));
        }
        i = i + 1;
    }
    proof {
        assert(bytes@.take(total as int) == bytes@);
    }
}

/// Frames a compressed stream as image data: the minimum code size, the
/// stream in sub-blocks of at most 255 bytes, and the block terminator.
pub fn frame_image_data(code_size: u8, encoded: &Vec<u8>) -> (bytes: Vec<u8>)
    ensures
        bytes@ == image_data_bytes(code_size, encoded@),
{
    let size_of_encoded: usize = encoded.len();
    let mut img_data: Vec<u8> = Vec::new();
    img_data.push(code_size);
    let mut done: usize = 0;
    proof {
        assert(encoded@.skip(0) == encoded@);
    }
    while done < size_of_encoded
        invariant
            size_of_encoded == encoded@.len(),
            done <= size_of_encoded,
            img_data@ + sub_blocks(encoded@.skip(done as int)) == seq![code_size] + sub_blocks(
                encoded@,
            ),
        decreases size_of_encoded - done,
    {
        let remaining: usize = size_of_encoded - done;
        let block: usize = if remaining > SUB_BLOCK_MAX_SIZE {
            SUB_BLOCK_MAX_SIZE
        } else {
            remaining
        };
        let ghost rest = encoded@.skip(done as int);
        let ghost before = img_data@;
        // Adding block size
        img_data.push(block as u8);
        let mut i: usize = 0;
        while i < block
            invariant
                size_of_encoded == encoded@.len(),
                done + block <= size_of_encoded,
                block <= SUB_BLOCK_MAX_SIZE,
                i <= block,
                rest == encoded@.skip(done as int),
                img_data@ == before.push(block as u8) + rest.take(i as int),
            decreases block - i,
        {
            img_data.push(encoded[done + i]);
            proof {
                assert(rest.take(i + 1) == rest.take(i as int).push(rest[i as int]));
            }
            i = i + 1;
        }
        proof {
            assert(rest.skip(block as int) == encoded@.skip(done + block));
            if remaining <= SUB_BLOCK_MAX_SIZE {
                assert(rest.take(block as int) == rest);
                assert(sub_blocks(rest.skip(block as int)) == Seq::<u8>::empty());
                assert(sub_blocks(rest) == seq![block as u8] + rest);
            } else {
                assert(sub_blocks(rest) == seq![block as u8] + rest.take(block as int)
                    + sub_blocks(rest.skip(block as int)));
            }
            assert(img_data@ + sub_blocks(rest.skip(block as int)) == before + sub_blocks(rest));
        }
        done = done + block;
    }
    proof {
        assert(encoded@.skip(size_of_encoded as int) == Seq::<u8>::empty());
        assert(img_data@ + Seq::<u8>::empty() == img_data@);
    }
    // Pushing the block terminator
    img_data.push(0);
    img_data
}

} // verus!
