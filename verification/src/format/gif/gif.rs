//! The GIF file: screen size, shared color table, loop policy and frames.
use crate::common::text::{FontSize, Text, DEFAULT_FONT_SIZE};
use crate::common::types::{Color, DrawError, IPosition, Pixel, Position};
use crate::format::gif::decoder::lemma_gif_round_trip;
use crate::format::gif::gif_image::{
    append_bytes, image_data_bytes, le_bytes, lemma_unblock, read_image_data, sub_blocks,
    u16_le_bytes, GifImage,
};
use crate::format::gif::lzw::{lemma_min_code_size, lzw_bytes, min_code_size, smallest_exponent};
use crate::format::gif::palette::{
    lemma_palette_insert, palette_insert, palette_wf, COLOR_TABLE_MAX_SIZE,
};
use crate::format::image::{ImageFormat, RLE};
use crate::format::runs::{coalesce_runs, draw_rows, paint_rectangle, repeat};
use crate::format::stamps::{draw_text_stamps, paint_text_stamps};
use vstd::arithmetic::power2::{lemma2_to64, lemma_pow2_unfold, pow2};
use vstd::prelude::*;

verus! {

pub const TRAILER_MARKER: u8 = 0x3B;

/// Where the loop count stands in the Application Extension.
pub const LOOP_COUNT_STARTING_INDEX: usize = 16;

/// How often the animation is played again.
#[derive(Clone, Copy, Debug, PartialEq, Eq)]
pub enum Loop {
    Forever,
    Repeat(u16),
}

/// The signature `GIF` and the version `89a`.
pub open spec fn header_bytes() -> Seq<u8> {
    seq![0x47u8, 0x49u8, 0x46u8, 0x38u8, 0x39u8, 0x61u8]
}

/// The smallest exponent `b` from `from` to 7 with `2^(b+1) >= len`, or 7.
pub open spec fn table_exponent(len: int, from: nat) -> nat
    decreases 7 - from,
{
    if from >= 7 || pow2(from + 1) >= len {
        from
    } else {
        table_exponent(len, from + 1)
    }
}

/// The size exponent of a color table of `len` colors: the table that the
/// file holds has `2^(b+1)` entries, at least two and at most 256.
pub open spec fn color_table_size_bits(len: int) -> nat {
    table_exponent(len, 0)
}

/// The Logical Screen Descriptor: the screen size, a packed byte that
/// announces the global color table and its size, background color index 0
/// and no pixel aspect ratio.
pub open spec fn screen_descriptor_bytes(width: u16, height: u16, num_colors: int) -> Seq<u8> {
    le_bytes(width) + le_bytes(height) + seq![
        0x90u8 | (color_table_size_bits(num_colors) as u8),
        0u8,
        0u8,
    ]
}

/// The three bytes of each color, one color after the other.
pub open spec fn colors_bytes(colors: Seq<Color>) -> Seq<u8>
    decreases colors.len(),
{
    if colors.len() == 0 {
        Seq::empty()
    } else {
        colors_bytes(colors.drop_last()) + colors.last().spec_bytes()
    }
}

/// The number of entries of the table that the file holds for `len` colors: `2^(b+1)`.
pub open spec fn table_entries(len: int) -> int {
    pow2(color_table_size_bits(len) + 1) as int
}

/// The colors of the table as the file holds it: filled up with black to `2^(b+1)` entries.
pub open spec fn padded_colors(colors: Seq<Color>) -> Seq<Color> {
    colors + repeat(
        table_entries(colors.len() as int) - colors.len(),
        Pixel { r: 0, g: 0, b: 0 },
    )
}

/// The Application Extension that makes the animation loop; nothing where no
/// loop policy is set. `Forever` leaves the loop count at zero.
pub open spec fn application_extension_bytes(num_loop: Option<Loop>) -> Seq<u8> {
    match num_loop {
        None => Seq::empty(),
        Some(policy) => seq![
            0x21u8,
            0xFFu8,
            0x0Bu8,
            0x4Eu8,
            0x45u8,
            0x54u8,
            0x53u8,
            0x43u8,
            0x41u8,
            0x50u8,
            0x45u8,
            0x32u8,
            0x2Eu8,
            0x30u8,
            0x03u8,
            0x01u8,
        ] + (match policy {
            Loop::Forever => seq![0u8, 0u8],
            Loop::Repeat(n) => le_bytes(n),
        }) + seq![0u8],
    }
}

/// The bytes of the frames, one frame after the other.
pub open spec fn frames_bytes(frames: Seq<GifImage>, num_colors: int) -> Seq<u8>
    decreases frames.len(),
{
    if frames.len() == 0 {
        Seq::empty()
    } else {
        frames_bytes(frames.drop_last(), num_colors) + frames.last().spec_bytes(num_colors)
    }
}

/// Where the search for the size exponent ends.
pub proof fn lemma_color_table_size_bits(len: int)
    ensures
        color_table_size_bits(len) <= 7,
        len <= 256 ==> pow2(color_table_size_bits(len) + 1) >= len,
        color_table_size_bits(len) > 0 ==> pow2(color_table_size_bits(len)) < len,
        2 <= pow2(color_table_size_bits(len) + 1) <= 256,
{
    lemma2_to64();
    reveal_with_fuel(table_exponent, 9);
}

/// The table that the file holds has room for the colors, and grows with their number.
pub proof fn lemma_table_entries(fewer: int, len: int)
    requires
        0 <= fewer <= len <= COLOR_TABLE_MAX_SIZE,
    ensures
        len <= table_entries(len) <= COLOR_TABLE_MAX_SIZE,
        2 <= table_entries(fewer) <= table_entries(len),
        table_entries(len) == pow2(min_code_size(table_entries(len))),
{
    lemma2_to64();
    reveal_with_fuel(table_exponent, 9);
    reveal_with_fuel(smallest_exponent, 10);
}

/// A GIF file in the making.
pub struct Gif {
    height: u16,
    width: u16,
    global_color_table: Vec<Color>,
    num_loop: Option<Loop>,
    images: Vec<GifImage>,
    glyphs: Text,
}

impl Gif {
    pub closed spec fn height(&self) -> u16 {
        self.height
    }

    pub closed spec fn width(&self) -> u16 {
        self.width
    }

    /// The colors painted so far, each at its index.
    pub closed spec fn palette(&self) -> Seq<Color> {
        self.global_color_table@
    }

    pub closed spec fn loop_policy(&self) -> Option<Loop> {
        self.num_loop
    }

    /// The frames in the order in which they were added.
    pub closed spec fn frames(&self) -> Seq<GifImage> {
        self.images@
    }

    /// The glyphs that were made for the texts drawn so far.
    pub closed spec fn glyph_cache(&self) -> Text {
        self.glyphs
    }

    /// The color table is valid and so are the glyphs and every frame, and
    /// every pixel of every frame is an index into the table that the file holds.
    pub open spec fn wf(&self) -> bool {
        &&& palette_wf(self.palette())
        &&& self.glyph_cache().wf()
        &&& forall|i: int| 0 <= i < self.frames().len() ==> (#[trigger] self.frames()[i]).wf()
        &&& forall|i: int|
            0 <= i < self.frames().len() ==> (#[trigger] self.frames()[i]).indexes_below(
                table_entries(self.palette().len() as int),
            )
    }

    /// The same screen, colors, loop policy and frames as `other`.
    pub open spec fn same_as(&self, other: &Gif) -> bool {
        &&& self.height() == other.height()
        &&& self.width() == other.width()
        &&& self.loop_policy() == other.loop_policy()
        &&& self.palette() == other.palette()
        &&& self.frames() == other.frames()
    }

    /// Nothing but the color table and frame `index` differs from `other`.
    pub open spec fn same_but_frame(&self, other: &Gif, index: int) -> bool {
        &&& self.height() == other.height()
        &&& self.width() == other.width()
        &&& self.loop_policy() == other.loop_policy()
        &&& self.frames().len() == other.frames().len()
        &&& forall|i: int|
            0 <= i < self.frames().len() && i != index ==> #[trigger] self.frames()[i]
                == other.frames()[i]
    }

    /// The bytes of the file: header, Logical Screen Descriptor, global color
    /// table, Application Extension where the animation loops, the frames, and
    /// the trailer. The frames are compressed for the table as the file holds
    /// it, the colors that fill it up included.
    pub open spec fn spec_bytes(&self) -> Seq<u8> {
        header_bytes() + screen_descriptor_bytes(
            self.width(),
            self.height(),
            self.palette().len() as int,
        ) + colors_bytes(padded_colors(self.palette())) + application_extension_bytes(
            self.loop_policy(),
        ) + frames_bytes(self.frames(), table_entries(self.palette().len() as int))
            + seq![TRAILER_MARKER]
    }

    pub fn new(height: u16, width: u16, num_loop: Option<Loop>) -> (gif: Self)
        ensures
            gif.wf(),
            gif.height() == height,
            gif.width() == width,
            gif.loop_policy() == num_loop,
            gif.palette() == Seq::<Color>::empty(),
            gif.frames() == Seq::<GifImage>::empty(),
    {
        Gif {
            height,
            width,
            global_color_table: Vec::new(),
            images: Vec::new(),
            num_loop,
            glyphs: Text::new(),
        }
    }

    pub fn get_global_color_table_size_bits(&self) -> (bits: u8)
        ensures
            bits == color_table_size_bits(self.palette().len() as int),
            bits <= 7,
    {
        let color_count: usize = self.global_color_table.len();
        let mut bits: u8 = 0;
        let mut entries: usize = 2;
        proof {
            lemma2_to64();
        }
        while bits < 7 && entries < color_count
            invariant
                bits <= 7,
                entries == pow2((bits + 1) as nat),
                entries <= 256,
                color_table_size_bits(color_count as int) == table_exponent(
                    color_count as int,
                    bits as nat,
                ),
            decreases 7 - bits,
        {
            proof {
                lemma2_to64();
                lemma_pow2_unfold((bits + 2) as nat);
            }
            entries = entries * 2;
            bits = bits + 1;
        }
        bits
    }

    /// Adds a frame of the size of the screen and returns its index.
    pub fn add_image(&mut self) -> (index: usize)
        requires
            old(self).wf(),
        ensures
            final(self).wf(),
            index == old(self).frames().len(),
            final(self).frames().len() == index + 1,
            final(self).frames().take(index as int) == old(self).frames(),
            final(self).frames()[index as int].wf(),
            final(self).frames()[index as int].height() == old(self).height(),
            final(self).frames()[index as int].width() == old(self).width(),
            final(self).frames()[index as int].left() == 0,
            final(self).frames()[index as int].top() == 0,
            final(self).frames()[index as int].delay() == 0,
            final(self).frames()[index as int].canvas().pixels_indexes@ == seq![
                RLE { freq: (old(self).height() * old(self).width()) as usize, value: 0u8 },
            ],
            final(self).frames()[index as int].canvas()@ == repeat(
                old(self).height() * old(self).width(),
                0u8,
            ),
            final(self).glyph_cache() == old(self).glyph_cache(),
            final(self).palette() == old(self).palette(),
            final(self).height() == old(self).height(),
            final(self).width() == old(self).width(),
            final(self).loop_policy() == old(self).loop_policy(),
    {
        let new_image = GifImage::new(self.height, self.width);
        self.images.push(new_image);
        proof {
            let colors = self.palette().len() as int;
            lemma_table_entries(colors, colors);
            let n = old(self).images@.len() as int;
            assert forall|i: int| 0 <= i < self.frames().len() implies (
            #[trigger] self.frames()[i]).indexes_below(table_entries(colors)) by {
                if i < n {
                    assert(self.frames()[i] == old(self).frames()[i]);
                }
            }
            assert(self.images@.take(n) == old(self).images@);
            assert forall|i: int| 0 <= i < self.frames().len() implies (
            #[trigger] self.frames()[i]).wf() by {
                if i < n {
                    assert(self.frames()[i] == old(self).frames()[i]);
                }
            }
        }
        self.images.len() - 1
    }

    /// The colors painted so far, each at its index.
    pub fn color_table(&self) -> (colors: &Vec<Color>)
        ensures
            colors@ == self.palette(),
    {
        &self.global_color_table
    }

    /// Frame `index`.
    pub fn image(&self, index: usize) -> (frame: &GifImage)
        requires
            index < self.frames().len(),
        ensures
            *frame == self.frames()[index as int],
    {
        &self.images[index]
    }

    /// The number of frames.
    pub fn image_count(&self) -> (count: usize)
        ensures
            count == self.frames().len(),
    {
        self.images.len()
    }

    /// Frame `index`, to set its placement and its delay.
    pub fn image_mut(&mut self, index: usize) -> (frame: &mut GifImage)
        requires
            index < old(self).frames().len(),
        ensures
            *frame == old(self).frames()[index as int],
            final(self).frames() == old(self).frames().update(index as int, *final(frame)),
            final(self).glyph_cache() == old(self).glyph_cache(),
            final(self).palette() == old(self).palette(),
            final(self).height() == old(self).height(),
            final(self).width() == old(self).width(),
            final(self).loop_policy() == old(self).loop_policy(),
    {
        &mut self.images[index]
    }

    /// What painting frame `index` of `was` in `color` leaves the same: the
    /// screen, the loop policy, the other frames and the frame's placement. The
    /// color has its index in the table.
    pub open spec fn painted(&self, was: &Gif, index: int, color: Color) -> bool {
        &&& self.wf()
        &&& self.same_but_frame(was, index)
        &&& self.palette() == palette_insert(was.palette(), color)
        &&& self.palette().contains(color)
        &&& self.frames()[index].same_placement(&was.frames()[index])
        &&& self.frames()[index].repainted(&was.frames()[index], self.color_index(color))
    }

    /// The index that `color` has in the table.
    pub open spec fn color_index(&self, color: Color) -> u8 {
        self.palette().index_of(color) as u8
    }

    /// Frame `index` of `was` has been filled with `color`.
    pub open spec fn filled(&self, was: &Gif, index: int, color: Color) -> bool {
        let value = self.color_index(color);
        let frame = self.frames()[index];
        let area = was.frames()[index].canvas().area();
        &&& self.painted(was, index, color)
        &&& frame.canvas().pixels_indexes@ == seq![RLE { freq: area as usize, value }]
        &&& frame.canvas()@ == repeat(area, value)
        &&& frame.indexes_below(self.palette().len() as int)
    }

    /// A rectangle of frame `index` of `was` has been painted in `color`.
    pub open spec fn rectangle_drawn(
        &self,
        was: &Gif,
        index: int,
        top_left: Position,
        bottom_right: Position,
        color: Color,
    ) -> bool {
        let value = self.color_index(color);
        let frame = self.frames()[index];
        let before = was.frames()[index];
        &&& self.painted(was, index, color)
        &&& frame.canvas().pixels_indexes@ == draw_rows(
            before.canvas().pixels_indexes@,
            before.width() as int,
            top_left.x as int,
            bottom_right.x as int,
            top_left.y as int,
            bottom_right.y - top_left.y + 1,
            value,
        )
        &&& frame.canvas()@ == paint_rectangle(
            before.canvas()@,
            before.width() as int,
            top_left.x as int,
            bottom_right.x as int,
            top_left.y as int,
            bottom_right.y as int,
            value,
        )
        &&& before.indexes_below(was.palette().len() as int) ==> frame.indexes_below(
            self.palette().len() as int,
        )
    }

    /// A text has been painted on frame `index` of `was` in `color`.
    pub open spec fn text_drawn(
        &self,
        was: &Gif,
        index: int,
        letter: Seq<char>,
        size: int,
        top_left: IPosition,
        color: Color,
    ) -> bool {
        let value = self.color_index(color);
        let frame = self.frames()[index];
        let before = was.frames()[index];
        &&& self.painted(was, index, color)
        &&& frame.canvas().pixels_indexes@ == coalesce_runs(
            draw_text_stamps(
                before.canvas().pixels_indexes@,
                before.width() as int,
                before.height() as int,
                letter,
                size,
                top_left.x as int,
                top_left.y as int,
                value,
                letter.len() as int,
            ),
        )
        &&& frame.canvas()@ == paint_text_stamps(
            before.canvas()@,
            before.width() as int,
            letter,
            size,
            top_left.x as int,
            top_left.y as int,
            value,
            letter.len() as int,
        )
    }

    /// The color table is full and does not hold `color`.
    pub open spec fn no_room_for(&self, color: Color) -> bool {
        !self.palette().contains(color) && self.palette().len() >= COLOR_TABLE_MAX_SIZE
    }

    /// The rectangle lies on frame `index`.
    pub open spec fn region_fits(
        &self,
        index: int,
        top_left: Position,
        bottom_right: Position,
    ) -> bool {
        &&& top_left.x <= bottom_right.x < self.frames()[index].width()
        &&& top_left.y <= bottom_right.y < self.frames()[index].height()
    }

    /// The round trip through the file: from the image data of each frame, a
    /// reader that knows nothing but the bytes gets the pixels of the frame back.
    pub proof fn lemma_frame_round_trip(&self, index: int)
        requires
            self.wf(),
            0 <= index < self.frames().len(),
        ensures
            read_image_data(
                image_data_bytes(
                    min_code_size(table_entries(self.palette().len() as int)) as u8,
                    lzw_bytes(
                        self.frames()[index].canvas()@,
                        table_entries(self.palette().len() as int),
                    ),
                ),
            ) == Some(self.frames()[index].canvas()@),
    {
        let colors = self.palette().len() as int;
        let entries = table_entries(colors);
        let frame = self.frames()[index];
        let stream = lzw_bytes(frame.canvas()@, entries);
        let code_size = min_code_size(entries);
        lemma_table_entries(colors, colors);
        lemma_min_code_size(entries);
        assert(frame.indexes_below(entries));
        lemma_gif_round_trip(frame.canvas()@, entries);
        lemma_unblock(stream, Seq::empty());
        let data = image_data_bytes(code_size as u8, stream);
        assert(data.skip(1) == sub_blocks(stream) + seq![0u8] + Seq::<u8>::empty());
        assert(data[0] == code_size);
    }

    /// A file stays valid when one of its frames is painted in a color of the table.
    pub proof fn lemma_painted_wf(&self, was: &Gif, index: int, color: Color)
        requires
            was.wf(),
            0 <= index < was.frames().len(),
            self.glyph_cache().wf(),
            self.same_but_frame(was, index),
            self.palette() == palette_insert(was.palette(), color),
            self.palette().contains(color),
            self.frames()[index].wf(),
            self.frames()[index].repainted(&was.frames()[index], self.color_index(color)),
        ensures
            self.wf(),
    {
        let old_len = was.palette().len() as int;
        let new_len = self.palette().len() as int;
        lemma_palette_insert(was.palette(), color);
        lemma_table_entries(old_len, new_len);
        lemma_table_entries(new_len, new_len);
        let value = self.color_index(color);
        assert(self.palette()[self.palette().index_of(color)] == color);
        assert(value < new_len);
        assert forall|i: int| 0 <= i < self.frames().len() implies (
        #[trigger] self.frames()[i]).indexes_below(table_entries(new_len)) by {
            let frame = self.frames()[i];
            let before = was.frames()[i];
            assert(before.indexes_below(table_entries(old_len)));
            assert forall|p: int| 0 <= p < frame.canvas()@.len() implies (
            #[trigger] frame.canvas()@[p]) < table_entries(new_len) by {
                if i == index {
                    if frame.canvas()@[p] != value {
                        assert(before.canvas()@[p] < table_entries(old_len));
                    }
                } else {
                    assert(frame == before);
                    assert(before.canvas()@[p] < table_entries(old_len));
                }
            }
        }
        assert forall|i: int| 0 <= i < self.frames().len() implies (
        #[trigger] self.frames()[i]).wf() by {
            if i != index {
                assert(self.frames()[i] == was.frames()[i]);
            }
        }
    }

    /// Gives every pixel of frame `index` the color `color`.
    ///
    /// A new color is refused where the table is full; the file then stays as it was.
    pub fn fill_image(&mut self, index: usize, color: &Color) -> (res: Result<&mut Self, DrawError>)
        requires
            old(self).wf(),
            index < old(self).frames().len(),
        ensures
            res is Err <==> old(self).no_room_for(*color),
            res is Err ==> res->Err_0 == DrawError::PaletteCapacityExceeded && final(self).same_as(
                old(self),
            ) && final(self).wf(),
            res matches Ok(gif) ==> *final(self) == *final(gif) && gif.filled(
                old(self),
                index as int,
                *color,
            ),
    {
        let ghost before = self.images@;
        match self.images[index].fill(&mut self.global_color_table, color) {
            Ok(_) => {},
            Err(error) => {
                proof {
                    assert(self.images@ == before);
                }
                return Err(error);
            },
        }
        proof {
            self.lemma_painted_wf(old(self), index as int, *color);
        }
        Ok(self)
    }

    /// Gives every pixel of the rectangle from `top_left` to `bottom_right`
    /// of frame `index`, both corners included, the color `color`.
    ///
    /// A rectangle that is inverted or reaches outside the frame is refused,
    /// and so is a new color where the table is full; the file then stays as
    /// it was.
    pub fn draw_rectangle_image(
        &mut self,
        index: usize,
        top_left: Position,
        bottom_right: Position,
        color: &Color,
    ) -> (res: Result<&mut Self, DrawError>)
        requires
            old(self).wf(),
            index < old(self).frames().len(),
        ensures
            res is Err ==> final(self).same_as(old(self)) && final(self).wf(),
            (bottom_right.x < top_left.x || bottom_right.y < top_left.y) ==> res is Err
                && res->Err_0 == DrawError::InvertedInterval,
            top_left.x <= bottom_right.x && top_left.y <= bottom_right.y && !old(self).region_fits(
                index as int,
                top_left,
                bottom_right,
            ) ==> res is Err && res->Err_0 == DrawError::InvalidRegion,
            old(self).region_fits(index as int, top_left, bottom_right) ==> (res is Err <==> old(
                self,
            ).no_room_for(*color)),
            old(self).region_fits(index as int, top_left, bottom_right) && res is Err
                ==> res->Err_0 == DrawError::PaletteCapacityExceeded,
            res matches Ok(gif) ==> *final(self) == *final(gif) && gif.rectangle_drawn(
                old(self),
                index as int,
                top_left,
                bottom_right,
                *color,
            ),
    {
        let ghost before = self.images@;
        match self.images[index].draw_rectangle(
            &mut self.global_color_table,
            top_left,
            bottom_right,
            color,
        ) {
            Ok(_) => {},
            Err(error) => {
                proof {
                    assert(self.images@ == before);
                }
                return Err(error);
            },
        }
        proof {
            self.lemma_painted_wf(old(self), index as int, *color);
        }
        Ok(self)
    }

    /// Paints `letter` on frame `index` in the color `color`, from `top_left`
    /// to the right; what lies beside the frame is passed over.
    ///
    /// A new color is refused where the table is full; the file then stays as it was.
    pub fn draw_text_image(
        &mut self,
        index: usize,
        letter: &str,
        font_size: FontSize,
        top_left: IPosition,
        color: &Color,
    ) -> (res: Result<&mut Self, DrawError>)
        requires
            old(self).wf(),
            index < old(self).frames().len(),
            font_size.spec_value() >= DEFAULT_FONT_SIZE,
        ensures
            res is Err <==> old(self).no_room_for(*color),
            res is Err ==> res->Err_0 == DrawError::PaletteCapacityExceeded && final(self).same_as(
                old(self),
            ) && final(self).wf(),
            res matches Ok(gif) ==> *final(self) == *final(gif) && gif.text_drawn(
                old(self),
                index as int,
                letter@,
                font_size.spec_value() as int,
                top_left,
                *color,
            ),
    {
        let ghost before = self.images@;
        match self.images[index].draw_text(
            &mut self.global_color_table,
            letter,
            &mut self.glyphs,
            font_size,
            top_left,
            color,
        ) {
            Ok(_) => {},
            Err(error) => {
                proof {
                    assert(self.images@ == before);
                }
                return Err(error);
            },
        }
        proof {
            self.lemma_painted_wf(old(self), index as int, *color);
        }
        Ok(self)
    }

    /// The header of the file.
    pub fn get_header(&self) -> (bytes: Vec<u8>)
        ensures
            bytes@ == header_bytes(),
    {
        let mut bytes: Vec<u8> = Vec::new();
        bytes.push(0x47);
        bytes.push(0x49);
        bytes.push(0x46);
        bytes.push(0x38);
        bytes.push(0x39);
        bytes.push(0x61);
        assert(bytes@ == header_bytes());
        bytes
    }

    pub fn get_logical_screen_descriptor(&self) -> (bytes: Vec<u8>)
        ensures
            bytes@ == screen_descriptor_bytes(
                self.width(),
                self.height(),
                self.palette().len() as int,
            ),
    {
        let global_color_bits = self.get_global_color_table_size_bits();
        let width = u16_le_bytes(self.width);
        let height = u16_le_bytes(self.height);
        let mut bytes: Vec<u8> = Vec::new();
        bytes.push(width[0]);
        bytes.push(width[1]);
        bytes.push(height[0]);
        bytes.push(height[1]);
        // add packed field
        bytes.push(0x90 | global_color_bits);
        // add background color index
        bytes.push(0);
        // add pixel aspect ratio
        bytes.push(0);
        assert(bytes@ == screen_descriptor_bytes(
            self.width(),
            self.height(),
            self.palette().len() as int,
        ));
        bytes
    }

    /// The colors of the table as the file holds it, filled up with black. The
    /// colors that fill it up are a copy's: the table of the frames stays as it is.
    pub fn get_padded_color_table(&self) -> (colors: Vec<Color>)
        requires
            self.palette().len() <= COLOR_TABLE_MAX_SIZE,
        ensures
            colors@ == padded_colors(self.palette()),
            colors@.len() == table_entries(self.palette().len() as int),
            2 <= colors@.len() <= COLOR_TABLE_MAX_SIZE,
    {
        let global_color_bits = self.get_global_color_table_size_bits();
        let ghost colors = self.global_color_table@;
        let ghost padded = padded_colors(colors);
        proof {
            lemma_color_table_size_bits(colors.len() as int);
            lemma2_to64();
        }
        let mut entries: usize = 2;
        let mut b: u8 = 0;
        while b < global_color_bits
            invariant
                b <= global_color_bits <= 7,
                entries == pow2((b + 1) as nat),
                entries <= 256,
            decreases global_color_bits - b,
        {
            proof {
                lemma2_to64();
                lemma_pow2_unfold((b + 2) as nat);
            }
            entries = entries * 2;
            b = b + 1;
        }
        let color_count: usize = self.global_color_table.len();
        let mut table: Vec<Color> = Vec::new();
        let mut i: usize = 0;
        while i < entries
            invariant
                i <= entries,
                entries == padded.len(),
                color_count == colors.len(),
                color_count <= entries,
                colors == self.global_color_table@,
                padded == padded_colors(colors),
                table@ == padded.take(i as int),
            decreases entries - i,
        {
            let color = if i < color_count {
                self.global_color_table[i]
            } else {
                Pixel::new(0, 0, 0)
            };
            table.push(color);
            proof {
                assert(padded.take(i + 1) == padded.take(i as int).push(color));
            }
            i = i + 1;
        }
        proof {
            assert(padded.take(entries as int) == padded);
        }
        table
    }

    /// The bytes of the global color table as the file holds it.
    pub fn get_global_color_table(&self) -> (bytes: Vec<u8>)
        requires
            self.palette().len() <= COLOR_TABLE_MAX_SIZE,
        ensures
            bytes@ == colors_bytes(padded_colors(self.palette())),
    {
        let table = self.get_padded_color_table();
        let total: usize = table.len();
        let mut bytes: Vec<u8> = Vec::new();
        let mut i: usize = 0;
        proof {
            assert(table@.take(0) == Seq::<Color>::empty());
        }
        while i < total
            invariant
                i <= total,
                total == table@.len(),
                bytes@ == colors_bytes(table@.take(i as int)),
            decreases total - i,
        {
            let channels = table[i].as_bytes();
            bytes.push(channels[0]);
            bytes.push(channels[1]);
            bytes.push(channels[2]);
            proof {
                let upto = table@.take(i + 1);
                assert(upto.drop_last() == table@.take(i as int));
                assert(upto.last() == table@[i as int]);
                assert(bytes@ == colors_bytes(table@.take(i as int))
                    + table@[i as int].spec_bytes());
            }
            i = i + 1;
        }
        proof {
            assert(table@.take(total as int) == table@);
        }
        bytes
    }

    pub fn get_application_extension_block(&self) -> (bytes: Vec<u8>)
        ensures
            bytes@ == application_extension_bytes(self.loop_policy()),
    {
        let mut aeb: Vec<u8> = Vec::new();
        match self.num_loop {
            None => {},
            Some(policy) => {
                // Extension introducer
                aeb.push(0x21);
                // Application extension label
                aeb.push(0xFF);
                // NETSCAPE size
                aeb.push(0x0B);
                // NETSCAPE2.0
                aeb.push(0x4E);
                aeb.push(0x45);
                aeb.push(0x54);
                aeb.push(0x53);
                aeb.push(0x43);
                aeb.push(0x41);
                aeb.push(0x50);
                aeb.push(0x45);
                aeb.push(0x32);
                aeb.push(0x2E);
                aeb.push(0x30);
                // Application extension sub-block length
                aeb.push(0x03);
                // Sub-block ID (looping)
                aeb.push(0x01);
                // Loop count
                match policy {
                    Loop::Forever => {
                        aeb.push(0);
                        aeb.push(0);
                    },
                    Loop::Repeat(n) => {
                        let num_loop = u16_le_bytes(n);
                        aeb.push(num_loop[0]);
                        aeb.push(num_loop[1]);
                    },
                }
                // Block terminator
                aeb.push(0);
            },
        }
        assert(aeb@ == application_extension_bytes(self.loop_policy()));
        aeb
    }

    /// The bytes of the whole file.
    pub fn as_bytes(&self) -> (bytes: Vec<u8>)
        requires
            self.palette().len() <= COLOR_TABLE_MAX_SIZE,
        ensures
            bytes@ == self.spec_bytes(),
    {
        let mut file_contents: Vec<u8> = Vec::new();
        // add header block
        let header = self.get_header();
        append_bytes(&mut file_contents, &header);
        // add logistical screen descriptor
        let descriptor = self.get_logical_screen_descriptor();
        append_bytes(&mut file_contents, &descriptor);
        // add colors
        let colors = self.get_global_color_table();
        append_bytes(&mut file_contents, &colors);
        // Adding application extension if present
        let extension = self.get_application_extension_block();
        append_bytes(&mut file_contents, &extension);
        // add images, compressed for the table that the file holds
        let table = self.get_padded_color_table();
        let ghost prefix = file_contents@;
        let ghost frames = self.images@;
        let ghost num_colors = table@.len() as int;
        let total: usize = self.images.len();
        let mut i: usize = 0;
        proof {
            assert(frames.take(0) == Seq::<GifImage>::empty());
        }
        while i < total
            invariant
                frames == self.images@,
                total == frames.len(),
                i <= total,
                num_colors == table@.len(),
                num_colors <= COLOR_TABLE_MAX_SIZE,
                file_contents@ == prefix + frames_bytes(frames.take(i as int), num_colors),
            decreases total - i,
        {
            let image_bytes = self.images[i].as_bytes(&table);
            append_bytes(&mut file_contents, &image_bytes);
            proof {
                let upto = frames.take(i + 1);
                assert(upto.drop_last() == frames.take(i as int));
                assert(upto.last() == frames[i as int]);
            }
            i = i + 1;
        }
        proof {
            assert(frames.take(total as int) == frames);
        }
        // add gif end
        file_contents.push(TRAILER_MARKER);
        file_contents
    }
}

/// Painting a file paints the frame that was added last.
impl ImageFormat<Color> for Gif {
    open spec fn paintable(&self) -> bool {
        self.wf() && self.frames().len() > 0
    }

    fn fill(&mut self, color: &Color) -> (res: Result<&mut Self, DrawError>)
        ensures
            res is Err <==> old(self).no_room_for(*color),
            res is Err ==> res->Err_0 == DrawError::PaletteCapacityExceeded && final(self).same_as(
                old(self),
            ) && final(self).paintable(),
            res matches Ok(gif) ==> gif.filled(old(self), old(self).frames().len() - 1, *color),
    {
        let last: usize = self.images.len() - 1;
        self.fill_image(last, color)
    }

    fn draw_rectangle(&mut self, top_left: Position, bottom_right: Position, color: &Color) -> (res:
        Result<&mut Self, DrawError>)
        ensures
            res is Err ==> final(self).same_as(old(self)) && final(self).paintable(),
            (bottom_right.x < top_left.x || bottom_right.y < top_left.y) ==> res is Err
                && res->Err_0 == DrawError::InvertedInterval,
            top_left.x <= bottom_right.x && top_left.y <= bottom_right.y && !old(self).region_fits(
                old(self).frames().len() - 1,
                top_left,
                bottom_right,
            ) ==> res is Err && res->Err_0 == DrawError::InvalidRegion,
            old(self).region_fits(old(self).frames().len() - 1, top_left, bottom_right) ==> (
            res is Err <==> old(self).no_room_for(*color)),
            old(self).region_fits(old(self).frames().len() - 1, top_left, bottom_right)
                && res is Err ==> res->Err_0 == DrawError::PaletteCapacityExceeded,
            res matches Ok(gif) ==> gif.rectangle_drawn(
                old(self),
                old(self).frames().len() - 1,
                top_left,
                bottom_right,
                *color,
            ),
    {
        let last: usize = self.images.len() - 1;
        self.draw_rectangle_image(last, top_left, bottom_right, color)
    }

    fn draw_text(
        &mut self,
        letter: &str,
        font_size: FontSize,
        top_left: IPosition,
        color: &Color,
    ) -> (res: Result<&mut Self, DrawError>)
        ensures
            res is Err <==> old(self).no_room_for(*color),
            res is Err ==> res->Err_0 == DrawError::PaletteCapacityExceeded && final(self).same_as(
                old(self),
            ) && final(self).paintable(),
            res matches Ok(gif) ==> gif.text_drawn(
                old(self),
                old(self).frames().len() - 1,
                letter@,
                font_size.spec_value() as int,
                top_left,
                *color,
            ),
    {
        let last: usize = self.images.len() - 1;
        self.draw_text_image(last, letter, font_size, top_left, color)
    }
}

} // verus!
