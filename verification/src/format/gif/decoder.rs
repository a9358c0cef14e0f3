//! The decoder of the compressed stream, as a model, and the proof that it
//! gives back what the compressor was given.
//!
//! The decoder reads codes of varying width from the packed bytes. It knows
//! the colors, the Clear code and the End-of-Information code from the start
//! and learns every further code one step behind the compressor: the entry
//! that the compressor made when it wrote a code is made by the decoder when
//! it reads the next one.
use crate::format::gif::bits::{bit_at, byte_of, code_bit, code_bits, pack_bits, unpack_bits};
use crate::format::gif::lzw::{
    codes_bits, lemma_lzw_step_bounded, lemma_min_code_size, lzw_bounded, lzw_bytes, lzw_codes,
    lzw_scan, lzw_start, lzw_step, min_code_size, Code, LzwState, CODE_TABLE_MAX_SIZE,
};
use crate::format::runs::repeat;
use vstd::arithmetic::div_mod::{lemma_basic_div, lemma_mod_breakdown, lemma_small_mod};
use vstd::arithmetic::power2::{
    lemma2_to64, lemma2_to64_rest, lemma_pow2_pos, lemma_pow2_strictly_increases,
    lemma_pow2_unfold, pow2,
};
use vstd::bits::lemma_u64_shr_is_div;
use vstd::prelude::*;

verus! {

/// The number that a bit sequence stands for, the least significant bit first.
pub open spec fn bits_value(bits: Seq<bool>) -> int
    decreases bits.len(),
{
    if bits.len() == 0 {
        0
    } else {
        bits_value(bits.drop_last()) + if bits.last() {
            pow2((bits.len() - 1) as nat) as int
        } else {
            0
        }
    }
}

/// The lowest `width` bits of a code stand for the code's remainder by `2^width`.
pub proof fn lemma_bits_value_of_code(code: u64, width: nat)
    requires
        width <= 63,
    ensures
        bits_value(code_bits(code, width)) == code as int % pow2(width) as int,
    decreases width,
{
    lemma_pow2_pos(width);
    if width == 0 {
        lemma2_to64();
    } else {
        let k = (width - 1) as nat;
        lemma_bits_value_of_code(code, k);
        let bits = code_bits(code, width);
        assert(bits.drop_last() == code_bits(code, k));
        assert(bits.last() == code_bit(code, k as int));
        let shift = k as u64;
        lemma_u64_shr_is_div(code, shift);
        let high = code >> shift;
        assert(high & 1 == high % 2) by (bit_vector);
        lemma_pow2_pos(k);
        lemma_pow2_unfold(width);
        lemma_mod_breakdown(code as int, pow2(k) as int, 2);
        assert(pow2(k) * 2 == pow2(width));
        let bit = (code as int / pow2(k) as int) % 2;
        assert(bit == 0 || bit == 1);
        assert(pow2(k) as int * bit == if bit == 1 {
            pow2(k) as int
        } else {
            0
        }) by (nonlinear_arith)
            requires
                bit == 0 || bit == 1,
        ;
    }
}

/// The bits of a code that is smaller than `2^width` stand for the code.
pub proof fn lemma_bits_value_small(code: int, width: nat)
    requires
        0 <= code < pow2(width),
        width <= 63,
    ensures
        bits_value(code_bits(code as u64, width)) == code,
        code <= u64::MAX,
{
    lemma2_to64();
    lemma_pow2_strictly_increases(width, 64);
    lemma2_to64_rest();
    lemma_bits_value_of_code(code as u64, width);
    lemma_small_mod(code as nat, pow2(width));
}

/// A code that is smaller than `2^width` has no bit at `width`.
pub proof fn lemma_code_bit_above(code: int, width: nat)
    requires
        0 <= code < pow2(width),
        width <= 62,
    ensures
        !code_bit(code as u64, width as int),
        code_bits(code as u64, width + 1) == code_bits(code as u64, width).push(false),
{
    lemma_bits_value_small(code, width);
    let c = code as u64;
    let shift = width as u64;
    lemma_u64_shr_is_div(c, shift);
    lemma_pow2_pos(width);
    lemma_basic_div(code, pow2(width) as int);
    assert(c >> shift == 0);
    assert(0u64 & 1 == 0) by (bit_vector);
    assert(code_bits(c, width + 1) == code_bits(c, width).push(false));
}

/// The bits of a byte.
pub proof fn lemma_bit_of_byte(
    b0: u8,
    b1: u8,
    b2: u8,
    b3: u8,
    b4: u8,
    b5: u8,
    b6: u8,
    b7: u8,
    index: int,
)
    requires
        b0 <= 1,
        b1 <= 1,
        b2 <= 1,
        b3 <= 1,
        b4 <= 1,
        b5 <= 1,
        b6 <= 1,
        b7 <= 1,
        0 <= index < 8,
    ensures
        code_bit(byte_of(b0, b1, b2, b3, b4, b5, b6, b7) as u64, index) == (if index == 0 {
            b0 == 1
        } else if index == 1 {
            b1 == 1
        } else if index == 2 {
            b2 == 1
        } else if index == 3 {
            b3 == 1
        } else if index == 4 {
            b4 == 1
        } else if index == 5 {
            b5 == 1
        } else if index == 6 {
            b6 == 1
        } else {
            b7 == 1
        }),
{
    let byte = byte_of(b0, b1, b2, b3, b4, b5, b6, b7);
    let w = byte as u64;
    let k = index as u64;
    assert(((w >> k) & 1 == 1) == (if k == 0 {
        b0 == 1
    } else if k == 1 {
        b1 == 1
    } else if k == 2 {
        b2 == 1
    } else if k == 3 {
        b3 == 1
    } else if k == 4 {
        b4 == 1
    } else if k == 5 {
        b5 == 1
    } else if k == 6 {
        b6 == 1
    } else {
        b7 == 1
    })) by (bit_vector)
        requires
            byte == b0 | b1 << 1 | b2 << 2 | b3 << 3 | b4 << 4 | b5 << 5 | b6 << 6 | b7 << 7,
            w == byte as u64,
            k < 8,
            b0 <= 1,
            b1 <= 1,
            b2 <= 1,
            b3 <= 1,
            b4 <= 1,
            b5 <= 1,
            b6 <= 1,
            b7 <= 1,
    ;
}

/// The number of zero bits that fill the last byte of a packed bit sequence.
pub open spec fn padding(len: int) -> int {
    (8 - len % 8) % 8
}

/// Unpacking what was packed gives the bits back, with zero bits behind them
/// up to the end of the last byte.
pub proof fn lemma_unpack_pack(bits: Seq<bool>)
    ensures
        unpack_bits(pack_bits(bits)) == bits + repeat(padding(bits.len() as int), false),
        0 <= padding(bits.len() as int) < 8,
{
    let packed = pack_bits(bits);
    let got = unpack_bits(packed);
    let want = bits + repeat(padding(bits.len() as int), false);
    assert(got.len() == want.len());
    assert forall|i: int| 0 <= i < got.len() implies got[i] == want[i] by {
        let j = i / 8;
        let r = i % 8;
        lemma_bit_of_byte(
            bit_at(bits, 8 * j),
            bit_at(bits, 8 * j + 1),
            bit_at(bits, 8 * j + 2),
            bit_at(bits, 8 * j + 3),
            bit_at(bits, 8 * j + 4),
            bit_at(bits, 8 * j + 5),
            bit_at(bits, 8 * j + 6),
            bit_at(bits, 8 * j + 7),
            r,
        );
        assert(packed[j] == byte_of(
            bit_at(bits, 8 * j),
            bit_at(bits, 8 * j + 1),
            bit_at(bits, 8 * j + 2),
            bit_at(bits, 8 * j + 3),
            bit_at(bits, 8 * j + 4),
            bit_at(bits, 8 * j + 5),
            bit_at(bits, 8 * j + 6),
            bit_at(bits, 8 * j + 7),
        ));
        assert(i == 8 * j + r);
        assert(got[i] == (bit_at(bits, i) == 1));
    }
    assert(got == want);
}

/// The decoder between two codes.
pub struct LzwDecoder {
    /// The sequences that the codes behind the two control codes stand for,
    /// in the order of the codes.
    pub entries: Seq<Seq<u8>>,
    /// What the code read last stood for; nothing after a Clear code.
    pub previous: Seq<u8>,
    /// The number of bits of the next code.
    pub width: nat,
    /// The symbols decoded so far.
    pub output: Seq<u8>,
    /// The End-of-Information code has been read.
    pub finished: bool,
}

/// The decoder before the first code.
pub open spec fn decoder_start(first_width: nat) -> LzwDecoder {
    LzwDecoder {
        entries: Seq::empty(),
        previous: Seq::empty(),
        width: first_width,
        output: Seq::empty(),
        finished: false,
    }
}

/// What a code stands for: a color for itself, an entry for its sequence, and
/// the code that the decoder is about to learn for what was read last
/// followed by its own first symbol. No other code is valid.
pub open spec fn decoder_string(decoder: LzwDecoder, code: int, clear: int) -> Option<Seq<u8>> {
    if 0 <= code < clear {
        Some(seq![code as u8])
    } else if clear + 2 <= code < clear + 2 + decoder.entries.len() {
        Some(decoder.entries[code - clear - 2])
    } else if code == clear + 2 + decoder.entries.len() && decoder.previous.len() > 0 {
        Some(decoder.previous.push(decoder.previous[0]))
    } else {
        None
    }
}

/// The decoder after one more code; `None` where the code is not valid.
///
/// A Clear code makes the decoder forget its entries. Any other code is
/// written out as the sequence it stands for; what was read before it,
/// followed by the first symbol of that sequence, becomes a new entry. The
/// width grows when the code that will be learnt next does not fit into it.
pub open spec fn decoder_step(decoder: LzwDecoder, code: int, clear: int, first_width: nat) -> Option<
    LzwDecoder,
> {
    if code == clear {
        Some(
            LzwDecoder {
                entries: Seq::empty(),
                previous: Seq::empty(),
                width: first_width,
                ..decoder
            },
        )
    } else if code == clear + 1 {
        Some(LzwDecoder { finished: true, ..decoder })
    } else {
        match decoder_string(decoder, code, clear) {
            None => None,
            Some(sequence) => {
                let entries = if decoder.previous.len() > 0 && clear + 2 + decoder.entries.len()
                    < CODE_TABLE_MAX_SIZE {
                    decoder.entries.push(decoder.previous.push(sequence[0]))
                } else {
                    decoder.entries
                };
                let width = if clear + 2 + entries.len() >= pow2(decoder.width) && decoder.width
                    < 12 {
                    decoder.width + 1
                } else {
                    decoder.width
                };
                Some(
                    LzwDecoder {
                        entries,
                        previous: sequence,
                        width,
                        output: decoder.output + sequence,
                        finished: false,
                    },
                )
            },
        }
    }
}

/// What the decoder makes of a bit stream: the symbols decoded up to the
/// End-of-Information code or to the end of the data; `None` where it meets a
/// code that is not valid.
pub open spec fn decode_bits(
    decoder: LzwDecoder,
    bits: Seq<bool>,
    clear: int,
    first_width: nat,
) -> Option<Seq<u8>>
    decreases bits.len(),
{
    if decoder.finished || decoder.width == 0 || bits.len() < decoder.width {
        Some(decoder.output)
    } else {
        match decoder_step(
            decoder,
            bits_value(bits.take(decoder.width as int)),
            clear,
            first_width,
        ) {
            None => None,
            Some(next) => decode_bits(next, bits.skip(decoder.width as int), clear, first_width),
        }
    }
}

/// What the decoder makes of a compressed stream whose Clear code is `clear`
/// and whose first code has `first_width` bits.
pub open spec fn lzw_decode(bytes: Seq<u8>, clear: int, first_width: nat) -> Option<Seq<u8>> {
    decode_bits(decoder_start(first_width), unpack_bits(bytes), clear, first_width)
}

/// What a decoder makes of image data that begins with the minimum code size
/// `code_size`: the Clear code is `2^code_size`, and the first code has one
/// bit more than the minimum code size.
pub open spec fn gif_decode(code_size: nat, bytes: Seq<u8>) -> Option<Seq<u8>> {
    lzw_decode(bytes, pow2(code_size) as int, code_size + 1)
}

/// The decoder after a sequence of codes, each read at the width at which
/// it was written; `None` where a code is not valid or a width differs.
pub open spec fn decode_codes(
    start: LzwDecoder,
    codes: Seq<Code>,
    clear: int,
    first_width: nat,
) -> Option<LzwDecoder>
    decreases codes.len(),
{
    if codes.len() == 0 {
        Some(start)
    } else {
        match decode_codes(start, codes.drop_last(), clear, first_width) {
            None => None,
            Some(decoder) => if decoder.finished || decoder.width != codes.last().width
                || decoder.width == 0 || decoder.width > 63 || !(0 <= codes.last().value < pow2(
                decoder.width,
            )) {
                None
            } else {
                decoder_step(decoder, codes.last().value, clear, first_width)
            },
        }
    }
}

/// Reading the bits of a code gives the decoder that the code gives.
pub proof fn lemma_decode_one(
    decoder: LzwDecoder,
    code: Code,
    rest: Seq<bool>,
    clear: int,
    first_width: nat,
)
    requires
        !decoder.finished,
        decoder.width == code.width,
        1 <= code.width <= 63,
        0 <= code.value < pow2(code.width),
    ensures
        decode_bits(decoder, code_bits(code.value as u64, code.width) + rest, clear, first_width)
            == match decoder_step(decoder, code.value, clear, first_width) {
            None => None,
            Some(next) => decode_bits(next, rest, clear, first_width),
        },
{
    let bits = code_bits(code.value as u64, code.width) + rest;
    lemma_bits_value_small(code.value, code.width);
    assert(bits.take(code.width as int) == code_bits(code.value as u64, code.width));
    assert(bits.skip(code.width as int) == rest);
}

/// Reading the bits of a code stream gives the decoder that its codes give.
pub proof fn lemma_decode_stream(
    start: LzwDecoder,
    codes: Seq<Code>,
    rest: Seq<bool>,
    clear: int,
    first_width: nat,
)
    requires
        decode_codes(start, codes, clear, first_width) is Some,
    ensures
        decode_bits(start, codes_bits(codes) + rest, clear, first_width) == decode_bits(
            decode_codes(start, codes, clear, first_width)->0,
            rest,
            clear,
            first_width,
        ),
    decreases codes.len(),
{
    if codes.len() == 0 {
        assert(codes_bits(codes) + rest == rest);
    } else {
        let front = codes.drop_last();
        let last = codes.last();
        let tail = code_bits(last.value as u64, last.width) + rest;
        lemma_decode_stream(start, front, tail, clear, first_width);
        let decoder = decode_codes(start, front, clear, first_width)->0;
        lemma_decode_one(decoder, last, rest, clear, first_width);
        assert(codes_bits(codes) + rest == codes_bits(front) + tail);
    }
}

/// What entry `index` of the compressor stands for: the decoder's entry, or,
/// for the one entry that the decoder has yet to learn, what it read last
/// followed by `first`, the first symbol that the compressor has read since.
pub open spec fn entry_string(decoder: LzwDecoder, first: u8, index: int) -> Seq<u8> {
    if index < decoder.entries.len() {
        decoder.entries[index]
    } else {
        decoder.previous.push(first)
    }
}

/// What a code of the compressor stands for.
pub open spec fn code_string(decoder: LzwDecoder, first: u8, clear: int, code: int) -> Seq<u8> {
    if code < clear {
        seq![code as u8]
    } else {
        entry_string(decoder, first, code - clear - 2)
    }
}

/// The code is a color or an entry of a dictionary of `size` codes.
pub open spec fn code_known(size: int, clear: int, code: int) -> bool {
    0 <= code < clear || clear + 2 <= code < size
}

/// Every entry of the compressor's dictionary stands for what its earlier
/// code stands for, followed by its symbol.
pub open spec fn table_sound(
    table: Map<(int, int), int>,
    decoder: LzwDecoder,
    first: u8,
    clear: int,
    size: int,
) -> bool {
    forall|prefix: int, symbol: int| #[trigger]
        table.contains_key((prefix, symbol)) ==> {
            &&& code_known(size, clear, prefix)
            &&& 0 <= symbol < 256
            &&& clear + 2 <= table[(prefix, symbol)] < size
            &&& code_string(decoder, first, clear, table[(prefix, symbol)]) == code_string(
                decoder,
                first,
                clear,
                prefix,
            ).push(symbol as u8)
        }
}

/// The decoder has read every code that the compressor has written after the
/// symbols `seen`, and the two agree: the decoder has put out all of `seen`
/// but what the compressor's pending code stands for, it is one entry behind
/// the compressor, and it expects the width that the compressor will write.
pub open spec fn in_step(state: LzwState, decoder: LzwDecoder, clear: int, seen: Seq<u8>) -> bool {
    let pending = seen.skip(decoder.output.len() as int);
    let first = pending[0];
    let made = state.size - (clear + 2);
    &&& lzw_bounded(state, clear)
    &&& !decoder.finished
    &&& decoder.width == state.width
    &&& decoder.output.len() < seen.len()
    &&& decoder.output == seen.take(decoder.output.len() as int)
    &&& forall|i: int| 0 <= i < seen.len() ==> (#[trigger] seen[i]) < clear
    &&& forall|i: int| 0 <= i < decoder.entries.len() ==> (#[trigger] decoder.entries[i]).len() > 0
    &&& made == 0 ==> {
        &&& decoder.entries.len() == 0
        &&& decoder.previous.len() == 0
        &&& state.table == Map::<(int, int), int>::empty()
        &&& pending.len() == 1
        &&& state.current == pending[0]
    }
    &&& made > 0 ==> {
        &&& decoder.entries.len() == made - 1
        &&& decoder.previous.len() > 0
    }
    &&& code_known(state.size, clear, state.current)
    &&& code_string(decoder, first, clear, state.current) == pending
    &&& table_sound(state.table, decoder, first, clear, state.size)
}

/// The decoder after the codes that the compressor has written so far.
pub open spec fn decoder_after(state: LzwState, clear: int) -> Option<LzwDecoder> {
    decode_codes(
        decoder_start(min_code_size(clear) + 1),
        state.codes,
        clear,
        min_code_size(clear) + 1,
    )
}

/// After the first symbol the decoder has read the Clear code and is in step.
pub proof fn lemma_in_step_start(seen: Seq<u8>, num_colors: int)
    requires
        0 <= num_colors <= 256,
        seen.len() == 1,
        seen[0] < num_colors,
    ensures
        decoder_after(lzw_start(seen[0] as int, num_colors), num_colors) is Some,
        in_step(
            lzw_start(seen[0] as int, num_colors),
            decoder_after(lzw_start(seen[0] as int, num_colors), num_colors)->0,
            num_colors,
            seen,
        ),
{
    let state = lzw_start(seen[0] as int, num_colors);
    let first_width = min_code_size(num_colors) + 1;
    let start = decoder_start(first_width);
    lemma_min_code_size(num_colors);
    lemma2_to64();
    lemma_pow2_strictly_increases(0, first_width);
    assert(state.codes.drop_last() == Seq::<Code>::empty());
    assert(decode_codes(start, state.codes.drop_last(), num_colors, first_width) == Some(start));
    assert(state.codes.last() == Code { value: num_colors, width: first_width });
    let decoder = decoder_after(state, num_colors)->0;
    assert(decoder == decoder_step(start, num_colors, num_colors, first_width)->0);
    assert(seen.skip(0) == seen);
    assert(seen.take(0) == Seq::<u8>::empty());
    assert(code_string(decoder, seen[0], num_colors, state.current) == seen);
}

/// The code that the compressor writes next is valid for the decoder, and
/// stands for what the decoder has not put out yet.
pub proof fn lemma_read_pending(state: LzwState, decoder: LzwDecoder, clear: int, seen: Seq<u8>)
    requires
        0 <= clear <= 256,
        in_step(state, decoder, clear, seen),
    ensures
        decoder_string(decoder, state.current, clear) == Some(
            seen.skip(decoder.output.len() as int),
        ),
        0 <= state.current < pow2(state.width),
        0 <= clear + 1 < pow2(state.width),
        state.current != clear,
        state.current != clear + 1,
{
    let pending = seen.skip(decoder.output.len() as int);
    let first = pending[0];
    let made = state.size - (clear + 2);
    let code = state.current;
    if code < clear {
    } else if code - clear - 2 < decoder.entries.len() {
    } else {
        assert(code == clear + 2 + decoder.entries.len());
        assert(pending == decoder.previous.push(first));
        assert(pending[0] == decoder.previous[0]);
    }
}

/// One more symbol keeps the decoder in step with the compressor.
pub proof fn lemma_in_step_next(
    state: LzwState,
    decoder: LzwDecoder,
    num_colors: int,
    seen: Seq<u8>,
    symbol: u8,
)
    requires
        0 <= num_colors <= 256,
        symbol < num_colors,
        in_step(state, decoder, num_colors, seen),
        decoder_after(state, num_colors) == Some(decoder),
    ensures
        decoder_after(lzw_step(state, symbol as int, num_colors), num_colors) is Some,
        in_step(
            lzw_step(state, symbol as int, num_colors),
            decoder_after(lzw_step(state, symbol as int, num_colors), num_colors)->0,
            num_colors,
            seen.push(symbol),
        ),
{
    let clear = num_colors;
    let first_width = min_code_size(clear) + 1;
    let start = decoder_start(first_width);
    let next = lzw_step(state, symbol as int, clear);
    let longer = seen.push(symbol);
    let done = decoder.output.len() as int;
    let pending = seen.skip(done);
    let first = pending[0];
    lemma_lzw_step_bounded(state, symbol as int, clear);
    lemma_read_pending(state, decoder, clear, seen);
    lemma_min_code_size(clear);
    assert forall|i: int| 0 <= i < longer.len() implies (#[trigger] longer[i]) < clear by {
        if i < seen.len() {
            assert(longer[i] == seen[i]);
        }
    }
    assert(longer.take(done) == seen.take(done));
    if state.table.contains_key((state.current, symbol as int)) {
        let after = longer.skip(done);
        assert(after == pending.push(symbol));
        assert(after[0] == first);
        assert(next.codes == state.codes);
        assert(state.size - (clear + 2) > 0);
        assert(code_string(decoder, first, clear, next.current) == after);
        assert(in_step(next, decoder, clear, longer));
    } else {
        let written = Code { value: state.current, width: state.width };
        let codes = state.codes.push(written);
        assert(codes.drop_last() == state.codes);
        assert(codes.last() == written);
        let read = decoder_step(decoder, state.current, clear, first_width)->0;
        assert(decode_codes(start, codes, clear, first_width) == Some(read));
        let made = state.size - (clear + 2);
        assert(read.output == decoder.output + pending);
        assert(read.output == seen);
        assert(read.previous == pending);
        let after = longer.skip(read.output.len() as int);
        assert(after == seq![symbol]);
        assert(longer.take(read.output.len() as int) == seen);
        assert(read.entries.len() == made);
        assert forall|i: int| 0 <= i < read.entries.len() implies (#[trigger] read.entries[i]).len()
            > 0 by {
            if i < decoder.entries.len() {
                assert(read.entries[i] == decoder.entries[i]);
            }
        }
        // what the codes stood for, they stand for now
        assert forall|code: int| code_known(state.size, clear, code) implies code_string(
            read,
            symbol,
            clear,
            code,
        ) == code_string(decoder, first, clear, code) by {
            if code >= clear {
                let index = code - clear - 2;
                if index < decoder.entries.len() {
                    assert(read.entries[index] == decoder.entries[index]);
                } else {
                    assert(read.entries[index] == decoder.previous.push(pending[0]));
                }
            }
        }
        let table = state.table.insert((state.current, symbol as int), state.size);
        let size = state.size + 1;
        assert(code_string(read, symbol, clear, state.size) == pending.push(symbol));
        assert(table_sound(table, read, symbol, clear, size)) by {
            assert forall|prefix: int, sym: int| #[trigger]
                table.contains_key((prefix, sym)) implies {
                &&& code_known(size, clear, prefix)
                &&& 0 <= sym < 256
                &&& clear + 2 <= table[(prefix, sym)] < size
                &&& code_string(read, symbol, clear, table[(prefix, sym)]) == code_string(
                    read,
                    symbol,
                    clear,
                    prefix,
                ).push(sym as u8)
            } by {
                if (prefix, sym) == (state.current, symbol as int) {
                } else {
                    assert(state.table.contains_key((prefix, sym)));
                    assert(code_known(state.size, clear, state.table[(prefix, sym)]));
                }
            }
        }
        if pow2(state.width) < size {
            assert(next.codes == codes);
            assert(read.width == state.width + 1);
            assert(in_step(next, read, clear, longer));
        } else if size == CODE_TABLE_MAX_SIZE {
            let cleared = codes.push(Code { value: clear, width: state.width });
            assert(next.codes == cleared);
            assert(cleared.drop_last() == codes);
            assert(read.width == state.width);
            let reset = decoder_step(read, clear, clear, first_width)->0;
            assert(decode_codes(start, cleared, clear, first_width) == Some(reset));
            assert(reset.output == seen);
            assert(code_string(reset, symbol, clear, next.current) == after);
            assert(in_step(next, reset, clear, longer));
        } else {
            assert(next.codes == codes);
            assert(read.width == state.width);
            assert(in_step(next, read, clear, longer));
        }
    }
}

/// Whatever the compressor has read, the decoder is in step with it.
pub proof fn lemma_in_step(seen: Seq<u8>, num_colors: int)
    requires
        0 <= num_colors <= 256,
        seen.len() > 0,
        forall|i: int| 0 <= i < seen.len() ==> (#[trigger] seen[i]) < num_colors,
    ensures
        decoder_after(lzw_scan(seen, num_colors), num_colors) is Some,
        in_step(
            lzw_scan(seen, num_colors),
            decoder_after(lzw_scan(seen, num_colors), num_colors)->0,
            num_colors,
            seen,
        ),
    decreases seen.len(),
{
    if seen.len() == 1 {
        lemma_in_step_start(seen, num_colors);
    } else {
        let front = seen.drop_last();
        assert forall|i: int| 0 <= i < front.len() implies (#[trigger] front[i]) < num_colors by {
            assert(front[i] == seen[i]);
        }
        lemma_in_step(front, num_colors);
        let state = lzw_scan(front, num_colors);
        assert(seen[seen.len() - 1] < num_colors);
        lemma_in_step_next(
            state,
            decoder_after(state, num_colors)->0,
            num_colors,
            front,
            seen.last(),
        );
        assert(front.push(seen.last()) == seen);
    }
}

/// The round trip: the decoder gives back the symbols that were compressed.
///
/// The symbols are indexes into a palette of `num_colors` colors. The
/// decoder is told the Clear code, which is the number of colors, and the
/// width of the first code, which is one more than the minimum code size.
pub proof fn lemma_lzw_round_trip(symbols: Seq<u8>, num_colors: int)
    requires
        0 <= num_colors <= 256,
        forall|i: int| 0 <= i < symbols.len() ==> (#[trigger] symbols[i]) < num_colors,
    ensures
        lzw_decode(lzw_bytes(symbols, num_colors), num_colors, min_code_size(num_colors) + 1)
            == Some(symbols),
{
    let clear = num_colors;
    let first_width = min_code_size(clear) + 1;
    let start = decoder_start(first_width);
    let stream = lzw_codes(symbols, clear);
    let bits = codes_bits(stream);
    let fill = repeat(padding(bits.len() as int), false);
    lemma_unpack_pack(bits);
    lemma_min_code_size(clear);
    lemma2_to64();
    lemma_pow2_strictly_increases(0, first_width);
    if symbols.len() == 0 {
        let opening = stream.drop_last();
        assert(opening.drop_last() == Seq::<Code>::empty());
        assert(opening.last() == Code { value: clear, width: first_width });
        assert(stream.last() == Code { value: clear + 1, width: first_width });
        let opened = decoder_step(start, clear, clear, first_width)->0;
        assert(decode_codes(start, opening.drop_last(), clear, first_width) == Some(start));
        assert(decode_codes(start, opening, clear, first_width) == Some(opened));
        let closed = decoder_step(opened, clear + 1, clear, first_width)->0;
        assert(decode_codes(start, stream, clear, first_width) == Some(closed));
        lemma_decode_stream(start, stream, fill, clear, first_width);
        assert(closed.output == symbols);
    } else {
        let state = lzw_scan(symbols, clear);
        lemma_in_step(symbols, clear);
        let decoder = decoder_after(state, clear)->0;
        lemma_read_pending(state, decoder, clear, symbols);
        let width = state.width;
        let body = state.codes.push(Code { value: state.current, width });
        let end = Code { value: clear + 1, width };
        assert(stream == body.push(end));
        assert(body.drop_last() == state.codes);
        assert(body.last() == Code { value: state.current, width });
        let read = decoder_step(decoder, state.current, clear, first_width)->0;
        assert(decode_codes(start, body, clear, first_width) == Some(read));
        let pending = symbols.skip(decoder.output.len() as int);
        assert(read.output == decoder.output + pending);
        assert(read.output == symbols);
        assert(stream.drop_last() == body);
        assert(stream.last() == end);
        let rest = code_bits((clear + 1) as u64, width) + fill;
        assert(bits + fill == codes_bits(body) + rest);
        lemma_decode_stream(start, body, rest, clear, first_width);
        if read.width == width {
            lemma_decode_one(read, end, fill, clear, first_width);
        } else {
            assert(read.width == width + 1);
            if fill.len() == 0 {
                assert(rest.len() == width);
            } else {
                let shorter = repeat(padding(bits.len() as int) - 1, false);
                lemma_code_bit_above(clear + 1, width);
                assert(rest == code_bits((clear + 1) as u64, width + 1) + shorter);
                lemma_pow2_unfold(width + 1);
                lemma_decode_one(
                    read,
                    Code { value: clear + 1, width: width + 1 },
                    shorter,
                    clear,
                    first_width,
                );
            }
        }
    }
}

/// The round trip through image data: where the palette holds two colors or
/// a higher power of two, up to 256, a decoder that knows nothing but the
/// minimum code size gives back the symbols that were compressed.
pub proof fn lemma_gif_round_trip(symbols: Seq<u8>, num_colors: int)
    requires
        0 <= num_colors <= 256,
        num_colors == pow2(min_code_size(num_colors)),
        forall|i: int| 0 <= i < symbols.len() ==> (#[trigger] symbols[i]) < num_colors,
    ensures
        gif_decode(min_code_size(num_colors), lzw_bytes(symbols, num_colors)) == Some(symbols),
{
    lemma_lzw_round_trip(symbols, num_colors);
}

} // verus!
