//! The dictionary compressor of the GIF format, working on a run list.
//!
//! The dictionary is keyed by an entry that it already holds and the symbol
//! that follows it. The codes below the number of colors stand for the colors
//! themselves; the next two are the Clear code and the End-of-Information
//! code; every further code stands for an entry followed by one symbol.
use crate::format::gif::bits::{code_bits, pack_bits, BitCoder};
use crate::format::image::RLE;
use crate::format::runs::{repeat, run_pixels};
use std::collections::HashMap;
use vstd::arithmetic::power2::{lemma2_to64, lemma_pow2_strictly_increases, lemma_pow2_unfold, pow2};
use vstd::prelude::*;

verus! {

/// The number of codes at which the dictionary is full.
pub const CODE_TABLE_MAX_SIZE: usize = 4096;

/// The smallest exponent `b`, not below `from`, with `2^(b+1) >= size`.
pub open spec fn smallest_exponent(size: int, from: nat) -> nat
    decreases 64 - from,
{
    if from >= 64 || pow2(from + 1) >= size {
        from
    } else {
        smallest_exponent(size, from + 1)
    }
}

/// The minimum code size for a palette of `num_colors` colors: the smallest
/// `b` such that `2^(b+1)` codes hold the colors and the two control codes.
pub open spec fn min_code_size(num_colors: int) -> nat {
    smallest_exponent(num_colors + 2, 0)
}

/// One code of the compressed stream, with the number of bits that it takes.
pub struct Code {
    pub value: int,
    pub width: nat,
}

/// The compressor between two symbols.
pub struct LzwState {
    /// The entries made since the last Clear code: an earlier code and the
    /// symbol that follows it, to the code that stands for both.
    pub table: Map<(int, int), int>,
    /// The number of codes in use, the colors and the two control codes included.
    pub size: int,
    /// The code of the sequence read and not yet written.
    pub current: int,
    /// The number of bits of the next code.
    pub width: nat,
    /// The codes written so far.
    pub codes: Seq<Code>,
}

/// The compressor after the Clear code that opens the stream and the first symbol.
pub open spec fn lzw_start(first: int, num_colors: int) -> LzwState {
    LzwState {
        table: Map::empty(),
        size: num_colors + 2,
        current: first,
        width: min_code_size(num_colors) + 1,
        codes: seq![Code { value: num_colors, width: min_code_size(num_colors) + 1 }],
    }
}

/// The compressor after one more symbol.
///
/// A sequence that the dictionary holds is extended. Otherwise its code is
/// written and the extended sequence becomes a new entry. The width grows
/// when the dictionary has outgrown it; a dictionary that has become full is
/// given up after a Clear code.
pub open spec fn lzw_step(state: LzwState, symbol: int, num_colors: int) -> LzwState {
    if state.table.contains_key((state.current, symbol)) {
        LzwState { current: state.table[(state.current, symbol)], ..state }
    } else {
        let codes = state.codes.push(Code { value: state.current, width: state.width });
        let table = state.table.insert((state.current, symbol), state.size);
        let size = state.size + 1;
        if pow2(state.width) < size {
            LzwState { table, size, current: symbol, width: state.width + 1, codes }
        } else if size == CODE_TABLE_MAX_SIZE {
            LzwState {
                table: Map::empty(),
                size: num_colors + 2,
                current: symbol,
                width: min_code_size(num_colors) + 1,
                codes: codes.push(Code { value: num_colors, width: state.width }),
            }
        } else {
            LzwState { table, size, current: symbol, width: state.width, codes }
        }
    }
}

/// The compressor after all of `symbols`, of which there is at least one.
pub open spec fn lzw_scan(symbols: Seq<u8>, num_colors: int) -> LzwState
    decreases symbols.len(),
{
    if symbols.len() <= 1 {
        lzw_start(symbols[0] as int, num_colors)
    } else {
        lzw_step(lzw_scan(symbols.drop_last(), num_colors), symbols.last() as int, num_colors)
    }
}

/// The codes of the compressed stream: the Clear code, the codes of the
/// symbols, the code of what was read last, and the End-of-Information code.
pub open spec fn lzw_codes(symbols: Seq<u8>, num_colors: int) -> Seq<Code> {
    if symbols.len() == 0 {
        let width = min_code_size(num_colors) + 1;
        seq![Code { value: num_colors, width }, Code { value: num_colors + 1, width }]
    } else {
        let last = lzw_scan(symbols, num_colors);
        last.codes.push(Code { value: last.current, width: last.width }).push(
            Code { value: num_colors + 1, width: last.width },
        )
    }
}

/// The bits of a code stream: each code's bits, the least significant one first.
pub open spec fn codes_bits(codes: Seq<Code>) -> Seq<bool>
    decreases codes.len(),
{
    if codes.len() == 0 {
        Seq::empty()
    } else {
        codes_bits(codes.drop_last()) + code_bits(codes.last().value as u64, codes.last().width)
    }
}

/// The bytes of the compressed stream.
pub open spec fn lzw_bytes(symbols: Seq<u8>, num_colors: int) -> Seq<u8> {
    pack_bits(codes_bits(lzw_codes(symbols, num_colors)))
}

/// What holds of the compressor between any two symbols.
pub open spec fn lzw_bounded(state: LzwState, num_colors: int) -> bool {
    &&& num_colors + 2 <= state.size < CODE_TABLE_MAX_SIZE
    &&& 1 <= state.width <= 12
    &&& pow2((state.width - 1) as nat) < state.size <= pow2(state.width)
}

/// Where the search for the minimum code size ends.
pub proof fn lemma_min_code_size(num_colors: int)
    requires
        0 <= num_colors <= 256,
    ensures
        min_code_size(num_colors) <= 8,
        pow2(min_code_size(num_colors) + 1) >= num_colors + 2,
        pow2(min_code_size(num_colors)) < num_colors + 2,
{
    lemma2_to64();
    let size = num_colors + 2;
    reveal_with_fuel(smallest_exponent, 10);
    assert(smallest_exponent(size, 8) == 8);
}

pub proof fn lemma_lzw_start_bounded(first: int, num_colors: int)
    requires
        0 <= num_colors <= 256,
    ensures
        lzw_bounded(lzw_start(first, num_colors), num_colors),
{
    lemma_min_code_size(num_colors);
}

pub proof fn lemma_lzw_step_bounded(state: LzwState, symbol: int, num_colors: int)
    requires
        0 <= num_colors <= 256,
        lzw_bounded(state, num_colors),
    ensures
        lzw_bounded(lzw_step(state, symbol, num_colors), num_colors),
{
    lemma_min_code_size(num_colors);
    lemma2_to64();
    lemma_pow2_unfold(state.width + 1);
    if state.width >= 12 {
        assert(pow2(state.width) == 4096);
    } else {
        lemma_pow2_strictly_increases(state.width + 1, 13);
    }
}

/// The compressor stays within its bounds whatever it reads.
pub proof fn lemma_lzw_scan_bounded(symbols: Seq<u8>, num_colors: int)
    requires
        0 <= num_colors <= 256,
    ensures
        lzw_bounded(lzw_scan(symbols, num_colors), num_colors),
    decreases symbols.len(),
{
    if symbols.len() <= 1 {
        lemma_lzw_start_bounded(symbols[0] as int, num_colors);
    } else {
        lemma_lzw_scan_bounded(symbols.drop_last(), num_colors);
        lemma_lzw_step_bounded(
            lzw_scan(symbols.drop_last(), num_colors),
            symbols.last() as int,
            num_colors,
        );
    }
}

/// The key under which the executable dictionary holds an entry.
pub open spec fn table_key(prefix: int, symbol: int) -> u32 {
    (prefix * 256 + symbol) as u32
}

/// The executable dictionary holds the entries of the model, and no others.
pub open spec fn table_matches(exec_table: Map<u32, u16>, table: Map<(int, int), int>) -> bool {
    &&& forall|prefix: int, symbol: int| #[trigger]
        table.contains_key((prefix, symbol)) ==> {
            &&& 0 <= prefix < 0x10000
            &&& 0 <= symbol < 256
            &&& exec_table.contains_key(table_key(prefix, symbol))
            &&& exec_table[table_key(prefix, symbol)] as int == table[(prefix, symbol)]
        }
    &&& forall|key: u32| #[trigger]
        exec_table.contains_key(key) ==> table.contains_key((key as int / 256, key as int % 256))
}

/// Computes the minimum code size for `num_colors` colors and the number of
/// codes that the first code width can hold.
fn initial_code_size(num_colors: usize) -> (sizes: (u8, usize))
    requires
        num_colors <= 256,
    ensures
        sizes.0 == min_code_size(num_colors as int),
        sizes.0 <= 8,
        sizes.1 == pow2((sizes.0 + 1) as nat),
{
    let size: usize = num_colors + 2;
    let mut exponent: u8 = 0;
    let mut limit: usize = 2;
    proof {
        lemma2_to64();
    }
    while limit < size
        invariant
            size == num_colors + 2,
            size <= 258,
            exponent <= 8,
            limit == pow2((exponent + 1) as nat),
            limit <= 512,
            exponent == 8 ==> limit == 512,
            min_code_size(num_colors as int) == smallest_exponent(size as int, exponent as nat),
        decreases 512 - limit,
    {
        proof {
            lemma2_to64();
            lemma_pow2_unfold((exponent + 2) as nat);
        }
        limit = limit * 2;
        exponent = exponent + 1;
    }
    (exponent, limit)
}

/// Compresses the pixels of a run list that holds indexes into a palette of
/// `num_colors` colors. Returns the minimum code size and the packed codes.
pub fn lzw_encode(runs: &Vec<RLE<u8>>, num_colors: usize) -> (encoded: (u8, Vec<u8>))
    requires
        num_colors <= 256,
    ensures
        encoded.0 == min_code_size(num_colors as int),
        encoded.1@ == lzw_bytes(run_pixels(runs@), num_colors as int),
{
    let ghost colors = num_colors as int;
    let (min_size, first_limit) = initial_code_size(num_colors);
    let clear: usize = num_colors;
    let end_of_information: usize = num_colors + 1;

    let mut width: u8 = min_size + 1;
    let mut limit: usize = first_limit;
    let mut size: usize = num_colors + 2;
    let mut current: u16 = 0;
    let mut started: bool = false;
    let mut table: HashMap<u32, u16> = HashMap::new();
    let mut encoded = BitCoder::new();
    encoded.write_code(clear, width);

    let ghost mut seen: Seq<u8> = Seq::empty();
    let ghost mut state: LzwState = lzw_start(0, colors);
    proof {
        let opening = seq![Code { value: colors, width: width as nat }];
        assert(opening.drop_last() == Seq::<Code>::empty());
        assert(codes_bits(opening.drop_last()) == Seq::<bool>::empty());
        assert(codes_bits(opening) == code_bits(clear as u64, width as nat));
        assert(runs@.take(0) == Seq::<RLE<u8>>::empty());
        lemma_lzw_start_bounded(0, colors);
    }

    let total: usize = runs.len();
    let mut r: usize = 0;
    while r < total
        invariant
            colors == num_colors,
            num_colors <= 256,
            clear == num_colors,
            total == runs@.len(),
            r <= total,
            min_size == min_code_size(colors),
            min_size <= 8,
            first_limit == pow2((min_size + 1) as nat),
            seen == run_pixels(runs@.take(r as int)),
            started == (seen.len() > 0),
            started ==> state == lzw_scan(seen, colors),
            !started ==> state == lzw_start(0, colors),
            lzw_bounded(state, colors),
            size == state.size,
            width == state.width,
            limit == pow2(width as nat),
            started ==> current == state.current,
            table_matches(table@, state.table),
            encoded.wf(),
            encoded@ == codes_bits(state.codes),
        decreases total - r,
    {
        let freq: usize = runs[r].freq;
        let symbol: u8 = runs[r].value;
        let ghost before = seen;
        let mut n: usize = 0;
        while n < freq
            invariant
                colors == num_colors,
                num_colors <= 256,
                clear == num_colors,
                n <= freq,
                min_size == min_code_size(colors),
                min_size <= 8,
                first_limit == pow2((min_size + 1) as nat),
                seen == before + repeat(n as int, symbol),
                started == (seen.len() > 0),
                started ==> state == lzw_scan(seen, colors),
                !started ==> state == lzw_start(0, colors),
                lzw_bounded(state, colors),
                size == state.size,
                width == state.width,
                limit == pow2(width as nat),
                started ==> current == state.current,
                table_matches(table@, state.table),
                encoded.wf(),
                encoded@ == codes_bits(state.codes),
            decreases freq - n,
        {
            let ghost longer = seen.push(symbol);
            proof {
                assert(longer.drop_last() == seen);
                assert(longer.last() == symbol);
                assert(before + repeat(n + 1, symbol) == (before + repeat(n as int, symbol)).push(
                    symbol,
                ));
            }
            if !started {
                current = symbol as u16;
                started = true;
                proof {
                    state = lzw_start(symbol as int, colors);
                    assert(longer[0] == symbol);
                    lemma_lzw_start_bounded(symbol as int, colors);
                }
            } else {
                let key: u32 = (current as u32) * 256 + (symbol as u32);
                let ghost next = lzw_step(state, symbol as int, colors);
                proof {
                    assert(key == table_key(current as int, symbol as int));
                    assert(key as int / 256 == current as int);
                    assert(key as int % 256 == symbol as int);
                    lemma_lzw_step_bounded(state, symbol as int, colors);
                    assert(lzw_scan(longer, colors) == next);
                }
                let found: Option<u16> = match table.get(&key) {
                    Some(code) => Some(*code),
                    None => None,
                };
                match found {
                    Some(code) => {
                        current = code;
                        proof {
                            assert(state.table.contains_key((state.current, symbol as int)));
                            assert(next.codes == state.codes);
                        }
                    },
                    None => {
                        let ghost written = state.codes.push(
                            Code { value: state.current, width: state.width },
                        );
                        proof {
                            assert(!state.table.contains_key((state.current, symbol as int)));
                            assert(written.drop_last() == state.codes);
                            assert(written.last() == Code {
                                value: state.current,
                                width: state.width,
                            });
                            assert(codes_bits(written) == codes_bits(state.codes) + code_bits(
                                state.current as u64,
                                state.width,
                            ));
                        }
                        encoded.write_code(current as usize, width);
                        assert(encoded@ == codes_bits(written));
                        let ghost old_table = table@;
                        table.insert(key, size as u16);
                        size = size + 1;
                        proof {
                            let grown = state.table.insert(
                                (state.current, symbol as int),
                                state.size,
                            );
                            assert forall|prefix: int, sym: int| #[trigger]
                                grown.contains_key((prefix, sym)) implies {
                                &&& 0 <= prefix < 0x10000
                                &&& 0 <= sym < 256
                                &&& table@.contains_key(table_key(prefix, sym))
                                &&& table@[table_key(prefix, sym)] as int == grown[(prefix, sym)]
                            } by {
                                if (prefix, sym) != (state.current, symbol as int) {
                                    assert(state.table.contains_key((prefix, sym)));
                                    assert(table_key(prefix, sym) != key);
                                }
                            }
                            assert forall|k: u32| #[trigger]
                                table@.contains_key(k) implies grown.contains_key(
                                (k as int / 256, k as int % 256),
                            ) by {
                                if k != key {
                                    assert(old_table.contains_key(k));
                                }
                            }
                            lemma2_to64();
                        }
                        if limit < size {
                            proof {
                                lemma_pow2_unfold((width + 1) as nat);
                            }
                            width = width + 1;
                            limit = limit * 2;
                        } else if size == CODE_TABLE_MAX_SIZE {
                            let ghost cleared = written.push(
                                Code { value: colors, width: state.width },
                            );
                            proof {
                                assert(cleared.drop_last() == written);
                                assert(cleared.last() == Code {
                                    value: colors,
                                    width: state.width,
                                });
                                assert(codes_bits(cleared) == codes_bits(written) + code_bits(
                                    colors as u64,
                                    state.width,
                                ));
                            }
                            encoded.write_code(clear, width);
                            assert(encoded@ == codes_bits(cleared));
                            assert(next.codes == cleared);
                            table.clear();
                            size = num_colors + 2;
                            width = min_size + 1;
                            limit = first_limit;
                        }
                        current = symbol as u16;
                    },
                }
                proof {
                    state = next;
                }
            }
            proof {
                seen = longer;
            }
            n = n + 1;
        }
        proof {
            let upto = runs@.take(r + 1);
            assert(upto.drop_last() == runs@.take(r as int));
            assert(upto.last() == runs@[r as int]);
        }
        r = r + 1;
    }
    proof {
        assert(runs@.take(total as int) == runs@);
    }
    let ghost stream = lzw_codes(seen, colors);
    if started {
        let ghost pending = state.codes.push(Code { value: state.current, width: state.width });
        proof {
            assert(pending.drop_last() == state.codes);
            assert(pending.last() == Code { value: state.current, width: state.width });
            assert(stream.drop_last() == pending);
            assert(codes_bits(pending) == codes_bits(state.codes) + code_bits(
                state.current as u64,
                state.width,
            ));
        }
        encoded.write_code(current as usize, width);
        assert(encoded@ == codes_bits(stream.drop_last()));
    } else {
        proof {
            assert(stream.drop_last() == state.codes);
        }
    }
    proof {
        assert(stream.last() == Code { value: colors + 1, width: width as nat });
        assert(codes_bits(stream) == codes_bits(stream.drop_last()) + code_bits(
            (colors + 1) as u64,
            width as nat,
        ));
    }
    encoded.write_code(end_of_information, width);
    assert(encoded@ == codes_bits(stream));
    encoded.flush();
    (min_size, encoded.buffer)
}

} // verus!
