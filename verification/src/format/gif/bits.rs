//! Codes of varying width, packed into bytes with the least significant bit first.
use vstd::prelude::*;

verus! {

/// Bit `index` of `code`, counted from the least significant one.
pub open spec fn code_bit(code: u64, index: int) -> bool {
    0 <= index < 64 && (code >> (index as u64)) & 1 == 1
}

/// The `length` lowest bits of `code`, the least significant one first.
pub open spec fn code_bits(code: u64, length: nat) -> Seq<bool> {
    Seq::new(length, |i: int| code_bit(code, i))
}

/// The bits of a byte sequence: eight for each byte, the least significant one first.
pub open spec fn unpack_bits(bytes: Seq<u8>) -> Seq<bool> {
    Seq::new(8 * bytes.len(), |i: int| code_bit(bytes[i / 8] as u64, i % 8))
}

/// Bit `index` of a bit sequence as a number; zero behind its end.
pub open spec fn bit_at(bits: Seq<bool>, index: int) -> u8 {
    if 0 <= index < bits.len() && bits[index] {
        1
    } else {
        0
    }
}

/// The byte made of eight bits, the first one the least significant.
pub open spec fn byte_of(b0: u8, b1: u8, b2: u8, b3: u8, b4: u8, b5: u8, b6: u8, b7: u8) -> u8 {
    b0 | b1 << 1 | b2 << 2 | b3 << 3 | b4 << 4 | b5 << 5 | b6 << 6 | b7 << 7
}

/// Byte `index` of a packed bit sequence; bits behind the sequence's end count as zero.
pub open spec fn pack_byte(bits: Seq<bool>, index: int) -> u8 {
    byte_of(
        bit_at(bits, 8 * index),
        bit_at(bits, 8 * index + 1),
        bit_at(bits, 8 * index + 2),
        bit_at(bits, 8 * index + 3),
        bit_at(bits, 8 * index + 4),
        bit_at(bits, 8 * index + 5),
        bit_at(bits, 8 * index + 6),
        bit_at(bits, 8 * index + 7),
    )
}

/// A bit sequence packed into bytes, the last byte padded with zero bits at its high end.
pub open spec fn pack_bits(bits: Seq<bool>) -> Seq<u8> {
    Seq::new(((bits.len() + 7) / 8) as nat, |j: int| pack_byte(bits, j))
}

/// A byte is made of its eight bits.
pub proof fn lemma_byte_of_bits(b: u8)
    ensures
        b == byte_of(
            if code_bit(b as u64, 0) { 1u8 } else { 0u8 },
            if code_bit(b as u64, 1) { 1u8 } else { 0u8 },
            if code_bit(b as u64, 2) { 1u8 } else { 0u8 },
            if code_bit(b as u64, 3) { 1u8 } else { 0u8 },
            if code_bit(b as u64, 4) { 1u8 } else { 0u8 },
            if code_bit(b as u64, 5) { 1u8 } else { 0u8 },
            if code_bit(b as u64, 6) { 1u8 } else { 0u8 },
            if code_bit(b as u64, 7) { 1u8 } else { 0u8 },
        ),
{
    let w = b as u64;
    assert(b == (if (w >> 0u64) & 1 == 1 { 1u8 } else { 0u8 })
        | (if (w >> 1u64) & 1 == 1 { 1u8 } else { 0u8 }) << 1
        | (if (w >> 2u64) & 1 == 1 { 1u8 } else { 0u8 }) << 2
        | (if (w >> 3u64) & 1 == 1 { 1u8 } else { 0u8 }) << 3
        | (if (w >> 4u64) & 1 == 1 { 1u8 } else { 0u8 }) << 4
        | (if (w >> 5u64) & 1 == 1 { 1u8 } else { 0u8 }) << 5
        | (if (w >> 6u64) & 1 == 1 { 1u8 } else { 0u8 }) << 6
        | (if (w >> 7u64) & 1 == 1 { 1u8 } else { 0u8 }) << 7) by (bit_vector)
        requires
            w == b as u64,
    ;
}

/// A byte whose bits from `count` upwards are zero has no set bit there.
pub proof fn lemma_high_bits_clear(b: u8, count: u8, index: int)
    requires
        count < 8,
        b >> count == 0,
        count <= index,
    ensures
        !code_bit(b as u64, index),
{
    if index < 64 {
        let w = b as u64;
        let i = index as u64;
        assert((w >> i) & 1 == 0) by (bit_vector)
            requires
                w == b as u64,
                count < 8,
                b >> count == 0,
                count <= i < 64,
        ;
    }
}

/// Packing gives back the bytes whose bits were packed, and the byte that was
/// begun where `count` bits of it are there.
pub proof fn lemma_pack_unpack(bytes: Seq<u8>, last: u8, count: u8)
    requires
        count <= 8,
        count < 8 ==> last >> count == 0,
    ensures
        pack_bits(unpack_bits(bytes) + code_bits(last as u64, count as nat)) == if count == 0 {
            bytes
        } else {
            bytes.push(last)
        },
        unpack_bits(bytes.push(last)) == unpack_bits(bytes) + code_bits(last as u64, 8),
{
    let bits = unpack_bits(bytes) + code_bits(last as u64, count as nat);
    let packed = pack_bits(bits);
    let want = if count == 0 {
        bytes
    } else {
        bytes.push(last)
    };
    assert(packed.len() == want.len());
    assert forall|j: int| 0 <= j < want.len() implies packed[j] == want[j] by {
        let b = want[j];
        lemma_byte_of_bits(b);
        assert forall|i: int| 0 <= i < 8 implies bit_at(bits, 8 * j + i) == (if #[trigger] code_bit(
            b as u64,
            i,
        ) {
            1u8
        } else {
            0u8
        }) by {
            if j < bytes.len() {
                assert(bits[8 * j + i] == unpack_bits(bytes)[8 * j + i]);
            } else if i < count {
                assert(bits[8 * j + i] == code_bits(last as u64, count as nat)[i]);
            } else {
                lemma_high_bits_clear(last, count, i);
            }
        }
        assert(bit_at(bits, 8 * j + 0) == bit_at(bits, 8 * j));
    }
    assert(packed == want);
    let pushed = unpack_bits(bytes.push(last));
    let joined = unpack_bits(bytes) + code_bits(last as u64, 8);
    assert(pushed.len() == joined.len());
    assert forall|i: int| 0 <= i < pushed.len() implies pushed[i] == joined[i] by {
        if i >= 8 * bytes.len() {
            assert(i / 8 == bytes.len());
            assert(i % 8 == i - 8 * bytes.len());
        }
    }
    assert(pushed == joined);
}

/// Packs codes of varying width into bytes, the least significant bit first.
pub struct BitCoder {
    pub buffer: Vec<u8>,
    pub curr_byte: u8,
    pub bit_pos: u8,
}

impl View for BitCoder {
    type V = Seq<bool>;

    /// Every bit written so far, in the order of writing.
    open spec fn view(&self) -> Seq<bool> {
        unpack_bits(self.buffer@) + code_bits(self.curr_byte as u64, self.bit_pos as nat)
    }
}

impl BitCoder {
    /// The byte that is being filled holds nothing above the bits that were written to it.
    pub open spec fn flushable(&self) -> bool {
        &&& self.bit_pos <= 8
        &&& self.bit_pos < 8 ==> self.curr_byte >> self.bit_pos == 0
    }

    /// The packer can take another bit.
    pub open spec fn wf(&self) -> bool {
        &&& self.flushable()
        &&& self.bit_pos < 8
    }

    pub fn new() -> (coder: Self)
        ensures
            coder.wf(),
            coder@ == Seq::<bool>::empty(),
            coder.buffer@ == Seq::<u8>::empty(),
    {
        let coder = BitCoder { buffer: Vec::new(), curr_byte: 0, bit_pos: 0 };
        proof {
            assert(0u8 >> 0u8 == 0) by (bit_vector);
            assert(coder@ == Seq::<bool>::empty());
        }
        coder
    }

    /// Appends the `length` lowest bits of `code`, the least significant one first.
    pub fn write_code(&mut self, code: usize, length: u8)
        requires
            old(self).wf(),
        ensures
            final(self).wf(),
            final(self)@ == old(self)@ + code_bits(code as u64, length as nat),
    {
        let wide: u64 = code as u64;
        let mut i: u8 = 0;
        while i < length
            invariant
                self.wf(),
                i <= length,
                wide == code as u64,
                self@ == old(self)@ + code_bits(wide, i as nat),
            decreases length - i,
        {
            let bit: u8 = if i < 64 {
                ((wide >> (i as u64)) & 1) as u8
            } else {
                0
            };
            let ghost before = *self;
            let ghost cur = self.curr_byte;
            let ghost pos = self.bit_pos;
            proof {
                let shift = i as u64;
                assert(i < 64 ==> ((wide >> shift) & 1 == 0 || (wide >> shift) & 1 == 1))
                    by (bit_vector);
                assert(bit == 1 <==> code_bit(wide, i as int));
                assert(bit == 0 || bit == 1);
                assert(((cur | (bit << pos)) >> ((pos + 1) as u8)) == 0 || pos == 7)
                    by (bit_vector)
                    requires
                        pos < 8,
                        cur >> pos == 0,
                        bit == 0 || bit == 1,
                ;
            }
            self.curr_byte = self.curr_byte | (bit << self.bit_pos);
            self.bit_pos = self.bit_pos + 1;
            proof {
                let now = self.curr_byte;
                assert forall|j: int| 0 <= j <= pos implies #[trigger] code_bit(now as u64, j) == (if j
                    < pos {
                    code_bit(cur as u64, j)
                } else {
                    bit == 1
                }) by {
                    let k = j as u64;
                    let w = now as u64;
                    let c = cur as u64;
                    assert(((w >> k) & 1 == 1) == (if k < pos {
                        (c >> k) & 1 == 1
                    } else {
                        bit == 1
                    })) by (bit_vector)
                        requires
                            now == cur | (bit << pos),
                            w == now as u64,
                            c == cur as u64,
                            pos < 8,
                            k <= pos,
                            cur >> pos == 0,
                            bit == 0 || bit == 1,
                    ;
                }
                assert(code_bits(now as u64, (pos + 1) as nat) == code_bits(
                    cur as u64,
                    pos as nat,
                ).push(code_bit(wide, i as int)));
                assert(code_bits(wide, (i + 1) as nat) == code_bits(wide, i as nat).push(
                    code_bit(wide, i as int),
                ));
                assert(self@ == before@.push(code_bit(wide, i as int)));
            }
            if self.bit_pos == 8 {
                self.flush();
            }
            i = i + 1;
        }
    }

    /// Moves the byte that is being filled to the buffer, padded with zero
    /// bits at its high end. Where no bit of it was written, nothing is moved.
    pub fn flush(&mut self)
        requires
            old(self).flushable(),
        ensures
            final(self).wf(),
            final(self).bit_pos == 0,
            final(self).curr_byte == 0,
            final(self).buffer@ == pack_bits(old(self)@),
            final(self)@ == unpack_bits(pack_bits(old(self)@)),
            old(self).bit_pos == 8 || old(self).bit_pos == 0 ==> final(self)@ == old(self)@,
    {
        proof {
            lemma_pack_unpack(self.buffer@, self.curr_byte, self.bit_pos);
            assert(0u8 >> 0u8 == 0) by (bit_vector);
        }
        if self.bit_pos > 0 {
            self.buffer.push(self.curr_byte);
        }
        self.curr_byte = 0;
        self.bit_pos = 0;
        proof {
            assert(code_bits(0u64, 0nat) == Seq::<bool>::empty());
            assert(self@ == unpack_bits(self.buffer@));
            if old(self).bit_pos == 0 {
                assert(old(self)@ == unpack_bits(old(self).buffer@));
            }
        }
    }
}

} // verus!
