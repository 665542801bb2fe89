//! The four 8-byte segments of a key image, and whether each can be loaded
//! as a sign-extended 32-bit immediate.

use vstd::prelude::*;
use crate::text::{digits_value, hex_digits, hex_limit, lemma_hex_round_trip};

verus! {

/// Bytes in a key image.
pub const KEY_LENGTH: usize = 32;

/// Bytes in one segment.
pub const SEGMENT_LENGTH: usize = 8;

/// Segments in a key image.
pub const SEGMENT_COUNT: usize = 4;

/// What the analysis says of one segment.
#[derive(Clone, Copy, Debug, PartialEq, Eq, Structural)]
pub enum SegmentClassification {
    /// The segment is the sign extension of this 32-bit value.
    Immediate(i32),
    /// The segment needs all 64 bits; this is its little-endian value.
    Wide(u64),
}

/// The segment with the given index: eight bytes of the key, and no others.
pub open spec fn segment_of(key: Seq<u8>, index: int) -> Seq<u8> {
    key.subrange(8 * index, 8 * index + 8)
}

/// The little-endian value of the four bytes from `at` on.
pub open spec fn le_word(seg: Seq<u8>, at: int) -> nat {
    (seg[at] + 0x100 * seg[at + 1] + 0x1_0000 * seg[at + 2] + 0x100_0000 * seg[at + 3]) as nat
}

/// The little-endian value of the whole segment.
pub open spec fn le_value(seg: Seq<u8>) -> nat {
    le_word(seg, 0) + 0x1_0000_0000 * le_word(seg, 4)
}

/// The top bit of the low 32 bits: the top bit of byte 3.
pub open spec fn sign_bit(seg: Seq<u8>) -> bool {
    seg[3] >= 0x80
}

/// Bytes 4 to 7 all hold `fill`.
pub open spec fn high_bytes_are(seg: Seq<u8>, fill: u8) -> bool {
    seg[4] == fill && seg[5] == fill && seg[6] == fill && seg[7] == fill
}

/// The segment equals the sign extension of its low 32 bits.
pub open spec fn is_imm32(seg: Seq<u8>) -> bool {
    if sign_bit(seg) {
        high_bytes_are(seg, 0xFF)
    } else {
        high_bytes_are(seg, 0x00)
    }
}

/// The low 32 bits of the segment read as a signed number.
pub open spec fn immediate_of(seg: Seq<u8>) -> int {
    if le_word(seg, 0) >= 0x8000_0000 {
        le_word(seg, 0) - 0x1_0000_0000
    } else {
        le_word(seg, 0) as int
    }
}

/// The classification of a segment of eight bytes.
pub open spec fn classify_spec(seg: Seq<u8>) -> SegmentClassification {
    if is_imm32(seg) {
        SegmentClassification::Immediate(immediate_of(seg) as i32)
    } else {
        SegmentClassification::Wide(le_value(seg) as u64)
    }
}

/// A 32-bit constant extended to 64 bits by repeating its top bit.
pub open spec fn sign_extend(constant: nat) -> nat {
    if constant >= 0x8000_0000 {
        (constant + 0xFFFF_FFFF_0000_0000) as nat
    } else {
        constant
    }
}

/// The index of the first segment that is a 32-bit immediate, if any.
pub open spec fn first_imm32(key: Seq<u8>, from: int) -> Option<int>
    decreases 4 - from,
{
    if from >= 4 {
        None
    } else if is_imm32(segment_of(key, from)) {
        Some(from)
    } else {
        first_imm32(key, from + 1)
    }
}

impl SegmentClassification {
    /// Whether the segment can be compared with an immediate operand.
    pub open spec fn compatible(&self) -> bool {
        self is Immediate
    }

    /// The constant that is written out: the immediate as an unsigned 32-bit
    /// number, or the full 64-bit value.
    pub open spec fn constant_spec(&self) -> nat {
        match self {
            SegmentClassification::Immediate(v) => if *v < 0 {
                (*v + 0x1_0000_0000) as nat
            } else {
                *v as nat
            },
            SegmentClassification::Wide(w) => *w as nat,
        }
    }

    /// The digits of the constant: eight for an immediate, sixteen otherwise.
    pub open spec fn constant_digits(&self) -> Seq<char> {
        match self {
            SegmentClassification::Immediate(_) => hex_digits(self.constant_spec(), 8),
            SegmentClassification::Wide(_) => hex_digits(self.constant_spec(), 16),
        }
    }

    /// Whether the segment can be compared with an immediate operand.
    pub fn is_compatible(&self) -> (r: bool)
        ensures
            r == self.compatible(),
    {
        match self {
            SegmentClassification::Immediate(_) => true,
            SegmentClassification::Wide(_) => false,
        }
    }

    /// The constant that is written out for the segment.
    pub fn constant(&self) -> (c: u64)
        ensures
            c == self.constant_spec(),
    {
        match self {
            SegmentClassification::Immediate(v) => {
                if *v < 0 {
                    (*v as i64 + 0x1_0000_0000) as u64
                } else {
                    *v as u64
                }
            },
            SegmentClassification::Wide(w) => *w,
        }
    }
}

/// Classifies the segment `index` of `key`, reading only its own eight bytes.
pub fn classify_segment(key: &[u8; 32], index: usize) -> (r: SegmentClassification)
    requires
        index < SEGMENT_COUNT,
    ensures
        r == classify_spec(segment_of(key@, index as int)),
{
    let at: usize = index * 8;
    let ghost seg = segment_of(key@, index as int);
    assert(forall|j: int| 0 <= j < 8 ==> seg[j] == key@[at + j]);
    let byte3: u8 = key[at + 3];
    assert((byte3 & 0x80 != 0) == (byte3 >= 0x80)) by (bit_vector);
    let compatible = if byte3 & 0x80 != 0 {
        key[at + 4] == 0xFF && key[at + 5] == 0xFF && key[at + 6] == 0xFF && key[at + 7] == 0xFF
    } else {
        key[at + 4] == 0x00 && key[at + 5] == 0x00 && key[at + 6] == 0x00 && key[at + 7] == 0x00
    };
    let low: u64 = key[at] as u64 + 0x100 * (key[at + 1] as u64) + 0x1_0000 * (key[at + 2] as u64)
        + 0x100_0000 * (key[at + 3] as u64);
    if compatible {
        let value: i64 = if low >= 0x8000_0000 {
            low as i64 - 0x1_0000_0000
        } else {
            low as i64
        };
        SegmentClassification::Immediate(value as i32)
    } else {
        let high: u64 = key[at + 4] as u64 + 0x100 * (key[at + 5] as u64) + 0x1_0000 * (key[at
            + 6] as u64) + 0x100_0000 * (key[at + 7] as u64);
        SegmentClassification::Wide(low + 0x1_0000_0000 * high)
    }
}

/// Classifies the four segments of `key`, in order.
pub fn classify_segments(key: &[u8; 32]) -> (r: [SegmentClassification; 4])
    ensures
        forall|i: int| 0 <= i < 4 ==> r@[i] == classify_spec(#[trigger] segment_of(key@, i)),
{
    [
        classify_segment(key, 0),
        classify_segment(key, 1),
        classify_segment(key, 2),
        classify_segment(key, 3),
    ]
}

/// The first segment of `key` that is a 32-bit immediate: the predicate of
/// the immediate search is that there is one.
pub fn first_compatible_segment(key: &[u8; 32]) -> (r: Option<usize>)
    ensures
        match r {
            Some(i) => i < 4 && first_imm32(key@, 0) == Some(i as int),
            None => first_imm32(key@, 0).is_none(),
        },
{
    let mut index: usize = 0;
    while index < 4
        invariant
            index <= 4,
            first_imm32(key@, 0) == first_imm32(key@, index as int),
        decreases 4 - index,
    {
        if classify_segment(key, index).is_compatible() {
            return Some(index);
        }
        index += 1;
    }
    None
}

/// The first immediate segment is one, and none before it is. Without one,
/// no segment is.
pub proof fn lemma_first_imm32(key: Seq<u8>, from: int)
    requires
        0 <= from <= 4,
    ensures
        match first_imm32(key, from) {
            Some(i) => from <= i < 4 && is_imm32(segment_of(key, i)) && forall|j: int|
                from <= j < i ==> !is_imm32(#[trigger] segment_of(key, j)),
            None => forall|j: int| from <= j < 4 ==> !is_imm32(#[trigger] segment_of(key, j)),
        },
    decreases 4 - from,
{
    if from < 4 && !is_imm32(segment_of(key, from)) {
        lemma_first_imm32(key, from + 1);
    }
}

/// A segment whose byte 3 has its top bit set and whose bytes 4 to 7 are all
/// `0xFF` is compatible, and its 32-bit constant, sign-extended to 64 bits,
/// is the little-endian value of the whole segment.
pub proof fn lemma_negative_immediate_round_trip(seg: Seq<u8>)
    requires
        seg.len() == 8,
        sign_bit(seg),
        high_bytes_are(seg, 0xFF),
    ensures
        classify_spec(seg).compatible(),
        classify_spec(seg).constant_spec() == le_word(seg, 0),
        sign_extend(classify_spec(seg).constant_spec()) == le_value(seg),
        digits_value(classify_spec(seg).constant_digits(), 16) == le_word(seg, 0),
{
    lemma_immediate_round_trip(seg);
}

/// Of every compatible segment: the 32-bit constant that is written out,
/// sign-extended to 64 bits, is the little-endian value of the segment.
pub proof fn lemma_immediate_round_trip(seg: Seq<u8>)
    requires
        seg.len() == 8,
        is_imm32(seg),
    ensures
        classify_spec(seg).compatible(),
        classify_spec(seg).constant_spec() == le_word(seg, 0),
        sign_extend(classify_spec(seg).constant_spec()) == le_value(seg),
        digits_value(classify_spec(seg).constant_digits(), 16) == le_word(seg, 0),
{
    assert(hex_limit(8) == 0x1_0000_0000) by {
        reveal_with_fuel(hex_limit, 9);
    }
    lemma_hex_round_trip(le_word(seg, 0), 8);
}

/// A segment that breaks the rule for its sign bit is incompatible, and the
/// constant that is written out is its whole little-endian value: sixteen
/// digits that denote it.
pub proof fn lemma_wide_constant_exact(seg: Seq<u8>)
    requires
        seg.len() == 8,
        !is_imm32(seg),
    ensures
        !classify_spec(seg).compatible(),
        classify_spec(seg) == SegmentClassification::Wide(le_value(seg) as u64),
        classify_spec(seg).constant_spec() == le_value(seg),
        classify_spec(seg).constant_digits().len() == 16,
        digits_value(classify_spec(seg).constant_digits(), 16) == le_value(seg),
{
    assert(hex_limit(16) == 0x1_0000_0000_0000_0000) by {
        reveal_with_fuel(hex_limit, 17);
    }
    lemma_hex_round_trip(le_value(seg), 16);
}

} // verus!
