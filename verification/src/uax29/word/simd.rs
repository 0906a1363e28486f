//! Block classifier for the word-break fast path.
//!
//! Classifies 64 input bytes at a time into the four character classes the fast path cares
//! about, returning one bitmask per class (bit i = byte i):
//!
//! - `word`: `[a-zA-Z0-9_]`, which continues a word run (`alnum` is the same minus `_`).
//! - `space`: ASCII space, which continues a whitespace run (WB3d).
//! - `solo`: ASCII bytes with `WordBreakProperty::Other` (`!`, `(`, `-`, tab, NUL, ...).
//!   These break unconditionally on both sides and form single-byte tokens.
//! - `x`: everything the fast path must hand to the DFA: non-ASCII bytes, CR/LF/VT/FF, and
//!   the mid-token candidates `, . : ; ' "` (MidNum / MidNumLet / MidLetter / quotes).
//!
//! The classifier is two nibble lookups per byte: each byte's class is
//! `LO_LUT[b & 0xF] & HI_LUT[b >> 4]`, where each bit of the lookup value is one (high-nibble
//! set, low-nibble set) product term.

use vstd::prelude::*;

use crate::uax29::word::properties;

verus! {

// Product terms. Each is a (high nibbles, low nibbles) rectangle of the byte table.
const T_DIGIT: u8 = 0x01;  //    hi 3,   lo 0-9: 0-9

const T_LETTER1: u8 = 0x02;  //  hi 4|6, lo 1-F: A-O, a-o

const T_LETTER2: u8 = 0x04;  //  hi 5|7, lo 0-A: P-Z, p-z

const T_UNDERSCORE: u8 = 0x08;  // hi 5, lo F

const T_SPACE: u8 = 0x10;  //    hi 2,   lo 0

const T_MIDQUOTE: u8 = 0x20;  // hi 2,   lo 2,7,C,E: " ' , .

const T_MIDCOLON: u8 = 0x40;  // hi 3,   lo A,B: : ;

const T_NEWLINE: u8 = 0x80;  // hi 0,   lo A-D: LF VT FF CR

const WORD: u8 = T_DIGIT | T_LETTER1 | T_LETTER2 | T_UNDERSCORE;

const ALNUM: u8 = T_DIGIT | T_LETTER1 | T_LETTER2;

const NEEDS_DFA: u8 = T_MIDQUOTE | T_MIDCOLON | T_NEWLINE;

const LO_LUT: [u8; 16] = [
    T_DIGIT | T_LETTER2 | T_SPACE,
    T_DIGIT | T_LETTER1 | T_LETTER2,
    T_DIGIT | T_LETTER1 | T_LETTER2 | T_MIDQUOTE,
    T_DIGIT | T_LETTER1 | T_LETTER2,
    T_DIGIT | T_LETTER1 | T_LETTER2,
    T_DIGIT | T_LETTER1 | T_LETTER2,
    T_DIGIT | T_LETTER1 | T_LETTER2,
    T_DIGIT | T_LETTER1 | T_LETTER2 | T_MIDQUOTE,
    T_DIGIT | T_LETTER1 | T_LETTER2,
    T_DIGIT | T_LETTER1 | T_LETTER2,
    T_LETTER1 | T_LETTER2 | T_MIDCOLON | T_NEWLINE,
    T_LETTER1 | T_MIDCOLON | T_NEWLINE,
    T_LETTER1 | T_MIDQUOTE | T_NEWLINE,
    T_LETTER1 | T_NEWLINE,
    T_LETTER1 | T_MIDQUOTE,
    T_LETTER1 | T_UNDERSCORE,
];

// 0x8-0xF (non-ASCII) are 0; those bytes land in `x` via their high bit.
const HI_LUT: [u8; 16] = [
    T_NEWLINE,
    0,
    T_SPACE | T_MIDQUOTE,
    T_DIGIT | T_MIDCOLON,
    T_LETTER1,
    T_LETTER2 | T_UNDERSCORE,
    T_LETTER1,
    T_LETTER2,
    0,
    0,
    0,
    0,
    0,
    0,
    0,
    0,
];

spec fn lo_terms(lo: u8) -> u8 {
    (if lo <= 9 { T_DIGIT } else { 0u8 }) | (if lo >= 1 { T_LETTER1 } else { 0u8 }) | (if lo <= 0xA {
        T_LETTER2
    } else {
        0u8
    }) | (if lo == 0xF { T_UNDERSCORE } else { 0u8 }) | (if lo == 0 { T_SPACE } else { 0u8 }) | (
    if lo == 2 || lo == 7 || lo == 0xC || lo == 0xE { T_MIDQUOTE } else { 0u8 }) | (if lo == 0xA
        || lo == 0xB { T_MIDCOLON } else { 0u8 }) | (if 0xA <= lo && lo <= 0xD { T_NEWLINE } else { 0u8 })
}

spec fn hi_terms(hi: u8) -> u8 {
    if hi == 0 {
        T_NEWLINE
    } else if hi == 2 {
        T_SPACE | T_MIDQUOTE
    } else if hi == 3 {
        T_DIGIT | T_MIDCOLON
    } else if hi == 4 || hi == 6 {
        T_LETTER1
    } else if hi == 5 {
        T_LETTER2 | T_UNDERSCORE
    } else if hi == 7 {
        T_LETTER2
    } else {
        0
    }
}

proof fn lemma_luts()
    ensures
        forall|i: u8| i < 16 ==> #[trigger] LO_LUT@[i as int] == lo_terms(i),
        forall|i: u8| i < 16 ==> #[trigger] HI_LUT@[i as int] == hi_terms(i),
{
    assert({
        &&& lo_terms(0) == T_DIGIT | T_LETTER2 | T_SPACE
        &&& lo_terms(1) == T_DIGIT | T_LETTER1 | T_LETTER2
        &&& lo_terms(2) == T_DIGIT | T_LETTER1 | T_LETTER2 | T_MIDQUOTE
        &&& lo_terms(3) == T_DIGIT | T_LETTER1 | T_LETTER2
        &&& lo_terms(4) == T_DIGIT | T_LETTER1 | T_LETTER2
        &&& lo_terms(5) == T_DIGIT | T_LETTER1 | T_LETTER2
        &&& lo_terms(6) == T_DIGIT | T_LETTER1 | T_LETTER2
        &&& lo_terms(7) == T_DIGIT | T_LETTER1 | T_LETTER2 | T_MIDQUOTE
        &&& lo_terms(8) == T_DIGIT | T_LETTER1 | T_LETTER2
        &&& lo_terms(9) == T_DIGIT | T_LETTER1 | T_LETTER2
        &&& lo_terms(10) == T_LETTER1 | T_LETTER2 | T_MIDCOLON | T_NEWLINE
        &&& lo_terms(11) == T_LETTER1 | T_MIDCOLON | T_NEWLINE
        &&& lo_terms(12) == T_LETTER1 | T_MIDQUOTE | T_NEWLINE
        &&& lo_terms(13) == T_LETTER1 | T_NEWLINE
        &&& lo_terms(14) == T_LETTER1 | T_MIDQUOTE
        &&& lo_terms(15) == T_LETTER1 | T_UNDERSCORE
    }) by (bit_vector);
}

/// Whether `b` continues a word run.
pub open spec fn is_word(b: u8) -> bool {
    b < 0x80 && (properties::word_break(b) is ALetter || properties::word_break(b) is Numeric
        || properties::word_break(b) is ExtendNumLet)
}

/// Whether `b` is a letter or a digit.
pub open spec fn is_alnum(b: u8) -> bool {
    b < 0x80 && (properties::word_break(b) is ALetter || properties::word_break(b) is Numeric)
}

/// Whether `b` continues a whitespace run.
pub open spec fn is_space(b: u8) -> bool {
    b < 0x80 && properties::word_break(b) is WSegSpace
}

/// Whether `b` is a token of its own.
pub open spec fn is_solo(b: u8) -> bool {
    b < 0x80 && properties::word_break(b) is Other
}

/// Whether `b` has to be handed to the DFA.
pub open spec fn needs_dfa(b: u8) -> bool {
    !is_word(b) && !is_space(b) && !is_solo(b)
}

/// Whether bit `i` of `mask` is set.
pub open spec fn bit(mask: u64, i: int) -> bool {
    (mask >> (i as u64)) & 1 == 1
}

spec fn terms(b: u8) -> u8 {
    lo_terms(b & 0x0F) & hi_terms(b >> 4)
}

/// The product terms of a byte tell its class.
proof fn lemma_terms(b: u8)
    ensures
        terms(b) & WORD != 0 <==> is_word(b),
        terms(b) & ALNUM != 0 <==> is_alnum(b),
        terms(b) & T_SPACE != 0 <==> is_space(b),
        (terms(b) & NEEDS_DFA != 0 || b & 0x80 != 0) <==> needs_dfa(b),
{
    let t = terms(b);
    assert((t & WORD != 0) == (0x30 <= b <= 0x39 || 0x41 <= b <= 0x5A || 0x61 <= b <= 0x7A || b
        == 0x5F)) by (bit_vector)
        requires
            t == lo_terms(b & 0x0F) & hi_terms(b >> 4),
    ;
    assert((t & ALNUM != 0) == (0x30 <= b <= 0x39 || 0x41 <= b <= 0x5A || 0x61 <= b <= 0x7A))
        by (bit_vector)
        requires
            t == lo_terms(b & 0x0F) & hi_terms(b >> 4),
    ;
    assert((t & T_SPACE != 0) == (b == 0x20)) by (bit_vector)
        requires
            t == lo_terms(b & 0x0F) & hi_terms(b >> 4),
    ;
    assert((t & NEEDS_DFA != 0 || b & 0x80 != 0) == (b >= 0x80 || b == 0x22 || b == 0x27 || b
        == 0x2C || b == 0x2E || b == 0x3A || b == 0x3B || 0x0A <= b <= 0x0D)) by (bit_vector)
        requires
            t == lo_terms(b & 0x0F) & hi_terms(b >> 4),
    ;
}

/// Per-class bitmasks for one 64-byte block; bit i corresponds to byte `base + i`.
#[derive(Clone, Copy)]
pub struct BlockMasks {
    pub word: u64,
    pub space: u64,
    pub solo: u64,
    pub alnum: u64,
    pub x: u64,
}

impl BlockMasks {
    /// The masks of no bytes at all.
    pub fn empty() -> (masks: Self)
        ensures
            masks == (BlockMasks { word: 0, space: 0, solo: 0, alnum: 0, x: u64::MAX }),
    {
        assert(!0u64 == u64::MAX) by (bit_vector);
        Self { word: 0, space: 0, solo: 0, alnum: 0, x: !0 }
    }

    /// Whether bit `i` of the masks tells the class of the byte `b`.
    pub open spec fn tell_class(self, i: int, b: u8) -> bool {
        &&& bit(self.word, i) == is_word(b)
        &&& bit(self.space, i) == is_space(b)
        &&& bit(self.solo, i) == is_solo(b)
        &&& bit(self.alnum, i) == is_alnum(b)
        &&& bit(self.x, i) == needs_dfa(b)
    }

    /// Whether these are the masks of the block `bytes`.
    pub open spec fn are_masks_of(self, bytes: Seq<u8>) -> bool {
        forall|i: int| 0 <= i < 64 ==> #[trigger] self.tell_class(i, bytes[i])
    }
}

/// The 64-byte block of `text` at `base`. Bytes past the end of `text` are 0xFF, which is not
/// ASCII.
pub open spec fn block(text: Seq<u8>, base: int) -> Seq<u8> {
    Seq::new(
        64,
        |i: int|
            if base + i < text.len() {
                text[base + i]
            } else {
                0xFFu8
            },
    )
}

/// Classifies the (up to) 64 bytes starting at `base`. Bytes past the end of `text` are
/// classified as `x`, so the engine naturally stops at the end of input.
pub fn classify(text: &[u8], base: usize) -> (masks: BlockMasks)
    requires
        base <= text@.len(),
    ensures
        masks.are_masks_of(block(text@, base as int)),
{
    let mut buf: [u8; 64] = [0xFF;64];  // 0xFF classifies as `x`
    let mut i: usize = 0;
    while i < 64 && i < text.len() - base
        invariant
            base <= text@.len(),
            i <= 64,
            i <= text@.len() - base,
            forall|j: int| 0 <= j < i ==> buf@[j] == text@[base + j],
            forall|j: int| i <= j < 64 ==> buf@[j] == 0xFF,
        decreases 64 - i,
    {
        buf[i] = text[base + i];
        i += 1;
    }
    assert(buf@ =~= block(text@, base as int));
    classify64(&buf)
}

/// Classifies a whole block.
fn classify64(chunk: &[u8; 64]) -> (masks: BlockMasks)
    ensures
        masks.are_masks_of(chunk@),
{
    let mut cls: [u8; 64] = [0;64];
    let mut i: usize = 0;
    while i < 64
        invariant
            i <= 64,
            forall|j: int| 0 <= j < i ==> cls@[j] == terms(chunk@[j]),
        decreases 64 - i,
    {
        let v = chunk[i];
        assert((v & 0x0F) < 16 && (v >> 4) < 16) by (bit_vector);
        proof {
            lemma_luts();
        }
        cls[i] = LO_LUT[(v & 0x0F) as usize] & HI_LUT[(v >> 4) as usize];
        i += 1;
    }
    let word = movemask(&test_lanes(&cls, WORD));
    let alnum = movemask(&test_lanes(&cls, ALNUM));
    let space = movemask(&test_lanes(&cls, T_SPACE));
    assert(0xFFu8 | 0xFFu8 == 0xFFu8 && 0xFFu8 | 0u8 == 0xFFu8 && 0u8 | 0xFFu8 == 0xFFu8 && 0u8
        | 0u8 == 0u8) by (bit_vector);
    let x = movemask(&or_lanes(&test_lanes(&cls, NEEDS_DFA), &test_lanes(chunk, 0x80)));
    let masks = BlockMasks { word, space, solo: !(word | space | x), alnum, x };
    proof {
        assert forall|i: int| 0 <= i < 64 implies #[trigger] masks.tell_class(i, chunk@[i]) by {
            lemma_terms(chunk@[i]);
            lemma_solo_bit(word, space, x, i as u64);
        }
    }
    masks
}

proof fn lemma_solo_bit(word: u64, space: u64, x: u64, i: u64)
    requires
        i < 64,
    ensures
        bit(!(word | space | x), i as int) == (!bit(word, i as int) && !bit(space, i as int)
            && !bit(x, i as int)),
{
    assert((!(word | space | x) >> i) & 1 == 1 <==> !((word >> i) & 1 == 1) && !((space >> i) & 1
        == 1) && !((x >> i) & 1 == 1)) by (bit_vector)
        requires
            i < 64,
    ;
}

/// Sets every lane of `v` that has one of `bits` to 0xFF and the others to 0x00.
fn test_lanes(v: &[u8; 64], bits: u8) -> (lanes: [u8; 64])
    ensures
        forall|i: int|
            0 <= i < 64 ==> #[trigger] lanes@[i] == (if v@[i] & bits != 0 {
                0xFFu8
            } else {
                0u8
            }),
{
    let mut lanes: [u8; 64] = [0;64];
    let mut i: usize = 0;
    while i < 64
        invariant
            i <= 64,
            forall|j: int|
                0 <= j < i ==> #[trigger] lanes@[j] == (if v@[j] & bits != 0 {
                    0xFFu8
                } else {
                    0u8
                }),
        decreases 64 - i,
    {
        lanes[i] = if v[i] & bits != 0 {
            0xFF
        } else {
            0
        };
        i += 1;
    }
    lanes
}

/// The lane-wise union of two lane masks.
fn or_lanes(a: &[u8; 64], b: &[u8; 64]) -> (lanes: [u8; 64])
    ensures
        forall|i: int| 0 <= i < 64 ==> #[trigger] lanes@[i] == a@[i] | b@[i],
{
    let mut lanes: [u8; 64] = [0;64];
    let mut i: usize = 0;
    while i < 64
        invariant
            i <= 64,
            forall|j: int| 0 <= j < i ==> #[trigger] lanes@[j] == a@[j] | b@[j],
        decreases 64 - i,
    {
        lanes[i] = a[i] | b[i];
        i += 1;
    }
    lanes
}

proof fn lemma_set_bit(mask: u64, i: u64, j: u64)
    requires
        i < 64,
        j < 64,
    ensures
        bit(mask | (1u64 << i), j as int) == (bit(mask, j as int) || j == i),
{
    assert(((mask | (1u64 << i)) >> j) & 1 == 1 <==> ((mask >> j) & 1 == 1) || j == i)
        by (bit_vector)
        requires
            i < 64,
            j < 64,
    ;
}

/// Packs per-byte 0xFF/0x00 lane masks into a 64-bit mask (bit i = byte i).
fn movemask(lanes: &[u8; 64]) -> (mask: u64)
    requires
        forall|i: int| 0 <= i < 64 ==> #[trigger] lanes@[i] == 0xFF || lanes@[i] == 0,
    ensures
        forall|i: int| 0 <= i < 64 ==> #[trigger] bit(mask, i) == (lanes@[i] == 0xFF),
{
    let mut mask: u64 = 0;
    proof {
        assert forall|j: int| 0 <= j < 64 implies !#[trigger] bit(0, j) by {
            let k = j as u64;
            assert((0u64 >> k) & 1 != 1) by (bit_vector);
        }
    }
    let mut i: usize = 0;
    while i < 64
        invariant
            i <= 64,
            forall|j: int| 0 <= j < 64 ==> #[trigger] lanes@[j] == 0xFF || lanes@[j] == 0,
            forall|j: int|
                0 <= j < 64 ==> #[trigger] bit(mask, j) == (j < i && lanes@[j] == 0xFF),
        decreases 64 - i,
    {
        if lanes[i] != 0 {
            proof {
                assert forall|j: int| 0 <= j < 64 implies #[trigger] bit(mask | (1u64 << i), j) == (
                bit(mask, j) || j == i) by {
                    lemma_set_bit(mask, i as u64, j as u64);
                }
            }
            mask = mask | (1u64 << i);
        }
        i += 1;
    }
    mask
}

/// Every byte is in exactly one of the classes word, space, solo and `x`, and the letters and
/// digits are word bytes.
pub proof fn law_classes_partition(masks: BlockMasks, bytes: Seq<u8>, i: int)
    requires
        masks.are_masks_of(bytes),
        0 <= i < 64,
    ensures
        bit(masks.word, i) || bit(masks.space, i) || bit(masks.solo, i) || bit(masks.x, i),
        bit(masks.word, i) ==> !bit(masks.space, i) && !bit(masks.solo, i) && !bit(masks.x, i),
        bit(masks.space, i) ==> !bit(masks.solo, i) && !bit(masks.x, i),
        bit(masks.solo, i) ==> !bit(masks.x, i),
        bit(masks.alnum, i) ==> bit(masks.word, i),
        bit(masks.word, i) && !bit(masks.alnum, i) ==> bytes[i] == 0x5F,
{
    assert(masks.tell_class(i, bytes[i]));
}

/// Bytes past the end of the text, and bytes that are not ASCII, are in `x` and in no other
/// class.
pub proof fn law_past_the_end_is_x(masks: BlockMasks, text: Seq<u8>, base: int, i: int)
    requires
        masks.are_masks_of(block(text, base)),
        0 <= base <= text.len(),
        0 <= i < 64,
        base + i >= text.len() || text[base + i] >= 0x80,
    ensures
        bit(masks.x, i),
        !bit(masks.word, i),
        !bit(masks.space, i),
        !bit(masks.solo, i),
        !bit(masks.alnum, i),
{
    assert(masks.tell_class(i, block(text, base)[i]));
}

/// The classes of the bytes of a text: word bytes are the ASCII letters, digits and `_`; the
/// letters and digits alone are in `alnum`; the space is its own class; bytes that are not ASCII,
/// line ends and `"` `'` `,` `.` `:` `;` need the DFA; every other byte is solo.
pub proof fn law_bits_tell_the_text(masks: BlockMasks, text: Seq<u8>, base: int, i: int)
    requires
        masks.are_masks_of(block(text, base)),
        0 <= base,
        0 <= i < 64,
        base + i < text.len(),
    ensures
        ({
            let b = text[base + i];
            let is_letter_or_digit = 0x30 <= b <= 0x39 || 0x41 <= b <= 0x5A || 0x61 <= b <= 0x7A;
            let is_for_dfa = b >= 0x80 || 0x0A <= b <= 0x0D || b == 0x22 || b == 0x27 || b == 0x2C
                || b == 0x2E || b == 0x3A || b == 0x3B;
            &&& bit(masks.word, i) == (is_letter_or_digit || b == 0x5F)
            &&& bit(masks.alnum, i) == is_letter_or_digit
            &&& bit(masks.space, i) == (b == 0x20)
            &&& bit(masks.x, i) == is_for_dfa
            &&& bit(masks.solo, i) == !(is_letter_or_digit || b == 0x5F || b == 0x20 || is_for_dfa)
        }),
{
    assert(masks.tell_class(i, block(text, base)[i]));
}

/// A block has one set of masks.
pub proof fn law_masks_are_determined(a: BlockMasks, b: BlockMasks, bytes: Seq<u8>)
    requires
        a.are_masks_of(bytes),
        b.are_masks_of(bytes),
    ensures
        a == b,
{
    if a.word != b.word {
        let i = lemma_differing_bit(a.word, b.word, 64) as int;
        assert(a.tell_class(i, bytes[i]) && b.tell_class(i, bytes[i]));
    }
    if a.space != b.space {
        let i = lemma_differing_bit(a.space, b.space, 64) as int;
        assert(a.tell_class(i, bytes[i]) && b.tell_class(i, bytes[i]));
    }
    if a.solo != b.solo {
        let i = lemma_differing_bit(a.solo, b.solo, 64) as int;
        assert(a.tell_class(i, bytes[i]) && b.tell_class(i, bytes[i]));
    }
    if a.alnum != b.alnum {
        let i = lemma_differing_bit(a.alnum, b.alnum, 64) as int;
        assert(a.tell_class(i, bytes[i]) && b.tell_class(i, bytes[i]));
    }
    if a.x != b.x {
        let i = lemma_differing_bit(a.x, b.x, 64) as int;
        assert(a.tell_class(i, bytes[i]) && b.tell_class(i, bytes[i]));
    }
}

proof fn lemma_differing_bit(a: u64, b: u64, n: u64) -> (i: u64)
    requires
        n <= 64,
        n < 64 ==> (a >> n) == (b >> n),
        a != b,
    ensures
        i < n,
        bit(a, i as int) != bit(b, i as int),
    decreases n,
{
    assert(n > 0) by {
        if n == 0 {
            assert(a == b) by (bit_vector)
                requires
                    (a >> 0u64) == (b >> 0u64),
            ;
        }
    }
    let m: u64 = (n - 1) as u64;
    if bit(a, m as int) != bit(b, m as int) {
        m
    } else {
        assert((a >> m) == (b >> m)) by (bit_vector)
            requires
                m < 64,
                m < 63 ==> (a >> ((m + 1) as u64)) == (b >> ((m + 1) as u64)),
                (((a >> m) & 1) == 1) == (((b >> m) & 1) == 1),
        ;
        lemma_differing_bit(a, b, m)
    }
}

/// Between two bytes that need no DFA there is no word boundary exactly if both are word bytes
/// or both are spaces: within such a run, boundaries fall at class transitions and around every
/// solo byte.
pub proof fn law_runs_break_at_class_transitions(a: u8, b: u8)
    requires
        !needs_dfa(a),
        !needs_dfa(b),
    ensures
        properties::joins(properties::word_break(a), properties::word_break(b)) <==> (is_word(a)
            && is_word(b)) || (is_space(a) && is_space(b)),
{
}

} // verus!
