use token_analysis::uax29::word::properties::{ascii_word_break_prop, WordBreakProperty};
use token_analysis::uax29::word::simd::{classify, BlockMasks};

/// The classification the engine relies on, derived from the authoritative property
/// table: word/space/solo cover exactly the ASCII bytes whose `WordBreakProperty` is
/// ALetter/Numeric/ExtendNumLet, WSegSpace, and Other respectively; everything else
/// (including all non-ASCII) must go to the DFA.
fn reference(b: u8) -> (bool, bool, bool, bool, bool) {
    if b >= 0x80 {
        return (false, false, false, false, true);
    }
    match ascii_word_break_prop(b) {
        WordBreakProperty::ALetter | WordBreakProperty::Numeric => {
            (true, false, false, true, false)
        }
        WordBreakProperty::ExtendNumLet => (true, false, false, false, false),
        WordBreakProperty::WSegSpace => (false, true, false, false, false),
        WordBreakProperty::Other => (false, false, true, false, false),
        _ => (false, false, false, false, true),
    }
}

/// Every byte value, in every lane position.
#[test]
fn classes_match_word_break_table() {
    for b in 0..=255u8 {
        let (word, space, solo, alnum, x) = reference(b);
        for lane in 0..64 {
            let mut block = [b'a'; 64];
            block[lane] = b;
            let masks = classify(&block, 0);
            let bit = |m: u64| m >> lane & 1 != 0;
            let got = (
                bit(masks.word),
                bit(masks.space),
                bit(masks.solo),
                bit(masks.alnum),
                bit(masks.x),
            );
            assert_eq!(
                got,
                (word, space, solo, alnum, x),
                "byte {b:#04x} lane {lane}"
            );
        }
    }
}

/// Bytes past the end of the input must classify as `x` so the engine stops there.
#[test]
fn padding_is_x() {
    for len in 0..=64 {
        let block = vec![b'a'; len];
        let masks = classify(&block, 0);
        let expect_x = if len == 64 { 0 } else { !((1u64 << len) - 1) };
        assert_eq!(masks.x, expect_x, "len {len}");
        assert_eq!(masks.word, !expect_x, "len {len}");
    }
}

#[test]
fn empty_masks_are_inert() {
    assert_eq!(BlockMasks::empty().x, !0);
}

#[test]
fn empty_masks_have_no_class_but_x() {
    let masks = BlockMasks::empty();
    assert_eq!((masks.word, masks.space, masks.solo, masks.alnum), (0, 0, 0, 0));
}

#[test]
fn classes_of_a_short_text() {
    let masks = classify(b"ab_1 -, \xC3\xA9", 0);
    assert_eq!(masks.word, 0b00_0000_1111);
    assert_eq!(masks.alnum, 0b00_0000_1011);
    assert_eq!(masks.space, 0b00_1001_0000);
    assert_eq!(masks.solo, 0b00_0010_0000);
    assert_eq!(masks.x, !0b00_1011_1111);
}

#[test]
fn classification_starts_at_the_base() {
    let mut text = vec![b' '; 70];
    text[65] = b'z';
    let masks = classify(&text, 2);
    assert_eq!(masks.word, 1 << 63);
    assert_eq!(masks.space, !(1 << 63));
    // Nothing is left of the text: everything is past its end.
    assert_eq!(classify(&text, 70).x, !0);
}

#[test]
fn newlines_and_quotes_need_the_dfa() {
    for b in [b'\n', b'\r', 0x0B, 0x0C, b'"', b'\'', b',', b'.', b':', b';'] {
        assert_eq!(classify(&[b], 0).x, !0, "byte {b:#04x}");
    }
    for b in [b'\t', 0, 0x7F, b'!', b'(', b'-', b'@'] {
        assert_eq!(classify(&[b], 0).solo, 1, "byte {b:#04x}");
    }
}

#[test]
fn properties_of_single_characters() {
    assert!(ascii_word_break_prop(b'\r') == WordBreakProperty::CR);
    assert!(ascii_word_break_prop(b'\n') == WordBreakProperty::LF);
    assert!(ascii_word_break_prop(0x0B) == WordBreakProperty::Newline);
    assert!(ascii_word_break_prop(b'"') == WordBreakProperty::DoubleQuote);
    assert!(ascii_word_break_prop(b'\'') == WordBreakProperty::SingleQuote);
    assert!(ascii_word_break_prop(b',') == WordBreakProperty::MidNum);
    assert!(ascii_word_break_prop(b';') == WordBreakProperty::MidNum);
    assert!(ascii_word_break_prop(b'.') == WordBreakProperty::MidNumLet);
    assert!(ascii_word_break_prop(b':') == WordBreakProperty::MidLetter);
}

#[test]
fn masks_depend_on_the_block_alone() {
    let text = b"some words, 12.5 (more)!";
    let mut shifted = vec![b'~'; 100];
    shifted.extend_from_slice(text);
    let (a, b) = (classify(text, 0), classify(&shifted, 100));
    assert_eq!(
        (a.word, a.space, a.solo, a.alnum, a.x),
        (b.word, b.space, b.solo, b.alnum, b.x)
    );
    // The four classes cover every byte once.
    assert_eq!(a.word | a.space | a.solo | a.x, !0);
    assert_eq!(
        a.word.count_ones() + a.space.count_ones() + a.solo.count_ones() + a.x.count_ones(),
        64
    );
    assert_eq!(a.alnum & !a.word, 0);
}
