//! Word-break properties (UAX #29) of the ASCII characters.

use vstd::prelude::*;

verus! {

/// The values of the `Word_Break` property that ASCII characters have.
#[derive(Clone, Copy, Debug, PartialEq, Eq, Structural)]
pub enum WordBreakProperty {
    Other,
    CR,
    LF,
    Newline,
    ALetter,
    SingleQuote,
    DoubleQuote,
    MidLetter,
    MidNum,
    MidNumLet,
    Numeric,
    ExtendNumLet,
    WSegSpace,
}

/// The `Word_Break` property of the ASCII character `b`.
pub open spec fn word_break(b: u8) -> WordBreakProperty {
    if 0x41 <= b <= 0x5A || 0x61 <= b <= 0x7A {
        WordBreakProperty::ALetter
    } else if 0x30 <= b <= 0x39 {
        WordBreakProperty::Numeric
    } else if b == 0x5F {
        WordBreakProperty::ExtendNumLet
    } else if b == 0x20 {
        WordBreakProperty::WSegSpace
    } else if b == 0x0D {
        WordBreakProperty::CR
    } else if b == 0x0A {
        WordBreakProperty::LF
    } else if b == 0x0B || b == 0x0C {
        WordBreakProperty::Newline
    } else if b == 0x22 {
        WordBreakProperty::DoubleQuote
    } else if b == 0x27 {
        WordBreakProperty::SingleQuote
    } else if b == 0x2C || b == 0x3B {
        WordBreakProperty::MidNum
    } else if b == 0x2E {
        WordBreakProperty::MidNumLet
    } else if b == 0x3A {
        WordBreakProperty::MidLetter
    } else {
        WordBreakProperty::Other
    }
}

/// Whether there is no word boundary between a character with property `before` and one with
/// property `after`, neither of which takes part in a rule that looks further (the quotes and
/// the mid-token characters) or ends a line: rules WB3d, WB5, WB8 to WB10, WB13a and WB13b.
pub open spec fn joins(before: WordBreakProperty, after: WordBreakProperty) -> bool {
    ||| before is WSegSpace && after is WSegSpace
    ||| before is ALetter && after is ALetter
    ||| before is Numeric && after is Numeric
    ||| before is ALetter && after is Numeric
    ||| before is Numeric && after is ALetter
    ||| (before is ALetter || before is Numeric || before is ExtendNumLet) && after is ExtendNumLet
    ||| before is ExtendNumLet && (after is ALetter || after is Numeric)
}

/// Looks up the `Word_Break` property of an ASCII character.
pub fn ascii_word_break_prop(b: u8) -> (property: WordBreakProperty)
    requires
        b < 0x80,
    ensures
        property == word_break(b),
{
    match b {
        0x41..=0x5A | 0x61..=0x7A => WordBreakProperty::ALetter,
        0x30..=0x39 => WordBreakProperty::Numeric,
        0x5F => WordBreakProperty::ExtendNumLet,
        0x20 => WordBreakProperty::WSegSpace,
        0x0D => WordBreakProperty::CR,
        0x0A => WordBreakProperty::LF,
        0x0B | 0x0C => WordBreakProperty::Newline,
        0x22 => WordBreakProperty::DoubleQuote,
        0x27 => WordBreakProperty::SingleQuote,
        0x2C | 0x3B => WordBreakProperty::MidNum,
        0x2E => WordBreakProperty::MidNumLet,
        0x3A => WordBreakProperty::MidLetter,
        _ => WordBreakProperty::Other,
    }
}

/// The `Word_Break` properties of ASCII: which characters have each of them.
pub proof fn law_word_break_properties(b: u8)
    ensures
        word_break(b) is ALetter <==> 0x41 <= b <= 0x5A || 0x61 <= b <= 0x7A,
        word_break(b) is Numeric <==> 0x30 <= b <= 0x39,
        word_break(b) is ExtendNumLet <==> b == 0x5F,
        word_break(b) is WSegSpace <==> b == 0x20,
        word_break(b) is CR <==> b == 0x0D,
        word_break(b) is LF <==> b == 0x0A,
        word_break(b) is Newline <==> b == 0x0B || b == 0x0C,
        word_break(b) is DoubleQuote <==> b == 0x22,
        word_break(b) is SingleQuote <==> b == 0x27,
        word_break(b) is MidNum <==> b == 0x2C || b == 0x3B,
        word_break(b) is MidNumLet <==> b == 0x2E,
        word_break(b) is MidLetter <==> b == 0x3A,
{
}

} // verus!
