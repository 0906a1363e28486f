//! Word segmentation: what a tokenizer reports of a text.

pub mod properties;
pub mod simd;

use vstd::prelude::*;
use vstd::string::StringSliceAdditionalSpecFns;

verus! {

/// Options of the word tokenizer.
#[derive(Clone, Copy, Debug)]
pub struct Options {}

impl Default for Options {
    fn default() -> (options: Self) {
        Options {  }
    }
}

/// What a tokenizer knows of a token from having walked over it.
#[derive(Clone, Copy, Debug)]
pub struct TokenProperties {
    /// Whether the token is a word (rather than white space or punctuation).
    pub is_word_like: bool,
    /// Whether every character is ASCII.
    pub is_ascii: bool,
    /// Whether the token may hold an upper-case ASCII letter.
    pub has_ascii_uppercase: bool,
}

/// A word boundary, with the properties of the token that ends there. The first boundary of a
/// text ends no token.
#[derive(Clone, Copy, Debug)]
pub struct Breakpoint {
    /// Byte offset into the text.
    pub at: usize,
    pub props: TokenProperties,
}

/// Splits text into words. The model, which says where, is left open unless an implementation
/// gives it.
pub trait Tokenizer {
    /// The word boundaries of `text`, in order, as mathematics.
    open spec fn segmentation(&self, text: Seq<char>, options: Options) -> Seq<Breakpoint> {
        arbitrary()
    }

    /// The word boundaries of `text`, in order.
    fn tokenize(&self, text: &str, options: Options) -> Vec<Breakpoint>;
}

/// Whether `tokenizer` returns the boundaries that its model says.
pub open spec fn follows_model<T: Tokenizer>(tokenizer: T) -> bool {
    forall|text: &str, options: Options, breakpoints: Vec<Breakpoint>| #[trigger]
        call_ensures(T::tokenize, (&tokenizer, text, options), breakpoints) ==> breakpoints@
            == tokenizer.segmentation(text@, options)
}

/// The part of `text` between two byte offsets.
pub open spec fn segment(text: Seq<char>, from: int, to: int) -> Seq<char> {
    vstd::utf8::decode_utf8(vstd::utf8::encode_utf8(text).subrange(from, to))
}

/// The part of `text` between two character boundaries.
pub fn slice(text: &str, from: usize, to: usize) -> (part: &str)
    requires
        from <= to,
        vstd::utf8::is_char_boundary(text.spec_bytes(), from as int),
        vstd::utf8::is_char_boundary(text.spec_bytes(), to as int),
    ensures
        part@ == segment(text@, from as int, to as int),
{
    let ghost bytes = text.spec_bytes();
    proof {
        vstd::utf8::encode_utf8_valid_utf8(text@);
        lemma_boundary_in_range(bytes, to as int);
        vstd::utf8::valid_utf8_split(bytes, to as int);
        lemma_boundary_in_prefix(bytes, from as int, to as int);
    }
    let head = text.split_at(to).0;
    let part = head.split_at(from).1;
    proof {
        assert(part.spec_bytes() =~= bytes.subrange(from as int, to as int));
        vstd::utf8::encode_utf8_decode_utf8(part@);
    }
    part
}

proof fn lemma_boundary_in_range(bytes: Seq<u8>, index: int)
    requires
        vstd::utf8::valid_utf8(bytes),
        vstd::utf8::is_char_boundary(bytes, index),
    ensures
        0 <= index <= bytes.len(),
{
}

proof fn lemma_boundary_in_prefix(bytes: Seq<u8>, from: int, to: int)
    requires
        vstd::utf8::valid_utf8(bytes),
        from <= to,
        vstd::utf8::is_char_boundary(bytes, from),
        vstd::utf8::is_char_boundary(bytes, to),
    ensures
        vstd::utf8::is_char_boundary(bytes.subrange(0, to), from),
{
    let prefix = bytes.subrange(0, to);
    lemma_boundary_in_range(bytes, to);
    vstd::utf8::valid_utf8_split(bytes, to);
    if from == to {
        vstd::utf8::is_char_boundary_start_end_of_seq(prefix);
    } else {
        vstd::utf8::is_char_boundary_iff_not_is_continuation_byte(bytes, from);
        vstd::utf8::is_char_boundary_iff_not_is_continuation_byte(prefix, from);
        assert(prefix[from] == bytes[from]);
    }
}

impl TokenProperties {
    /// Whether the properties are true of the token `text`, as far as they are claims: one that
    /// may hold an upper-case letter need not hold one.
    pub open spec fn hold_of(self, text: Seq<char>) -> bool {
        &&& self.is_ascii == vstd::utf8::is_ascii_chars(text)
        &&& self.is_ascii && !self.has_ascii_uppercase ==> !crate::text::has_ascii_uppercase(text)
    }
}

/// Whether `breakpoints` segments `text`: the boundaries are ordered, each falls between two
/// characters, and the properties of each word hold of it.
pub open spec fn well_segmented(text: Seq<char>, breakpoints: Seq<Breakpoint>) -> bool {
    &&& forall|i: int|
        0 <= i < breakpoints.len() ==> vstd::utf8::is_char_boundary(
            vstd::utf8::encode_utf8(text),
            (#[trigger] breakpoints[i]).at as int,
        )
    &&& forall|i: int, j: int|
        0 <= i <= j < breakpoints.len() ==> (#[trigger] breakpoints[i]).at <= (
        #[trigger] breakpoints[j]).at
    &&& forall|i: int|
        1 <= i < breakpoints.len() && (#[trigger] breakpoints[i]).props.is_word_like
            ==> breakpoints[i].props.hold_of(token_text(text, breakpoints, i))
}

/// The text of the token that ends at the boundary with index `i`.
pub open spec fn token_text(text: Seq<char>, breakpoints: Seq<Breakpoint>, i: int) -> Seq<char> {
    segment(text, breakpoints[i - 1].at as int, breakpoints[i].at as int)
}

/// The text from its beginning to its end is the whole text, and two parts that meet at a
/// character boundary make up the part from the beginning of the first to the end of the second.
pub proof fn law_parts_join(text: Seq<char>, from: int, middle: int, to: int)
    requires
        from <= middle <= to,
        vstd::utf8::is_char_boundary(vstd::utf8::encode_utf8(text), from),
        vstd::utf8::is_char_boundary(vstd::utf8::encode_utf8(text), middle),
        vstd::utf8::is_char_boundary(vstd::utf8::encode_utf8(text), to),
    ensures
        segment(text, 0, vstd::utf8::encode_utf8(text).len() as int) == text,
        segment(text, from, middle) + segment(text, middle, to) == segment(text, from, to),
        segment(text, from, from) == Seq::<char>::empty(),
        vstd::utf8::encode_utf8(segment(text, from, to)).len() == to - from,
{
    let bytes = vstd::utf8::encode_utf8(text);
    vstd::utf8::encode_utf8_valid_utf8(text);
    vstd::utf8::encode_utf8_decode_utf8(text);
    assert(bytes.subrange(0, bytes.len() as int) =~= bytes);
    lemma_boundary_in_range(bytes, from);
    lemma_boundary_in_range(bytes, to);
    // The part from `from` to `to`.
    let head = bytes.subrange(0, to);
    vstd::utf8::valid_utf8_split(bytes, to);
    lemma_boundary_in_prefix(bytes, from, to);
    lemma_boundary_in_prefix(bytes, middle, to);
    vstd::utf8::valid_utf8_split(head, from);
    let part = head.subrange(from, to);
    assert(part =~= bytes.subrange(from, to));
    lemma_boundary_in_suffix(head, from, middle);
    vstd::utf8::decode_utf8_split(part, middle - from);
    assert(part.subrange(0, middle - from) =~= bytes.subrange(from, middle));
    assert(part.subrange(middle - from, part.len() as int) =~= bytes.subrange(middle, to));
    assert(bytes.subrange(from, from) =~= Seq::<u8>::empty());
    vstd::utf8::decode_utf8_encode_utf8(part);
}

proof fn lemma_boundary_in_suffix(bytes: Seq<u8>, from: int, index: int)
    requires
        vstd::utf8::valid_utf8(bytes),
        from <= index,
        vstd::utf8::is_char_boundary(bytes, from),
        vstd::utf8::is_char_boundary(bytes, index),
    ensures
        vstd::utf8::is_char_boundary(bytes.subrange(from, bytes.len() as int), index - from),
{
    let suffix = bytes.subrange(from, bytes.len() as int);
    lemma_boundary_in_range(bytes, index);
    vstd::utf8::valid_utf8_split(bytes, from);
    if index == bytes.len() {
        vstd::utf8::is_char_boundary_start_end_of_seq(suffix);
    } else {
        vstd::utf8::is_char_boundary_iff_not_is_continuation_byte(bytes, index);
        vstd::utf8::is_char_boundary_iff_not_is_continuation_byte(suffix, index - from);
        assert(suffix[index - from] == bytes[index]);
    }
}

/// The tokens that end at the first `n` boundaries, one after the other.
pub open spec fn joined_tokens(text: Seq<char>, breakpoints: Seq<Breakpoint>, n: int) -> Seq<char>
    decreases n,
{
    if n <= 1 {
        Seq::empty()
    } else {
        joined_tokens(text, breakpoints, n - 1) + token_text(text, breakpoints, n - 1)
    }
}

/// Tokens tile the text: one after the other they are the text between the first and the last
/// boundary, with nothing left out and nothing twice.
pub proof fn law_tokens_tile_the_text(text: Seq<char>, breakpoints: Seq<Breakpoint>, n: int)
    requires
        well_segmented(text, breakpoints),
        1 <= n <= breakpoints.len(),
    ensures
        joined_tokens(text, breakpoints, n) == segment(
            text,
            breakpoints[0].at as int,
            breakpoints[n - 1].at as int,
        ),
        breakpoints[0].at == 0 && breakpoints[n - 1].at == vstd::utf8::encode_utf8(text).len()
            ==> joined_tokens(text, breakpoints, n) == text,
        forall|i: int|
            1 <= i < n ==> vstd::utf8::encode_utf8(#[trigger] token_text(text, breakpoints, i)).len()
                == breakpoints[i].at - breakpoints[i - 1].at,
    decreases n,
{
    let first = breakpoints[0].at as int;
    let last = breakpoints[n - 1].at as int;
    if n > 1 {
        law_tokens_tile_the_text(text, breakpoints, n - 1);
        law_parts_join(text, first, breakpoints[n - 2].at as int, last);
        law_parts_join(text, breakpoints[n - 2].at as int, last, last);
    } else {
        law_parts_join(text, first, first, last);
    }
}

/// A token of an ASCII text is ASCII, and its characters are those between the two offsets.
pub proof fn lemma_ascii_token(text: Seq<char>, breakpoints: Seq<Breakpoint>, i: int)
    requires
        vstd::utf8::is_ascii_chars(text),
        well_segmented(text, breakpoints),
        1 <= i < breakpoints.len(),
    ensures
        0 <= breakpoints[i - 1].at <= breakpoints[i].at <= text.len(),
        token_text(text, breakpoints, i) == text.subrange(
            breakpoints[i - 1].at as int,
            breakpoints[i].at as int,
        ),
        vstd::utf8::is_ascii_chars(token_text(text, breakpoints, i)),
{
    let bytes = vstd::utf8::encode_utf8(text);
    let from = breakpoints[i - 1].at as int;
    let to = breakpoints[i].at as int;
    vstd::utf8::encode_utf8_valid_utf8(text);
    vstd::utf8::is_ascii_chars_encode_utf8(text);
    lemma_boundary_in_range(bytes, from);
    lemma_boundary_in_range(bytes, to);
    let part = text.subrange(from, to);
    vstd::utf8::is_ascii_chars_encode_utf8(part);
    assert(vstd::utf8::encode_utf8(part) =~= bytes.subrange(from, to));
    vstd::utf8::encode_utf8_decode_utf8(part);
}

/// The number of words that end at one of the first `n` boundaries.
pub open spec fn word_count(breakpoints: Seq<Breakpoint>, n: int) -> nat
    decreases n,
{
    if n <= 1 {
        0
    } else if breakpoints[n - 1].props.is_word_like {
        word_count(breakpoints, n - 1) + 1
    } else {
        word_count(breakpoints, n - 1)
    }
}

} // verus!
