//! Strings seen as characters and as UTF-8 bytes.

use std::str::Utf8Error;

use vstd::prelude::*;
use vstd::string::StringSliceAdditionalSpecFns;

verus! {

/// The error type of `core::str::from_utf8`; its contents are never looked at.
#[verifier::external_type_specification]
#[verifier::external_body]
pub struct ExUtf8Error(Utf8Error);

/// `core::str::from_utf8` accepts exactly the valid UTF-8 sequences, and the string it returns
/// consists of the very bytes it was given.
pub assume_specification[ core::str::from_utf8 ](v: &[u8]) -> (res: Result<&str, Utf8Error>)
    ensures
        res is Ok <==> vstd::utf8::valid_utf8(v@),
        res matches Ok(s) ==> s.spec_bytes() == v@,
;

/// `String::clear` removes every character.
pub assume_specification[ String::clear ](s: &mut String)
    ensures
        final(s)@ == Seq::<char>::empty(),
;

/// `String::push_str` appends the characters of its argument.
pub assume_specification[ String::push_str ](s: &mut String, string: &str)
    ensures
        final(s)@ == old(s)@ + string@,
;

/// `str::make_ascii_lowercase` maps the ASCII letters `A` to `Z` to `a` to `z` and leaves every
/// other character as it is.
#[verifier::external_body]
pub(crate) fn make_ascii_lowercase(s: &mut String)
    ensures
        final(s)@ == ascii_lowercase(old(s)@),
{
    s.make_ascii_lowercase();
}

/// Whether `c` is one of `A` to `Z`.
pub open spec fn is_ascii_uppercase(c: char) -> bool {
    'A' <= c <= 'Z'
}

/// `c` with `A` to `Z` mapped to `a` to `z`.
pub open spec fn ascii_lowercase_char(c: char) -> char {
    if is_ascii_uppercase(c) {
        (c as u32 + 32) as char
    } else {
        c
    }
}

/// `text` with every ASCII letter in lower case.
pub open spec fn ascii_lowercase(text: Seq<char>) -> Seq<char> {
    text.map_values(|c: char| ascii_lowercase_char(c))
}

/// `c` with `a` to `z` mapped to `A` to `Z`.
pub open spec fn ascii_uppercase_char(c: char) -> char {
    if 'a' <= c <= 'z' {
        (c as u32 - 32) as char
    } else {
        c
    }
}

/// `text` with every ASCII letter in upper case.
pub open spec fn ascii_uppercase(text: Seq<char>) -> Seq<char> {
    text.map_values(|c: char| ascii_uppercase_char(c))
}

/// Whether `text` holds one of `A` to `Z`.
pub open spec fn has_ascii_uppercase(text: Seq<char>) -> bool {
    exists|i: int| 0 <= i < text.len() && is_ascii_uppercase(#[trigger] text[i])
}

/// Text without an upper-case ASCII letter is its own ASCII lower case.
pub proof fn lemma_ascii_lowercase_identity(text: Seq<char>)
    requires
        !has_ascii_uppercase(text),
    ensures
        ascii_lowercase(text) == text,
{
    assert forall|i: int| 0 <= i < text.len() implies ascii_lowercase(text)[i] == text[i] by {
        assert(!is_ascii_uppercase(text[i]));
    }
    assert(ascii_lowercase(text) =~= text);
}

/// Two texts with the same UTF-8 encoding are the same text.
pub proof fn lemma_utf8_injective(a: Seq<char>, b: Seq<char>)
    requires
        vstd::utf8::encode_utf8(a) == vstd::utf8::encode_utf8(b),
    ensures
        a == b,
{
    vstd::utf8::encode_utf8_decode_utf8(a);
    vstd::utf8::encode_utf8_decode_utf8(b);
}

/// Whether two strings hold the same characters.
pub fn same_text(a: &str, b: &str) -> (same: bool)
    ensures
        same == (a@ == b@),
{
    let a_bytes = a.as_bytes();
    let b_bytes = b.as_bytes();
    if a_bytes.len() != b_bytes.len() {
        return false;
    }
    let mut i: usize = 0;
    while i < a_bytes.len()
        invariant
            i <= a_bytes.len(),
            a_bytes@ == a.spec_bytes(),
            b_bytes@ == b.spec_bytes(),
            a_bytes.len() == b_bytes.len(),
            forall|j: int| 0 <= j < i ==> a_bytes@[j] == b_bytes@[j],
        decreases a_bytes.len() - i,
    {
        if a_bytes[i] != b_bytes[i] {
            return false;
        }
        i += 1;
    }
    proof {
        assert(a_bytes@ =~= b_bytes@);
        lemma_utf8_injective(a@, b@);
    }
    true
}

/// Whether an ASCII string holds an upper-case letter.
pub fn ascii_has_uppercase(s: &str) -> (found: bool)
    requires
        s.is_ascii(),
    ensures
        found == has_ascii_uppercase(s@),
{
    let bytes = s.as_bytes();
    proof {
        vstd::string::is_ascii_spec_bytes(s);
    }
    let mut i: usize = 0;
    while i < bytes.len()
        invariant
            i <= bytes.len(),
            bytes@ == s.spec_bytes(),
            s.is_ascii(),
            bytes@ =~= Seq::new(s@.len(), |k: int| s@[k] as u8),
            forall|j: int| 0 <= j < i ==> !is_ascii_uppercase(#[trigger] s@[j]),
        decreases bytes.len() - i,
    {
        let b: u8 = bytes[i];
        assert(b == s@[i as int] as u8);
        if 0x41 <= b && b <= 0x5A {
            assert(is_ascii_uppercase(s@[i as int]));
            return true;
        }
        i += 1;
    }
    false
}

} // verus!
