//! Snowball stemming, as the `rust_stemmers` crate computes it.

use vstd::prelude::*;
use vstd::std_specs::convert::{IntoSpec, IntoSpecImpl};

use crate::analyze::greek;
use crate::analyze::StemmingLanguage;

verus! {

/// `rust_stemmers::Algorithm`, the Snowball algorithms there are.
#[verifier::external_type_specification]
pub struct ExAlgorithm(rust_stemmers::Algorithm);

/// What the stemmer for `algorithm` makes of `text`.
pub uninterp spec fn snowball_stem(
    algorithm: rust_stemmers::Algorithm,
    text: Seq<char>,
) -> Seq<char>;

/// Texts of this many bytes or more are not handed to a stemmer, which keeps its offsets into
/// the text in an `i32`.
pub const STEMMER_LIMIT: usize = 0x4000_0000;

/// Whether the stemmer for `algorithm` takes `text`. The Greek one panics on some words.
pub open spec fn takes(algorithm: rust_stemmers::Algorithm, text: Seq<char>) -> bool {
    &&& vstd::utf8::encode_utf8(text).len() < STEMMER_LIMIT
    &&& algorithm is Greek ==> !greek::is_hazardous(text)
}

/// `rust_stemmers::Stemmer::stem`, on a stemmer from `Stemmer::create`. The result is a function
/// of the algorithm and the text; it is given a name and nothing else is claimed of it.
#[verifier::external_body]
fn stem_with(algorithm: rust_stemmers::Algorithm, text: &str) -> (stem: String)
    requires
        takes(algorithm, text@),
    ensures
        stem@ == snowball_stem(algorithm, text@),
{
    rust_stemmers::Stemmer::create(algorithm).stem(text).into_owned()
}

impl Into<rust_stemmers::Algorithm> for StemmingLanguage {
    fn into(self) -> (algorithm: rust_stemmers::Algorithm) {
        match self {
            StemmingLanguage::Arabic => rust_stemmers::Algorithm::Arabic,
            StemmingLanguage::Danish => rust_stemmers::Algorithm::Danish,
            StemmingLanguage::Dutch => rust_stemmers::Algorithm::Dutch,
            StemmingLanguage::English => rust_stemmers::Algorithm::English,
            StemmingLanguage::Finnish => rust_stemmers::Algorithm::Finnish,
            StemmingLanguage::French => rust_stemmers::Algorithm::French,
            StemmingLanguage::German => rust_stemmers::Algorithm::German,
            StemmingLanguage::Greek => rust_stemmers::Algorithm::Greek,
            StemmingLanguage::Hungarian => rust_stemmers::Algorithm::Hungarian,
            StemmingLanguage::Italian => rust_stemmers::Algorithm::Italian,
            StemmingLanguage::Norwegian => rust_stemmers::Algorithm::Norwegian,
            StemmingLanguage::Portuguese => rust_stemmers::Algorithm::Portuguese,
            StemmingLanguage::Romanian => rust_stemmers::Algorithm::Romanian,
            StemmingLanguage::Russian => rust_stemmers::Algorithm::Russian,
            StemmingLanguage::Spanish => rust_stemmers::Algorithm::Spanish,
            StemmingLanguage::Swedish => rust_stemmers::Algorithm::Swedish,
            StemmingLanguage::Tamil => rust_stemmers::Algorithm::Tamil,
            StemmingLanguage::Turkish => rust_stemmers::Algorithm::Turkish,
        }
    }
}

impl IntoSpecImpl<rust_stemmers::Algorithm> for StemmingLanguage {
    open spec fn obeys_into_spec() -> bool {
        true
    }

    open spec fn into_spec(self) -> rust_stemmers::Algorithm {
        algorithm_of(self)
    }
}

/// The Snowball algorithm for `language`.
pub open spec fn algorithm_of(language: StemmingLanguage) -> rust_stemmers::Algorithm {
    match language {
        StemmingLanguage::Arabic => rust_stemmers::Algorithm::Arabic,
        StemmingLanguage::Danish => rust_stemmers::Algorithm::Danish,
        StemmingLanguage::Dutch => rust_stemmers::Algorithm::Dutch,
        StemmingLanguage::English => rust_stemmers::Algorithm::English,
        StemmingLanguage::Finnish => rust_stemmers::Algorithm::Finnish,
        StemmingLanguage::French => rust_stemmers::Algorithm::French,
        StemmingLanguage::German => rust_stemmers::Algorithm::German,
        StemmingLanguage::Greek => rust_stemmers::Algorithm::Greek,
        StemmingLanguage::Hungarian => rust_stemmers::Algorithm::Hungarian,
        StemmingLanguage::Italian => rust_stemmers::Algorithm::Italian,
        StemmingLanguage::Norwegian => rust_stemmers::Algorithm::Norwegian,
        StemmingLanguage::Portuguese => rust_stemmers::Algorithm::Portuguese,
        StemmingLanguage::Romanian => rust_stemmers::Algorithm::Romanian,
        StemmingLanguage::Russian => rust_stemmers::Algorithm::Russian,
        StemmingLanguage::Spanish => rust_stemmers::Algorithm::Spanish,
        StemmingLanguage::Swedish => rust_stemmers::Algorithm::Swedish,
        StemmingLanguage::Tamil => rust_stemmers::Algorithm::Tamil,
        StemmingLanguage::Turkish => rust_stemmers::Algorithm::Turkish,
    }
}

/// The stem of `text` in `language`.
pub open spec fn stem_of(language: StemmingLanguage, text: Seq<char>) -> Seq<char> {
    snowball_stem(algorithm_of(language), text)
}

/// Whether `text` can be stemmed in `language`.
pub open spec fn can_stem(language: StemmingLanguage, text: Seq<char>) -> bool {
    takes(algorithm_of(language), text)
}

/// Tells whether `text` can be stemmed in `language`.
pub fn is_stemmable(language: StemmingLanguage, text: &str) -> (stemmable: bool)
    ensures
        stemmable == can_stem(language, text@),
{
    let is_short = text.as_bytes().len() < STEMMER_LIMIT;
    match language {
        StemmingLanguage::Greek => is_short && !greek::is_hazard(text),
        _ => is_short,
    }
}

/// Stems `text` in `language`.
pub fn stem(language: StemmingLanguage, text: &str) -> (stem: String)
    requires
        can_stem(language, text@),
    ensures
        stem@ == stem_of(language, text@),
{
    let algorithm: rust_stemmers::Algorithm = language.into();
    stem_with(algorithm, text)
}

/// Every language is stemmed by the Snowball algorithm of its name, and so converts to it.
pub proof fn law_each_language_has_its_algorithm(text: Seq<char>)
    ensures
        stem_of(StemmingLanguage::Arabic, text) == snowball_stem(
            rust_stemmers::Algorithm::Arabic,
            text,
        ),
        stem_of(StemmingLanguage::Danish, text) == snowball_stem(
            rust_stemmers::Algorithm::Danish,
            text,
        ),
        stem_of(StemmingLanguage::Dutch, text) == snowball_stem(
            rust_stemmers::Algorithm::Dutch,
            text,
        ),
        stem_of(StemmingLanguage::English, text) == snowball_stem(
            rust_stemmers::Algorithm::English,
            text,
        ),
        stem_of(StemmingLanguage::Finnish, text) == snowball_stem(
            rust_stemmers::Algorithm::Finnish,
            text,
        ),
        stem_of(StemmingLanguage::French, text) == snowball_stem(
            rust_stemmers::Algorithm::French,
            text,
        ),
        stem_of(StemmingLanguage::German, text) == snowball_stem(
            rust_stemmers::Algorithm::German,
            text,
        ),
        stem_of(StemmingLanguage::Greek, text) == snowball_stem(
            rust_stemmers::Algorithm::Greek,
            text,
        ),
        stem_of(StemmingLanguage::Hungarian, text) == snowball_stem(
            rust_stemmers::Algorithm::Hungarian,
            text,
        ),
        stem_of(StemmingLanguage::Italian, text) == snowball_stem(
            rust_stemmers::Algorithm::Italian,
            text,
        ),
        stem_of(StemmingLanguage::Norwegian, text) == snowball_stem(
            rust_stemmers::Algorithm::Norwegian,
            text,
        ),
        stem_of(StemmingLanguage::Portuguese, text) == snowball_stem(
            rust_stemmers::Algorithm::Portuguese,
            text,
        ),
        stem_of(StemmingLanguage::Romanian, text) == snowball_stem(
            rust_stemmers::Algorithm::Romanian,
            text,
        ),
        stem_of(StemmingLanguage::Russian, text) == snowball_stem(
            rust_stemmers::Algorithm::Russian,
            text,
        ),
        stem_of(StemmingLanguage::Spanish, text) == snowball_stem(
            rust_stemmers::Algorithm::Spanish,
            text,
        ),
        stem_of(StemmingLanguage::Swedish, text) == snowball_stem(
            rust_stemmers::Algorithm::Swedish,
            text,
        ),
        stem_of(StemmingLanguage::Tamil, text) == snowball_stem(
            rust_stemmers::Algorithm::Tamil,
            text,
        ),
        stem_of(StemmingLanguage::Turkish, text) == snowball_stem(
            rust_stemmers::Algorithm::Turkish,
            text,
        ),
        algorithm_of(StemmingLanguage::Arabic) is Arabic,
        algorithm_of(StemmingLanguage::Danish) is Danish,
        algorithm_of(StemmingLanguage::Dutch) is Dutch,
        algorithm_of(StemmingLanguage::English) is English,
        algorithm_of(StemmingLanguage::Finnish) is Finnish,
        algorithm_of(StemmingLanguage::French) is French,
        algorithm_of(StemmingLanguage::German) is German,
        algorithm_of(StemmingLanguage::Greek) is Greek,
        algorithm_of(StemmingLanguage::Hungarian) is Hungarian,
        algorithm_of(StemmingLanguage::Italian) is Italian,
        algorithm_of(StemmingLanguage::Norwegian) is Norwegian,
        algorithm_of(StemmingLanguage::Portuguese) is Portuguese,
        algorithm_of(StemmingLanguage::Romanian) is Romanian,
        algorithm_of(StemmingLanguage::Russian) is Russian,
        algorithm_of(StemmingLanguage::Spanish) is Spanish,
        algorithm_of(StemmingLanguage::Swedish) is Swedish,
        algorithm_of(StemmingLanguage::Tamil) is Tamil,
        algorithm_of(StemmingLanguage::Turkish) is Turkish,
        <StemmingLanguage as IntoSpec<rust_stemmers::Algorithm>>::into_spec(StemmingLanguage::Arabic) is Arabic,
        <StemmingLanguage as IntoSpec<rust_stemmers::Algorithm>>::into_spec(StemmingLanguage::Danish) is Danish,
        <StemmingLanguage as IntoSpec<rust_stemmers::Algorithm>>::into_spec(StemmingLanguage::Dutch) is Dutch,
        <StemmingLanguage as IntoSpec<rust_stemmers::Algorithm>>::into_spec(StemmingLanguage::English) is English,
        <StemmingLanguage as IntoSpec<rust_stemmers::Algorithm>>::into_spec(StemmingLanguage::Finnish) is Finnish,
        <StemmingLanguage as IntoSpec<rust_stemmers::Algorithm>>::into_spec(StemmingLanguage::French) is French,
        <StemmingLanguage as IntoSpec<rust_stemmers::Algorithm>>::into_spec(StemmingLanguage::German) is German,
        <StemmingLanguage as IntoSpec<rust_stemmers::Algorithm>>::into_spec(StemmingLanguage::Greek) is Greek,
        <StemmingLanguage as IntoSpec<rust_stemmers::Algorithm>>::into_spec(StemmingLanguage::Hungarian) is Hungarian,
        <StemmingLanguage as IntoSpec<rust_stemmers::Algorithm>>::into_spec(StemmingLanguage::Italian) is Italian,
        <StemmingLanguage as IntoSpec<rust_stemmers::Algorithm>>::into_spec(StemmingLanguage::Norwegian) is Norwegian,
        <StemmingLanguage as IntoSpec<rust_stemmers::Algorithm>>::into_spec(StemmingLanguage::Portuguese) is Portuguese,
        <StemmingLanguage as IntoSpec<rust_stemmers::Algorithm>>::into_spec(StemmingLanguage::Romanian) is Romanian,
        <StemmingLanguage as IntoSpec<rust_stemmers::Algorithm>>::into_spec(StemmingLanguage::Russian) is Russian,
        <StemmingLanguage as IntoSpec<rust_stemmers::Algorithm>>::into_spec(StemmingLanguage::Spanish) is Spanish,
        <StemmingLanguage as IntoSpec<rust_stemmers::Algorithm>>::into_spec(StemmingLanguage::Swedish) is Swedish,
        <StemmingLanguage as IntoSpec<rust_stemmers::Algorithm>>::into_spec(StemmingLanguage::Tamil) is Tamil,
        <StemmingLanguage as IntoSpec<rust_stemmers::Algorithm>>::into_spec(StemmingLanguage::Turkish) is Turkish,
{
}

/// No two languages share an algorithm.
pub proof fn law_algorithms_differ(a: StemmingLanguage, b: StemmingLanguage)
    requires
        algorithm_of(a) == algorithm_of(b),
    ensures
        a == b,
{
}

/// Every text of less than 2^30 bytes can be stemmed in every language but Greek, and in Greek
/// unless it begins with the letters of "ισαισ", or holds those of "ετε" after others.
pub proof fn law_what_can_be_stemmed(language: StemmingLanguage, text: Seq<char>)
    requires
        vstd::utf8::encode_utf8(text).len() < 0x4000_0000,
        language is Greek ==> !greek::reads_at(text, 0, seq!['ι', 'σ', 'α', 'ι', 'σ']) && forall|
            from: int,
        |
            0 < from ==> !#[trigger] greek::reads_at(text, from, "ετε"@),
    ensures
        can_stem(language, text),
{
    if language is Greek && greek::is_hazardous(text) {
        greek::lemma_hazards(text);
    }
}

} // verus!
