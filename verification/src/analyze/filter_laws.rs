//! Laws of the filters that a single word goes through.

use vstd::prelude::*;

use crate::analyze::filters::Filters;
use crate::analyze::model;
use crate::analyze::stemming;
use crate::analyze::{
    AnalysisOptions, LanguageWithStopwords, StemmingLanguage, StopwordRemoval,
};
use crate::text;

verus! {

/// Case folding leaves a word alone if case matters. Otherwise it maps the letters `A` to `Z` of
/// an ASCII word to `a` to `z` and nothing else, and lowercases any other word as the filters do.
pub proof fn law_case_folding<F: Filters>(filters: F, options: AnalysisOptions, text: Seq<char>)
    ensures
        ({
            let folded = model::case_folded(filters, options, text);
            &&& options.case_sensitive ==> folded == text
            &&& !options.case_sensitive && !vstd::utf8::is_ascii_chars(text) ==> folded
                == filters.lowercased(text)
            &&& !options.case_sensitive && vstd::utf8::is_ascii_chars(text) ==> {
                &&& folded.len() == text.len()
                &&& forall|i: int|
                    0 <= i < text.len() ==> #[trigger] folded[i] as int == (if 0x41 <= text[i] as int
                        <= 0x5A {
                        text[i] as int + 0x20
                    } else {
                        text[i] as int
                    })
            }
        }),
{
    let lowered = text::ascii_lowercase(text);
    assert forall|i: int| 0 <= i < text.len() implies #[trigger] lowered[i] as int == (if 0x41
        <= text[i] as int <= 0x5A {
        text[i] as int + 0x20
    } else {
        text[i] as int
    }) by {
        assert(lowered[i] == text::ascii_lowercase_char(text[i]));
    }
}

/// A word that the length limit finds too long, as it stands in the input, is dropped, whatever
/// the other options are.
pub proof fn law_long_words_are_dropped<F: Filters>(
    filters: F,
    options: AnalysisOptions,
    text: Seq<char>,
    limit: usize,
)
    requires
        options.maximum_token_length == Some(limit),
        !filters.within_limit(text, limit),
    ensures
        model::filtered(filters, options, text) is None,
{
}

/// A word that is a stopword in folded case is dropped, whatever the other options are.
pub proof fn law_stopwords_are_dropped<F: Filters>(
    filters: F,
    options: AnalysisOptions,
    text: Seq<char>,
    language: LanguageWithStopwords,
)
    requires
        options.stopword_removal == Some(StopwordRemoval::ForLanguage(language)),
        filters.is_stopword(language, model::case_folded(filters, options, text)),
    ensures
        model::filtered(filters, options, text) is None,
{
}

/// A word that is neither too long nor a stopword is kept, whatever the other options are.
pub proof fn law_other_words_are_kept<F: Filters>(
    filters: F,
    options: AnalysisOptions,
    text: Seq<char>,
)
    requires
        forall|limit: usize|
            options.maximum_token_length == Some(limit) ==> #[trigger] filters.within_limit(
                text,
                limit,
            ),
        forall|language: LanguageWithStopwords|
            options.stopword_removal == Some(StopwordRemoval::ForLanguage(language))
                ==> !#[trigger] filters.is_stopword(
                language,
                model::case_folded(filters, options, text),
            ),
    ensures
        model::filtered(filters, options, text) is Some,
{
    if let Some(limit) = options.maximum_token_length {
        assert(filters.within_limit(text, limit));
    }
    if let Some(StopwordRemoval::ForLanguage(language)) = options.stopword_removal {
        assert(!filters.is_stopword(language, model::case_folded(filters, options, text)));
    }
}

/// Neither stemming nor ASCII folding has an influence on which words are kept.
pub proof fn law_stemming_and_folding_drop_nothing<F: Filters>(
    filters: F,
    options: AnalysisOptions,
    text: Seq<char>,
    stemming: Option<StemmingLanguage>,
    ascii_folding: bool,
)
    ensures
        model::filtered(filters, options, text) is Some <==> model::filtered(
            filters,
            AnalysisOptions { stemming, ascii_folding, ..options },
            text,
        ) is Some,
{
}

/// The length limit and stopword removal have no influence on what is made of a word that both
/// keep.
pub proof fn law_dropping_changes_no_word<F: Filters>(
    filters: F,
    options: AnalysisOptions,
    text: Seq<char>,
    maximum_token_length: Option<usize>,
    stopword_removal: Option<StopwordRemoval>,
)
    requires
        model::filtered(filters, options, text) is Some,
        model::filtered(
            filters,
            AnalysisOptions { maximum_token_length, stopword_removal, ..options },
            text,
        ) is Some,
    ensures
        model::filtered(filters, options, text) == model::filtered(
            filters,
            AnalysisOptions { maximum_token_length, stopword_removal, ..options },
            text,
        ),
{
}

/// Without stemming and ASCII folding, what is made of a word that is kept is its folded case.
pub proof fn law_kept_words_are_case_folded<F: Filters>(
    filters: F,
    options: AnalysisOptions,
    text: Seq<char>,
)
    requires
        options.stemming is None,
        !options.ascii_folding,
        model::filtered(filters, options, text) is Some,
    ensures
        model::filtered(filters, options, text) == Some(
            model::case_folded(filters, options, text),
        ),
{
}

/// Without ASCII folding, stemming replaces what the filters make of a word without it by the
/// stem of that, as the Snowball algorithm of the language has it.
pub proof fn law_stemming_follows_case_folding<F: Filters>(
    filters: F,
    options: AnalysisOptions,
    text: Seq<char>,
    language: StemmingLanguage,
)
    requires
        options.stemming == Some(language),
        !options.ascii_folding,
    ensures
        model::filtered(filters, options, text) == (match model::filtered(
            filters,
            AnalysisOptions { stemming: None, ..options },
            text,
        ) {
            Some(token) => Some(stemming::snowball_stem(stemming::algorithm_of(language), token)),
            None => None,
        }),
{
}

/// What the filters make of a word that is not ASCII, with ASCII folding, is the ASCII folding of
/// what they make of it without, with the case folded again: folding comes last and replaces
/// nothing that came before it.
pub proof fn law_ascii_folding_follows_stemming<F: Filters>(
    filters: F,
    options: AnalysisOptions,
    text: Seq<char>,
)
    requires
        options.ascii_folding,
        !vstd::utf8::is_ascii_chars(text),
    ensures
        model::filtered(filters, options, text) == (match model::filtered(
            filters,
            AnalysisOptions { ascii_folding: false, ..options },
            text,
        ) {
            Some(token) => Some(model::case_folded(filters, options, filters.folded(token))),
            None => None,
        }),
{
    let plain = AnalysisOptions { ascii_folding: false, ..options };
    assert(model::case_folded(filters, plain, text) == model::case_folded(filters, options, text));
}

/// ASCII folding has no effect on an ASCII word.
pub proof fn law_ascii_folding_spares_ascii_words<F: Filters>(
    filters: F,
    options: AnalysisOptions,
    text: Seq<char>,
)
    requires
        vstd::utf8::is_ascii_chars(text),
    ensures
        model::filtered(filters, AnalysisOptions { ascii_folding: true, ..options }, text)
            == model::filtered(filters, AnalysisOptions { ascii_folding: false, ..options }, text),
{
}

/// Case folding looks at no option but case sensitivity.
pub proof fn law_case_folding_is_independent<F: Filters>(
    filters: F,
    options: AnalysisOptions,
    other: AnalysisOptions,
    text: Seq<char>,
)
    requires
        options.case_sensitive == other.case_sensitive,
    ensures
        model::case_folded(filters, options, text) == model::case_folded(filters, other, text),
{
}

/// Options are valid unless case matters and one of the two filters that compare lower-case
/// text is on. Turning case sensitivity or one of these filters off keeps options valid, and
/// nothing else has an influence.
pub proof fn law_validity(options: AnalysisOptions, other: AnalysisOptions)
    ensures
        !options.case_sensitive ==> options.is_valid(),
        options.case_sensitive && options.stemming is Some ==> !options.is_valid(),
        options.case_sensitive && options.stopword_removal is Some ==> !options.is_valid(),
        options.stemming is None && options.stopword_removal is None ==> options.is_valid(),
        options.is_valid() ==> (AnalysisOptions {
            maximum_token_length: other.maximum_token_length,
            ascii_folding: other.ascii_folding,
            ..options
        }).is_valid(),
{
}

} // verus!
