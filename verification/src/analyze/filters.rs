//! The language-specific text filters that an analyzer is run with.

use vstd::prelude::*;

use crate::analyze::LanguageWithStopwords;

verus! {

/// The filters that take tables or rules of their own. The model, which says what the methods
/// compute, is left open unless an implementation gives it.
pub trait Filters {
    /// Whether a token is short enough to be kept, as mathematics.
    open spec fn within_limit(&self, text: Seq<char>, limit: usize) -> bool {
        arbitrary()
    }

    /// Whether a (lowercased) token is one of the stopwords of `language`, as mathematics.
    open spec fn is_stopword(&self, language: LanguageWithStopwords, text: Seq<char>) -> bool {
        arbitrary()
    }

    /// `text` in lower case, as mathematics.
    open spec fn lowercased(&self, text: Seq<char>) -> Seq<char> {
        arbitrary()
    }

    /// `text` folded to ASCII, as mathematics.
    open spec fn folded(&self, text: Seq<char>) -> Seq<char> {
        arbitrary()
    }

    /// Whether a token is short enough to be kept.
    fn within_token_length_limit(&self, text: &str, limit: usize) -> bool;

    /// Whether a (lowercased) token is one of the stopwords of `language`.
    fn is_stopword_in_language(&self, language: LanguageWithStopwords, text: &str) -> bool;

    /// `text` in lower case. Asked of text that is not ASCII only.
    fn lowercase_chars(&self, text: &str) -> String;

    /// `text` with its characters replaced by ASCII ones where there is a replacement.
    fn ascii_fold(&self, text: &str) -> String;
}

/// Whether every method of `filters` returns what the model of `filters` says.
pub open spec fn follow_model<F: Filters>(filters: F) -> bool {
    &&& forall|text: &str, limit: usize, within: bool| #[trigger]
        call_ensures(F::within_token_length_limit, (&filters, text, limit), within) ==> within
            == filters.within_limit(text@, limit)
    &&& forall|language: LanguageWithStopwords, text: &str, stop: bool| #[trigger]
        call_ensures(F::is_stopword_in_language, (&filters, language, text), stop) ==> stop
            == filters.is_stopword(language, text@)
    &&& forall|text: &str, lowered: String| #[trigger]
        call_ensures(F::lowercase_chars, (&filters, text), lowered) ==> lowered@
            == filters.lowercased(text@)
    &&& forall|text: &str, folded: String| #[trigger]
        call_ensures(F::ascii_fold, (&filters, text), folded) ==> folded@ == filters.folded(text@)
}

} // verus!
