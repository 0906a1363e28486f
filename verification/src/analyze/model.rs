//! What an analysis yields, as mathematics: which tokens, with which text, at which positions.

use vstd::prelude::*;

use crate::analyze::filters;
use crate::analyze::filters::Filters;
use crate::analyze::listener::Listener;
use crate::analyze::stemming;
use crate::analyze::token_text;
use crate::analyze::{AnalysisOptions, StopwordRemoval, Token, TokenizerOptions};
use crate::uax29::word;
use crate::uax29::word::{Breakpoint, Tokenizer};

verus! {

/// A token that an analysis yields.
#[verifier::ext_equal]
pub struct TokenView {
    pub text: Seq<char>,
    pub position: nat,
}

/// The options of the word tokenizer.
pub open spec fn word_options(options: AnalysisOptions) -> word::Options {
    let TokenizerOptions::UAX29Word(word_options) = options.tokenizer;
    word_options
}

/// Whether the length filter drops the token `text`.
pub open spec fn is_too_long<F: Filters>(
    filters: F,
    options: AnalysisOptions,
    text: Seq<char>,
) -> bool {
    options.maximum_token_length matches Some(limit) && !filters.within_limit(text, limit)
}

/// The token `text` in the case in which it is compared and stemmed.
pub open spec fn case_folded<F: Filters>(
    filters: F,
    options: AnalysisOptions,
    text: Seq<char>,
) -> Seq<char> {
    if options.case_sensitive {
        text
    } else {
        token_text::lowercased(filters, text)
    }
}

/// Whether stopword removal drops a token, given in its folded case.
pub open spec fn is_removed<F: Filters>(
    filters: F,
    options: AnalysisOptions,
    text: Seq<char>,
) -> bool {
    options.stopword_removal matches Some(StopwordRemoval::ForLanguage(language))
        && filters.is_stopword(language, text)
}

/// The stem of a token, given in its folded case.
pub open spec fn stemmed(options: AnalysisOptions, text: Seq<char>) -> Seq<char> {
    match options.stemming {
        Some(language) => stemming::stem_of(language, text),
        None => text,
    }
}

/// The stem of a token with its characters folded to ASCII. Folding can produce upper-case
/// ASCII characters, so the case is folded again.
pub open spec fn ascii_folded<F: Filters>(
    filters: F,
    options: AnalysisOptions,
    stem: Seq<char>,
) -> Seq<char> {
    case_folded(filters, options, filters.folded(stem))
}

/// What the filters make of the token `text`: `None` if one of them drops it.
pub open spec fn filtered<F: Filters>(
    filters: F,
    options: AnalysisOptions,
    text: Seq<char>,
) -> Option<Seq<char>> {
    let folded = case_folded(filters, options, text);
    let stem = stemmed(options, folded);
    if is_too_long(filters, options, text) || is_removed(filters, options, folded) {
        None
    } else if options.ascii_folding && !vstd::utf8::is_ascii_chars(text) {
        Some(ascii_folded(filters, options, stem))
    } else {
        Some(stem)
    }
}

/// Whether the token `text`, if it is stemmed, is one that the stemmer takes.
pub open spec fn fits_stemmer<F: Filters>(
    filters: F,
    options: AnalysisOptions,
    text: Seq<char>,
) -> bool {
    options.stemming matches Some(language) ==> stemming::can_stem(
        language,
        case_folded(filters, options, text),
    )
}

/// The tokens that the first `n` boundaries of `text` yield. Every word takes one position,
/// counted from `first_position`, whether or not a filter drops it.
pub open spec fn input_tokens<F: Filters>(
    filters: F,
    options: AnalysisOptions,
    text: Seq<char>,
    breakpoints: Seq<Breakpoint>,
    n: int,
    first_position: nat,
) -> Seq<TokenView>
    decreases n,
{
    if n <= 1 {
        Seq::empty()
    } else {
        let earlier = input_tokens(filters, options, text, breakpoints, n - 1, first_position);
        let token = filtered(filters, options, word::token_text(text, breakpoints, n - 1));
        if breakpoints[n - 1].props.is_word_like && token is Some {
            earlier.push(
                TokenView {
                    text: token->0,
                    position: first_position + word::word_count(breakpoints, n - 1),
                },
            )
        } else {
            earlier
        }
    }
}

/// The words among those that end at the first `n` boundaries of `text` that no filter drops, in
/// folded case. These are the ones that are stemmed.
pub open spec fn kept_words<F: Filters>(
    filters: F,
    options: AnalysisOptions,
    text: Seq<char>,
    breakpoints: Seq<Breakpoint>,
    n: int,
) -> Seq<Seq<char>>
    decreases n,
{
    if n <= 1 {
        Seq::empty()
    } else {
        let earlier = kept_words(filters, options, text, breakpoints, n - 1);
        let word = word::token_text(text, breakpoints, n - 1);
        if breakpoints[n - 1].props.is_word_like && filtered(filters, options, word) is Some {
            earlier.push(case_folded(filters, options, word))
        } else {
            earlier
        }
    }
}

/// The number of words in the first `k` inputs.
pub open spec fn words_before<T: Tokenizer>(
    tokenizer: T,
    options: AnalysisOptions,
    inputs: Seq<Seq<char>>,
    k: int,
) -> nat
    decreases k,
{
    if k <= 0 {
        0
    } else {
        let breakpoints = tokenizer.segmentation(inputs[k - 1], word_options(options));
        words_before(tokenizer, options, inputs, k - 1) + word::word_count(
            breakpoints,
            breakpoints.len() as int,
        )
    }
}

/// The tokens of the first `k` inputs. Positions run on from input to input.
pub open spec fn tokens_before<T: Tokenizer, F: Filters>(
    tokenizer: T,
    filters: F,
    options: AnalysisOptions,
    inputs: Seq<Seq<char>>,
    k: int,
) -> Seq<TokenView>
    decreases k,
{
    if k <= 0 {
        Seq::empty()
    } else {
        let breakpoints = tokenizer.segmentation(inputs[k - 1], word_options(options));
        tokens_before(tokenizer, filters, options, inputs, k - 1) + input_tokens(
            filters,
            options,
            inputs[k - 1],
            breakpoints,
            breakpoints.len() as int,
            words_before(tokenizer, options, inputs, k - 1),
        )
    }
}

/// The words of the first `k` inputs that no filter drops, in folded case.
pub open spec fn kept_words_before<T: Tokenizer, F: Filters>(
    tokenizer: T,
    filters: F,
    options: AnalysisOptions,
    inputs: Seq<Seq<char>>,
    k: int,
) -> Seq<Seq<char>>
    decreases k,
{
    if k <= 0 {
        Seq::empty()
    } else {
        let breakpoints = tokenizer.segmentation(inputs[k - 1], word_options(options));
        kept_words_before(tokenizer, filters, options, inputs, k - 1) + kept_words(
            filters,
            options,
            inputs[k - 1],
            breakpoints,
            breakpoints.len() as int,
        )
    }
}

/// The words of `inputs` that no filter drops, in folded case: one for each token.
pub open spec fn stemmed_words<T: Tokenizer, F: Filters>(
    tokenizer: T,
    filters: F,
    options: AnalysisOptions,
    inputs: Seq<Seq<char>>,
) -> Seq<Seq<char>> {
    kept_words_before(tokenizer, filters, options, inputs, inputs.len() as int)
}

/// The tokens that the analysis of `inputs` yields.
pub open spec fn analysis<T: Tokenizer, F: Filters>(
    tokenizer: T,
    filters: F,
    options: AnalysisOptions,
    inputs: Seq<Seq<char>>,
) -> Seq<TokenView> {
    tokens_before(tokenizer, filters, options, inputs, inputs.len() as int)
}

/// Whether `inputs` can be analyzed: tokenizer and filters follow their models, the tokenizer
/// segments every input, the stemmer takes every word, and every position is a `usize`.
pub open spec fn can_analyze<T: Tokenizer, F: Filters>(
    tokenizer: T,
    filters: F,
    options: AnalysisOptions,
    inputs: Seq<Seq<char>>,
) -> bool {
    &&& word::follows_model(tokenizer)
    &&& filters::follow_model(filters)
    &&& forall|k: int|
        0 <= k < inputs.len() ==> {
            let breakpoints = tokenizer.segmentation(#[trigger] inputs[k], word_options(options));
            &&& word::well_segmented(inputs[k], breakpoints)
            &&& words_fit_stemmer(filters, options, inputs[k], breakpoints)
        }
    &&& words_before(tokenizer, options, inputs, inputs.len() as int) <= usize::MAX
}

/// Whether the stemmer takes every word of `text`.
pub open spec fn words_fit_stemmer<F: Filters>(
    filters: F,
    options: AnalysisOptions,
    text: Seq<char>,
    breakpoints: Seq<Breakpoint>,
) -> bool {
    forall|i: int|
        1 <= i < breakpoints.len() && (#[trigger] breakpoints[i]).props.is_word_like
            ==> fits_stemmer(filters, options, word::token_text(text, breakpoints, i))
}

/// Whether `go_on` is an answer that `callback` may give to `token`.
pub open spec fn answers<C: FnMut(Token<'_>) -> bool>(
    callback: C,
    token: TokenView,
    go_on: bool,
) -> bool {
    exists|t: Token<'_>|
        t.text@ == token.text && t.position == token.position && #[trigger] call_ensures(
            callback,
            (t,),
            go_on,
        )
}

/// The number of tokens that a listener has heard since it was `before`.
pub open spec fn heard_since<C>(before: Listener<C>, after: Listener<C>) -> int {
    after.heard().len() - before.heard().len()
}

/// Whether the listener `before`, given `tokens` one after the other, is now `after`: it has
/// heard all of them and answered `true` to each, or those up to the first one to which it
/// answered `false`, and in either case nothing else.
pub open spec fn delivered<C: FnMut(Token<'_>) -> bool>(
    before: Listener<C>,
    after: Listener<C>,
    tokens: Seq<TokenView>,
) -> bool {
    let n = heard_since(before, after);
    &&& after.callback() == before.callback()
    &&& 0 <= n <= tokens.len()
    &&& after.heard() == before.heard() + tokens.take(n)
    &&& if after.wants_more() {
        &&& n == tokens.len()
        &&& answers_all(before.callback(), tokens, n)
    } else {
        &&& n > 0
        &&& answers_all(before.callback(), tokens, n - 1)
        &&& answers(before.callback(), tokens[n - 1], false)
    }
}

/// Whether `callback` may answer `true` to each of the first `n` of `tokens`.
pub open spec fn answers_all<C: FnMut(Token<'_>) -> bool>(
    callback: C,
    tokens: Seq<TokenView>,
    n: int,
) -> bool {
    forall|i: int| 0 <= i < n ==> answers(callback, #[trigger] tokens[i], true)
}

/// The texts of a slice of strings.
pub open spec fn texts(inputs: Seq<&str>) -> Seq<Seq<char>> {
    inputs.map_values(|input: &str| input@)
}

/// Later boundaries only add tokens.
pub(crate) proof fn lemma_input_tokens_prefix<F: Filters>(
    filters: F,
    options: AnalysisOptions,
    text: Seq<char>,
    breakpoints: Seq<Breakpoint>,
    n: int,
    m: int,
    first_position: nat,
)
    requires
        n <= m,
    ensures
        input_tokens(filters, options, text, breakpoints, n, first_position).is_prefix_of(
            input_tokens(filters, options, text, breakpoints, m, first_position),
        ),
    decreases m - n,
{
    if n < m {
        lemma_input_tokens_prefix(filters, options, text, breakpoints, n, m - 1, first_position);
    }
}

/// Later inputs only add tokens.
pub(crate) proof fn lemma_tokens_before_prefix<T: Tokenizer, F: Filters>(
    tokenizer: T,
    filters: F,
    options: AnalysisOptions,
    inputs: Seq<Seq<char>>,
    j: int,
    k: int,
)
    requires
        0 <= j <= k,
    ensures
        tokens_before(tokenizer, filters, options, inputs, j).is_prefix_of(
            tokens_before(tokenizer, filters, options, inputs, k),
        ),
    decreases k - j,
{
    if j < k {
        lemma_tokens_before_prefix(tokenizer, filters, options, inputs, j, k - 1);
    }
}

/// Later boundaries only add kept words.
pub(crate) proof fn lemma_kept_words_prefix<F: Filters>(
    filters: F,
    options: AnalysisOptions,
    text: Seq<char>,
    breakpoints: Seq<Breakpoint>,
    n: int,
    m: int,
)
    requires
        n <= m,
    ensures
        kept_words(filters, options, text, breakpoints, n).is_prefix_of(
            kept_words(filters, options, text, breakpoints, m),
        ),
    decreases m - n,
{
    if n < m {
        lemma_kept_words_prefix(filters, options, text, breakpoints, n, m - 1);
    }
}

/// There is one kept word for each token.
pub(crate) proof fn lemma_kept_words_len<F: Filters>(
    filters: F,
    options: AnalysisOptions,
    text: Seq<char>,
    breakpoints: Seq<Breakpoint>,
    n: int,
    first_position: nat,
)
    ensures
        kept_words(filters, options, text, breakpoints, n).len() == input_tokens(
            filters,
            options,
            text,
            breakpoints,
            n,
            first_position,
        ).len(),
    decreases n,
{
    if n > 1 {
        lemma_kept_words_len(filters, options, text, breakpoints, n - 1, first_position);
    }
}

/// There is one kept word for each token of the first `k` inputs.
pub(crate) proof fn lemma_kept_words_before_len<T: Tokenizer, F: Filters>(
    tokenizer: T,
    filters: F,
    options: AnalysisOptions,
    inputs: Seq<Seq<char>>,
    k: int,
)
    ensures
        kept_words_before(tokenizer, filters, options, inputs, k).len() == tokens_before(
            tokenizer,
            filters,
            options,
            inputs,
            k,
        ).len(),
    decreases k,
{
    if k > 0 {
        let breakpoints = tokenizer.segmentation(inputs[k - 1], word_options(options));
        lemma_kept_words_before_len(tokenizer, filters, options, inputs, k - 1);
        lemma_kept_words_len(
            filters,
            options,
            inputs[k - 1],
            breakpoints,
            breakpoints.len() as int,
            words_before(tokenizer, options, inputs, k - 1),
        );
    }
}

/// Later inputs only add kept words.
pub(crate) proof fn lemma_kept_words_before_prefix<T: Tokenizer, F: Filters>(
    tokenizer: T,
    filters: F,
    options: AnalysisOptions,
    inputs: Seq<Seq<char>>,
    j: int,
    k: int,
)
    requires
        0 <= j <= k,
    ensures
        kept_words_before(tokenizer, filters, options, inputs, j).is_prefix_of(
            kept_words_before(tokenizer, filters, options, inputs, k),
        ),
    decreases k - j,
{
    if j < k {
        lemma_kept_words_before_prefix(tokenizer, filters, options, inputs, j, k - 1);
    }
}

/// Later words only add to the count.
pub(crate) proof fn lemma_word_count_monotonic(breakpoints: Seq<Breakpoint>, n: int, m: int)
    requires
        n <= m,
    ensures
        word::word_count(breakpoints, n) <= word::word_count(breakpoints, m),
    decreases m - n,
{
    if n < m {
        lemma_word_count_monotonic(breakpoints, n, m - 1);
    }
}

/// Later inputs only add words.
pub(crate) proof fn lemma_words_before_monotonic<T: Tokenizer>(
    tokenizer: T,
    options: AnalysisOptions,
    inputs: Seq<Seq<char>>,
    j: int,
    k: int,
)
    requires
        0 <= j <= k,
    ensures
        words_before(tokenizer, options, inputs, j) <= words_before(tokenizer, options, inputs, k),
    decreases k - j,
{
    if j < k {
        lemma_words_before_monotonic(tokenizer, options, inputs, j, k - 1);
    }
}

} // verus!
