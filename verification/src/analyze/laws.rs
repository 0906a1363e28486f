//! Laws of the analysis as a whole.

use vstd::prelude::*;

use crate::analyze::filters;
use crate::analyze::filters::Filters;
use crate::analyze::listener::Listener;
use crate::analyze::model;
use crate::analyze::model::TokenView;
use crate::analyze::stemming;
use crate::analyze::stemming_cache::{CacheKey, StemOutcome, StemmingCache};
use crate::analyze::{AnalysisOptions, Analyzer, StemmingLanguage, Token, TokenizerOptions};
use crate::text;
use crate::uax29::word;
use crate::uax29::word::{Breakpoint, Tokenizer};

verus! {

/// The position of the word that ends at boundary `i` of input `k`: the number of words before
/// it, in its own input and in all earlier ones.
pub open spec fn word_position<T: Tokenizer>(
    tokenizer: T,
    options: AnalysisOptions,
    inputs: Seq<Seq<char>>,
    k: int,
    i: int,
) -> nat {
    model::words_before(tokenizer, options, inputs, k) + word::word_count(
        tokenizer.segmentation(inputs[k], model::word_options(options)),
        i,
    )
}

/// Whether a word ends at boundary `i` of input `k`.
pub open spec fn ends_word<T: Tokenizer>(
    tokenizer: T,
    options: AnalysisOptions,
    inputs: Seq<Seq<char>>,
    k: int,
    i: int,
) -> bool {
    let breakpoints = tokenizer.segmentation(inputs[k], model::word_options(options));
    0 <= k < inputs.len() && 1 <= i < breakpoints.len() && breakpoints[i].props.is_word_like
}

/// The text of the token that ends at boundary `i` of input `k`.
pub open spec fn word_text<T: Tokenizer>(
    tokenizer: T,
    options: AnalysisOptions,
    inputs: Seq<Seq<char>>,
    k: int,
    i: int,
) -> Seq<char> {
    word::token_text(
        inputs[k],
        tokenizer.segmentation(inputs[k], model::word_options(options)),
        i,
    )
}

/// Whether `token` is what the filters make of the word that ends at boundary `i` of input `k`.
pub open spec fn comes_from<T: Tokenizer, F: Filters>(
    tokenizer: T,
    filters: F,
    options: AnalysisOptions,
    inputs: Seq<Seq<char>>,
    token: TokenView,
    k: int,
    i: int,
) -> bool {
    &&& ends_word(tokenizer, options, inputs, k, i)
    &&& model::filtered(filters, options, word_text(tokenizer, options, inputs, k, i)) == Some(
        token.text,
    )
    &&& token.position == word_position(tokenizer, options, inputs, k, i)
}

proof fn lemma_input_token_origin<F: Filters>(
    filters: F,
    options: AnalysisOptions,
    text: Seq<char>,
    breakpoints: Seq<Breakpoint>,
    n: int,
    first_position: nat,
    j: int,
) -> (i: int)
    requires
        n <= breakpoints.len(),
        0 <= j < model::input_tokens(
            filters,
            options,
            text,
            breakpoints,
            n,
            first_position,
        ).len(),
    ensures
        1 <= i < n,
        breakpoints[i].props.is_word_like,
        ({
            let token = model::input_tokens(
                filters,
                options,
                text,
                breakpoints,
                n,
                first_position,
            )[j];
            &&& model::filtered(filters, options, word::token_text(text, breakpoints, i)) == Some(
                token.text,
            )
            &&& token.position == first_position + word::word_count(breakpoints, i)
        }),
    decreases n,
{
    let earlier = model::input_tokens(filters, options, text, breakpoints, n - 1, first_position);
    if j < earlier.len() {
        lemma_input_token_origin(filters, options, text, breakpoints, n - 1, first_position, j)
    } else {
        n - 1
    }
}

proof fn lemma_token_origin<T: Tokenizer, F: Filters>(
    tokenizer: T,
    filters: F,
    options: AnalysisOptions,
    inputs: Seq<Seq<char>>,
    m: int,
    j: int,
) -> (r: (int, int))
    requires
        0 <= m <= inputs.len(),
        0 <= j < model::tokens_before(tokenizer, filters, options, inputs, m).len(),
    ensures
        r.0 < m,
        comes_from(
            tokenizer,
            filters,
            options,
            inputs,
            model::tokens_before(tokenizer, filters, options, inputs, m)[j],
            r.0,
            r.1,
        ),
    decreases m,
{
    let earlier = model::tokens_before(tokenizer, filters, options, inputs, m - 1);
    if j < earlier.len() {
        lemma_token_origin(tokenizer, filters, options, inputs, m - 1, j)
    } else {
        let breakpoints = tokenizer.segmentation(inputs[m - 1], model::word_options(options));
        let i = lemma_input_token_origin(
            filters,
            options,
            inputs[m - 1],
            breakpoints,
            breakpoints.len() as int,
            model::words_before(tokenizer, options, inputs, m - 1),
            j - earlier.len(),
        );
        (m - 1, i)
    }
}

/// Every token of an analysis is what the filters make of some word of some input, and its
/// position is the number of words before that one.
pub proof fn law_tokens_come_from_words<T: Tokenizer, F: Filters>(
    tokenizer: T,
    filters: F,
    options: AnalysisOptions,
    inputs: Seq<Seq<char>>,
    j: int,
)
    requires
        0 <= j < model::analysis(tokenizer, filters, options, inputs).len(),
    ensures
        exists|k: int, i: int| #[trigger]
            comes_from(
                tokenizer,
                filters,
                options,
                inputs,
                model::analysis(tokenizer, filters, options, inputs)[j],
                k,
                i,
            ),
{
    let (k, i) = lemma_token_origin(
        tokenizer,
        filters,
        options,
        inputs,
        inputs.len() as int,
        j,
    );
}

proof fn lemma_input_word_is_yielded<F: Filters>(
    filters: F,
    options: AnalysisOptions,
    text: Seq<char>,
    breakpoints: Seq<Breakpoint>,
    n: int,
    first_position: nat,
    i: int,
) -> (j: int)
    requires
        1 <= i < n <= breakpoints.len(),
        breakpoints[i].props.is_word_like,
        model::filtered(filters, options, word::token_text(text, breakpoints, i)) is Some,
    ensures
        ({
            let tokens = model::input_tokens(
                filters,
                options,
                text,
                breakpoints,
                n,
                first_position,
            );
            &&& 0 <= j < tokens.len()
            &&& model::filtered(filters, options, word::token_text(text, breakpoints, i)) == Some(
                tokens[j].text,
            )
            &&& tokens[j].position == first_position + word::word_count(breakpoints, i)
        }),
    decreases n,
{
    if i < n - 1 {
        lemma_input_word_is_yielded(filters, options, text, breakpoints, n - 1, first_position, i)
    } else {
        model::input_tokens(filters, options, text, breakpoints, n - 1, first_position).len() as int
    }
}

/// Every word that no filter drops yields a token, at the position that counts every word
/// before it, dropped or not.
pub proof fn law_words_yield_tokens<T: Tokenizer, F: Filters>(
    tokenizer: T,
    filters: F,
    options: AnalysisOptions,
    inputs: Seq<Seq<char>>,
    k: int,
    i: int,
)
    requires
        ends_word(tokenizer, options, inputs, k, i),
        model::filtered(filters, options, word_text(tokenizer, options, inputs, k, i)) is Some,
    ensures
        model::analysis(tokenizer, filters, options, inputs).contains(
            TokenView {
                text: model::filtered(
                    filters,
                    options,
                    word_text(tokenizer, options, inputs, k, i),
                )->0,
                position: word_position(tokenizer, options, inputs, k, i),
            },
        ),
{
    let breakpoints = tokenizer.segmentation(inputs[k], model::word_options(options));
    let first_position = model::words_before(tokenizer, options, inputs, k);
    let j = lemma_input_word_is_yielded(
        filters,
        options,
        inputs[k],
        breakpoints,
        breakpoints.len() as int,
        first_position,
        i,
    );
    let before = model::tokens_before(tokenizer, filters, options, inputs, k);
    model::lemma_tokens_before_prefix(
        tokenizer,
        filters,
        options,
        inputs,
        k + 1,
        inputs.len() as int,
    );
    let all = model::analysis(tokenizer, filters, options, inputs);
    assert(model::tokens_before(tokenizer, filters, options, inputs, k + 1)[before.len() + j]
        == all[before.len() + j]);
}

proof fn lemma_word_counts_differ(breakpoints: Seq<Breakpoint>, i: int, j: int)
    requires
        1 <= i < j <= breakpoints.len(),
        breakpoints[i].props.is_word_like,
    ensures
        word::word_count(breakpoints, i) < word::word_count(breakpoints, j),
{
    model::lemma_word_count_monotonic(breakpoints, i + 1, j);
}

/// No two words share a position, and later words have later positions: within an input, and
/// from one input to the next.
pub proof fn law_positions_are_monotonic<T: Tokenizer>(
    tokenizer: T,
    options: AnalysisOptions,
    inputs: Seq<Seq<char>>,
    k1: int,
    i1: int,
    k2: int,
    i2: int,
)
    requires
        ends_word(tokenizer, options, inputs, k1, i1),
        ends_word(tokenizer, options, inputs, k2, i2),
        k1 < k2 || (k1 == k2 && i1 < i2),
    ensures
        word_position(tokenizer, options, inputs, k1, i1) < word_position(
            tokenizer,
            options,
            inputs,
            k2,
            i2,
        ),
{
    let breakpoints = tokenizer.segmentation(inputs[k1], model::word_options(options));
    if k1 == k2 {
        lemma_word_counts_differ(breakpoints, i1, i2);
    } else {
        lemma_word_counts_differ(breakpoints, i1, breakpoints.len() as int);
        model::lemma_words_before_monotonic(tokenizer, options, inputs, k1 + 1, k2);
    }
}

/// Positions count words: the first boundary of the first input is at position 0, every word moves
/// the next boundary on by one and nothing else does, and the next input goes on where the last
/// boundary of an input has come to.
pub proof fn law_every_word_takes_one_position<T: Tokenizer>(
    tokenizer: T,
    options: AnalysisOptions,
    inputs: Seq<Seq<char>>,
    k: int,
    i: int,
)
    requires
        0 <= k < inputs.len(),
        1 <= i < tokenizer.segmentation(inputs[k], model::word_options(options)).len(),
    ensures
        ({
            let breakpoints = tokenizer.segmentation(inputs[k], model::word_options(options));
            let last = breakpoints.len() as int;
            &&& word_position(tokenizer, options, inputs, 0, 1) == 0
            &&& word_position(tokenizer, options, inputs, k, i + 1) == word_position(
                tokenizer,
                options,
                inputs,
                k,
                i,
            ) + (if breakpoints[i].props.is_word_like {
                1int
            } else {
                0int
            })
            &&& word_position(tokenizer, options, inputs, k + 1, 1) == word_position(
                tokenizer,
                options,
                inputs,
                k,
                last,
            )
        }),
{
}

/// The positions of the tokens of an analysis strictly increase.
pub proof fn law_token_positions_increase<T: Tokenizer, F: Filters>(
    tokenizer: T,
    filters: F,
    options: AnalysisOptions,
    inputs: Seq<Seq<char>>,
    a: int,
    b: int,
)
    requires
        0 <= a < b < model::analysis(tokenizer, filters, options, inputs).len(),
    ensures
        model::analysis(tokenizer, filters, options, inputs)[a].position < model::analysis(
            tokenizer,
            filters,
            options,
            inputs,
        )[b].position,
{
    lemma_positions_increase(tokenizer, filters, options, inputs, inputs.len() as int, a, b);
}

proof fn lemma_positions_increase<T: Tokenizer, F: Filters>(
    tokenizer: T,
    filters: F,
    options: AnalysisOptions,
    inputs: Seq<Seq<char>>,
    m: int,
    a: int,
    b: int,
)
    requires
        0 <= m <= inputs.len(),
        0 <= a < b < model::tokens_before(tokenizer, filters, options, inputs, m).len(),
    ensures
        model::tokens_before(tokenizer, filters, options, inputs, m)[a].position
            < model::tokens_before(tokenizer, filters, options, inputs, m)[b].position,
    decreases m,
{
    let earlier = model::tokens_before(tokenizer, filters, options, inputs, m - 1);
    let first_position = model::words_before(tokenizer, options, inputs, m - 1);
    let breakpoints = tokenizer.segmentation(inputs[m - 1], model::word_options(options));
    let n = breakpoints.len() as int;
    if b < earlier.len() {
        lemma_positions_increase(tokenizer, filters, options, inputs, m - 1, a, b);
    } else if a < earlier.len() {
        let (k, i) = lemma_token_origin(tokenizer, filters, options, inputs, m - 1, a);
        lemma_word_counts_differ(
            tokenizer.segmentation(inputs[k], model::word_options(options)),
            i,
            tokenizer.segmentation(inputs[k], model::word_options(options)).len() as int,
        );
        model::lemma_words_before_monotonic(tokenizer, options, inputs, k + 1, m - 1);
        let _ = lemma_input_token_origin(
            filters,
            options,
            inputs[m - 1],
            breakpoints,
            n,
            first_position,
            b - earlier.len(),
        );
    } else {
        lemma_input_positions_increase(
            filters,
            options,
            inputs[m - 1],
            breakpoints,
            n,
            first_position,
            a - earlier.len(),
            b - earlier.len(),
        );
    }
}

proof fn lemma_input_positions_increase<F: Filters>(
    filters: F,
    options: AnalysisOptions,
    text: Seq<char>,
    breakpoints: Seq<Breakpoint>,
    n: int,
    first_position: nat,
    a: int,
    b: int,
)
    requires
        n <= breakpoints.len(),
        0 <= a < b < model::input_tokens(
            filters,
            options,
            text,
            breakpoints,
            n,
            first_position,
        ).len(),
    ensures
        model::input_tokens(filters, options, text, breakpoints, n, first_position)[a].position
            < model::input_tokens(
            filters,
            options,
            text,
            breakpoints,
            n,
            first_position,
        )[b].position,
    decreases n,
{
    let earlier = model::input_tokens(filters, options, text, breakpoints, n - 1, first_position);
    if b < earlier.len() {
        lemma_input_positions_increase(
            filters,
            options,
            text,
            breakpoints,
            n - 1,
            first_position,
            a,
            b,
        );
    } else {
        let i = lemma_input_token_origin(
            filters,
            options,
            text,
            breakpoints,
            n - 1,
            first_position,
            a,
        );
        lemma_word_counts_differ(breakpoints, i, n - 1);
    }
}

proof fn lemma_prefix_of_inputs<T: Tokenizer, F: Filters>(
    tokenizer: T,
    filters: F,
    options: AnalysisOptions,
    inputs: Seq<Seq<char>>,
    more: Seq<Seq<char>>,
    k: int,
)
    requires
        0 <= k <= inputs.len(),
    ensures
        model::words_before(tokenizer, options, inputs + more, k) == model::words_before(
            tokenizer,
            options,
            inputs,
            k,
        ),
        model::tokens_before(tokenizer, filters, options, inputs + more, k)
            == model::tokens_before(tokenizer, filters, options, inputs, k),
    decreases k,
{
    if k > 0 {
        lemma_prefix_of_inputs(tokenizer, filters, options, inputs, more, k - 1);
        assert((inputs + more)[k - 1] == inputs[k - 1]);
    }
}

/// A further input leaves the tokens of the others as they are; its own tokens follow, with
/// positions that run on from the words of the others.
pub proof fn law_inputs_are_threaded<T: Tokenizer, F: Filters>(
    tokenizer: T,
    filters: F,
    options: AnalysisOptions,
    inputs: Seq<Seq<char>>,
    next: Seq<char>,
)
    ensures
        ({
            let breakpoints = tokenizer.segmentation(next, model::word_options(options));
            model::analysis(tokenizer, filters, options, inputs.push(next)) == model::analysis(
                tokenizer,
                filters,
                options,
                inputs,
            ) + model::input_tokens(
                filters,
                options,
                next,
                breakpoints,
                breakpoints.len() as int,
                model::words_before(tokenizer, options, inputs, inputs.len() as int),
            )
        }),
{
    assert(inputs.push(next) =~= inputs + seq![next]);
    lemma_prefix_of_inputs(
        tokenizer,
        filters,
        options,
        inputs,
        seq![next],
        inputs.len() as int,
    );
}

/// `tokens` with every position moved on by `by`.
pub open spec fn moved_on(tokens: Seq<TokenView>, by: nat) -> Seq<TokenView> {
    tokens.map_values(
        |token: TokenView| TokenView { text: token.text, position: token.position + by },
    )
}

proof fn lemma_input_tokens_moved_on<F: Filters>(
    filters: F,
    options: AnalysisOptions,
    text: Seq<char>,
    breakpoints: Seq<Breakpoint>,
    n: int,
    first_position: nat,
    by: nat,
)
    ensures
        model::input_tokens(filters, options, text, breakpoints, n, first_position + by)
            == moved_on(
            model::input_tokens(filters, options, text, breakpoints, n, first_position),
            by,
        ),
    decreases n,
{
    let here = model::input_tokens(filters, options, text, breakpoints, n, first_position);
    if n > 1 {
        lemma_input_tokens_moved_on(
            filters,
            options,
            text,
            breakpoints,
            n - 1,
            first_position,
            by,
        );
    }
    assert(model::input_tokens(filters, options, text, breakpoints, n, first_position + by)
        =~= moved_on(here, by));
}

proof fn lemma_inputs_concatenate<T: Tokenizer, F: Filters>(
    tokenizer: T,
    filters: F,
    options: AnalysisOptions,
    first: Seq<Seq<char>>,
    second: Seq<Seq<char>>,
    k: int,
)
    requires
        0 <= k <= second.len(),
    ensures
        ({
            let words = model::words_before(tokenizer, options, first, first.len() as int);
            let tokens = model::analysis(tokenizer, filters, options, first);
            &&& model::words_before(tokenizer, options, first + second, first.len() + k) == words
                + model::words_before(tokenizer, options, second, k)
            &&& model::tokens_before(
                tokenizer,
                filters,
                options,
                first + second,
                first.len() + k,
            ) == tokens + moved_on(
                model::tokens_before(tokenizer, filters, options, second, k),
                words,
            )
        }),
    decreases k,
{
    let words = model::words_before(tokenizer, options, first, first.len() as int);
    let tokens = model::analysis(tokenizer, filters, options, first);
    lemma_prefix_of_inputs(tokenizer, filters, options, first, second, first.len() as int);
    if k == 0 {
        assert(moved_on(model::tokens_before(tokenizer, filters, options, second, 0), words)
            =~= Seq::empty());
        assert(tokens + Seq::<TokenView>::empty() =~= tokens);
    } else {
        lemma_inputs_concatenate(tokenizer, filters, options, first, second, k - 1);
        let text = second[k - 1];
        assert((first + second)[first.len() + k - 1] == text);
        let breakpoints = tokenizer.segmentation(text, model::word_options(options));
        let earlier = model::tokens_before(tokenizer, filters, options, second, k - 1);
        let own = model::input_tokens(
            filters,
            options,
            text,
            breakpoints,
            breakpoints.len() as int,
            model::words_before(tokenizer, options, second, k - 1),
        );
        lemma_input_tokens_moved_on(
            filters,
            options,
            text,
            breakpoints,
            breakpoints.len() as int,
            model::words_before(tokenizer, options, second, k - 1),
            words,
        );
        assert(model::words_before(tokenizer, options, second, k - 1) + words
            == model::words_before(tokenizer, options, first + second, first.len() + k - 1));
        assert(moved_on(earlier + own, words) =~= moved_on(earlier, words) + moved_on(own, words));
        assert(tokens + moved_on(earlier, words) + moved_on(own, words) =~= tokens + moved_on(
            earlier + own,
            words,
        ));
    }
}

/// The analysis of two lists of inputs one after the other is that of the first, followed by
/// that of the second with its positions moved on by the number of words of the first.
pub proof fn law_inputs_concatenate<T: Tokenizer, F: Filters>(
    tokenizer: T,
    filters: F,
    options: AnalysisOptions,
    first: Seq<Seq<char>>,
    second: Seq<Seq<char>>,
)
    ensures
        model::analysis(tokenizer, filters, options, first + second) == model::analysis(
            tokenizer,
            filters,
            options,
            first,
        ) + moved_on(
            model::analysis(tokenizer, filters, options, second),
            model::words_before(tokenizer, options, first, first.len() as int),
        ),
{
    lemma_inputs_concatenate(tokenizer, filters, options, first, second, second.len() as int);
}

proof fn lemma_input_positions_count_up<F: Filters>(
    filters: F,
    options: AnalysisOptions,
    text: Seq<char>,
    breakpoints: Seq<Breakpoint>,
    n: int,
    first_position: nat,
)
    requires
        options.maximum_token_length is None,
        options.stopword_removal is None,
    ensures
        ({
            let tokens = model::input_tokens(
                filters,
                options,
                text,
                breakpoints,
                n,
                first_position,
            );
            &&& tokens.len() == word::word_count(breakpoints, n)
            &&& forall|j: int|
                0 <= j < tokens.len() ==> (#[trigger] tokens[j]).position == first_position + j
        }),
    decreases n,
{
    if n > 1 {
        lemma_input_positions_count_up(
            filters,
            options,
            text,
            breakpoints,
            n - 1,
            first_position,
        );
    }
}

proof fn lemma_positions_count_up<T: Tokenizer, F: Filters>(
    tokenizer: T,
    filters: F,
    options: AnalysisOptions,
    inputs: Seq<Seq<char>>,
    k: int,
)
    requires
        options.maximum_token_length is None,
        options.stopword_removal is None,
    ensures
        ({
            let tokens = model::tokens_before(tokenizer, filters, options, inputs, k);
            &&& tokens.len() == model::words_before(tokenizer, options, inputs, k)
            &&& forall|j: int| 0 <= j < tokens.len() ==> (#[trigger] tokens[j]).position == j
        }),
    decreases k,
{
    if k > 0 {
        let breakpoints = tokenizer.segmentation(inputs[k - 1], model::word_options(options));
        lemma_positions_count_up(tokenizer, filters, options, inputs, k - 1);
        lemma_input_positions_count_up(
            filters,
            options,
            inputs[k - 1],
            breakpoints,
            breakpoints.len() as int,
            model::words_before(tokenizer, options, inputs, k - 1),
        );
    }
}

/// Without a length limit and without stopword removal no word is dropped: the positions of the
/// tokens are 0, 1, 2 and so on, one for each word.
pub proof fn law_positions_count_up<T: Tokenizer, F: Filters>(
    tokenizer: T,
    filters: F,
    options: AnalysisOptions,
    inputs: Seq<Seq<char>>,
)
    requires
        options.maximum_token_length is None,
        options.stopword_removal is None,
    ensures
        model::analysis(tokenizer, filters, options, inputs).len() == model::words_before(
            tokenizer,
            options,
            inputs,
            inputs.len() as int,
        ),
        forall|j: int|
            0 <= j < model::analysis(tokenizer, filters, options, inputs).len() ==> (
            #[trigger] model::analysis(tokenizer, filters, options, inputs)[j]).position == j,
{
    lemma_positions_count_up(tokenizer, filters, options, inputs, inputs.len() as int);
}

/// Whether `part` is `whole` with some tokens left out.
pub open spec fn is_subsequence(part: Seq<TokenView>, whole: Seq<TokenView>) -> bool {
    exists|at: Seq<int>| #[trigger] picks(part, whole, at)
}

/// Whether the tokens of `part` are those of `whole` at the increasing indices `at`.
pub open spec fn picks(part: Seq<TokenView>, whole: Seq<TokenView>, at: Seq<int>) -> bool {
    &&& at.len() == part.len()
    &&& forall|i: int|
        0 <= i < at.len() ==> 0 <= #[trigger] at[i] < whole.len() && part[i] == whole[at[i]]
    &&& forall|i: int, j: int| 0 <= i < j < at.len() ==> #[trigger] at[i] < #[trigger] at[j]
}

/// `options` without the two filters that drop tokens.
pub open spec fn without_dropping(options: AnalysisOptions) -> AnalysisOptions {
    AnalysisOptions { maximum_token_length: None, stopword_removal: None, ..options }
}

proof fn lemma_words_before_same_tokenizer<T: Tokenizer>(
    tokenizer: T,
    options: AnalysisOptions,
    other: AnalysisOptions,
    inputs: Seq<Seq<char>>,
    k: int,
)
    requires
        model::word_options(options) == model::word_options(other),
    ensures
        model::words_before(tokenizer, options, inputs, k) == model::words_before(
            tokenizer,
            other,
            inputs,
            k,
        ),
    decreases k,
{
    if k > 0 {
        lemma_words_before_same_tokenizer(tokenizer, options, other, inputs, k - 1);
    }
}

/// The length limit and stopword removal only drop tokens: the analysis is a subsequence of the
/// one without them, with the text and the position of each token as they are there.
pub proof fn law_dropping_filters_only_drop<T: Tokenizer, F: Filters>(
    tokenizer: T,
    filters: F,
    options: AnalysisOptions,
    inputs: Seq<Seq<char>>,
)
    ensures
        is_subsequence(
            model::analysis(tokenizer, filters, options, inputs),
            model::analysis(tokenizer, filters, without_dropping(options), inputs),
        ),
{
    let loose = without_dropping(options);
    let part = model::analysis(tokenizer, filters, options, inputs);
    let whole = model::analysis(tokenizer, filters, loose, inputs);
    let at = Seq::new(part.len(), |i: int| part[i].position as int);
    law_positions_count_up(tokenizer, filters, loose, inputs);
    assert forall|i: int| 0 <= i < at.len() implies 0 <= #[trigger] at[i] < whole.len() && part[i]
        == whole[at[i]] by {
        let (k, b) = lemma_token_origin(
            tokenizer,
            filters,
            options,
            inputs,
            inputs.len() as int,
            i,
        );
        lemma_words_before_same_tokenizer(tokenizer, options, loose, inputs, k);
        law_words_yield_tokens(tokenizer, filters, loose, inputs, k, b);
        assert(whole.contains(part[i]));
    }
    assert forall|i: int, j: int| 0 <= i < j < at.len() implies #[trigger] at[i] < #[trigger] at[j] by {
        law_token_positions_increase(tokenizer, filters, options, inputs, i, j);
    }
    assert(picks(part, whole, at));
}

/// Whether every one of `inputs` is ASCII and cut at boundaries of its own.
pub open spec fn are_ascii<T: Tokenizer>(
    tokenizer: T,
    options: AnalysisOptions,
    inputs: Seq<Seq<char>>,
) -> bool {
    forall|k: int|
        0 <= k < inputs.len() ==> {
            &&& vstd::utf8::is_ascii_chars(#[trigger] inputs[k])
            &&& word::well_segmented(
                inputs[k],
                tokenizer.segmentation(inputs[k], model::word_options(options)),
            )
        }
}

proof fn lemma_input_tokens_of_ascii<F: Filters>(
    filters: F,
    options: AnalysisOptions,
    other: AnalysisOptions,
    text: Seq<char>,
    breakpoints: Seq<Breakpoint>,
    n: int,
    first_position: nat,
)
    requires
        other == (AnalysisOptions { ascii_folding: other.ascii_folding, ..options }),
        vstd::utf8::is_ascii_chars(text),
        word::well_segmented(text, breakpoints),
        n <= breakpoints.len(),
    ensures
        model::input_tokens(filters, options, text, breakpoints, n, first_position)
            == model::input_tokens(filters, other, text, breakpoints, n, first_position),
    decreases n,
{
    if n > 1 {
        lemma_input_tokens_of_ascii(
            filters,
            options,
            other,
            text,
            breakpoints,
            n - 1,
            first_position,
        );
        word::lemma_ascii_token(text, breakpoints, n - 1);
    }
}

proof fn lemma_tokens_of_ascii<T: Tokenizer, F: Filters>(
    tokenizer: T,
    filters: F,
    options: AnalysisOptions,
    other: AnalysisOptions,
    inputs: Seq<Seq<char>>,
    k: int,
)
    requires
        other == (AnalysisOptions { ascii_folding: other.ascii_folding, ..options }),
        are_ascii(tokenizer, options, inputs),
        k <= inputs.len(),
    ensures
        model::tokens_before(tokenizer, filters, options, inputs, k) == model::tokens_before(
            tokenizer,
            filters,
            other,
            inputs,
            k,
        ),
    decreases k,
{
    if k > 0 {
        lemma_tokens_of_ascii(tokenizer, filters, options, other, inputs, k - 1);
        lemma_words_before_same_tokenizer(tokenizer, options, other, inputs, k - 1);
        let breakpoints = tokenizer.segmentation(inputs[k - 1], model::word_options(options));
        lemma_input_tokens_of_ascii(
            filters,
            options,
            other,
            inputs[k - 1],
            breakpoints,
            breakpoints.len() as int,
            model::words_before(tokenizer, options, inputs, k - 1),
        );
    }
}

/// ASCII folding has no effect on ASCII inputs.
pub proof fn law_ascii_folding_spares_ascii<T: Tokenizer, F: Filters>(
    tokenizer: T,
    filters: F,
    options: AnalysisOptions,
    inputs: Seq<Seq<char>>,
)
    requires
        are_ascii(tokenizer, options, inputs),
    ensures
        model::analysis(
            tokenizer,
            filters,
            AnalysisOptions { ascii_folding: true, ..options },
            inputs,
        ) == model::analysis(
            tokenizer,
            filters,
            AnalysisOptions { ascii_folding: false, ..options },
            inputs,
        ),
{
    let folding = AnalysisOptions { ascii_folding: true, ..options };
    let plain = AnalysisOptions { ascii_folding: false, ..options };
    assert(are_ascii(tokenizer, folding, inputs));
    lemma_tokens_of_ascii(tokenizer, filters, folding, plain, inputs, inputs.len() as int);
}

proof fn lemma_ascii_lowercase_has_no_uppercase(text: Seq<char>)
    ensures
        !text::has_ascii_uppercase(text::ascii_lowercase(text)),
{
    let lowered = text::ascii_lowercase(text);
    assert forall|i: int| 0 <= i < lowered.len() implies !text::is_ascii_uppercase(
        #[trigger] lowered[i],
    ) by {
        assert(lowered[i] == text::ascii_lowercase_char(text[i]));
    }
}

/// With case folding and without stemming, an ASCII word yields no upper-case letter.
pub proof fn law_ascii_words_are_lowercased<F: Filters>(
    filters: F,
    options: AnalysisOptions,
    text: Seq<char>,
)
    requires
        !options.case_sensitive,
        options.stemming is None,
        vstd::utf8::is_ascii_chars(text),
    ensures
        model::filtered(filters, options, text) matches Some(token)
            ==> !text::has_ascii_uppercase(token),
{
    lemma_ascii_lowercase_has_no_uppercase(text);
}

/// With case folding and without stemming, the analysis of ASCII inputs yields no upper-case
/// letter.
pub proof fn law_ascii_tokens_are_lowercase<T: Tokenizer, F: Filters>(
    tokenizer: T,
    filters: F,
    options: AnalysisOptions,
    inputs: Seq<Seq<char>>,
    j: int,
)
    requires
        !options.case_sensitive,
        options.stemming is None,
        are_ascii(tokenizer, options, inputs),
        0 <= j < model::analysis(tokenizer, filters, options, inputs).len(),
    ensures
        !text::has_ascii_uppercase(
            model::analysis(tokenizer, filters, options, inputs)[j].text,
        ),
{
    let (k, i) = lemma_token_origin(tokenizer, filters, options, inputs, inputs.len() as int, j);
    let breakpoints = tokenizer.segmentation(inputs[k], model::word_options(options));
    assert(vstd::utf8::is_ascii_chars(inputs[k]));
    word::lemma_ascii_token(inputs[k], breakpoints, i);
    law_ascii_words_are_lowercased(filters, options, word_text(tokenizer, options, inputs, k, i));
}

/// With case folding and without stemming, no token holds an upper-case ASCII letter, if the
/// lowercasing of other text leaves none.
pub proof fn law_tokens_are_lowercase<T: Tokenizer, F: Filters>(
    tokenizer: T,
    filters: F,
    options: AnalysisOptions,
    inputs: Seq<Seq<char>>,
    j: int,
)
    requires
        !options.case_sensitive,
        options.stemming is None,
        forall|text: Seq<char>| !text::has_ascii_uppercase(#[trigger] filters.lowercased(text)),
        0 <= j < model::analysis(tokenizer, filters, options, inputs).len(),
    ensures
        !text::has_ascii_uppercase(
            model::analysis(tokenizer, filters, options, inputs)[j].text,
        ),
{
    let (k, i) = lemma_token_origin(tokenizer, filters, options, inputs, inputs.len() as int, j);
    let word = word_text(tokenizer, options, inputs, k, i);
    lemma_ascii_lowercase_has_no_uppercase(word);
    lemma_ascii_lowercase_has_no_uppercase(
        filters.folded(model::case_folded(filters, options, word)),
    );
}

/// `inputs` with every ASCII letter in upper case.
pub open spec fn uppercased(inputs: Seq<Seq<char>>) -> Seq<Seq<char>> {
    inputs.map_values(|text: Seq<char>| text::ascii_uppercase(text))
}

/// Whether `a` and `b` cut a text at the same places into the same words.
pub open spec fn cut_alike(a: Seq<Breakpoint>, b: Seq<Breakpoint>) -> bool {
    &&& a.len() == b.len()
    &&& forall|i: int|
        0 <= i < a.len() ==> (#[trigger] a[i]).at == b[i].at && a[i].props.is_word_like
            == b[i].props.is_word_like
}

/// Whether the length limit of `filters` takes no notice of the case of an ASCII word.
pub open spec fn limit_ignores_case<F: Filters>(filters: F) -> bool {
    forall|text: Seq<char>, limit: usize|
        vstd::utf8::is_ascii_chars(text) ==> #[trigger] filters.within_limit(
            text::ascii_uppercase(text),
            limit,
        ) == filters.within_limit(text, limit)
}

proof fn lemma_uppercasing_is_undone(text: Seq<char>)
    requires
        vstd::utf8::is_ascii_chars(text),
    ensures
        vstd::utf8::is_ascii_chars(text::ascii_uppercase(text)),
        text::ascii_lowercase(text::ascii_uppercase(text)) == text::ascii_lowercase(text),
{
    let upper = text::ascii_uppercase(text);
    assert forall|i: int| 0 <= i < upper.len() implies '\0' <= #[trigger] upper[i] <= '\u{7f}' by {
        assert('\0' <= text[i] <= '\u{7f}');
        assert(upper[i] == text::ascii_uppercase_char(text[i]));
    }
    assert(text::ascii_lowercase(upper) =~= text::ascii_lowercase(text));
}

proof fn lemma_uppercased_word<F: Filters>(filters: F, options: AnalysisOptions, text: Seq<char>)
    requires
        !options.case_sensitive,
        vstd::utf8::is_ascii_chars(text),
        limit_ignores_case(filters),
    ensures
        model::filtered(filters, options, text::ascii_uppercase(text)) == model::filtered(
            filters,
            options,
            text,
        ),
{
    lemma_uppercasing_is_undone(text);
    if let Some(limit) = options.maximum_token_length {
        assert(filters.within_limit(text::ascii_uppercase(text), limit) == filters.within_limit(
            text,
            limit,
        ));
    }
}

proof fn lemma_uppercased_input<F: Filters>(
    filters: F,
    options: AnalysisOptions,
    text: Seq<char>,
    breakpoints: Seq<Breakpoint>,
    upper_breakpoints: Seq<Breakpoint>,
    n: int,
    first_position: nat,
)
    requires
        !options.case_sensitive,
        limit_ignores_case(filters),
        vstd::utf8::is_ascii_chars(text),
        word::well_segmented(text, breakpoints),
        word::well_segmented(text::ascii_uppercase(text), upper_breakpoints),
        cut_alike(breakpoints, upper_breakpoints),
        n <= breakpoints.len(),
    ensures
        model::input_tokens(
            filters,
            options,
            text::ascii_uppercase(text),
            upper_breakpoints,
            n,
            first_position,
        ) == model::input_tokens(filters, options, text, breakpoints, n, first_position),
        word::word_count(upper_breakpoints, n) == word::word_count(breakpoints, n),
    decreases n,
{
    if n > 1 {
        lemma_uppercased_input(
            filters,
            options,
            text,
            breakpoints,
            upper_breakpoints,
            n - 1,
            first_position,
        );
        let upper = text::ascii_uppercase(text);
        let word = word::token_text(text, breakpoints, n - 1);
        lemma_uppercasing_is_undone(text);
        word::lemma_ascii_token(text, breakpoints, n - 1);
        word::lemma_ascii_token(upper, upper_breakpoints, n - 1);
        assert(breakpoints[n - 1].at == upper_breakpoints[n - 1].at && breakpoints[n - 2].at
            == upper_breakpoints[n - 2].at);
        assert(word::token_text(upper, upper_breakpoints, n - 1) =~= text::ascii_uppercase(word));
        lemma_uppercased_word(filters, options, word);
    }
}

proof fn lemma_uppercased_inputs<T: Tokenizer, F: Filters>(
    tokenizer: T,
    filters: F,
    options: AnalysisOptions,
    inputs: Seq<Seq<char>>,
    k: int,
)
    requires
        !options.case_sensitive,
        limit_ignores_case(filters),
        are_ascii(tokenizer, options, inputs),
        are_ascii(tokenizer, options, uppercased(inputs)),
        forall|i: int|
            0 <= i < inputs.len() ==> cut_alike(
                tokenizer.segmentation(#[trigger] inputs[i], model::word_options(options)),
                tokenizer.segmentation(
                    text::ascii_uppercase(inputs[i]),
                    model::word_options(options),
                ),
            ),
        k <= inputs.len(),
    ensures
        model::words_before(tokenizer, options, uppercased(inputs), k) == model::words_before(
            tokenizer,
            options,
            inputs,
            k,
        ),
        model::tokens_before(tokenizer, filters, options, uppercased(inputs), k)
            == model::tokens_before(tokenizer, filters, options, inputs, k),
    decreases k,
{
    if k > 0 {
        lemma_uppercased_inputs(tokenizer, filters, options, inputs, k - 1);
        let text = inputs[k - 1];
        assert(uppercased(inputs)[k - 1] == text::ascii_uppercase(text));
        let breakpoints = tokenizer.segmentation(text, model::word_options(options));
        lemma_uppercased_input(
            filters,
            options,
            text,
            breakpoints,
            tokenizer.segmentation(text::ascii_uppercase(text), model::word_options(options)),
            breakpoints.len() as int,
            model::words_before(tokenizer, options, inputs, k - 1),
        );
    }
}

/// With case folding, upper-casing ASCII inputs leaves the analysis as it is, if neither the
/// tokenizer nor the length limit takes notice of the case.
pub proof fn law_case_of_ascii_is_ignored<T: Tokenizer, F: Filters>(
    tokenizer: T,
    filters: F,
    options: AnalysisOptions,
    inputs: Seq<Seq<char>>,
)
    requires
        !options.case_sensitive,
        limit_ignores_case(filters),
        are_ascii(tokenizer, options, inputs),
        are_ascii(tokenizer, options, uppercased(inputs)),
        forall|i: int|
            0 <= i < inputs.len() ==> cut_alike(
                tokenizer.segmentation(#[trigger] inputs[i], model::word_options(options)),
                tokenizer.segmentation(
                    text::ascii_uppercase(inputs[i]),
                    model::word_options(options),
                ),
            ),
    ensures
        model::analysis(tokenizer, filters, options, uppercased(inputs)) == model::analysis(
            tokenizer,
            filters,
            options,
            inputs,
        ),
{
    lemma_uppercased_inputs(tokenizer, filters, options, inputs, inputs.len() as int);
}

/// A listener whose callback never answers `false` hears every token, in order, and nothing else.
pub proof fn law_willing_listener_hears_all<C: FnMut(Token<'_>) -> bool>(
    before: Listener<C>,
    after: Listener<C>,
    tokens: Seq<TokenView>,
)
    requires
        model::delivered(before, after, tokens),
        forall|token: Token<'_>| !call_ensures(before.callback(), (token,), false),
    ensures
        after.wants_more(),
        after.heard() == before.heard() + tokens,
{
    if after.wants_more() {
        assert(tokens.take(tokens.len() as int) =~= tokens);
    }
}

/// A listener whose callback never answers `true` hears the first token and no other.
pub proof fn law_unwilling_listener_hears_one<C: FnMut(Token<'_>) -> bool>(
    before: Listener<C>,
    after: Listener<C>,
    tokens: Seq<TokenView>,
)
    requires
        model::delivered(before, after, tokens),
        forall|token: Token<'_>| !call_ensures(before.callback(), (token,), true),
        tokens.len() > 0,
    ensures
        !after.wants_more(),
        after.heard() == before.heard().push(tokens[0]),
{
    let n = model::heard_since(before, after);
    assert(!model::answers(before.callback(), tokens[0], true));
    assert(n == 1);
    assert(after.heard() =~= before.heard().push(tokens[0]));
}

/// What listeners hear of an analysis does not depend on the buffers that it was run with: two
/// listeners that were given the same tokens, and want more, have heard the same.
pub proof fn law_buffers_are_transparent<C: FnMut(Token<'_>) -> bool, D: FnMut(Token<'_>) -> bool>(
    before: Listener<C>,
    after: Listener<C>,
    other_before: Listener<D>,
    other_after: Listener<D>,
    tokens: Seq<TokenView>,
)
    requires
        model::delivered(before, after, tokens),
        model::delivered(other_before, other_after, tokens),
        after.wants_more(),
        other_after.wants_more(),
    ensures
        after.heard().skip(before.heard().len() as int) == other_after.heard().skip(
            other_before.heard().len() as int,
        ),
{
    assert(after.heard().skip(before.heard().len() as int) =~= tokens);
    assert(other_after.heard().skip(other_before.heard().len() as int) =~= tokens);
}

/// Every input is analyzed: the texts of a slice of strings are those of its strings, in order.
pub proof fn law_texts_are_those_of_the_inputs(inputs: Seq<&str>, i: int)
    requires
        0 <= i < inputs.len(),
    ensures
        model::texts(inputs).len() == inputs.len(),
        model::texts(inputs)[i] == inputs[i]@,
{
}

/// The tokenizer is run with its own options, whatever the other options are.
pub proof fn law_tokenizer_gets_its_options(options: AnalysisOptions, word_options: word::Options)
    requires
        options.tokenizer == TokenizerOptions::UAX29Word(word_options),
    ensures
        model::word_options(options) == word_options,
{
}

/// Inputs can be analyzed if tokenizer and filters follow their models, every boundary that the
/// tokenizer finds is one between two characters and no boundary comes before an earlier one, what
/// it says of a word is true, every word can be stemmed if there is stemming, and there are not
/// too many words.
pub proof fn law_what_can_be_analyzed<T: Tokenizer, F: Filters>(
    tokenizer: T,
    filters: F,
    options: AnalysisOptions,
    inputs: Seq<Seq<char>>,
)
    requires
        word::follows_model(tokenizer),
        filters::follow_model(filters),
        forall|k: int, i: int, j: int|
            #![trigger tokenizer.segmentation(inputs[k], model::word_options(options))[i],
                tokenizer.segmentation(inputs[k], model::word_options(options))[j]]
            ({
                let breakpoints = tokenizer.segmentation(inputs[k], model::word_options(options));
                0 <= k < inputs.len() && 0 <= i <= j < breakpoints.len() ==> {
                    &&& vstd::utf8::is_char_boundary(
                        vstd::utf8::encode_utf8(inputs[k]),
                        breakpoints[i].at as int,
                    )
                    &&& breakpoints[i].at <= breakpoints[j].at
                }
            }),
        forall|k: int, i: int|
            #[trigger] ends_word(tokenizer, options, inputs, k, i) ==> {
                let props = tokenizer.segmentation(
                    inputs[k],
                    model::word_options(options),
                )[i].props;
                let text = word_text(tokenizer, options, inputs, k, i);
                &&& props.is_ascii == vstd::utf8::is_ascii_chars(text)
                &&& props.is_ascii && !props.has_ascii_uppercase ==> forall|c: int|
                    0 <= c < text.len() ==> !(0x41 <= #[trigger] text[c] as int <= 0x5A)
                &&& options.stemming matches Some(language) ==> stemming::can_stem(
                    language,
                    model::case_folded(filters, options, text),
                )
            },
        model::words_before(tokenizer, options, inputs, inputs.len() as int) <= usize::MAX,
    ensures
        model::can_analyze(tokenizer, filters, options, inputs),
{
    assert forall|k: int| 0 <= k < inputs.len() implies {
        let breakpoints = tokenizer.segmentation(#[trigger] inputs[k], model::word_options(options));
        &&& word::well_segmented(inputs[k], breakpoints)
        &&& model::words_fit_stemmer(filters, options, inputs[k], breakpoints)
    } by {
        let breakpoints = tokenizer.segmentation(inputs[k], model::word_options(options));
        assert forall|i: int|
            1 <= i < breakpoints.len() && (
            #[trigger] breakpoints[i]).props.is_word_like implies breakpoints[i].props.hold_of(
            word::token_text(inputs[k], breakpoints, i),
        ) && model::fits_stemmer(filters, options, word::token_text(inputs[k], breakpoints, i)) by {
            assert(ends_word(tokenizer, options, inputs, k, i));
        }
    }
}

/// Nothing follows `false`: if the callback cannot answer `true` to a token, that token is the
/// last one that is heard, at the latest, and the listener wants no more.
pub proof fn law_nothing_follows_false<C: FnMut(Token<'_>) -> bool>(
    before: Listener<C>,
    after: Listener<C>,
    tokens: Seq<TokenView>,
    i: int,
)
    requires
        model::delivered(before, after, tokens),
        0 <= i < tokens.len(),
        forall|token: Token<'_>|
            token.text@ == tokens[i].text && token.position == tokens[i].position
                ==> !call_ensures(before.callback(), (token,), true),
    ensures
        !after.wants_more(),
        after.heard().len() <= before.heard().len() + i + 1,
{
    assert(!model::answers(before.callback(), tokens[i], true));
}

/// The next token follows `true`: as long as the callback cannot answer `false`, the tokens are
/// heard one after the other, and it hears the next one too if there is one.
pub proof fn law_next_token_follows_true<C: FnMut(Token<'_>) -> bool>(
    before: Listener<C>,
    after: Listener<C>,
    tokens: Seq<TokenView>,
    n: int,
)
    requires
        model::delivered(before, after, tokens),
        0 <= n < tokens.len(),
        forall|i: int, token: Token<'_>|
            #![trigger tokens[i], call_ensures(before.callback(), (token,), false)]
            0 <= i < n && token.text@ == tokens[i].text && token.position == tokens[i].position
                ==> !call_ensures(before.callback(), (token,), false),
    ensures
        after.heard().len() >= before.heard().len() + n + 1,
        after.heard().take(before.heard().len() + n + 1) == before.heard() + tokens.take(n + 1),
{
    let m = model::heard_since(before, after);
    if m <= n {
        assert(!after.wants_more());
        assert(!model::answers(before.callback(), tokens[m - 1], false));
    }
    assert(after.heard().take(before.heard().len() + n + 1) =~= before.heard() + tokens.take(
        n + 1,
    ));
}

proof fn lemma_input_stemmed_words<F: Filters>(
    filters: F,
    options: AnalysisOptions,
    text: Seq<char>,
    breakpoints: Seq<Breakpoint>,
    n: int,
    first_position: nat,
)
    ensures
        ({
            let words = model::kept_words(filters, options, text, breakpoints, n);
            let tokens = model::input_tokens(
                filters,
                AnalysisOptions { stemming: None, ascii_folding: false, ..options },
                text,
                breakpoints,
                n,
                first_position,
            );
            &&& words.len() == tokens.len()
            &&& forall|j: int| 0 <= j < words.len() ==> #[trigger] words[j] == tokens[j].text
        }),
    decreases n,
{
    if n > 1 {
        lemma_input_stemmed_words(filters, options, text, breakpoints, n - 1, first_position);
    }
}

proof fn lemma_stemmed_words<T: Tokenizer, F: Filters>(
    tokenizer: T,
    filters: F,
    options: AnalysisOptions,
    inputs: Seq<Seq<char>>,
    k: int,
)
    ensures
        ({
            let words = model::kept_words_before(tokenizer, filters, options, inputs, k);
            let tokens = model::tokens_before(
                tokenizer,
                filters,
                AnalysisOptions { stemming: None, ascii_folding: false, ..options },
                inputs,
                k,
            );
            &&& words.len() == tokens.len()
            &&& forall|j: int| 0 <= j < words.len() ==> #[trigger] words[j] == tokens[j].text
        }),
    decreases k,
{
    if k > 0 {
        let plain = AnalysisOptions { stemming: None, ascii_folding: false, ..options };
        let breakpoints = tokenizer.segmentation(inputs[k - 1], model::word_options(options));
        lemma_stemmed_words(tokenizer, filters, options, inputs, k - 1);
        lemma_input_stemmed_words(
            filters,
            options,
            inputs[k - 1],
            breakpoints,
            breakpoints.len() as int,
            model::words_before(tokenizer, plain, inputs, k - 1),
        );
    }
}

/// The words that an analysis stems are the tokens that the same analysis yields without stemming
/// and without ASCII folding.
pub proof fn law_stemmed_words_are_the_plain_tokens<T: Tokenizer, F: Filters>(
    tokenizer: T,
    filters: F,
    options: AnalysisOptions,
    inputs: Seq<Seq<char>>,
)
    ensures
        ({
            let words = model::stemmed_words(tokenizer, filters, options, inputs);
            let tokens = model::analysis(
                tokenizer,
                filters,
                AnalysisOptions { stemming: None, ascii_folding: false, ..options },
                inputs,
            );
            &&& words.len() == tokens.len()
            &&& forall|j: int| 0 <= j < words.len() ==> #[trigger] words[j] == tokens[j].text
        }),
{
    lemma_stemmed_words(tokenizer, filters, options, inputs, inputs.len() as int);
}

/// After an analysis with stemming that leaves room in the cache, the cache holds an outcome for
/// every word that was stemmed, is short enough for a key, and whose stem adds no more than a few
/// bytes to a part that it shares with it. What the cache held for the language is still there,
/// and all that it holds are stems.
pub proof fn law_analysis_fills_the_cache(
    analyzer: Analyzer,
    before: StemmingCache,
    after: StemmingCache,
    words: Seq<Seq<char>>,
    language: StemmingLanguage,
    key: CacheKey,
    i: int,
    shared: int,
)
    requires
        analyzer.options().stemming == Some(language),
        analyzer.uses(before, after, words),
        0 <= i < words.len(),
        key.wf(),
        key@ == vstd::utf8::encode_utf8(words[i]),
        ({
            let stem = vstd::utf8::encode_utf8(stemming::stem_of(language, words[i]));
            &&& 0 <= shared <= key@.len()
            &&& shared <= stem.len() <= shared + 6
            &&& stem.take(shared) == key@.take(shared)
        }),
        after.len() < after.made_for(),
    ensures
        after.cached(key) is Some,
        after.language() == Some(language),
        after.made_for() == before.made_for(),
{
    let ready = choose|ready: StemmingCache| #[trigger]
        ready.is_readied(&before, language) && after.learned(&ready, words, language);
    let stem = vstd::utf8::encode_utf8(stemming::stem_of(language, words[i]));
    crate::analyze::stemming_cache::law_common_prefix_is_longest(key@, stem, shared);
    assert(words[i] == words[i]);
}

/// An analysis without stemming leaves the cache as it is. One with stemming keeps what a cache
/// for the same language holds, and leaves nothing of a cache for another.
pub proof fn law_analysis_keeps_the_cache(
    analyzer: Analyzer,
    before: StemmingCache,
    after: StemmingCache,
    words: Seq<Seq<char>>,
    key: CacheKey,
)
    requires
        analyzer.uses(before, after, words),
    ensures
        analyzer.options().stemming is None ==> after == before,
        analyzer.options().stemming is Some ==> after.language() == analyzer.options().stemming
            && after.made_for() == before.made_for(),
        analyzer.options().stemming is Some && before.language() == analyzer.options().stemming
            && before.cached(key) is Some ==> after.cached(key) == before.cached(key),
        analyzer.options().stemming is Some && before.language() != analyzer.options().stemming
            && after.cached(key) is Some ==> words.contains(vstd::utf8::decode_utf8(key@)),
{
    if let Some(language) = analyzer.options().stemming {
        let ready = choose|ready: StemmingCache| #[trigger]
            ready.is_readied(&before, language) && after.learned(&ready, words, language);
        assert(ready.cached(key) is Some ==> after.cached(key) == ready.cached(key));
        if before.language() == Some(language) {
            assert(ready.cached(key) == before.cached(key));
        }
    }
}

/// A cache that is readied for the language that it is for already keeps every outcome; one that
/// is readied for another language loses every one.
pub proof fn law_readied_cache_keeps_its_language(
    before: StemmingCache,
    after: StemmingCache,
    language: StemmingLanguage,
    key: CacheKey,
)
    requires
        after.is_readied(&before, language),
    ensures
        after.language() == Some(language),
        after.made_for() == before.made_for(),
        before.language() == Some(language) ==> after.cached(key) == before.cached(key)
            && after.len() == before.len(),
        before.language() != Some(language) ==> after.cached(key) is None && after.len() == 0,
{
}

/// With case folding, what ASCII folding turns into ASCII holds no upper-case letter.
pub proof fn law_folded_tokens_are_lowercase<F: Filters>(
    filters: F,
    options: AnalysisOptions,
    stem: Seq<char>,
)
    requires
        !options.case_sensitive,
        vstd::utf8::is_ascii_chars(filters.folded(stem)),
    ensures
        !text::has_ascii_uppercase(model::ascii_folded(filters, options, stem)),
{
    lemma_ascii_lowercase_has_no_uppercase(filters.folded(stem));
}

/// An outcome that a sound cache holds is no other than what the stemmer would say: whether a
/// stem is looked up or computed cannot be told from the result.
pub proof fn law_cache_is_transparent(
    cache: StemmingCache,
    language: StemmingLanguage,
    key: CacheKey,
    text: Seq<char>,
    outcome: StemOutcome,
)
    requires
        cache.sound_for(language),
        key.wf(),
        key@ == vstd::utf8::encode_utf8(text),
        cache.cached(key) == Some(outcome),
    ensures
        outcome.stem_of(key@) == vstd::utf8::encode_utf8(stemming::stem_of(language, text)),
{
    vstd::utf8::encode_utf8_decode_utf8(text);
}

/// A cache that holds nothing is sound for every language.
pub proof fn law_empty_cache_is_sound(cache: StemmingCache, language: StemmingLanguage)
    requires
        forall|key: CacheKey| #[trigger] cache.cached(key) is None,
    ensures
        cache.sound_for(language),
{
}

/// A cache of stems of one language, readied for any language, holds no stem of another: sharing
/// a cache between analyzers leaks nothing from one to the other.
pub proof fn law_readied_cache_is_sound(
    before: StemmingCache,
    after: StemmingCache,
    language: StemmingLanguage,
)
    requires
        before.language() matches Some(previous) ==> before.sound_for(previous),
        after.is_readied(&before, language),
    ensures
        after.sound_for(language),
{
    if before.language() == Some(language) {
        assert forall|key: CacheKey| #[trigger] after.cached(key) == before.cached(key) by {}
    }
}

/// Learning a stem forgets none, and a cache that was sound stays sound.
pub proof fn law_learning_keeps_what_is_known(
    before: StemmingCache,
    after: StemmingCache,
    language: StemmingLanguage,
    text: Seq<char>,
)
    requires
        before.sound_for(language),
        after.learns(&before, text, stemming::stem_of(language, text)),
    ensures
        after.keeps(&before),
        after.sound_for(language),
        before.len() <= after.len() <= before.len() + 1,
{
    let stem = vstd::utf8::encode_utf8(stemming::stem_of(language, text));
    vstd::utf8::encode_utf8_decode_utf8(text);
    if !after.same_as(&before) {
        let (key, outcome) = choose|key: CacheKey, outcome: StemOutcome|
            #![trigger after.adds(&before, key, outcome)]
            {
                &&& key.wf()
                &&& key@ == vstd::utf8::encode_utf8(text)
                &&& before.cached(key) is None
                &&& outcome.records(key@, stem)
                &&& after.adds(&before, key, outcome)
            };
        crate::analyze::stemming_cache::law_recorded_stem_is_given_back(key@, stem, outcome);
    }
}

} // verus!
