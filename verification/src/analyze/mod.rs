use vstd::prelude::*;

use crate::analyze::filters::Filters;
use crate::analyze::listener::Listener;
use crate::analyze::stemming_cache::{CacheKey, StemmingCache};
use crate::analyze::token_text::InputRefOrBuffered;
use crate::uax29::word;
use crate::uax29::word::{Breakpoint, TokenProperties, Tokenizer};

pub mod entry_map;
pub mod filter_laws;
pub mod filters;
pub mod greek;
pub mod laws;
pub mod listener;
pub mod model;
pub mod stemming;
pub mod stemming_cache;
pub mod token_text;

verus! {

#[derive(Copy, Clone, Debug, PartialEq, Eq, Structural)]
pub enum StemmingLanguage {
    Arabic,
    Danish,
    Dutch,
    English,
    Finnish,
    French,
    German,
    Greek,
    Hungarian,
    Italian,
    Norwegian,
    Portuguese,
    Romanian,
    Russian,
    Spanish,
    Swedish,
    Tamil,
    Turkish,
}

#[derive(Copy, Clone, Debug)]
pub enum LanguageWithStopwords {
    Danish,
    Dutch,
    English,
    Finnish,
    French,
    German,
    Hungarian,
    Italian,
    Norwegian,
    Portuguese,
    Russian,
    Spanish,
    Swedish,
}

#[derive(Clone, Copy, Debug)]
pub struct AnalysisOptions {
    pub tokenizer: TokenizerOptions,
    // Note: These are ordered in the sequence they are applied in
    pub maximum_token_length: Option<usize>,
    pub case_sensitive: bool,
    pub stopword_removal: Option<StopwordRemoval>,
    pub stemming: Option<StemmingLanguage>,
    pub ascii_folding: bool,
}

impl AnalysisOptions {
    /// Stemming and stopword removal both require case insensitivity.
    pub open spec fn is_valid(self) -> bool {
        self.case_sensitive ==> self.stemming is None && self.stopword_removal is None
    }

    pub fn valid(&self) -> (valid: bool)
        ensures
            valid == self.is_valid(),
    {
        if self.stemming.is_some() && self.case_sensitive {
            return false;  // stemming requires case insensitivity
        }
        if self.stopword_removal.is_some() && self.case_sensitive {
            return false;  // stopword removal requires case insensitivity
        }
        true
    }
}

#[derive(Clone, Copy, Debug)]
pub enum TokenizerOptions {
    UAX29Word(crate::uax29::word::Options),
}

#[derive(Copy, Clone, Debug)]
pub enum StopwordRemoval {
    ForLanguage(LanguageWithStopwords),
}

/// A buffer that should be reused across multiple analyze() invocations
/// to avoid unnecessary allocations. Contents are opaque and internal to
/// the implementation.
#[derive(Debug)]
pub struct ReusableBuffer {
    a: String,
    b: String,
    stemming_cache: StemmingCache,
}

impl ReusableBuffer {
    /// The stemming cache that is kept from analysis to analysis.
    pub closed spec fn cache(&self) -> StemmingCache {
        self.stemming_cache
    }

    /// Whether the text buffers are empty.
    pub closed spec fn is_reset(&self) -> bool {
        self.a@.len() == 0 && self.b@.len() == 0
    }

    /// The invariant: the scratch buffer is empty, and the cache holds stems of its language.
    pub closed spec fn wf(&self) -> bool {
        &&& self.b@.len() == 0
        &&& self.stemming_cache.wf()
        &&& self.stemming_cache.language() matches Some(language)
            ==> self.stemming_cache.sound_for(language)
    }

    /// The text in the scratch buffer.
    pub closed spec fn scratch(&self) -> Seq<char> {
        self.b@
    }

    /// The text in the buffer that tokens are put into.
    pub closed spec fn token_buffer(&self) -> Seq<char> {
        self.a@
    }

    /// A buffer is reset exactly if both of its text buffers are empty.
    pub proof fn law_reset_leaves_no_text(self)
        ensures
            self.is_reset() <==> self.token_buffer().len() == 0 && self.scratch().len() == 0,
    {
    }

    /// The scratch buffer of a buffer is empty; its cache is well-formed, and what it holds are
    /// stems of its language.
    pub proof fn lemma_wf(self)
        requires
            self.wf(),
        ensures
            self.scratch().len() == 0,
            self.cache().wf(),
            self.cache().language() matches Some(language) ==> self.cache().sound_for(language),
    {
    }

    pub fn new() -> (buffer: Self)
        ensures
            buffer.wf(),
            buffer.is_reset(),
            buffer.cache().len() == 0,
            buffer.cache().made_for() == 32_000,
            buffer.cache().language() is None,
            forall|key: CacheKey| #[trigger] buffer.cache().cached(key) is None,
    {
        Self {
            a: String::new(),
            b: String::new(),
            stemming_cache: StemmingCache::new_with_capacity(32_000),
        }
    }

    pub fn stemming_cache(&mut self) -> (cache: &mut StemmingCache)
        ensures
            *cache == old(self).cache(),
            final(self).cache() == *final(cache),
            final(self).is_reset() == old(self).is_reset(),
            old(self).wf() && final(cache).wf() && (final(cache).language() matches Some(language)
                ==> final(cache).sound_for(language)) ==> final(self).wf(),
    {
        &mut self.stemming_cache
    }

    pub fn reset_keep_stemming_cache(&mut self)
        ensures
            final(self).is_reset(),
            final(self).cache() == old(self).cache(),
            old(self).wf() ==> final(self).wf(),
    {
        self.a.clear();
        self.b.clear();
    }
}

impl Clone for ReusableBuffer {
    /// A buffer with the same text and the same cached stems.
    fn clone(&self) -> (copy: Self)
        ensures
            self.wf() ==> copy.wf(),
            copy.is_reset() == self.is_reset(),
            forall|key: CacheKey|
                #[trigger] copy.cache().cached(key) == self.cache().cached(key),
            copy.cache().len() == self.cache().len(),
            copy.cache().made_for() == 0,
            copy.cache().language() == self.cache().language(),
    {
        Self {
            a: self.a.clone(),
            b: self.b.clone(),
            stemming_cache: self.stemming_cache.clone(),
        }
    }
}

#[derive(Clone, Copy)]
pub struct Analyzer {
    options: AnalysisOptions,
}

impl Analyzer {
    /// The options of the analyzer.
    pub closed spec fn options(&self) -> AnalysisOptions {
        self.options
    }

    /// The invariant: the options are valid.
    #[verifier::type_invariant]
    spec fn options_are_valid(self) -> bool {
        self.options.is_valid()
    }

    pub fn new(options: AnalysisOptions) -> (analyzer: Self)
        requires
            options.is_valid(),
        ensures
            analyzer.options() == options,
    {
        Self { options }
    }

    /// Analyzes a single input string, giving the listener each token. Once its callback has
    /// answered `false`, the analysis stops early.
    pub fn analyze<'a, T: Tokenizer, F: Filters, C: FnMut(Token<'_>) -> bool>(
        &self,
        input: &'a str,
        tokenizer: &T,
        filters: &F,
        buffer: &mut ReusableBuffer,
        listener: &mut Listener<C>,
    )
        requires
            old(buffer).wf(),
            model::can_analyze(*tokenizer, *filters, self.options(), seq![input@]),
            old(listener).callable(),
            old(listener).wants_more(),
        ensures
            model::delivered(
                *old(listener),
                *final(listener),
                model::analysis(*tokenizer, *filters, self.options(), seq![input@]),
            ),
            final(buffer).wf(),
            self.uses(
                old(buffer).cache(),
                final(buffer).cache(),
                model::stemmed_words(*tokenizer, *filters, self.options(), seq![input@]).take(
                    model::heard_since(*old(listener), *final(listener)),
                ),
            ),
    {
        let inputs = [input];
        assert(model::texts(inputs@) =~= seq![input@]);
        self.analyze_inputs(&inputs, tokenizer, filters, buffer, listener);
    }

    /// What filtering words of which `kept` are kept does to a cache that is ready for the
    /// stemming language: nothing without stemming; otherwise it learns their stems.
    pub open spec fn teaches(
        &self,
        before: StemmingCache,
        after: StemmingCache,
        kept: Seq<Seq<char>>,
    ) -> bool {
        match self.options().stemming {
            None => after == before,
            Some(language) => after.learned(&before, kept, language),
        }
    }

    /// What an analysis that keeps the words `kept` does to a stemming cache: nothing without
    /// stemming; otherwise the cache is readied for the stemming language and learns their stems.
    pub open spec fn uses(
        &self,
        before: StemmingCache,
        after: StemmingCache,
        kept: Seq<Seq<char>>,
    ) -> bool {
        match self.options().stemming {
            None => after == before,
            Some(language) => exists|ready: StemmingCache| #[trigger]
                ready.is_readied(&before, language) && after.learned(&ready, kept, language),
        }
    }

    /// Analyzes a sequence of input strings, giving the listener each token. Once its callback
    /// has answered `false`, the analysis stops early.
    pub fn analyze_inputs<'a, T: Tokenizer, F: Filters, C: FnMut(Token<'_>) -> bool>(
        &self,
        inputs: &[&'a str],
        tokenizer: &T,
        filters: &F,
        buffer: &mut ReusableBuffer,
        listener: &mut Listener<C>,
    )
        requires
            old(buffer).wf(),
            model::can_analyze(*tokenizer, *filters, self.options(), model::texts(inputs@)),
            old(listener).callable(),
            old(listener).wants_more(),
        ensures
            model::delivered(
                *old(listener),
                *final(listener),
                model::analysis(*tokenizer, *filters, self.options(), model::texts(inputs@)),
            ),
            final(buffer).wf(),
            self.uses(
                old(buffer).cache(),
                final(buffer).cache(),
                model::stemmed_words(
                    *tokenizer,
                    *filters,
                    self.options(),
                    model::texts(inputs@),
                ).take(model::heard_since(*old(listener), *final(listener))),
            ),
    {
        if self.options.case_sensitive {
            self.analyze_inputs_impl::<true, T, F, C>(inputs, tokenizer, filters, buffer, listener)
        } else {
            self.analyze_inputs_impl::<false, T, F, C>(inputs, tokenizer, filters, buffer, listener)
        }
    }

    fn analyze_inputs_impl<
        'a,
        const CASE_SENSITIVE: bool,
        T: Tokenizer,
        F: Filters,
        C: FnMut(Token<'_>) -> bool,
    >(
        &self,
        inputs: &[&'a str],
        tokenizer: &T,
        filters: &F,
        buffer: &mut ReusableBuffer,
        listener: &mut Listener<C>,
    )
        requires
            CASE_SENSITIVE == self.options().case_sensitive,
            old(buffer).wf(),
            model::can_analyze(*tokenizer, *filters, self.options(), model::texts(inputs@)),
            old(listener).callable(),
            old(listener).wants_more(),
        ensures
            model::delivered(
                *old(listener),
                *final(listener),
                model::analysis(*tokenizer, *filters, self.options(), model::texts(inputs@)),
            ),
            final(buffer).wf(),
            self.uses(
                old(buffer).cache(),
                final(buffer).cache(),
                model::stemmed_words(
                    *tokenizer,
                    *filters,
                    self.options(),
                    model::texts(inputs@),
                ).take(model::heard_since(*old(listener), *final(listener))),
            ),
    {
        if let Some(language) = self.options.stemming {
            // Cached stems are language-specific; reusing this buffer with a different
            // stemming language must not serve stale entries.
            buffer.stemming_cache.prepare(language);
        }
        // Monotonic across all inputs. Every word-like token consumes
        // a position, even if a downstream filter (length, stopword) drops it,
        // which is important for phrase-distance accuracy.
        let mut next_position: usize = 0;

        let TokenizerOptions::UAX29Word(tokenizer_opts) = self.options.tokenizer;

        let ghost texts = model::texts(inputs@);
        let ghost options = self.options();
        let ghost ready = buffer.cache();
        let ghost all = model::analysis(*tokenizer, *filters, options, texts);
        let ghost all_kept = model::stemmed_words(*tokenizer, *filters, options, texts);
        let mut k: usize = 0;
        while k < inputs.len()
            invariant
                k <= inputs.len(),
                texts == model::texts(inputs@),
                options == self.options(),
                CASE_SENSITIVE == options.case_sensitive,
                tokenizer_opts == model::word_options(options),
                all == model::analysis(*tokenizer, *filters, options, texts),
                all_kept == model::stemmed_words(*tokenizer, *filters, options, texts),
                model::can_analyze(*tokenizer, *filters, options, texts),
                listener.callable(),
                listener.wants_more(),
                listener.callback() == old(listener).callback(),
                listener.heard() == old(listener).heard() + model::tokens_before(
                    *tokenizer,
                    *filters,
                    options,
                    texts,
                    k as int,
                ),
                model::answers_all(
                    listener.callback(),
                    model::tokens_before(*tokenizer, *filters, options, texts, k as int),
                    model::tokens_before(
                        *tokenizer,
                        *filters,
                        options,
                        texts,
                        k as int,
                    ).len() as int,
                ),
                buffer.wf(),
                buffer.cache().language() == options.stemming || options.stemming is None,
                options.stemming is None ==> ready == old(buffer).cache(),
                options.stemming matches Some(language) ==> ready.is_readied(
                    &old(buffer).cache(),
                    language,
                ),
                self.teaches(
                    ready,
                    buffer.cache(),
                    model::kept_words_before(*tokenizer, *filters, options, texts, k as int),
                ),
                next_position == model::words_before(*tokenizer, options, texts, k as int),
            decreases inputs.len() - k,
        {
            let input = inputs[k];
            let breakpoints = tokenizer.tokenize(input, tokenizer_opts);
            let ghost before = model::tokens_before(*tokenizer, *filters, options, texts, k as int);
            let ghost tokens = model::input_tokens(
                *filters,
                options,
                input@,
                breakpoints@,
                breakpoints@.len() as int,
                next_position as nat,
            );
            let ghost kept_before = model::kept_words_before(
                *tokenizer,
                *filters,
                options,
                texts,
                k as int,
            );
            let ghost kept = model::kept_words(
                *filters,
                options,
                input@,
                breakpoints@,
                breakpoints@.len() as int,
            );
            let ghost listening = *listener;
            let ghost cached = buffer.cache();
            proof {
                assert(texts[k as int] == input@);
                assert(breakpoints@ == tokenizer.segmentation(input@, tokenizer_opts));
                model::lemma_words_before_monotonic(
                    *tokenizer,
                    options,
                    texts,
                    k + 1,
                    texts.len() as int,
                );
                assert(before + tokens == model::tokens_before(
                    *tokenizer,
                    *filters,
                    options,
                    texts,
                    k + 1,
                ));
                assert(kept_before + kept == model::kept_words_before(
                    *tokenizer,
                    *filters,
                    options,
                    texts,
                    k + 1,
                ));
                model::lemma_kept_words_len(
                    *filters,
                    options,
                    input@,
                    breakpoints@,
                    breakpoints@.len() as int,
                    next_position as nat,
                );
                model::lemma_kept_words_before_len(*tokenizer, *filters, options, texts, k as int);
            }
            let (go_on, words) = self.analyze_words::<CASE_SENSITIVE, F, C>(
                input,
                &breakpoints,
                next_position,
                filters,
                buffer,
                listener,
            );
            proof {
                let n = model::heard_since(listening, *listener);
                if let Some(language) = options.stemming {
                    stemming_cache::law_learning_accumulates(
                        ready,
                        cached,
                        buffer.cache(),
                        kept_before,
                        kept.take(n),
                        language,
                    );
                }
                if go_on {
                    assert(tokens.take(n) =~= tokens);
                    assert(kept.take(n) =~= kept);
                    assert forall|i: int| 0 <= i < (before + tokens).len() implies model::answers(
                        listener.callback(),
                        #[trigger] (before + tokens)[i],
                        true,
                    ) by {
                        if i >= before.len() {
                            assert((before + tokens)[i] == tokens[i - before.len()]);
                        }
                    }
                } else {
                    model::lemma_tokens_before_prefix(
                        *tokenizer,
                        *filters,
                        options,
                        texts,
                        k + 1,
                        texts.len() as int,
                    );
                    model::lemma_kept_words_before_prefix(
                        *tokenizer,
                        *filters,
                        options,
                        texts,
                        k + 1,
                        texts.len() as int,
                    );
                    let m = before.len() + n;
                    assert(all[m - 1] == (before + tokens)[m - 1]);
                    assert forall|i: int| 0 <= i < m - 1 implies model::answers(
                        listener.callback(),
                        #[trigger] all[i],
                        true,
                    ) by {
                        assert(all[i] == (before + tokens)[i]);
                        if i >= before.len() {
                            assert((before + tokens)[i] == tokens[i - before.len()]);
                        }
                    }
                    assert(all.take(m) =~= before + tokens.take(n));
                    assert(all_kept.take(m) =~= kept_before + kept.take(n));
                    assert(listener.heard() =~= old(listener).heard() + all.take(m));
                    assert(m == model::heard_since(*old(listener), *listener));
                }
            }
            if !go_on {
                return ;
            }
            next_position += words;
            k += 1;
        }
        proof {
            let n = model::heard_since(*old(listener), *listener);
            model::lemma_kept_words_before_len(
                *tokenizer,
                *filters,
                options,
                texts,
                texts.len() as int,
            );
            assert(all.take(n) =~= all);
            assert(all_kept.take(n) =~= all_kept);
        }
    }

    /// Analyzes one input string, cut at `breakpoints`; its first word has `first_position`.
    /// Returns whether the listener wants more tokens, and if so the number of words.
    pub fn analyze_words<
        const CASE_SENSITIVE: bool,
        F: Filters,
        C: FnMut(Token<'_>) -> bool,
    >(
        &self,
        input: &str,
        breakpoints: &[Breakpoint],
        first_position: usize,
        filters: &F,
        buffer: &mut ReusableBuffer,
        listener: &mut Listener<C>,
    ) -> (r: (bool, usize))
        requires
            CASE_SENSITIVE == self.options().case_sensitive,
            word::well_segmented(input@, breakpoints@),
            first_position + word::word_count(breakpoints@, breakpoints@.len() as int)
                <= usize::MAX,
            filters::follow_model(*filters),
            model::words_fit_stemmer(*filters, self.options(), input@, breakpoints@),
            old(buffer).wf(),
            old(buffer).cache().language() == self.options().stemming
                || self.options().stemming is None,
            old(listener).callable(),
            old(listener).wants_more(),
        ensures
            model::delivered(
                *old(listener),
                *final(listener),
                model::input_tokens(
                    *filters,
                    self.options(),
                    input@,
                    breakpoints@,
                    breakpoints@.len() as int,
                    first_position as nat,
                ),
            ),
            r.0 == final(listener).wants_more(),
            r.0 ==> r.1 == word::word_count(breakpoints@, breakpoints@.len() as int),
            final(buffer).wf(),
            final(buffer).cache().language() == old(buffer).cache().language(),
            self.teaches(
                old(buffer).cache(),
                final(buffer).cache(),
                model::kept_words(
                    *filters,
                    self.options(),
                    input@,
                    breakpoints@,
                    breakpoints@.len() as int,
                ).take(model::heard_since(*old(listener), *final(listener))),
            ),
    {
        let ghost options = self.options();
        let ghost all = model::input_tokens(
            *filters,
            options,
            input@,
            breakpoints@,
            breakpoints@.len() as int,
            first_position as nat,
        );
        let ghost all_kept = model::kept_words(
            *filters,
            options,
            input@,
            breakpoints@,
            breakpoints@.len() as int,
        );
        let mut words: usize = 0;
        let mut i: usize = 1;  // no token ends at the first breakpoint
        while i < breakpoints.len()
            invariant
                1 <= i,
                i <= breakpoints.len() || i == 1,
                options == self.options(),
                CASE_SENSITIVE == options.case_sensitive,
                word::well_segmented(input@, breakpoints@),
                first_position + word::word_count(breakpoints@, breakpoints@.len() as int)
                    <= usize::MAX,
                filters::follow_model(*filters),
                model::words_fit_stemmer(*filters, options, input@, breakpoints@),
                listener.callable(),
                listener.wants_more(),
                listener.callback() == old(listener).callback(),
                listener.heard() == old(listener).heard() + model::input_tokens(
                    *filters,
                    options,
                    input@,
                    breakpoints@,
                    i as int,
                    first_position as nat,
                ),
                model::answers_all(
                    listener.callback(),
                    model::input_tokens(
                        *filters,
                        options,
                        input@,
                        breakpoints@,
                        i as int,
                        first_position as nat,
                    ),
                    model::input_tokens(
                        *filters,
                        options,
                        input@,
                        breakpoints@,
                        i as int,
                        first_position as nat,
                    ).len() as int,
                ),
                buffer.wf(),
                buffer.cache().language() == old(buffer).cache().language(),
                buffer.cache().language() == options.stemming || options.stemming is None,
                self.teaches(
                    old(buffer).cache(),
                    buffer.cache(),
                    model::kept_words(*filters, options, input@, breakpoints@, i as int),
                ),
                words == word::word_count(breakpoints@, i as int),
                all == model::input_tokens(
                    *filters,
                    options,
                    input@,
                    breakpoints@,
                    breakpoints@.len() as int,
                    first_position as nat,
                ),
                all_kept == model::kept_words(
                    *filters,
                    options,
                    input@,
                    breakpoints@,
                    breakpoints@.len() as int,
                ),
            decreases breakpoints.len() - i,
        {
            let prev = breakpoints[i - 1].at;
            let bp = breakpoints[i].at;
            let props = breakpoints[i].props;
            let ghost heard = model::input_tokens(
                *filters,
                options,
                input@,
                breakpoints@,
                i as int,
                first_position as nat,
            );
            let ghost kept_before = model::kept_words(
                *filters,
                options,
                input@,
                breakpoints@,
                i as int,
            );
            let ghost cached = buffer.cache();
            i += 1;
            if !props.is_word_like {
                continue;  // skip non-word tokens
            }
            // Advance position after each word-like token.
            proof {
                model::lemma_word_count_monotonic(
                    breakpoints@,
                    i as int,
                    breakpoints@.len() as int,
                );
            }
            let position = first_position + words;
            words += 1;

            let mut buffer_a = String::new();
            std::mem::swap(&mut buffer.a, &mut buffer_a);
            buffer_a.clear();
            let text = word::slice(input, prev, bp);
            let (kept, token_text) = self.filter_token::<CASE_SENSITIVE, F>(
                text,
                props,
                filters,
                buffer_a,
                &mut buffer.b,
                &mut buffer.stemming_cache,
            );
            let mut go_on = true;
            let ghost heard_next = model::input_tokens(
                *filters,
                options,
                input@,
                breakpoints@,
                i as int,
                first_position as nat,
            );
            let ghost kept_next = model::kept_words(
                *filters,
                options,
                input@,
                breakpoints@,
                i as int,
            );
            if kept {
                let ghost folded = model::case_folded(*filters, options, text@);
                let token = Token { text: token_text.as_str(), position };
                let ghost view = model::TokenView {
                    text: token_text.text(),
                    position: position as nat,
                };
                let ghost given = token;
                go_on = listener.hear(token);
                proof {
                    assert(call_ensures(listener.callback(), (given,), go_on));
                    assert(model::answers(listener.callback(), view, go_on));
                    assert(heard_next =~= heard.push(view));
                    assert(kept_next =~= kept_before + seq![folded]);
                    if let Some(language) = options.stemming {
                        stemming_cache::lemma_learns_one(cached, buffer.stemming_cache, folded, language);
                        stemming_cache::law_learning_accumulates(
                            old(buffer).cache(),
                            cached,
                            buffer.stemming_cache,
                            kept_before,
                            seq![folded],
                            language,
                        );
                    }
                }
            }
            buffer.a = token_text.into_buffer();
            if !go_on {
                proof {
                    let n = heard_next.len() as int;
                    model::lemma_input_tokens_prefix(
                        *filters,
                        options,
                        input@,
                        breakpoints@,
                        i as int,
                        breakpoints@.len() as int,
                        first_position as nat,
                    );
                    model::lemma_kept_words_prefix(
                        *filters,
                        options,
                        input@,
                        breakpoints@,
                        i as int,
                        breakpoints@.len() as int,
                    );
                    model::lemma_kept_words_len(
                        *filters,
                        options,
                        input@,
                        breakpoints@,
                        i as int,
                        first_position as nat,
                    );
                    assert(all[n - 1] == heard_next[n - 1]);
                    assert forall|j: int| 0 <= j < n - 1 implies model::answers(
                        listener.callback(),
                        #[trigger] all[j],
                        true,
                    ) by {
                        assert(all[j] == heard_next[j] && heard_next[j] == heard[j]);
                    }
                    assert(all.take(n) =~= heard_next);
                    assert(all_kept.take(n) =~= kept_next);
                    assert(n == model::heard_since(*old(listener), *listener));
                }
                return (false, words);
            }
        }
        proof {
            model::lemma_kept_words_len(
                *filters,
                options,
                input@,
                breakpoints@,
                breakpoints@.len() as int,
                first_position as nat,
            );
            assert(all.take(all.len() as int) =~= all);
            assert(all_kept.take(all_kept.len() as int) =~= all_kept);
        }
        (true, words)
    }

    /// Runs the filters on the text of one word. Returns whether the word is kept, and its
    /// text if it is.
    pub fn filter_token<'a, const CASE_SENSITIVE: bool, F: Filters>(
        &self,
        text: &'a str,
        props: TokenProperties,
        filters: &F,
        buffer: String,
        scratch: &mut String,
        cache: &mut StemmingCache,
    ) -> (r: (bool, InputRefOrBuffered<'a>))
        requires
            CASE_SENSITIVE == self.options().case_sensitive,
            filters::follow_model(*filters),
            props.hold_of(text@),
            model::fits_stemmer(*filters, self.options(), text@),
            buffer@.len() == 0,
            old(scratch)@.len() == 0,
            old(cache).wf(),
            self.options().stemming matches Some(language) ==> old(cache).sound_for(language),
        ensures
            r.0 == model::filtered(*filters, self.options(), text@) is Some,
            r.0 ==> model::filtered(*filters, self.options(), text@) == Some(r.1.text()),
            final(scratch)@.len() == 0,
            final(cache).wf(),
            !r.0 ==> *final(cache) == *old(cache),
            match self.options().stemming {
                None => *final(cache) == *old(cache),
                Some(language) => {
                    &&& final(cache).sound_for(language)
                    &&& final(cache).keeps(old(cache))
                    &&& r.0 ==> final(cache).learns(
                        old(cache),
                        model::case_folded(*filters, self.options(), text@),
                        stemming::stem_of(
                            language,
                            model::case_folded(*filters, self.options(), text@),
                        ),
                    )
                },
            },
    {
        let mut token_text = InputRefOrBuffered::InputRef { input: text, buffer_if_needed: buffer };

        // Token length
        if let Some(max_token_length) = self.options.maximum_token_length {
            if !filters.within_token_length_limit(token_text.as_str(), max_token_length) {
                return (false, token_text);
            }
        }

        // Lowercasing
        if !CASE_SENSITIVE {
            token_text.lowercase_in_place(filters, props.is_ascii, props.has_ascii_uppercase);
        }

        // Stopword removal
        if let Some(StopwordRemoval::ForLanguage(language)) = self.options.stopword_removal {
            if filters.is_stopword_in_language(language, token_text.as_str()) {
                return (false, token_text);
            }
        }

        // Stemming
        if let Some(language) = self.options.stemming {
            token_text.stem_in_place(language, cache, scratch);
        }

        // ASCII folding
        // Note: Not needed if token is already ASCII
        if self.options.ascii_folding && !props.is_ascii {
            token_text.ascii_fold_in_place(filters, scratch);

            // ASCII folding can produce uppercase ASCII characters,
            // so we'll lowercase again if case folding is enabled.
            if !CASE_SENSITIVE {
                let is_ascii = token_text.as_str().is_ascii();
                token_text.lowercase_in_place(filters, is_ascii, true);
            }
        }
        (true, token_text)
    }
}

pub struct Token<'a> {
    /// Text of the token, either sliced from the input string or from the reused
    /// buffer. Only valid for the duration of the callback invocation.
    pub text: &'a str,
    /// Position of the token in the sequence of tokens. If `analyze_inputs` is used,
    /// token positions are threaded monotonically across all input strings. Every word-like
    /// token consumes one position, even if filtered out (e.g. by stopword removal, etc).
    pub position: usize,
}

} // verus!
