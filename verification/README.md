# token_analysis

Text analysis for full-text search, verified with Verus. Text that a tokenizer has cut into words
goes through a chain of filters (length limit, lowercasing, stopword removal, stemming, ASCII
folding), and the tokens that are left come out with their positions.

- `src/analyze/mod.rs`: the options, the analyzer and its reusable buffer.
- `src/analyze/model.rs`: what an analysis yields, as mathematics. The contracts of the analyzer
  refer to it.
- `src/analyze/laws.rs`: laws of the analysis and of the stemming cache.
- `src/analyze/listener.rs`: the callback that tokens are given to, with a record of its calls.
- `src/analyze/token_text.rs`: the text of one token on its way through the filters.
- `src/analyze/stemming_cache.rs`: the stemming cache, with stems stored as diffs.
- `src/analyze/entry_map.rs`, `src/analyze/stemming.rs`, `src/text.rs`: what is believed of
  `ahash`, `rust_stemmers` and `std`.
- `src/analyze/greek.rs`: the words that the Greek stemmer cannot take.
- `src/uax29/word`: word boundaries, and the byte classifier of the word-break fast path.

The tokenizer and the filters with tables of their own come from the caller, through the traits
`Tokenizer` and `Filters`. Each has a model next to its methods; an analysis is specified for
those whose methods follow the model.
