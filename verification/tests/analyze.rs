use token_analysis::analyze::filters::Filters;
use token_analysis::analyze::greek;
use token_analysis::analyze::listener::Listener;
use token_analysis::analyze::stemming;
use token_analysis::analyze::stemming_cache::{CacheKey, StemmingCache};
use token_analysis::analyze::token_text::InputRefOrBuffered;
use token_analysis::analyze::{
    AnalysisOptions, Analyzer, LanguageWithStopwords, ReusableBuffer, StemmingLanguage,
    StopwordRemoval, Token, TokenizerOptions,
};
use token_analysis::uax29::word::{Breakpoint, Options, TokenProperties, Tokenizer};

/// Words are runs of letters, digits, marks and underscores, joined by single quotes, full stops
/// and commas inside; everything else is a token of one character.
struct RunTokenizer;

fn is_word_char(c: char) -> bool {
    c.is_alphanumeric() || c == '_' || ('\u{300}'..='\u{36F}').contains(&c)
}

impl Tokenizer for RunTokenizer {
    fn tokenize(&self, text: &str, _options: Options) -> Vec<Breakpoint> {
        let chars: Vec<(usize, char)> = text.char_indices().collect();
        let mut breakpoints = Vec::new();
        let mut push = |from: usize, at: usize, is_word_like: bool| {
            let token = &text[from..at];
            breakpoints.push(Breakpoint {
                at,
                props: TokenProperties {
                    is_word_like,
                    is_ascii: token.is_ascii(),
                    has_ascii_uppercase: token.bytes().any(|b| b.is_ascii_uppercase()),
                },
            });
        };
        let mut i = 0;
        while i < chars.len() {
            if i == 0 {
                push(0, 0, false);
            }
            let start = chars[i].0;
            let word = is_word_char(chars[i].1);
            i += 1;
            if word {
                while i < chars.len() {
                    let joins = matches!(chars[i].1, '\'' | '.' | ',')
                        && i + 1 < chars.len()
                        && is_word_char(chars[i + 1].1);
                    if !is_word_char(chars[i].1) && !joins {
                        break;
                    }
                    i += 1;
                }
            }
            let end = if i < chars.len() { chars[i].0 } else { text.len() };
            push(start, end, word);
        }
        breakpoints
    }
}

struct SomeFilters;

impl Filters for SomeFilters {
    fn within_token_length_limit(&self, text: &str, limit: usize) -> bool {
        text.len() <= limit
    }

    fn is_stopword_in_language(&self, language: LanguageWithStopwords, text: &str) -> bool {
        match language {
            LanguageWithStopwords::English => {
                ["a", "and", "are", "is", "the", "their"].contains(&text)
            }
            LanguageWithStopwords::German => ["das", "der", "die", "und"].contains(&text),
            _ => false,
        }
    }

    fn lowercase_chars(&self, text: &str) -> String {
        text.chars().flat_map(char::to_lowercase).collect()
    }

    fn ascii_fold(&self, text: &str) -> String {
        let mut out = String::new();
        for c in text.chars() {
            match c {
                'à' | 'á' | 'â' | 'ä' => out.push('a'),
                'è' | 'é' | 'ê' | 'ë' => out.push('e'),
                'ò' | 'ó' | 'ô' | 'ö' => out.push('o'),
                'ß' => out.push_str("ss"),
                'ﬃ' => out.push_str("FFI"),
                other => out.push(other),
            }
        }
        out
    }
}

fn collect(
    analyzer: &Analyzer,
    buffer: &mut ReusableBuffer,
    input: &str,
) -> Vec<(String, usize)> {
    let mut out = Vec::new();
    let mut listener = Listener::new(|token: Token<'_>| {
        out.push((token.text.to_string(), token.position));
        true
    });
    analyzer.analyze(input, &RunTokenizer, &SomeFilters, buffer, &mut listener);
    out
}

fn collect_inputs(analyzer: &Analyzer, inputs: &[&str]) -> Vec<(String, usize)> {
    let mut out = Vec::new();
    let mut buffer = ReusableBuffer::new();
    let mut listener = Listener::new(|token: Token<'_>| {
        out.push((token.text.to_string(), token.position));
        true
    });
    analyzer.analyze_inputs(inputs, &RunTokenizer, &SomeFilters, &mut buffer, &mut listener);
    out
}

fn tokens(expected: &[(&str, usize)]) -> Vec<(String, usize)> {
    expected
        .iter()
        .map(|(text, position)| (text.to_string(), *position))
        .collect()
}

fn full_english() -> AnalysisOptions {
    AnalysisOptions {
        tokenizer: TokenizerOptions::UAX29Word(Options::default()),
        maximum_token_length: Some(40),
        case_sensitive: false,
        stopword_removal: Some(StopwordRemoval::ForLanguage(LanguageWithStopwords::English)),
        stemming: Some(StemmingLanguage::English),
        ascii_folding: true,
    }
}

fn plain() -> AnalysisOptions {
    AnalysisOptions {
        tokenizer: TokenizerOptions::UAX29Word(Options::default()),
        maximum_token_length: None,
        case_sensitive: true,
        stopword_removal: None,
        stemming: None,
        ascii_folding: false,
    }
}

#[test]
fn full_pipeline_output() {
    let analyzer = Analyzer::new(full_english());
    let mut buffer = ReusableBuffer::new();
    // "The" and "are" are stopwords but still consume positions.
    assert_eq!(
        collect(&analyzer, &mut buffer, "The quick Foxes are running"),
        vec![
            ("quick".to_string(), 1),
            ("fox".to_string(), 2),
            ("run".to_string(), 4)
        ]
    );
}

/// The token cache must be transparent: a cold pass (all misses, running the real
/// filter chain) and a warm pass (served from cache) must produce identical output.
/// Inputs cover ASCII/Unicode case folding, folding-induced growth, skip outcomes,
/// tokens too long to cache, and outputs too divergent to encode.
#[test]
fn cache_is_transparent() {
    let analyzer = Analyzer::new(full_english());
    let mut buffer = ReusableBuffer::new();
    let input = "The quick brown Foxes are running and THEIR happiness is \
                 internationalization! Wikipedia café Дом ПРИВЕТМИР İstanbul ﬃ \
                 e.g. can't 1,000 _connector_ a\u{0301} León supercalifragilistic";
    let cold = collect(&analyzer, &mut buffer, input);
    let warm = collect(&analyzer, &mut buffer, input);
    assert!(!cold.is_empty());
    assert_eq!(cold, warm);
}

/// Skip outcomes served from the cache must still consume token positions
/// (phrase-distance accuracy depends on this).
#[test]
fn cached_skips_consume_positions() {
    let analyzer = Analyzer::new(AnalysisOptions {
        maximum_token_length: Some(5),
        ..full_english()
    });
    let mut buffer = ReusableBuffer::new();
    let input = "the extraordinary cat the extraordinary cat";
    let expected = vec![("cat".to_string(), 2), ("cat".to_string(), 5)];
    assert_eq!(collect(&analyzer, &mut buffer, input), expected);
    // Warm pass: every skip now comes from the cache.
    assert_eq!(collect(&analyzer, &mut buffer, input), expected);
}

/// Sharing a `ReusableBuffer` across differently-configured analyzers must not leak
/// cached outcomes between configurations.
#[test]
fn cache_cleared_on_options_change() {
    let english = Analyzer::new(full_english());
    let german = Analyzer::new(AnalysisOptions {
        stopword_removal: Some(StopwordRemoval::ForLanguage(LanguageWithStopwords::German)),
        stemming: Some(StemmingLanguage::German),
        ..full_english()
    });
    let input = "connection connection";

    let mut shared = ReusableBuffer::new();
    let english_out = collect(&english, &mut shared, input);
    let german_via_shared = collect(&german, &mut shared, input);
    let german_fresh = collect(&german, &mut ReusableBuffer::new(), input);
    assert_eq!(german_via_shared, german_fresh);
    // Sanity: the two configurations actually disagree on this input.
    assert_ne!(english_out, german_via_shared);
}

#[test]
fn options_are_valid_unless_case_sensitivity_is_in_the_way() {
    assert!(plain().valid());
    assert!(full_english().valid());
    assert!(!AnalysisOptions { case_sensitive: true, ..full_english() }.valid());
    assert!(!AnalysisOptions {
        case_sensitive: true,
        stopword_removal: None,
        ..full_english()
    }
    .valid());
    assert!(!AnalysisOptions {
        case_sensitive: true,
        stemming: None,
        ..full_english()
    }
    .valid());
    assert!(AnalysisOptions {
        case_sensitive: true,
        stopword_removal: None,
        stemming: None,
        ..full_english()
    }
    .valid());
}

#[test]
fn without_filters_words_come_out_as_they_are() {
    let analyzer = Analyzer::new(plain());
    let mut buffer = ReusableBuffer::new();
    assert_eq!(
        collect(&analyzer, &mut buffer, "The  Café, THE end!"),
        tokens(&[("The", 0), ("Café", 1), ("THE", 2), ("end", 3)])
    );
    assert_eq!(collect(&analyzer, &mut buffer, ""), tokens(&[]));
    assert_eq!(collect(&analyzer, &mut buffer, " ,!"), tokens(&[]));
}

#[test]
fn lowercasing_covers_ascii_and_other_letters() {
    let analyzer = Analyzer::new(AnalysisOptions { case_sensitive: false, ..plain() });
    let mut buffer = ReusableBuffer::new();
    assert_eq!(
        collect(&analyzer, &mut buffer, "lower UPPER MiXeD9_ ÉCOLE ДОМ x"),
        tokens(&[("lower", 0), ("upper", 1), ("mixed9_", 2), ("école", 3), ("дом", 4), ("x", 5)])
    );
}

#[test]
fn ascii_folding_lowercases_what_it_produces() {
    let folding = AnalysisOptions { ascii_folding: true, ..plain() };
    let mut buffer = ReusableBuffer::new();
    assert_eq!(
        collect(&Analyzer::new(folding), &mut buffer, "oﬃce Straße Plain"),
        tokens(&[("oFFIce", 0), ("Strasse", 1), ("Plain", 2)])
    );
    let folding = AnalysisOptions { case_sensitive: false, ..folding };
    assert_eq!(
        collect(&Analyzer::new(folding), &mut buffer, "oﬃce Straße Plain ÖЖÖ"),
        tokens(&[("office", 0), ("strasse", 1), ("plain", 2), ("oжo", 3)])
    );
}

#[test]
fn positions_run_on_from_input_to_input() {
    let analyzer = Analyzer::new(full_english());
    assert_eq!(
        collect_inputs(&analyzer, &["the cats", "", "are running", "dogs"]),
        tokens(&[("cat", 1), ("run", 3), ("dog", 4)])
    );
    assert_eq!(collect_inputs(&analyzer, &[]), tokens(&[]));
}

#[test]
fn the_callback_stops_the_analysis() {
    let analyzer = Analyzer::new(plain());
    let mut buffer = ReusableBuffer::new();
    let mut seen = Vec::new();
    let mut listener = Listener::new(|token: Token<'_>| {
        seen.push((token.text.to_string(), token.position));
        seen.len() < 2
    });
    analyzer.analyze_inputs(
        &["a b c", "d e"],
        &RunTokenizer,
        &SomeFilters,
        &mut buffer,
        &mut listener,
    );
    assert_eq!(seen, tokens(&[("a", 0), ("b", 1)]));

    let mut count = 0;
    let mut listener = Listener::new(|_: Token<'_>| {
        count += 1;
        false
    });
    analyzer.analyze("x y", &RunTokenizer, &SomeFilters, &mut buffer, &mut listener);
    assert_eq!(count, 1);
}

#[test]
fn the_buffer_keeps_its_cache_when_reset() {
    let analyzer = Analyzer::new(full_english());
    let mut buffer = ReusableBuffer::new();
    collect(&analyzer, &mut buffer, "running");
    buffer.reset_keep_stemming_cache();
    let key = CacheKey::new_from_str("running").unwrap();
    assert!(buffer.stemming_cache().lookup(&key).is_some());
    let mut copy = buffer.clone();
    assert!(copy.stemming_cache().lookup(&key).is_some());

    // The cache can be exchanged for one of another size.
    *buffer.stemming_cache() = StemmingCache::new_with_capacity(10);
    assert!(buffer.stemming_cache().lookup(&key).is_none());
    assert_eq!(collect(&analyzer, &mut buffer, "running"), tokens(&[("run", 0)]));
}

#[test]
fn stems_are_those_of_the_language() {
    assert_eq!(stemming::stem(StemmingLanguage::English, "fruitlessly"), "fruitless");
    assert_eq!(stemming::stem(StemmingLanguage::English, "connection"), "connect");
    assert_eq!(stemming::stem(StemmingLanguage::German, "häuser"), "haus");
    assert_eq!(stemming::stem(StemmingLanguage::French, "générations"), "géner");
}

#[test]
fn words_of_any_length_are_stemmed() {
    let analyzer = Analyzer::new(AnalysisOptions {
        stopword_removal: None,
        maximum_token_length: None,
        ..full_english()
    });
    let mut buffer = ReusableBuffer::new();
    // Longer than a cache key, and not in the cache the second time either.
    for _ in 0..2 {
        assert_eq!(
            collect(&analyzer, &mut buffer, "internationalizations I"),
            tokens(&[("internation", 0), ("i", 1)])
        );
    }
    assert!(CacheKey::new_from_str("internationalizations").is_none());
}

fn boundary(at: usize, is_word_like: bool) -> Breakpoint {
    Breakpoint {
        at,
        props: TokenProperties {
            is_word_like,
            is_ascii: true,
            has_ascii_uppercase: true,
        },
    }
}

#[test]
fn words_are_cut_at_the_boundaries_they_are_given() {
    let analyzer = Analyzer::new(AnalysisOptions { case_sensitive: false, ..plain() });
    let breakpoints = [boundary(0, false), boundary(2, true), boundary(3, false), boundary(5, true)];
    let mut buffer = ReusableBuffer::new();
    let mut seen = Vec::new();
    let mut listener = Listener::new(|token: Token<'_>| {
        seen.push((token.text.to_string(), token.position));
        true
    });
    let outcome = analyzer.analyze_words::<false, _, _>(
        "AB cd",
        &breakpoints,
        7,
        &SomeFilters,
        &mut buffer,
        &mut listener,
    );
    assert_eq!(outcome, (true, 2));
    assert_eq!(seen, tokens(&[("ab", 7), ("cd", 8)]));

    let outcome = analyzer.analyze_words::<false, _, _>(
        "AB cd",
        &breakpoints,
        0,
        &SomeFilters,
        &mut buffer,
        &mut Listener::new(|_: Token<'_>| false),
    );
    assert!(!outcome.0);
}

#[test]
fn filters_run_in_order() {
    let analyzer = Analyzer::new(full_english());
    let mut scratch = String::new();
    let mut cache = StemmingCache::new_with_capacity(10);
    cache.prepare(StemmingLanguage::English);
    let mut filter = |text: &str| {
        let props = TokenProperties {
            is_word_like: true,
            is_ascii: text.is_ascii(),
            has_ascii_uppercase: true,
        };
        let (kept, token_text) = analyzer.filter_token::<false, _>(
            text,
            props,
            &SomeFilters,
            String::new(),
            &mut scratch,
            &mut cache,
        );
        kept.then_some(token_text.as_str().to_string())
    };
    assert_eq!(filter("THE"), None);
    assert_eq!(filter("Running").as_deref(), Some("run"));
    assert_eq!(filter("running").as_deref(), Some("run"));
    assert_eq!(filter("Café").as_deref(), Some("cafe"));
    assert_eq!(filter(&"x".repeat(41)), None);
    assert_eq!(filter(&"x".repeat(40)).as_deref(), Some("x".repeat(40).as_str()));
}

#[test]
fn a_listener_hands_tokens_on() {
    let mut seen = Vec::new();
    let mut listener = Listener::new(|token: Token<'_>| {
        seen.push((token.text.to_string(), token.position));
        token.position < 3
    });
    assert!(listener.hear(Token { text: "a", position: 2 }));
    assert!(!listener.hear(Token { text: "b", position: 3 }));
    assert_eq!(seen, tokens(&[("a", 2), ("b", 3)]));
}

#[test]
fn lists_of_inputs_concatenate() {
    let analyzer = Analyzer::new(full_english());
    let first = ["the cats", "are running"];
    let second = ["a dog", "the birds"];
    let mut expected = collect_inputs(&analyzer, &first);
    for (text, position) in collect_inputs(&analyzer, &second) {
        expected.push((text, position + 4));
    }
    let both = ["the cats", "are running", "a dog", "the birds"];
    assert_eq!(collect_inputs(&analyzer, &both), expected);
}

#[test]
fn dropping_filters_only_drop() {
    let analyzer = Analyzer::new(AnalysisOptions {
        maximum_token_length: Some(5),
        ..full_english()
    });
    let loose = Analyzer::new(AnalysisOptions {
        maximum_token_length: None,
        stopword_removal: None,
        ..full_english()
    });
    let inputs = ["The running cats", "are extraordinary birds"];
    let whole = collect_inputs(&loose, &inputs);
    let positions: Vec<usize> = whole.iter().map(|(_, position)| *position).collect();
    assert_eq!(positions, vec![0, 1, 2, 3, 4, 5]);
    let part = collect_inputs(&analyzer, &inputs);
    assert_eq!(part, tokens(&[("cat", 2), ("bird", 5)]));
    for token in &part {
        assert_eq!(token, &whole[token.1]);
    }
}

#[test]
fn ascii_folding_spares_ascii() {
    let input = ["Some ASCII Words, only"];
    let folding = Analyzer::new(AnalysisOptions {
        case_sensitive: false,
        ascii_folding: true,
        ..plain()
    });
    let lowering = Analyzer::new(AnalysisOptions { case_sensitive: false, ..plain() });
    let expected = tokens(&[("some", 0), ("ascii", 1), ("words", 2), ("only", 3)]);
    assert_eq!(collect_inputs(&folding, &input), expected);
    assert_eq!(collect_inputs(&lowering, &input), expected);
}

#[test]
fn the_length_limit_applies_before_stemming() {
    let analyzer = Analyzer::new(AnalysisOptions {
        maximum_token_length: Some(5),
        ..full_english()
    });
    let mut buffer = ReusableBuffer::new();
    assert_eq!(collect(&analyzer, &mut buffer, "running cat"), tokens(&[("cat", 1)]));
}

#[test]
fn some_greek_words_cannot_be_stemmed() {
    for word in [
        "ισαισα",
        "ΙΣΑΊΣΕΣ",
        "ισαισαιζω",
        "ισαισαωθηκαιζω",
        "ανεύρετε",
        "Αναίρετε",
        "δβαρετε",
        "ανευρετεησετε",
        "ανευρετεισκοσιδια",
    ] {
        assert!(greek::is_hazard(word), "{word}");
        assert!(!stemming::is_stemmable(StemmingLanguage::Greek, word), "{word}");
        assert!(stemming::is_stemmable(StemmingLanguage::English, word), "{word}");
    }
    for word in [
        "",
        "ισαισ",
        "ισαισαιζωωθηκα",
        "ισαισαησετε",
        "ανευρετ",
        "αναιρέτες",
        "ανευρέτες",
        "αναιρετέος",
        "ανευρετειδια",
        "ανευρετεεωσουδεσ",
        "ανσχετε",
        "σύνδετε",
        "χωρετε",
        "καλημέρα",
        "word",
    ] {
        assert!(!greek::is_hazard(word), "{word}");
        assert!(stemming::is_stemmable(StemmingLanguage::Greek, word), "{word}");
        stemming::stem(StemmingLanguage::Greek, word);
    }
    assert_eq!(stemming::stem(StemmingLanguage::Greek, "ανσχετε"), "ανσχετετ");
    assert_eq!(stemming::stem(StemmingLanguage::Greek, "ΔΡΌΜΟΣ"), "δρομ");
}

#[test]
fn a_text_is_buffered_only_if_it_changes() {
    let is_buffered = |text: &InputRefOrBuffered<'_>| matches!(text, InputRefOrBuffered::Buffered(_));
    let fresh = |input| InputRefOrBuffered::InputRef { input, buffer_if_needed: String::new() };
    let mut scratch = String::new();

    let mut text = fresh("lower");
    text.lowercase_in_place(&SomeFilters, true, true);
    assert!(!is_buffered(&text));
    let mut text = fresh("Lower");
    text.lowercase_in_place(&SomeFilters, true, true);
    assert!(is_buffered(&text));
    assert_eq!(text.as_str(), "lower");
    let mut text = fresh("é");
    text.lowercase_in_place(&SomeFilters, false, false);
    assert!(is_buffered(&text));

    let mut text = fresh("plain");
    text.ascii_fold_in_place(&SomeFilters, &mut scratch);
    assert!(is_buffered(&text));
    assert_eq!(text.as_str(), "plain");

    let mut cache = StemmingCache::new_with_capacity(10);
    cache.prepare(StemmingLanguage::English);
    // The first time the stem is computed, the second time it comes from the cache.
    for _ in 0..2 {
        let mut text = fresh("run");
        text.stem_in_place(StemmingLanguage::English, &mut cache, &mut scratch);
        assert!(!is_buffered(&text));
        let mut text = fresh("running");
        text.stem_in_place(StemmingLanguage::English, &mut cache, &mut scratch);
        assert!(is_buffered(&text));
        assert_eq!(text.into_buffer(), "run");
    }
}

#[test]
fn the_case_of_ascii_is_ignored() {
    let analyzer = Analyzer::new(full_english());
    let expected = tokens(&[("quick", 1), ("fox", 2), ("run", 4)]);
    assert_eq!(collect_inputs(&analyzer, &["The quick Foxes", "are running"]), expected);
    assert_eq!(collect_inputs(&analyzer, &["THE QUICK FOXES", "ARE RUNNING"]), expected);
}

#[test]
fn no_token_holds_an_upper_case_ascii_letter() {
    let analyzer = Analyzer::new(AnalysisOptions {
        case_sensitive: false,
        ascii_folding: true,
        ..plain()
    });
    for (text, _) in collect_inputs(&analyzer, &["OﬃCE ÉCOLE ABC", "ДОМ İX mixedÖCase"]) {
        assert!(!text.bytes().any(|b| b.is_ascii_uppercase()), "{text}");
    }
}
