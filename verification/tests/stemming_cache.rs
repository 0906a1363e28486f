use token_analysis::analyze::stemming_cache::{
    front_slot, CacheKey, ShortToken, StemOutcome, StemmingCache, FRONT_SLOTS, MAX_STEM_LEN,
};
use token_analysis::analyze::StemmingLanguage;

fn roundtrip(key: &str, stem: &str) -> Option<String> {
    let key = CacheKey::new_from_str(key).unwrap();
    let outcome = StemOutcome::encode(&key, stem)?;
    let mut buf = [0; MAX_STEM_LEN];
    Some(outcome.reconstruct(&key, &mut buf).unwrap().to_string())
}

#[test]
fn outcome_roundtrips() {
    // Snowball stems rewrite suffixes, so they share a prefix with the input.
    for (key, stem) in [
        ("running", "run"),
        ("happy", "happi"),
        ("ties", "tie"),
        ("studies", "studi"),
        ("générations", "génér"), // non-ASCII bytes in the kept prefix
        ("a", "a"),
    ] {
        assert_eq!(
            roundtrip(key, stem).as_deref(),
            Some(stem),
            "{key} -> {stem}"
        );
    }
}

#[test]
fn oversized_diffs_are_not_cached() {
    assert_eq!(roundtrip("shorten", "completelydifferent"), None);
}

#[test]
fn front_cache_serves_same_outcomes() {
    let mut cache = StemmingCache::new_with_capacity(100);
    cache.prepare(StemmingLanguage::English);
    let key = CacheKey::new_from_str("running").unwrap();
    let outcome = StemOutcome::encode(&key, "run").unwrap();
    cache.insert(key, outcome);

    let mut buf = [0; MAX_STEM_LEN];
    // First lookup may promote from the main map; the second is served by the front.
    for _ in 0..2 {
        let got = cache.lookup(&key).unwrap().reconstruct(&key, &mut buf);
        assert_eq!(got, Some("run"));
    }

    // A language switch must clear the front as well as the main map.
    cache.prepare(StemmingLanguage::German);
    assert!(cache.lookup(&key).is_none());
}

#[test]
fn entries_stay_compact() {
    // The point of the diff encoding: a (key, outcome) pair fits in 24 bytes.
    assert_eq!(
        std::mem::size_of::<(CacheKey, StemOutcome)>(),
        24,
        "cache entry grew; check the memory math in the module docs"
    );
}

#[test]
fn keys_hold_one_to_fourteen_bytes() {
    assert!(CacheKey::new_from_str("").is_none());
    assert_eq!(CacheKey::new_from_str("a").unwrap().as_str(), "a");
    assert_eq!(
        CacheKey::new_from_str("fourteen bytes").unwrap().as_str(),
        "fourteen bytes"
    );
    assert!(CacheKey::new_from_str("fifteen bytes..").is_none());
    // Seven two-byte characters fit, eight don't.
    assert_eq!(CacheKey::new_from_str("ééééééé").unwrap().as_str(), "ééééééé");
    assert!(CacheKey::new_from_str("éééééééé").is_none());
    assert!(ShortToken::<3>::new_from_str("abcd").is_none());
}

#[test]
fn keys_are_equal_exactly_if_their_texts_are() {
    let a = CacheKey::new_from_str("token").unwrap();
    let b = CacheKey::new_from_str("token").unwrap();
    let c = CacheKey::new_from_str("tokens").unwrap();
    assert!(a == b);
    assert!(a != c);
    assert!(CacheKey::new_from_str("a").unwrap() != CacheKey::new_from_str("a\0").unwrap());
}

#[test]
fn diffs_keep_the_longest_common_prefix() {
    let key = CacheKey::new_from_str("studies").unwrap();
    match StemOutcome::encode(&key, "study").unwrap() {
        StemOutcome::Stemmed {
            keep,
            append_len,
            append,
        } => {
            assert_eq!(keep, 4);
            assert_eq!(append_len, 1);
            assert_eq!(append, [b'y', 0, 0, 0, 0, 0]);
        }
        StemOutcome::Unchanged => panic!("a diff was expected"),
    }
    // Six appended bytes still fit, seven don't.
    assert_eq!(roundtrip("studies", "stud123456").as_deref(), Some("stud123456"));
    assert_eq!(roundtrip("studies", "stud1234567"), None);
    // An empty stem keeps nothing.
    assert_eq!(roundtrip("studies", "").as_deref(), Some(""));
    // A common prefix may end inside a character.
    assert_eq!(roundtrip("é", "è").as_deref(), Some("è"));
}

#[test]
fn unchanged_outcomes_leave_the_buffer_alone() {
    let key = CacheKey::new_from_str("fox").unwrap();
    let mut buf = [7; MAX_STEM_LEN];
    assert!(StemOutcome::Unchanged.reconstruct(&key, &mut buf).is_none());
    assert_eq!(buf, [7; MAX_STEM_LEN]);

    let outcome = StemOutcome::encode(&key, "fix").unwrap();
    assert_eq!(outcome.reconstruct(&key, &mut buf), Some("fix"));
    assert_eq!(&buf[..3], b"fix");
    assert_eq!(&buf[3..], &[7; MAX_STEM_LEN - 3]);
}

#[test]
fn inserted_outcomes_are_found_again() {
    let mut cache = StemmingCache::new_with_capacity(5000);
    cache.prepare(StemmingLanguage::English);
    let mut buf = [0; MAX_STEM_LEN];
    // More keys than there are front slots, so slots are clobbered.
    for i in 0..5000 {
        let key = CacheKey::new_from_str(&format!("key{i}s")).unwrap();
        assert!(cache.lookup(&key).is_none());
        cache.insert(key, StemOutcome::encode(&key, &format!("key{i}")).unwrap());
    }
    for i in 0..5000 {
        let key = CacheKey::new_from_str(&format!("key{i}s")).unwrap();
        let outcome = *cache.lookup(&key).unwrap();
        assert_eq!(
            outcome.reconstruct(&key, &mut buf),
            Some(format!("key{i}").as_str())
        );
    }
}

#[test]
fn full_caches_accept_no_more() {
    let mut cache = StemmingCache::new_with_capacity(100);
    cache.prepare(StemmingLanguage::English);
    let first = CacheKey::new_from_str("first").unwrap();
    let second = CacheKey::new_from_str("second").unwrap();
    cache.insert_within(1, first, StemOutcome::Unchanged);
    cache.insert_within(1, second, StemOutcome::Unchanged);
    assert!(cache.lookup(&first).is_some());
    assert!(cache.lookup(&second).is_none());

    let mut none = StemmingCache::new_with_capacity(0);
    none.insert(first, StemOutcome::Unchanged);
    assert!(none.lookup(&first).is_none());
}

#[test]
fn the_main_map_never_grows() {
    let mut cache = StemmingCache::new_with_capacity(3);
    cache.prepare(StemmingLanguage::English);
    let capacity = cache.capacity();
    let keys: Vec<CacheKey> = (0..1000)
        .map(|i| CacheKey::new_from_str(&format!("key{i}")).unwrap())
        .collect();
    for key in &keys {
        cache.insert(*key, StemOutcome::Unchanged);
    }
    let found = keys.iter().filter(|key| cache.lookup(key).is_some()).count();
    assert!(capacity >= 3);
    assert_eq!(found, capacity);
    assert_eq!(cache.capacity(), capacity);
    // What was accepted first is still there.
    assert!(cache.lookup(&keys[0]).is_some());
}

#[test]
fn preparing_for_the_same_language_keeps_the_cache() {
    let mut cache = StemmingCache::new_with_capacity(100);
    cache.prepare(StemmingLanguage::English);
    let key = CacheKey::new_from_str("fox").unwrap();
    cache.insert(key, StemOutcome::Unchanged);
    cache.prepare(StemmingLanguage::English);
    assert!(matches!(cache.lookup(&key), Some(StemOutcome::Unchanged)));
}

#[test]
fn clones_hold_the_same_outcomes() {
    let mut cache = StemmingCache::new_with_capacity(100);
    cache.prepare(StemmingLanguage::English);
    let key = CacheKey::new_from_str("fox").unwrap();
    cache.insert(key, StemOutcome::Unchanged);
    let mut copy = cache.clone();
    cache.prepare(StemmingLanguage::German);
    assert!(copy.lookup(&key).is_some());
    assert!(cache.lookup(&key).is_none());
}

#[test]
fn the_low_bits_of_a_hash_select_the_slot() {
    assert_eq!(front_slot(0), 0);
    assert_eq!(front_slot(2047), 2047);
    assert_eq!(front_slot(2048), 0);
    assert_eq!(front_slot(0xDEAD_BEEF_0000_0803), 3);
    assert_eq!(front_slot(u64::MAX), FRONT_SLOTS - 1);
}
