//! A small cache of stemmed tokens, so that common tokens are not stemmed again and again.
//!
//! Keys are (lowercased) tokens of up to [`MAX_KEY_LEN`] bytes. Stems are stored as a diff
//! against the key, `key[..keep] ++ append`, since Snowball stemmers rewrite suffixes; this
//! keeps a (key, outcome) entry at 24 bytes. Tokens or stems that don't fit are not cached.

use vstd::prelude::*;
use vstd::string::StringSliceAdditionalSpecFns;

use crate::analyze::entry_map;
use crate::analyze::entry_map::{EntryMap, MAX_ENTRIES};
use crate::analyze::stemming;
use crate::analyze::StemmingLanguage;

verus! {

/// Tokens longer than this are not cached.
pub const MAX_KEY_LEN: usize = 14;

/// Stems that add more than this to the kept prefix of their key are not cached.
pub const MAX_APPEND_LEN: usize = 6;

/// Reconstructed stems are at most the kept key prefix plus the append suffix.
pub const MAX_STEM_LEN: usize = MAX_KEY_LEN + MAX_APPEND_LEN;

/// The key of a cached token.
pub type CacheKey = ShortToken<MAX_KEY_LEN>;

/// Non-empty, short token with a maximum size (N).
/// Avoids heap allocations and minimizes memory footprint.
#[derive(Debug, Hash, Eq, Clone, Copy)]
pub struct ShortToken<const N: usize> {
    valid_length: u8,
    buffer: [u8; N],
}

impl<const N: usize> View for ShortToken<N> {
    type V = Seq<u8>;

    /// The UTF-8 bytes of the token.
    closed spec fn view(&self) -> Seq<u8> {
        self.buffer@.take(self.valid_length as int)
    }
}

impl<const N: usize> vstd::std_specs::cmp::PartialEqSpecImpl for ShortToken<N> {
    open spec fn obeys_eq_spec() -> bool {
        true
    }

    open spec fn eq_spec(&self, other: &Self) -> bool {
        *self == *other
    }
}

impl<const N: usize> PartialEq for ShortToken<N> {
    fn eq(&self, other: &Self) -> (same: bool) {
        if self.valid_length != other.valid_length {
            return false;
        }
        let mut i: usize = 0;
        while i < N
            invariant
                i <= N,
                forall|j: int| 0 <= j < i ==> self.buffer@[j] == other.buffer@[j],
            decreases N - i,
        {
            if self.buffer[i] != other.buffer[i] {
                return false;
            }
            i += 1;
        }
        assert(self.buffer =~= other.buffer);
        true
    }
}

impl<const N: usize> ShortToken<N> {
    /// Whether this is a token: one to `N` bytes of valid UTF-8, padded with zeros.
    pub closed spec fn wf(&self) -> bool {
        &&& 1 <= self.valid_length <= N
        &&& vstd::utf8::valid_utf8(self@)
        &&& forall|i: int| self.valid_length <= i < N ==> #[trigger] self.buffer@[i] == 0
    }

    /// A token has one to `N` bytes.
    pub proof fn lemma_len(self)
        requires
            self.wf(),
        ensures
            1 <= self@.len() <= N,
    {
    }

    /// The token with the text of `s`, or `None` if `s` is empty or longer than `N` bytes.
    pub fn new_from_str(s: &str) -> (token: Option<Self>)
        requires
            N <= 255,
        ensures
            token is Some <==> 1 <= s.spec_bytes().len() <= N,
            token matches Some(t) ==> t.wf() && t@ == s.spec_bytes(),
    {
        let bytes = s.as_bytes();
        if bytes.is_empty() || bytes.len() > N {
            return None;
        }
        let mut buffer: [u8; N] = [0;N];
        let mut i: usize = 0;
        while i < bytes.len()
            invariant
                i <= bytes.len() <= N,
                forall|j: int| 0 <= j < i ==> buffer@[j] == bytes@[j],
                forall|j: int| i <= j < N ==> buffer@[j] == 0,
            decreases bytes.len() - i,
        {
            buffer[i] = bytes[i];
            i += 1;
        }
        let token = Self { valid_length: bytes.len() as u8, buffer };
        proof {
            assert(token@ =~= s.spec_bytes());
            vstd::utf8::encode_utf8_valid_utf8(s@);
        }
        Some(token)
    }

    /// The text of the token.
    pub fn as_str(&self) -> (s: &str)
        requires
            self.wf(),
        ensures
            s.spec_bytes() == self@,
    {
        let bytes = &self.buffer[0..self.valid_length as usize];
        assert(bytes@ =~= self@);
        match core::str::from_utf8(bytes) {
            Ok(s) => s,
            Err(_) => {
                assert(false);
                ""
            },
        }
    }
}

/// A token is determined by its text: equal texts make equal keys.
pub proof fn law_key_is_its_text<const N: usize>(a: ShortToken<N>, b: ShortToken<N>)
    requires
        a.wf(),
        b.wf(),
    ensures
        a@ == b@ <==> a == b,
{
    if a@ == b@ {
        assert(a@.len() == a.valid_length);
        assert(b@.len() == b.valid_length);
        assert forall|i: int| 0 <= i < N implies a.buffer@[i] == b.buffer@[i] by {
            if i < a.valid_length {
                assert(a@[i] == b@[i]);
            }
        }
        assert(a.buffer =~= b.buffer);
    }
}

/// The length of the longest common prefix of `a` and `b`.
pub open spec fn common_prefix_len(a: Seq<u8>, b: Seq<u8>) -> nat
    decreases a.len(),
{
    if a.len() == 0 || b.len() == 0 || a[0] != b[0] {
        0
    } else {
        1 + common_prefix_len(a.drop_first(), b.drop_first())
    }
}

proof fn lemma_common_prefix_len(a: Seq<u8>, b: Seq<u8>, n: nat)
    requires
        n <= a.len(),
        n <= b.len(),
        forall|i: int| 0 <= i < n ==> a[i] == b[i],
        n == a.len() || n == b.len() || a[n as int] != b[n as int],
    ensures
        common_prefix_len(a, b) == n,
    decreases n,
{
    if n > 0 {
        assert(a[0] == b[0]);
        lemma_common_prefix_len(a.drop_first(), b.drop_first(), (n - 1) as nat);
    }
}

proof fn lemma_common_prefix(a: Seq<u8>, b: Seq<u8>)
    ensures
        common_prefix_len(a, b) <= a.len(),
        common_prefix_len(a, b) <= b.len(),
        forall|i: int| 0 <= i < common_prefix_len(a, b) ==> a[i] == b[i],
    decreases a.len(),
{
    if !(a.len() == 0 || b.len() == 0 || a[0] != b[0]) {
        lemma_common_prefix(a.drop_first(), b.drop_first());
        assert forall|i: int| 0 <= i < common_prefix_len(a, b) implies a[i] == b[i] by {
            if i > 0 {
                assert(a.drop_first()[i - 1] == b.drop_first()[i - 1]);
            }
        }
    }
}

/// The longest common prefix is one, and no longer one is: it is at least as long as any prefix
/// that the two have in common.
pub proof fn law_common_prefix_is_longest(a: Seq<u8>, b: Seq<u8>, n: int)
    requires
        0 <= n <= a.len(),
        n <= b.len(),
        a.take(n) == b.take(n),
    ensures
        n <= common_prefix_len(a, b),
        common_prefix_len(a, b) <= a.len(),
        common_prefix_len(a, b) <= b.len(),
        a.take(common_prefix_len(a, b) as int) == b.take(common_prefix_len(a, b) as int),
{
    lemma_common_prefix(a, b);
    let m = common_prefix_len(a, b) as int;
    assert(a.take(m) =~= b.take(m));
    if m < n {
        lemma_common_prefix_ends(a, b);
        assert(a[m] == a.take(n)[m] && b[m] == b.take(n)[m]);
    }
}

proof fn lemma_common_prefix_ends(a: Seq<u8>, b: Seq<u8>)
    ensures
        ({
            let m = common_prefix_len(a, b) as int;
            m < a.len() && m < b.len() ==> a[m] != b[m]
        }),
    decreases a.len(),
{
    if !(a.len() == 0 || b.len() == 0 || a[0] != b[0]) {
        lemma_common_prefix_ends(a.drop_first(), b.drop_first());
    }
}

/// A stem is recorded exactly if it is the key itself or, after some part that it shares with the
/// key, goes on for at most six bytes. What is recorded keeps as much of the key as it can.
pub proof fn law_short_diffs_are_recorded(key: Seq<u8>, stem: Seq<u8>, outcome: StemOutcome, n: int)
    requires
        0 <= n <= key.len(),
        n <= stem.len(),
        key.take(n) == stem.take(n),
    ensures
        stem.len() - n <= 6 ==> can_record(key, stem),
        can_record(key, stem) && stem != key ==> exists|m: int|
            0 <= m <= key.len() && m <= stem.len() && stem.len() - m <= 6 && #[trigger] key.take(m)
                == stem.take(m),
        outcome.is_diff(key, stem) ==> n <= outcome->keep && stem == key.take(outcome->keep as int)
            + outcome->append@.take(outcome->append_len as int),
{
    law_common_prefix_is_longest(key, stem, n);
    let m = common_prefix_len(key, stem) as int;
    assert(key.take(m) == stem.take(m));
    if outcome.is_diff(key, stem) {
        law_diff_is_undone(key, stem, outcome);
    }
}

/// Whether there is an outcome for a token `key` that stems to `stem`.
pub open spec fn can_record(key: Seq<u8>, stem: Seq<u8>) -> bool {
    stem == key || stem.len() - common_prefix_len(key, stem) <= MAX_APPEND_LEN
}

/// The result of stemming one token, encoded relative to its cache key.
#[derive(Debug, Clone, Copy)]
pub enum StemOutcome {
    /// The token stems to itself.
    Unchanged,
    /// The stem is `key[..keep] ++ append[..append_len]`.
    Stemmed { keep: u8, append_len: u8, append: [u8; MAX_APPEND_LEN] },
}

impl StemOutcome {
    /// The bytes of the stem that this outcome stands for, for the token `key`.
    pub open spec fn stem_of(self, key: Seq<u8>) -> Seq<u8> {
        match self {
            StemOutcome::Unchanged => key,
            StemOutcome::Stemmed { keep, append_len, append } => key.take(keep as int)
                + append@.take(append_len as int),
        }
    }

    /// Whether this outcome can be applied to the token `key` and yields text.
    pub open spec fn fits(self, key: Seq<u8>) -> bool {
        self matches StemOutcome::Stemmed { keep, append_len, .. } ==> {
            &&& keep <= key.len()
            &&& append_len <= MAX_APPEND_LEN
            &&& vstd::utf8::valid_utf8(self.stem_of(key))
        }
    }

    /// The diff of `stem` against `key`: what it keeps is their longest common prefix, and the
    /// unused part of the append buffer is zero.
    pub open spec fn is_diff(self, key: Seq<u8>, stem: Seq<u8>) -> bool {
        self matches StemOutcome::Stemmed { keep, append_len, append } && {
            &&& keep == common_prefix_len(key, stem)
            &&& append_len == stem.len() - keep
            &&& append_len <= MAX_APPEND_LEN
            &&& append@.take(append_len as int) == stem.skip(keep as int)
            &&& forall|i: int| append_len <= i < MAX_APPEND_LEN ==> append@[i] == 0
        }
    }

    /// Whether this is the outcome that is cached for a token `key` that stems to `stem`.
    pub open spec fn records(self, key: Seq<u8>, stem: Seq<u8>) -> bool {
        if stem == key {
            self is Unchanged
        } else {
            self.is_diff(key, stem)
        }
    }

    /// Encodes `stem` as a diff against `key`, or `None` if it doesn't fit (the token then
    /// just isn't cached).
    pub fn encode(key: &CacheKey, stem: &str) -> (outcome: Option<Self>)
        requires
            key.wf(),
        ensures
            outcome is Some <==> stem.spec_bytes().len() - common_prefix_len(
                key@,
                stem.spec_bytes(),
            ) <= MAX_APPEND_LEN,
            outcome matches Some(o) ==> {
                &&& o.is_diff(key@, stem.spec_bytes())
                &&& o.stem_of(key@) == stem.spec_bytes()
                &&& o.fits(key@)
            },
    {
        let key_bytes = key.as_str().as_bytes();
        let stem_bytes = stem.as_bytes();
        let mut keep: usize = 0;
        while keep < key_bytes.len() && keep < stem_bytes.len() && key_bytes[keep]
            == stem_bytes[keep]
            invariant
                keep <= key_bytes.len(),
                keep <= stem_bytes.len(),
                forall|i: int| 0 <= i < keep ==> key_bytes@[i] == stem_bytes@[i],
            decreases key_bytes.len() - keep,
        {
            keep += 1;
        }
        proof {
            lemma_common_prefix_len(key@, stem.spec_bytes(), keep as nat);
            key.lemma_len();
        }
        let tail_len: usize = stem_bytes.len() - keep;
        if tail_len > MAX_APPEND_LEN {
            return None;
        }
        let mut append: [u8; MAX_APPEND_LEN] = [0;MAX_APPEND_LEN];
        let mut i: usize = 0;
        while i < tail_len
            invariant
                i <= tail_len <= MAX_APPEND_LEN,
                tail_len + keep == stem_bytes.len(),
                forall|j: int| 0 <= j < i ==> append@[j] == stem_bytes@[keep + j],
                forall|j: int| i <= j < MAX_APPEND_LEN ==> append@[j] == 0,
            decreases tail_len - i,
        {
            append[i] = stem_bytes[keep + i];
            i += 1;
        }
        let outcome = Self::Stemmed { keep: keep as u8, append_len: tail_len as u8, append };
        proof {
            assert(append@.take(tail_len as int) =~= stem_bytes@.skip(keep as int));
            assert(outcome.stem_of(key@) =~= stem.spec_bytes());
            vstd::utf8::encode_utf8_valid_utf8(stem@);
        }
        Some(outcome)
    }

    /// Reconstructs the stem into `buf`; `None` means the token stems to itself.
    pub fn reconstruct<'b>(&self, key: &CacheKey, buf: &'b mut [u8; MAX_STEM_LEN]) -> (stem: Option<
        &'b str,
    >)
        requires
            key.wf(),
            self.fits(key@),
        ensures
            stem is None <==> self is Unchanged,
            stem matches Some(s) ==> s.spec_bytes() == self.stem_of(key@),
            final(buf)@ == (match self {
                StemOutcome::Unchanged => old(buf)@,
                StemOutcome::Stemmed { .. } => self.stem_of(key@) + old(buf)@.skip(
                    self.stem_of(key@).len() as int,
                ),
            }),
    {
        match self {
            Self::Unchanged => None,
            Self::Stemmed { keep, append_len, append } => {
                let keep: usize = *keep as usize;
                let append_len: usize = *append_len as usize;
                let key_bytes = key.as_str().as_bytes();
                proof {
                    key.lemma_len();
                }
                let ghost before = buf@;
                let mut i: usize = 0;
                while i < keep
                    invariant
                        i <= keep <= key_bytes.len() <= MAX_KEY_LEN,
                        before.len() == MAX_STEM_LEN,
                        buf@ =~= key_bytes@.take(i as int) + before.skip(i as int),
                    decreases keep - i,
                {
                    buf[i] = key_bytes[i];
                    i += 1;
                }
                let mut j: usize = 0;
                while j < append_len
                    invariant
                        j <= append_len <= MAX_APPEND_LEN,
                        keep <= key_bytes.len() <= MAX_KEY_LEN,
                        before.len() == MAX_STEM_LEN,
                        buf@ =~= key_bytes@.take(keep as int) + append@.take(j as int)
                            + before.skip(keep + j),
                    decreases append_len - j,
                {
                    buf[keep + j] = append[j];
                    j += 1;
                }
                let bytes = &buf[0..keep + append_len];
                assert(bytes@ =~= self.stem_of(key@));
                match core::str::from_utf8(bytes) {
                    Ok(s) => Some(s),
                    Err(_) => {
                        assert(false);
                        None
                    },
                }
            },
        }
    }
}

/// The number of slots of the front cache: 2048 entries of 24 bytes are 48 KiB.
pub const FRONT_SLOTS: usize = 2048;

/// A cache of stemming outcomes for one language.
///
/// The cache fills to capacity and then stops accepting entries (no eviction). Stems are only
/// valid for one language, so `prepare` clears the cache whenever a differently-configured
/// analyzer uses the same buffer.
#[derive(Debug)]
pub struct StemmingCache {
    cache: EntryMap,
    /// Small direct-mapped cache in front of `cache`, for the tokens that occur most. Slots are
    /// clobbered on promotion, so hot tokens win them back immediately.
    front: Vec<(CacheKey, StemOutcome)>,
    language: Option<StemmingLanguage>,
}

/// What an unused front slot holds. Never equal to a real key (keys are non-empty), so vacant
/// slots can't match.
fn vacant() -> (slot: (CacheKey, StemOutcome))
    ensures
        slot.0.valid_length == 0,
{
    (ShortToken { valid_length: 0, buffer: [0;MAX_KEY_LEN] }, StemOutcome::Unchanged)
}

/// The front slot that a hash selects: its low bits.
pub fn front_slot(hash: u64) -> (slot: usize)
    ensures
        slot == hash as int % FRONT_SLOTS as int,
{
    let low: usize = hash as usize;
    assert(low & 2047usize == hash % 2048u64) by (bit_vector)
        requires
            low == hash as usize,
    ;
    low & (FRONT_SLOTS - 1)
}

impl CacheKey {
    closed spec fn packed_spec(self) -> (u8, [u8; MAX_KEY_LEN]) {
        (self.valid_length, self.buffer)
    }

    fn packed(&self) -> (packed: (u8, [u8; MAX_KEY_LEN]))
        ensures
            packed == self.packed_spec(),
    {
        (self.valid_length, self.buffer)
    }
}

impl StemmingCache {
    /// The outcome that the cache holds for `key`, if it holds one.
    pub closed spec fn cached(&self, key: CacheKey) -> Option<StemOutcome> {
        let entries = entry_map::entries(self.cache);
        if entries.contains_key(key.packed_spec()) {
            Some(entries[key.packed_spec()])
        } else {
            None
        }
    }

    /// The number of outcomes that the cache holds.
    pub closed spec fn len(&self) -> nat {
        entry_map::entries(self.cache).len()
    }

    /// The number of outcomes that the cache was made for.
    pub closed spec fn made_for(&self) -> nat {
        entry_map::made_for(self.cache)
    }

    /// Whether the main map says that it can hold `capacity` outcomes without growing. How many
    /// those are beyond the number that it was made for is up to the allocator.
    pub closed spec fn has_capacity(&self, capacity: usize) -> bool {
        entry_map::has_capacity(self.cache, capacity)
    }

    /// The language whose stems the cache holds; `None` before it was ever prepared for one.
    pub closed spec fn language(&self) -> Option<StemmingLanguage> {
        self.language
    }

    /// The invariant: every front slot is vacant or repeats an entry of the main map, and every
    /// outcome can be applied to its key.
    pub closed spec fn wf(&self) -> bool {
        &&& self.front@.len() == FRONT_SLOTS
        &&& entry_map::entries(self.cache).dom().finite()
        &&& forall|i: int|
            0 <= i < FRONT_SLOTS ==> {
                ||| (#[trigger] self.front@[i]).0.valid_length == 0
                ||| self.cached(self.front@[i].0) == Some(self.front@[i].1)
            }
        &&& forall|key: CacheKey|
            key.wf() ==> (#[trigger] self.cached(key) matches Some(outcome) ==> outcome.fits(key@))
    }

    /// Whether `other` holds the same outcomes, for the same language and with the same room.
    pub open spec fn same_as(&self, other: &Self) -> bool {
        &&& forall|key: CacheKey| #[trigger] self.cached(key) == other.cached(key)
        &&& self.len() == other.len()
        &&& self.made_for() == other.made_for()
        &&& self.language() == other.language()
    }

    /// Whether this holds everything that `before` holds, for the same language and with the
    /// same room.
    pub open spec fn keeps(&self, before: &Self) -> bool {
        &&& before.len() <= self.len()
        &&& forall|key: CacheKey|
            (#[trigger] before.cached(key)) is Some ==> self.cached(key) == before.cached(key)
        &&& self.made_for() == before.made_for()
        &&& self.language() == before.language()
    }

    /// Whether this is `before` with `outcome` added under `key`.
    pub open spec fn adds(&self, before: &Self, key: CacheKey, outcome: StemOutcome) -> bool {
        &&& forall|k: CacheKey|
            #[trigger] self.cached(k) == (if k == key {
                Some(outcome)
            } else {
                before.cached(k)
            })
        &&& self.len() == before.len() + 1
        &&& self.made_for() == before.made_for()
        &&& self.language() == before.language()
    }

    /// Whether this is `before` readied for `language`: unchanged if that was its language
    /// already, and empty otherwise.
    pub open spec fn is_readied(&self, before: &Self, language: StemmingLanguage) -> bool {
        &&& self.language() == Some(language)
        &&& self.made_for() == before.made_for()
        &&& before.language() == Some(language) ==> self.same_as(before)
        &&& before.language() != Some(language) ==> {
            &&& self.len() == 0
            &&& forall|key: CacheKey| #[trigger] self.cached(key) is None
        }
    }

    /// Whether every outcome that the cache holds is the stem of its key in `language`, and
    /// `Unchanged` exactly where the key is its own stem.
    pub open spec fn sound_for(&self, language: StemmingLanguage) -> bool {
        forall|key: CacheKey|
            key.wf() ==> (#[trigger] self.cached(key) matches Some(outcome) ==> {
                let stem = vstd::utf8::encode_utf8(
                    stemming::stem_of(language, vstd::utf8::decode_utf8(key@)),
                );
                &&& outcome.stem_of(key@) == stem
                &&& outcome is Unchanged <==> stem == key@
            })
    }

    /// Whether this is `before` after it was told that `text` stems to `stem`: at most the
    /// outcome for `text` is new, and it is there if it can be encoded and there was room.
    pub open spec fn learns(&self, before: &Self, text: Seq<char>, stem: Seq<char>) -> bool {
        let text_bytes = vstd::utf8::encode_utf8(text);
        let stem_bytes = vstd::utf8::encode_utf8(stem);
        &&& self.same_as(before) || exists|key: CacheKey, outcome: StemOutcome|
            #![trigger self.adds(before, key, outcome)]
            {
                &&& key.wf()
                &&& key@ == text_bytes
                &&& before.cached(key) is None
                &&& outcome.records(text_bytes, stem_bytes)
                &&& self.adds(before, key, outcome)
            }
        &&& forall|key: CacheKey|
            key.wf() && key@ == text_bytes && #[trigger] before.cached(key) is None && before.len()
                < before.made_for() && can_record(text_bytes, stem_bytes) ==> self.cached(
                key,
            ) is Some
    }

    /// Whether this is `before` after the stems of all of `texts` in `language` were asked for:
    /// what is new are outcomes for these texts, and each of them that can be encoded is there
    /// if there is still room.
    pub open spec fn learned(
        &self,
        before: &Self,
        texts: Seq<Seq<char>>,
        language: StemmingLanguage,
    ) -> bool {
        &&& self.keeps(before)
        &&& forall|key: CacheKey| #[trigger]
            self.cached(key) is Some && before.cached(key) is None ==> {
                let text = vstd::utf8::decode_utf8(key@);
                &&& key.wf()
                &&& texts.contains(text)
                &&& self.cached(key)->0.records(
                    key@,
                    vstd::utf8::encode_utf8(stemming::stem_of(language, text)),
                )
            }
        &&& forall|key: CacheKey, i: int|
            #![trigger self.cached(key), texts[i]]
            {
                &&& self.len() < self.made_for()
                &&& key.wf()
                &&& 0 <= i < texts.len()
                &&& key@ == vstd::utf8::encode_utf8(texts[i])
                &&& can_record(key@, vstd::utf8::encode_utf8(stemming::stem_of(language, texts[i])))
            } ==> self.cached(key) is Some
    }

    /// An empty cache for `capacity` outcomes.
    pub fn new_with_capacity(capacity: usize) -> (cache: Self)
        requires
            capacity <= MAX_ENTRIES,
        ensures
            cache.wf(),
            cache.len() == 0,
            cache.made_for() == capacity,
            cache.language() is None,
            forall|key: CacheKey| #[trigger] cache.cached(key) is None,
    {
        let map = entry_map::with_capacity(capacity);
        let mut front: Vec<(CacheKey, StemOutcome)> = Vec::with_capacity(FRONT_SLOTS);
        while front.len() < FRONT_SLOTS
            invariant
                front@.len() <= FRONT_SLOTS,
                forall|i: int|
                    0 <= i < front@.len() ==> (#[trigger] front@[i]).0.valid_length == 0,
            decreases FRONT_SLOTS - front@.len(),
        {
            front.push(vacant());
        }
        Self { cache: map, front, language: None }
    }

    /// Readies the cache for stemming in `language`, clearing it if the previous user
    /// stemmed a different language (cached stems are language-specific).
    pub fn prepare(&mut self, language: StemmingLanguage)
        requires
            old(self).wf(),
        ensures
            final(self).wf(),
            final(self).is_readied(old(self), language),
    {
        let ready = match self.language {
            Some(current) => current == language,
            None => false,
        };
        if !ready {
            entry_map::clear(&mut self.cache);
            let mut i: usize = 0;
            while i < FRONT_SLOTS
                invariant
                    i <= FRONT_SLOTS,
                    self.front@.len() == FRONT_SLOTS,
                    entry_map::entries(self.cache).dom() == Set::<entry_map::PackedKey>::empty(),
                    entry_map::made_for(self.cache) == entry_map::made_for(old(self).cache),
                    forall|j: int|
                        0 <= j < i ==> (#[trigger] self.front@[j]).0.valid_length == 0,
                decreases FRONT_SLOTS - i,
            {
                self.front[i] = vacant();
                i += 1;
            }
            self.language = Some(language);
        }
    }

    /// The outcome that is cached for `key`, if there is one. What was found in the main map is
    /// promoted to the front.
    pub fn lookup(&mut self, key: &CacheKey) -> (outcome: Option<&StemOutcome>)
        requires
            old(self).wf(),
            key.wf(),
        ensures
            final(self).wf(),
            final(self).same_as(old(self)),
            outcome is Some <==> old(self).cached(*key) is Some,
            outcome matches Some(o) ==> old(self).cached(*key) == Some(*o) && o.fits(key@),
    {
        let slot = self.slot(key);
        if self.front[slot].0 != *key {
            match entry_map::get(&self.cache, &key.packed()) {
                None => {
                    return None;
                },
                Some(outcome) => {
                    self.front[slot] = (*key, outcome);
                },
            }
        }
        proof {
            assert forall|k: CacheKey| #[trigger] self.cached(k) == old(self).cached(k) by {}
            assert(self.cached(*key) == Some(self.front@[slot as int].1));
            assert(self.wf());
        }
        Some(&self.front[slot].1)
    }

    /// The front slot of `key`: the one that its hash selects. The hasher of the main map has a
    /// random seed, so which slot that is differs from cache to cache and is left open; lookups
    /// and insertions are right for any slot.
    fn slot(&self, key: &CacheKey) -> (slot: usize)
        ensures
            slot < FRONT_SLOTS,
    {
        front_slot(entry_map::hash_one(&self.cache, &key.packed()))
    }

    /// The number of outcomes that the main map can hold without growing.
    pub fn capacity(&self) -> (capacity: usize)
        ensures
            self.has_capacity(capacity),
            capacity >= self.made_for(),
    {
        let capacity = entry_map::capacity(&self.cache);
        assert(entry_map::has_capacity(self.cache, capacity));
        capacity
    }

    /// Inserts an outcome if there is spare capacity; the main map never evicts or grows.
    pub fn insert(&mut self, key: CacheKey, outcome: StemOutcome)
        requires
            old(self).wf(),
            key.wf(),
            outcome.fits(key@),
            old(self).cached(key) is None,
        ensures
            final(self).wf(),
            exists|capacity: usize| #[trigger]
                old(self).has_capacity(capacity) && (if old(self).len() < capacity {
                    final(self).adds(old(self), key, outcome)
                } else {
                    final(self).same_as(old(self))
                }),
            old(self).len() < old(self).made_for() ==> final(self).adds(old(self), key, outcome),
    {
        let capacity = self.capacity();
        self.insert_within(capacity, key, outcome);
    }

    /// Inserts an outcome unless there are `capacity` of them already.
    pub fn insert_within(&mut self, capacity: usize, key: CacheKey, outcome: StemOutcome)
        requires
            old(self).wf(),
            exists|limit: usize| #[trigger] old(self).has_capacity(limit) && capacity <= limit,
            key.wf(),
            outcome.fits(key@),
            old(self).cached(key) is None,
        ensures
            final(self).wf(),
            old(self).len() < capacity ==> final(self).adds(old(self), key, outcome),
            old(self).len() >= capacity ==> final(self).same_as(old(self)),
    {
        proof {
            let limit = choose|limit: usize| #[trigger]
                self.has_capacity(limit) && capacity <= limit;
            assert(entry_map::has_capacity(self.cache, limit));
        }
        if entry_map::len(&self.cache) < capacity {
            entry_map::insert(&mut self.cache, key.packed(), outcome);
            // Fresh stems are usually about to repeat (topical words), so front them too.
            let slot = self.slot(&key);
            self.front[slot] = (key, outcome);
            proof {
                assert forall|k: CacheKey|
                    #[trigger] self.cached(k) == (if k == key {
                        Some(outcome)
                    } else {
                        old(self).cached(k)
                    }) by {
                    assert(k.packed_spec() == key.packed_spec() <==> k == key);
                }
                assert forall|i: int| 0 <= i < FRONT_SLOTS implies {
                    ||| (#[trigger] self.front@[i]).0.valid_length == 0
                    ||| self.cached(self.front@[i].0) == Some(self.front@[i].1)
                } by {
                    if i != slot {
                        assert(self.front@[i] == old(self).front@[i]);
                    }
                }
            }
        }
    }
}

impl Clone for StemmingCache {
    /// A cache with the same outcomes. Nothing is promised of the room that it has for more.
    fn clone(&self) -> (copy: Self)
        ensures
            self.wf() ==> copy.wf(),
            forall|key: CacheKey| #[trigger] copy.cached(key) == self.cached(key),
            copy.len() == self.len(),
            copy.made_for() == 0,
            copy.language() == self.language(),
    {
        let mut front: Vec<(CacheKey, StemOutcome)> = Vec::with_capacity(self.front.len());
        let mut i: usize = 0;
        while i < self.front.len()
            invariant
                i <= self.front@.len(),
                front@ =~= self.front@.take(i as int),
            decreases self.front@.len() - i,
        {
            front.push(self.front[i]);
            i += 1;
        }
        let copy = Self {
            cache: entry_map::duplicate(&self.cache),
            front,
            language: self.language,
        };
        proof {
            assert(copy.front@ =~= self.front@);
            assert forall|key: CacheKey| #[trigger] copy.cached(key) == self.cached(key) by {}
            if self.wf() {
                assert forall|j: int| 0 <= j < FRONT_SLOTS implies {
                    ||| (#[trigger] copy.front@[j]).0.valid_length == 0
                    ||| copy.cached(copy.front@[j].0) == Some(copy.front@[j].1)
                } by {
                    assert(copy.front@[j] == self.front@[j]);
                }
            }
        }
        copy
    }
}

/// What is encoded is reconstructed: the diff of a stem against a key, applied to the key,
/// gives the stem.
pub proof fn law_diff_is_undone(key: Seq<u8>, stem: Seq<u8>, outcome: StemOutcome)
    requires
        outcome.is_diff(key, stem),
    ensures
        outcome.stem_of(key) == stem,
        vstd::utf8::valid_utf8(stem) ==> outcome.fits(key),
{
    lemma_common_prefix(key, stem);
    let keep = common_prefix_len(key, stem) as int;
    assert(key.take(keep) =~= stem.take(keep));
    assert(outcome.stem_of(key) =~= stem);
}

/// The outcome that is recorded for a token gives its stem back.
pub proof fn law_recorded_stem_is_given_back(key: Seq<u8>, stem: Seq<u8>, outcome: StemOutcome)
    requires
        outcome.records(key, stem),
    ensures
        outcome.stem_of(key) == stem,
{
    if stem != key {
        law_diff_is_undone(key, stem, outcome);
    }
}

/// Asking for the stems of two lists of texts one after the other is asking for those of both.
pub proof fn law_learning_accumulates(
    first: StemmingCache,
    second: StemmingCache,
    third: StemmingCache,
    early: Seq<Seq<char>>,
    late: Seq<Seq<char>>,
    language: StemmingLanguage,
)
    requires
        second.learned(&first, early, language),
        third.learned(&second, late, language),
    ensures
        third.learned(&first, early + late, language),
{
    let texts = early + late;
    assert forall|key: CacheKey| (#[trigger] first.cached(key)) is Some implies third.cached(key)
        == first.cached(key) by {
        assert(second.cached(key) == first.cached(key));
    }
    assert forall|key: CacheKey| #[trigger]
        third.cached(key) is Some && first.cached(key) is None implies key.wf() && texts.contains(
        vstd::utf8::decode_utf8(key@),
    ) && third.cached(key)->0.records(
        key@,
        vstd::utf8::encode_utf8(stemming::stem_of(language, vstd::utf8::decode_utf8(key@))),
    ) by {
        let text = vstd::utf8::decode_utf8(key@);
        if second.cached(key) is Some {
            let i = choose|i: int| 0 <= i < early.len() && early[i] == text;
            assert(texts[i] == text);
        } else {
            let i = choose|i: int| 0 <= i < late.len() && late[i] == text;
            assert(texts[early.len() + i] == text);
        }
    }
    assert forall|key: CacheKey, i: int|
        #![trigger third.cached(key), texts[i]]
        {
            &&& third.len() < third.made_for()
            &&& key.wf()
            &&& 0 <= i < texts.len()
            &&& key@ == vstd::utf8::encode_utf8(texts[i])
            &&& can_record(key@, vstd::utf8::encode_utf8(stemming::stem_of(language, texts[i])))
        } implies third.cached(key) is Some by {
        if i < early.len() {
            assert(texts[i] == early[i]);
            assert(second.cached(key) is Some);
        } else {
            assert(texts[i] == late[i - early.len()]);
        }
    }
}

/// A cache that is told the stem of one text has learned that text and no other.
pub(crate) proof fn lemma_learns_one(
    before: StemmingCache,
    after: StemmingCache,
    text: Seq<char>,
    language: StemmingLanguage,
)
    requires
        after.learns(&before, text, stemming::stem_of(language, text)),
    ensures
        after.learned(&before, seq![text], language),
{
    let texts = seq![text];
    assert(texts[0] == text);
    vstd::utf8::encode_utf8_decode_utf8(text);
    if !after.same_as(&before) {
        let (key, outcome) = choose|key: CacheKey, outcome: StemOutcome|
            #![trigger after.adds(&before, key, outcome)]
            {
                &&& key.wf()
                &&& key@ == vstd::utf8::encode_utf8(text)
                &&& before.cached(key) is None
                &&& outcome.records(
                    key@,
                    vstd::utf8::encode_utf8(stemming::stem_of(language, text)),
                )
                &&& after.adds(&before, key, outcome)
            };
        assert(after.cached(key) == Some(outcome));
    }
    assert forall|key: CacheKey, i: int|
        #![trigger after.cached(key), texts[i]]
        {
            &&& after.len() < after.made_for()
            &&& key.wf()
            &&& 0 <= i < texts.len()
            &&& key@ == vstd::utf8::encode_utf8(texts[i])
            &&& can_record(key@, vstd::utf8::encode_utf8(stemming::stem_of(language, texts[i])))
        } implies after.cached(key) is Some by {
        if before.cached(key) is Some {
            assert(after.cached(key) == before.cached(key));
        }
    }
}

/// An outcome that was inserted is what a lookup of its key finds, and lookups of other keys
/// find what they found before.
pub proof fn law_inserted_outcome_is_found(
    before: StemmingCache,
    after: StemmingCache,
    key: CacheKey,
    outcome: StemOutcome,
    other: CacheKey,
)
    requires
        after.adds(&before, key, outcome),
        other != key,
    ensures
        after.cached(key) == Some(outcome),
        after.cached(other) == before.cached(other),
{
}

/// A vacant front slot matches no key.
pub proof fn law_vacant_slots_never_match(vacant: CacheKey, key: CacheKey)
    requires
        vacant@.len() == 0,
        key.wf(),
    ensures
        vacant != key,
{
    key.lemma_len();
}

} // verus!
