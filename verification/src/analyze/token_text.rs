//! The text of a token on its way through the filters.

use vstd::prelude::*;
use vstd::string::StringSliceAdditionalSpecFns;

use crate::analyze::filters;
use crate::analyze::filters::Filters;
use crate::analyze::stemming;
use crate::analyze::stemming_cache::{CacheKey, StemOutcome, StemmingCache, MAX_KEY_LEN, MAX_STEM_LEN};
use crate::analyze::StemmingLanguage;
use crate::text;

verus! {

/// Text that is a slice of the input until a filter changes it, and lives in a reused buffer
/// from then on.
pub enum InputRefOrBuffered<'input> {
    InputRef { input: &'input str, buffer_if_needed: String },
    Buffered(String),
}

/// `text` in lower case: letter by letter if it is ASCII, as the filters have it otherwise.
pub open spec fn lowercased<F: Filters>(filters: F, text: Seq<char>) -> Seq<char> {
    if vstd::utf8::is_ascii_chars(text) {
        text::ascii_lowercase(text)
    } else {
        filters.lowercased(text)
    }
}

impl<'input> InputRefOrBuffered<'input> {
    /// The characters of the text.
    pub open spec fn text(&self) -> Seq<char> {
        match self {
            Self::InputRef { input, .. } => input@,
            Self::Buffered(s) => s@,
        }
    }

    /// The invariant: a buffer that is not in use is empty.
    pub open spec fn wf(&self) -> bool {
        self matches Self::InputRef { buffer_if_needed, .. } ==> buffer_if_needed@.len() == 0
    }

    pub fn as_str(&self) -> (s: &str)
        ensures
            s@ == self.text(),
    {
        match self {
            Self::InputRef { input, .. } => input,
            Self::Buffered(s) => s.as_str(),
        }
    }

    /// The buffer, for another token.
    pub fn into_buffer(self) -> (buffer: String)
        ensures
            buffer == (match self {
                Self::InputRef { buffer_if_needed, .. } => buffer_if_needed,
                Self::Buffered(s) => s,
            }),
    {
        match self {
            Self::InputRef { buffer_if_needed, .. } => buffer_if_needed,
            Self::Buffered(s) => s,
        }
    }

    /// `may_have_upper` is a hint from the tokenizer: already-lowercase ASCII tokens (the
    /// overwhelmingly common case in prose) return immediately, without rescanning the
    /// bytes. Pass `true` when unknown.
    pub fn lowercase_in_place<F: Filters>(
        &mut self,
        filters: &F,
        is_ascii: bool,
        may_have_upper: bool,
    )
        requires
            old(self).wf(),
            filters::follow_model(*filters),
            is_ascii == vstd::utf8::is_ascii_chars(old(self).text()),
            is_ascii && !may_have_upper ==> !text::has_ascii_uppercase(old(self).text()),
        ensures
            final(self).wf(),
            final(self).text() == lowercased(*filters, old(self).text()),
            is_ascii && !text::has_ascii_uppercase(old(self).text()) ==> *final(self)
                == *old(self),
            !is_ascii || text::has_ascii_uppercase(old(self).text()) ==> *final(self) is Buffered,
    {
        if is_ascii && !may_have_upper {
            proof {
                text::lemma_ascii_lowercase_identity(self.text());
            }
            return;
        }
        self.lowercase_in_place_slow(filters, is_ascii);
    }

    pub fn lowercase_in_place_slow<F: Filters>(&mut self, filters: &F, is_ascii: bool)
        requires
            old(self).wf(),
            filters::follow_model(*filters),
            is_ascii == vstd::utf8::is_ascii_chars(old(self).text()),
        ensures
            final(self).wf(),
            final(self).text() == lowercased(*filters, old(self).text()),
            is_ascii && !text::has_ascii_uppercase(old(self).text()) ==> *final(self)
                == *old(self),
            !is_ascii || text::has_ascii_uppercase(old(self).text()) ==> *final(self) is Buffered,
    {
        if is_ascii && !text::ascii_has_uppercase(self.as_str()) {
            proof {
                text::lemma_ascii_lowercase_identity(self.text());
            }
            return;
        }
        let buffered = match self {
            Self::InputRef { input, buffer_if_needed } => {
                buffer_if_needed.push_str(input);
                false
            },
            Self::Buffered(_) => true,
        };
        if !buffered {
            self.transition_to_buffered();
        }
        if let Self::Buffered(s) = self {
            if is_ascii {
                text::make_ascii_lowercase(s);
            } else {
                *s = filters.lowercase_chars(s.as_str());
            }
        }
    }

    pub fn ascii_fold_in_place<F: Filters>(&mut self, filters: &F, scratch: &mut String)
        requires
            old(self).wf(),
            filters::follow_model(*filters),
            old(scratch)@.len() == 0,
        ensures
            final(self).wf(),
            final(self).text() == filters.folded(old(self).text()),
            *final(self) is Buffered,
            final(scratch)@.len() == 0,
    {
        let folded = filters.ascii_fold(self.as_str());
        self.replace_text(folded.as_str(), scratch);
    }

    /// Stems the text in `language`, with the stem taken from `cache` if it holds one and
    /// added to it otherwise.
    pub fn stem_in_place(
        &mut self,
        language: StemmingLanguage,
        cache: &mut StemmingCache,
        scratch: &mut String,
    )
        requires
            old(self).wf(),
            stemming::can_stem(language, old(self).text()),
            old(cache).wf(),
            old(cache).sound_for(language),
            old(scratch)@.len() == 0,
        ensures
            final(self).wf(),
            final(self).text() == stemming::stem_of(language, old(self).text()),
            stemming::stem_of(language, old(self).text()) == old(self).text() ==> *final(self)
                == *old(self),
            stemming::stem_of(language, old(self).text()) != old(self).text()
                ==> *final(self) is Buffered,
            final(cache).wf(),
            final(cache).sound_for(language),
            final(cache).learns(
                old(cache),
                old(self).text(),
                stemming::stem_of(language, old(self).text()),
            ),
            final(scratch)@.len() == 0,
    {
        let ghost before = self.text();
        let ghost stem_text = stemming::stem_of(language, before);
        proof {
            vstd::utf8::encode_utf8_decode_utf8(before);
            vstd::utf8::encode_utf8_valid_utf8(before);
        }
        let cache_key = CacheKey::new_from_str(self.as_str());
        if let Some(key) = &cache_key {
            assert forall|k: CacheKey| k.wf() && k@ == key@ implies k == *key by {
                crate::analyze::stemming_cache::law_key_is_its_text(k, *key);
            }
            if let Some(outcome) = cache.lookup(key) {
                assert(outcome.stem_of(key@) == vstd::utf8::encode_utf8(stem_text));
                let mut stem_buf: [u8; MAX_STEM_LEN] = [0;MAX_STEM_LEN];
                match outcome.reconstruct(key, &mut stem_buf) {
                    Some(stem) => {
                        proof {
                            text::lemma_utf8_injective(stem@, stem_text);
                        }
                        self.replace_text(stem, scratch);
                    },
                    None => {
                        proof {
                            text::lemma_utf8_injective(before, stem_text);
                        }
                    },
                }
                return;
            }
        }
        let stemmed = stemming::stem(language, self.as_str());
        let unchanged = text::same_text(stemmed.as_str(), self.as_str());
        if let Some(key) = cache_key {
            let outcome_to_insert = if unchanged {
                Some(StemOutcome::Unchanged)
            } else {
                StemOutcome::encode(&key, stemmed.as_str())
            };
            proof {
                if !unchanged && vstd::utf8::encode_utf8(stem_text) == key@ {
                    text::lemma_utf8_injective(before, stem_text);
                }
            }
            if let Some(outcome) = outcome_to_insert {
                assert(outcome.records(key@, vstd::utf8::encode_utf8(stem_text)));
                let ghost looked_up = *cache;
                cache.insert(key, outcome);
                proof {
                    if cache.adds(&looked_up, key, outcome) {
                        assert(cache.adds(old(cache), key, outcome));
                    } else {
                        assert(cache.same_as(old(cache)));
                    }
                }
            }
        } else {
            proof {
                assert forall|k: CacheKey| k.wf() implies 1 <= k@.len() <= MAX_KEY_LEN by {
                    k.lemma_len();
                }
            }
        }
        if !unchanged {
            self.replace_text(stemmed.as_str(), scratch);
        }
    }

    /// Makes `new_text` the text, in the buffer that is at hand.
    fn replace_text(&mut self, new_text: &str, scratch: &mut String)
        requires
            old(self).wf(),
            old(scratch)@.len() == 0,
        ensures
            final(self).wf(),
            final(self).text() == new_text@,
            *final(self) is Buffered,
            final(scratch)@.len() == 0,
    {
        let buffered = match self {
            Self::InputRef { buffer_if_needed, .. } => {
                buffer_if_needed.push_str(new_text);
                false
            },
            Self::Buffered(s) => {
                scratch.push_str(new_text);
                std::mem::swap(s, scratch);
                scratch.clear();
                true
            },
        };
        if !buffered {
            self.transition_to_buffered();
        }
    }

    /// Moves from `InputRef` to `Buffered`. The caller has filled `buffer_if_needed` with the
    /// new text.
    fn transition_to_buffered(&mut self)
        requires
            *old(self) is InputRef,
        ensures
            *final(self) == Self::Buffered((*old(self))->buffer_if_needed),
    {
        let mut taken = Self::Buffered(String::new());
        std::mem::swap(self, &mut taken);
        if let Self::InputRef { buffer_if_needed, .. } = taken {
            *self = Self::Buffered(buffer_if_needed);
        }
    }
}

} // verus!
