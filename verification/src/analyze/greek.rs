//! The words that the Greek Snowball stemmer cannot take.
//!
//! Two of its steps (`r_steps3` and `r_step5c` in `rust_stemmers`) use the bounds of a slice
//! after the text has become shorter than they are, and panic. They do so if all that is left of
//! the word by then is one of a few heads, so such a word is a head with endings that the earlier
//! steps take off. The steps read the word in lower case and without accents.

use vstd::prelude::*;
use vstd::string::StrSliceExecFns;

verus! {

/// The heads that the first of the two steps cannot take.
pub const HEADS: [&'static str; 7] = [
    "ισαισεσ",
    "ισαισα",
    "ισαισε",
    "ισαισατε",
    "ισαισαμε",
    "ισαισανε",
    "ισαισαν",
];

/// How a head begins that the second of the two steps cannot take: one of [`MIDDLES`] and "ετε"
/// follow.
pub const STARTS: [&'static str; 25] = [
    "σερπ",
    "κοπ",
    "θαρρ",
    "ντρ",
    "αβαρ",
    "εναρ",
    "αβρ",
    "μπορ",
    "υ",
    "συρφ",
    "νιφ",
    "παγ",
    "δ",
    "αδ",
    "θ",
    "αθ",
    "σκ",
    "τοκ",
    "απλ",
    "παρακαλ",
    "σκελ",
    "εμ",
    "αν",
    "βεν",
    "βαρον",
];

/// What stands between one of [`STARTS`] and "ετε".
pub const MIDDLES: [&'static str; 27] = [
    "πυρ",
    "ευρ",
    "χωρ",
    "βαρ",
    "αιρ",
    "φορ",
    "νετ",
    "συνδ",
    "ενδ",
    "υπερθ",
    "ευθ",
    "ραθ",
    "ταθ",
    "διαθ",
    "καθ",
    "τιθ",
    "εκθ",
    "συνθ",
    "ενθ",
    "ροθ",
    "αρκ",
    "ωφελ",
    "βολ",
    "συν",
    "αιν",
    "πον",
    "ρον",
];

/// The endings that are taken off before, each with the number of the step that does it: what
/// has a lower number is taken off earlier.
pub const ENDINGS: [(&'static str, u8); 95] = [
    ("ιζεσ", 1),
    ("ιζεισ", 1),
    ("ιζω", 1),
    ("ιζα", 1),
    ("ιζατε", 1),
    ("ιζετε", 1),
    ("ιζε", 1),
    ("ιζουμε", 1),
    ("ιζαμε", 1),
    ("ιζουνε", 1),
    ("ιζανε", 1),
    ("ιζει", 1),
    ("ιζουν", 1),
    ("ιζαν", 1),
    ("ωθηκεσ", 2),
    ("ωθηκα", 2),
    ("ωθηκατε", 2),
    ("ωθηκε", 2),
    ("ωθηκαμε", 2),
    ("ωθηκανε", 2),
    ("ωθηκαν", 2),
    ("ισεσ", 3),
    ("ισα", 3),
    ("ισε", 3),
    ("ισατε", 3),
    ("ισαμε", 3),
    ("ισανε", 3),
    ("ισαν", 3),
    ("ισεισ", 4),
    ("ισω", 4),
    ("ισετε", 4),
    ("ισουμε", 4),
    ("ισουνε", 4),
    ("ισει", 4),
    ("ισουν", 4),
    ("ιστουσ", 5),
    ("ιστεσ", 5),
    ("ιστησ", 5),
    ("ιστοσ", 5),
    ("ιστου", 5),
    ("ιστα", 5),
    ("ιστε", 5),
    ("ιστη", 5),
    ("ιστοι", 5),
    ("ιστων", 5),
    ("ιστο", 5),
    ("ισμουσ", 6),
    ("ισμοσ", 6),
    ("ισμου", 6),
    ("ισμοι", 6),
    ("ισμων", 6),
    ("ισμο", 6),
    ("αρακια", 7),
    ("ουδακια", 7),
    ("αρακι", 7),
    ("ουδακι", 7),
    ("ιτσασ", 8),
    ("ιτσεσ", 8),
    ("ιτσα", 8),
    ("ακια", 8),
    ("αρακια", 8),
    ("ακι", 8),
    ("αρακι", 8),
    ("ιτσων", 8),
    ("ιδια", 9),
    ("ιδιων", 9),
    ("ιδιο", 9),
    ("ισκοσ", 10),
    ("ισκου", 10),
    ("ισκε", 10),
    ("ισκο", 10),
    ("εδεσ", 11),
    ("εδων", 11),
    ("ουδεσ", 12),
    ("ουδων", 12),
    ("εωσ", 13),
    ("εων", 13),
    ("ουσαμε", 14),
    ("ησαμε", 14),
    ("αγαμε", 14),
    ("ηκαμε", 14),
    ("ηθηκαμε", 14),
    ("αμε", 15),
    ("ουσανε", 16),
    ("ησανε", 16),
    ("ουντανε", 16),
    ("ιουντανε", 16),
    ("οντανε", 16),
    ("ιοντανε", 16),
    ("οτανε", 16),
    ("ιοτανε", 16),
    ("αγανε", 16),
    ("ηκανε", 16),
    ("ηθηκανε", 16),
    ("ησετε", 17),
];

/// The steps before the first of the two have lower numbers than this.
pub const FIRST_STEP: u8 = 3;

/// The steps before the second of the two have lower numbers than this.
pub const SECOND_STEP: u8 = 18;

/// The step that takes an ending off only if no epsilon stands before it.
pub const NOT_AFTER_EPSILON: u8 = 9;

/// The step that takes an ending off only if no sigma stands before it.
pub const NOT_AFTER_SIGMA: u8 = 12;

/// A Greek letter as the stemmer reads it: in lower case, without accent and with no final
/// sigma. It takes a small iota with diaeresis for an eta, and leaves other characters alone.
pub open spec fn letter(c: char) -> char {
    match c {
        'Α' | 'Ά' | 'ά' => 'α',
        'Β' => 'β',
        'Γ' => 'γ',
        'Δ' => 'δ',
        'Ε' | 'Έ' | 'έ' => 'ε',
        'Ζ' => 'ζ',
        'Η' | 'Ή' | 'ή' | 'ϊ' | 'ΐ' => 'η',
        'Θ' => 'θ',
        'Ι' | 'Ί' | 'Ϊ' | 'ί' => 'ι',
        'Κ' => 'κ',
        'Λ' => 'λ',
        'Μ' => 'μ',
        'Ν' => 'ν',
        'Ξ' => 'ξ',
        'Ο' | 'Ό' | 'ό' => 'ο',
        'Π' => 'π',
        'Ρ' => 'ρ',
        'Σ' | 'ς' => 'σ',
        'Τ' => 'τ',
        'Υ' | 'Ύ' | 'Ϋ' | 'ύ' | 'ϋ' | 'ΰ' => 'υ',
        'Φ' => 'φ',
        'Χ' => 'χ',
        'Ψ' => 'ψ',
        'Ω' | 'Ώ' | 'ώ' => 'ω',
        _ => c,
    }
}

/// Whether `part` stands in `text` at index `from`, in letters as the stemmer reads them.
pub open spec fn reads_at(text: Seq<char>, from: int, part: Seq<char>) -> bool {
    &&& from + part.len() <= text.len()
    &&& forall|k: int| 0 <= k < part.len() ==> letter(#[trigger] text[from + k]) == part[k]
}

/// Whether the letter `l` stands in `text` right before index `from`.
pub open spec fn stands_before(text: Seq<char>, from: int, l: char) -> bool {
    from > 0 && letter(text[from - 1]) == l
}

/// Whether the step with the given number can take an ending off that stands in `text` at index
/// `from`.
pub open spec fn can_take_off(text: Seq<char>, from: int, step: u8) -> bool {
    &&& step == NOT_AFTER_EPSILON ==> !stands_before(text, from, 'ε')
    &&& step == NOT_AFTER_SIGMA ==> !stands_before(text, from, 'σ')
}

/// Whether all of `text` from index `from` on is taken off by steps with numbers lower than
/// `bound`.
pub open spec fn is_taken_off(text: Seq<char>, from: int, bound: u8) -> bool
    decreases bound,
{
    from == text.len() || exists|i: int|
        0 <= i < ENDINGS@.len() && ENDINGS@[i].1 < bound && #[trigger] reads_at(
            text,
            from,
            ENDINGS@[i].0@,
        ) && can_take_off(text, from, ENDINGS@[i].1) && is_taken_off(
            text,
            from + ENDINGS@[i].0@.len(),
            ENDINGS@[i].1,
        )
}

/// Whether `HEADS[i]` is what the earlier steps leave of `text` for the first of the two steps.
pub open spec fn comes_down_to_head(text: Seq<char>, i: int) -> bool {
    &&& reads_at(text, 0, HEADS@[i]@)
    &&& is_taken_off(text, HEADS@[i]@.len() as int, FIRST_STEP)
}

/// Whether `STARTS[i]`, `MIDDLES[j]` and "ετε" are what the earlier steps leave of `text` for the
/// second of the two steps.
pub open spec fn comes_down_to_parts(text: Seq<char>, i: int, j: int) -> bool {
    let middle_at = STARTS@[i]@.len() as int;
    let end_at = middle_at + MIDDLES@[j]@.len();
    &&& reads_at(text, 0, STARTS@[i]@)
    &&& reads_at(text, middle_at, MIDDLES@[j]@)
    &&& reads_at(text, end_at, "ετε"@)
    &&& is_taken_off(text, end_at + "ετε"@.len(), SECOND_STEP)
}

/// Whether `text` is a word that the Greek stemmer cannot take, as `ανεύρετε` is.
pub open spec fn is_hazardous(text: Seq<char>) -> bool {
    ||| exists|i: int| 0 <= i < HEADS@.len() && #[trigger] comes_down_to_head(text, i)
    ||| exists|i: int, j: int|
        0 <= i < STARTS@.len() && 0 <= j < MIDDLES@.len() && #[trigger] comes_down_to_parts(
            text,
            i,
            j,
        )
}

/// A word that the Greek stemmer cannot take begins with "ισαισ", or holds "ετε" after other
/// letters.
pub proof fn lemma_hazards(text: Seq<char>)
    requires
        is_hazardous(text),
    ensures
        reads_at(text, 0, seq!['ι', 'σ', 'α', 'ι', 'σ']) || exists|from: int|
            0 < from && #[trigger] reads_at(text, from, "ετε"@),
{
    reveal_strlit("ισαισεσ");
    reveal_strlit("ισαισα");
    reveal_strlit("ισαισε");
    reveal_strlit("ισαισατε");
    reveal_strlit("ισαισαμε");
    reveal_strlit("ισαισανε");
    reveal_strlit("ισαισαν");
    reveal_strlit("σερπ");
    reveal_strlit("κοπ");
    reveal_strlit("θαρρ");
    reveal_strlit("ντρ");
    reveal_strlit("αβαρ");
    reveal_strlit("εναρ");
    reveal_strlit("αβρ");
    reveal_strlit("μπορ");
    reveal_strlit("υ");
    reveal_strlit("συρφ");
    reveal_strlit("νιφ");
    reveal_strlit("παγ");
    reveal_strlit("δ");
    reveal_strlit("αδ");
    reveal_strlit("θ");
    reveal_strlit("αθ");
    reveal_strlit("σκ");
    reveal_strlit("τοκ");
    reveal_strlit("απλ");
    reveal_strlit("παρακαλ");
    reveal_strlit("σκελ");
    reveal_strlit("εμ");
    reveal_strlit("αν");
    reveal_strlit("βεν");
    reveal_strlit("βαρον");
    if exists|i: int| 0 <= i < HEADS@.len() && #[trigger] comes_down_to_head(text, i) {
        let i = choose|i: int| 0 <= i < HEADS@.len() && #[trigger] comes_down_to_head(text, i);
        let head = HEADS@[i]@;
        let common = seq!['ι', 'σ', 'α', 'ι', 'σ'];
        assert(head.len() >= 5 && forall|k: int| 0 <= k < 5 ==> head[k] == common[k]);
        assert forall|k: int| 0 <= k < common.len() implies letter(#[trigger] text[0 + k])
            == common[k] by {
            assert(letter(text[0 + k]) == head[k]);
        }
    } else {
        let (i, j) = choose|i: int, j: int|
            0 <= i < STARTS@.len() && 0 <= j < MIDDLES@.len() && #[trigger] comes_down_to_parts(
                text,
                i,
                j,
            );
        assert(STARTS@[i]@.len() > 0);
        let end_at = (STARTS@[i]@.len() + MIDDLES@[j]@.len()) as int;
        assert(reads_at(text, end_at, "ετε"@));
    }
}

/// Reads a letter as the stemmer does.
fn to_letter(c: char) -> (l: char)
    ensures
        l == letter(c),
{
    match c {
        'Α' | 'Ά' | 'ά' => 'α',
        'Β' => 'β',
        'Γ' => 'γ',
        'Δ' => 'δ',
        'Ε' | 'Έ' | 'έ' => 'ε',
        'Ζ' => 'ζ',
        'Η' | 'Ή' | 'ή' | 'ϊ' | 'ΐ' => 'η',
        'Θ' => 'θ',
        'Ι' | 'Ί' | 'Ϊ' | 'ί' => 'ι',
        'Κ' => 'κ',
        'Λ' => 'λ',
        'Μ' => 'μ',
        'Ν' => 'ν',
        'Ξ' => 'ξ',
        'Ο' | 'Ό' | 'ό' => 'ο',
        'Π' => 'π',
        'Ρ' => 'ρ',
        'Σ' | 'ς' => 'σ',
        'Τ' => 'τ',
        'Υ' | 'Ύ' | 'Ϋ' | 'ύ' | 'ϋ' | 'ΰ' => 'υ',
        'Φ' => 'φ',
        'Χ' => 'χ',
        'Ψ' => 'ψ',
        'Ω' | 'Ώ' | 'ώ' => 'ω',
        _ => c,
    }
}

/// Tells whether `part` stands in `text` at index `from`.
fn check_part(text: &str, from: usize, part: &str) -> (found: bool)
    requires
        from <= text@.len(),
    ensures
        found == reads_at(text@, from as int, part@),
{
    let len = part.unicode_len();
    if text.unicode_len() - from < len {
        return false;
    }
    let mut k: usize = 0;
    while k < len
        invariant
            k <= len,
            len == part@.len(),
            from + len <= text@.len(),
            text@.len() <= usize::MAX,
            forall|j: int| 0 <= j < k ==> letter(#[trigger] text@[from + j]) == part@[j],
        decreases len - k,
    {
        if to_letter(text.get_char(from + k)) != part.get_char(k) {
            assert(letter(text@[from + k]) != part@[k as int]);
            return false;
        }
        k += 1;
    }
    true
}

/// Tells whether the letter `l` stands in `text` right before index `from`.
fn check_before(text: &str, from: usize, l: char) -> (found: bool)
    requires
        from <= text@.len(),
    ensures
        found == stands_before(text@, from as int, l),
{
    from > 0 && to_letter(text.get_char(from - 1)) == l
}

/// Tells whether all of `text` from index `from` on is taken off by steps with numbers lower
/// than `bound`.
fn check_rest(text: &str, from: usize, bound: u8) -> (taken_off: bool)
    requires
        from <= text@.len(),
    ensures
        taken_off == is_taken_off(text@, from as int, bound),
    decreases bound,
{
    let len = text.unicode_len();
    if from == len {
        return true;
    }
    let mut i: usize = 0;
    while i < ENDINGS.len()
        invariant
            i <= ENDINGS@.len(),
            from < len == text@.len(),
            forall|m: int|
                0 <= m < i ==> !(ENDINGS@[m].1 < bound && #[trigger] reads_at(
                    text@,
                    from as int,
                    ENDINGS@[m].0@,
                ) && can_take_off(text@, from as int, ENDINGS@[m].1) && is_taken_off(
                    text@,
                    from + ENDINGS@[m].0@.len(),
                    ENDINGS@[m].1,
                )),
        decreases ENDINGS@.len() - i,
    {
        let (ending, step) = ENDINGS[i];
        if step < bound && check_part(text, from, ending) {
            if !(step == NOT_AFTER_EPSILON && check_before(text, from, 'ε')) && !(step
                == NOT_AFTER_SIGMA && check_before(text, from, 'σ')) {
                if check_rest(text, from + ending.unicode_len(), step) {
                    return true;
                }
            }
        }
        i += 1;
    }
    false
}

/// Tells whether `STARTS[i]`, one of [`MIDDLES`] and "ετε" are what is left of `text`, which
/// begins with `STARTS[i]`.
fn check_middles(text: &str, i: usize) -> (found: bool)
    requires
        i < STARTS@.len(),
        reads_at(text@, 0, STARTS@[i as int]@),
    ensures
        found == exists|j: int|
            0 <= j < MIDDLES@.len() && #[trigger] comes_down_to_parts(text@, i as int, j),
{
    let len = text.unicode_len();
    let middle_at = STARTS[i].unicode_len();
    let mut j: usize = 0;
    while j < MIDDLES.len()
        invariant
            i < STARTS@.len(),
            j <= MIDDLES@.len(),
            middle_at == STARTS@[i as int]@.len(),
            middle_at <= len == text@.len(),
            reads_at(text@, 0, STARTS@[i as int]@),
            forall|m: int| 0 <= m < j ==> !#[trigger] comes_down_to_parts(text@, i as int, m),
        decreases MIDDLES@.len() - j,
    {
        let middle = MIDDLES[j];
        if check_part(text, middle_at, middle) {
            let end_at = middle_at + middle.unicode_len();
            if check_part(text, end_at, "ετε") {
                if check_rest(text, end_at + "ετε".unicode_len(), SECOND_STEP) {
                    assert(comes_down_to_parts(text@, i as int, j as int));
                    return true;
                }
            }
        }
        j += 1;
    }
    false
}

/// Tells whether `text` is a word that the Greek stemmer cannot take.
pub fn is_hazard(text: &str) -> (hazardous: bool)
    ensures
        hazardous == is_hazardous(text@),
{
    let mut i: usize = 0;
    while i < HEADS.len()
        invariant
            i <= HEADS@.len(),
            forall|n: int| 0 <= n < i ==> !#[trigger] comes_down_to_head(text@, n),
        decreases HEADS@.len() - i,
    {
        if check_part(text, 0, HEADS[i]) {
            if check_rest(text, HEADS[i].unicode_len(), FIRST_STEP) {
                assert(comes_down_to_head(text@, i as int));
                return true;
            }
        }
        i += 1;
    }
    let mut i: usize = 0;
    while i < STARTS.len()
        invariant
            i <= STARTS@.len(),
            forall|n: int| 0 <= n < HEADS@.len() ==> !#[trigger] comes_down_to_head(text@, n),
            forall|n: int, j: int|
                0 <= n < i && 0 <= j < MIDDLES@.len() ==> !#[trigger] comes_down_to_parts(
                    text@,
                    n,
                    j,
                ),
        decreases STARTS@.len() - i,
    {
        if check_part(text, 0, STARTS[i]) && check_middles(text, i) {
            return true;
        }
        i += 1;
    }
    false
}

} // verus!
