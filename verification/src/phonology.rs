//! Vietnamese phonotactics: which onsets, codas and vowel clusters exist,
//! which onset/vowel spellings are correct, and a validity score for a
//! syllable.
use vstd::prelude::*;
use crate::syllable::{Syllable, SyllableView};
use crate::text::{chars_of, chars_to_lowercase, str_lowercase};

verus! {

/// Valid Vietnamese onsets (âm đầu), the empty onset included.
pub open spec fn is_onset(s: Seq<char>) -> bool {
    (s.len() == 0 && (true))
        || (s.len() == 1 && ((s[0] == 'b') || (s[0] == 'c') || (s[0] == 'd') || (s[0] == 'g') || (s[0] == 'h') || (s[0] == 'k') || (s[0] == 'l') || (s[0] == 'm') || (s[0] == 'n') || (s[0] == 'p') || (s[0] == 'q') || (s[0] == 'r') || (s[0] == 's') || (s[0] == 't') || (s[0] == 'v') || (s[0] == 'x') || (s[0] == '\u{0111}')))
        || (s.len() == 2 && ((s[0] == 'c' && s[1] == 'h') || (s[0] == 'g' && s[1] == 'h') || (s[0] == 'g' && s[1] == 'i') || (s[0] == 'k' && s[1] == 'h') || (s[0] == 'n' && s[1] == 'g') || (s[0] == 'n' && s[1] == 'h') || (s[0] == 'p' && s[1] == 'h') || (s[0] == 'q' && s[1] == 'u') || (s[0] == 't' && s[1] == 'h') || (s[0] == 't' && s[1] == 'r')))
        || (s.len() == 3 && ((s[0] == 'n' && s[1] == 'g' && s[2] == 'h')))
}

fn onset_listed(v: &Vec<char>) -> (r: bool)
    ensures
        r == is_onset(v@),
{
    (v.len() == 0 && (true))
        || (v.len() == 1 && ((v[0] == 'b') || (v[0] == 'c') || (v[0] == 'd') || (v[0] == 'g') || (v[0] == 'h') || (v[0] == 'k') || (v[0] == 'l') || (v[0] == 'm') || (v[0] == 'n') || (v[0] == 'p') || (v[0] == 'q') || (v[0] == 'r') || (v[0] == 's') || (v[0] == 't') || (v[0] == 'v') || (v[0] == 'x') || (v[0] == '\u{0111}')))
        || (v.len() == 2 && ((v[0] == 'c' && v[1] == 'h') || (v[0] == 'g' && v[1] == 'h') || (v[0] == 'g' && v[1] == 'i') || (v[0] == 'k' && v[1] == 'h') || (v[0] == 'n' && v[1] == 'g') || (v[0] == 'n' && v[1] == 'h') || (v[0] == 'p' && v[1] == 'h') || (v[0] == 'q' && v[1] == 'u') || (v[0] == 't' && v[1] == 'h') || (v[0] == 't' && v[1] == 'r')))
        || (v.len() == 3 && ((v[0] == 'n' && v[1] == 'g' && v[2] == 'h')))
}

/// Valid Vietnamese codas (âm cuối), the empty coda included.
pub open spec fn is_coda(s: Seq<char>) -> bool {
    (s.len() == 0 && (true))
        || (s.len() == 1 && ((s[0] == 'c') || (s[0] == 'i') || (s[0] == 'm') || (s[0] == 'n') || (s[0] == 'o') || (s[0] == 'p') || (s[0] == 't') || (s[0] == 'u') || (s[0] == 'y')))
        || (s.len() == 2 && ((s[0] == 'c' && s[1] == 'h') || (s[0] == 'n' && s[1] == 'g') || (s[0] == 'n' && s[1] == 'h')))
}

fn coda_listed(v: &Vec<char>) -> (r: bool)
    ensures
        r == is_coda(v@),
{
    (v.len() == 0 && (true))
        || (v.len() == 1 && ((v[0] == 'c') || (v[0] == 'i') || (v[0] == 'm') || (v[0] == 'n') || (v[0] == 'o') || (v[0] == 'p') || (v[0] == 't') || (v[0] == 'u') || (v[0] == 'y')))
        || (v.len() == 2 && ((v[0] == 'c' && v[1] == 'h') || (v[0] == 'n' && v[1] == 'g') || (v[0] == 'n' && v[1] == 'h')))
}

/// Valid Vietnamese vowel clusters (vần).
pub open spec fn is_vowel_cluster(s: Seq<char>) -> bool {
    (s.len() == 1 && ((s[0] == 'a') || (s[0] == '\u{00E2}') || (s[0] == 'e') || (s[0] == '\u{00EA}') || (s[0] == 'i') || (s[0] == 'o') || (s[0] == '\u{00F4}') || (s[0] == '\u{01A1}') || (s[0] == 'u') || (s[0] == '\u{01B0}') || (s[0] == 'y')))
        || (s.len() == 2 && ((s[0] == 'a' && s[1] == 'i') || (s[0] == 'a' && s[1] == 'o') || (s[0] == 'a' && s[1] == 'u') || (s[0] == 'a' && s[1] == 'y') || (s[0] == '\u{00E2}' && s[1] == 'u') || (s[0] == '\u{00E2}' && s[1] == 'y') || (s[0] == 'e' && s[1] == 'o') || (s[0] == '\u{00EA}' && s[1] == 'u') || (s[0] == 'i' && s[1] == 'a') || (s[0] == 'i' && s[1] == '\u{00EA}') || (s[0] == 'i' && s[1] == 'u') || (s[0] == 'o' && s[1] == 'a') || (s[0] == 'o' && s[1] == 'e') || (s[0] == 'o' && s[1] == 'i') || (s[0] == 'o' && s[1] == 'o') || (s[0] == 'o' && s[1] == '\u{0103}') || (s[0] == '\u{00F4}' && s[1] == 'i') || (s[0] == '\u{00F4}' && s[1] == 'n') || (s[0] == '\u{01A1}' && s[1] == 'i') || (s[0] == '\u{01A1}' && s[1] == 'm') || (s[0] == '\u{01A1}' && s[1] == 'n') || (s[0] == 'u' && s[1] == 'a') || (s[0] == 'u' && s[1] == '\u{00E2}') || (s[0] == 'u' && s[1] == '\u{0103}') || (s[0] == 'u' && s[1] == '\u{00EA}') || (s[0] == 'u' && s[1] == 'i') || (s[0] == 'u' && s[1] == '\u{00F4}') || (s[0] == 'u' && s[1] == 'o') || (s[0] == 'u' && s[1] == '\u{01A1}') || (s[0] == '\u{01B0}' && s[1] == 'a') || (s[0] == '\u{01B0}' && s[1] == 'u') || (s[0] == '\u{01B0}' && s[1] == '\u{01A1}') || (s[0] == 'u' && s[1] == 'y') || (s[0] == 'y' && s[1] == 'a') || (s[0] == 'y' && s[1] == '\u{00EA}')))
        || (s.len() == 3 && ((s[0] == 'i' && s[1] == '\u{00EA}' && s[2] == 'u') || (s[0] == 'o' && s[1] == 'a' && s[2] == 'i') || (s[0] == 'o' && s[1] == 'a' && s[2] == 'o') || (s[0] == 'o' && s[1] == 'a' && s[2] == 'y') || (s[0] == '\u{00F4}' && s[1] == 'n' && s[2] == 'g') || (s[0] == '\u{01A1}' && s[1] == 'n' && s[2] == 'g') || (s[0] == 'u' && s[1] == '\u{00E2}' && s[2] == 'n') || (s[0] == 'u' && s[1] == '\u{00F4}' && s[2] == 'i') || (s[0] == 'u' && s[1] == '\u{00F4}' && s[2] == 'n') || (s[0] == 'u' && s[1] == '\u{1EA5}' && s[2] == 't') || (s[0] == '\u{01B0}' && s[1] == '\u{01A1}' && s[2] == 'i') || (s[0] == '\u{01B0}' && s[1] == '\u{01A1}' && s[2] == 'n') || (s[0] == 'u' && s[1] == 'y' && s[2] == 'a') || (s[0] == 'u' && s[1] == 'y' && s[2] == '\u{00EA}') || (s[0] == 'u' && s[1] == 'y' && s[2] == 'n') || (s[0] == 'u' && s[1] == 'y' && s[2] == 'u') || (s[0] == 'y' && s[1] == '\u{00EA}' && s[2] == 'u')))
        || (s.len() == 4 && ((s[0] == 'u' && s[1] == '\u{00E2}' && s[2] == 'n' && s[3] == 'g') || (s[0] == 'u' && s[1] == '\u{00F4}' && s[2] == 'n' && s[3] == 'g') || (s[0] == '\u{01B0}' && s[1] == '\u{01A1}' && s[2] == 'n' && s[3] == 'g')))
}

fn vowel_cluster_listed(v: &Vec<char>) -> (r: bool)
    ensures
        r == is_vowel_cluster(v@),
{
    (v.len() == 1 && ((v[0] == 'a') || (v[0] == '\u{00E2}') || (v[0] == 'e') || (v[0] == '\u{00EA}') || (v[0] == 'i') || (v[0] == 'o') || (v[0] == '\u{00F4}') || (v[0] == '\u{01A1}') || (v[0] == 'u') || (v[0] == '\u{01B0}') || (v[0] == 'y')))
        || (v.len() == 2 && ((v[0] == 'a' && v[1] == 'i') || (v[0] == 'a' && v[1] == 'o') || (v[0] == 'a' && v[1] == 'u') || (v[0] == 'a' && v[1] == 'y') || (v[0] == '\u{00E2}' && v[1] == 'u') || (v[0] == '\u{00E2}' && v[1] == 'y') || (v[0] == 'e' && v[1] == 'o') || (v[0] == '\u{00EA}' && v[1] == 'u') || (v[0] == 'i' && v[1] == 'a') || (v[0] == 'i' && v[1] == '\u{00EA}') || (v[0] == 'i' && v[1] == 'u') || (v[0] == 'o' && v[1] == 'a') || (v[0] == 'o' && v[1] == 'e') || (v[0] == 'o' && v[1] == 'i') || (v[0] == 'o' && v[1] == 'o') || (v[0] == 'o' && v[1] == '\u{0103}') || (v[0] == '\u{00F4}' && v[1] == 'i') || (v[0] == '\u{00F4}' && v[1] == 'n') || (v[0] == '\u{01A1}' && v[1] == 'i') || (v[0] == '\u{01A1}' && v[1] == 'm') || (v[0] == '\u{01A1}' && v[1] == 'n') || (v[0] == 'u' && v[1] == 'a') || (v[0] == 'u' && v[1] == '\u{00E2}') || (v[0] == 'u' && v[1] == '\u{0103}') || (v[0] == 'u' && v[1] == '\u{00EA}') || (v[0] == 'u' && v[1] == 'i') || (v[0] == 'u' && v[1] == '\u{00F4}') || (v[0] == 'u' && v[1] == 'o') || (v[0] == 'u' && v[1] == '\u{01A1}') || (v[0] == '\u{01B0}' && v[1] == 'a') || (v[0] == '\u{01B0}' && v[1] == 'u') || (v[0] == '\u{01B0}' && v[1] == '\u{01A1}') || (v[0] == 'u' && v[1] == 'y') || (v[0] == 'y' && v[1] == 'a') || (v[0] == 'y' && v[1] == '\u{00EA}')))
        || (v.len() == 3 && ((v[0] == 'i' && v[1] == '\u{00EA}' && v[2] == 'u') || (v[0] == 'o' && v[1] == 'a' && v[2] == 'i') || (v[0] == 'o' && v[1] == 'a' && v[2] == 'o') || (v[0] == 'o' && v[1] == 'a' && v[2] == 'y') || (v[0] == '\u{00F4}' && v[1] == 'n' && v[2] == 'g') || (v[0] == '\u{01A1}' && v[1] == 'n' && v[2] == 'g') || (v[0] == 'u' && v[1] == '\u{00E2}' && v[2] == 'n') || (v[0] == 'u' && v[1] == '\u{00F4}' && v[2] == 'i') || (v[0] == 'u' && v[1] == '\u{00F4}' && v[2] == 'n') || (v[0] == 'u' && v[1] == '\u{1EA5}' && v[2] == 't') || (v[0] == '\u{01B0}' && v[1] == '\u{01A1}' && v[2] == 'i') || (v[0] == '\u{01B0}' && v[1] == '\u{01A1}' && v[2] == 'n') || (v[0] == 'u' && v[1] == 'y' && v[2] == 'a') || (v[0] == 'u' && v[1] == 'y' && v[2] == '\u{00EA}') || (v[0] == 'u' && v[1] == 'y' && v[2] == 'n') || (v[0] == 'u' && v[1] == 'y' && v[2] == 'u') || (v[0] == 'y' && v[1] == '\u{00EA}' && v[2] == 'u')))
        || (v.len() == 4 && ((v[0] == 'u' && v[1] == '\u{00E2}' && v[2] == 'n' && v[3] == 'g') || (v[0] == 'u' && v[1] == '\u{00F4}' && v[2] == 'n' && v[3] == 'g') || (v[0] == '\u{01B0}' && v[1] == '\u{01A1}' && v[2] == 'n' && v[3] == 'g')))
}

/// Vowel clusters that are valid while typing but not as final words.
pub open spec fn is_intermediate_cluster(s: Seq<char>) -> bool {
    (s.len() == 2 && ((s[0] == 'i' && s[1] == 'e') || (s[0] == 'u' && s[1] == 'o') || (s[0] == 'u' && s[1] == 'e') || (s[0] == 'u' && s[1] == '\u{00E2}') || (s[0] == '\u{01B0}' && s[1] == 'o') || (s[0] == 'i' && s[1] == '\u{00EA}') || (s[0] == 'u' && s[1] == '\u{00F4}') || (s[0] == '\u{01B0}' && s[1] == '\u{01A1}') || (s[0] == 'y' && s[1] == 'e')))
        || (s.len() == 3 && ((s[0] == 'u' && s[1] == 'y' && s[2] == 'e') || (s[0] == 'i' && s[1] == '\u{00EA}' && s[2] == 'u') || (s[0] == '\u{01B0}' && s[1] == '\u{01A1}' && s[2] == 'i')))
}

fn intermediate_cluster_listed(v: &Vec<char>) -> (r: bool)
    ensures
        r == is_intermediate_cluster(v@),
{
    (v.len() == 2 && ((v[0] == 'i' && v[1] == 'e') || (v[0] == 'u' && v[1] == 'o') || (v[0] == 'u' && v[1] == 'e') || (v[0] == 'u' && v[1] == '\u{00E2}') || (v[0] == '\u{01B0}' && v[1] == 'o') || (v[0] == 'i' && v[1] == '\u{00EA}') || (v[0] == 'u' && v[1] == '\u{00F4}') || (v[0] == '\u{01B0}' && v[1] == '\u{01A1}') || (v[0] == 'y' && v[1] == 'e')))
        || (v.len() == 3 && ((v[0] == 'u' && v[1] == 'y' && v[2] == 'e') || (v[0] == 'i' && v[1] == '\u{00EA}' && v[2] == 'u') || (v[0] == '\u{01B0}' && v[1] == '\u{01A1}' && v[2] == 'i')))
}

/// "z", "w", "j" or "f": consonants accepted when foreign consonants are allowed.
pub open spec fn is_foreign_consonant(s: Seq<char>) -> bool {
    s.len() == 1 && (s[0] == 'z' || s[0] == 'w' || s[0] == 'j' || s[0] == 'f')
}

fn foreign_listed(v: &Vec<char>) -> (r: bool)
    ensures
        r == is_foreign_consonant(v@),
{
    v.len() == 1 && (v[0] == 'z' || v[0] == 'w' || v[0] == 'j' || v[0] == 'f')
}

/// Whether all characters of `s` equal its first one.
pub open spec fn all_same(s: Seq<char>) -> bool {
    forall|i: int| 0 <= i < s.len() ==> #[trigger] s[i] == s[0]
}

/// The onset validity rule, on the lowercased onset: a listed onset, a run of
/// one repeated d or w (an unfinished Telex modifier), or a foreign
/// consonant when allowed.
pub open spec fn valid_onset_spec(onset: Seq<char>, allow_foreign: bool) -> bool {
    let l = str_lowercase(onset);
    is_onset(l) || (l.len() > 0 && all_same(l) && (l[0] == 'd' || l[0] == 'w')) || (allow_foreign
        && is_foreign_consonant(l))
}

/// The coda validity rule, on the lowercased coda.
pub open spec fn valid_coda_spec(coda: Seq<char>, allow_foreign: bool) -> bool {
    let l = str_lowercase(coda);
    is_coda(l) || (allow_foreign && is_foreign_consonant(l))
}

/// Spelling rule: k, gh, ngh only before i, e, ê, y; c, g, ng never before
/// i, e, ê; qu never before u.
pub open spec fn valid_spelling_spec(onset: Seq<char>, vowel: Seq<char>) -> bool {
    let lo = str_lowercase(onset);
    let lv = str_lowercase(vowel);
    if lv.len() == 0 {
        true
    } else {
        let f = lv[0];
        if lo == seq!['k'] || lo == seq!['g', 'h'] || lo == seq!['n', 'g', 'h'] {
            f == 'i' || f == 'e' || f == '\u{00EA}' || f == 'y'
        } else if lo == seq!['c'] || lo == seq!['g'] || lo == seq!['n', 'g'] {
            !(f == 'i' || f == 'e' || f == '\u{00EA}')
        } else if lo == seq!['q', 'u'] {
            f != 'u'
        } else {
            true
        }
    }
}

fn all_same_exec(v: &Vec<char>) -> (r: bool)
    requires
        v.len() > 0,
    ensures
        r == all_same(v@),
{
    let mut i: usize = 0;
    while i < v.len()
        invariant
            i <= v.len(),
            v.len() > 0,
            forall|j: int| 0 <= j < i ==> #[trigger] v@[j] == v@[0],
        decreases v.len() - i,
    {
        if v[i] != v[0] {
            return false;
        }
        i += 1;
    }
    true
}

/// Check if an onset is linguistically valid.
pub fn is_valid_onset(onset: &str, allow_foreign: bool) -> (r: bool)
    ensures
        r == valid_onset_spec(onset@, allow_foreign),
{
    let lower = chars_to_lowercase(chars_of(onset).as_slice());
    if onset_listed(&lower) {
        return true;
    }
    if lower.len() > 0 && all_same_exec(&lower) {
        let first = lower[0];
        if first == 'd' || first == 'w' {
            return true;
        }
    }
    if allow_foreign {
        return foreign_listed(&lower);
    }
    false
}

/// Check if a coda is linguistically valid.
pub fn is_valid_coda(coda: &str, allow_foreign: bool) -> (r: bool)
    ensures
        r == valid_coda_spec(coda@, allow_foreign),
{
    let lower = chars_to_lowercase(chars_of(coda).as_slice());
    if coda_listed(&lower) {
        return true;
    }
    if allow_foreign {
        return foreign_listed(&lower);
    }
    false
}

fn is_word(v: &Vec<char>, w: &[char]) -> (r: bool)
    ensures
        r == (v@ == w@),
{
    crate::text::chars_eq(v.as_slice(), w)
}

/// Check if the combination of onset and vowel is spelt correctly.
pub fn is_valid_spelling(onset: &str, vowel: &str) -> (r: bool)
    ensures
        r == valid_spelling_spec(onset@, vowel@),
{
    let lo = chars_to_lowercase(chars_of(onset).as_slice());
    let lv = chars_to_lowercase(chars_of(vowel).as_slice());
    if lv.len() == 0 {
        return true;
    }
    let f = lv[0];
    let k = is_word(&lo, &['k']);
    let gh = is_word(&lo, &['g', 'h']);
    let ngh = is_word(&lo, &['n', 'g', 'h']);
    let c = is_word(&lo, &['c']);
    let g = is_word(&lo, &['g']);
    let ng = is_word(&lo, &['n', 'g']);
    let qu = is_word(&lo, &['q', 'u']);
    proof {
        assert(['k']@ =~= seq!['k']);
        assert(['g', 'h']@ =~= seq!['g', 'h']);
        assert(['n', 'g', 'h']@ =~= seq!['n', 'g', 'h']);
        assert(['c']@ =~= seq!['c']);
        assert(['g']@ =~= seq!['g']);
        assert(['n', 'g']@ =~= seq!['n', 'g']);
        assert(['q', 'u']@ =~= seq!['q', 'u']);
    }
    if k || gh || ngh {
        f == 'i' || f == 'e' || f == '\u{00EA}' || f == 'y'
    } else if c || g || ng {
        !(f == 'i' || f == 'e' || f == '\u{00EA}')
    } else if qu {
        f != 'u'
    } else {
        true
    }
}

/// The integrity score (0..=100) of a syllable: 5 for an invalid onset, 8 for
/// an invalid coda, 10 for a spelling mistake, 0 for an empty syllable, 50 for
/// an onset alone, 100 for a listed vowel cluster, 50 for a cluster that is
/// only valid while typing, 20 for a cluster of more than three letters, and
/// 2 otherwise.
pub open spec fn syllable_score(syl: SyllableView, allow_foreign: bool) -> u8 {
    if !valid_onset_spec(syl.onset, allow_foreign) {
        5
    } else if !valid_coda_spec(syl.coda, allow_foreign) {
        8
    } else if !valid_spelling_spec(syl.onset, syl.vowel) {
        10
    } else if syl.vowel.len() == 0 {
        if syl.onset.len() == 0 {
            0
        } else {
            50
        }
    } else {
        let lv = str_lowercase(syl.vowel);
        if is_vowel_cluster(lv) {
            100
        } else if is_intermediate_cluster(lv) {
            50
        } else if lv.len() > 3 {
            20
        } else {
            2
        }
    }
}

/// Detailed syllable integrity check, a score from 0 to 100.
pub fn validate_syllable(syl: &Syllable, allow_foreign: bool) -> (r: u8)
    ensures
        r == syllable_score(syl@, allow_foreign),
{
    if !is_valid_onset(syl.onset.as_str(), allow_foreign) {
        return 5;
    }
    if !is_valid_coda(syl.coda.as_str(), allow_foreign) {
        return 8;
    }
    if !is_valid_spelling(syl.onset.as_str(), syl.vowel.as_str()) {
        return 10;
    }
    if syl.vowel.as_str().is_empty() {
        if syl.onset.as_str().is_empty() {
            return 0;
        }
        return 50;
    }
    let lv = chars_to_lowercase(chars_of(syl.vowel.as_str()).as_slice());
    if vowel_cluster_listed(&lv) {
        return 100;
    }
    if intermediate_cluster_listed(&lv) {
        return 50;
    }
    if lv.len() > 3 {
        return 20;
    }
    2
}

/// Check if the syllable is linguistically perfect (score 100).
pub fn is_perfect(syl: &Syllable, allow_foreign: bool) -> (r: bool)
    ensures
        r == (syllable_score(syl@, allow_foreign) == 100),
{
    validate_syllable(syl, allow_foreign) == 100
}

/// The hard sounds k, g and ng are spelled two ways: k, gh and ngh before a
/// vowel starting with i, e or ê, and c, g and ng before one starting with a,
/// ă, â, o, ô, ơ, u or ư; exactly one spelling of each pair is correct there.
/// Before y only k, gh and ngh are correct ("kỹ", "kỳ").
pub proof fn law_onset_spelling_pairs(
    soft: Seq<char>,
    hard: Seq<char>,
    vowel: Seq<char>,
)
    requires
        (str_lowercase(soft) == seq!['c'] && str_lowercase(hard) == seq!['k'])
            || (str_lowercase(soft) == seq!['g'] && str_lowercase(hard) == seq!['g', 'h'])
            || (str_lowercase(soft) == seq!['n', 'g'] && str_lowercase(hard) == seq!['n', 'g', 'h']),
        str_lowercase(vowel).len() > 0,
    ensures
        ({
            let f = str_lowercase(vowel)[0];
            &&& (f == 'i' || f == 'e' || f == '\u{00EA}' || f == 'y') ==> valid_spelling_spec(
                hard,
                vowel,
            )
            &&& (f == 'i' || f == 'e' || f == '\u{00EA}') ==> !valid_spelling_spec(soft, vowel)
            &&& (f == 'a' || f == '\u{0103}' || f == '\u{00E2}' || f == 'o' || f == '\u{00F4}'
                || f == '\u{01A1}' || f == 'u' || f == '\u{01B0}') ==> valid_spelling_spec(
                soft,
                vowel,
            ) && !valid_spelling_spec(hard, vowel)
        }),
{
    let k = seq!['k'];
    let gh = seq!['g', 'h'];
    let ngh = seq!['n', 'g', 'h'];
    let c = seq!['c'];
    let g = seq!['g'];
    let ng = seq!['n', 'g'];
    let qu = seq!['q', 'u'];
    assert(c[0] != k[0] && g[0] != k[0] && ng[1] != gh[1] && ng.len() != ngh.len());
    assert(c != k && g != k && ng != gh && c != g && c != ng && g != ng);
    assert(c != qu && g != qu && ng[0] != qu[0] && ng != qu && k != qu && gh != qu && ngh != qu);
    assert(gh[0] != ng[0] && gh.len() != g.len() && gh.len() != c.len() && ngh.len() != c.len()
        && ngh.len() != g.len() && ngh.len() != ng.len() && k.len() != ng.len());
    assert(k != c && k != g && k != ng && gh != c && gh != g && gh != ng && ngh != c && ngh != g
        && ngh != ng);
}

/// A syllable whose onset is k, gh or ngh before a vowel starting with i, e,
/// ê or y is never scored as a spelling mistake.
pub proof fn law_front_vowel_spelling_not_flagged(syl: SyllableView, allow_foreign: bool)
    requires
        str_lowercase(syl.onset) == seq!['k'] || str_lowercase(syl.onset) == seq!['g', 'h']
            || str_lowercase(syl.onset) == seq!['n', 'g', 'h'],
        str_lowercase(syl.vowel).len() > 0,
        ({
            let f = str_lowercase(syl.vowel)[0];
            f == 'i' || f == 'e' || f == '\u{00EA}' || f == 'y'
        }),
    ensures
        valid_spelling_spec(syl.onset, syl.vowel),
        syllable_score(syl, allow_foreign) != 10,
{
}

} // verus!
