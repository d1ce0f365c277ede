//! VIQR input: ' ` ? ~ . set the tone once a vowel was typed; ^ + ( after a
//! vowel and a doubled d give the modified letters.
use vstd::prelude::*;
use crate::syllable::{has_vowel_seq, is_vowel, lemma_has_vowel_empty, lemma_has_vowel_push};
use crate::text::{chars_of, one, replace_all, replace_chars, string_of, two};

verus! {

/// Tone of a VIQR key, or 0 for a key that is not a tone key.
pub open spec fn viqr_tone_key(c: char) -> u8 {
    if c == '\'' {
        1
    } else if c == '`' {
        2
    } else if c == '?' {
        3
    } else if c == '~' {
        4
    } else if c == '.' {
        5
    } else {
        0
    }
}

/// Letters and tone after reading a VIQR input.
pub open spec fn viqr_scan(input: Seq<char>) -> (Seq<char>, u8)
    decreases input.len(),
{
    if input.len() == 0 {
        (Seq::empty(), 0)
    } else {
        let (core, tone) = viqr_scan(input.drop_last());
        let c = input.last();
        if has_vowel_seq(core) && viqr_tone_key(c) != 0 {
            (core, viqr_tone_key(c))
        } else {
            (core.push(c), tone)
        }
    }
}

/// Extract the tone mark from a VIQR input string.
pub fn extract_tone(input: &str) -> (r: (String, u8))
    ensures
        (r.0@, r.1) == viqr_scan(input@),
{
    let cs = chars_of(input);
    let mut core: Vec<char> = Vec::new();
    let mut tone: u8 = 0;
    let mut has_vowel = false;
    let mut i: usize = 0;
    proof {
        lemma_has_vowel_empty();
    }
    while i < cs.len()
        invariant
            i <= cs.len(),
            (core@, tone) == viqr_scan(cs@.take(i as int)),
            has_vowel == has_vowel_seq(core@),
        decreases cs.len() - i,
    {
        let c = cs[i];
        assert(cs@.take(i as int + 1).drop_last() == cs@.take(i as int));
        let key: u8 = if c == '\'' {
            1
        } else if c == '`' {
            2
        } else if c == '?' {
            3
        } else if c == '~' {
            4
        } else if c == '.' {
            5
        } else {
            0
        };
        if has_vowel && key != 0 {
            tone = key;
        } else {
            proof {
                lemma_has_vowel_push(core@, c);
            }
            core.push(c);
            has_vowel = has_vowel || is_vowel(c);
        }
        i += 1;
    }
    assert(cs@.take(cs.len() as int) == cs@);
    (string_of(core.as_slice()), tone)
}

/// The result of `apply_modifiers`.
pub open spec fn viqr_modifiers_spec(s: Seq<char>) -> Seq<char> {
    let s1 = replace_all(s, seq!['a', '^'], seq!['\u{00E2}']);
    let s2 = replace_all(s1, seq!['e', '^'], seq!['\u{00EA}']);
    let s3 = replace_all(s2, seq!['o', '^'], seq!['\u{00F4}']);
    let s4 = replace_all(s3, seq!['o', '+'], seq!['\u{01A1}']);
    let s5 = replace_all(s4, seq!['u', '+'], seq!['\u{01B0}']);
    let s6 = replace_all(s5, seq!['a', '('], seq!['\u{0103}']);
    replace_all(s6, seq!['d', 'd'], seq!['\u{0111}'])
}

/// Apply VIQR modifier rules to a core string.
pub fn apply_modifiers(input: &str) -> (r: String)
    ensures
        r@ == viqr_modifiers_spec(input@),
{
    let s = chars_of(input);
    let s1 = replace_chars(&s, &two('a', '^'), &one('\u{00E2}'));
    let s2 = replace_chars(&s1, &two('e', '^'), &one('\u{00EA}'));
    let s3 = replace_chars(&s2, &two('o', '^'), &one('\u{00F4}'));
    let s4 = replace_chars(&s3, &two('o', '+'), &one('\u{01A1}'));
    let s5 = replace_chars(&s4, &two('u', '+'), &one('\u{01B0}'));
    let s6 = replace_chars(&s5, &two('a', '('), &one('\u{0103}'));
    let s7 = replace_chars(&s6, &two('d', 'd'), &one('\u{0111}'));
    string_of(s7.as_slice())
}

/// The last VIQR tone key typed after a vowel decides the tone, whatever
/// tone keys came before, and a tone key adds no letter: ' is sắc, ` huyền,
/// ? hỏi, ~ ngã and . nặng.
pub proof fn law_viqr_last_tone_key_wins(s: Seq<char>, k: char)
    requires
        has_vowel_seq(viqr_scan(s).0),
    ensures
        (k == '\'' || k == '`' || k == '?' || k == '~' || k == '.') ==> viqr_scan(s.push(k)).0
            == viqr_scan(s).0,
        k == '\'' ==> viqr_scan(s.push(k)).1 == 1,
        k == '`' ==> viqr_scan(s.push(k)).1 == 2,
        k == '?' ==> viqr_scan(s.push(k)).1 == 3,
        k == '~' ==> viqr_scan(s.push(k)).1 == 4,
        k == '.' ==> viqr_scan(s.push(k)).1 == 5,
{
    assert(s.push(k).drop_last() =~= s);
}

/// A key that is not a tone key, or any key before a vowel, is a letter: it
/// goes into the letters and leaves the tone alone.
pub proof fn law_viqr_other_keys_are_letters(s: Seq<char>, k: char)
    requires
        !has_vowel_seq(viqr_scan(s).0) || !(k == '\'' || k == '`' || k == '?' || k == '~' || k
            == '.'),
    ensures
        viqr_scan(s.push(k)) == (viqr_scan(s).0.push(k), viqr_scan(s).1),
{
    assert(s.push(k).drop_last() =~= s);
}

} // verus!
