//! VNI input: digits 1-5 set the tone and 0 clears it once a vowel was
//! typed; a6 e6 o6 d9 a8 o7 u7 give the modified letters.
use vstd::prelude::*;
use crate::syllable::{has_vowel_seq, is_vowel, lemma_has_vowel_empty, lemma_has_vowel_push};
use crate::text::{chars_of, one, replace_all, replace_chars, string_of, two};

verus! {

/// Letters and tone after reading a VNI input.
pub open spec fn vni_scan(input: Seq<char>) -> (Seq<char>, u8)
    decreases input.len(),
{
    if input.len() == 0 {
        (Seq::empty(), 0)
    } else {
        let (core, tone) = vni_scan(input.drop_last());
        let c = input.last();
        if has_vowel_seq(core) && '1' <= c <= '5' {
            (core, (c as u32 - '0' as u32) as u8)
        } else if has_vowel_seq(core) && c == '0' {
            (core, 0)
        } else {
            (core.push(c), tone)
        }
    }
}

/// Extract the tone mark from a VNI input string.
pub fn extract_tone(input: &str) -> (r: (String, u8))
    ensures
        (r.0@, r.1) == vni_scan(input@),
{
    let cs = chars_of(input);
    let mut core: Vec<char> = Vec::new();
    let mut tone: u8 = 0;
    let mut has_vowel = false;
    let mut i: usize = 0;
    proof {
        lemma_has_vowel_empty();
    }
    while i < cs.len()
        invariant
            i <= cs.len(),
            (core@, tone) == vni_scan(cs@.take(i as int)),
            has_vowel == has_vowel_seq(core@),
        decreases cs.len() - i,
    {
        let c = cs[i];
        assert(cs@.take(i as int + 1).drop_last() == cs@.take(i as int));
        if has_vowel && '1' <= c && c <= '5' {
            tone = (c as u32 - '0' as u32) as u8;
        } else if has_vowel && c == '0' {
            tone = 0;
        } else {
            proof {
                lemma_has_vowel_push(core@, c);
            }
            core.push(c);
            has_vowel = has_vowel || is_vowel(c);
        }
        i += 1;
    }
    assert(cs@.take(cs.len() as int) == cs@);
    (string_of(core.as_slice()), tone)
}

/// The result of `apply_modifiers`.
pub open spec fn vni_modifiers_spec(s: Seq<char>) -> Seq<char> {
    let s1 = replace_all(s, seq!['a', '6'], seq!['\u{00E2}']);
    let s2 = replace_all(s1, seq!['e', '6'], seq!['\u{00EA}']);
    let s3 = replace_all(s2, seq!['o', '6'], seq!['\u{00F4}']);
    let s4 = replace_all(s3, seq!['d', '9'], seq!['\u{0111}']);
    let s5 = replace_all(s4, seq!['a', '8'], seq!['\u{0103}']);
    let s6 = replace_all(s5, seq!['o', '7'], seq!['\u{01A1}']);
    replace_all(s6, seq!['u', '7'], seq!['\u{01B0}'])
}

/// Apply VNI modifier rules to a core string.
pub fn apply_modifiers(input: &str) -> (r: String)
    ensures
        r@ == vni_modifiers_spec(input@),
{
    let s = chars_of(input);
    let s1 = replace_chars(&s, &two('a', '6'), &one('\u{00E2}'));
    let s2 = replace_chars(&s1, &two('e', '6'), &one('\u{00EA}'));
    let s3 = replace_chars(&s2, &two('o', '6'), &one('\u{00F4}'));
    let s4 = replace_chars(&s3, &two('d', '9'), &one('\u{0111}'));
    let s5 = replace_chars(&s4, &two('a', '8'), &one('\u{0103}'));
    let s6 = replace_chars(&s5, &two('o', '7'), &one('\u{01A1}'));
    let s7 = replace_chars(&s6, &two('u', '7'), &one('\u{01B0}'));
    string_of(s7.as_slice())
}

/// The last tone digit typed after a vowel decides the tone, whatever tone
/// digits came before, and a tone digit adds no letter: one more digit d in
/// 1..=5 after an input whose letters hold a vowel leaves the letters as they
/// were and sets tone d; a 0 there clears the tone.
pub proof fn law_vni_last_tone_digit_wins(s: Seq<char>, d: char)
    requires
        has_vowel_seq(vni_scan(s).0),
    ensures
        ('1' <= d <= '5' || d == '0') ==> vni_scan(s.push(d)).0 == vni_scan(s).0,
        d == '1' ==> vni_scan(s.push(d)).1 == 1,
        d == '2' ==> vni_scan(s.push(d)).1 == 2,
        d == '3' ==> vni_scan(s.push(d)).1 == 3,
        d == '4' ==> vni_scan(s.push(d)).1 == 4,
        d == '5' ==> vni_scan(s.push(d)).1 == 5,
        d == '0' ==> vni_scan(s.push(d)).1 == 0,
{
    assert(s.push(d).drop_last() =~= s);
}

/// Before any vowel, digits are letters like any other key: they go into
/// the letters and leave the tone alone.
pub proof fn law_vni_digits_before_vowel_are_letters(s: Seq<char>, d: char)
    requires
        !has_vowel_seq(vni_scan(s).0),
    ensures
        vni_scan(s.push(d)) == (vni_scan(s).0.push(d), vni_scan(s).1),
{
    assert(s.push(d).drop_last() =~= s);
}

} // verus!
