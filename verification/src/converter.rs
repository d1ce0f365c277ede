//! Vietnamese text utilities: removing diacritics and detecting Vietnamese.
use vstd::prelude::*;
use crate::unicode_map::{has_tone_row, tone_variant};
use crate::text::{
    char_is_uppercase, chars_of, is_uppercase, lower1, lower_first,
    string_of, upper1, upper_first,
};

verus! {

/// Supported Vietnamese encodings, aligned with UniKey 4.6.
#[derive(Debug, Clone, Copy, PartialEq, Eq, Structural)]
pub enum VnEncoding {
    /// Unicode, the standard (NFC composed form)
    Unicode,
    /// TCVN3 (ABC), a legacy single-byte encoding
    Tcvn3,
    /// VNI Windows, a legacy encoding
    VniWindows,
    /// VIQR: diacritics as ASCII sequences
    Viqr,
    /// Vietnamese locale CP 1258
    VnLocaleCP1258,
    /// Decomposed Unicode (NFD)
    UnicodeComposite,
    /// UTF-8 literal
    Utf8Literal,
    /// NCR decimal (&#xxxx;)
    NcrDecimal,
    /// NCR hex (&#xHHHH;)
    NcrHex,
    /// Unicode C string (\\uHHHH)
    UnicodeCString,
}

impl Default for VnEncoding {
    fn default() -> (r: Self)
        ensures
            r == VnEncoding::Unicode,
    {
        VnEncoding::Unicode
    }
}

/// The base letter of a lowercase Vietnamese letter with diacritics.
pub open spec fn base_letter(c: char) -> Option<char> {
    match c {
        '\u{00E1}' | '\u{00E0}' | '\u{1EA3}' | '\u{00E3}' | '\u{1EA1}' | '\u{00E2}' | '\u{1EA7}' | '\u{1EA5}' | '\u{1EA9}' | '\u{1EAB}' | '\u{1EAD}' | '\u{0103}' | '\u{1EB1}' | '\u{1EAF}' | '\u{1EB3}' | '\u{1EB5}' | '\u{1EB7}' => Some('a'),
        '\u{00E9}' | '\u{00E8}' | '\u{1EBB}' | '\u{1EBD}' | '\u{1EB9}' | '\u{00EA}' | '\u{1EC1}' | '\u{1EBF}' | '\u{1EC3}' | '\u{1EC5}' | '\u{1EC7}' => Some('e'),
        '\u{00ED}' | '\u{00EC}' | '\u{1EC9}' | '\u{0129}' | '\u{1ECB}' => Some('i'),
        '\u{00F3}' | '\u{00F2}' | '\u{1ECF}' | '\u{00F5}' | '\u{1ECD}' | '\u{00F4}' | '\u{1ED3}' | '\u{1ED1}' | '\u{1ED5}' | '\u{1ED7}' | '\u{1ED9}' | '\u{01A1}' | '\u{1EDD}' | '\u{1EDB}' | '\u{1EDF}' | '\u{1EE1}' | '\u{1EE3}' => Some('o'),
        '\u{00FA}' | '\u{00F9}' | '\u{1EE7}' | '\u{0169}' | '\u{1EE5}' | '\u{01B0}' | '\u{1EEB}' | '\u{1EE9}' | '\u{1EED}' | '\u{1EEF}' | '\u{1EF1}' => Some('u'),
        '\u{00FD}' | '\u{1EF3}' | '\u{1EF7}' | '\u{1EF9}' | '\u{1EF5}' => Some('y'),
        '\u{0111}' => Some('d'),
        _ => None,
    }
}

fn base_letter_exec(c: char) -> (r: Option<char>)
    ensures
        r == base_letter(c),
{
    match c {
        '\u{00E1}' | '\u{00E0}' | '\u{1EA3}' | '\u{00E3}' | '\u{1EA1}' | '\u{00E2}' | '\u{1EA7}' | '\u{1EA5}' | '\u{1EA9}' | '\u{1EAB}' | '\u{1EAD}' | '\u{0103}' | '\u{1EB1}' | '\u{1EAF}' | '\u{1EB3}' | '\u{1EB5}' | '\u{1EB7}' => Some('a'),
        '\u{00E9}' | '\u{00E8}' | '\u{1EBB}' | '\u{1EBD}' | '\u{1EB9}' | '\u{00EA}' | '\u{1EC1}' | '\u{1EBF}' | '\u{1EC3}' | '\u{1EC5}' | '\u{1EC7}' => Some('e'),
        '\u{00ED}' | '\u{00EC}' | '\u{1EC9}' | '\u{0129}' | '\u{1ECB}' => Some('i'),
        '\u{00F3}' | '\u{00F2}' | '\u{1ECF}' | '\u{00F5}' | '\u{1ECD}' | '\u{00F4}' | '\u{1ED3}' | '\u{1ED1}' | '\u{1ED5}' | '\u{1ED7}' | '\u{1ED9}' | '\u{01A1}' | '\u{1EDD}' | '\u{1EDB}' | '\u{1EDF}' | '\u{1EE1}' | '\u{1EE3}' => Some('o'),
        '\u{00FA}' | '\u{00F9}' | '\u{1EE7}' | '\u{0169}' | '\u{1EE5}' | '\u{01B0}' | '\u{1EEB}' | '\u{1EE9}' | '\u{1EED}' | '\u{1EEF}' | '\u{1EF1}' => Some('u'),
        '\u{00FD}' | '\u{1EF3}' | '\u{1EF7}' | '\u{1EF9}' | '\u{1EF5}' => Some('y'),
        '\u{0111}' => Some('d'),
        _ => None,
    }
}

/// A lowercase Vietnamese letter carrying a diacritic (tone mark, modifier
/// or stroke).
pub open spec fn is_diacritic_letter(c: char) -> bool {
    match c {
        '\u{00E0}' | '\u{00E1}' | '\u{1EA3}' | '\u{00E3}' | '\u{1EA1}' | '\u{00E2}' | '\u{1EA7}' | '\u{1EA5}' | '\u{1EA9}' | '\u{1EAB}' | '\u{1EAD}' | '\u{0103}' | '\u{1EB1}' | '\u{1EAF}' | '\u{1EB3}' | '\u{1EB5}' | '\u{1EB7}' | '\u{00E8}' | '\u{00E9}' | '\u{1EBB}' | '\u{1EBD}' | '\u{1EB9}' | '\u{00EA}' | '\u{1EC1}' | '\u{1EBF}' | '\u{1EC3}' | '\u{1EC5}' | '\u{1EC7}' | '\u{00EC}' | '\u{00ED}' | '\u{1EC9}' | '\u{0129}' | '\u{1ECB}' | '\u{00F2}' | '\u{00F3}' | '\u{1ECF}' | '\u{00F5}' | '\u{1ECD}' | '\u{00F4}' | '\u{1ED3}' | '\u{1ED1}' | '\u{1ED5}' | '\u{1ED7}' | '\u{1ED9}' | '\u{01A1}' | '\u{1EDD}' | '\u{1EDB}' | '\u{1EDF}' | '\u{1EE1}' | '\u{1EE3}' | '\u{00F9}' | '\u{00FA}' | '\u{1EE7}' | '\u{0169}' | '\u{1EE5}' | '\u{01B0}' | '\u{1EEB}' | '\u{1EE9}' | '\u{1EED}' | '\u{1EEF}' | '\u{1EF1}' | '\u{1EF3}' | '\u{00FD}' | '\u{1EF7}' | '\u{1EF9}' | '\u{1EF5}' | '\u{0111}' => true,
        _ => false,
    }
}

fn is_diacritic_letter_exec(c: char) -> (r: bool)
    ensures
        r == is_diacritic_letter(c),
{
    match c {
        '\u{00E0}' | '\u{00E1}' | '\u{1EA3}' | '\u{00E3}' | '\u{1EA1}' | '\u{00E2}' | '\u{1EA7}' | '\u{1EA5}' | '\u{1EA9}' | '\u{1EAB}' | '\u{1EAD}' | '\u{0103}' | '\u{1EB1}' | '\u{1EAF}' | '\u{1EB3}' | '\u{1EB5}' | '\u{1EB7}' | '\u{00E8}' | '\u{00E9}' | '\u{1EBB}' | '\u{1EBD}' | '\u{1EB9}' | '\u{00EA}' | '\u{1EC1}' | '\u{1EBF}' | '\u{1EC3}' | '\u{1EC5}' | '\u{1EC7}' | '\u{00EC}' | '\u{00ED}' | '\u{1EC9}' | '\u{0129}' | '\u{1ECB}' | '\u{00F2}' | '\u{00F3}' | '\u{1ECF}' | '\u{00F5}' | '\u{1ECD}' | '\u{00F4}' | '\u{1ED3}' | '\u{1ED1}' | '\u{1ED5}' | '\u{1ED7}' | '\u{1ED9}' | '\u{01A1}' | '\u{1EDD}' | '\u{1EDB}' | '\u{1EDF}' | '\u{1EE1}' | '\u{1EE3}' | '\u{00F9}' | '\u{00FA}' | '\u{1EE7}' | '\u{0169}' | '\u{1EE5}' | '\u{01B0}' | '\u{1EEB}' | '\u{1EE9}' | '\u{1EED}' | '\u{1EEF}' | '\u{1EF1}' | '\u{1EF3}' | '\u{00FD}' | '\u{1EF7}' | '\u{1EF9}' | '\u{1EF5}' | '\u{0111}' => true,
        _ => false,
    }
}

/// A character without its diacritics, keeping its case.
pub open spec fn strip_char(c: char) -> char {
    match base_letter(lower1(c)) {
        Some(b) => if char_is_uppercase(c) {
            upper1(b)
        } else {
            b
        },
        None => c,
    }
}

/// Every character without its diacritics.
pub open spec fn stripped(s: Seq<char>) -> Seq<char> {
    s.map_values(|c: char| strip_char(c))
}

/// Remove all Vietnamese diacritics from a string ("Tiếng Việt" becomes
/// "Tieng Viet").
pub fn remove_diacritics(input: &str) -> (r: String)
    ensures
        r@ == stripped(input@),
{
    let cs = chars_of(input);
    let mut out: Vec<char> = Vec::new();
    let mut i: usize = 0;
    while i < cs.len()
        invariant
            i <= cs.len(),
            out@ == cs@.take(i as int).map_values(|c: char| strip_char(c)),
        decreases cs.len() - i,
    {
        let c = cs[i];
        let lc = lower_first(c);
        let d = match base_letter_exec(lc) {
            Some(b) => if is_uppercase(c) {
                upper_first(b)
            } else {
                b
            },
            None => c,
        };
        out.push(d);
        assert(cs@.take(i as int + 1).map_values(|c: char| strip_char(c)) =~= cs@.take(
            i as int,
        ).map_values(|c: char| strip_char(c)).push(strip_char(c)));
        i += 1;
    }
    assert(cs@.take(cs.len() as int) == cs@);
    string_of(out.as_slice())
}

/// Number of characters of `s` that are Vietnamese letters with diacritics
/// (in either case).
pub open spec fn vn_count(s: Seq<char>) -> nat
    decreases s.len(),
{
    if s.len() == 0 {
        0
    } else {
        vn_count(s.drop_last()) + if is_diacritic_letter(lower1(s.last())) {
            1nat
        } else {
            0nat
        }
    }
}

/// Detect whether a string contains Vietnamese diacritical characters.
pub fn is_vietnamese(input: &str) -> (r: bool)
    ensures
        r == (vn_count(input@) > 0),
{
    count_vietnamese_chars(input) > 0
}

/// Count the Vietnamese characters with diacritics in a string.
pub fn count_vietnamese_chars(input: &str) -> (r: usize)
    ensures
        r == vn_count(input@),
{
    let cs = chars_of(input);
    let mut n: usize = 0;
    let mut i: usize = 0;
    while i < cs.len()
        invariant
            i <= cs.len(),
            n == vn_count(cs@.take(i as int)),
            n <= i,
        decreases cs.len() - i,
    {
        assert(cs@.take(i as int + 1).drop_last() == cs@.take(i as int));
        if is_diacritic_letter_exec(lower_first(cs[i])) {
            n += 1;
        }
        i += 1;
    }
    assert(cs@.take(cs.len() as int) == cs@);
    n
}

proof fn lemma_vn_count_bound(s: Seq<char>)
    ensures
        vn_count(s) <= s.len(),
    decreases s.len(),
{
    if s.len() > 0 {
        lemma_vn_count_bound(s.drop_last());
    }
}

proof fn lemma_vn_count_zero(s: Seq<char>)
    requires
        forall|i: int| 0 <= i < s.len() ==> !is_diacritic_letter(lower1(#[trigger] s[i])),
    ensures
        vn_count(s) == 0,
    decreases s.len(),
{
    if s.len() > 0 {
        let t = s.drop_last();
        assert forall|i: int| 0 <= i < t.len() implies !is_diacritic_letter(
            lower1(#[trigger] t[i]),
        ) by {
            assert(t[i] == s[i]);
        }
        lemma_vn_count_zero(t);
        assert(!is_diacritic_letter(lower1(s[s.len() - 1])));
    }
}

proof fn lemma_vn_count_positive(s: Seq<char>, i: int)
    requires
        0 <= i < s.len(),
        is_diacritic_letter(lower1(s[i])),
    ensures
        vn_count(s) > 0,
    decreases s.len(),
{
    if i < s.len() - 1 {
        assert(s.drop_last()[i] == s[i]);
        lemma_vn_count_positive(s.drop_last(), i);
    }
}

/// Removing diacritics keeps the length and changes only the characters
/// whose lowercase is a Vietnamese letter with a diacritic; the count of such
/// letters is at most the length, and it is positive exactly when one occurs.
pub proof fn law_remove_diacritics_shape(s: Seq<char>)
    ensures
        stripped(s).len() == s.len(),
        forall|i: int|
            0 <= i < s.len() && !is_diacritic_letter(lower1(s[i])) ==> #[trigger] stripped(s)[i]
                == s[i],
        vn_count(s) <= s.len(),
        (vn_count(s) > 0) == (exists|i: int|
            0 <= i < s.len() && is_diacritic_letter(lower1(#[trigger] s[i]))),
{
    lemma_vn_count_bound(s);
    if exists|i: int| 0 <= i < s.len() && is_diacritic_letter(lower1(#[trigger] s[i])) {
        let i = choose|i: int| 0 <= i < s.len() && is_diacritic_letter(lower1(#[trigger] s[i]));
        lemma_vn_count_positive(s, i);
    } else {
        lemma_vn_count_zero(s);
    }
}

/// Removing diacritics leaves no Vietnamese letter, and removing them again
/// changes nothing.
pub proof fn law_remove_diacritics_complete(s: Seq<char>)
    ensures
        vn_count(stripped(s)) == 0,
        stripped(stripped(s)) == stripped(s),
{
    let t = stripped(s);
    assert forall|i: int| 0 <= i < t.len() implies !is_diacritic_letter(lower1(#[trigger] t[i]))
        && strip_char(t[i]) == t[i] by {
        let c = s[i];
        let lc = lower1(c);
        match base_letter(lc) {
            Some(b) => {
                assert((b as u32) < 0x80);
                assert(crate::text::char_lowercase(b) == seq![crate::text::ascii_lower(b)]);
                assert(crate::text::char_uppercase(b) == seq![crate::text::ascii_upper(b)]);
                let u = upper1(b);
                assert((u as u32) < 0x80);
                assert(crate::text::char_lowercase(u) == seq![crate::text::ascii_lower(u)]);
            },
            None => {
                assert(!is_diacritic_letter(lc));
            },
        }
    }
    lemma_vn_count_zero(t);
    assert(stripped(t) =~= t);
}

/// The plain Latin letter a vowel letter is written on: â and ă on a, ê on
/// e, ô and ơ on o, ư on u; a plain vowel on itself.
pub open spec fn written_on(b: char) -> char {
    if b == '\u{00E2}' || b == '\u{0103}' {
        'a'
    } else if b == '\u{00EA}' {
        'e'
    } else if b == '\u{00F4}' || b == '\u{01A1}' {
        'o'
    } else if b == '\u{01B0}' {
        'u'
    } else {
        b
    }
}

/// Every Vietnamese vowel letter, bare, modified or carrying any of the five
/// tone marks, loses its marks down to the Latin letter it is written on,
/// and đ becomes d.
pub proof fn law_base_letter_is_written_letter()
    ensures
        forall|b: char, k: int|
            has_tone_row(b) && 0 <= k < 5 ==> #[trigger] base_letter(tone_variant(b, k)) == Some(
                written_on(b),
            ),
        forall|b: char|
            has_tone_row(b) && written_on(b) != b ==> #[trigger] base_letter(b) == Some(
                written_on(b),
            ),
        base_letter('\u{0111}') == Some('d'),
{
    assert forall|b: char, k: int| has_tone_row(b) && 0 <= k < 5 implies #[trigger] base_letter(
        tone_variant(b, k),
    ) == Some(written_on(b)) by {
        if k == 0 {
        } else if k == 1 {
        } else if k == 2 {
        } else if k == 3 {
        } else {
        }
    }
}

/// Removing diacritics turns each letter whose lowercase is a marked
/// Vietnamese vowel into the Latin letter it is written on, in the case of
/// the original letter ("không" becomes "khong", "Ồ" becomes "O").
pub proof fn law_strip_gives_written_letter(s: Seq<char>, i: int, b: char, k: int)
    requires
        0 <= i < s.len(),
        has_tone_row(b),
        0 <= k < 5,
        lower1(s[i]) == tone_variant(b, k) || (lower1(s[i]) == b && written_on(b) != b),
    ensures
        !char_is_uppercase(s[i]) ==> stripped(s)[i] == written_on(b),
        char_is_uppercase(s[i]) ==> stripped(s)[i] == crate::text::ascii_upper(written_on(b)),
{
    law_base_letter_is_written_letter();
    assert(base_letter(tone_variant(b, k)) == Some(written_on(b)));
    assert(has_tone_row(b) && written_on(b) != b ==> base_letter(b) == Some(written_on(b)));
    assert((written_on(b) as u32) < 0x80);
}

} // verus!
