//! Character tables of the Vietnamese alphabet: vowels, modified vowels and
//! the tone-mark variants of each base vowel.
use vstd::prelude::*;

verus! {

/// Every Vietnamese vowel letter, in both cases: the six base vowels, the six
/// modified vowels, and each of them carrying one of the five tone marks.
pub open spec fn is_vowel_char(c: char) -> bool {
    match c {
        'a' | 'e' | 'i' | 'o' | 'u' | 'y' | 'A' | 'E' | 'I' | 'O' | 'U' | 'Y' | '\u{00E2}' | '\u{00EA}' | '\u{00F4}' | '\u{0103}' | '\u{01A1}' | '\u{01B0}' | '\u{00E1}' | '\u{00E0}' | '\u{1EA3}' | '\u{00E3}' | '\u{1EA1}' | '\u{1EA7}' | '\u{1EA5}' | '\u{1EA9}' | '\u{1EAB}' | '\u{1EAD}' | '\u{1EB1}' | '\u{1EAF}' | '\u{1EB3}' | '\u{1EB5}' | '\u{1EB7}' | '\u{00E9}' | '\u{00E8}' | '\u{1EBB}' | '\u{1EBD}' | '\u{1EB9}' | '\u{1EC1}' | '\u{1EBF}' | '\u{1EC3}' | '\u{1EC5}' | '\u{1EC7}' | '\u{00ED}' | '\u{00EC}' | '\u{1EC9}' | '\u{0129}' | '\u{1ECB}' | '\u{00F3}' | '\u{00F2}' | '\u{1ECF}' | '\u{00F5}' | '\u{1ECD}' | '\u{1ED3}' | '\u{1ED1}' | '\u{1ED5}' | '\u{1ED7}' | '\u{1ED9}' | '\u{1EDD}' | '\u{1EDB}' | '\u{1EDF}' | '\u{1EE1}' | '\u{1EE3}' | '\u{00FA}' | '\u{00F9}' | '\u{1EE7}' | '\u{0169}' | '\u{1EE5}' | '\u{1EEB}' | '\u{1EE9}' | '\u{1EED}' | '\u{1EEF}' | '\u{1EF1}' | '\u{1EF3}' | '\u{00FD}' | '\u{1EF7}' | '\u{1EF9}' | '\u{1EF5}' | '\u{00C1}' | '\u{00C0}' | '\u{1EA2}' | '\u{00C3}' | '\u{1EA0}' | '\u{00C2}' | '\u{1EA6}' | '\u{1EA4}' | '\u{1EA8}' | '\u{1EAA}' | '\u{1EAC}' | '\u{0102}' | '\u{1EB0}' | '\u{1EAE}' | '\u{1EB2}' | '\u{1EB4}' | '\u{1EB6}' | '\u{00C9}' | '\u{00C8}' | '\u{1EBA}' | '\u{1EBC}' | '\u{1EB8}' | '\u{00CA}' | '\u{1EC0}' | '\u{1EBE}' | '\u{1EC2}' | '\u{1EC4}' | '\u{1EC6}' | '\u{00CD}' | '\u{00CC}' | '\u{1EC8}' | '\u{0128}' | '\u{1ECA}' | '\u{00D3}' | '\u{00D2}' | '\u{1ECE}' | '\u{00D5}' | '\u{1ECC}' | '\u{00D4}' | '\u{1ED2}' | '\u{1ED0}' | '\u{1ED4}' | '\u{1ED6}' | '\u{1ED8}' | '\u{01A0}' | '\u{1EDC}' | '\u{1EDA}' | '\u{1EDE}' | '\u{1EE0}' | '\u{1EE2}' | '\u{00DA}' | '\u{00D9}' | '\u{1EE6}' | '\u{0168}' | '\u{1EE4}' | '\u{01AF}' | '\u{1EEA}' | '\u{1EE8}' | '\u{1EEC}' | '\u{1EEE}' | '\u{1EF0}' | '\u{1EF2}' | '\u{00DD}' | '\u{1EF6}' | '\u{1EF8}' | '\u{1EF4}' => true,
        _ => false,
    }
}

/// Vowels carrying a circumflex, breve or horn (both cases).
pub open spec fn is_modified_char(c: char) -> bool {
    match c {
        '\u{00E2}' | '\u{00EA}' | '\u{00F4}' | '\u{0103}' | '\u{01A1}' | '\u{01B0}' | '\u{00C2}' | '\u{00CA}' | '\u{00D4}' | '\u{0102}' | '\u{01A0}' | '\u{01AF}' => true,
        _ => false,
    }
}

/// Whether a base vowel has a row of tone-marked variants.
pub open spec fn has_tone_row(base: char) -> bool {
    match base {
        'a' | 'e' | 'i' | 'o' | 'u' | 'y' | '\u{00E2}' | '\u{00EA}' | '\u{00F4}' | '\u{0103}' | '\u{01A1}' | '\u{01B0}' => true,
        _ => false,
    }
}

/// The variant of `base` carrying tone `k + 1` (sắc, huyền, hỏi, ngã, nặng).
pub open spec fn tone_variant(base: char, k: int) -> char {
    match base {
        'a' => if k == 0 { '\u{00E1}' } else if k == 1 { '\u{00E0}' } else if k == 2 { '\u{1EA3}' } else if k == 3 { '\u{00E3}' } else { '\u{1EA1}' },
        'e' => if k == 0 { '\u{00E9}' } else if k == 1 { '\u{00E8}' } else if k == 2 { '\u{1EBB}' } else if k == 3 { '\u{1EBD}' } else { '\u{1EB9}' },
        'i' => if k == 0 { '\u{00ED}' } else if k == 1 { '\u{00EC}' } else if k == 2 { '\u{1EC9}' } else if k == 3 { '\u{0129}' } else { '\u{1ECB}' },
        'o' => if k == 0 { '\u{00F3}' } else if k == 1 { '\u{00F2}' } else if k == 2 { '\u{1ECF}' } else if k == 3 { '\u{00F5}' } else { '\u{1ECD}' },
        'u' => if k == 0 { '\u{00FA}' } else if k == 1 { '\u{00F9}' } else if k == 2 { '\u{1EE7}' } else if k == 3 { '\u{0169}' } else { '\u{1EE5}' },
        'y' => if k == 0 { '\u{00FD}' } else if k == 1 { '\u{1EF3}' } else if k == 2 { '\u{1EF7}' } else if k == 3 { '\u{1EF9}' } else { '\u{1EF5}' },
        '\u{00E2}' => if k == 0 { '\u{1EA5}' } else if k == 1 { '\u{1EA7}' } else if k == 2 { '\u{1EA9}' } else if k == 3 { '\u{1EAB}' } else { '\u{1EAD}' },
        '\u{00EA}' => if k == 0 { '\u{1EBF}' } else if k == 1 { '\u{1EC1}' } else if k == 2 { '\u{1EC3}' } else if k == 3 { '\u{1EC5}' } else { '\u{1EC7}' },
        '\u{00F4}' => if k == 0 { '\u{1ED1}' } else if k == 1 { '\u{1ED3}' } else if k == 2 { '\u{1ED5}' } else if k == 3 { '\u{1ED7}' } else { '\u{1ED9}' },
        '\u{0103}' => if k == 0 { '\u{1EAF}' } else if k == 1 { '\u{1EB1}' } else if k == 2 { '\u{1EB3}' } else if k == 3 { '\u{1EB5}' } else { '\u{1EB7}' },
        '\u{01A1}' => if k == 0 { '\u{1EDB}' } else if k == 1 { '\u{1EDD}' } else if k == 2 { '\u{1EDF}' } else if k == 3 { '\u{1EE1}' } else { '\u{1EE3}' },
        '\u{01B0}' => if k == 0 { '\u{1EE9}' } else if k == 1 { '\u{1EEB}' } else if k == 2 { '\u{1EED}' } else if k == 3 { '\u{1EEF}' } else { '\u{1EF1}' },
        _ => base,
    }
}

pub fn vowel_char(c: char) -> (r: bool)
    ensures
        r == is_vowel_char(c),
{
    match c {
        'a' | 'e' | 'i' | 'o' | 'u' | 'y' | 'A' | 'E' | 'I' | 'O' | 'U' | 'Y' | '\u{00E2}' | '\u{00EA}' | '\u{00F4}' | '\u{0103}' | '\u{01A1}' | '\u{01B0}' | '\u{00E1}' | '\u{00E0}' | '\u{1EA3}' | '\u{00E3}' | '\u{1EA1}' | '\u{1EA7}' | '\u{1EA5}' | '\u{1EA9}' | '\u{1EAB}' | '\u{1EAD}' | '\u{1EB1}' | '\u{1EAF}' | '\u{1EB3}' | '\u{1EB5}' | '\u{1EB7}' | '\u{00E9}' | '\u{00E8}' | '\u{1EBB}' | '\u{1EBD}' | '\u{1EB9}' | '\u{1EC1}' | '\u{1EBF}' | '\u{1EC3}' | '\u{1EC5}' | '\u{1EC7}' | '\u{00ED}' | '\u{00EC}' | '\u{1EC9}' | '\u{0129}' | '\u{1ECB}' | '\u{00F3}' | '\u{00F2}' | '\u{1ECF}' | '\u{00F5}' | '\u{1ECD}' | '\u{1ED3}' | '\u{1ED1}' | '\u{1ED5}' | '\u{1ED7}' | '\u{1ED9}' | '\u{1EDD}' | '\u{1EDB}' | '\u{1EDF}' | '\u{1EE1}' | '\u{1EE3}' | '\u{00FA}' | '\u{00F9}' | '\u{1EE7}' | '\u{0169}' | '\u{1EE5}' | '\u{1EEB}' | '\u{1EE9}' | '\u{1EED}' | '\u{1EEF}' | '\u{1EF1}' | '\u{1EF3}' | '\u{00FD}' | '\u{1EF7}' | '\u{1EF9}' | '\u{1EF5}' | '\u{00C1}' | '\u{00C0}' | '\u{1EA2}' | '\u{00C3}' | '\u{1EA0}' | '\u{00C2}' | '\u{1EA6}' | '\u{1EA4}' | '\u{1EA8}' | '\u{1EAA}' | '\u{1EAC}' | '\u{0102}' | '\u{1EB0}' | '\u{1EAE}' | '\u{1EB2}' | '\u{1EB4}' | '\u{1EB6}' | '\u{00C9}' | '\u{00C8}' | '\u{1EBA}' | '\u{1EBC}' | '\u{1EB8}' | '\u{00CA}' | '\u{1EC0}' | '\u{1EBE}' | '\u{1EC2}' | '\u{1EC4}' | '\u{1EC6}' | '\u{00CD}' | '\u{00CC}' | '\u{1EC8}' | '\u{0128}' | '\u{1ECA}' | '\u{00D3}' | '\u{00D2}' | '\u{1ECE}' | '\u{00D5}' | '\u{1ECC}' | '\u{00D4}' | '\u{1ED2}' | '\u{1ED0}' | '\u{1ED4}' | '\u{1ED6}' | '\u{1ED8}' | '\u{01A0}' | '\u{1EDC}' | '\u{1EDA}' | '\u{1EDE}' | '\u{1EE0}' | '\u{1EE2}' | '\u{00DA}' | '\u{00D9}' | '\u{1EE6}' | '\u{0168}' | '\u{1EE4}' | '\u{01AF}' | '\u{1EEA}' | '\u{1EE8}' | '\u{1EEC}' | '\u{1EEE}' | '\u{1EF0}' | '\u{1EF2}' | '\u{00DD}' | '\u{1EF6}' | '\u{1EF8}' | '\u{1EF4}' => true,
        _ => false,
    }
}

pub fn modified_char(c: char) -> (r: bool)
    ensures
        r == is_modified_char(c),
{
    match c {
        '\u{00E2}' | '\u{00EA}' | '\u{00F4}' | '\u{0103}' | '\u{01A1}' | '\u{01B0}' | '\u{00C2}' | '\u{00CA}' | '\u{00D4}' | '\u{0102}' | '\u{01A0}' | '\u{01AF}' => true,
        _ => false,
    }
}

/// Looks up the variant of `base` carrying tone `tone` (1..=5).
pub fn tone_lookup(base: char, tone: u8) -> (r: Option<char>)
    ensures
        r == (if has_tone_row(base) && 1 <= tone <= 5 {
            Some(tone_variant(base, tone - 1))
        } else {
            None
        }),
{
    if tone < 1 || tone > 5 {
        return None;
    }
    let k = tone - 1;
    match base {
        'a' => Some(if k == 0 { '\u{00E1}' } else if k == 1 { '\u{00E0}' } else if k == 2 { '\u{1EA3}' } else if k == 3 { '\u{00E3}' } else { '\u{1EA1}' }),
        'e' => Some(if k == 0 { '\u{00E9}' } else if k == 1 { '\u{00E8}' } else if k == 2 { '\u{1EBB}' } else if k == 3 { '\u{1EBD}' } else { '\u{1EB9}' }),
        'i' => Some(if k == 0 { '\u{00ED}' } else if k == 1 { '\u{00EC}' } else if k == 2 { '\u{1EC9}' } else if k == 3 { '\u{0129}' } else { '\u{1ECB}' }),
        'o' => Some(if k == 0 { '\u{00F3}' } else if k == 1 { '\u{00F2}' } else if k == 2 { '\u{1ECF}' } else if k == 3 { '\u{00F5}' } else { '\u{1ECD}' }),
        'u' => Some(if k == 0 { '\u{00FA}' } else if k == 1 { '\u{00F9}' } else if k == 2 { '\u{1EE7}' } else if k == 3 { '\u{0169}' } else { '\u{1EE5}' }),
        'y' => Some(if k == 0 { '\u{00FD}' } else if k == 1 { '\u{1EF3}' } else if k == 2 { '\u{1EF7}' } else if k == 3 { '\u{1EF9}' } else { '\u{1EF5}' }),
        '\u{00E2}' => Some(if k == 0 { '\u{1EA5}' } else if k == 1 { '\u{1EA7}' } else if k == 2 { '\u{1EA9}' } else if k == 3 { '\u{1EAB}' } else { '\u{1EAD}' }),
        '\u{00EA}' => Some(if k == 0 { '\u{1EBF}' } else if k == 1 { '\u{1EC1}' } else if k == 2 { '\u{1EC3}' } else if k == 3 { '\u{1EC5}' } else { '\u{1EC7}' }),
        '\u{00F4}' => Some(if k == 0 { '\u{1ED1}' } else if k == 1 { '\u{1ED3}' } else if k == 2 { '\u{1ED5}' } else if k == 3 { '\u{1ED7}' } else { '\u{1ED9}' }),
        '\u{0103}' => Some(if k == 0 { '\u{1EAF}' } else if k == 1 { '\u{1EB1}' } else if k == 2 { '\u{1EB3}' } else if k == 3 { '\u{1EB5}' } else { '\u{1EB7}' }),
        '\u{01A1}' => Some(if k == 0 { '\u{1EDB}' } else if k == 1 { '\u{1EDD}' } else if k == 2 { '\u{1EDF}' } else if k == 3 { '\u{1EE1}' } else { '\u{1EE3}' }),
        '\u{01B0}' => Some(if k == 0 { '\u{1EE9}' } else if k == 1 { '\u{1EEB}' } else if k == 2 { '\u{1EED}' } else if k == 3 { '\u{1EEF}' } else { '\u{1EF1}' }),
        _ => None,
    }
}

} // verus!
