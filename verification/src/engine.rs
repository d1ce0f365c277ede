//! The input method engine: it receives key presses one by one and returns
//! the current word, transformed into Vietnamese.
use vstd::prelude::*;
use crate::config::{is_default_config, EngineConfig, TonePlacement};
use crate::dictionary::{lines_inserted, Dictionary};
use crate::phonology::{syllable_score, validate_syllable};
use crate::shorthand::{default_shorthands, map_of, pairs_view, ShorthandDict};
use crate::syllable::{empty_syllable, parse_spec, Syllable, SyllableView};
use crate::telex::{telex_ex_spec, telex_modifiers_spec, tone_scan};
use crate::text::{
    all_ascii, lemma_ascii_whitespace, char_is_lowercase, char_is_uppercase, char_is_whitespace, char_lowercase, char_uppercase,
    is_ascii_digit_spec, is_ascii_punct, lower1, str_lowercase, str_uppercase, upper1, utf8_len,
};
use crate::text::{
    char_to_lowercase, char_to_uppercase, chars_eq, chars_of, chars_to_lowercase,
    chars_to_uppercase, chars_vec, extend_chars, is_ascii_digit, is_ascii_punctuation,
    is_lowercase, is_uppercase, lower_first, one, push_str, str_to_lowercase, string_of,
    sub_chars, three, two, str_is_empty, byte_len, str_eq, copy_string, is_whitespace,
    string_of_char, upper_first,
};
use crate::tone::{place_tone_spec, place_tone_with_style};
use crate::viqr::{viqr_modifiers_spec, viqr_scan};
use crate::vni::{vni_modifiers_spec, vni_scan};

verus! {

/// Input method mode.
#[derive(Debug, Clone, Copy, PartialEq, Eq, Structural)]
pub enum InputMode {
    /// Standard Telex: aa=â, dd=đ, w=ư (Smart W), s/f/r/x/j for tones
    Telex,
    /// TelexEx: Like Telex but W does NOT produce Ư (w stays as w)
    TelexEx,
    /// VNI: Number keys for tones (1-5), number keys for modifiers
    Vni,
    /// VIQR: Punctuation marks for tones ('/`/?/~/.), ^/+/( for modifiers
    Viqr,
}

/// The input mode numbered as the platform layer numbers it: 0 Telex,
/// 1 VNI, 2 VIQR, 3 TelexEx; any other number is Telex.
pub open spec fn mode_of_code(code: u8) -> InputMode {
    if code == 1 {
        InputMode::Vni
    } else if code == 2 {
        InputMode::Viqr
    } else if code == 3 {
        InputMode::TelexEx
    } else {
        InputMode::Telex
    }
}

/// The input mode with the given number (see `mode_of_code`).
pub fn input_mode_from_code(code: u8) -> (r: InputMode)
    ensures
        r == mode_of_code(code),
{
    match code {
        0 => InputMode::Telex,
        1 => InputMode::Vni,
        2 => InputMode::Viqr,
        3 => InputMode::TelexEx,
        _ => InputMode::Telex,
    }
}

/// The abstract state of an engine.
#[verifier::ext_equal]
pub struct EngineModel {
    pub mode: InputMode,
    pub config: EngineConfig,
    /// Raw keys of the current word.
    pub buffer: Seq<char>,
    /// The current word decomposed.
    pub syl: SyllableView,
    /// Shorthand abbreviations and their expansions.
    pub macros: Map<Seq<char>, Seq<char>>,
    /// Case flags of the current word: for each byte of the raw keys,
    /// whether its key was uppercase.
    pub case_map: Seq<bool>,
    /// Progressive Z level.
    pub z_level: u8,
    pub pre_z_syllable: Option<SyllableView>,
    pub pre_z_buffer: Option<Seq<char>>,
    /// The last committed word with its separator.
    pub last_word: Seq<char>,
    /// The raw keys of the last committed word.
    pub last_buffer: Seq<char>,
    pub last_case_map: Seq<bool>,
    pub capitalize_next: bool,
    /// Literal mode: the current word is left as typed.
    pub literal_mode: bool,
    /// Known words.
    pub words: Set<Seq<char>>,
}

// ------------------------------------------------------------------
// The behaviour of the engine, as functions on its abstract state.
// ------------------------------------------------------------------

/// Each character cased by the flag at its position.
pub open spec fn case_zip(t: Seq<char>, cm: Seq<bool>) -> Seq<char>
    decreases t.len(),
{
    if t.len() == 0 {
        Seq::empty()
    } else {
        let i = t.len() - 1;
        case_zip(t.drop_last(), cm) + if cm[i] {
            char_uppercase(t[i])
        } else {
            char_lowercase(t[i])
        }
    }
}

pub open spec fn all_true(cm: Seq<bool>) -> bool {
    forall|i: int| 0 <= i < cm.len() ==> #[trigger] cm[i]
}

/// The casing of the typed keys applied to a text. With as many characters
/// as case flags, each character takes the case of its flag; otherwise all
/// flags set give uppercase, a leading set flag gives title case, and
/// anything else lowercase.
pub open spec fn apply_case_spec(cm: Seq<bool>, target: Seq<char>) -> Seq<char> {
    if cm.len() == 0 {
        target
    } else if target.len() == cm.len() {
        case_zip(target, cm)
    } else if all_true(cm) {
        str_uppercase(target)
    } else if cm[0] {
        if target.len() == 0 {
            target
        } else {
            char_uppercase(target[0]) + str_lowercase(target.skip(1))
        }
    } else {
        str_lowercase(target)
    }
}

pub open spec fn style_of(cfg: EngineConfig) -> TonePlacement {
    if cfg.modern_tone {
        TonePlacement::Modern
    } else {
        TonePlacement::Traditional
    }
}

/// Onset and vowel with the tone placed (unchanged when it cannot be).
pub open spec fn toned_core(syl: SyllableView, style: TonePlacement) -> Seq<char> {
    let core = syl.onset + syl.vowel;
    if syl.tone > 0 {
        match place_tone_spec(core, syl.tone, Some(style)) {
            Some(t) => t,
            None => core,
        }
    } else {
        core
    }
}

/// The displayed word.
pub open spec fn reconstruct_spec(m: EngineModel) -> Seq<char> {
    if m.literal_mode {
        apply_case_spec(m.case_map, m.buffer)
    } else {
        apply_case_spec(m.case_map, toned_core(m.syl, style_of(m.config)) + m.syl.coda)
    }
}

/// The word shown while the current one is still being typed.
pub open spec fn current_output(m: EngineModel) -> Seq<char> {
    if m.config.vietnamese_mode && !m.literal_mode {
        reconstruct_spec(m)
    } else {
        apply_case_spec(m.case_map, m.buffer)
    }
}

/// The syllable that the raw keys stand for in an input mode.
pub open spec fn parse_buffer_spec(mode: InputMode, buffer: Seq<char>) -> SyllableView {
    let input = str_lowercase(buffer);
    let (core, tone) = match mode {
        InputMode::Telex => (tone_scan(input).core, tone_scan(input).tone),
        InputMode::TelexEx => (tone_scan(input).core, tone_scan(input).tone),
        InputMode::Vni => vni_scan(input),
        InputMode::Viqr => viqr_scan(input),
    };
    let transformed = match mode {
        InputMode::Telex => telex_modifiers_spec(core),
        InputMode::TelexEx => telex_ex_spec(core),
        InputMode::Vni => vni_modifiers_spec(core),
        InputMode::Viqr => viqr_modifiers_spec(core),
    };
    parse_spec(transformed, tone)
}

/// Punctuation that is a modifier or tone key in the mode, not a word end.
pub open spec fn is_special_punct(mode: InputMode, key: char) -> bool {
    match mode {
        InputMode::Telex => key == '[' || key == ']',
        InputMode::TelexEx => key == '[' || key == ']',
        InputMode::Vni => is_ascii_digit_spec(key),
        InputMode::Viqr => key == '\'' || key == '^' || key == '`' || key == '?' || key == '~' || key
            == '.' || key == '+' || key == '(',
    }
}

/// Keys that end a word.
pub open spec fn is_separator(mode: InputMode, key: char) -> bool {
    char_is_whitespace(key) || (is_ascii_punct(key) && !is_special_punct(mode, key))
}

pub open spec fn shorthand_active(cfg: EngineConfig) -> bool {
    cfg.macro_enabled && (cfg.vietnamese_mode || cfg.shorthand_while_off)
}

/// Clears the current word.
pub open spec fn reset_soft_spec(m: EngineModel) -> EngineModel {
    EngineModel {
        buffer: Seq::empty(),
        syl: empty_syllable(),
        case_map: Seq::empty(),
        z_level: 0,
        pre_z_syllable: None,
        pre_z_buffer: None,
        literal_mode: false,
        capitalize_next: false,
        ..m
    }
}

/// Clears the current word and the committed history.
pub open spec fn reset_spec(m: EngineModel) -> EngineModel {
    EngineModel {
        last_word: Seq::empty(),
        last_buffer: Seq::empty(),
        last_case_map: Seq::empty(),
        ..reset_soft_spec(m)
    }
}

pub open spec fn reset_z_spec(m: EngineModel) -> EngineModel {
    EngineModel { z_level: 0, pre_z_syllable: None, pre_z_buffer: None, ..m }
}

pub open spec fn no_lowercase(s: Seq<char>) -> bool {
    forall|i: int| 0 <= i < s.len() ==> !char_is_lowercase(#[trigger] s[i])
}

/// The expansion of an abbreviation: an exact match, or else (with automatic
/// casing) the expansion of the lowercased abbreviation, uppercased when the
/// abbreviation has no lowercase letter, with a capital first letter when it
/// starts with one.
pub open spec fn expansion_of(m: EngineModel, part: Seq<char>) -> Option<Seq<char>> {
    if m.macros.contains_key(part) {
        Some(m.macros[part])
    } else if m.config.macro_auto_case && m.macros.contains_key(str_lowercase(part)) {
        let e = m.macros[str_lowercase(part)];
        let all_caps = no_lowercase(part);
        let title = part.len() > 0 && char_is_uppercase(part[0]) && !all_caps;
        if all_caps {
            Some(str_uppercase(e))
        } else if title {
            if e.len() > 0 {
                Some(char_uppercase(e[0]) + e.skip(1))
            } else {
                Some(e)
            }
        } else {
            Some(e)
        }
    } else {
        None
    }
}

/// Shorthand expansion after a trigger key (space or ASCII punctuation) at
/// the end of the raw keys: the expansion followed by the trigger replaces the
/// output and the word starts afresh.
pub open spec fn shorthand_spec(m: EngineModel, t: Seq<char>) -> (EngineModel, Seq<char>) {
    if m.buffer.len() == 0 {
        (m, t)
    } else {
        let last = m.buffer.last();
        let has_trigger = last == ' ' || is_ascii_punct(last);
        let part = m.buffer.drop_last();
        if !has_trigger || part.len() == 0 {
            (m, t)
        } else {
            match expansion_of(m, part) {
                Some(e) => (
                    reset_z_spec(
                        EngineModel { buffer: Seq::empty(), case_map: Seq::empty(), ..m },
                    ),
                    e.push(last),
                ),
                None => (m, t),
            }
        }
    }
}

/// Spelling corrections of the onset: c/k, g/gh and ng/ngh follow the vowel.
pub open spec fn spelling_fix_spec(m: EngineModel) -> EngineModel {
    if m.syl.vowel.len() == 0 {
        m
    } else {
        let f = lower1(m.syl.vowel[0]);
        let front = f == 'i' || f == 'e' || f == '\u{00EA}' || f == 'y';
        let o = str_lowercase(m.syl.onset);
        let new_onset: Option<Seq<char>> = if o == seq!['c'] && front {
            Some(seq!['k'])
        } else if o == seq!['g'] && (f == 'e' || f == '\u{00EA}') {
            Some(seq!['g', 'h'])
        } else if o == seq!['n', 'g'] && front {
            Some(seq!['n', 'g', 'h'])
        } else if o == seq!['k'] && !front {
            Some(seq!['c'])
        } else if o == seq!['g', 'h'] && !front {
            Some(seq!['g'])
        } else if o == seq!['n', 'g', 'h'] && !front {
            Some(seq!['n', 'g'])
        } else {
            None
        };
        match new_onset {
            Some(n) => EngineModel { syl: SyllableView { onset: n, ..m.syl }, ..m },
            None => m,
        }
    }
}

/// A tone key typed over a two-byte word that is not in the dictionary.
pub open spec fn short_english_collision(m: EngineModel) -> bool {
    let core = m.syl.onset + m.syl.vowel;
    let toned = if m.syl.tone > 0 {
        match place_tone_spec(core, m.syl.tone, Some(style_of(m.config))) {
            Some(t) => t,
            None => core,
        }
    } else {
        core
    };
    let transformed = str_lowercase(toned + m.syl.coda);
    let last = m.buffer.last();
    !m.words.contains(str_lowercase(transformed)) && (last == 's' || last == 'f' || last == 'r'
        || last == 'x' || last == 'j' || last == 'S' || last == 'F' || last == 'R' || last == 'X'
        || last == 'J')
}

/// Whether the word turns to literal mode: an onset or coda of more than
/// five letters, more than 30 bytes of keys, a score of at most 8 beyond 10
/// bytes, or (with spell checking) a toned two-byte word that is not known
/// and ends with a tone key.
pub open spec fn literal_trigger(m: EngineModel) -> bool {
    let score = syllable_score(m.syl, m.config.allow_foreign_consonants);
    let n = utf8_len(m.buffer);
    m.syl.onset.len() > 5 || m.syl.coda.len() > 5 || n > 30 || (score <= 8 && n > 10) || (
    m.config.spell_check && n == 2 && m.syl.tone != 0 && short_english_collision(m))
}

pub open spec fn literal_check_spec(m: EngineModel) -> EngineModel {
    if !m.config.smart_literal_mode || m.buffer.len() == 0 || m.literal_mode {
        m
    } else if literal_trigger(m) {
        EngineModel { literal_mode: true, ..m }
    } else {
        m
    }
}

/// The letter without its circumflex, breve, horn or stroke.
pub open spec fn demod_char(c: char) -> char {
    if c == '\u{00E2}' || c == '\u{0103}' {
        'a'
    } else if c == '\u{00EA}' {
        'e'
    } else if c == '\u{00F4}' || c == '\u{01A1}' {
        'o'
    } else if c == '\u{01B0}' {
        'u'
    } else if c == '\u{0111}' {
        'd'
    } else {
        c
    }
}

pub open spec fn demod(s: Seq<char>) -> Seq<char> {
    s.map_values(|c: char| demod_char(c))
}

/// Number of UTF-8 bytes of a character.
pub open spec fn char_bytes(c: char) -> nat {
    vstd::utf8::encode_utf8(seq![c]).len()
}

/// The case flags of one key: one flag per UTF-8 byte of the key, telling
/// whether the key is uppercase.
pub open spec fn key_flags(c: char) -> Seq<bool> {
    Seq::new(char_bytes(c), |_i: int| char_is_uppercase(c))
}

/// The case flags after a backspace: the flags of the removed key go.
pub open spec fn drop_flags(cm: Seq<bool>, n: nat) -> Seq<bool> {
    if cm.len() >= n {
        cm.take(cm.len() - n)
    } else {
        Seq::empty()
    }
}

/// Case flags of a displayed word whose lowercase letters become the raw
/// keys: for each character, one flag per byte of its lowercase letter.
pub open spec fn sync_flags(r: Seq<char>) -> Seq<bool>
    decreases r.len(),
{
    if r.len() == 0 {
        Seq::empty()
    } else {
        sync_flags(r.drop_last()) + Seq::new(
            char_bytes(lower1(r.last())),
            |_i: int| char_is_uppercase(r.last()),
        )
    }
}

/// Raw keys and case flags synchronised from the displayed word: the raw
/// keys are its letters in lowercase, and each carries one flag per byte
/// telling whether the displayed letter is uppercase.
pub open spec fn sync_spec(m: EngineModel) -> (EngineModel, Seq<char>) {
    let r = reconstruct_spec(m);
    (
        EngineModel {
            buffer: r.map_values(|c: char| lower1(c)),
            case_map: sync_flags(r),
            ..m
        },
        r,
    )
}

/// Level 2 and above: a literal z.
pub open spec fn z_level2_spec(m: EngineModel) -> (EngineModel, Seq<char>) {
    let m1 = EngineModel {
        buffer: m.buffer.push('z'),
        case_map: m.case_map.push(false),
        z_level: 0,
        syl: SyllableView { coda: m.syl.coda.push('z'), ..m.syl },
        ..m
    };
    (m1, reconstruct_spec(m1))
}

/// Level 1: remove the modifiers (or go on to level 2 when there are none).
pub open spec fn z_level1_spec(m: EngineModel) -> (EngineModel, Seq<char>) {
    let o = demod(m.syl.onset);
    let v = demod(m.syl.vowel);
    let c = demod(m.syl.coda);
    if o == m.syl.onset && v == m.syl.vowel && c == m.syl.coda {
        z_level2_spec(EngineModel { z_level: 2, ..m })
    } else {
        sync_spec(
            EngineModel {
                syl: SyllableView { onset: o, vowel: v, coda: c, ..m.syl },
                z_level: 2,
                ..m
            },
        )
    }
}

/// Progressive Z: remove the tone, then the modifiers, then type a literal z.
pub open spec fn progressive_z_spec(m: EngineModel) -> (EngineModel, Seq<char>) {
    if m.z_level == 0 {
        if m.syl.tone == 0 {
            z_level1_spec(EngineModel { z_level: 1, ..m })
        } else {
            sync_spec(
                EngineModel {
                    pre_z_syllable: Some(m.syl),
                    pre_z_buffer: Some(m.buffer),
                    syl: SyllableView { tone: 0, ..m.syl },
                    z_level: 1,
                    ..m
                },
            )
        }
    } else if m.z_level == 1 {
        z_level1_spec(m)
    } else {
        z_level2_spec(m)
    }
}

/// A key that ends the word.
pub open spec fn separator_spec(m: EngineModel, key: char) -> (EngineModel, Seq<char>) {
    let t = current_output(m);
    let m1 = EngineModel {
        buffer: m.buffer.push(key),
        case_map: m.case_map + key_flags(key),
        ..m
    };
    let (m2, t2) = if shorthand_active(m.config) {
        shorthand_spec(m1, t)
    } else {
        (m1, t)
    };
    if shorthand_active(m.config) && m2.buffer.len() == 0 {
        (m2, t2)
    } else {
        let m3 = EngineModel {
            last_word: t2.push(key),
            last_buffer: m.buffer,
            last_case_map: m.case_map,
            ..m2
        };
        let m4 = if m.config.auto_capitalize_sentence && (key == '.' || key == '!' || key == '?') {
            EngineModel { capitalize_next: true, ..m3 }
        } else {
            m3
        };
        (reset_soft_spec(m4), t2.push(key))
    }
}

/// A letter (or other key that continues the word) once literal mode is left.
pub open spec fn letter_spec(m: EngineModel, key: char) -> (EngineModel, Seq<char>) {
    let cap = m.capitalize_next && m.buffer.len() == 0 && char_is_lowercase(key);
    let k = if cap {
        upper1(key)
    } else {
        key
    };
    let m1 = EngineModel {
        capitalize_next: if cap || m.buffer.len() != 0 {
            false
        } else {
            m.capitalize_next
        },
        case_map: m.case_map + key_flags(k),
        buffer: m.buffer.push(k),
        ..m
    };
    if m.config.vietnamese_mode {
        let m2 = EngineModel { syl: parse_buffer_spec(m1.mode, m1.buffer), ..m1 };
        let m3 = literal_check_spec(m2);
        if m3.literal_mode {
            (m3, apply_case_spec(m3.case_map, m3.buffer))
        } else {
            let score = syllable_score(m3.syl, m3.config.allow_foreign_consonants);
            let m4 = if m3.config.spell_check {
                spelling_fix_spec(m3)
            } else {
                m3
            };
            let t = reconstruct_spec(m4);
            let (m5, t2) = if shorthand_active(m4.config) {
                shorthand_spec(m4, t)
            } else {
                (m4, t)
            };
            if m5.config.spell_check && m5.config.auto_restore && !m5.words.contains(
                str_lowercase(t2),
            ) && score < 10 && utf8_len(m5.buffer) > 1 {
                (m5, apply_case_spec(m5.case_map, m5.buffer))
            } else {
                (m5, t2)
            }
        }
    } else {
        if shorthand_active(m1.config) {
            shorthand_spec(m1, m1.buffer)
        } else {
            (m1, m1.buffer)
        }
    }
}

/// One key press: the new state and the current word to display.
pub open spec fn process_key_spec(m: EngineModel, key: char) -> (EngineModel, Seq<char>) {
    if utf8_len(m.buffer) >= 50 {
        (reset_spec(m), seq![key])
    } else if is_separator(m.mode, key) {
        separator_spec(m, key)
    } else if m.config.vietnamese_mode && (m.mode == InputMode::Telex || m.mode
        == InputMode::TelexEx) && key == 'z' && m.buffer.len() > 0 && m.syl.vowel.len() > 0 {
        progressive_z_spec(m)
    } else {
        let m1 = reset_z_spec(m);
        if m1.literal_mode && !(char_is_uppercase(key) && utf8_len(m1.buffer) > 1) {
            let m2 = EngineModel {
                buffer: m1.buffer.push(key),
                case_map: m1.case_map + key_flags(key),
                ..m1
            };
            (m2, apply_case_spec(m2.case_map, m2.buffer))
        } else if m1.literal_mode {
            letter_spec(reset_soft_spec(m1), key)
        } else {
            letter_spec(m1, key)
        }
    }
}

/// Backspace: the new state and whether the engine handled it.
pub open spec fn backspace_spec(m: EngineModel) -> (EngineModel, bool) {
    if m.buffer.len() > 0 {
        let m1 = reset_z_spec(
            EngineModel {
                buffer: m.buffer.drop_last(),
                case_map: drop_flags(m.case_map, char_bytes(m.buffer.last())),
                ..m
            },
        );
        let m2 = if m1.buffer.len() == 0 {
            EngineModel { last_word: Seq::empty(), ..m1 }
        } else {
            m1
        };
        let m3 = if m2.config.vietnamese_mode && !m2.literal_mode {
            EngineModel { syl: parse_buffer_spec(m2.mode, m2.buffer), ..m2 }
        } else {
            m2
        };
        (m3, true)
    } else if m.config.backspace_restore && m.last_word.len() > 0 {
        let last = m.last_word;
        let m1 = EngineModel { last_word: Seq::empty(), ..m };
        if (last.last() == ' ' || is_ascii_punct(last.last())) && m.last_buffer.len() > 0 {
            let m2 = EngineModel {
                buffer: m.last_buffer,
                case_map: m.last_case_map,
                last_buffer: Seq::empty(),
                last_case_map: Seq::empty(),
                ..m1
            };
            let m3 = if m2.config.vietnamese_mode {
                EngineModel { syl: parse_buffer_spec(m2.mode, m2.buffer), ..m2 }
            } else {
                m2
            };
            (m3, true)
        } else {
            (m1, false)
        }
    } else {
        (m, false)
    }
}

/// Feeding a whole string after a reset: the state after the keys, and the
/// output of the last key (empty for an empty string).
pub open spec fn feed_spec(m: EngineModel, input: Seq<char>) -> (EngineModel, Seq<char>)
    decreases input.len(),
{
    if input.len() == 0 {
        (reset_spec(m), Seq::empty())
    } else {
        let (m1, _) = feed_spec(m, input.drop_last());
        process_key_spec(m1, input.last())
    }
}

// ------------------------------------------------------------------
// Laws of the engine.
// ------------------------------------------------------------------

/// After a reset the current word and its case flags are empty, nothing is
/// shown for it, the mode and configuration are kept, and a backspace is
/// left to the caller (no committed word remains to restore).
pub proof fn law_reset_clears_word(m: EngineModel)
    ensures
        reset_spec(m).buffer.len() == 0,
        reset_spec(m).case_map.len() == 0,
        reset_spec(m).z_level == 0,
        reset_spec(m).mode == m.mode,
        reset_spec(m).config == m.config,
        current_output(reset_spec(m)) == Seq::<char>::empty(),
        !backspace_spec(reset_spec(m)).1,
{
    let r = reset_spec(m);
    assert(r.syl.onset + r.syl.vowel =~= Seq::<char>::empty());
    assert(toned_core(r.syl, style_of(r.config)) + r.syl.coda =~= Seq::<char>::empty());
}

/// A key that ends a word always leaves an empty current word; without
/// shorthand expansion the output is the word as shown, followed by the key.
pub proof fn law_separator_ends_word(m: EngineModel, key: char)
    requires
        is_separator(m.mode, key),
    ensures
        process_key_spec(m, key).0.buffer.len() == 0,
        utf8_len(m.buffer) < 50 && !shorthand_active(m.config) ==> process_key_spec(m, key).1
            == current_output(m).push(key),
{
}

/// Backspace right after a word was ended by a space or an ASCII punctuation
/// key brings the word's raw keys back for editing, without the ending key,
/// when restoring is on and no shorthand was expanded.
pub proof fn law_backspace_restores_word(m: EngineModel, key: char)
    requires
        utf8_len(m.buffer) < 50,
        m.buffer.len() > 0,
        is_separator(m.mode, key),
        key == ' ' || is_ascii_punct(key),
        !shorthand_active(m.config),
        m.config.backspace_restore,
    ensures
        backspace_spec(process_key_spec(m, key).0).1,
        backspace_spec(process_key_spec(m, key).0).0.buffer == m.buffer,
        backspace_spec(process_key_spec(m, key).0).0.case_map == m.case_map,
{
    let (m1, out) = process_key_spec(m, key);
    assert(m1.last_word == out);
    assert(out.last() == key);
    assert(m1.last_buffer == m.buffer);
}

/// One case flag per UTF-8 byte of the raw keys, for the current word and
/// for the last committed one.
pub open spec fn keys_in_step(m: EngineModel) -> bool {
    &&& vstd::utf8::encode_utf8(m.buffer).len() == m.case_map.len()
    &&& vstd::utf8::encode_utf8(m.last_buffer).len() == m.last_case_map.len()
}

proof fn lemma_encode_append(a: Seq<char>, b: Seq<char>)
    ensures
        vstd::utf8::encode_utf8(a + b) == vstd::utf8::encode_utf8(a) + vstd::utf8::encode_utf8(b),
    decreases a.len(),
{
    if a.len() == 0 {
        assert(a + b =~= b);
        assert(vstd::utf8::encode_utf8(a) =~= Seq::<u8>::empty());
        assert(Seq::<u8>::empty() + vstd::utf8::encode_utf8(b) =~= vstd::utf8::encode_utf8(b));
    } else {
        lemma_encode_append(a.drop_first(), b);
        assert((a + b).drop_first() =~= a.drop_first() + b);
        assert((a + b)[0] == a[0]);
        let e0 = vstd::utf8::encode_scalar(a[0] as u32);
        assert(e0 + (vstd::utf8::encode_utf8(a.drop_first()) + vstd::utf8::encode_utf8(b)) =~= (e0
            + vstd::utf8::encode_utf8(a.drop_first())) + vstd::utf8::encode_utf8(b));
    }
}

proof fn lemma_bytes_push(s: Seq<char>, c: char)
    ensures
        vstd::utf8::encode_utf8(s.push(c)).len() == vstd::utf8::encode_utf8(s).len() + char_bytes(c),
{
    assert(s.push(c) =~= s + seq![c]);
    lemma_encode_append(s, seq![c]);
}

/// The byte count of a character, by the range of its code point.
pub proof fn lemma_char_bytes(c: char)
    ensures
        char_bytes(c) == (if (c as u32) < 0x80 {
            1nat
        } else if (c as u32) < 0x800 {
            2nat
        } else if (c as u32) < 0x10000 {
            3nat
        } else {
            4nat
        }),
{
    vstd::utf8::char_is_scalar(c);
    assert(seq![c].drop_first() =~= Seq::<char>::empty());
    assert(seq![c][0] == c);
    assert(vstd::utf8::encode_utf8(Seq::<char>::empty()) =~= Seq::<u8>::empty());
}

proof fn lemma_sync_bytes(r: Seq<char>)
    ensures
        vstd::utf8::encode_utf8(r.map_values(|c: char| lower1(c))).len() == sync_flags(r).len(),
    decreases r.len(),
{
    if r.len() > 0 {
        let p = r.drop_last();
        lemma_sync_bytes(p);
        assert(r.map_values(|c: char| lower1(c)) =~= p.map_values(|c: char| lower1(c)).push(
            lower1(r.last()),
        ));
        lemma_bytes_push(p.map_values(|c: char| lower1(c)), lower1(r.last()));
    } else {
        assert(r.map_values(|c: char| lower1(c)) =~= Seq::<char>::empty());
    }
}

proof fn lemma_shorthand_in_step(m: EngineModel, t: Seq<char>)
    requires
        keys_in_step(m),
    ensures
        keys_in_step(shorthand_spec(m, t).0),
{
}

proof fn lemma_letter_in_step(m: EngineModel, key: char)
    requires
        keys_in_step(m),
    ensures
        keys_in_step(letter_spec(m, key).0),
{
    let cap = m.capitalize_next && m.buffer.len() == 0 && char_is_lowercase(key);
    let k = if cap {
        upper1(key)
    } else {
        key
    };
    let m1 = EngineModel {
        capitalize_next: if cap || m.buffer.len() != 0 {
            false
        } else {
            m.capitalize_next
        },
        case_map: m.case_map + key_flags(k),
        buffer: m.buffer.push(k),
        ..m
    };
    lemma_bytes_push(m.buffer, k);
    assert(keys_in_step(m1));
    if m.config.vietnamese_mode {
        let m2 = EngineModel { syl: parse_buffer_spec(m1.mode, m1.buffer), ..m1 };
        let m3 = literal_check_spec(m2);
        let m4 = if m3.config.spell_check {
            spelling_fix_spec(m3)
        } else {
            m3
        };
        assert(keys_in_step(m4));
        lemma_shorthand_in_step(m4, reconstruct_spec(m4));
    } else {
        lemma_shorthand_in_step(m1, m1.buffer);
    }
}

/// Every key press, every backspace and a reset keep one case flag per byte
/// of the raw keys, so that the byte length of the keys is the number of case
/// flags; a key that ends the word leaves the raw keys empty.
pub proof fn law_keys_in_step(m: EngineModel, key: char)
    requires
        keys_in_step(m),
    ensures
        keys_in_step(process_key_spec(m, key).0),
        is_separator(m.mode, key) ==> process_key_spec(m, key).0.buffer.len() == 0,
        keys_in_step(backspace_spec(m).0),
        keys_in_step(reset_spec(m)),
{
    assert(vstd::utf8::encode_utf8(Seq::<char>::empty()) =~= Seq::<u8>::empty());
    if m.buffer.len() > 0 {
        assert(m.buffer =~= m.buffer.drop_last().push(m.buffer.last()));
        lemma_bytes_push(m.buffer.drop_last(), m.buffer.last());
    }
    if utf8_len(m.buffer) >= 50 {
    } else if is_separator(m.mode, key) {
        let m1 = EngineModel {
            buffer: m.buffer.push(key),
            case_map: m.case_map + key_flags(key),
            ..m
        };
        lemma_bytes_push(m.buffer, key);
        lemma_shorthand_in_step(m1, current_output(m));
    } else if m.config.vietnamese_mode && (m.mode == InputMode::Telex || m.mode
        == InputMode::TelexEx) && key == 'z' && m.buffer.len() > 0 && m.syl.vowel.len() > 0 {
        lemma_bytes_push(m.buffer, 'z');
        lemma_char_bytes('z');
        lemma_sync_bytes(reconstruct_spec(m));
        let m1 = EngineModel { syl: SyllableView { tone: 0, ..m.syl }, ..m };
        lemma_sync_bytes(reconstruct_spec(m1));
        let o = demod(m.syl.onset);
        let v = demod(m.syl.vowel);
        let c = demod(m.syl.coda);
        let m2 = EngineModel { syl: SyllableView { onset: o, vowel: v, coda: c, ..m.syl }, ..m };
        lemma_sync_bytes(reconstruct_spec(m2));
    } else {
        let m1 = reset_z_spec(m);
        if m1.literal_mode && !(char_is_uppercase(key) && utf8_len(m1.buffer) > 1) {
            lemma_bytes_push(m1.buffer, key);
        } else if m1.literal_mode {
            lemma_letter_in_step(reset_soft_spec(m1), key);
        } else {
            lemma_letter_in_step(m1, key);
        }
    }
}

proof fn lemma_ascii_utf8_len(s: Seq<char>)
    requires
        all_ascii(s),
    ensures
        vstd::utf8::encode_utf8(s).len() == s.len(),
    decreases s.len(),
{
    if s.len() > 0 {
        let t = s.drop_first();
        assert forall|i: int| 0 <= i < t.len() implies (#[trigger] t[i] as u32) < 0x80 by {
            assert(t[i] == s[i + 1]);
        }
        lemma_ascii_utf8_len(t);
        assert((s[0] as u32) < 0x80);
    }
}

proof fn lemma_single_a(mode: InputMode)
    ensures
        parse_buffer_spec(mode, seq!['a']) == (SyllableView {
            onset: Seq::empty(),
            vowel: seq!['a'],
            coda: Seq::empty(),
            tone: 0,
        }),
{
    let a = seq!['a'];
    assert(all_ascii(a));
    assert(str_lowercase(a) == a.map_values(|c: char| crate::text::ascii_lower(c)));
    assert(str_lowercase(a) =~= a);
    assert(a.drop_last() =~= Seq::<char>::empty());
    let sc = tone_scan(a);
    assert(a.drop_last() == Seq::<char>::empty());
    assert(tone_scan(a.drop_last()).core =~= Seq::<char>::empty());
    assert(a.last() == 'a');
    crate::syllable::lemma_has_vowel_empty();
    assert(!crate::syllable::has_vowel_seq(tone_scan(a.drop_last()).core));
    assert(sc.core =~= a);
    assert(sc.tone == 0);
    crate::telex::lemma_run_end(a, 0, 'a');
    assert(crate::telex::run_end(a, 1, 'a') == 1);
    assert(crate::telex::run_end(a, 0, 'a') == 1);
    assert(crate::telex::run_piece('a', 1) =~= a);
    let r = crate::telex::runs_from(a, 0);
    assert(crate::telex::runs_from(a, 1) =~= Seq::<char>::empty());
    assert(r =~= a);
    assert(crate::telex::resolve_w(a, 1, a) == a);
    assert(Seq::<char>::empty().push('a') =~= a);
    assert(crate::telex::resolve_w(a, 0, Seq::empty()) == a);
    assert(telex_modifiers_spec(a) == a);
    assert(crate::telex::w_rules(a) == a);
    assert(telex_ex_spec(a) == a);
    assert(vni_scan(a.drop_last()) == (Seq::<char>::empty(), 0u8));
    assert(vni_scan(a) == (a, 0u8));
    assert(vni_modifiers_spec(a) == a);
    assert(viqr_scan(a.drop_last()) == (Seq::<char>::empty(), 0u8));
    assert(viqr_scan(a) == (a, 0u8));
    assert(viqr_modifiers_spec(a) == a);
    assert(crate::syllable::first_vowel_from(a, 0) == 0);
    assert(crate::syllable::last_vowel_before(a, 1) == 0);
    let e = Seq::<char>::empty();
    assert(all_ascii(e));
    assert(str_lowercase(e) == e.map_values(|c: char| crate::text::ascii_lower(c)));
    assert(a.take(0) =~= e);
    assert(str_lowercase(a.take(0)) =~= e);
    assert(a.subrange(0, 1) =~= a);
    assert(a.skip(1) =~= e);
}

/// After a reset, typing the letter a shows "a", in every input mode.
pub proof fn law_a_after_reset(m: EngineModel)
    ensures
        process_key_spec(reset_spec(m), 'a').1 == seq!['a'],
        process_key_spec(reset_spec(m), 'a').0.buffer == seq!['a'],
{
    let m0 = reset_spec(m);
    let a = seq!['a'];
    lemma_ascii_whitespace('a');
    assert(utf8_len(Seq::<char>::empty()) == 0);
    assert(!is_separator(m0.mode, 'a'));
    assert((('a' as u32) < 0x80));
    assert(char_is_lowercase('a'));
    assert(!char_is_uppercase('a'));
    assert(char_lowercase('a') == seq![crate::text::ascii_lower('a')]);
    assert(crate::text::ascii_lower('a') == 'a');
    let m1 = reset_z_spec(m0);
    lemma_char_bytes('a');
    assert(key_flags('a') =~= seq![false]);
    assert(m1.case_map + key_flags('a') =~= seq![false]);
    let m2 = EngineModel {
        capitalize_next: false,
        case_map: m1.case_map + key_flags('a'),
        buffer: m1.buffer.push('a'),
        ..m1
    };
    assert(m2.buffer =~= a);
    assert(m2.case_map =~= seq![false]);
    lemma_ascii_utf8_len(a);
    assert(utf8_len(a) == 1);
    if m0.config.vietnamese_mode {
        lemma_single_a(m0.mode);
        let syl = parse_buffer_spec(m2.mode, m2.buffer);
        let m3 = EngineModel { syl: syl, ..m2 };
        assert(!literal_trigger(m3));
        assert(literal_check_spec(m3) == m3);
        let e = Seq::<char>::empty();
        assert(all_ascii(e));
        assert(str_lowercase(e) == e.map_values(|c: char| crate::text::ascii_lower(c)));
        assert(str_lowercase(e) =~= e);
        assert(spelling_fix_spec(m3) == m3);
        assert(toned_core(m3.syl, style_of(m3.config)) =~= a);
        assert(toned_core(m3.syl, style_of(m3.config)) + m3.syl.coda =~= a);
        assert(case_zip(a, seq![false]) =~= a) by {
            assert(a.drop_last() == e);
            assert(case_zip(a.drop_last(), seq![false]) == e);
            assert(char_lowercase(a[0]) == a);
        }
        assert(reconstruct_spec(m3) == a);
        assert(shorthand_spec(m3, a) == (m3, a));
    } else {
        assert(shorthand_spec(m2, m2.buffer) == (m2, m2.buffer));
    }
}

/// Backspace right after a key that continued the word takes that key back
/// out of the raw keys (without shorthands, literal mode, pending
/// capitalisation or the progressive z).
pub proof fn law_backspace_undoes_key(m: EngineModel, key: char)
    requires
        utf8_len(m.buffer) < 50,
        !is_separator(m.mode, key),
        key != 'z',
        !m.literal_mode,
        !m.capitalize_next,
        !shorthand_active(m.config),
    ensures
        process_key_spec(m, key).0.buffer == m.buffer.push(key),
        backspace_spec(process_key_spec(m, key).0).1,
        backspace_spec(process_key_spec(m, key).0).0.buffer == m.buffer,
{
    assert(m.buffer.push(key).drop_last() =~= m.buffer);
}

/// The progressive z of Telex: in a word with a vowel, the first z removes
/// the tone, the next one removes the letter modifiers (or, when there are
/// none, types a literal z).
pub proof fn law_progressive_z(m: EngineModel)
    requires
        utf8_len(m.buffer) < 50,
        m.config.vietnamese_mode,
        m.mode == InputMode::Telex || m.mode == InputMode::TelexEx,
        m.buffer.len() > 0,
        m.syl.vowel.len() > 0,
    ensures
        m.z_level == 0 && m.syl.tone != 0 ==> process_key_spec(m, 'z').0.syl.tone == 0
            && process_key_spec(m, 'z').0.z_level == 1,
        m.z_level == 1 ==> process_key_spec(m, 'z').0.syl.vowel == demod(m.syl.vowel)
            && process_key_spec(m, 'z').0.syl.onset == demod(m.syl.onset),
{
    lemma_ascii_whitespace('z');
    assert(!is_separator(m.mode, 'z'));
    if m.z_level == 1 {
        let o = demod(m.syl.onset);
        let v = demod(m.syl.vowel);
        let c = demod(m.syl.coda);
        if o == m.syl.onset && v == m.syl.vowel && c == m.syl.coda {
        }
    }
}

/// With 50 or more bytes of keys, the next key starts afresh: the engine is
/// reset and the key is output alone.
pub proof fn law_buffer_guard(m: EngineModel, key: char)
    requires
        utf8_len(m.buffer) >= 50,
    ensures
        process_key_spec(m, key) == (reset_spec(m), seq![key]),
{
}

/// With Vietnamese input off (and no shorthands, literal mode or pending
/// capitalisation), a key that continues the word is typed as it is: the
/// output is the raw keys.
pub proof fn law_english_mode_passes_keys(m: EngineModel, key: char)
    requires
        utf8_len(m.buffer) < 50,
        !m.config.vietnamese_mode,
        !shorthand_active(m.config),
        !is_separator(m.mode, key),
        !m.literal_mode,
        !m.capitalize_next,
    ensures
        process_key_spec(m, key).1 == m.buffer.push(key),
        process_key_spec(m, key).0.buffer == m.buffer.push(key),
{
}

/// Feeding a string resets first: the result depends only on the mode, the
/// configuration, the shorthands and the known words, not on what was typed
/// before.
pub proof fn law_feed_forgets_history(m1: EngineModel, m2: EngineModel, input: Seq<char>)
    requires
        m1.mode == m2.mode,
        m1.config == m2.config,
        m1.macros == m2.macros,
        m1.words == m2.words,
    ensures
        feed_spec(m1, input) == feed_spec(m2, input),
    decreases input.len(),
{
    if input.len() == 0 {
        assert(reset_spec(m1) =~= reset_spec(m2));
    } else {
        law_feed_forgets_history(m1, m2, input.drop_last());
    }
}

// ------------------------------------------------------------------
// The engine.
// ------------------------------------------------------------------

pub open spec fn opt_syllable_view(o: Option<Syllable>) -> Option<SyllableView> {
    match o {
        Some(s) => Some(s@),
        None => None,
    }
}

pub open spec fn opt_string_view(o: Option<String>) -> Option<Seq<char>> {
    match o {
        Some(s) => Some(s@),
        None => None,
    }
}

/// Represents the full internal state of the engine.
#[derive(Debug, Clone)]
pub struct EngineState {
    pub transformed: String,
    pub buffer: String,
    pub onset: String,
    pub vowel: String,
    pub coda: String,
    pub tone: u8,
    pub z_level: u8,
    pub validity_score: u8,
}

/// Detailed diagnostic information for developer mode.
#[derive(Debug, Clone)]
pub struct DiagnosticData {
    pub buffer: String,
    pub onset: String,
    pub vowel: String,
    pub coda: String,
    pub tone: u8,
    pub phonetic_score: u8,
    pub literal_mode: bool,
    pub z_level: u8,
    pub mode: String,
}

/// The name of an input mode, as `Debug` writes it.
pub open spec fn mode_name(mode: InputMode) -> Seq<char> {
    match mode {
        InputMode::Telex => "Telex"@,
        InputMode::TelexEx => "TelexEx"@,
        InputMode::Vni => "Vni"@,
        InputMode::Viqr => "Viqr"@,
    }
}

/// Vietnamese IME Engine — the brain of the input method.
///
/// Stateful: maintains an internal buffer for the current word being typed.
/// Call `reset()` when the user moves to a new word.
pub struct Engine {
    mode: InputMode,
    config: EngineConfig,
    buffer: String,
    current_syllable: Syllable,
    shorthand_dict: ShorthandDict,
    /// For each byte of the buffer, whether its key was typed uppercase.
    case_map: Vec<bool>,
    /// Progressive Z state: 0 = normal, 1 = tone removed, 2 = modifiers removed.
    z_level: u8,
    /// Syllable and buffer before Z was first pressed.
    pre_z_syllable: Option<Syllable>,
    pre_z_buffer: Option<String>,
    /// The last committed word, with its separator.
    last_committed_word: String,
    /// The raw keys of the last committed word.
    last_committed_buffer: String,
    last_committed_case_map: Vec<bool>,
    /// Whether the next character is capitalised.
    capitalize_next: bool,
    /// Literal mode: no Vietnamese transformation for this word.
    literal_mode: bool,
    dictionary: Dictionary,
}

impl View for Engine {
    type V = EngineModel;

    closed spec fn view(&self) -> EngineModel {
        EngineModel {
            mode: self.mode,
            config: self.config,
            buffer: self.buffer@,
            syl: self.current_syllable@,
            macros: self.shorthand_dict@,
            case_map: self.case_map@,
            z_level: self.z_level,
            pre_z_syllable: opt_syllable_view(self.pre_z_syllable),
            pre_z_buffer: opt_string_view(self.pre_z_buffer),
            last_word: self.last_committed_word@,
            last_buffer: self.last_committed_buffer@,
            last_case_map: self.last_committed_case_map@,
            capitalize_next: self.capitalize_next,
            literal_mode: self.literal_mode,
            words: self.dictionary@,
        }
    }
}

/// Enter ends the word like a separator. It returns the expansion of the
/// word when the word is an abbreviation (with shorthands on), else nothing.
pub open spec fn enter_spec(m: EngineModel) -> (EngineModel, Seq<char>) {
    let exp = if shorthand_active(m.config) && m.buffer.len() > 0 {
        expansion_of(m, m.buffer)
    } else {
        None
    };
    let (m1, _out) = process_key_spec(m, '\n');
    let m2 = if m1.config.auto_capitalize_enter {
        EngineModel { capitalize_next: true, ..m1 }
    } else {
        m1
    };
    let word = match exp {
        Some(e) => e,
        None => Seq::empty(),
    };
    (m2, word)
}

/// The state of a fresh engine.
pub open spec fn initial_model(mode: InputMode, config: EngineConfig, macros: Map<Seq<char>, Seq<char>>) -> EngineModel {
    EngineModel {
        mode: mode,
        config: config,
        buffer: Seq::empty(),
        syl: empty_syllable(),
        macros: macros,
        case_map: Seq::empty(),
        z_level: 0,
        pre_z_syllable: None,
        pre_z_buffer: None,
        last_word: Seq::empty(),
        last_buffer: Seq::empty(),
        last_case_map: Seq::empty(),
        capitalize_next: false,
        literal_mode: false,
        words: Set::empty(),
    }
}

impl Engine {
    /// Create a new engine with the specified input mode, the default
    /// configuration, the built-in shorthands and an empty dictionary.
    pub fn new(mode: InputMode) -> (r: Self)
        ensures
            r@ == initial_model(mode, r@.config, default_shorthands()),
            is_default_config(r@.config),
    {
        Engine {
            mode,
            config: EngineConfig::default(),
            buffer: String::new(),
            current_syllable: Syllable::new(),
            shorthand_dict: ShorthandDict::with_defaults(),
            case_map: Vec::new(),
            z_level: 0,
            pre_z_syllable: None,
            pre_z_buffer: None,
            last_committed_word: String::new(),
            last_committed_buffer: String::new(),
            last_committed_case_map: Vec::new(),
            capitalize_next: false,
            literal_mode: false,
            dictionary: Dictionary::new(),
        }
    }

    /// Create an engine with a custom configuration.
    pub fn with_config(mode: InputMode, config: EngineConfig) -> (r: Self)
        ensures
            r@ == initial_model(mode, config, default_shorthands()),
    {
        let mut engine = Self::new(mode);
        engine.config = config;
        engine
    }

    /// The current internal state of the engine.
    pub fn get_state(&self) -> (r: EngineState)
        ensures
            r.transformed@ == current_output(self@),
            r.buffer@ == self@.buffer,
            r.onset@ == self@.syl.onset,
            r.vowel@ == self@.syl.vowel,
            r.coda@ == self@.syl.coda,
            r.tone == self@.syl.tone,
            r.z_level == self@.z_level,
            r.validity_score == (if self@.config.spell_check && self@.config.vietnamese_mode {
                syllable_score(self@.syl, self@.config.allow_foreign_consonants)
            } else {
                100
            }),
    {
        let score = if self.config.spell_check && self.config.vietnamese_mode {
            validate_syllable(&self.current_syllable, self.config.allow_foreign_consonants)
        } else {
            100
        };
        let transformed = self.current_output();
        EngineState {
            transformed: string_of(transformed.as_slice()),
            buffer: copy_string(&self.buffer),
            onset: copy_string(&self.current_syllable.onset),
            vowel: copy_string(&self.current_syllable.vowel),
            coda: copy_string(&self.current_syllable.coda),
            tone: self.current_syllable.tone,
            z_level: self.z_level,
            validity_score: score,
        }
    }

    /// Detailed diagnostic information for developer mode.
    pub fn get_diagnostic_info(&self) -> (r: DiagnosticData)
        ensures
            r.buffer@ == self@.buffer,
            r.onset@ == self@.syl.onset,
            r.vowel@ == self@.syl.vowel,
            r.coda@ == self@.syl.coda,
            r.tone == self@.syl.tone,
            r.phonetic_score == syllable_score(self@.syl, self@.config.allow_foreign_consonants),
            r.literal_mode == self@.literal_mode,
            r.z_level == self@.z_level,
            r.mode@ == mode_name(self@.mode),
    {
        let score = validate_syllable(&self.current_syllable, self.config.allow_foreign_consonants);
        let mode = match self.mode {
            InputMode::Telex => "Telex".to_owned(),
            InputMode::TelexEx => "TelexEx".to_owned(),
            InputMode::Vni => "Vni".to_owned(),
            InputMode::Viqr => "Viqr".to_owned(),
        };
        DiagnosticData {
            buffer: copy_string(&self.buffer),
            onset: copy_string(&self.current_syllable.onset),
            vowel: copy_string(&self.current_syllable.vowel),
            coda: copy_string(&self.current_syllable.coda),
            tone: self.current_syllable.tone,
            phonetic_score: score,
            literal_mode: self.literal_mode,
            z_level: self.z_level,
            mode,
        }
    }

    /// Change the input mode. Resets the engine.
    pub fn set_mode(&mut self, mode: InputMode)
        ensures
            final(self)@ == reset_spec(EngineModel { mode: mode, ..old(self)@ }),
    {
        self.mode = mode;
        self.reset();
    }

    /// The current input mode.
    pub fn mode(&self) -> (r: InputMode)
        ensures
            r == self@.mode,
    {
        self.mode
    }

    /// Update the configuration at runtime.
    pub fn set_config(&mut self, config: EngineConfig)
        ensures
            final(self)@ == (EngineModel { config: config, ..old(self)@ }),
    {
        self.config = config;
    }

    /// The current configuration.
    pub fn config(&self) -> (r: &EngineConfig)
        ensures
            *r == self@.config,
    {
        &self.config
    }

    /// The shorthand dictionary.
    pub fn shorthand_dict(&self) -> (r: &ShorthandDict)
        ensures
            r@ == self@.macros,
    {
        &self.shorthand_dict
    }

    /// Replace the whole shorthand dictionary by the given pairs (a later
    /// pair wins over an earlier one with the same abbreviation).
    pub fn set_macros(&mut self, macros: Vec<(String, String)>)
        ensures
            final(self)@ == (EngineModel { macros: map_of(pairs_view(macros@)), ..old(self)@ }),
    {
        let mut dict = ShorthandDict::new();
        let ghost pv = pairs_view(macros@);
        let mut i: usize = 0;
        assert(pv.take(0) =~= Seq::<(Seq<char>, Seq<char>)>::empty());
        while i < macros.len()
            invariant
                i <= macros.len(),
                pv == pairs_view(macros@),
                dict@ == map_of(pv.take(i as int)),
            decreases macros.len() - i,
        {
            assert(pv.take(i + 1).drop_last() =~= pv.take(i as int));
            assert(pv.take(i + 1).last() == pv[i as int]);
            dict.add(macros[i].0.as_str(), macros[i].1.as_str());
            i += 1;
        }
        assert(pv.take(macros.len() as int) =~= pv);
        self.shorthand_dict = dict;
    }

    /// Add words to the dictionary, one per line (trimmed; empty lines are
    /// skipped).
    pub fn load_dictionary(&mut self, lines: &[String])
        ensures
            final(self)@ == (EngineModel {
                words: lines_inserted(old(self)@.words, lines@.map_values(|l: String| l@)),
                ..old(self)@
            }),
    {
        self.dictionary.load_lines(lines);
    }

    /// Mutable access to the shorthand dictionary.
    pub fn shorthand_dict_mut(&mut self) -> (r: &mut ShorthandDict)
        ensures
            r@ == old(self)@.macros,
            final(self)@ == (EngineModel { macros: final(r)@, ..old(self)@ }),
    {
        &mut self.shorthand_dict
    }

    /// Switch Vietnamese input on or off.
    pub fn set_vietnamese_mode(&mut self, on: bool)
        ensures
            final(self)@ == (EngineModel {
                config: EngineConfig { vietnamese_mode: on, ..old(self)@.config },
                ..old(self)@
            }),
    {
        set_vietnamese(&mut self.config, on);
    }

    /// Choose modern (true) or traditional (false) tone placement.
    pub fn set_tone_placement(&mut self, style: bool)
        ensures
            final(self)@ == (EngineModel { config: final(self)@.config, ..old(self)@ }),
            final(self)@.config == (EngineConfig { modern_tone: style, ..old(self)@.config }),
    {
        set_modern_tone(&mut self.config, style);
    }

    /// The raw keys of the current word.
    pub fn buffer(&self) -> (r: &str)
        ensures
            r@ == self@.buffer,
    {
        self.buffer.as_str()
    }

    /// Case flags of the current word: for each byte of the raw keys,
    /// whether its key was uppercase.
    pub fn case_map(&self) -> (r: &Vec<bool>)
        ensures
            r@ == self@.case_map,
    {
        &self.case_map
    }

    /// Apply casing from the case map to a text.
    fn apply_case(&self, target: &Vec<char>) -> (r: Vec<char>)
        ensures
            r@ == apply_case_spec(self.case_map@, target@),
    {
        let cm = &self.case_map;
        if cm.len() == 0 {
            return chars_vec(target.as_slice());
        }
        if target.len() == cm.len() {
            let mut out: Vec<char> = Vec::new();
            let mut i: usize = 0;
            while i < target.len()
                invariant
                    i <= target.len(),
                    target.len() == cm.len(),
                    out@ == case_zip(target@.take(i as int), cm@),
                decreases target.len() - i,
            {
                let piece = if cm[i] {
                    char_to_uppercase(target[i])
                } else {
                    char_to_lowercase(target[i])
                };
                assert(target@.take(i as int + 1).drop_last() == target@.take(i as int));
                extend_chars(&mut out, piece.as_slice());
                i += 1;
            }
            assert(target@.take(target.len() as int) == target@);
            return out;
        }
        let mut all_upper = true;
        let mut j: usize = 0;
        while j < cm.len()
            invariant
                j <= cm.len(),
                all_upper == (forall|k: int| 0 <= k < j ==> #[trigger] cm@[k]),
            decreases cm.len() - j,
        {
            if !cm[j] {
                all_upper = false;
            }
            j += 1;
        }
        if all_upper {
            chars_to_uppercase(target.as_slice())
        } else if cm[0] {
            if target.len() == 0 {
                Vec::new()
            } else {
                let mut out = char_to_uppercase(target[0]);
                let rest = chars_to_lowercase(sub_chars(target.as_slice(), 1, target.len()).as_slice());
                extend_chars(&mut out, rest.as_slice());
                assert(target@.subrange(1, target@.len() as int) == target@.skip(1));
                out
            }
        } else {
            chars_to_lowercase(target.as_slice())
        }
    }

    /// The displayed word: the syllable with its tone, cased like the keys.
    fn reconstruct(&self) -> (r: Vec<char>)
        ensures
            r@ == reconstruct_spec(self@),
    {
        if self.literal_mode {
            return self.apply_case(&chars_of(self.buffer.as_str()));
        }
        let mut core = String::new();
        push_str(&mut core, self.current_syllable.onset.as_str());
        push_str(&mut core, self.current_syllable.vowel.as_str());
        let style = if self.config.modern_tone {
            TonePlacement::Modern
        } else {
            TonePlacement::Traditional
        };
        let mut toned: Vec<char> = if self.current_syllable.tone > 0 {
            match place_tone_with_style(core.as_str(), self.current_syllable.tone, style) {
                Some(t) => chars_of(t.as_str()),
                None => chars_of(core.as_str()),
            }
        } else {
            chars_of(core.as_str())
        };
        extend_chars(&mut toned, chars_of(self.current_syllable.coda.as_str()).as_slice());
        self.apply_case(&toned)
    }

    /// The word to show while it is being typed.
    fn current_output(&self) -> (r: Vec<char>)
        ensures
            r@ == current_output(self@),
    {
        if self.config.vietnamese_mode && !self.literal_mode {
            self.reconstruct()
        } else {
            self.apply_case(&chars_of(self.buffer.as_str()))
        }
    }

    /// Parse the raw buffer into the current syllable.
    fn parse_buffer(&mut self)
        ensures
            final(self)@ == (EngineModel { syl: parse_buffer_spec(old(self)@.mode, old(self)@.buffer), ..old(self)@ }),
    {
        let input = str_to_lowercase(self.buffer.as_str());
        let (core, tone) = match self.mode {
            InputMode::Telex => crate::telex::extract_tone(input.as_str()),
            InputMode::TelexEx => crate::telex::extract_tone(input.as_str()),
            InputMode::Vni => crate::vni::extract_tone(input.as_str()),
            InputMode::Viqr => crate::viqr::extract_tone(input.as_str()),
        };
        let transformed = match self.mode {
            InputMode::Telex => crate::telex::apply_modifiers(core.as_str()),
            InputMode::TelexEx => crate::telex::apply_modifiers_no_smart_w(core.as_str()),
            InputMode::Vni => crate::vni::apply_modifiers(core.as_str()),
            InputMode::Viqr => crate::viqr::apply_modifiers(core.as_str()),
        };
        self.current_syllable = crate::syllable::parse(transformed.as_str(), tone);
    }

    fn reset_z_state(&mut self)
        ensures
            final(self)@ == reset_z_spec(old(self)@),
    {
        self.z_level = 0;
        self.pre_z_syllable = None;
        self.pre_z_buffer = None;
    }

    /// Reset the current word. Call this on a word boundary.
    pub fn reset_soft(&mut self)
        ensures
            final(self)@ == reset_soft_spec(old(self)@),
    {
        self.buffer.clear();
        self.current_syllable = Syllable::new();
        self.case_map.clear();
        self.z_level = 0;
        self.pre_z_syllable = None;
        self.pre_z_buffer = None;
        self.literal_mode = false;
        self.capitalize_next = false;
    }

    /// Hard reset: clear the current word and the committed history. Call
    /// this on context changes (mouse click, navigation, focus change).
    pub fn reset(&mut self)
        ensures
            final(self)@ == reset_spec(old(self)@),
    {
        self.reset_soft();
        self.last_committed_word.clear();
        self.last_committed_buffer.clear();
        self.last_committed_case_map.clear();
        self.capitalize_next = false;
        self.literal_mode = false;
    }

    fn is_shorthand_active(&self) -> (r: bool)
        ensures
            r == shorthand_active(self@.config),
    {
        self.config.macro_enabled && (self.config.vietnamese_mode || self.config.shorthand_while_off)
    }

    pub(crate) fn is_special_punctuation(&self, key: char) -> (r: bool)
        ensures
            r == is_special_punct(self@.mode, key),
    {
        match self.mode {
            InputMode::Telex => key == '[' || key == ']',
            InputMode::TelexEx => key == '[' || key == ']',
            InputMode::Vni => is_ascii_digit(key),
            InputMode::Viqr => key == '\'' || key == '^' || key == '`' || key == '?' || key == '~'
                || key == '.' || key == '+' || key == '(',
        }
    }

    /// The expansion of an abbreviation (see `expansion_of`).
    fn expansion_for(&self, part: &Vec<char>) -> (r: Option<Vec<char>>)
        ensures
            match r {
                Some(v) => expansion_of(self@, part@) == Some(v@),
                None => expansion_of(self@, part@) is None,
            },
    {
        let part_s = string_of(part.as_slice());
        let found: Option<Vec<char>> = match self.shorthand_dict.lookup(part_s.as_str()) {
            Some(e) => Some(chars_of(e)),
            None => {
                if self.config.macro_auto_case {
                    let ml = str_to_lowercase(part_s.as_str());
                    match self.shorthand_dict.lookup(ml.as_str()) {
                        Some(e) => {
                            let ev = chars_of(e);
                            let mut all_caps = true;
                            let mut j: usize = 0;
                            while j < part.len()
                                invariant
                                    j <= part.len(),
                                    all_caps == (forall|k: int|
                                        0 <= k < j ==> !char_is_lowercase(#[trigger] part@[k])),
                                decreases part.len() - j,
                            {
                                if is_lowercase(part[j]) {
                                    all_caps = false;
                                }
                                j += 1;
                            }
                            let title = !all_caps && is_uppercase(part[0]);
                            if all_caps {
                                Some(chars_to_uppercase(ev.as_slice()))
                            } else if title {
                                if ev.len() > 0 {
                                    let mut out = char_to_uppercase(ev[0]);
                                    extend_chars(
                                        &mut out,
                                        sub_chars(ev.as_slice(), 1, ev.len()).as_slice(),
                                    );
                                    assert(ev@.subrange(1, ev@.len() as int) == ev@.skip(1));
                                    Some(out)
                                } else {
                                    Some(ev)
                                }
                            } else {
                                Some(ev)
                            }
                        },
                        None => None,
                    }
                } else {
                    None
                }
            },
        };
        found
    }

    /// Expand a shorthand abbreviation that a trigger key just ended.
    fn apply_shorthand_if_needed(&mut self, transformed: &mut Vec<char>)
        ensures
            (final(self)@, final(transformed)@) == shorthand_spec(old(self)@, old(transformed)@),
    {
        let bchars = chars_of(self.buffer.as_str());
        if bchars.len() == 0 {
            return ;
        }
        let last = bchars[bchars.len() - 1];
        let has_trigger = last == ' ' || is_ascii_punctuation(last);
        if !has_trigger {
            return ;
        }
        let part = sub_chars(bchars.as_slice(), 0, bchars.len() - 1);
        assert(part@ == self@.buffer.drop_last());
        if part.len() == 0 {
            return ;
        }
        let found = self.expansion_for(&part);
        match found {
            Some(e) => {
                let mut e = e;
                e.push(last);
                *transformed = e;
                self.buffer.clear();
                self.case_map.clear();
                self.reset_z_state();
            },
            None => {},
        }
    }

    /// Correct the onset spelling from the following vowel: c/k, g/gh,
    /// ng/ngh.
    fn apply_smart_spelling_corrections(&mut self)
        ensures
            final(self)@ == spelling_fix_spec(old(self)@),
    {
        let v = chars_of(self.current_syllable.vowel.as_str());
        if v.len() == 0 {
            return ;
        }
        let f = lower_first(v[0]);
        let front = f == 'i' || f == 'e' || f == '\u{00EA}' || f == 'y';
        let o = chars_to_lowercase(chars_of(self.current_syllable.onset.as_str()).as_slice());
        let is_c = chars_eq(o.as_slice(), one('c').as_slice());
        let is_g = chars_eq(o.as_slice(), one('g').as_slice());
        let is_ng = chars_eq(o.as_slice(), two('n', 'g').as_slice());
        let is_k = chars_eq(o.as_slice(), one('k').as_slice());
        let is_gh = chars_eq(o.as_slice(), two('g', 'h').as_slice());
        let is_ngh = chars_eq(o.as_slice(), three('n', 'g', 'h').as_slice());
        let new_onset: Option<Vec<char>> = if is_c && front {
            Some(one('k'))
        } else if is_g && (f == 'e' || f == '\u{00EA}') {
            Some(two('g', 'h'))
        } else if is_ng && front {
            Some(three('n', 'g', 'h'))
        } else if is_k && !front {
            Some(one('c'))
        } else if is_gh && !front {
            Some(one('g'))
        } else if is_ngh && !front {
            Some(two('n', 'g'))
        } else {
            None
        };
        match new_onset {
            Some(n) => {
                self.current_syllable.onset = string_of(n.as_slice());
            },
            None => {},
        }
    }

    /// Switch to literal mode when the word looks foreign or garbled.
    fn check_literal_mode_transition(&mut self)
        ensures
            final(self)@ == literal_check_spec(old(self)@),
    {
        if !self.config.smart_literal_mode || str_is_empty(&self.buffer) || self.literal_mode {
            return ;
        }
        let score = validate_syllable(&self.current_syllable, self.config.allow_foreign_consonants);
        let onset_len = chars_of(self.current_syllable.onset.as_str()).len();
        let coda_len = chars_of(self.current_syllable.coda.as_str()).len();
        let n = byte_len(&self.buffer);
        if onset_len > 5 || coda_len > 5 || n > 30 {
            self.literal_mode = true;
            return ;
        }
        if score <= 8 && n > 10 {
            self.literal_mode = true;
            return ;
        }
        if self.config.spell_check && n == 2 && self.current_syllable.tone != 0 {
            let mut core = String::new();
            push_str(&mut core, self.current_syllable.onset.as_str());
            push_str(&mut core, self.current_syllable.vowel.as_str());
            let style = if self.config.modern_tone {
                TonePlacement::Modern
            } else {
                TonePlacement::Traditional
            };
            let mut toned = if self.current_syllable.tone > 0 {
                match place_tone_with_style(core.as_str(), self.current_syllable.tone, style) {
                    Some(t) => t,
                    None => core,
                }
            } else {
                core
            };
            push_str(&mut toned, self.current_syllable.coda.as_str());
            let transformed = str_to_lowercase(toned.as_str());
            if !self.dictionary.contains(transformed.as_str()) {
                let b = chars_of(self.buffer.as_str());
                let last = b[b.len() - 1];
                if last == 's' || last == 'f' || last == 'r' || last == 'x' || last == 'j' || last
                    == 'S' || last == 'F' || last == 'R' || last == 'X' || last == 'J' {
                    self.literal_mode = true;
                }
            }
        }
    }

    /// Reconstruct the output and make the raw keys and case flags follow it.
    fn sync_buffer_from_reconstruction(&mut self) -> (r: Vec<char>)
        ensures
            (final(self)@, r@) == sync_spec(old(self)@),
    {
        let result = self.reconstruct();
        let mut low: Vec<char> = Vec::new();
        let mut cm: Vec<bool> = Vec::new();
        let mut i: usize = 0;
        while i < result.len()
            invariant
                i <= result.len(),
                low@ == result@.take(i as int).map_values(|c: char| lower1(c)),
                cm@ == sync_flags(result@.take(i as int)),
            decreases result.len() - i,
        {
            low.push(lower_first(result[i]));
            let lc = lower_first(result[i]);
            push_flags(&mut cm, is_uppercase(result[i]), char_len_utf8(lc));
            assert(result@.take(i as int + 1).map_values(|c: char| lower1(c))
                =~= result@.take(i as int).map_values(|c: char| lower1(c)).push(
                lower1(result@[i as int]),
            ));
            assert(result@.take(i as int + 1).drop_last() =~= result@.take(i as int));
            i += 1;
        }
        assert(result@.take(result.len() as int) == result@);
        self.buffer = string_of(low.as_slice());
        self.case_map = cm;
        result
    }

    /// Progressive Z, level 2 and above: a literal z.
    fn z_level2(&mut self) -> (r: Vec<char>)
        ensures
            (final(self)@, r@) == z_level2_spec(old(self)@),
    {
        self.buffer.push('z');
        self.case_map.push(false);
        self.z_level = 0;
        self.current_syllable.coda.push('z');
        self.reconstruct()
    }

    /// Progressive Z, level 1: remove the modifiers.
    fn z_level1(&mut self) -> (r: Vec<char>)
        ensures
            (final(self)@, r@) == z_level1_spec(old(self)@),
    {
        let o = demod_string(&self.current_syllable.onset);
        let v = demod_string(&self.current_syllable.vowel);
        let c = demod_string(&self.current_syllable.coda);
        if str_eq(o.as_str(), self.current_syllable.onset.as_str()) && str_eq(
            v.as_str(),
            self.current_syllable.vowel.as_str(),
        ) && str_eq(c.as_str(), self.current_syllable.coda.as_str()) {
            self.z_level = 2;
            return self.z_level2();
        }
        self.current_syllable.onset = o;
        self.current_syllable.vowel = v;
        self.current_syllable.coda = c;
        self.z_level = 2;
        self.sync_buffer_from_reconstruction()
    }

    /// Handle Progressive Z: remove the tone, then the modifiers, then type a
    /// literal z.
    fn handle_progressive_z(&mut self) -> (r: Vec<char>)
        ensures
            (final(self)@, r@) == progressive_z_spec(old(self)@),
    {
        if self.z_level == 0 {
            if self.current_syllable.tone == 0 {
                self.z_level = 1;
                return self.z_level1();
            }
            self.pre_z_syllable = Some(self.current_syllable.duplicate());
            self.pre_z_buffer = Some(copy_string(&self.buffer));
            self.current_syllable.tone = 0;
            self.z_level = 1;
            self.sync_buffer_from_reconstruction()
        } else if self.z_level == 1 {
            self.z_level1()
        } else {
            self.z_level2()
        }
    }

    /// A key that continues the word, once literal mode is dealt with.
    fn process_letter(&mut self, key: char) -> (r: Vec<char>)
        ensures
            (final(self)@, r@) == letter_spec(old(self)@, key),
    {
        let buf_empty = str_is_empty(&self.buffer);
        let mut final_key = key;
        if self.capitalize_next && buf_empty && is_lowercase(key) {
            final_key = upper_first(key);
            self.capitalize_next = false;
        } else if !buf_empty {
            self.capitalize_next = false;
        }
        push_flags(&mut self.case_map, is_uppercase(final_key), char_len_utf8(final_key));
        self.buffer.push(final_key);
        if self.config.vietnamese_mode {
            self.parse_buffer();
            self.check_literal_mode_transition();
            if self.literal_mode {
                return self.apply_case(&chars_of(self.buffer.as_str()));
            }
            let score = validate_syllable(&self.current_syllable, self.config.allow_foreign_consonants);
            if self.config.spell_check {
                self.apply_smart_spelling_corrections();
            }
            let mut transformed = self.reconstruct();
            if self.is_shorthand_active() {
                self.apply_shorthand_if_needed(&mut transformed);
            }
            if self.config.spell_check && self.config.auto_restore {
                let t = string_of(transformed.as_slice());
                let in_dict = self.dictionary.contains(t.as_str());
                if !in_dict && score < 10 && byte_len(&self.buffer) > 1 {
                    transformed = self.apply_case(&chars_of(self.buffer.as_str()));
                }
            }
            transformed
        } else {
            let mut transformed = chars_of(self.buffer.as_str());
            if self.is_shorthand_active() {
                self.apply_shorthand_if_needed(&mut transformed);
            }
            transformed
        }
    }

    /// Process a single key press and return the current word output.
    ///
    /// Feed characters one by one and get the progressively transformed
    /// Vietnamese text. A whitespace or punctuation key ends the word: the
    /// output is the finished word followed by that key.
    pub fn process_key(&mut self, key: char) -> (r: String)
        ensures
            (final(self)@, r@) == process_key_spec(old(self)@, key),
    {
        if byte_len(&self.buffer) >= 50 {
            self.reset();
            return string_of_char(key);
        }
        if is_whitespace(key) || (is_ascii_punctuation(key) && !self.is_special_punctuation(key)) {
            let mut transformed = self.current_output();
            let word_keys = copy_string(&self.buffer);
            let word_case = copy_bools(&self.case_map);
            self.buffer.push(key);
            push_flags(&mut self.case_map, is_uppercase(key), char_len_utf8(key));
            if self.is_shorthand_active() {
                self.apply_shorthand_if_needed(&mut transformed);
                if str_is_empty(&self.buffer) {
                    return string_of(transformed.as_slice());
                }
            }
            let mut lw = chars_vec(transformed.as_slice());
            lw.push(key);
            self.last_committed_word = string_of(lw.as_slice());
            self.last_committed_buffer = word_keys;
            self.last_committed_case_map = word_case;
            if self.config.auto_capitalize_sentence && (key == '.' || key == '!' || key == '?') {
                self.capitalize_next = true;
            }
            self.reset_soft();
            return string_of(lw.as_slice());
        }
        if self.config.vietnamese_mode && (self.mode == InputMode::Telex || self.mode
            == InputMode::TelexEx) && key == 'z' && !str_is_empty(&self.buffer)
            && self.current_syllable.has_vowel() {
            let r = self.handle_progressive_z();
            return string_of(r.as_slice());
        }
        self.reset_z_state();
        if self.literal_mode {
            if is_uppercase(key) && byte_len(&self.buffer) > 1 {
                self.reset_soft();
            } else {
                self.buffer.push(key);
                push_flags(&mut self.case_map, is_uppercase(key), char_len_utf8(key));
                let r = self.apply_case(&chars_of(self.buffer.as_str()));
                return string_of(r.as_slice());
            }
        }
        let r = self.process_letter(key);
        string_of(r.as_slice())
    }

    /// Process a Backspace key press. Returns true if the engine handled it
    /// (its buffer changed), false if the caller should delete a character.
    pub fn process_backspace(&mut self) -> (r: bool)
        ensures
            (final(self)@, r) == backspace_spec(old(self)@),
    {
        if !str_is_empty(&self.buffer) {
            let last = self.buffer.pop();
            match last {
                Some(c) => {
                    pop_flags(&mut self.case_map, char_len_utf8(c));
                },
                None => {},
            }
            self.reset_z_state();
            if str_is_empty(&self.buffer) {
                self.last_committed_word.clear();
            }
            if self.config.vietnamese_mode && !self.literal_mode {
                self.parse_buffer();
            }
            return true;
        } else if self.config.backspace_restore && !str_is_empty(&self.last_committed_word) {
            let last = chars_of(self.last_committed_word.as_str());
            self.last_committed_word.clear();
            let lc = last[last.len() - 1];
            if lc == ' ' || is_ascii_punctuation(lc) {
                if !str_is_empty(&self.last_committed_buffer) {
                    self.buffer = copy_string(&self.last_committed_buffer);
                    self.case_map = copy_bools(&self.last_committed_case_map);
                    self.last_committed_buffer.clear();
                    self.last_committed_case_map.clear();
                    if self.config.vietnamese_mode {
                        self.parse_buffer();
                    }
                    return true;
                }
            }
        }
        false
    }

    /// Signal that Enter was pressed: the word is ended. Returns the
    /// expansion of the word when it is an abbreviation, else an empty string.
    pub fn on_enter(&mut self) -> (r: String)
        ensures
            (final(self)@, r@) == enter_spec(old(self)@),
    {
        let bchars = chars_of(self.buffer.as_str());
        let expansion = if self.is_shorthand_active() && bchars.len() > 0 {
            self.expansion_for(&bchars)
        } else {
            None
        };
        let _ = self.process_key('\n');
        if self.config.auto_capitalize_enter {
            self.capitalize_next = true;
        }
        match expansion {
            Some(e) => string_of(e.as_slice()),
            None => String::new(),
        }
    }

    /// Process an entire string at once: reset, then feed every character;
    /// returns the output of the last one.
    pub fn feed_str(&mut self, input: &str) -> (r: String)
        ensures
            (final(self)@, r@) == feed_spec(old(self)@, input@),
    {
        self.reset();
        let cs = chars_of(input);
        let mut result = String::new();
        let mut i: usize = 0;
        assert(cs@.take(0) =~= Seq::<char>::empty());
        while i < cs.len()
            invariant
                i <= cs.len(),
                (self@, result@) == feed_spec(old(self)@, cs@.take(i as int)),
            decreases cs.len() - i,
        {
            assert(cs@.take(i as int + 1).drop_last() == cs@.take(i as int));
            result = self.process_key(cs[i]);
            i += 1;
        }
        assert(cs@.take(cs.len() as int) == cs@);
        result
    }
}

fn set_modern_tone(c: &mut EngineConfig, style: bool)
    ensures
        *final(c) == (EngineConfig { modern_tone: style, ..*old(c) }),
{
    c.modern_tone = style;
}

fn set_vietnamese(c: &mut EngineConfig, on: bool)
    ensures
        *final(c) == (EngineConfig { vietnamese_mode: on, ..*old(c) }),
{
    c.vietnamese_mode = on;
}

/// A copy of a vector of flags.
/// Number of UTF-8 bytes of a character.
fn char_len_utf8(c: char) -> (n: usize)
    ensures
        n == char_bytes(c),
{
    proof {
        lemma_char_bytes(c);
    }
    let v = c as u32;
    if v < 0x80 {
        1
    } else if v < 0x800 {
        2
    } else if v < 0x10000 {
        3
    } else {
        4
    }
}

/// Appends `n` copies of a case flag.
fn push_flags(cm: &mut Vec<bool>, flag: bool, n: usize)
    ensures
        final(cm)@ == old(cm)@ + Seq::new(n as nat, |_i: int| flag),
{
    let mut k: usize = 0;
    while k < n
        invariant
            k <= n,
            cm@ == old(cm)@ + Seq::new(k as nat, |_i: int| flag),
        decreases n - k,
    {
        cm.push(flag);
        assert(old(cm)@ + Seq::new((k + 1) as nat, |_i: int| flag) =~= old(cm)@ + Seq::new(
            k as nat,
            |_i: int| flag,
        ) + seq![flag]);
        k += 1;
    }
}

/// Removes the last `n` case flags (all of them when there are fewer).
fn pop_flags(cm: &mut Vec<bool>, n: usize)
    ensures
        final(cm)@ == drop_flags(old(cm)@, n as nat),
{
    if cm.len() >= n {
        let keep = cm.len() - n;
        cm.truncate(keep);
    } else {
        cm.clear();
    }
}

fn copy_bools(v: &Vec<bool>) -> (r: Vec<bool>)
    ensures
        r@ == v@,
{
    let mut r: Vec<bool> = Vec::new();
    let mut i: usize = 0;
    while i < v.len()
        invariant
            i <= v.len(),
            r@ == v@.take(i as int),
        decreases v.len() - i,
    {
        r.push(v[i]);
        assert(v@.take(i as int + 1) == v@.take(i as int).push(v@[i as int]));
        i += 1;
    }
    assert(v@.take(v.len() as int) == v@);
    r
}

/// A string with every modifier removed.
fn demod_string(s: &String) -> (r: String)
    ensures
        r@ == demod(s@),
{
    let v = chars_of(s.as_str());
    let mut out: Vec<char> = Vec::new();
    let mut i: usize = 0;
    while i < v.len()
        invariant
            i <= v.len(),
            out@ == demod(v@.take(i as int)),
        decreases v.len() - i,
    {
        let c = v[i];
        let d = if c == '\u{00E2}' || c == '\u{0103}' {
            'a'
        } else if c == '\u{00EA}' {
            'e'
        } else if c == '\u{00F4}' || c == '\u{01A1}' {
            'o'
        } else if c == '\u{01B0}' {
            'u'
        } else if c == '\u{0111}' {
            'd'
        } else {
            c
        };
        out.push(d);
        assert(demod(v@.take(i as int + 1)) =~= demod(v@.take(i as int)).push(demod_char(c)));
        i += 1;
    }
    assert(v@.take(v.len() as int) == v@);
    string_of(out.as_slice())
}

} // verus!