use vnkey_core::{config, tone, Engine, InputMode};

#[test]
fn test_universal_telex_exhaustive() {
    let syllables = generate_syllables();
    println!("Generated {} valid syllables for testing.", syllables.len());

    let mut engine = Engine::new(InputMode::Telex);
    let mut config = engine.config().clone();
    config.spell_check = false; // Disable spell check for raw syllable testing
    config.auto_restore = false;
    engine.set_config(config);

    let mut pass_count = 0;

    for s in &syllables {
        engine.reset();
        let typing_sequence = syllable_to_telex(s);
        let result = engine.feed_str(&typing_sequence);

        let expected = calculate_expected(s, engine.config().modern_tone);

        if result != expected {
            println!(
                "FAIL: Syllable '{}{}{}' (Tone {}). Sequence: '{}'. Expected: '{}', Got: '{}'",
                s.onset, s.vowel, s.coda, s.tone, typing_sequence, expected, result
            );
        } else {
            pass_count += 1;
        }
    }

    println!(
        "Exhaustive Test: {}/{} passed.",
        pass_count,
        syllables.len()
    );
    assert_eq!(pass_count, syllables.len(), "Not all syllables passed!");
}


fn calculate_expected(s: &Syllable, modern_tone: bool) -> String {
    let core = format!("{}{}", s.onset, s.vowel);
    let toned_core = if s.tone > 0 {
        tone::place_tone_with_style(
            &core,
            s.tone,
            if modern_tone {
                config::TonePlacement::Modern
            } else {
                config::TonePlacement::Traditional
            },
        )
        .unwrap_or(core)
    } else {
        core
    };
    format!("{}{}", toned_core, s.coda)
}

pub const ONSETS: &[&str] = &[
    "b", "c", "ch", "d", "đ", "g", "gh", "gi", "h", "k", "kh", "l", "m", "n", "ng", "ngh", "nh", "p",
    "ph", "q", "r", "s", "t", "th", "tr", "v", "x", "",
];

pub const VOWEL_CLUSTERS: &[&str] = &[
    "a", "ă", "â", "e", "ê", "i", "o", "ô", "ơ", "u", "ư", "y", "ai", "ao", "au", "ay", "âu", "ây",
    "eo", "ia", "iê", "iu", "oa", "oă", "oe", "oi", "ôi", "ơi", "ua", "uâ", "uê", "ui", "uô", "uơ",
    "ưa", "ươ", "uy", "uya", "uyê",
];

pub const CODAS: &[&str] = &["", "c", "ch", "m", "n", "ng", "nh", "p", "t"];

pub const TONES: &[(&str, u8)] = &[
    ("", 0),  // Ngang
    ("s", 1), // Sắc
    ("f", 2), // Huyền
    ("r", 3), // Hỏi
    ("x", 4), // Ngã
    ("j", 5), // Nặng
];

pub struct Syllable {
    pub onset: String,
    pub vowel: String,
    pub coda: String,
    pub tone: u8,
}

impl Syllable {
    pub fn is_valid(&self) -> bool {
        if self.vowel.is_empty() {
            return false;
        }

        // 1. Initial Consonant Rules
        let first_v = self.vowel.chars().next().unwrap_or(' ');
        let is_front = matches!(first_v, 'i' | 'e' | 'ê' | 'y' | 'i' | 'y');

        match self.onset.as_str() {
            "gh" | "ngh" | "k" => {
                if !is_front {
                    return false;
                }
            }
            "g" | "ng" | "c" => {
                // "gi" is allowed, but for others, back consonants go with back vowels
                if is_front && self.onset != "gi" {
                    return false;
                }
            }
            "q" => {
                // Q must be followed by U
                if !self.vowel.starts_with('u') {
                    return false;
                }
            }
            "p" => {
                // P only starts the onset in few loan words
                if !matches!(self.vowel.as_str(), "i" | "o" | "ô" | "u") {
                    return false;
                }
            }
            _ => {}
        }

        // 2. Vowel Cluster & Coda Rules
        // - y Cluster often restricted
        if self.vowel.starts_with('y') && !self.onset.is_empty() {
            if !matches!(
                self.onset.as_str(),
                "h" | "k" | "l" | "m" | "n" | "q" | "t" | "v"
            ) {
                return false;
            }
        }

        // - Stop codas (c, ch, p, t) only take Sắc/Nặng
        if matches!(self.coda.as_str(), "c" | "ch" | "p" | "t") {
            if self.tone != 1 && self.tone != 5 {
                return false;
            }
        }

        // - 'ch' and 'nh' codas only follow front vowels (a, e, ê, i)
        if matches!(self.coda.as_str(), "ch" | "nh") {
            let last_v = self.vowel.chars().last().unwrap_or(' ');
            if !matches!(last_v, 'a' | 'e' | 'ê' | 'i') {
                return false;
            }
        }

        // 3. Ambiguity Handling: uơ vs ươ
        // In Telex, uow is usually ươ. uơ only follows q in this generator's context
        // to avoid ambiguity with ươ (e.g. huow -> hươ vs huơ).
        if self.vowel == "uơ" {
            if self.onset != "q" {
                return false;
            }
        }
        if self.vowel == "ươ" {
            if self.onset == "q" {
                return false;
            }
        }

        true
    }
}

pub fn generate_syllables() -> Vec<Syllable> {
    let mut syllables = Vec::new();

    for &onset in ONSETS {
        for &vowel in VOWEL_CLUSTERS {
            for &coda in CODAS {
                for &(_, tone) in TONES {
                    let s = Syllable {
                        onset: onset.to_string(),
                        vowel: vowel.to_string(),
                        coda: coda.to_string(),
                        tone,
                    };
                    if s.is_valid() {
                        syllables.push(s);
                    }
                }
            }
        }
    }

    syllables
}

pub fn syllable_to_telex(s: &Syllable) -> String {
    let mut keys = String::new();

    // 1. Onset
    keys.push_str(&map_to_telex_keys(&s.onset));

    // 2. Vowel
    keys.push_str(&map_to_telex_keys(&s.vowel));

    // 3. Tone (placed after vowel cluster as in user examples)
    if s.tone > 0 {
        for &(key, val) in TONES {
            if val == s.tone {
                keys.push_str(key);
                break;
            }
        }
    }

    // 4. Coda
    keys.push_str(&map_to_telex_keys(&s.coda));

    keys
}

fn map_to_telex_keys(input: &str) -> String {
    let mut res = String::new();
    for c in input.chars() {
        match c {
            'â' => res.push_str("aa"),
            'ă' => res.push_str("aw"),
            'ê' => res.push_str("ee"),
            'ô' => res.push_str("oo"),
            'ơ' => res.push_str("ow"),
            'ư' => res.push_str("uw"),
            'đ' => res.push_str("dd"),
            _ => res.push(c),
        }
    }
    res
}
