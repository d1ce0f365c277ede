use vnkey_core::{Engine, InputMode};

// ---- Basic Telex ----

#[test]
fn test_telex_basic_tone() {
    let mut e = Engine::new(InputMode::Telex);
    let mut cfg = e.config().clone();
    cfg.spell_check = false;
    cfg.auto_restore = false;
    e.set_config(cfg);
    assert_eq!(e.feed_str("as"), "\u{00E1}");
    e.reset();
    assert_eq!(e.feed_str("af"), "\u{00E0}");
    e.reset();
    assert_eq!(e.feed_str("ar"), "\u{1EA3}");
    e.reset();
    assert_eq!(e.feed_str("ax"), "\u{00E3}");
    e.reset();
    assert_eq!(e.feed_str("aj"), "\u{1EA1}");
}

#[test]
fn test_telex_word_viet() {
    let mut e = Engine::new(InputMode::Telex);
    assert_eq!(e.feed_str("Vieejt"), "Vi\u{1EC7}t");
}

#[test]
fn test_telex_word_tieng() {
    let mut e = Engine::new(InputMode::Telex);
    assert_eq!(e.feed_str("tieesng"), "ti\u{1EBF}ng");
}

// ---- QU / GI special cases ----

#[test]
fn test_telex_qu() {
    let mut e = Engine::new(InputMode::Telex);
    let mut cfg = e.config().clone();
    cfg.spell_check = false;
    cfg.auto_restore = false;
    e.set_config(cfg);
    assert_eq!(e.process_key('q'), "q");
    assert_eq!(e.process_key('u'), "qu");
    assert_eq!(e.process_key('a'), "qua");
    assert_eq!(e.process_key('s'), "qu\u{00E1}");
}

#[test]
fn test_telex_gi() {
    let mut e = Engine::new(InputMode::Telex);
    assert_eq!(e.process_key('g'), "g");
    assert_eq!(e.process_key('i'), "gi");
    assert_eq!(e.process_key('f'), "g\u{00EC}");
}

// ---- Smart W & Bracket keys ----

#[test]
fn test_telex_bracket_u() {
    let mut e = Engine::new(InputMode::Telex);
    let mut cfg = e.config().clone();
    cfg.spell_check = false;
    cfg.auto_restore = false;
    e.set_config(cfg);
    assert_eq!(e.process_key('h'), "h");
    assert_eq!(e.process_key('['), "h\u{01B0}");
}

#[test]
fn test_telex_bracket_o() {
    let mut e = Engine::new(InputMode::Telex);
    let mut cfg = e.config().clone();
    cfg.spell_check = false;
    cfg.auto_restore = false;
    e.set_config(cfg);
    assert_eq!(e.process_key('h'), "h");
    assert_eq!(e.process_key(']'), "h\u{01A1}");
}

// ---- Z and X at word start (no vowel yet) ----

#[test]
fn test_telex_x_no_vowel() {
    let mut e = Engine::new(InputMode::Telex);
    assert_eq!(e.process_key('x'), "x");
}

#[test]
fn test_telex_z_no_vowel() {
    let mut e = Engine::new(InputMode::Telex);
    assert_eq!(e.process_key('z'), "z");
}

// ---- Double-tap cancellation ----

#[test]
fn test_telex_double_s() {
    let mut e = Engine::new(InputMode::Telex);
    let mut cfg = e.config().clone();
    cfg.spell_check = false;
    cfg.auto_restore = false;
    e.set_config(cfg);
    assert_eq!(e.feed_str("ass"), "as");
}

// ---- Casing Preservation ----

#[test]
fn test_casing_preservation() {
    let mut e = Engine::new(InputMode::Telex);
    let mut cfg = e.config().clone();
    cfg.spell_check = false;
    cfg.auto_restore = false;
    e.set_config(cfg);

    assert_eq!(e.feed_str("VNkey"), "VNkey");
    e.reset();
    assert_eq!(e.feed_str("Vnkey"), "Vnkey");
    e.reset();
    // viEejt -> lengths differ, falls back to first character capitalization check.
    // First char 'v' is lowercase, so the string falls back to lowercase -> việt
    let vi_et = "vi\u{1EC7}t"; 
    assert_eq!(e.feed_str("viEejt"), vi_et);
    e.reset();
    assert_eq!(e.feed_str("VIEEJT"), "VI\u{1EC6}T");
}

// ---- VNI basics ----

#[test]
fn test_vni_tone() {
    let mut e = Engine::new(InputMode::Vni);
    let mut cfg = e.config().clone();
    cfg.spell_check = false;
    cfg.auto_restore = false;
    e.set_config(cfg);
    assert_eq!(e.feed_str("a1"), "á");
    e.reset();
    assert_eq!(e.feed_str("a2"), "à");
}

// ---- Word boundary ----

#[test]
fn test_word_boundary_space() {
    let mut e = Engine::new(InputMode::Telex);
    let mut cfg = e.config().clone();
    cfg.spell_check = false;
    cfg.auto_restore = false;
    e.set_config(cfg);
    let r = e.feed_str("as ");
    assert_eq!(r, "\u{00E1} ");
    // After space, buffer should be reset
    assert_eq!(e.process_key('b'), "b");
}

// ---- Mode switching ----

#[test]
fn test_mode_switch() {
    let mut e = Engine::new(InputMode::Telex);
    assert_eq!(e.feed_str("as"), "á");
    e.set_mode(InputMode::Vni);
    assert_eq!(e.feed_str("a1"), "á");
}

// ---- Phase 9: UniKey Parity Tests ----

#[test]
fn test_shorthand_basic() {
    let mut e = Engine::new(InputMode::Telex);
    let mut cfg = e.config().clone();
    cfg.macro_enabled = true;
    e.set_config(cfg);

    // Add a clean test case to avoid ambiguity
    e.shorthand_dict_mut().add("test", "th\u{00E0}nh c\u{00F4}ng");

    // "test" -> "thành công"
    assert_eq!(e.feed_str("test "), "th\u{00E0}nh c\u{00F4}ng ");
    
    // Casing: "Test" -> "Thành công"
    e.reset();
    assert_eq!(e.feed_str("Test "), "Th\u{00E0}nh c\u{00F4}ng ");

    // Built-in check
    e.reset();
    assert_eq!(e.feed_str("vn "), "Vi\u{1EC7}t Nam ");
}

#[test]
fn test_shorthand_while_off() {
    let mut e = Engine::new(InputMode::Telex);
    let mut cfg = e.config().clone();
    cfg.vietnamese_mode = false; // E mode
    cfg.macro_enabled = true;
    cfg.shorthand_while_off = true;
    e.set_config(cfg);

    e.shorthand_dict_mut().add("vn", "Việt Nam");

    // "vn" -> "Việt Nam" even in E mode
    assert_eq!(e.feed_str("vn "), "Việt Nam ");
    
    // Normal typing in E mode
    assert_eq!(e.feed_str("as"), "as");
}

#[test]
fn test_modern_tone_placement() {
    let mut e = Engine::new(InputMode::Telex);
    let mut cfg = e.config().clone();
    
    // Traditional (default): hóa, túy
    cfg.modern_tone = false;
    e.set_config(cfg.clone());
    assert_eq!(e.feed_str("hoas"), "h\u{00F3}a"); // hóa
    e.reset();
    assert_eq!(e.feed_str("tuys"), "t\u{00FA}y"); // túy (Traditional)
    
    // Modern: hoá, tuý
    e.reset();
    cfg.modern_tone = true;
    e.set_config(cfg);
    assert_eq!(e.feed_str("hoas"), "ho\u{00E1}"); // hoá
    e.reset();
    assert_eq!(e.feed_str("tuys"), "tu\u{00FD}"); // tuý (Modern)
}

#[test]
fn test_auto_restore_invalid_syllable() {
    let mut e = Engine::new(InputMode::Telex);
    let mut cfg = e.config().clone();
    cfg.spell_check = true;
    cfg.auto_restore = true;
    e.set_config(cfg);

    // "bcdf" is completely unparseable (no vowel at all, buffer > 2)
    // The engine should restore the raw buffer
    assert_eq!(e.feed_str("bcdf"), "bcdf");
    
    // Valid syllable should still transform
    e.reset();
    assert_eq!(e.feed_str("nguowif"), "người");

    // "ddax" SHOULD produce "đã" not "ddax" (has valid onset+vowel+tone)
    e.reset();
    assert_eq!(e.feed_str("ddax"), "\u{0111}\u{00E3}");
}

// ---- Double-tap and Triple-tap W ----
#[test]
fn test_telex_w_variants() {
    let mut e = Engine::new(InputMode::Telex);
    assert_eq!(e.feed_str("w"), "ư");
    e.reset();
    assert_eq!(e.feed_str("ww"), "w");
    e.reset();
    assert_eq!(e.feed_str("www"), "ww");
}
