//! Engine configuration.
use vstd::prelude::*;

verus! {

/// Tone placement style.
#[derive(Debug, Clone, Copy, PartialEq, Eq, Structural)]
pub enum TonePlacement {
    /// Modern/New style: tone on last vowel in diphthong ("hoà").
    Modern,
    /// Traditional/Old style: tone on first vowel in diphthong ("hòa").
    Traditional,
}

impl Default for TonePlacement {
    fn default() -> (r: Self)
        ensures
            r == TonePlacement::Traditional,
    {
        TonePlacement::Traditional
    }
}

/// Engine configuration, aligned with the options of UniKey 4.6.
#[derive(Debug, Clone)]
pub struct EngineConfig {
    /// Vietnamese (true) or English (false) input.
    pub vietnamese_mode: bool,
    /// Free-form late-binding modifiers.
    pub free_typing: bool,
    /// Modern tone placement ("oà", "uý") instead of traditional ("òa", "úy").
    pub modern_tone: bool,
    /// Always use the clipboard for Unicode output.
    pub clipboard_unicode: bool,
    /// Phonology validation.
    pub spell_check: bool,
    /// Restore the typed keys of a misspelt word.
    pub auto_restore: bool,
    /// Show feedback notifications.
    pub show_feedback: bool,
    /// Beep when switching language.
    pub beep_on_switch: bool,
    /// Accept 'z w j f' as consonants.
    pub allow_foreign_consonants: bool,
    /// Shorthand expansion.
    pub macro_enabled: bool,
    /// Shorthand expansion while Vietnamese input is off.
    pub shorthand_while_off: bool,
    /// Adapt the case of an expansion to the case of the abbreviation.
    pub macro_auto_case: bool,
    /// Show the settings dialog at startup.
    pub show_on_startup: bool,
    /// Start with Windows.
    pub start_with_windows: bool,
    /// Remember the input state per application.
    pub per_app_state: bool,
    /// Vietnamese user interface.
    pub vietnamese_interface: bool,
    /// Output encoding.
    pub output_charset: String,
    /// Capitalise after '.', '?' and '!'.
    pub auto_capitalize_sentence: bool,
    /// Capitalise after Enter.
    pub auto_capitalize_enter: bool,
    /// Applications that switch input to English automatically.
    pub auto_switch_apps: Vec<String>,
    /// Shortcut that toggles Vietnamese/English (e.g. "Ctrl+Shift").
    pub switch_shortcut: String,
    /// Key simulation delay in milliseconds.
    pub simulation_delay: u32,
    /// Backspace right after a committed word restores that word.
    pub backspace_restore: bool,
    /// Switch to literal mode for long or foreign-looking words.
    pub smart_literal_mode: bool,
}

/// The boolean and numeric settings of the default configuration.
pub open spec fn default_flags(c: EngineConfig) -> bool {
    &&& c.vietnamese_mode
    &&& !c.free_typing
    &&& !c.modern_tone
    &&& !c.clipboard_unicode
    &&& !c.spell_check
    &&& !c.auto_restore
    &&& c.show_feedback
    &&& !c.beep_on_switch
    &&& c.allow_foreign_consonants
    &&& !c.macro_enabled
    &&& !c.shorthand_while_off
    &&& c.macro_auto_case
    &&& !c.show_on_startup
    &&& !c.start_with_windows
    &&& !c.per_app_state
    &&& c.vietnamese_interface
    &&& !c.auto_capitalize_sentence
    &&& !c.auto_capitalize_enter
    &&& c.simulation_delay == 1
    &&& c.backspace_restore
    &&& c.smart_literal_mode
}

/// The default configuration.
pub open spec fn is_default_config(r: EngineConfig) -> bool {
    &&& default_flags(r)
    &&& r.output_charset@ == "Unicode"@
    &&& r.switch_shortcut@ == "Ctrl+Shift"@
    &&& r.auto_switch_apps@.len() == 4
    &&& r.auto_switch_apps@[0]@ == "League of Legends.exe"@
    &&& r.auto_switch_apps@[1]@ == "Valorant.exe"@
    &&& r.auto_switch_apps@[2]@ == "Counter-Strike 2.exe"@
    &&& r.auto_switch_apps@[3]@ == "Notepad.exe"@
}

impl Default for EngineConfig {
    fn default() -> (r: Self)
        ensures
            is_default_config(r),
    {
        let mut apps: Vec<String> = Vec::new();
        apps.push("League of Legends.exe".to_owned());
        apps.push("Valorant.exe".to_owned());
        apps.push("Counter-Strike 2.exe".to_owned());
        apps.push("Notepad.exe".to_owned());
        EngineConfig {
            vietnamese_mode: true,
            free_typing: false,
            modern_tone: false,
            clipboard_unicode: false,
            spell_check: false,
            auto_restore: false,
            show_feedback: true,
            beep_on_switch: false,
            allow_foreign_consonants: true,
            macro_enabled: false,
            shorthand_while_off: false,
            macro_auto_case: true,
            show_on_startup: false,
            start_with_windows: false,
            per_app_state: false,
            vietnamese_interface: true,
            output_charset: "Unicode".to_owned(),
            auto_capitalize_sentence: false,
            auto_capitalize_enter: false,
            auto_switch_apps: apps,
            switch_shortcut: "Ctrl+Shift".to_owned(),
            simulation_delay: 1,
            backspace_restore: true,
            smart_literal_mode: true,
        }
    }
}

} // verus!
