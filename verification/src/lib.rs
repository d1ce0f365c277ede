use vstd::prelude::*;

pub mod text;
pub mod unicode_map;
pub mod syllable;
pub mod config;
pub mod tone;
pub mod telex;
pub mod vni;
pub mod viqr;
pub mod phonology;
pub mod shorthand;
pub mod dictionary;
pub mod engine;
pub mod converter;
pub mod hook;
pub mod error;

pub use config::{EngineConfig, TonePlacement};
pub use engine::{DiagnosticData, Engine, EngineState, InputMode};
pub use phonology::{is_perfect, validate_syllable};
pub use shorthand::ShorthandDict;
pub use syllable::Syllable;
pub use tone::ToneMark;
pub use dictionary::Dictionary;
pub use error::{EngineError, EngineResult};
pub use converter::{count_vietnamese_chars, is_vietnamese, remove_diacritics, VnEncoding};

verus! {
} // verus!
