//! Errors of the engine.
use vstd::prelude::*;
use crate::text::push_str;

verus! {

/// The errors that the engine can report.
#[derive(Debug, Clone, PartialEq, Eq)]
pub enum EngineError {
    /// Invalid configuration.
    InvalidConfig(String),
    /// A syllable that cannot be parsed (usually from garbage input).
    InvalidSyllable(String),
    /// A failed shorthand lookup.
    ShorthandLookupError(String),
    /// The engine buffer is too long.
    BufferOverflow,
}

/// Result type of the engine.
pub type EngineResult<T> = Result<T, EngineError>;

/// The message of an error.
pub open spec fn error_message(e: EngineError) -> Seq<char> {
    match e {
        EngineError::InvalidConfig(s) => "Cấu hình không hợp lệ: "@ + s@,
        EngineError::InvalidSyllable(s) => "Âm tiết không hợp lệ: "@ + s@,
        EngineError::ShorthandLookupError(s) => "Lỗi gõ tắt: "@ + s@,
        EngineError::BufferOverflow => "Tràn bộ nhớ đệm Engine"@,
    }
}

impl EngineError {
    /// The human-readable message of the error.
    pub fn message(&self) -> (r: String)
        ensures
            r@ == error_message(*self),
    {
        let mut r = String::new();
        match self {
            EngineError::InvalidConfig(s) => {
                push_str(&mut r, "Cấu hình không hợp lệ: ");
                push_str(&mut r, s.as_str());
            },
            EngineError::InvalidSyllable(s) => {
                push_str(&mut r, "Âm tiết không hợp lệ: ");
                push_str(&mut r, s.as_str());
            },
            EngineError::ShorthandLookupError(s) => {
                push_str(&mut r, "Lỗi gõ tắt: ");
                push_str(&mut r, s.as_str());
            },
            EngineError::BufferOverflow => {
                push_str(&mut r, "Tràn bộ nhớ đệm Engine");
            },
        }
        r
    }
}

} // verus!
