//! Error types for the Scope library.
//!
//! `ScopeError` holds the typed errors that callers may need to match on;
//! `message` gives each its user-facing text.
use vstd::prelude::*;
use crate::text::{chars_of, extend_str, string_of};

verus! {

/// Typed errors for Scope operations that callers may need to handle specifically.
#[derive(Debug, Clone, PartialEq, Eq)]
pub enum ScopeError {
    /// The `.scope/` directory or index database was not found.
    IndexNotFound,
    /// A symbol name was not found in the index.
    SymbolNotFound(String),
    /// tree-sitter failed to parse a source file.
    ParseError {
        /// Path to the file that failed to parse.
        file_path: String,
        /// Description of what went wrong.
        reason: String,
    },
    /// SQLite storage operation failed.
    StorageError(String),
    /// Configuration file is missing or malformed.
    ConfigError(String),
    /// A language is not yet supported by Scope.
    UnsupportedLanguage(String),
}

/// The user-facing text of an error.
pub open spec fn error_message(e: ScopeError) -> Seq<char> {
    match e {
        ScopeError::IndexNotFound => "No index found. Run 'sc init' to initialise, then 'sc index' to build the index."@,
        ScopeError::SymbolNotFound(s) => "Symbol '"@ + s@ + "' not found in index. Run 'sc index' if this is a new file."@,
        ScopeError::ParseError { file_path, reason } => "Failed to parse "@ + file_path@ + ": "@ + reason@,
        ScopeError::StorageError(s) => "Storage error: "@ + s@,
        ScopeError::ConfigError(s) => "Configuration error: "@ + s@,
        ScopeError::UnsupportedLanguage(s) => "Unsupported language: "@ + s@,
    }
}

impl ScopeError {
    /// The error's user-facing message.
    pub fn message(&self) -> (r: String)
        ensures
            r@ == error_message(*self),
    {
        match self {
            ScopeError::IndexNotFound => "No index found. Run 'sc init' to initialise, then 'sc index' to build the index.".to_string(),
            ScopeError::SymbolNotFound(s) => {
                let mut v = chars_of("Symbol '");
                extend_str(&mut v, s.as_str());
                extend_str(&mut v, "' not found in index. Run 'sc index' if this is a new file.");
                string_of(&v)
            },
            ScopeError::ParseError { file_path, reason } => {
                let mut v = chars_of("Failed to parse ");
                extend_str(&mut v, file_path.as_str());
                extend_str(&mut v, ": ");
                extend_str(&mut v, reason.as_str());
                string_of(&v)
            },
            ScopeError::StorageError(s) => {
                let mut v = chars_of("Storage error: ");
                extend_str(&mut v, s.as_str());
                string_of(&v)
            },
            ScopeError::ConfigError(s) => {
                let mut v = chars_of("Configuration error: ");
                extend_str(&mut v, s.as_str());
                string_of(&v)
            },
            ScopeError::UnsupportedLanguage(s) => {
                let mut v = chars_of("Unsupported language: ");
                extend_str(&mut v, s.as_str());
                string_of(&v)
            },
        }
    }
}

} // verus!
