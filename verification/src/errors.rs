//! The errors that the vault operations return.

use vstd::prelude::*;

verus! {

/// Which kind of selector a failed lookup used.
#[derive(Clone, Copy, Debug, PartialEq, Eq, Structural)]
pub enum SelectorKind {
    /// A one-based index.
    Index,
    /// A record name.
    Name,
}

/// The errors of the vault library.
///
/// `Decryption` is deliberately carried without detail: a caller must not
/// learn whether the key was wrong or the data was tampered with.
#[derive(Clone, Debug, PartialEq, Eq)]
pub enum Error {
    /// The given key cannot decrypt the given data: either the data has
    /// been tampered with or the key is incorrect.
    Decryption,
    /// The given string is not valid base32.
    Base32(String),
    /// No record answers to the given selector; carries the selector kind.
    NotFound(SelectorKind),
    /// A custom field key starts with the reserved prefix.
    ReservedPrefix,
    /// Two custom-field arguments share a key; carries the key.
    DuplicateField(String),
    /// An add or edit that would change nothing.
    EmptyRecord,
    /// The stored container is corrupt.
    Serialization,
    /// The filter is not a valid regular expression.
    InvalidRegex(String),
    /// A malformed command-line argument.
    ArgParse(String),
    /// Conflicting command-line arguments.
    ArgsConflict(String),
    /// Any other failure, with its message.
    Other(String),
    /// An I/O failure reported by the shell around the library.
    Io(String),
}

/// The result type used in the whole library.
pub type LprsResult<T> = Result<T, Error>;

} // verus!
