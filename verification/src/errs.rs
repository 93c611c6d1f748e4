//! The failures a vault operation can report.

use vstd::prelude::*;

verus! {

/// Why an operation on the vault did not go through.
#[derive(Clone, Copy, Debug, PartialEq, Eq, Structural)]
pub enum KeyBoxErr {
    /// The sealed master key did not open under the password given.
    WrongPassword,
    /// No usable key pair could be produced, or a secret does not fit the key.
    KeyGenerationError,
    /// A file that mirrors the vault could not be written or removed.
    PersistenceError,
    /// A stored record cannot be part of a consistent vault.
    CorruptRecordError,
    /// No record carries the identifier asked for.
    NoSuchRecord,
    /// A stored secret is not a ciphertext of the master key.
    DecryptionError,
}

} // verus!
