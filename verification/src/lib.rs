//! A single-user secrets vault: one RSA key pair, itself sealed under a
//! password, encrypts the secret of every stored credential.
//!
//! - `main_key`: the master key pair, its sealed container, encryption and
//!   decryption of secrets, and the watermark of identifiers.
//! - `key`: one credential, the line that lists it, the file that mirrors it.
//! - `records`: the credentials as a sequence of plain values, and the laws
//!   of finding, storing and removing them.
//! - `key_box`: the vault of a session. It reads and writes no file: each
//!   change is planned, mirrored on disk by the caller, then committed.
//! - `command`: a typed line as one of a closed set of commands.
//! - `text`: the string operations the others rest on.
//! - `errs`: the failures.

pub mod command;
pub mod errs;
pub mod key;
pub mod key_box;
pub mod main_key;
pub mod records;
pub mod text;
