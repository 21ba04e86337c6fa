//! Verified core of a command line tool that encrypts files and directories
//! with AES-256-GCM: command line flags, the archive format that packs a
//! directory tree into one byte string, key derivation and sealing.

pub mod archive;
pub mod assoc;
pub mod cli;
pub mod crypto;
pub mod descriptions;
pub mod error;
pub mod flags;
pub mod test_utils;
pub mod text;
