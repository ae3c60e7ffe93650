//! A local, single-user secret vault. Values are grouped into buckets, keyed,
//! encrypted under a password and kept in an entry store.
//!
//! - `crypto`: the alignment of passwords and salts to the widths of the
//!   cipher, and authenticated encryption of values.
//! - `storage`: the entries, the errors and the contract of an entry store,
//!   and a store in memory.
//! - `sub_commands`: store, get, delete and the listings, with the rule that
//!   only who can decrypt an entry may overwrite or remove it.
//! - `text`: decimal numerals, and equality and order of texts.

pub mod crypto;
pub mod storage;
pub mod sub_commands;
pub mod text;
