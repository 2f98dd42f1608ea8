//! An in-memory key-value store core: translation of wire values into typed
//! commands, and storage engines for strings, hashes, sets and lists.
pub mod assoc;
pub mod hashes;
pub mod laws;
pub mod lists;
pub mod numeric;
pub mod ops;
pub mod sets;
pub mod strings;
pub mod types;
