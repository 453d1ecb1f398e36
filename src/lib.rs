//! Offline decoder for legacy (non-witness) Bitcoin transactions.
//!
//! A transaction arrives as a hexadecimal string; it is turned into bytes,
//! walked field by field with a bounds-checked cursor, and assembled into a
//! `Transaction` whose identifier is the double SHA-256 of the raw bytes.
use vstd::prelude::*;

pub mod error;
pub mod hexcodec;
pub mod model;
pub mod cursor;
pub mod readers;
pub mod hashing;
pub mod decoder;
