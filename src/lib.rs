//! Reversible obfuscation of numeric identifiers: a salted, alphabet-bound
//! codec over `hash_ids`, the options that configure it, and the per-field
//! classification and transforms that a serializer drives.
use vstd::prelude::*;

pub mod classify;
pub mod dispatch;
pub mod hashids;
pub mod laws;
pub mod numeric;
pub mod record;
pub mod salt;
