//! Whitespace- and case-insensitive cache keys for text.
//!
//! Text is lowercased, split on runs of Unicode whitespace and rejoined with
//! single spaces; the key is the MD5 digest of that normalized form, rendered
//! as 32 lowercase hexadecimal digits.
pub mod fingerprinter;
pub mod normalizer;

pub use fingerprinter::{normalize_and_hash, normalize_and_hash_batch, render_digest, text_hash};
pub use normalizer::{collapse_whitespace, normalize, normalize_text};
