//! Keeps a canonical block-comment header at the top of source files.
//!
//! The library holds the verified core of a header-enforcement tool: it
//! detects a file's leading block comment, decides whether to skip, replace
//! or add the canonical header, substitutes the `$origin` placeholder with a
//! remote URL, normalizes that URL, and filters paths by extension. File
//! content and paths are modeled as byte sequences.

/// Byte classification and small verified helpers on byte vectors.
pub mod bytes;
/// The extension filter deciding which paths are considered at all.
pub mod filter;
/// The header grammar: optional leading whitespace, `/*`, first `*/`.
pub mod header;
/// Substitution of the `$origin` placeholder in the header template.
pub mod origin;
/// The per-file decision: skip, replace the header, or add it.
pub mod rewrite;
/// Normalization of the remote URL the header is parameterized with.
pub mod url;
