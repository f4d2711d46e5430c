//! Term model, open-recursive AST fold framework, and in-memory knowledge
//! base for an embeddable logic-rule language.
//!
//! The crate is organized as follows:
//! - [`terms`]: the term/AST value model (`Term`, `Value`, `Symbol`, ...);
//! - [`maps`]: a key-sorted association map used for dictionaries, keyword
//!   arguments, and the knowledge base's scope tables;
//! - [`folder`]: the open-recursive fold (transformer) framework;
//! - [`counter`]: a wraparound-safe monotonic identifier generator;
//! - [`sources`]: the source registry kept for diagnostics;
//! - [`kb`]: the scoped knowledge base of constants and rules.

pub mod counter;
pub mod folder;
pub mod kb;
pub mod laws;
pub mod maps;
pub mod sources;
pub mod terms;
