//! A compiler-invocation cache: argument parsing, dependency files,
//! fingerprints and a tiered store of compressed build outputs.
//!
//! - `compiler`: compiler families and the parsing of an argument vector,
//!   response files included.
//! - `dep_parser`: make-style dependency files, parsed and rendered.
//! - `hash`, `compression`: fingerprints and payload compression.
//! - `provider`, `cache`: where entries live, and the tiered lookup with
//!   promotion and self-healing, as steps that a caller drives with its I/O.
//! - `compile_handler`: the two-phase protocol (source fingerprint, then
//!   object fingerprint) and the base-directory placeholder.
//! - `config`: the configuration as plain values.

pub mod text;
pub mod dep_parser;
pub mod compression;
pub mod hash;
pub mod compiler;
pub mod config;
pub mod provider;
pub mod cache;
pub mod compile_handler;
