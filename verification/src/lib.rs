//! Core of an autonomous agent runtime: a turn-based agent loop, a hook
//! pipeline, a tool registry with approval gating, and persistent workspace
//! memory with chunk indexing and rank-fusion search.

pub mod agent;
pub mod builtin;
pub mod bundle;
pub mod chunker;
pub mod clock;
pub mod composer;
pub mod document;
pub mod errors;
pub mod hooks;
pub mod json;
pub mod mcp;
pub mod overlay;
pub mod pattern;
pub mod reasoning;
pub mod search;
pub mod strutil;
pub mod submission;
pub mod tools;
pub mod weburl;
pub mod workspace;
