//! Verified core of a manager for OpenAPI documents generated from Dropshot
//! API definitions: naming of document files, JSON Pointer handling,
//! compatibility-issue bookkeeping, text wrapping, and the rules that decide
//! which problems (and fixes) apply to each API version.

pub mod text;
pub mod pointer;
pub mod names;
pub mod docpath;
pub mod tree;
pub mod compat;
pub mod problems;
pub mod resolve;
pub mod summary;
pub mod plural;
pub mod listing;
pub mod fixes;
pub mod overview;
pub mod per_api;
pub mod vcs;
pub mod wrap;
pub mod humanize;
pub mod errors;
pub mod messages;
pub mod groups;
pub mod render;
pub mod entries;
pub mod sources;
pub mod titles;
pub mod diffing;
pub mod stubs;
pub mod detect;
pub mod generate;
pub mod unidiff;
