//! A grok-powered, grep-like log-line classifier and re-emitter.
//!
//! Each input line is matched against a named-capture pattern compiled by the
//! `fgrok` engine; a matched line yields a [`record::Record`] (a mapping from
//! capture name to matched text).  Records are optionally merged into
//! multiline scopes bounded by start/end patterns ([`merge::MergeEngine`]),
//! filtered by an ordered include/exclude rule chain, and rendered into one
//! output line by a field projection.
//!
//! All decision logic lives here, verified: configuration layering and
//! validation, pattern-definition and rule-string parsing, the registry,
//! the record model, the filter chain's fold, the projection, and the
//! merge-scope state machine.  The pattern engine itself stays outside:
//! the driving loop hands each line to it, and feeds what it matched —
//! capture pairs and boundary-match outcomes, as plain values — through
//! the library's functions.

pub mod config;
pub mod errors;
pub mod filter;
pub mod merge;
pub mod process;
pub mod project;
pub mod record;
pub mod registry;
pub mod text;

pub use config::{Config, MergeConfig, Opt};
pub use errors::GropError;
pub use filter::{chain_verdict, filter_payloads, parse_rule, parse_rules, FilterRule};
pub use merge::{merge_match_to_buf, MergeEngine};
pub use process::{format_output, merge_plan, MergePlan};
pub use project::{project, split_commas};
pub use record::Record;
pub use registry::{add_pattern, list_pattern, PatternRegistry};
