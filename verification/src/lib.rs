//! Deterministic normalization of file names: lowercasing, substitution of
//! separators, removal of punctuation and truncation, together with the
//! decisions a directory walk takes for each file it meets.

pub mod config;
pub mod laws;
pub mod process;
pub mod rules;
pub mod text;

pub use crate::config::{ConfigError, Limit, RunConfiguration, LIMIT_MAX, LIMIT_MIN};
pub use crate::process::{
    conclude, decide, propose, report_error, RenameOutcome, Report, RunSummary, Step,
};
pub use crate::rules::{compose, extension_of, transform, TRUNCATED_LENGTH};
