//! Numbering of theorem-like environments in the chapters of a book, and
//! resolution of the cross-references between them.
//!
//! A chapter declares an environment by a marker `{{key}}{label}[title]`,
//! where `{label}` and `[title]` may each be left out, and refers to one by
//! `{{ref: label}}` or `{{tref: label}}`. A first pass over all chapters
//! replaces each declaration by a numbered header and records its label; a
//! second pass replaces each reference by a link.

pub mod marker;
pub mod numbering;
pub mod preprocessor;
pub mod registry;
pub mod relpath;
pub mod resolve;
pub mod text;
pub mod warning;

pub use crate::numbering::{find_and_replace_envs, Env};
pub use crate::preprocessor::{Chapter, Config, ConfigValue, NumThmPreprocessor};
pub use crate::registry::{LabelInfo, Registry};
pub use crate::relpath::compute_rel_path;
pub use crate::resolve::find_and_replace_refs;
pub use crate::warning::Warning;
