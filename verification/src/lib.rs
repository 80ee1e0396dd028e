//! Inserts new entries into the "unreleased" block of a markdown changelog.
//!
//! `generate_content` finds the start header, splits off the unreleased block,
//! parses the configured label sections in it, puts the message on top of the
//! first section whose label is asked for (or on top of the loose entries) and
//! lays the file out again. The steps after each regex search stand as public
//! functions of their own: `split_release`, `section_body`, `rebuild_release`
//! and `assemble_document`. The proved properties stand in `laws`,
//! `content_laws` (the existing entries survive) and `settings_laws` (defaults
//! and overrides, written out literally).

pub mod changelog;
pub mod config;
pub mod content_laws;
pub mod laws;
pub mod layout;
pub mod options;
pub mod pattern;
pub mod settings_laws;
pub mod text;

pub use crate::changelog::{assemble_document, generate_content, section_body, split_release, ChangelogError};
pub use crate::config::{Section, Settings};
pub use crate::layout::{rebuild_release, SectionContent};
pub use crate::options::{build_settings, GenerateContentOptions, SectionOptions};
pub use crate::text::split_text;
