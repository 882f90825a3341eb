//! A parser for the Twee 3 interactive-fiction markup format.
//!
//! A Twee story is a plain-text sequence of named passages, each introduced
//! by a `::` header line.  This crate splits a source buffer into passages,
//! parses each header (name, tag block, JSON metadata block) and body
//! (story title, story data, script, stylesheet, or ordinary Twine content
//! with `[[...]]` links), and assembles the result into a [`Story`],
//! collecting precise, source-located diagnostics along the way.  A
//! malformed passage never aborts the rest of the parse: errors from
//! independent passages are merged and reported together.

mod code_map;
mod contents;
mod context;
mod header;
mod issues;
mod json;
mod output;
mod passage;
mod position;
mod scan;
mod story;
mod text;
mod twine;
pub mod positions;

pub use code_map::CodeMap;
pub use code_map::ContextErrorList;
pub use contents::PassageContent;
pub use contents::ScriptContent;
pub use contents::StoryData;
pub use contents::StoryTitle;
pub use contents::StylesheetContent;
pub use context::FullContext;
pub use context::PartialContext;
pub use context::SubContextRange;
pub use header::PassageHeader;
pub use issues::Error;
pub use issues::ErrorList;
pub use issues::ErrorType;
pub use issues::Contextual;
pub use issues::DiagnosticsConfig;
pub use issues::Warning;
pub use issues::WarningType;
pub use json::Metadata;
pub use json::MetadataValue;
pub use output::Output;
pub use passage::Passage;
pub use position::Position;
pub use position::PositionKind;
pub use positions::Positional;
pub use story::PassageMap;
pub use story::Story;
pub use story::StoryPassages;
pub use story::TwinePassage;
pub use twine::TwineContent;
pub use twine::TwineLink;
