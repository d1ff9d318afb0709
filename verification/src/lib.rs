//! Gathers source files from a directory tree, filters them by glob patterns,
//! size and a binary-content heuristic, and renders the surviving set as a
//! single structured document (Markdown or tagged markup).
//!
//! File contents and match keys are handled as byte strings throughout, so
//! every transformation is stated exactly over `Seq<u8>`.

use vstd::prelude::*;

pub mod bytes;
pub mod format;
pub mod globs;
pub mod lang;
pub mod markdown;
pub mod markup;
pub mod md_roundtrip;
pub mod render;
pub mod report;
pub mod roundtrip;
pub mod select;
pub mod tokens;
pub mod tree;

pub use format::OutputFormat;
pub use format::parse_output_format;
pub use globs::build_filter;
pub use lang::lang_tag;
pub use markdown::format_markdown;
pub use markup::format_xml;
pub use report::format_token_report;
pub use select::CollectedFile;
pub use select::FileEntry;
pub use select::select_entries;
pub use tokens::estimate_tokens;
pub use tree::format_tree;
pub use tree::select_paths;

verus! {

} // verus!
