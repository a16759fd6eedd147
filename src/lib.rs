//! Batch renaming of files through an editable list of names.
//!
//! The library holds the whole decision logic of a rename run: turning the
//! matches of the selection patterns into an ordered list of entries, extracting
//! the editable part of each path, writing the names to a line-oriented buffer
//! and reading the edited buffer back, planning the target paths, and driving
//! the renames one entry at a time. The caller performs the file-system work.
pub mod codec;
pub mod enumerate;
pub mod error;
pub mod execute;
pub mod path;
pub mod plan;
pub mod report;
pub mod text;
