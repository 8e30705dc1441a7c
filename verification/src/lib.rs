//! An in-memory description of a filesystem tree — files with fixed textual
//! contents and directories of recursively nested named children — together
//! with a verified model of how such a tree is materialized: which filesystem
//! actions are performed, in which order, what each one does to the
//! filesystem, and when the whole creation succeeds.

pub mod entry;
pub mod fs;
pub mod create;
pub mod plan;
pub mod laws;

pub use entry::Directory;
pub use entry::Entry;
pub use entry::EntryTree;
pub use entry::EntryView;
pub use entry::File;
