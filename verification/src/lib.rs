//! Disk-space analysis engine: turns a probed snapshot of a directory tree
//! into a tree of entries annotated with their resolved sizes — children
//! sorted by size, directory sizes exactly the sum of their children, foreign
//! volumes excluded, and per-entry failures absorbed without aborting the
//! scan. The caller gathers the snapshot with plain metadata queries and
//! renders the resulting tree; everything in between is verified.

pub mod analyze;
pub mod fs_tree;
pub mod item;
pub mod laws;
pub mod probe;
pub mod sort;

pub use analyze::AnalyzeError;
pub use fs_tree::{FsEntry, FsNode};
pub use item::DiskItem;
pub use probe::{FileInfo, FileMeta, ProbeMeta};
