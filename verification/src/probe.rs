use vstd::prelude::*;

verus! {

/// Size information for one regular file, as a platform `stat`-style probe
/// reports it: the logical byte length, and the number of 512-byte blocks the
/// filesystem has allocated for it.
#[derive(Clone, Copy, Debug, PartialEq, Eq, Structural)]
pub struct FileMeta {
    /// Exact byte length of the file's content.
    pub logical_size: u64,
    /// Number of 512-byte blocks allocated for the file. Block allocation can
    /// round the footprint up past the logical length, and sparse or
    /// compressed files can fall below it.
    pub blocks: u64,
}

/// Everything the analysis reads from a metadata probe of one path: whether
/// the path is a directory, the identity of the volume it resides on, and the
/// size information (meaningful for regular files only).
#[derive(Clone, Copy, Debug, PartialEq, Eq, Structural)]
pub struct ProbeMeta {
    /// True when the path itself (not a symbolic link target) is a directory.
    pub is_dir: bool,
    /// Opaque identifier of the containing volume, compared only for equality.
    pub volume_id: u64,
    /// Size information; ignored when `is_dir` is true.
    pub size: FileMeta,
}

/// A probe result as the analysis consumes it: a directory carries only its
/// volume identity, a file also carries its resolved size.
#[derive(Clone, Copy, Debug, PartialEq, Eq, Structural)]
pub enum FileInfo {
    File { size: u64, volume_id: u64 },
    Directory { volume_id: u64 },
}

/// Size policy: the exact logical byte length, or, when `apparent` is set,
/// the storage footprint of the allocated blocks.
pub open spec fn resolve_size_spec(meta: FileMeta, apparent: bool) -> int {
    if apparent {
        meta.blocks * 512
    } else {
        meta.logical_size as int
    }
}

/// Selects the size a file contributes to the scan, per the size policy.
pub fn resolve_size(meta: &FileMeta, apparent: bool) -> (size: u64)
    requires
        resolve_size_spec(*meta, apparent) <= u64::MAX,
    ensures
        size == resolve_size_spec(*meta, apparent),
{
    if apparent {
        meta.blocks * 512
    } else {
        meta.logical_size
    }
}

/// What `FileInfo::from_meta` returns for a given probe result.
pub open spec fn from_meta_spec(meta: ProbeMeta, apparent: bool) -> FileInfo {
    if meta.is_dir {
        FileInfo::Directory { volume_id: meta.volume_id }
    } else {
        FileInfo::File {
            size: resolve_size_spec(meta.size, apparent) as u64,
            volume_id: meta.volume_id,
        }
    }
}

impl FileInfo {
    /// Classifies a probe result: directories keep only their volume
    /// identity, files get their size resolved by the size policy.
    pub fn from_meta(meta: &ProbeMeta, apparent: bool) -> (info: FileInfo)
        requires
            !meta.is_dir ==> resolve_size_spec(meta.size, apparent) <= u64::MAX,
        ensures
            info == from_meta_spec(*meta, apparent),
    {
        if meta.is_dir {
            FileInfo::Directory { volume_id: meta.volume_id }
        } else {
            FileInfo::File { size: resolve_size(&meta.size, apparent), volume_id: meta.volume_id }
        }
    }
}

} // verus!
