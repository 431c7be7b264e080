use dirstat_rs::fs_tree::tree_total;
use dirstat_rs::{AnalyzeError, DiskItem, FileInfo, FileMeta, FsEntry, FsNode, ProbeMeta};

fn file(name: &str, logical_size: u64, blocks: u64) -> FsEntry {
    FsEntry { name: name.to_string(), node: FsNode::File { meta: FileMeta { logical_size, blocks } } }
}

fn dir(name: &str, volume_id: u64, entries: Vec<FsEntry>) -> FsEntry {
    FsEntry { name: name.to_string(), node: FsNode::Dir { volume_id, entries: Some(entries) } }
}

/// A chain of `levels` nested directories with `leaf` at the bottom.
fn nest(levels: u32, volume_id: u64, leaf: FsEntry) -> FsEntry {
    let mut entry = leaf;
    let mut i: u32 = 0;
    while i < levels {
        entry = dir(&format!("level{}", i), volume_id, vec![entry]);
        i += 1;
    }
    entry
}

#[test]
fn test_max_path() {
    // Two deeply nested directory chains, each holding one file.
    let chain1 = nest(50, 3, file("file.bin", 4096, 8));
    let chain2 = nest(50, 3, file("file.bin", 8192, 16));
    let root = dir("long-path", 3, vec![chain1, chain2]);

    let probe = ProbeMeta { is_dir: true, volume_id: 3, size: FileMeta { logical_size: 0, blocks: 0 } };
    if let FileInfo::Directory { volume_id } = FileInfo::from_meta(&probe, true) {
        let result = DiskItem::from_analyze(&root, true, volume_id);
        let result = result.expect("Must collect data");
        assert_eq!(result.disk_size, 4096 + 8192);
        let children = result.children.unwrap();
        assert_eq!(children.len(), 2);
        assert_eq!(children[0].disk_size, 8192);
        assert_eq!(children[1].disk_size, 4096);
    } else {
        panic!("Can not get file info");
    }
}

#[allow(non_snake_case)]
#[test]
fn test_file_size_8KiB() {
    // Sizes close to a filesystem sector: 8192 and 8192 - 5 bytes, both
    // occupying sixteen 512-byte blocks.
    let make_root = || {
        dir(
            "test_file_size",
            5,
            vec![
                dir("foo", 5, vec![file("file.bin", 8192, 16)]),
                dir("bar", 5, vec![file("file.bin", 8192 - 5, 16)]),
            ],
        )
    };

    // When calculating with apparent size.
    let root = make_root();
    let probe = ProbeMeta { is_dir: true, volume_id: 5, size: FileMeta { logical_size: 0, blocks: 0 } };
    if let FileInfo::Directory { volume_id } = FileInfo::from_meta(&probe, true) {
        let result = DiskItem::from_analyze(&root, true, volume_id);
        let result = result.expect("Must collect data");
        assert_eq!(result.disk_size, 8192 + 8192);
        let children = result.children.unwrap();
        assert_eq!(children.len(), 2);
        // Both files are rounded to the sector size.
        assert_eq!(children[0].disk_size, 8192);
        assert_eq!(children[1].disk_size, 8192);
    } else {
        panic!("Can not get file info");
    }

    // When calculating without apparent size.
    let root = make_root();
    if let FileInfo::Directory { volume_id } = FileInfo::from_meta(&probe, false) {
        let result = DiskItem::from_analyze(&root, false, volume_id);
        let result = result.expect("Must collect data");
        assert_eq!(result.disk_size, 8192 + 8192 - 5);
        let children = result.children.unwrap();
        assert_eq!(children.len(), 2);
        assert_eq!(children[0].disk_size, 8192);
        assert_eq!(children[1].disk_size, 8192 - 5);
    } else {
        panic!("Can not get file info");
    }
}

#[test]
fn test_two_files_sorted_and_summed() {
    let root = dir("root", 1, vec![file("a", 4096, 8), file("b", 8192, 16)]);
    let result = DiskItem::from_analyze(&root, false, 1).unwrap();
    assert_eq!(result.name, "root");
    assert_eq!(result.disk_size, 12288);
    let children = result.children.unwrap();
    assert_eq!(children.len(), 2);
    assert_eq!(children[0].name, "b");
    assert_eq!(children[0].disk_size, 8192);
    assert_eq!(children[1].name, "a");
    assert_eq!(children[1].disk_size, 4096);
}

#[test]
fn test_empty_subdirectory_node() {
    let root = dir("root", 1, vec![dir("sub", 1, vec![])]);
    let result = DiskItem::from_analyze(&root, false, 1).unwrap();
    assert_eq!(result.disk_size, 0);
    let children = result.children.unwrap();
    assert_eq!(children.len(), 1);
    assert_eq!(children[0].name, "sub");
    assert_eq!(children[0].disk_size, 0);
    // An empty directory has an empty child list — not an absent one.
    assert!(children[0].children.as_ref().is_some());
    assert_eq!(children[0].children.as_ref().unwrap().len(), 0);
}

#[test]
fn test_leaf_has_no_children() {
    let leaf = file("file.bin", 123, 8);
    let result = DiskItem::from_analyze(&leaf, false, 1).unwrap();
    assert_eq!(result.disk_size, 123);
    assert!(result.children.is_none());
}

#[test]
fn test_apparent_size_rounds_to_allocation_unit() {
    // A 4000-byte file on a filesystem with 4096-byte allocation units
    // occupies eight 512-byte blocks.
    let f = file("rand_1000", 4000, 8);
    let apparent = DiskItem::from_analyze(&f, true, 1).unwrap();
    assert_eq!(apparent.disk_size, 4096);
    let logical = DiskItem::from_analyze(&f, false, 1).unwrap();
    assert_eq!(logical.disk_size, 4000);
}

#[test]
fn test_from_meta_resolves_sizes() {
    let file_probe = ProbeMeta { is_dir: false, volume_id: 9, size: FileMeta { logical_size: 2088, blocks: 8 } };
    match FileInfo::from_meta(&file_probe, false) {
        FileInfo::File { size, volume_id } => {
            assert_eq!(size, 2088);
            assert_eq!(volume_id, 9);
        }
        _ => panic!("expected a file"),
    }
    match FileInfo::from_meta(&file_probe, true) {
        FileInfo::File { size, .. } => assert_eq!(size, 4096),
        _ => panic!("expected a file"),
    }
    let dir_probe = ProbeMeta { is_dir: true, volume_id: 9, size: FileMeta { logical_size: 0, blocks: 0 } };
    match FileInfo::from_meta(&dir_probe, false) {
        FileInfo::Directory { volume_id } => assert_eq!(volume_id, 9),
        _ => panic!("expected a directory"),
    }
}

#[test]
fn test_boundary_subtree_excluded() {
    // A mounted subtree on volume 2 under a scan rooted on volume 1.
    let mounted = dir("mnt", 2, vec![file("huge", 1_000_000, 2048)]);
    let root = dir("root", 1, vec![file("a", 100, 1), mounted]);
    let result = DiskItem::from_analyze(&root, false, 1).unwrap();
    assert_eq!(result.disk_size, 100);
    let children = result.children.unwrap();
    assert_eq!(children.len(), 1);
    assert_eq!(children[0].name, "a");
}

#[test]
fn test_boundary_at_root_is_an_error() {
    let foreign = dir("mnt", 2, vec![]);
    let result = DiskItem::from_analyze(&foreign, false, 1);
    assert_eq!(result.unwrap_err(), AnalyzeError::BoundaryCrossed);
}

#[test]
fn test_vanished_entry_skipped() {
    // An entry listed by the directory but gone by the time it was probed.
    let vanished = FsEntry { name: "ghost".to_string(), node: FsNode::Unreadable };
    let root = dir("root", 1, vec![file("kept", 77, 1), vanished]);
    let result = DiskItem::from_analyze(&root, false, 1).unwrap();
    assert_eq!(result.disk_size, 77);
    let children = result.children.unwrap();
    assert_eq!(children.len(), 1);
    assert_eq!(children[0].name, "kept");
}

#[test]
fn test_unreadable_root_is_an_error() {
    let root = FsEntry { name: "root".to_string(), node: FsNode::Unreadable };
    let result = DiskItem::from_analyze(&root, false, 1);
    assert_eq!(result.unwrap_err(), AnalyzeError::Probe);
}

#[test]
fn test_unlistable_directory_skipped_and_fatal_at_root() {
    let unlistable = FsEntry {
        name: "locked".to_string(),
        node: FsNode::Dir { volume_id: 1, entries: None },
    };
    let root = dir("root", 1, vec![file("a", 10, 1), unlistable]);
    let result = DiskItem::from_analyze(&root, false, 1).unwrap();
    assert_eq!(result.disk_size, 10);
    assert_eq!(result.children.unwrap().len(), 1);

    let bare = FsEntry {
        name: "locked".to_string(),
        node: FsNode::Dir { volume_id: 1, entries: None },
    };
    let result = DiskItem::from_analyze(&bare, false, 1);
    assert_eq!(result.unwrap_err(), AnalyzeError::Enumeration);
}

#[test]
fn test_error_messages() {
    assert_eq!(AnalyzeError::BoundaryCrossed.message(), "Filesystem boundary crossed");
    assert_eq!(AnalyzeError::Probe.message(), "can not get file info");
    assert_eq!(AnalyzeError::Enumeration.message(), "can not list directory");
}

#[test]
fn test_scan_is_deterministic() {
    let make_root = || {
        dir(
            "root",
            1,
            vec![
                file("a", 5, 1),
                dir("s", 1, vec![file("x", 9, 1), file("y", 9, 1)]),
                file("b", 7, 1),
            ],
        )
    };
    let r1 = DiskItem::from_analyze(&make_root(), false, 1).unwrap();
    let r2 = DiskItem::from_analyze(&make_root(), false, 1).unwrap();
    assert_eq!(r1, r2);
}

#[test]
fn test_sort_is_stable_for_equal_sizes() {
    let root = dir(
        "root",
        1,
        vec![file("a", 5, 1), file("b", 9, 1), file("c", 7, 1), file("d", 9, 1)],
    );
    let result = DiskItem::from_analyze(&root, false, 1).unwrap();
    let children = result.children.unwrap();
    let names: Vec<&str> = children.iter().map(|c| c.name.as_str()).collect();
    assert_eq!(names, vec!["b", "d", "c", "a"]);
    assert_eq!(result.disk_size, 5 + 9 + 7 + 9);
}

#[test]
fn test_tree_total_counts_everything() {
    // The bound counts foreign and unreadable entries too.
    let root = dir(
        "root",
        1,
        vec![
            file("a", 100, 1),
            dir("mnt", 2, vec![file("huge", 1000, 2)]),
            FsEntry { name: "ghost".to_string(), node: FsNode::Unreadable },
        ],
    );
    assert_eq!(tree_total(&root, false), Some(1100));
    assert_eq!(tree_total(&root, true), Some((1 + 2) * 512));
}

#[test]
fn test_tree_total_reports_overflow() {
    let root = dir("root", 1, vec![file("a", u64::MAX, 1), file("b", 1, 1)]);
    assert_eq!(tree_total(&root, false), None);
    let f = file("blocks", 1, u64::MAX);
    assert_eq!(tree_total(&f, true), None);
}
