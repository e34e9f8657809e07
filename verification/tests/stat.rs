//! Sizes, permissions and what file operations find and leave.
use std::time::SystemTime;

use mish::stat::{
    file_info, format_permissions, gather_post_flight, gather_pre_flight, gather_tree_info,
    human_size, FileMeta, TreeEntry, TreeInfo,
};

// Test 13: human_size formatting (B, KB, MB, GB)
#[test]
fn test_human_size_formatting() {
    assert_eq!(human_size(0), "0 B");
    assert_eq!(human_size(512), "512 B");
    assert_eq!(human_size(1023), "1023 B");
    assert_eq!(human_size(1024), "1.0 KB");
    assert_eq!(human_size(1536), "1.5 KB");
    assert_eq!(human_size(1024 * 1024), "1.0 MB");
    assert_eq!(human_size(1024 * 1024 + 512 * 1024), "1.5 MB");
    assert_eq!(human_size(1024 * 1024 * 1024), "1.0 GB");
    assert_eq!(
        human_size(1024 * 1024 * 1024 + 512 * 1024 * 1024),
        "1.5 GB"
    );
}

/// A file of a length, as it was just written.
fn file(len: u64) -> FileMeta {
    FileMeta { len, modified: Some(SystemTime::UNIX_EPOCH), mode: 0o100644, is_dir: false }
}

const NO_TREE: TreeInfo = TreeInfo { file_count: 0, total_bytes: 0 };

// Test 14: file_info for nonexistent path
#[test]
fn test_file_info_nonexistent() {
    let result = file_info("this_file_definitely_does_not_exist_mish_test", None);
    assert!(result.contains("not found"));
    assert_eq!(result, "this_file_definitely_does_not_exist_mish_test (not found)");
}

// Test 14b: file_info for existing file
#[test]
fn test_file_info_existing() {
    let result = file_info("hello.txt", Some(file(5)));
    assert!(result.starts_with("hello.txt"));
    assert!(result.contains("5 B"));
    // Should contain some permission string like rw-r--r--
    assert!(result.contains("rw"));
    assert_eq!(result, "hello.txt (5 B, rw-r--r--)");
}

// Test 15: gather_pre_flight for existing file
#[test]
fn test_gather_pre_flight_existing_file() {
    let pre = gather_pre_flight(Some(file(14)), None);

    // Source should have stats
    assert_eq!(pre.source_size, Some(14)); // "source content" = 14 bytes
    assert!(pre.source_mtime.is_some());
    assert!(pre.source_permissions.is_some());

    // Dest should not exist yet
    assert!(!pre.dest_exists);
    assert!(pre.dest_size.is_none());
    assert!(pre.dest_mtime.is_none());
}

// Test 15b: gather_pre_flight when dest already exists
#[test]
fn test_gather_pre_flight_dest_exists() {
    let pre = gather_pre_flight(Some(file(6)), Some(file(13)));

    assert!(pre.dest_exists);
    assert_eq!(pre.dest_size, Some(13)); // "existing dest" = 13 bytes
    assert!(pre.dest_mtime.is_some());
}

// Test 16: gather_post_flight comparison
#[test]
fn test_gather_post_flight_comparison() {
    let pre = gather_pre_flight(Some(file(14)), None);
    assert!(!pre.dest_exists);

    // After a copy
    let post = gather_post_flight(Some(file(14)), &pre, NO_TREE);
    assert_eq!(post.dest_size, Some(14));
    assert!(post.dest_mtime.is_some());
    assert!(post.size_match); // source and dest sizes should match
    // Not a directory, so file_count/total_bytes should be None
    assert!(post.file_count.is_none());
    assert!(post.total_bytes.is_none());
}

// Test 16b: gather_post_flight size mismatch
#[test]
fn test_gather_post_flight_size_mismatch() {
    let pre = gather_pre_flight(Some(file(17)), None);
    let post = gather_post_flight(Some(file(5)), &pre, NO_TREE);
    assert!(!post.size_match);
}

#[test]
fn directories_are_counted_after_a_command() {
    let dir = FileMeta { len: 4096, modified: None, mode: 0o40755, is_dir: true };
    let tree = TreeInfo { file_count: 3, total_bytes: 17 };
    let pre = gather_pre_flight(None, None);
    let post = gather_post_flight(Some(dir), &pre, tree);
    assert_eq!(post.file_count, Some(3));
    assert_eq!(post.total_bytes, Some(17));
    assert!(!post.size_match);
    assert!(post.dest_mtime.is_none());
}

// Test 17: gather_tree_info
#[test]
fn test_gather_tree_info() {
    // a.txt and b.txt, and c.txt in a directory
    let sub = gather_tree_info(&[TreeEntry::File(6)]);
    let tree = gather_tree_info(&[
        TreeEntry::File(5),
        TreeEntry::File(6),
        TreeEntry::Dir(sub),
        TreeEntry::Other,
    ]);
    assert_eq!(tree.file_count, 3);
    assert_eq!(tree.total_bytes, 17); // 5 + 6 + 6
}

// Test 17b: gather_tree_info on empty directory
#[test]
fn test_gather_tree_info_empty() {
    let tree = gather_tree_info(&[]);
    assert_eq!(tree.file_count, 0);
    assert_eq!(tree.total_bytes, 0);
}

/// A size as double precision and one decimal place give it.
fn by_floats(bytes: u64) -> String {
    if bytes < 1024 {
        format!("{} B", bytes)
    } else if bytes < 1024 * 1024 {
        format!("{:.1} KB", bytes as f64 / 1024.0)
    } else if bytes < 1024 * 1024 * 1024 {
        format!("{:.1} MB", bytes as f64 / (1024.0 * 1024.0))
    } else {
        format!("{:.1} GB", bytes as f64 / (1024.0 * 1024.0 * 1024.0))
    }
}

#[test]
fn sizes_round_as_floats_do() {
    // every size up to two MB in odd steps, and all halves of tenths there
    let mut n: u64 = 0;
    while n < 2 * 1024 * 1024 {
        assert_eq!(human_size(n), by_floats(n), "{n}");
        n += 13;
    }
    for k in 0..20480u64 {
        let n = 1024 + k * 51;
        assert_eq!(human_size(n), by_floats(n), "{n}");
        let n = 1024 + k * 256;
        assert_eq!(human_size(n), by_floats(n), "{n}");
    }
    // around every power of two, and large numbers that doubles round
    for shift in 10..64u32 {
        for d in 0..40u64 {
            let n = (1u64 << shift).wrapping_add(d);
            assert_eq!(human_size(n), by_floats(n), "{n}");
            let n = (1u64 << shift).wrapping_sub(d);
            assert_eq!(human_size(n), by_floats(n), "{n}");
            let n = (1u64 << shift) + (1u64 << (shift - 1)) + d * 977;
            assert_eq!(human_size(n), by_floats(n), "{n}");
        }
    }
    assert_eq!(human_size(u64::MAX), by_floats(u64::MAX));
    assert_eq!(human_size(1280), "1.2 KB");
    assert_eq!(human_size(1792), "1.8 KB");
}

// Test: format_permissions
#[test]
fn test_format_permissions() {
    assert_eq!(format_permissions(0o755), "rwxr-xr-x");
    assert_eq!(format_permissions(0o644), "rw-r--r--");
    assert_eq!(format_permissions(0o700), "rwx------");
    assert_eq!(format_permissions(0o000), "---------");
    assert_eq!(format_permissions(0o777), "rwxrwxrwx");
}
