//! The parts on their own.

use bash_attribution::capture::{capture_file_contents, should_read_for_capture, FileRead};
use bash_attribution::capture::MAX_CAPTURE_FILE_SIZE;
use bash_attribution::diff::{diff, StatDiffResult};
use bash_attribution::snapshot::{PathMap, PathSet, StatSnapshot};
use bash_attribution::watermark::{find_stale_files, DaemonWatermarks};
use bash_attribution::{
    classify_tool, normalize_path, sanitize_key, system_time_to_nanos, Agent, FileMetadata, FilePath,
    FileTime, PathSystem, SortedMap, StatEntry, StatFileType, ToolClass,
};

const SECOND: i128 = 1_000_000_000;

fn at_secs(secs: i128) -> FileTime {
    FileTime { nanos: secs * SECOND }
}

fn regular_file(len: u64, modified: FileTime) -> FileMetadata {
    FileMetadata {
        is_symlink: false,
        is_dir: false,
        is_file: true,
        modified: Some(modified),
        created: None,
        len,
        readonly: false,
        unix_mode: Some(0o100644),
        unix_ctime: Some((1_700_000_000, 5)),
    }
}

fn regular_entry(size: u64, time: FileTime) -> StatEntry {
    StatEntry {
        exists: true,
        mtime: Some(time),
        ctime: Some(time),
        size,
        mode: 0o644,
        file_type: StatFileType::Regular,
    }
}

fn tree(key: &str, entries: Vec<(FilePath, StatEntry)>, in_git: Vec<&str>) -> StatSnapshot {
    let entries: PathMap = SortedMap::from_entries(entries);
    let tracked_files: PathSet = SortedMap::from_entries(
        in_git.into_iter().map(|t| (normalize_path(PathSystem::Unix, &FilePath::new(t)), ())).collect(),
    );
    StatSnapshot {
        entries,
        tracked_files,
        gitignore: None,
        taken_at: None,
        invocation_key: key.to_string(),
        repo_root: FilePath::new("/tmp"),
        exact_names: true,
    }
}

#[test]
fn test_stat_entry_from_metadata() {
    let entry = StatEntry::from_metadata(&regular_file("hello world".len() as u64, at_secs(7)));
    assert!(entry.exists);
    assert!(entry.mtime.is_some());
    assert_eq!(entry.size, 11);
    assert_eq!(entry.file_type, StatFileType::Regular);
}

#[test]
fn test_stat_entry_equality() {
    let meta = regular_file("hello".len() as u64, at_secs(7));
    let entry1 = StatEntry::from_metadata(&meta);
    let entry2 = StatEntry::from_metadata(&meta);
    assert_eq!(entry1, entry2);
}

#[test]
fn test_stat_entry_modification_detected() {
    let written = FileTime { nanos: 7 * SECOND };
    let entry1 = StatEntry::from_metadata(&regular_file("hello".len() as u64, written));
    let later = FileTime { nanos: 7 * SECOND + 50 * 1_000_000 };
    let entry2 = StatEntry::from_metadata(&regular_file("hello world".len() as u64, later));
    assert_ne!(entry1, entry2);
    assert_ne!(entry1.size, entry2.size);
}

#[test]
fn stat_entry_prefers_the_link_and_keeps_the_bits() {
    let mut meta = regular_file(3, at_secs(1));
    let plain = StatEntry::from_metadata(&meta);
    assert_eq!(plain.mode, 0o100644);
    assert_eq!(plain.ctime, Some(FileTime { nanos: 1_700_000_000 * SECOND + 5 }));
    meta.is_symlink = true;
    assert_eq!(StatEntry::from_metadata(&meta).file_type, StatFileType::Symlink);
    meta.is_symlink = false;
    meta.is_file = false;
    assert_eq!(StatEntry::from_metadata(&meta).file_type, StatFileType::Other);
    meta.is_dir = true;
    assert_eq!(StatEntry::from_metadata(&meta).file_type, StatFileType::Directory);
}

#[test]
fn stat_entry_without_unix_values() {
    let mut meta = regular_file(3, at_secs(1));
    meta.unix_mode = None;
    meta.unix_ctime = None;
    meta.created = Some(at_secs(4));
    let entry = StatEntry::from_metadata(&meta);
    assert_eq!(entry.mode, 0o644);
    assert_eq!(entry.ctime, Some(at_secs(4)));
    meta.readonly = true;
    assert_eq!(StatEntry::extract_mode(&meta), 0o444);
    meta.unix_ctime = Some((-1, 0));
    assert_eq!(StatEntry::extract_ctime(&meta), None);
}

#[test]
fn test_normalize_path_consistency() {
    let path = FilePath::new("src/main.rs");
    let normalized = normalize_path(PathSystem::Unix, &path);
    let normalized2 = normalize_path(PathSystem::Unix, &path);
    assert_eq!(normalized.text(), normalized2.text());
    assert_eq!(normalized.text(), "src/main.rs");
}

#[test]
fn test_diff_empty_snapshots() {
    let pre = tree("test:1", vec![], vec![]);
    let post = tree("test:2", vec![], vec![]);
    let result = diff(&pre, &post);
    assert!(result.is_empty());
}

#[test]
fn test_diff_detects_creation() {
    let pre = tree("test:1", vec![], vec![]);
    let now = at_secs(1_700_000_000);
    let post = tree(
        "test:2",
        vec![(normalize_path(PathSystem::Unix, &FilePath::new("new_file.txt")), regular_entry(100, now))],
        vec![],
    );
    let result = diff(&pre, &post);
    assert_eq!(result.created.len(), 1);
    assert!(result.modified.is_empty());
    assert!(result.deleted.is_empty());
    assert_eq!(result.created[0].text(), "new_file.txt");
}

#[test]
fn test_diff_detects_deletion() {
    let now = at_secs(1_700_000_000);
    let pre = tree(
        "test:1",
        vec![(normalize_path(PathSystem::Unix, &FilePath::new("deleted.txt")), regular_entry(50, now))],
        vec!["deleted.txt"],
    );
    let post = tree("test:2", vec![], vec![]);
    let result = diff(&pre, &post);
    assert!(result.created.is_empty());
    assert!(result.modified.is_empty());
    assert_eq!(result.deleted.len(), 1);
    assert_eq!(result.deleted[0].text(), "deleted.txt");
}

#[test]
fn test_diff_detects_modification() {
    let path = FilePath::new("modified.txt");
    let now = at_secs(1_700_000_000);
    let later = at_secs(1_700_000_001);
    let pre = tree(
        "test:1",
        vec![(normalize_path(PathSystem::Unix, &path), regular_entry(50, now))],
        vec!["modified.txt"],
    );
    let post = tree("test:2", vec![(normalize_path(PathSystem::Unix, &path), regular_entry(75, later))], vec![]);
    let result = diff(&pre, &post);
    assert!(result.created.is_empty());
    assert_eq!(result.modified.len(), 1);
    assert!(result.deleted.is_empty());
}

#[test]
fn test_tool_classification_claude() {
    assert_eq!(classify_tool(Agent::Claude, "Write"), ToolClass::FileEdit);
    assert_eq!(classify_tool(Agent::Claude, "Edit"), ToolClass::FileEdit);
    assert_eq!(classify_tool(Agent::Claude, "MultiEdit"), ToolClass::FileEdit);
    assert_eq!(classify_tool(Agent::Claude, "Bash"), ToolClass::Bash);
    assert_eq!(classify_tool(Agent::Claude, "Read"), ToolClass::Skip);
    assert_eq!(classify_tool(Agent::Claude, "unknown"), ToolClass::Skip);
}

#[test]
fn test_tool_classification_all_agents() {
    assert_eq!(classify_tool(Agent::Gemini, "write_file"), ToolClass::FileEdit);
    assert_eq!(classify_tool(Agent::Gemini, "shell"), ToolClass::Bash);
    assert_eq!(classify_tool(Agent::ContinueCli, "edit"), ToolClass::FileEdit);
    assert_eq!(classify_tool(Agent::ContinueCli, "terminal"), ToolClass::Bash);
    assert_eq!(classify_tool(Agent::ContinueCli, "local_shell_call"), ToolClass::Bash);
    assert_eq!(classify_tool(Agent::Droid, "ApplyPatch"), ToolClass::FileEdit);
    assert_eq!(classify_tool(Agent::Droid, "Bash"), ToolClass::Bash);
    assert_eq!(classify_tool(Agent::Amp, "Write"), ToolClass::FileEdit);
    assert_eq!(classify_tool(Agent::Amp, "Bash"), ToolClass::Bash);
    assert_eq!(classify_tool(Agent::OpenCode, "edit"), ToolClass::FileEdit);
    assert_eq!(classify_tool(Agent::OpenCode, "bash"), ToolClass::Bash);
    assert_eq!(classify_tool(Agent::OpenCode, "shell"), ToolClass::Bash);
}

#[test]
fn test_sanitize_key() {
    assert_eq!(sanitize_key("session:tool"), "session_tool");
    assert_eq!(sanitize_key("a/b\\c"), "a_b_c");
    assert_eq!(sanitize_key("normal_key"), "normal_key");
}

#[test]
fn test_stat_diff_result_all_changed_paths() {
    let result = StatDiffResult {
        created: vec![FilePath::new("new.txt")],
        modified: vec![FilePath::new("changed.txt")],
        deleted: vec![FilePath::new("removed.txt")],
    };
    let paths = result.all_changed_paths();
    assert_eq!(paths.len(), 3);
    assert!(paths.contains(&"new.txt".to_string()));
    assert!(paths.contains(&"changed.txt".to_string()));
    assert!(paths.contains(&"removed.txt".to_string()));
}

#[test]
fn test_system_time_to_nanos() {
    assert_eq!(system_time_to_nanos(at_secs(1)), 1_000_000_000);
}

#[test]
fn test_system_time_to_nanos_epoch() {
    assert_eq!(system_time_to_nanos(at_secs(0)), 0);
}

#[test]
fn a_time_before_the_epoch_counts_as_the_epoch() {
    assert_eq!(system_time_to_nanos(at_secs(-5)), 0);
}

fn snapshot_of(entries: Vec<(FilePath, StatEntry)>) -> StatSnapshot {
    tree("test:stale", entries, vec![])
}

fn entry_at(mtime_secs: i128, exists: bool) -> StatEntry {
    let mtime = if exists { Some(at_secs(mtime_secs)) } else { None };
    StatEntry {
        exists,
        mtime,
        ctime: mtime,
        size: 100,
        mode: 0o644,
        file_type: StatFileType::Regular,
    }
}

fn nanos(secs: u128) -> u128 {
    secs * 1_000_000_000
}

fn marks(per_file: Vec<(&str, u128)>, worktree: Option<u128>) -> DaemonWatermarks {
    DaemonWatermarks {
        per_file: SortedMap::from_entries(
            per_file.into_iter().map(|(path, ns)| (path.to_string(), ns)).collect(),
        ),
        worktree,
    }
}

#[test]
fn test_find_stale_files_cold_start_excludes_unwatermarked_files() {
    let snapshot =
        snapshot_of(vec![(normalize_path(PathSystem::Unix, &FilePath::new("src/main.rs")), entry_at(100, true))]);
    let stale = find_stale_files(&snapshot, &marks(vec![], None));
    assert!(
        stale.is_empty(),
        "cold-start: unwatermarked files not returned; git status handles them"
    );
}

#[test]
fn test_find_stale_files_uses_worktree_watermark_as_fallback() {
    let snapshot =
        snapshot_of(vec![(normalize_path(PathSystem::Unix, &FilePath::new("src/main.rs")), entry_at(100, true))]);
    let stale = find_stale_files(&snapshot, &marks(vec![], Some(nanos(90))));
    assert_eq!(stale.len(), 1, "file modified after worktree watermark is stale");
}

#[test]
fn test_find_stale_files_worktree_watermark_within_grace() {
    let snapshot =
        snapshot_of(vec![(normalize_path(PathSystem::Unix, &FilePath::new("src/main.rs")), entry_at(100, true))]);
    let stale = find_stale_files(&snapshot, &marks(vec![], Some(nanos(99))));
    assert!(stale.is_empty(), "file within grace of worktree watermark is not stale");
}

#[test]
fn test_find_stale_files_per_file_wins_over_worktree() {
    let snapshot =
        snapshot_of(vec![(normalize_path(PathSystem::Unix, &FilePath::new("src/lib.rs")), entry_at(100, true))]);
    let wm = marks(vec![("src/lib.rs", nanos(95))], Some(nanos(98)));
    let stale = find_stale_files(&snapshot, &wm);
    assert_eq!(stale.len(), 1);
}

#[test]
fn test_find_stale_files_within_grace_window() {
    let snapshot =
        snapshot_of(vec![(normalize_path(PathSystem::Unix, &FilePath::new("src/lib.rs")), entry_at(100, true))]);
    let stale = find_stale_files(&snapshot, &marks(vec![("src/lib.rs", nanos(99))], None));
    assert!(stale.is_empty(), "file within grace window should not be stale");
}

#[test]
fn test_find_stale_files_beyond_grace_window() {
    let snapshot =
        snapshot_of(vec![(normalize_path(PathSystem::Unix, &FilePath::new("src/lib.rs")), entry_at(100, true))]);
    let stale = find_stale_files(&snapshot, &marks(vec![("src/lib.rs", nanos(95))], None));
    assert_eq!(stale.len(), 1, "file beyond grace window should be stale");
}

#[test]
fn test_find_stale_files_nonexistent_skipped() {
    let snapshot =
        snapshot_of(vec![(normalize_path(PathSystem::Unix, &FilePath::new("gone.rs")), entry_at(100, false))]);
    let stale = find_stale_files(&snapshot, &marks(vec![], Some(0)));
    assert!(stale.is_empty(), "nonexistent file should not be stale");
}

#[test]
fn stale_files_come_out_in_the_order_of_their_paths() {
    let snapshot = snapshot_of(vec![
        (FilePath::new("b.rs"), entry_at(100, true)),
        (FilePath::new("a/z.rs"), entry_at(100, true)),
        (FilePath::new("a.rs"), entry_at(3, true)),
        (FilePath::new("a-b.rs"), entry_at(100, true)),
    ]);
    let wm = marks(vec![("a.rs", nanos(1))], Some(nanos(1)));
    let stale = find_stale_files(&snapshot, &wm);
    let texts: Vec<&str> = stale.iter().map(|p| p.text()).collect();
    assert_eq!(texts, vec!["a/z.rs", "a-b.rs", "b.rs"]);
}

#[test]
fn the_edge_of_the_grace_window() {
    let edge = FileTime { nanos: 100 * SECOND };
    let beyond = FileTime { nanos: 100 * SECOND + 1 };
    let wm = marks(vec![], Some(nanos(98)));
    let at = snapshot_of(vec![(FilePath::new("f"), regular_entry(1, edge))]);
    assert!(find_stale_files(&at, &wm).is_empty());
    let above = snapshot_of(vec![(FilePath::new("f"), regular_entry(1, beyond))]);
    assert_eq!(find_stale_files(&above, &wm).len(), 1);
    let highest = marks(vec![], Some(u128::MAX));
    assert!(find_stale_files(&above, &highest).is_empty());
}

#[test]
fn watermarks_are_looked_up_under_forward_slashes() {
    let snapshot = snapshot_of(vec![(FilePath::new("src\\lib.rs"), entry_at(100, true))]);
    let stale = find_stale_files(&snapshot, &marks(vec![("src/lib.rs", nanos(99))], Some(0)));
    assert!(stale.is_empty());
}

#[test]
fn test_capture_file_contents_reads_text_file() {
    let contents = capture_file_contents(vec![FileRead {
        path: FilePath::new("hello.txt"),
        size: Some(11),
        content: Some("hello world".to_string()),
    }]);
    assert_eq!(contents.get(&"hello.txt".to_string()).unwrap(), "hello world");
}

#[test]
fn test_capture_file_contents_skips_missing() {
    let contents = capture_file_contents(vec![FileRead {
        path: FilePath::new("nonexistent.txt"),
        size: None,
        content: None,
    }]);
    assert!(contents.is_empty());
}

#[test]
fn capture_skips_large_files_and_files_that_are_no_text() {
    assert!(should_read_for_capture(Some(MAX_CAPTURE_FILE_SIZE)));
    assert!(!should_read_for_capture(Some(MAX_CAPTURE_FILE_SIZE + 1)));
    assert!(!should_read_for_capture(None));
    assert_eq!(MAX_CAPTURE_FILE_SIZE, 10_485_760);
    let contents = capture_file_contents(vec![
        FileRead {
            path: FilePath::new("large"),
            size: Some(MAX_CAPTURE_FILE_SIZE + 1),
            content: Some("x".to_string()),
        },
        FileRead { path: FilePath::new("binary"), size: Some(4), content: None },
        FileRead {
            path: FilePath::new("dir\\text"),
            size: Some(2),
            content: Some("ok".to_string()),
        },
    ]);
    assert_eq!(contents.len(), 1);
    assert_eq!(contents.key_at(0), "dir/text");
    assert_eq!(contents.value_at(0), "ok");
}
