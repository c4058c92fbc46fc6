//! Laws on concrete values, edge cases and errors.

use std::path::Path;

use bash_attribution::cache::{
    cleanup_stale_snapshots, is_stale_snapshot, is_used_up, load_and_consume_snapshot, restore,
    sanitize_key, save_snapshot, snapshot_file, store, CachedFile, SnapshotRead, StoredSnapshot,
};
use bash_attribution::capture::add_dirty_files;
use bash_attribution::diff::{diff, StatDiffResult};
use bash_attribution::git_output::{
    git_status_fallback, load_tracked_files, parse_status, tracked_set, GitOutput,
};
use bash_attribution::ignore_rules::{
    build_gitignore, should_include_new_file, IgnoreFile, IgnoreScan, MAX_GITIGNORE_DEPTH,
};
use bash_attribution::path::normalize_path;
use bash_attribution::snapshot::{
    snapshot, PathSet, StatSnapshot, WalkItem, WalkStep, MAX_TRACKED_FILES, STAT_DIFF_TIMEOUT_MS,
};
use bash_attribution::text::{normalize_to_posix, same_text};
use bash_attribution::watermark::{query_daemon_watermarks, watermarks_from, DaemonReply, Member};
use bash_attribution::{
    classify_tool, Agent, DaemonWatermarks, FilePath, FileTime, GitAiError, PathSystem, Placement,
    ReflogCut, SortedMap, StatEntry, StatFileType, ToolClass,
};

const SECOND: i128 = 1_000_000_000;

fn lines(text: &str) -> Vec<String> {
    text.lines().map(|l| l.to_string()).collect()
}

fn rules(files: Vec<&str>) -> ignore::gitignore::Gitignore {
    let files: Vec<IgnoreFile> =
        files.into_iter().map(|f| IgnoreFile { lines: lines(f) }).collect();
    build_gitignore("/r", &files).unwrap()
}

fn lets(matcher: &ignore::gitignore::Gitignore, path: &str) -> bool {
    should_include_new_file(matcher, &FilePath::new(path), false)
}

fn generic(error: GitAiError) -> String {
    match error {
        GitAiError::Generic(text) => text,
        _ => panic!("a generic error was expected"),
    }
}

fn entry(size: u64) -> StatEntry {
    StatEntry {
        exists: true,
        mtime: Some(FileTime { nanos: SECOND }),
        ctime: None,
        size,
        mode: 0o644,
        file_type: StatFileType::Regular,
    }
}

fn tree(entries: Vec<(&str, StatEntry)>, in_git: Vec<&str>) -> StatSnapshot {
    StatSnapshot {
        entries: SortedMap::from_entries(
            entries.into_iter().map(|(p, e)| (FilePath::new(p), e)).collect(),
        ),
        tracked_files: paths(in_git),
        gitignore: None,
        taken_at: Some(FileTime { nanos: 1 }),
        invocation_key: "s:t".to_string(),
        repo_root: FilePath::new("/r"),
        exact_names: true,
    }
}

fn paths(list: Vec<&str>) -> PathSet {
    SortedMap::from_entries(list.into_iter().map(|p| (FilePath::new(p), ())).collect())
}

fn keys<V>(map: &SortedMap<FilePath, V>) -> Vec<String> {
    (0..map.len()).map(|i| map.key_at(i).text().to_string()).collect()
}

fn texts(list: &[FilePath]) -> Vec<&str> {
    list.iter().map(|p| p.text()).collect()
}

#[test]
fn paths_compare_as_the_standard_library_does() {
    let samples = [
        "", ".", "..", "/", "a", "a/", "a/.", "./a", "a//b", "a/b", "a/b/", "a-b", "a/../b", "/a",
        "//a", "../a", "a.b", "A", "\u{e9}", "a/\u{10ffff}", "a b", "a/.b", "./", "./.", "a/./b",
        "..a", "a..", "/..", "/.", "b", "a\\b",
    ];
    for x in samples {
        for y in samples {
            let wanted = match Path::new(x).cmp(Path::new(y)) {
                std::cmp::Ordering::Less => Placement::Less,
                std::cmp::Ordering::Equal => Placement::Equal,
                std::cmp::Ordering::Greater => Placement::Greater,
            };
            assert_eq!(FilePath::new(x).compare(&FilePath::new(y)), wanted, "{:?} {:?}", x, y);
        }
    }
}

#[test]
fn case_folds_where_the_file_system_does_not_tell_it() {
    let path = FilePath::new("Src/\u{c9}T\u{c9}.RS");
    for system in [PathSystem::MacOs, PathSystem::Windows] {
        let key = normalize_path(system, &path);
        assert_eq!(key.text(), "src/\u{e9}t\u{e9}.rs");
        assert_eq!(normalize_path(system, &key).text(), key.text());
        let ascii = normalize_path(system, &FilePath::new("SRC/Main.rs"));
        assert_eq!(ascii.text(), "src/main.rs");
        let other = normalize_path(system, &FilePath::new("src/mAIN.RS"));
        assert_eq!(other.text(), ascii.text());
        assert_eq!(normalize_path(system, &ascii).text(), ascii.text());
    }
    assert_eq!(normalize_path(PathSystem::Unix, &path).text(), "Src/\u{c9}T\u{c9}.RS");
}

#[test]
fn a_path_is_parted_as_its_system_parts_it() {
    assert_eq!(FilePath::from_system(PathSystem::Windows, "a\\b/c").text(), "a/b/c");
    assert_eq!(FilePath::from_system(PathSystem::Unix, "a\\b/c").text(), "a\\b/c");
    assert_eq!(FilePath::from_system(PathSystem::MacOs, "a\\b").text(), "a\\b");
    let names = vec!["Src\\A".to_string(), "src/a".to_string()];
    assert_eq!(keys(&tracked_set(PathSystem::Windows, &names)), vec!["src/a"]);
    assert_eq!(keys(&tracked_set(PathSystem::Unix, &names)), vec!["Src\\A", "src/a"]);
}

#[test]
fn slashes_are_turned_forward() {
    assert_eq!(normalize_to_posix("a\\b/c\\\\d"), "a/b/c//d");
    let once = normalize_to_posix("x\\y");
    assert_eq!(normalize_to_posix(&once), once);
    assert!(same_text("x/y", &once));
    assert!(!same_text("x/y", "x/z"));
}

#[test]
fn a_map_keeps_the_first_text_and_the_last_value() {
    let mut map: SortedMap<FilePath, u32> = SortedMap::from_entries(vec![
        (FilePath::new("b"), 1),
        (FilePath::new("a/./c"), 2),
        (FilePath::new("a//c"), 3),
    ]);
    assert_eq!(keys(&map), vec!["a/./c", "b"]);
    assert_eq!(map.get(&FilePath::new("a/c")), Some(&3));
    map.insert(FilePath::new("./b"), 4);
    map.insert(FilePath::new("b/"), 5);
    assert_eq!(keys(&map), vec!["./b", "a/./c", "b"]);
    assert_eq!(map.get(&FilePath::new("b")), Some(&5));
    assert!(map.contains(&FilePath::new("b")));
    assert!(!map.contains(&FilePath::new("c")));
    let more = map.with_all(vec![(FilePath::new("c"), 6), (FilePath::new("b"), 7)]);
    assert_eq!(keys(&more), vec!["./b", "a/./c", "b", "c"]);
    assert_eq!(more.get(&FilePath::new("b")), Some(&7));
}

#[test]
fn tracked_files_are_read_between_the_nul_bytes() {
    let output = GitOutput {
        success: true,
        stdout: b"b.txt\0a/\xff.txt\0\0b.txt\0sp ace\0".to_vec(),
        stderr: Vec::new(),
    };
    let set = load_tracked_files(PathSystem::Unix, &output).unwrap();
    assert_eq!(keys(&set), vec!["a/\u{fffd}.txt", "b.txt", "sp ace"]);
    let folded = tracked_set(PathSystem::MacOs, &vec!["B".to_string(), "b".to_string()]);
    assert_eq!(keys(&folded), vec!["b"]);
}

#[test]
fn failures_of_git_are_told() {
    let output = GitOutput { success: false, stdout: Vec::new(), stderr: b"fatal: \xff".to_vec() };
    let listed = load_tracked_files(PathSystem::Unix, &output);
    assert_eq!(generic(listed.err().unwrap()), "git ls-files failed: fatal: \u{fffd}");
    let status = git_status_fallback(&output);
    assert_eq!(generic(status.err().unwrap()), "git status failed: fatal: \u{fffd}");
}

#[test]
fn no_output_names_no_file() {
    let output = GitOutput { success: true, stdout: Vec::new(), stderr: Vec::new() };
    assert!(git_status_fallback(&output).unwrap().is_empty());
    assert!(load_tracked_files(PathSystem::Unix, &output).unwrap().is_empty());
}

#[test]
fn every_entry_of_a_status_is_read() {
    let stdout = concat_records(&[
        "1 .M N... 100644 100644 100644 aa bb sp ace.txt",
        "u UU N... 100644 100644 100644 100644 aa bb cc both\\sides.txt",
        "2 R. N... 100644 100644 100644 aa bb R100 new name",
        "old\\name",
        "? loose file",
        "# branch.oid aa",
        "! ignored",
        "",
        "1 short",
        "2 C. N... 100644 100644 100644 aa bb C75 copy",
    ]);
    let output = GitOutput { success: true, stdout, stderr: Vec::new() };
    assert_eq!(
        git_status_fallback(&output).unwrap(),
        vec![
            "sp ace.txt",
            "both/sides.txt",
            "new name",
            "old/name",
            "loose file",
            "short",
            "copy"
        ]
    );
}

fn concat_records(records: &[&str]) -> Vec<u8> {
    let mut bytes = Vec::new();
    for record in records {
        bytes.extend_from_slice(record.as_bytes());
        bytes.push(0);
    }
    bytes
}

#[test]
fn the_record_after_a_rename_is_its_original_path() {
    let records = lines("2 R. a b c d e f g new\n? looks like a mark\n? real");
    assert_eq!(parse_status(&records), vec!["new", "? looks like a mark", "real"]);
    let cut = lines("2 R. a b c d e f g new");
    assert_eq!(parse_status(&cut), vec!["new"]);
    let empty = vec!["2 R. a b c d e f g new".to_string(), String::new(), "? x".to_string()];
    assert_eq!(parse_status(&empty), vec!["new", "x"]);
    assert!(parse_status(&vec!["1".to_string(), "?x".to_string()]).is_empty());
}

#[test]
fn every_reserved_character_is_replaced() {
    let name = sanitize_key("/\\:*?\"<>|x");
    assert_eq!(name, "_________x");
    assert_eq!(sanitize_key(&name), name);
    let dir = vec!["/c".to_string(), "d".to_string()];
    assert_eq!(snapshot_file(dir, "../../x:y"), vec!["/c", "d", ".._.._x_y.json"]);
}

#[test]
fn what_is_stored_comes_back() {
    let snap = tree(vec![("b", entry(2)), ("a/c", entry(3))], vec!["b", "gone"]);
    let stored = store(&snap);
    assert_eq!(stored.invocation_key, "s:t");
    assert_eq!(stored.repo_root, "/r");
    let back = restore(&stored);
    assert_eq!(keys(&back.entries), vec!["a/c", "b"]);
    assert_eq!(back.entries.get(&FilePath::new("a/c")), Some(&entry(3)));
    assert_eq!(keys(&back.tracked_files), vec!["b", "gone"]);
    assert!(back.taken_at.is_none());
    assert!(diff(&snap, &back).is_empty());
}

#[test]
fn what_was_read_decides_what_is_loaded() {
    let absent = load_and_consume_snapshot(SnapshotRead::Absent);
    assert!(!is_used_up(&absent));
    assert!(absent.unwrap().is_none());
    match load_and_consume_snapshot(SnapshotRead::Unreadable("denied".to_string())) {
        Err(GitAiError::IoError(text)) => assert_eq!(text, "denied"),
        _ => panic!("an error of input was expected"),
    }
    match load_and_consume_snapshot(SnapshotRead::Malformed("line 1".to_string())) {
        Err(GitAiError::JsonError(text)) => assert_eq!(text, "line 1"),
        _ => panic!("an error of form was expected"),
    }
    let stored = StoredSnapshot {
        entries: vec![("a".to_string(), entry(1)), ("./a".to_string(), entry(2)), ("a".to_string(), entry(9))],
        tracked_files: vec!["a".to_string(), "a/".to_string()],
        invocation_key: "k".to_string(),
        repo_root: "/r".to_string(),
    };
    let loaded = load_and_consume_snapshot(SnapshotRead::Present(stored));
    assert!(is_used_up(&loaded));
    let snap = loaded.unwrap().unwrap();
    assert_eq!(keys(&snap.entries), vec!["./a", "a"]);
    assert_eq!(snap.entries.get(&FilePath::new("a")), Some(&entry(9)));
    assert_eq!(snap.tracked_files.len(), 1);
}

fn cached(name: &str, modified: Option<i128>) -> CachedFile {
    CachedFile { name: name.to_string(), modified: modified.map(|nanos| FileTime { nanos }) }
}

#[test]
fn snapshots_are_removed_after_five_minutes() {
    let now = FileTime { nanos: 1000 * SECOND };
    let old = now.nanos - 300 * SECOND - 1;
    assert!(is_stale_snapshot(now, &cached("a.json", Some(old))));
    assert!(!is_stale_snapshot(now, &cached("a.json", Some(old + 1))));
    let half = now.nanos - 300 * SECOND - SECOND / 2;
    assert!(is_stale_snapshot(now, &cached("a.json", Some(half))));
    assert!(!is_stale_snapshot(now, &cached("a.json", Some(now.nanos + 1))));
    assert!(!is_stale_snapshot(now, &cached("a.json", None)));
    assert!(!is_stale_snapshot(now, &cached("a.txt", Some(old))));
    assert!(!is_stale_snapshot(now, &cached(".json", Some(old))));
    assert!(is_stale_snapshot(now, &cached("..json", Some(old))));
    assert!(is_stale_snapshot(FileTime { nanos: i128::MAX }, &cached("a.json", Some(i128::MIN))));
    assert!(!is_stale_snapshot(FileTime { nanos: i128::MIN }, &cached("a.json", Some(i128::MIN))));
    let files = vec![
        cached("new.json", Some(now.nanos)),
        cached("old.json", Some(0)),
        cached("note.md", Some(0)),
        cached("older.json", Some(-SECOND)),
    ];
    assert_eq!(cleanup_stale_snapshots(now, &files), vec!["old.json", "older.json"]);
}

fn reply(data: &str) -> Option<DaemonReply> {
    Some(DaemonReply { ok: true, data: Some(data.to_string()) })
}

fn mark(marks: &DaemonWatermarks, path: &str) -> Option<u128> {
    marks.per_file.get(&path.to_string()).copied()
}

#[test]
fn watermarks_are_read_from_the_reply() {
    let marks = query_daemon_watermarks(&reply(
        "{\"worktree_watermark\": 98, \"watermarks\": {\"b\\u002frs\": 2, \"a\": 1}}",
    ))
    .unwrap();
    assert_eq!(marks.worktree, Some(98));
    assert_eq!(mark(&marks, "a"), Some(1));
    assert_eq!(mark(&marks, "b/rs"), Some(2));
    assert_eq!(marks.per_file.len(), 2);
}

#[test]
fn what_a_reply_lacks_counts_as_none() {
    let none = query_daemon_watermarks(&reply("{}")).unwrap();
    assert!(none.per_file.is_empty());
    assert_eq!(none.worktree, None);
    let null = query_daemon_watermarks(&reply("{\"watermarks\": {}, \"worktree_watermark\": null}"))
        .unwrap();
    assert!(null.per_file.is_empty());
    assert_eq!(null.worktree, None);
    let huge = query_daemon_watermarks(&reply("{\"worktree_watermark\": 18446744073709551615}"));
    assert_eq!(huge.unwrap().worktree, Some(18446744073709551615));
}

#[test]
fn a_reply_that_cannot_be_read_gives_no_watermarks() {
    for data in [
        "{\"watermarks\": \"not a map\", \"worktree_watermark\": null}",
        "{\"watermarks\": {\"a\": 1, \"b\": \"x\"}, \"worktree_watermark\": 5}",
        "{\"watermarks\": null, \"worktree_watermark\": 5}",
        "{\"watermarks\": {}, \"worktree_watermark\": -1}",
        "{\"watermarks\": {}, \"worktree_watermark\": \"soon\"}",
        "{\"worktree_watermark\": 1.5}",
    ] {
        assert!(query_daemon_watermarks(&reply(data)).is_none(), "{}", data);
    }
    assert!(watermarks_from(Member::Unreadable, Member::Found(1)).is_none());
    assert!(watermarks_from(Member::Missing, Member::Unreadable).is_none());
    let marks = watermarks_from(Member::Missing, Member::Found(1)).unwrap();
    assert_eq!(marks.worktree, Some(1));
    assert!(marks.per_file.is_empty());
}

#[test]
fn without_a_good_reply_there_are_no_watermarks() {
    assert!(query_daemon_watermarks(&None).is_none());
    assert!(query_daemon_watermarks(&Some(DaemonReply { ok: true, data: None })).is_none());
    let refused = Some(DaemonReply { ok: false, data: Some("{}".to_string()) });
    assert!(query_daemon_watermarks(&refused).is_none());
}

#[test]
fn dirty_files_join_the_stale_ones_in_order() {
    let stale = vec![FilePath::new("m"), FilePath::new("z")];
    let own = vec![("c".to_string(), 1), ("d/e".to_string(), 1)];
    let marks = watermarks_from(Member::Found(own), Member::Missing).unwrap();
    let dirty: Vec<String> =
        ["a", "c", "d\\e", "m", "./z", "y/", "y"].iter().map(|s| s.to_string()).collect();
    let all = add_dirty_files(&stale, &marks, &dirty);
    assert_eq!(texts(&all), vec!["./z", "a", "m", "y/", "z"]);
}

#[test]
fn rules_are_taken_from_the_lines() {
    let matcher = rules(vec!["\u{feff}*.log\n# *.txt\n\n  \n!keep.log\nfoo \nbar\\ \n", "*.tmp"]);
    assert!(!lets(&matcher, "a.log"));
    assert!(lets(&matcher, "keep.log"));
    assert!(lets(&matcher, "a.txt"));
    assert!(!lets(&matcher, "foo"));
    assert!(lets(&matcher, "bar"));
    assert!(!lets(&matcher, "bar "));
    assert!(!lets(&matcher, "x/y.tmp"));
    let dir_only = rules(vec!["target/"]);
    assert!(lets(&dir_only, "target"));
    assert!(!should_include_new_file(&dir_only, &FilePath::new("target"), true));
    let rooted = rules(vec!["/only"]);
    assert!(!lets(&rooted, "only"));
    assert!(!lets(&rooted, "/r/only"));
    assert!(lets(&rooted, "sub/only"));
}

#[test]
fn a_line_that_is_no_glob_is_passed_over() {
    let matcher = rules(vec!["{a,b\n*.log\n"]);
    assert!(!lets(&matcher, "x.log"));
    assert!(lets(&matcher, "{a,b"));
    let none = rules(vec!["{a,b"]);
    assert!(lets(&none, "x.log"));
    assert!(lets(&rules(vec![]), "anything"));
}

#[test]
fn rules_that_do_not_compile_are_refused() {
    let long: String = std::iter::repeat('?').take(400_000).collect();
    let files = vec![IgnoreFile { lines: vec![long] }];
    let text = generic(build_gitignore("/r", &files).err().unwrap());
    assert!(text.starts_with("Failed to build gitignore rules: "), "{}", &text[..60]);
    assert!(text.len() > "Failed to build gitignore rules: ".len());
}

fn below(dir: &str, names: &str) -> Vec<(String, String)> {
    names.lines().map(|name| (name.to_string(), format!("{}/{}", dir, name))).collect()
}

#[test]
fn the_search_for_rules_goes_depth_first() {
    let mut scan: IgnoreScan<String> = IgnoreScan::new("/r".to_string());
    let root = scan.next_dir(0).unwrap();
    assert_eq!((root.place.as_str(), root.depth), ("/r", 0));
    let names =
        "b\n.git\nnode_modules\ntarget\n.build\nvendor\n__pycache__\n.venv\ndist\nbuild\na";
    scan.record(root.depth, Some(lines("*.x")), below("/r", names));
    let b = scan.next_dir(1).unwrap();
    assert_eq!((b.place.as_str(), b.depth), ("/r/b", 1));
    scan.record(b.depth, None, below("/r/b", "c"));
    let c = scan.next_dir(2).unwrap();
    assert_eq!((c.place.as_str(), c.depth), ("/r/b/c", 2));
    scan.record(c.depth, Some(lines("*.y")), Vec::new());
    let a = scan.next_dir(2_000_000_000).unwrap();
    assert_eq!((a.place.as_str(), a.depth), ("/r/a", 1));
    scan.record(a.depth, None, below("/r/a", "never"));
    assert!(scan.next_dir(2_000_000_001).is_none());
    assert!(scan.next_dir(0).is_none());
    assert_eq!(scan.files.len(), 2);
}

#[test]
fn the_search_for_rules_is_not_too_deep() {
    let mut scan: IgnoreScan<String> = IgnoreScan::new("/r".to_string());
    let mut visited: usize = 0;
    while let Some(dir) = scan.next_dir(0) {
        visited += 1;
        scan.record(dir.depth, None, below(&dir.place, "d"));
    }
    assert_eq!(visited, MAX_GITIGNORE_DEPTH);
    assert_eq!(MAX_GITIGNORE_DEPTH, 10);
}

#[test]
fn a_name_that_is_no_text_is_not_tracked() {
    let begin = |system| {
        let names = paths(vec!["a.log"]);
        snapshot(system, "/r", "s", "t", names, Ok(rules(vec!["*.log"]))).unwrap()
    };
    let mut unix = begin(PathSystem::Unix);
    let file = WalkItem::File(FilePath::new("a.log"));
    let inexact = WalkItem::Inexact(FilePath::new("a.log"));
    assert!(matches!(unix.examine(0, &file), WalkStep::Stat(_)));
    assert!(matches!(unix.examine(0, &inexact), WalkStep::Pass));
    let other = WalkItem::Inexact(FilePath::new("b"));
    assert!(matches!(unix.examine(0, &other), WalkStep::Stat(_)));
    let mut mac = begin(PathSystem::MacOs);
    assert!(matches!(mac.examine(0, &inexact), WalkStep::Stat(_)));
}

#[test]
fn a_walk_takes_what_is_tracked_or_let_through() {
    let rules = build_gitignore("/r", &vec![IgnoreFile { lines: lines("*.log") }]);
    let mut walk =
        snapshot(PathSystem::Unix, "/r", "s", "t", paths(vec!["kept.log", "lost"]), rules)
            .unwrap();
    let file = |p: &str| WalkItem::File(FilePath::new(p));
    assert!(matches!(walk.examine(0, &file("a.log")), WalkStep::Pass));
    assert!(matches!(walk.examine(0, &file("kept.log")), WalkStep::Stat(_)));
    assert!(matches!(walk.examine(0, &file("a.rs")), WalkStep::Stat(_)));
    assert!(matches!(walk.examine(0, &WalkItem::Dir), WalkStep::Pass));
    assert!(matches!(walk.examine(0, &WalkItem::Failed), WalkStep::Pass));
    let limit = STAT_DIFF_TIMEOUT_MS as u128;
    assert!(matches!(walk.examine(limit, &file("a.rs")), WalkStep::Stat(_)));
    walk.record(FilePath::new("a.rs"), entry(1));
    let fill = walk.end_walk().unwrap();
    assert_eq!(texts(&fill.missing()), vec!["kept.log", "lost"]);
    let stats = vec![(FilePath::new("kept.log"), entry(2)), (FilePath::new("a.rs"), entry(3))];
    let snap = fill.finish(stats, FileTime { nanos: 5 });
    assert_eq!(keys(&snap.entries), vec!["a.rs", "kept.log"]);
    assert_eq!(snap.entries.get(&FilePath::new("a.rs")), Some(&entry(1)));
    assert_eq!(snap.taken_at, Some(FileTime { nanos: 5 }));
    assert_eq!(snap.repo_root.text(), "/r");
    assert!(snap.gitignore.is_some());
}

#[test]
fn a_walk_that_takes_too_long_gives_no_snapshot() {
    let mut walk =
        snapshot(PathSystem::Unix, "/r", "s", "t", paths(vec![]), Ok(rules(vec![]))).unwrap();
    let file = WalkItem::File(FilePath::new("a.rs"));
    let limit = STAT_DIFF_TIMEOUT_MS as u128;
    assert_eq!(limit, 5000);
    assert!(matches!(walk.examine(limit, &file), WalkStep::Stat(_)));
    walk.record(FilePath::new("a.rs"), entry(1));
    assert!(matches!(walk.examine(limit + 1, &file), WalkStep::Stop));
    assert!(matches!(walk.examine(0, &file), WalkStep::Stop));
    assert_eq!(
        generic(walk.end_walk().err().unwrap()),
        "Stat-diff timeout exceeded; use git status fallback"
    );
}

fn snapshot_with_an_inexact_name(system: PathSystem) -> StatSnapshot {
    let mut walk = snapshot(system, "/r", "s", "t", paths(vec![]), Ok(rules(vec![]))).unwrap();
    walk.record(FilePath::new("\u{fffd}"), entry(1));
    walk.note_inexact_name();
    walk.end_walk().unwrap().finish(Vec::new(), FileTime { nanos: 0 })
}

#[test]
fn a_snapshot_with_an_inexact_name_is_not_stored() {
    let git = GitOutput { success: true, stdout: b".git\n".to_vec(), stderr: Vec::new() };
    match save_snapshot(&snapshot_with_an_inexact_name(PathSystem::Unix), &git) {
        Err(GitAiError::JsonError(text)) => {
            assert_eq!(text, "path contains invalid UTF-8 characters")
        }
        _ => panic!("an error of form was expected"),
    }
    let folded = save_snapshot(&snapshot_with_an_inexact_name(PathSystem::MacOs), &git);
    assert_eq!(
        folded.ok().unwrap().file,
        vec!["/r", ".git", "ai", "bash_snapshots", "s_t.json"]
    );
    let none = GitOutput { success: false, stdout: Vec::new(), stderr: Vec::new() };
    let lost = save_snapshot(&snapshot_with_an_inexact_name(PathSystem::Unix), &none);
    assert_eq!(generic(lost.err().unwrap()), "Failed to find .git directory");
}

#[test]
fn a_snapshot_without_rules_is_refused() {
    let failed = Err(GitAiError::Generic("no rules".to_string()));
    let begun = snapshot(PathSystem::Unix, "/r", "s", "t", paths(vec![]), failed);
    assert_eq!(generic(begun.err().unwrap()), "no rules");
}

#[test]
fn a_repository_with_too_many_files_is_refused() {
    let names: Vec<(FilePath, ())> =
        (0..MAX_TRACKED_FILES + 1).map(|i| (FilePath::new(&format!("{:06}", i)), ())).collect();
    let failed = Err(GitAiError::Generic("no rules".to_string()));
    let begun =
        snapshot(PathSystem::Unix, "/r", "s", "t", SortedMap::from_entries(names), failed);
    assert_eq!(
        generic(begun.err().unwrap()),
        "Repo exceeds 500000 tracked files; use git status fallback"
    );
}

#[test]
fn a_difference_lists_each_kind_in_order() {
    let pre = tree(
        vec![("m2", entry(1)), ("m1", entry(1)), ("same", entry(1)), ("gone/b", entry(1)), ("gone-a", entry(1))],
        vec![],
    );
    let post = tree(
        vec![("same", entry(1)), ("m1", entry(2)), ("m2", entry(2)), ("n\\w", entry(1)), ("a", entry(1))],
        vec![],
    );
    let result = diff(&pre, &post);
    assert_eq!(texts(&result.created), vec!["a", "n\\w"]);
    assert_eq!(texts(&result.modified), vec!["m1", "m2"]);
    assert_eq!(texts(&result.deleted), vec!["gone/b", "gone-a"]);
    assert!(!result.is_empty());
    assert_eq!(
        result.all_changed_paths(),
        vec!["a", "n/w", "m1", "m2", "gone/b", "gone-a"]
    );
    let back = diff(&post, &pre);
    assert_eq!(texts(&back.modified), texts(&result.modified));
    assert_eq!(texts(&back.created), texts(&result.deleted));
    assert_eq!(texts(&back.deleted), texts(&result.created));
    assert!(StatDiffResult::default().is_empty());
    assert!(diff(&pre, &pre).is_empty());
}

#[test]
fn frozen_rules_hide_new_files_but_not_tracked_ones() {
    let mut pre = tree(vec![], vec!["kept.log"]);
    pre.gitignore = Some(rules(vec!["*.log"]));
    let post = tree(vec![("new.log", entry(1)), ("kept.log", entry(1)), ("a", entry(1))], vec![]);
    let result = diff(&pre, &post);
    assert_eq!(texts(&result.created), vec!["a", "kept.log"]);
}

#[test]
fn no_tool_both_edits_and_runs_a_shell() {
    assert_eq!(classify_tool(Agent::Gemini, "Bash"), ToolClass::Skip);
    assert_eq!(classify_tool(Agent::Claude, "bash"), ToolClass::Skip);
    assert_eq!(classify_tool(Agent::OpenCode, ""), ToolClass::Skip);
}

#[test]
fn a_place_in_a_reflog_is_cloned_whole() {
    let cut = ReflogCut { ordinal: 7, hash: Some("abc".to_string()) };
    assert_eq!(cut.clone(), cut);
    assert_ne!(cut, ReflogCut { ordinal: 7, hash: None });
}
