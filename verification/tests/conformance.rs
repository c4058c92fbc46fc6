//! The hooks and their parts on a working tree that is kept in memory.

use std::collections::{BTreeMap, BTreeSet};

use bash_attribution::cache::{
    cache_dir_below, cleanup_stale_snapshots, load_and_consume_snapshot, save_snapshot,
    snapshot_cache_dir, snapshot_file, CachedFile, SnapshotRead, StoredSnapshot,
};
use bash_attribution::capture::{
    captured_checkpoint_delegate_enabled, should_read_for_capture, CheckpointKind,
    CheckpointRequest, FileRead, PreparedCheckpoint,
};
use bash_attribution::git_output::{git_status_fallback, load_tracked_files, GitOutput};
use bash_attribution::hook::{
    handle_bash_tool, BashCheckpointAction, BashToolResult, HookEvent, HookStep,
};
use bash_attribution::ignore_rules::{build_gitignore, should_include_new_file, IgnoreScan};
use bash_attribution::snapshot::{snapshot, StatSnapshot, WalkItem, WalkStep};
use bash_attribution::stat::{FileMetadata, FileTime, StatEntry};
use bash_attribution::watermark::{query_daemon_watermarks, DaemonReply};
use bash_attribution::{
    classify_tool, diff, normalize_path, Agent, FilePath, GitAiError, PathSystem, ToolClass,
};

struct File {
    content: String,
    mode: u32,
    mtime: i128,
}

struct Request {
    id: String,
    kind: CheckpointKind,
    edited: Option<Vec<String>>,
    will_edit: Option<Vec<String>>,
    contents: Vec<(String, String)>,
}

struct Repo {
    files: BTreeMap<String, File>,
    commits: BTreeMap<String, String>,
    clock: i128,
    stored: Vec<(Vec<String>, StoredSnapshot)>,
    git_works: bool,
    async_mode: bool,
    variable: Option<String>,
    daemon: Option<String>,
    requests: Vec<Request>,
    snapshots_fail: bool,
    preparing_fails: bool,
    elapsed_ms: u128,
}

const ROOT: &str = "/work/repo";

fn ok(stdout: &str) -> GitOutput {
    GitOutput { success: true, stdout: stdout.as_bytes().to_vec(), stderr: Vec::new() }
}

impl Repo {
    fn new() -> Repo {
        Repo {
            files: BTreeMap::new(),
            commits: BTreeMap::new(),
            clock: 1_700_000_000_000_000_000,
            stored: Vec::new(),
            git_works: true,
            async_mode: false,
            variable: None,
            daemon: None,
            requests: Vec::new(),
            snapshots_fail: false,
            preparing_fails: false,
            elapsed_ms: 3,
        }
    }

    fn sleep(&mut self, ms: i128) {
        self.clock += ms * 1_000_000;
    }

    fn write(&mut self, path: &str, content: &str) {
        self.clock += 1;
        let mode = self.files.get(path).map(|f| f.mode).unwrap_or(0o100644);
        let file = File { content: content.to_string(), mode, mtime: self.clock };
        self.files.insert(path.to_string(), file);
    }

    fn add_and_commit(&mut self, path: &str, content: &str, _message: &str) {
        self.write(path, content);
        self.commits.insert(path.to_string(), content.to_string());
    }

    fn remove(&mut self, path: &str) {
        self.files.remove(path).unwrap();
    }

    fn git_dir(&self) -> GitOutput {
        GitOutput { success: self.git_works, stdout: b".git\n".to_vec(), stderr: Vec::new() }
    }

    fn ls_files(&self) -> GitOutput {
        let mut stdout = String::new();
        for path in self.commits.keys() {
            stdout.push_str(path);
            stdout.push('\0');
        }
        ok(&stdout)
    }

    fn status(&self) -> GitOutput {
        if !self.git_works {
            let stderr = b"fatal: not a git repository\n".to_vec();
            return GitOutput { success: false, stdout: Vec::new(), stderr };
        }
        let mut stdout = String::new();
        for (path, content) in &self.commits {
            let mark = match self.files.get(path) {
                Some(file) if file.content == *content => continue,
                Some(_) => ".M",
                None => ".D",
            };
            stdout.push_str(&format!("1 {} N... 100644 100644 100644 aa bb {}\0", mark, path));
        }
        for path in self.files.keys() {
            if !self.commits.contains_key(path) {
                stdout.push_str(&format!("? {}\0", path));
            }
        }
        ok(&stdout)
    }

    fn rules(&self) -> Result<ignore::gitignore::Gitignore, GitAiError> {
        let mut scan: IgnoreScan<String> = IgnoreScan::new(String::new());
        while let Some(dir) = scan.next_dir(0) {
            let prefix = dir.place;
            let lines = self
                .files
                .get(&format!("{}.gitignore", prefix))
                .map(|file| file.content.lines().map(|l| l.to_string()).collect());
            let mut subdirs: BTreeSet<String> = BTreeSet::new();
            for path in self.files.keys() {
                if let Some(rest) = path.strip_prefix(&prefix) {
                    if let Some((name, _)) = rest.split_once('/') {
                        subdirs.insert(name.to_string());
                    }
                }
            }
            let subdirs = subdirs
                .into_iter()
                .map(|name| (name.clone(), format!("{}{}/", prefix, name)))
                .collect();
            scan.record(dir.depth, lines, subdirs);
        }
        build_gitignore(ROOT, &scan.files)
    }

    fn stat(&self, path: &str) -> Option<StatEntry> {
        self.files.get(path).map(|file| {
            StatEntry::from_metadata(&FileMetadata {
                is_symlink: false,
                is_dir: false,
                is_file: true,
                modified: Some(FileTime { nanos: file.mtime }),
                created: None,
                len: file.content.len() as u64,
                readonly: false,
                unix_mode: Some(file.mode),
                unix_ctime: Some(((file.mtime / 1_000_000_000) as i64, 0)),
            })
        })
    }

    fn snapshot(&self, session: &str, tool: &str) -> Result<StatSnapshot, GitAiError> {
        if self.snapshots_fail {
            return Err(GitAiError::Generic("no snapshot".to_string()));
        }
        let system = PathSystem::Unix;
        let tracked_files = load_tracked_files(system, &self.ls_files())?;
        let mut walk = snapshot(system, ROOT, session, tool, tracked_files, self.rules())?;
        for path in self.files.keys() {
            match walk.examine(self.elapsed_ms, &WalkItem::File(FilePath::new(path))) {
                WalkStep::Stop => break,
                WalkStep::Pass => {}
                WalkStep::Stat(key) => walk.record(key, self.stat(path).unwrap()),
            }
        }
        let fill = walk.end_walk()?;
        let mut stats = Vec::new();
        for path in fill.missing() {
            if let Some(stat) = self.stat(path.text()) {
                stats.push((path, stat));
            }
        }
        Ok(fill.finish(stats, FileTime { nanos: self.clock }))
    }

    fn read(&self, path: &str) -> FileRead {
        let file = self.files.get(path);
        let size = file.map(|f| f.content.len() as u64);
        let content = if should_read_for_capture(size) {
            file.map(|f| f.content.clone())
        } else {
            None
        };
        FileRead { path: FilePath::new(path), size, content }
    }

    fn prepare(
        &mut self,
        request: &CheckpointRequest,
    ) -> Result<Option<PreparedCheckpoint>, GitAiError> {
        let run = &request.run;
        assert_eq!(request.author, "bash-tool");
        assert_eq!(run.agent_id.tool, "bash-tool");
        assert_eq!(run.agent_id.model, "");
        assert_eq!(run.repo_working_dir.as_deref(), Some(ROOT));
        assert!(request.kind == run.checkpoint_kind);
        assert!(!request.is_pre_commit);
        assert!(request.base_commit_override.is_none());
        assert!(run.captured_checkpoint_id.is_none());
        let files = run.dirty_files.as_ref().unwrap();
        self.requests.push(Request {
            id: run.agent_id.id.clone(),
            kind: request.kind,
            edited: run.edited_filepaths.clone(),
            will_edit: run.will_edit_filepaths.clone(),
            contents: (0..files.len())
                .map(|i| (files.key_at(i).clone(), files.value_at(i).clone()))
                .collect(),
        });
        if self.preparing_fails {
            return Err(GitAiError::Generic("not prepared".to_string()));
        }
        Ok(Some(PreparedCheckpoint {
            capture_id: format!("capture-{}", self.requests.len()),
            repo_working_dir: ROOT.to_string(),
            file_count: files.len(),
        }))
    }

    fn delegates(&self) -> bool {
        captured_checkpoint_delegate_enabled(self.async_mode, self.variable.as_deref())
    }

    fn handle(
        &mut self,
        event: HookEvent,
        session: &str,
        tool: &str,
    ) -> Result<BashToolResult, GitAiError> {
        let mut step = handle_bash_tool(event, ROOT, session, tool);
        loop {
            step = match step {
                HookStep::CleanUp(s) => s.cleaned(),
                HookStep::TakePreSnapshot(s) => s.taken(self.snapshot(session, tool)),
                HookStep::SavePreSnapshot(s) => match save_snapshot(&s.snap, &self.git_dir()) {
                    Ok(save) => {
                        self.stored.push((save.file, save.contents));
                        s.saved(Ok(()))
                    }
                    Err(error) => s.saved(Err(error)),
                },
                HookStep::CheckPreDelegation(s) => s.checked(self.delegates()),
                HookStep::QueryWatermarks(s) => {
                    let reply = self
                        .daemon
                        .as_ref()
                        .map(|data| DaemonReply { ok: true, data: Some(data.clone()) });
                    s.answered(query_daemon_watermarks(&reply))
                }
                HookStep::ListDirty(s) => s.listed(git_status_fallback(&self.status())),
                HookStep::ReadStale(s) => {
                    let reads = s.files.iter().map(|f| self.read(f.text())).collect();
                    s.read(reads)
                }
                HookStep::PreparePre(s) => {
                    let prepared = self.prepare(&s.request);
                    s.prepared(prepared)
                }
                HookStep::LoadPreSnapshot(s) => {
                    let dir = snapshot_cache_dir(ROOT, &self.git_dir());
                    match dir {
                        Ok(dir) => {
                            let file = snapshot_file(dir, &s.invocation_key);
                            let found = self.stored.iter().position(|(name, _)| *name == file);
                            let read = match found {
                                Some(i) => SnapshotRead::Present(self.stored.remove(i).1),
                                None => SnapshotRead::Absent,
                            };
                            s.loaded(load_and_consume_snapshot(read))
                        }
                        Err(error) => s.loaded(Err(error)),
                    }
                }
                HookStep::TakePostSnapshot(s) => s.taken(self.snapshot(session, tool)),
                HookStep::RebuildRules(s) => s.rebuilt(self.rules()),
                HookStep::CheckPostDelegation(s) => s.checked(self.delegates()),
                HookStep::ReadChanged(s) => {
                    let reads = s.paths.iter().map(|f| self.read(f)).collect();
                    s.read(reads)
                }
                HookStep::PreparePost(s) => {
                    let prepared = self.prepare(&s.request);
                    s.prepared(prepared)
                }
                HookStep::ListChanged(s) => s.listed(git_status_fallback(&self.status())),
                HookStep::Done(result) => return result,
            };
        }
    }
}

fn names(paths: &[FilePath]) -> Vec<String> {
    paths.iter().map(|p| p.text().to_string()).collect()
}

fn name_of(action: &BashCheckpointAction) -> &'static str {
    match action {
        BashCheckpointAction::TakePreSnapshot => "TakePreSnapshot",
        BashCheckpointAction::Checkpoint(_) => "Checkpoint",
        BashCheckpointAction::NoChanges => "NoChanges",
        BashCheckpointAction::Fallback => "Fallback",
    }
}

fn checkpoint_paths(action: BashCheckpointAction) -> Vec<String> {
    match action {
        BashCheckpointAction::Checkpoint(paths) => paths,
        other => panic!("Expected Checkpoint, got {:?}", name_of(&other)),
    }
}

#[test]
fn test_bash_tool_detect_file_creation() {
    let mut repo = Repo::new();
    let pre = repo.snapshot("sess", "t1").expect("pre-snapshot should succeed");
    repo.write("new.txt", "hello");
    let post = repo.snapshot("sess", "t2").expect("post-snapshot should succeed");
    let result = diff(&pre, &post);
    let created = names(&result.created);
    assert!(
        created.iter().any(|p| p.contains("new.txt")),
        "new.txt should appear in created; got {:?}",
        created
    );
    assert!(result.modified.is_empty(), "no files should be modified");
    assert!(result.deleted.is_empty(), "no files should be deleted");
}

#[test]
fn test_bash_tool_detect_modification() {
    let mut repo = Repo::new();
    repo.add_and_commit("existing.txt", "foo", "initial");
    let pre = repo.snapshot("sess", "t1").expect("pre-snapshot should succeed");
    repo.sleep(50);
    repo.write("existing.txt", "bar");
    let post = repo.snapshot("sess", "t2").expect("post-snapshot should succeed");
    let result = diff(&pre, &post);
    let modified = names(&result.modified);
    assert!(
        modified.iter().any(|p| p.contains("existing.txt")),
        "existing.txt should appear in modified; got {:?}",
        modified
    );
    assert!(result.created.is_empty(), "no files should be created");
    assert!(result.deleted.is_empty(), "no files should be deleted");
}

#[test]
fn test_bash_tool_detect_deletion() {
    let mut repo = Repo::new();
    repo.add_and_commit("tracked.txt", "content", "initial");
    let pre = repo.snapshot("sess", "t1").expect("pre-snapshot should succeed");
    repo.remove("tracked.txt");
    let post = repo.snapshot("sess", "t2").expect("post-snapshot should succeed");
    let result = diff(&pre, &post);
    let deleted = names(&result.deleted);
    assert!(
        deleted.iter().any(|p| p.contains("tracked.txt")),
        "tracked.txt should appear in deleted; got {:?}",
        deleted
    );
    assert!(result.created.is_empty(), "no files should be created");
    assert!(result.modified.is_empty(), "no files should be modified");
}

#[test]
fn test_bash_tool_detect_permission_change() {
    let mut repo = Repo::new();
    repo.add_and_commit("script.sh", "#!/bin/bash\necho hi", "initial");
    let pre = repo.snapshot("sess", "t1").expect("pre-snapshot should succeed");
    repo.files.get_mut("script.sh").unwrap().mode = 0o755;
    let post = repo.snapshot("sess", "t2").expect("post-snapshot should succeed");
    let result = diff(&pre, &post);
    let modified = names(&result.modified);
    assert!(
        modified.iter().any(|p| p.contains("script.sh")),
        "script.sh should appear in modified after chmod; got {:?}",
        modified
    );
}

#[test]
fn test_bash_tool_detect_rename() {
    let mut repo = Repo::new();
    repo.add_and_commit("old.txt", "data", "initial");
    let pre = repo.snapshot("sess", "t1").expect("pre-snapshot should succeed");
    let file = repo.files.remove("old.txt").unwrap();
    repo.files.insert("new.txt".to_string(), file);
    let post = repo.snapshot("sess", "t2").expect("post-snapshot should succeed");
    let result = diff(&pre, &post);
    let deleted = names(&result.deleted);
    let created = names(&result.created);
    assert!(
        deleted.iter().any(|p| p.contains("old.txt")),
        "old.txt should appear in deleted after rename; got {:?}",
        deleted
    );
    assert!(
        created.iter().any(|p| p.contains("new.txt")),
        "new.txt should appear in created after rename; got {:?}",
        created
    );
}

#[test]
fn test_bash_tool_detect_copy() {
    let mut repo = Repo::new();
    repo.add_and_commit("source.txt", "copy-me", "initial");
    let pre = repo.snapshot("sess", "t1").expect("pre-snapshot should succeed");
    repo.write("dest.txt", "copy-me");
    let post = repo.snapshot("sess", "t2").expect("post-snapshot should succeed");
    let result = diff(&pre, &post);
    let created = names(&result.created);
    assert!(
        created.iter().any(|p| p.contains("dest.txt")),
        "dest.txt should appear in created (or modified) after copy; got {:?}",
        created
    );
    let modified = names(&result.modified);
    assert!(
        !modified.iter().any(|p| p.contains("source.txt")),
        "source.txt should not be modified by a copy; got {:?}",
        modified
    );
}

#[test]
fn test_bash_tool_no_changes_detected() {
    let mut repo = Repo::new();
    repo.add_and_commit("stable.txt", "unchanged", "initial");
    let pre = repo.snapshot("sess", "t1").expect("pre-snapshot should succeed");
    let post = repo.snapshot("sess", "t2").expect("post-snapshot should succeed");
    let result = diff(&pre, &post);
    assert!(result.is_empty(), "diff should be empty when nothing changed");
    assert!(result.created.is_empty());
    assert!(result.modified.is_empty());
    assert!(result.deleted.is_empty());
}

#[test]
fn test_bash_tool_empty_repo_no_changes() {
    let repo = Repo::new();
    let pre = repo.snapshot("sess", "t1").expect("pre-snapshot should succeed");
    let post = repo.snapshot("sess", "t2").expect("post-snapshot should succeed");
    let result = diff(&pre, &post);
    assert!(result.is_empty(), "empty repo diff should be empty");
}

#[test]
fn test_bash_tool_files_outside_repo_ignored() {
    let mut repo = Repo::new();
    repo.add_and_commit("inside.txt", "inside", "initial");
    let pre = repo.snapshot("sess", "t1").expect("pre-snapshot should succeed");
    let mut walk = snapshot(
        PathSystem::Unix,
        ROOT,
        "sess",
        "t2",
        load_tracked_files(PathSystem::Unix, &repo.ls_files()).unwrap(),
        repo.rules(),
    )
    .unwrap();
    assert!(matches!(walk.examine(0, &WalkItem::Outside), WalkStep::Pass));
    let post = repo.snapshot("sess", "t2").expect("post-snapshot should succeed");
    let result = diff(&pre, &post);
    assert!(result.is_empty(), "changes outside the repo should not appear in the diff");
}

#[test]
fn test_bash_tool_empty_stat_diff() {
    let repo = Repo::new();
    let pre = repo.snapshot("sess", "t1").expect("pre-snapshot should succeed");
    let post = repo.snapshot("sess", "t2").expect("post-snapshot should succeed");
    let result = diff(&pre, &post);
    assert!(result.is_empty(), "empty stat-diff should produce no changes");
    assert!(result.all_changed_paths().is_empty());
}

#[test]
fn test_bash_tool_multiple_mutations_combined() {
    let mut repo = Repo::new();
    repo.add_and_commit("modify-me.txt", "original", "initial");
    repo.add_and_commit("delete-me.txt", "gone-soon", "add delete target");
    let pre = repo.snapshot("sess", "t1").expect("pre-snapshot should succeed");
    repo.sleep(50);
    repo.write("modify-me.txt", "changed");
    repo.write("brand-new.txt", "fresh");
    repo.remove("delete-me.txt");
    let post = repo.snapshot("sess", "t2").expect("post-snapshot should succeed");
    let result = diff(&pre, &post);
    assert!(!result.is_empty(), "diff should not be empty after multiple mutations");
    let all_paths = result.all_changed_paths();
    assert!(
        all_paths.iter().any(|p| p.contains("modify-me.txt")),
        "modify-me.txt should be in changed paths; got {:?}",
        all_paths
    );
    assert!(
        all_paths.iter().any(|p| p.contains("brand-new.txt")),
        "brand-new.txt should be in changed paths; got {:?}",
        all_paths
    );
    assert!(
        all_paths.iter().any(|p| p.contains("delete-me.txt")),
        "delete-me.txt should be in changed paths; got {:?}",
        all_paths
    );
    assert_eq!(all_paths, vec!["brand-new.txt", "modify-me.txt", "delete-me.txt"]);
}

#[test]
fn test_bash_tool_pre_hook_returns_take_pre_snapshot() {
    let mut repo = Repo::new();
    let result = repo
        .handle(HookEvent::PreToolUse, "sess", "tool1")
        .expect("handle_bash_tool PreToolUse should succeed");
    assert!(
        matches!(result.action, BashCheckpointAction::TakePreSnapshot),
        "PreToolUse should return TakePreSnapshot"
    );
    assert!(result.captured_checkpoint.is_none());
}

#[test]
fn test_bash_tool_post_hook_no_changes() {
    let mut repo = Repo::new();
    repo.add_and_commit("stable.txt", "unchanged", "initial");
    let pre = repo
        .handle(HookEvent::PreToolUse, "sess", "tool1")
        .expect("PreToolUse should succeed");
    assert!(matches!(pre.action, BashCheckpointAction::TakePreSnapshot));
    let post = repo
        .handle(HookEvent::PostToolUse, "sess", "tool1")
        .expect("PostToolUse should succeed");
    assert!(
        matches!(post.action, BashCheckpointAction::NoChanges),
        "PostToolUse with no changes should return NoChanges; got {:?}",
        name_of(&post.action)
    );
}

#[test]
fn test_bash_tool_post_hook_detects_changes() {
    let mut repo = Repo::new();
    repo.add_and_commit("target.txt", "before", "initial");
    let pre = repo
        .handle(HookEvent::PreToolUse, "sess", "tool2")
        .expect("PreToolUse should succeed");
    assert!(matches!(pre.action, BashCheckpointAction::TakePreSnapshot));
    repo.sleep(50);
    repo.write("target.txt", "after");
    let post = repo
        .handle(HookEvent::PostToolUse, "sess", "tool2")
        .expect("PostToolUse should succeed");
    let paths = checkpoint_paths(post.action);
    assert!(
        paths.iter().any(|p| p.contains("target.txt")),
        "Checkpoint should include target.txt; got {:?}",
        paths
    );
}

#[test]
fn test_bash_tool_post_hook_without_pre_uses_fallback() {
    let mut repo = Repo::new();
    repo.add_and_commit("changed.txt", "original", "initial");
    repo.write("changed.txt", "modified");
    let post = repo
        .handle(HookEvent::PostToolUse, "sess", "missing-pre")
        .expect("PostToolUse without pre should succeed via fallback");
    let paths = checkpoint_paths(post.action);
    assert!(
        paths.iter().any(|p| p.contains("changed.txt")),
        "Fallback should detect changed.txt via git status; got {:?}",
        paths
    );
}

#[test]
fn test_bash_tool_orchestration_create_file() {
    let mut repo = Repo::new();
    repo.add_and_commit("readme.md", "# Hello", "init");
    repo.handle(HookEvent::PreToolUse, "orch-sess", "orch-tool")
        .expect("PreToolUse should succeed");
    repo.write("generated.rs", "fn main() {}");
    let result = repo
        .handle(HookEvent::PostToolUse, "orch-sess", "orch-tool")
        .expect("PostToolUse should succeed");
    let paths = checkpoint_paths(result.action);
    assert!(
        paths.iter().any(|p| p.contains("generated.rs")),
        "Orchestrated checkpoint should include generated.rs; got {:?}",
        paths
    );
}

#[test]
fn test_bash_tool_orchestration_delete_file() {
    let mut repo = Repo::new();
    repo.add_and_commit("doomed.txt", "temporary", "initial");
    repo.handle(HookEvent::PreToolUse, "del-sess", "del-tool")
        .expect("PreToolUse should succeed");
    repo.remove("doomed.txt");
    let result = repo
        .handle(HookEvent::PostToolUse, "del-sess", "del-tool")
        .expect("PostToolUse should succeed");
    let paths = checkpoint_paths(result.action);
    assert!(
        paths.iter().any(|p| p.contains("doomed.txt")),
        "Orchestrated checkpoint should include doomed.txt; got {:?}",
        paths
    );
}

#[test]
fn test_bash_tool_orchestration_multiple_tool_uses() {
    let mut repo = Repo::new();
    repo.add_and_commit("base.txt", "base", "initial");
    repo.handle(HookEvent::PreToolUse, "multi-sess", "use1")
        .expect("PreToolUse 1 should succeed");
    repo.write("first.txt", "first");
    let first = repo
        .handle(HookEvent::PostToolUse, "multi-sess", "use1")
        .expect("PostToolUse 1 should succeed");
    assert!(
        matches!(first.action, BashCheckpointAction::Checkpoint(_)),
        "First tool use should produce Checkpoint"
    );
    repo.handle(HookEvent::PreToolUse, "multi-sess", "use2")
        .expect("PreToolUse 2 should succeed");
    repo.sleep(50);
    repo.write("first.txt", "modified-first");
    let second = repo
        .handle(HookEvent::PostToolUse, "multi-sess", "use2")
        .expect("PostToolUse 2 should succeed");
    assert!(
        matches!(second.action, BashCheckpointAction::Checkpoint(_)),
        "Second tool use should produce Checkpoint"
    );
}

#[test]
fn test_classify_tool_claude() {
    assert_eq!(classify_tool(Agent::Claude, "Write"), ToolClass::FileEdit);
    assert_eq!(classify_tool(Agent::Claude, "Edit"), ToolClass::FileEdit);
    assert_eq!(classify_tool(Agent::Claude, "MultiEdit"), ToolClass::FileEdit);
    assert_eq!(classify_tool(Agent::Claude, "Bash"), ToolClass::Bash);
    assert_eq!(classify_tool(Agent::Claude, "Read"), ToolClass::Skip);
    assert_eq!(classify_tool(Agent::Claude, "Glob"), ToolClass::Skip);
    assert_eq!(classify_tool(Agent::Claude, "unknown_tool"), ToolClass::Skip);
}

#[test]
fn test_classify_tool_gemini() {
    assert_eq!(classify_tool(Agent::Gemini, "write_file"), ToolClass::FileEdit);
    assert_eq!(classify_tool(Agent::Gemini, "replace"), ToolClass::FileEdit);
    assert_eq!(classify_tool(Agent::Gemini, "shell"), ToolClass::Bash);
    assert_eq!(classify_tool(Agent::Gemini, "read_file"), ToolClass::Skip);
    assert_eq!(classify_tool(Agent::Gemini, "unknown"), ToolClass::Skip);
}

#[test]
fn test_classify_tool_continue_cli() {
    assert_eq!(classify_tool(Agent::ContinueCli, "edit"), ToolClass::FileEdit);
    assert_eq!(classify_tool(Agent::ContinueCli, "terminal"), ToolClass::Bash);
    assert_eq!(classify_tool(Agent::ContinueCli, "local_shell_call"), ToolClass::Bash);
    assert_eq!(classify_tool(Agent::ContinueCli, "read"), ToolClass::Skip);
    assert_eq!(classify_tool(Agent::ContinueCli, "unknown"), ToolClass::Skip);
}

#[test]
fn test_classify_tool_droid() {
    assert_eq!(classify_tool(Agent::Droid, "ApplyPatch"), ToolClass::FileEdit);
    assert_eq!(classify_tool(Agent::Droid, "Edit"), ToolClass::FileEdit);
    assert_eq!(classify_tool(Agent::Droid, "Write"), ToolClass::FileEdit);
    assert_eq!(classify_tool(Agent::Droid, "Create"), ToolClass::FileEdit);
    assert_eq!(classify_tool(Agent::Droid, "Bash"), ToolClass::Bash);
    assert_eq!(classify_tool(Agent::Droid, "Read"), ToolClass::Skip);
    assert_eq!(classify_tool(Agent::Droid, "unknown"), ToolClass::Skip);
}

#[test]
fn test_classify_tool_amp() {
    assert_eq!(classify_tool(Agent::Amp, "Write"), ToolClass::FileEdit);
    assert_eq!(classify_tool(Agent::Amp, "Edit"), ToolClass::FileEdit);
    assert_eq!(classify_tool(Agent::Amp, "Bash"), ToolClass::Bash);
    assert_eq!(classify_tool(Agent::Amp, "Read"), ToolClass::Skip);
    assert_eq!(classify_tool(Agent::Amp, "unknown"), ToolClass::Skip);
}

#[test]
fn test_classify_tool_opencode() {
    assert_eq!(classify_tool(Agent::OpenCode, "edit"), ToolClass::FileEdit);
    assert_eq!(classify_tool(Agent::OpenCode, "write"), ToolClass::FileEdit);
    assert_eq!(classify_tool(Agent::OpenCode, "bash"), ToolClass::Bash);
    assert_eq!(classify_tool(Agent::OpenCode, "shell"), ToolClass::Bash);
    assert_eq!(classify_tool(Agent::OpenCode, "read"), ToolClass::Skip);
    assert_eq!(classify_tool(Agent::OpenCode, "unknown"), ToolClass::Skip);
}

#[test]
fn test_bash_tool_gitignore_excludes_new_untracked_files() {
    let mut repo = Repo::new();
    repo.add_and_commit(".gitignore", "*.log\n", "add gitignore");
    let pre = repo.snapshot("sess", "t1").expect("pre-snapshot should succeed");
    repo.write("debug.log", "log output");
    repo.write("result.txt", "result data");
    let post = repo.snapshot("sess", "t2").expect("post-snapshot should succeed");
    let created = names(&diff(&pre, &post).created);
    assert!(
        created.iter().any(|p| p.contains("result.txt")),
        "result.txt should be created; got {:?}",
        created
    );
    assert!(
        !created.iter().any(|p| p.contains("debug.log")),
        "debug.log should be excluded by gitignore; got {:?}",
        created
    );
}

#[test]
fn test_bash_tool_gitignore_does_not_exclude_tracked_files() {
    let mut repo = Repo::new();
    repo.add_and_commit("important.log", "valuable data", "track the log");
    repo.add_and_commit(".gitignore", "*.log\n", "add gitignore");
    let pre = repo.snapshot("sess", "t1").expect("pre-snapshot should succeed");
    repo.sleep(50);
    repo.write("important.log", "updated data");
    let post = repo.snapshot("sess", "t2").expect("post-snapshot should succeed");
    let modified = names(&diff(&pre, &post).modified);
    assert!(
        modified.iter().any(|p| p.contains("important.log")),
        "tracked important.log should still appear as modified despite gitignore; got {:?}",
        modified
    );
}

#[test]
fn test_bash_tool_gitignore_excludes_directory_patterns() {
    let mut repo = Repo::new();
    repo.add_and_commit(".gitignore", "*.o\n*.pyc\ntarget/\n", "add gitignore");
    let pre = repo.snapshot("sess", "t1").expect("pre-snapshot should succeed");
    repo.write("build/output.o", "binary");
    repo.write("cache/module.pyc", "bytecode");
    repo.write("src/main.rs", "fn main() {}");
    let post = repo.snapshot("sess", "t2").expect("post-snapshot should succeed");
    let created = names(&diff(&pre, &post).created);
    assert!(
        created.iter().any(|p| p.contains("src/main.rs") || p.contains("src\\main.rs")),
        "src/main.rs should be created; got {:?}",
        created
    );
    assert!(
        !created.iter().any(|p| p.contains("output.o")),
        "*.o files should be excluded by gitignore; got {:?}",
        created
    );
    assert!(
        !created.iter().any(|p| p.contains("module.pyc")),
        "*.pyc files should be excluded by gitignore; got {:?}",
        created
    );
}

#[test]
fn test_build_gitignore_parses_rules() {
    let mut repo = Repo::new();
    repo.add_and_commit(".gitignore", "*.tmp\ntarget/\n", "add gitignore");
    let gitignore = repo.rules().expect("build_gitignore should succeed");
    assert!(
        !should_include_new_file(&gitignore, &FilePath::new("data.tmp"), false),
        "*.tmp should match gitignore rules"
    );
    assert!(
        should_include_new_file(&gitignore, &FilePath::new("main.rs"), false),
        "*.rs should not match gitignore rules"
    );
    let tmp_match = gitignore.matched("data.tmp", false);
    assert!(tmp_match.is_ignore(), "*.tmp should match gitignore rules");
    let rs_match = gitignore.matched("main.rs", false);
    assert!(!rs_match.is_ignore(), "*.rs should not match gitignore rules");
}

#[test]
fn test_git_status_fallback_detects_changes() {
    let mut repo = Repo::new();
    repo.add_and_commit("tracked.txt", "original", "initial");
    repo.write("tracked.txt", "modified");
    let changed =
        git_status_fallback(&repo.status()).expect("git_status_fallback should succeed");
    assert!(
        changed.iter().any(|p| p.contains("tracked.txt")),
        "git_status_fallback should report tracked.txt; got {:?}",
        changed
    );
}

#[test]
fn test_git_status_fallback_detects_untracked() {
    let mut repo = Repo::new();
    repo.add_and_commit("base.txt", "base", "init");
    repo.write("untracked.txt", "new file");
    let changed =
        git_status_fallback(&repo.status()).expect("git_status_fallback should succeed");
    assert!(
        changed.iter().any(|p| p.contains("untracked.txt")),
        "git_status_fallback should report untracked.txt; got {:?}",
        changed
    );
}

#[test]
fn test_git_status_fallback_clean_repo() {
    let mut repo = Repo::new();
    repo.add_and_commit("clean.txt", "clean", "initial");
    let changed =
        git_status_fallback(&repo.status()).expect("git_status_fallback should succeed");
    assert!(changed.is_empty(), "clean repo should report no changes; got {:?}", changed);
}

#[test]
fn test_cleanup_stale_snapshots_does_not_error_on_empty() {
    let mut repo = Repo::new();
    repo.add_and_commit("init.txt", "init", "initial");
    let files: Vec<CachedFile> = Vec::new();
    assert!(cleanup_stale_snapshots(FileTime { nanos: repo.clock }, &files).is_empty());
    snapshot_cache_dir(ROOT, &repo.git_dir())
        .expect("cleanup_stale_snapshots should succeed on empty dir");
}

#[test]
fn test_normalize_path_idempotent() {
    let path = FilePath::new("src/lib.rs");
    let once = normalize_path(PathSystem::Unix, &path);
    let twice = normalize_path(PathSystem::Unix, &once);
    assert_eq!(once.text(), twice.text(), "normalize_path should be idempotent");
}

#[test]
fn test_normalize_path_handles_nested() {
    let path = FilePath::new("deeply/nested/dir/file.rs");
    let normalized = normalize_path(PathSystem::Unix, &path);
    assert_eq!(normalized.text(), normalize_path(PathSystem::Unix, &normalized).text());
}

#[test]
fn test_snapshot_invocation_key_format() {
    let repo = Repo::new();
    let snap = repo.snapshot("my-session", "my-tool").expect("snapshot should succeed");
    assert_eq!(
        snap.invocation_key, "my-session:my-tool",
        "invocation_key should be session_id:tool_use_id"
    );
}

#[test]
fn test_diff_result_all_changed_paths_combines_categories() {
    let mut repo = Repo::new();
    repo.add_and_commit("modify.txt", "original", "initial");
    repo.add_and_commit("delete.txt", "doomed", "add delete target");
    let pre = repo.snapshot("sess", "t1").expect("pre-snapshot should succeed");
    repo.sleep(50);
    repo.write("modify.txt", "changed");
    repo.write("create.txt", "new");
    repo.remove("delete.txt");
    let post = repo.snapshot("sess", "t2").expect("post-snapshot should succeed");
    let all = diff(&pre, &post).all_changed_paths();
    assert!(all.len() >= 3, "Should have at least 3 changed paths; got {}", all.len());
    assert!(all.iter().any(|p| p.contains("modify.txt")));
    assert!(all.iter().any(|p| p.contains("create.txt")));
    assert!(all.iter().any(|p| p.contains("delete.txt")));
}

#[test]
fn test_diff_result_is_empty_true_when_no_changes() {
    let repo = Repo::new();
    let pre = repo.snapshot("sess", "t1").expect("pre-snapshot should succeed");
    let post = repo.snapshot("sess", "t2").expect("post-snapshot should succeed");
    let result = diff(&pre, &post);
    assert!(result.is_empty());
    assert!(result.all_changed_paths().is_empty());
}

#[test]
fn test_bash_tool_detect_file_in_subdirectory() {
    let mut repo = Repo::new();
    repo.add_and_commit("src/lib.rs", "pub fn foo() {}", "initial");
    let pre = repo.snapshot("sess", "t1").expect("pre-snapshot should succeed");
    repo.sleep(50);
    repo.write("src/lib.rs", "pub fn bar() {}");
    repo.write("src/nested/deep/module.rs", "mod deep;");
    let post = repo.snapshot("sess", "t2").expect("post-snapshot should succeed");
    let all = diff(&pre, &post).all_changed_paths();
    assert!(
        all.iter().any(|p| p.contains("src/lib.rs") || p.contains("src\\lib.rs")),
        "src/lib.rs should be detected; got {:?}",
        all
    );
    assert!(
        all.iter().any(|p| p.contains("module.rs")),
        "deeply nested module.rs should be detected; got {:?}",
        all
    );
}

const HOUR: i128 = 3_600_000;

fn hour_ago(repo: &Repo) -> i128 {
    repo.clock - 3_600_000_000_000
}

#[test]
fn the_pre_hook_captures_what_is_newer_than_the_worktree() {
    let mut repo = Repo::new();
    repo.async_mode = true;
    repo.add_and_commit("old.txt", "old", "initial");
    repo.sleep(HOUR);
    repo.write("src/new.txt", "new");
    repo.daemon =
        Some(format!("{{\"watermarks\": {{}}, \"worktree_watermark\": {}}}", repo.clock - 9_000_000_000));
    let result = repo.handle(HookEvent::PreToolUse, "s", "t").unwrap();
    assert!(matches!(result.action, BashCheckpointAction::TakePreSnapshot));
    let info = result.captured_checkpoint.unwrap();
    assert_eq!(info.capture_id, "capture-1");
    assert_eq!(info.repo_working_dir, ROOT);
    let request = &repo.requests[0];
    assert_eq!(request.id, "pre-hook");
    assert!(request.kind == CheckpointKind::Human);
    assert_eq!(request.will_edit, Some(vec!["src/new.txt".to_string()]));
    assert_eq!(request.edited, None);
    assert_eq!(request.contents, vec![("src/new.txt".to_string(), "new".to_string())]);
}

#[test]
fn a_cold_start_captures_the_dirty_files_without_a_watermark() {
    let mut repo = Repo::new();
    repo.variable = Some("YES".to_string());
    repo.add_and_commit("clean.txt", "clean", "initial");
    repo.add_and_commit("dirty.txt", "before", "initial");
    repo.add_and_commit("marked.txt", "before", "initial");
    repo.write("dirty.txt", "after");
    repo.write("marked.txt", "after");
    repo.write("untracked.txt", "new");
    let seen = repo.clock;
    repo.daemon = Some(format!(
        "{{\"watermarks\": {{\"marked.txt\": {}, \"clean.txt\": {}}}, \"worktree_watermark\": null}}",
        seen,
        hour_ago(&repo)
    ));
    let result = repo.handle(HookEvent::PreToolUse, "s", "t").unwrap();
    assert!(result.captured_checkpoint.is_some());
    assert_eq!(
        repo.requests[0].will_edit,
        Some(vec![
            "clean.txt".to_string(),
            "dirty.txt".to_string(),
            "untracked.txt".to_string()
        ])
    );
    assert_eq!(repo.requests[0].contents.len(), 3);
}

#[test]
fn a_cold_start_without_git_status_captures_nothing() {
    let mut repo = Repo::new();
    repo.add_and_commit("a.txt", "a", "initial");
    repo.daemon = Some("{\"watermarks\": {\"a.txt\": 1}}".to_string());
    let step = handle_bash_tool(HookEvent::PreToolUse, ROOT, "s", "t");
    let step = match step {
        HookStep::CleanUp(s) => s.cleaned(),
        _ => panic!("cleaning up comes first"),
    };
    let step = match step {
        HookStep::TakePreSnapshot(s) => s.taken(repo.snapshot("s", "t")),
        _ => panic!("the snapshot comes next"),
    };
    let step = match step {
        HookStep::SavePreSnapshot(s) => s.saved(Ok(())),
        _ => panic!("the snapshot is saved"),
    };
    let step = match step {
        HookStep::CheckPreDelegation(s) => s.checked(true),
        _ => panic!("delegation is looked up"),
    };
    let reply = Some(DaemonReply { ok: true, data: repo.daemon.clone() });
    let step = match step {
        HookStep::QueryWatermarks(s) => s.answered(query_daemon_watermarks(&reply)),
        _ => panic!("the daemon is asked"),
    };
    let step = match step {
        HookStep::ListDirty(s) => {
            assert_eq!(names(&s.stale), vec!["a.txt"]);
            s.listed(Err(GitAiError::IoError("no git".to_string())))
        }
        _ => panic!("the dirty files are listed"),
    };
    match step {
        HookStep::Done(Ok(result)) => {
            assert!(matches!(result.action, BashCheckpointAction::TakePreSnapshot));
            assert!(result.captured_checkpoint.is_none());
        }
        _ => panic!("the hook is done"),
    }
}

#[test]
fn the_pre_hook_captures_nothing_without_cause() {
    let mut repo = Repo::new();
    repo.add_and_commit("a.txt", "a", "initial");
    repo.daemon = Some("{\"worktree_watermark\": 1}".to_string());
    let off = repo.handle(HookEvent::PreToolUse, "s", "t").unwrap();
    assert!(off.captured_checkpoint.is_none(), "nothing is delegated");
    repo.async_mode = true;
    repo.daemon = None;
    let silent = repo.handle(HookEvent::PreToolUse, "s", "t").unwrap();
    assert!(silent.captured_checkpoint.is_none(), "the daemon is silent");
    repo.daemon = Some(format!("{{\"worktree_watermark\": {}}}", repo.clock));
    let seen = repo.handle(HookEvent::PreToolUse, "s", "t").unwrap();
    assert!(seen.captured_checkpoint.is_none(), "nothing is stale");
    assert!(repo.requests.is_empty());
    repo.daemon = Some("{\"worktree_watermark\": 1}".to_string());
    repo.preparing_fails = true;
    let failed = repo.handle(HookEvent::PreToolUse, "s", "t").unwrap();
    assert!(failed.captured_checkpoint.is_none(), "preparing failed");
    assert_eq!(repo.requests.len(), 1);
}

#[test]
fn too_many_stale_files_are_not_captured() {
    let mut repo = Repo::new();
    repo.async_mode = true;
    repo.daemon = Some("{\"worktree_watermark\": 1}".to_string());
    for i in 0..1000 {
        repo.write(&format!("f{}", i), "x");
    }
    let all = repo.handle(HookEvent::PreToolUse, "s", "t").unwrap();
    assert!(all.captured_checkpoint.is_some());
    repo.write("one-more", "x");
    let none = repo.handle(HookEvent::PreToolUse, "s", "t").unwrap();
    assert!(none.captured_checkpoint.is_none());
    assert_eq!(repo.requests.len(), 1);
}

#[test]
fn a_snapshot_that_cannot_be_saved_fails_the_pre_hook() {
    let mut repo = Repo::new();
    repo.git_works = false;
    match repo.handle(HookEvent::PreToolUse, "s", "t") {
        Err(GitAiError::Generic(text)) => assert_eq!(text, "Failed to find .git directory"),
        _ => panic!("the error comes back"),
    }
    match repo.handle(HookEvent::PostToolUse, "s", "t") {
        Err(GitAiError::Generic(text)) => assert_eq!(text, "Failed to find .git directory"),
        _ => panic!("the error comes back"),
    }
}

#[test]
fn a_snapshot_that_fails_does_not_fail_the_hooks() {
    let mut repo = Repo::new();
    repo.snapshots_fail = true;
    let pre = repo.handle(HookEvent::PreToolUse, "s", "t").unwrap();
    assert!(matches!(pre.action, BashCheckpointAction::TakePreSnapshot));
    repo.snapshots_fail = false;
    repo.write("made.txt", "x");
    let post = repo.handle(HookEvent::PostToolUse, "s", "t").unwrap();
    assert_eq!(checkpoint_paths(post.action), vec!["made.txt"]);
    repo.handle(HookEvent::PreToolUse, "s", "t").unwrap();
    repo.snapshots_fail = true;
    let again = repo.handle(HookEvent::PostToolUse, "s", "t").unwrap();
    assert_eq!(checkpoint_paths(again.action), vec!["made.txt"]);
}

#[test]
fn a_stored_snapshot_is_used_once() {
    let mut repo = Repo::new();
    repo.add_and_commit("a.txt", "a", "initial");
    repo.handle(HookEvent::PreToolUse, "s", "t").unwrap();
    assert_eq!(repo.stored.len(), 1);
    assert_eq!(repo.stored[0].0, vec![ROOT, ".git", "ai", "bash_snapshots", "s_t.json"]);
    let first = repo.handle(HookEvent::PostToolUse, "s", "t").unwrap();
    assert!(matches!(first.action, BashCheckpointAction::NoChanges));
    assert!(repo.stored.is_empty());
    let second = repo.handle(HookEvent::PostToolUse, "s", "t").unwrap();
    assert!(matches!(second.action, BashCheckpointAction::NoChanges), "git status finds nothing");
    repo.write("b.txt", "b");
    let third = repo.handle(HookEvent::PostToolUse, "s", "t").unwrap();
    assert_eq!(checkpoint_paths(third.action), vec!["b.txt"]);
}

#[test]
fn a_walk_that_takes_too_long_falls_back_to_git_status() {
    let mut repo = Repo::new();
    repo.add_and_commit("a.txt", "a", "initial");
    repo.elapsed_ms = 5001;
    let pre = repo.handle(HookEvent::PreToolUse, "s", "t").unwrap();
    assert!(matches!(pre.action, BashCheckpointAction::TakePreSnapshot));
    assert!(repo.stored.is_empty());
    repo.write("a.txt", "b");
    let post = repo.handle(HookEvent::PostToolUse, "s", "t").unwrap();
    assert_eq!(checkpoint_paths(post.action), vec!["a.txt"]);
    repo.elapsed_ms = 0;
    repo.handle(HookEvent::PreToolUse, "s", "u").unwrap();
    repo.elapsed_ms = 5001;
    let late = repo.handle(HookEvent::PostToolUse, "s", "u").unwrap();
    assert_eq!(checkpoint_paths(late.action), vec!["a.txt"]);
}

#[test]
fn when_git_status_fails_too_the_post_hook_gives_up() {
    let step = handle_bash_tool(HookEvent::PostToolUse, ROOT, "s", "t");
    let step = match step {
        HookStep::LoadPreSnapshot(s) => {
            assert_eq!(s.invocation_key, "s:t");
            s.loaded(Ok(None))
        }
        _ => panic!("the snapshot is loaded first"),
    };
    let mut repo = Repo::new();
    repo.git_works = false;
    match step {
        HookStep::ListChanged(s) => match s.listed(git_status_fallback(&repo.status())) {
            HookStep::Done(Ok(result)) => {
                assert!(matches!(result.action, BashCheckpointAction::Fallback));
                assert!(result.captured_checkpoint.is_none());
            }
            _ => panic!("the hook is done"),
        },
        _ => panic!("git status is asked"),
    }
}

#[test]
fn new_files_that_the_rules_ignore_are_no_change() {
    let mut repo = Repo::new();
    repo.add_and_commit(".gitignore", "*.log\n", "add gitignore");
    repo.handle(HookEvent::PreToolUse, "s", "t").unwrap();
    repo.write("debug.log", "log output");
    let post = repo.handle(HookEvent::PostToolUse, "s", "t").unwrap();
    assert!(matches!(post.action, BashCheckpointAction::NoChanges));
}

#[test]
fn without_rules_every_new_file_is_a_change() {
    let mut repo = Repo::new();
    let pre = repo.snapshot("s", "t").unwrap();
    let stored = bash_attribution::cache::store(&pre);
    let restored = bash_attribution::cache::restore(&stored);
    assert!(restored.gitignore.is_none());
    assert!(restored.taken_at.is_none());
    repo.write("debug.log", "x");
    let step = match handle_bash_tool(HookEvent::PostToolUse, ROOT, "s", "t") {
        HookStep::LoadPreSnapshot(s) => s.loaded(Ok(Some(restored))),
        _ => panic!("the snapshot is loaded first"),
    };
    let step = match step {
        HookStep::TakePostSnapshot(s) => s.taken(repo.snapshot("s", "t")),
        _ => panic!("the second snapshot is taken"),
    };
    let step = match step {
        HookStep::RebuildRules(s) => s.rebuilt(Err(GitAiError::Generic("no rules".to_string()))),
        _ => panic!("the rules are built again"),
    };
    match step {
        HookStep::CheckPostDelegation(s) => assert_eq!(s.paths, vec!["debug.log"]),
        _ => panic!("a change was found"),
    }
}

#[test]
fn a_snapshot_with_its_rules_is_compared_at_once() {
    let mut repo = Repo::new();
    repo.add_and_commit(".gitignore", "*.log\n", "add gitignore");
    let pre = repo.snapshot("s", "t").unwrap();
    repo.write("a.txt", "x");
    repo.write("b.log", "x");
    let step = match handle_bash_tool(HookEvent::PostToolUse, ROOT, "s", "t") {
        HookStep::LoadPreSnapshot(s) => s.loaded(Ok(Some(pre))),
        _ => panic!("the snapshot is loaded first"),
    };
    match step {
        HookStep::TakePostSnapshot(s) => match s.taken(repo.snapshot("s", "t")) {
            HookStep::CheckPostDelegation(s) => assert_eq!(s.paths, vec!["a.txt"]),
            _ => panic!("a change was found"),
        },
        _ => panic!("the second snapshot is taken"),
    }
}

#[test]
fn the_post_hook_captures_what_changed() {
    let mut repo = Repo::new();
    repo.variable = Some("true".to_string());
    repo.add_and_commit("gone.txt", "x", "initial");
    repo.handle(HookEvent::PreToolUse, "s", "t").unwrap();
    repo.remove("gone.txt");
    repo.write("made.txt", "made");
    let post = repo.handle(HookEvent::PostToolUse, "s", "t").unwrap();
    assert_eq!(post.captured_checkpoint.unwrap().capture_id, "capture-1");
    assert_eq!(checkpoint_paths(post.action), vec!["made.txt", "gone.txt"]);
    let request = &repo.requests[0];
    assert_eq!(request.id, "post-hook");
    assert!(request.kind == CheckpointKind::AiAgent);
    assert_eq!(request.edited, Some(vec!["made.txt".to_string(), "gone.txt".to_string()]));
    assert_eq!(request.will_edit, None);
    assert_eq!(request.contents, vec![("made.txt".to_string(), "made".to_string())]);
    repo.handle(HookEvent::PreToolUse, "s", "u").unwrap();
    repo.write("more.txt", "x");
    repo.preparing_fails = true;
    let failed = repo.handle(HookEvent::PostToolUse, "s", "u").unwrap();
    assert!(failed.captured_checkpoint.is_none());
    assert_eq!(checkpoint_paths(failed.action), vec!["more.txt"]);
}

#[test]
fn delegation_is_asked_for_in_words() {
    assert!(captured_checkpoint_delegate_enabled(true, None));
    assert!(!captured_checkpoint_delegate_enabled(false, None));
    for yes in ["1", "true", "TRUE", "Yes", "yes"] {
        assert!(captured_checkpoint_delegate_enabled(false, Some(yes)), "{}", yes);
    }
    for no in ["", "0", "on", "truE ", "yess", "\u{17f}"] {
        assert!(!captured_checkpoint_delegate_enabled(false, Some(no)), "{}", no);
    }
}

#[test]
fn the_cache_lies_below_the_git_directory() {
    let joined = |root: &str, git_dir: &str| -> std::path::PathBuf {
        cache_dir_below(root, git_dir).iter().collect()
    };
    assert_eq!(cache_dir_below("/r", ".git"), vec!["/r", ".git", "ai", "bash_snapshots"]);
    assert_eq!(joined("/r", ".git").to_str(), Some("/r/.git/ai/bash_snapshots"));
    assert_eq!(joined("/r/", ".git").to_str(), Some("/r/.git/ai/bash_snapshots"));
    assert_eq!(
        joined("/r", "/w/.git/worktrees/x").to_str(),
        Some("/w/.git/worktrees/x/ai/bash_snapshots")
    );
    let output = GitOutput {
        success: true,
        stdout: "\n /elsewhere/g\u{e9}t \u{3000}\n".as_bytes().to_vec(),
        stderr: Vec::new(),
    };
    assert_eq!(
        snapshot_cache_dir("/r", &output).unwrap(),
        vec!["/r", "/elsewhere/g\u{e9}t", "ai", "bash_snapshots"]
    );
}
