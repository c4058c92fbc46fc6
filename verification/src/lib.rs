//! Attribution of file changes to shell tool calls.
//!
//! Before a shell tool runs, a snapshot of the file metadata in the working tree is taken and
//! stored; after it ran, a second snapshot is compared with the first, and the files that differ are
//! what the tool changed. The library holds every decision on the way as verified functions on plain
//! values. It does no input or output: a caller walks the tree, runs git and reads files, hands in
//! what came of it, and is told what to do next.

pub mod cache;
pub mod capture;
pub mod diff;
pub mod error;
pub mod family;
pub mod git_backend;
pub mod git_output;
pub mod hook;
pub mod ignore_rules;
pub mod order;
pub mod path;
pub mod snapshot;
pub mod sorted_map;
pub mod stat;
pub mod text;
pub mod tool;
pub mod tree;
pub mod watermark;

pub use cache::{cleanup_stale_snapshots, load_and_consume_snapshot, sanitize_key, save_snapshot};
pub use capture::{capture_file_contents, CapturedCheckpointInfo};
pub use diff::{diff, StatDiffResult};
pub use error::GitAiError;
pub use family::{FamilyKey, FamilyState};
pub use git_backend::{GitBackend, ReflogCut};
pub use git_output::{git_status_fallback, load_tracked_files, GitOutput};
pub use hook::{handle_bash_tool, BashCheckpointAction, BashToolResult, HookEvent, HookStep};
pub use ignore_rules::{build_gitignore, should_include_new_file};
pub use order::Placement;
pub use path::{normalize_path, FilePath, PathSystem};
pub use snapshot::{snapshot, StatSnapshot};
pub use sorted_map::SortedMap;
pub use stat::{system_time_to_nanos, FileMetadata, FileTime, StatEntry, StatFileType};
pub use tool::{classify_tool, Agent, ToolClass};
pub use watermark::{find_stale_files, DaemonWatermarks};
