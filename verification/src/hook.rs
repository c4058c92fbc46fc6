//! The hooks before and after a shell tool runs.
//!
//! A hook is a sequence of steps. Each step asks for something that only the world outside can do or
//! tell, and its answer leads to the next step, until the hook is done.

use ignore::gitignore::Gitignore;
use vstd::prelude::*;

use crate::cache::{cache_dir_of, handed_out, never_saves, restored_form, restoring_undoes_storing};
use crate::cache::{snapshot_file_of, snapshots_are_handed_out_once, store_after, store_after_all};
use crate::cache::{stored_form, Store, StoreStep};
use crate::capture::{add_dirty_files, capture_file_contents, captured, captured_info};
use crate::capture::{checkpoint_request, hook_request, prepared_info, with_dirty};
use crate::capture::{CapturedCheckpointInfo, CheckpointKind, CheckpointRequest, FileRead, InfoView};
use crate::capture::{PreparedCheckpoint, RequestView, MAX_STALE_FILES_FOR_CAPTURE};
use crate::diff::{diff, every_listed_path_is_changed, is_created, push_posix, snapshot_diff};
use crate::diff::unchanged_tree_has_no_difference;
use crate::error::{ErrorView, GitAiError};
use crate::ignore_rules::{rules_of, RulesView};
use crate::path::{path_texts, FilePath};
use crate::snapshot::{invocation_key, key_of_call, SnapshotView, StatSnapshot};
use crate::sorted_map::put_all;
use crate::stat::StatEntry;
use crate::text::{copy_texts, posix_form, texts};
use crate::watermark::{find_stale_files, stale_paths, DaemonWatermarks, WatermarksView};

verus! {

/// What a hook decided to do.
pub enum BashCheckpointAction {
    /// The tool is about to run; a snapshot was to be taken.
    TakePreSnapshot,
    /// Files changed: a checkpoint with these paths is due.
    Checkpoint(Vec<String>),
    /// Nothing changed.
    NoChanges,
    /// The changes could not be found out.
    Fallback,
}

/// Which hook is run.
#[derive(Debug, Clone, Copy, PartialEq, Eq, Structural)]
pub enum HookEvent {
    PreToolUse,
    PostToolUse,
}

/// What a hook comes to.
pub struct BashToolResult {
    pub action: BashCheckpointAction,
    /// A captured checkpoint that was prepared and is to be submitted.
    pub captured_checkpoint: Option<CapturedCheckpointInfo>,
}

/// An action by its contents.
pub enum ActionView {
    TakePreSnapshot,
    Checkpoint(Seq<Seq<char>>),
    NoChanges,
    Fallback,
}

/// The result of a hook by its contents.
pub struct ResultView {
    pub action: ActionView,
    pub captured_checkpoint: Option<InfoView>,
}

impl View for BashCheckpointAction {
    type V = ActionView;

    open spec fn view(&self) -> ActionView {
        match self {
            BashCheckpointAction::TakePreSnapshot => ActionView::TakePreSnapshot,
            BashCheckpointAction::Checkpoint(paths) => ActionView::Checkpoint(texts(paths@)),
            BashCheckpointAction::NoChanges => ActionView::NoChanges,
            BashCheckpointAction::Fallback => ActionView::Fallback,
        }
    }
}

impl View for BashToolResult {
    type V = ResultView;

    open spec fn view(&self) -> ResultView {
        ResultView {
            action: self.action@,
            captured_checkpoint: match self.captured_checkpoint {
                Some(info) => Some(info@),
                None => None,
            },
        }
    }
}

/// A use of a shell tool.
pub struct HookCall {
    pub repo_root: String,
    pub session_id: String,
    pub tool_use_id: String,
}

/// A use of a shell tool by its contents.
pub struct CallView {
    pub repo_root: Seq<char>,
    pub session_id: Seq<char>,
    pub tool_use_id: Seq<char>,
}

impl View for HookCall {
    type V = CallView;

    open spec fn view(&self) -> CallView {
        CallView {
            repo_root: self.repo_root@,
            session_id: self.session_id@,
            tool_use_id: self.tool_use_id@,
        }
    }
}

/// Stale snapshots are to be removed from the cache.
pub struct CleanUp {
    pub call: HookCall,
}

/// A snapshot is to be taken before the tool runs.
pub struct TakePreSnapshot {
    pub call: HookCall,
}

/// The snapshot is to be saved.
pub struct SavePreSnapshot {
    pub call: HookCall,
    pub snap: StatSnapshot,
}

/// It is to be found out whether checkpoints are delegated to the daemon.
pub struct CheckPreDelegation {
    pub call: HookCall,
    pub snap: StatSnapshot,
}

/// The daemon is to be asked for the watermarks of the working tree.
pub struct QueryWatermarks {
    pub call: HookCall,
    pub snap: StatSnapshot,
}

/// The dirty files are to be listed with `git status`.
pub struct ListDirty {
    pub call: HookCall,
    pub marks: DaemonWatermarks,
    pub stale: Vec<FilePath>,
}

/// The stale files are to be read.
pub struct ReadStale {
    pub call: HookCall,
    pub files: Vec<FilePath>,
}

/// A captured checkpoint of the stale files is to be prepared.
pub struct PreparePre {
    pub request: CheckpointRequest,
}

/// The snapshot that was taken before the tool ran is to be loaded.
pub struct LoadPreSnapshot {
    pub call: HookCall,
    pub invocation_key: String,
}

/// A snapshot is to be taken after the tool ran.
pub struct TakePostSnapshot {
    pub call: HookCall,
    pub pre: StatSnapshot,
}

/// The ignore rules at the root of the earlier snapshot are to be built.
pub struct RebuildRules {
    pub call: HookCall,
    pub pre: StatSnapshot,
    pub post: StatSnapshot,
}

/// It is to be found out whether checkpoints are delegated to the daemon.
pub struct CheckPostDelegation {
    pub call: HookCall,
    pub paths: Vec<String>,
}

/// The changed files are to be read.
pub struct ReadChanged {
    pub call: HookCall,
    pub paths: Vec<String>,
}

/// A captured checkpoint of the changed files is to be prepared.
pub struct PreparePost {
    pub paths: Vec<String>,
    pub request: CheckpointRequest,
}

/// The changed files are to be listed with `git status`, for want of snapshots.
pub struct ListChanged {
    pub call: HookCall,
}

/// Where a hook stands.
pub enum HookStep {
    CleanUp(CleanUp),
    TakePreSnapshot(TakePreSnapshot),
    SavePreSnapshot(SavePreSnapshot),
    CheckPreDelegation(CheckPreDelegation),
    QueryWatermarks(QueryWatermarks),
    ListDirty(ListDirty),
    ReadStale(ReadStale),
    PreparePre(PreparePre),
    LoadPreSnapshot(LoadPreSnapshot),
    TakePostSnapshot(TakePostSnapshot),
    RebuildRules(RebuildRules),
    CheckPostDelegation(CheckPostDelegation),
    ReadChanged(ReadChanged),
    PreparePost(PreparePost),
    ListChanged(ListChanged),
    Done(Result<BashToolResult, GitAiError>),
}

/// Where a hook stands, by its contents.
pub enum StepView {
    CleanUp(CallView),
    TakePreSnapshot(CallView),
    SavePreSnapshot(CallView, SnapshotView),
    CheckPreDelegation(CallView, SnapshotView),
    QueryWatermarks(CallView, SnapshotView),
    ListDirty(CallView, WatermarksView, Seq<Seq<char>>),
    ReadStale(CallView, Seq<Seq<char>>),
    PreparePre(RequestView),
    LoadPreSnapshot(CallView, Seq<char>),
    TakePostSnapshot(CallView, SnapshotView),
    RebuildRules(CallView, SnapshotView, SnapshotView),
    CheckPostDelegation(CallView, Seq<Seq<char>>),
    ReadChanged(CallView, Seq<Seq<char>>),
    PreparePost(Seq<Seq<char>>, RequestView),
    ListChanged(CallView),
    Done(Result<ResultView, ErrorView>),
}

impl View for HookStep {
    type V = StepView;

    open spec fn view(&self) -> StepView {
        match self {
            HookStep::CleanUp(s) => StepView::CleanUp(s.call@),
            HookStep::TakePreSnapshot(s) => StepView::TakePreSnapshot(s.call@),
            HookStep::SavePreSnapshot(s) => StepView::SavePreSnapshot(s.call@, s.snap@),
            HookStep::CheckPreDelegation(s) => StepView::CheckPreDelegation(s.call@, s.snap@),
            HookStep::QueryWatermarks(s) => StepView::QueryWatermarks(s.call@, s.snap@),
            HookStep::ListDirty(s) => StepView::ListDirty(s.call@, s.marks@, path_texts(s.stale@)),
            HookStep::ReadStale(s) => StepView::ReadStale(s.call@, path_texts(s.files@)),
            HookStep::PreparePre(s) => StepView::PreparePre(s.request@),
            HookStep::LoadPreSnapshot(s) => StepView::LoadPreSnapshot(s.call@, s.invocation_key@),
            HookStep::TakePostSnapshot(s) => StepView::TakePostSnapshot(s.call@, s.pre@),
            HookStep::RebuildRules(s) => StepView::RebuildRules(s.call@, s.pre@, s.post@),
            HookStep::CheckPostDelegation(s) => StepView::CheckPostDelegation(
                s.call@,
                texts(s.paths@),
            ),
            HookStep::ReadChanged(s) => StepView::ReadChanged(s.call@, texts(s.paths@)),
            HookStep::PreparePost(s) => StepView::PreparePost(texts(s.paths@), s.request@),
            HookStep::ListChanged(s) => StepView::ListChanged(s.call@),
            HookStep::Done(Ok(result)) => StepView::Done(Ok(result@)),
            HookStep::Done(Err(error)) => StepView::Done(Err(error@)),
        }
    }
}

/// A hook that came to an action.
pub open spec fn done_with(action: ActionView, info: Option<InfoView>) -> StepView {
    StepView::Done(Ok(ResultView { action, captured_checkpoint: info }))
}

fn done(action: BashCheckpointAction, info: Option<CapturedCheckpointInfo>) -> (step: HookStep)
    ensures
        step@ == done_with(
            action@,
            match info {
                Some(i) => Some(i@),
                None => None,
            },
        ),
{
    HookStep::Done(Ok(BashToolResult { action, captured_checkpoint: info }))
}

/// The step after the attempt to take the first snapshot: a failure is no failure of the hook.
pub open spec fn after_pre_snapshot(
    call: CallView,
    taken: Result<SnapshotView, ErrorView>,
) -> StepView {
    match taken {
        Ok(snap) => StepView::SavePreSnapshot(call, snap),
        Err(_) => done_with(ActionView::TakePreSnapshot, None),
    }
}

/// The step after the attempt to save the first snapshot.
pub open spec fn after_save(
    call: CallView,
    snap: SnapshotView,
    saved: Result<(), ErrorView>,
) -> StepView {
    match saved {
        Ok(_) => StepView::CheckPreDelegation(call, snap),
        Err(error) => StepView::Done(Err(error)),
    }
}

/// The step after it was found out whether there is delegation.
pub open spec fn after_pre_delegation(
    call: CallView,
    snap: SnapshotView,
    delegates: bool,
) -> StepView {
    if delegates {
        StepView::QueryWatermarks(call, snap)
    } else {
        done_with(ActionView::TakePreSnapshot, None)
    }
}

/// The step after the stale files are known: they are read unless there are none or too many.
pub open spec fn with_stale_files(call: CallView, files: Seq<Seq<char>>) -> StepView {
    if 0 < files.len() <= MAX_STALE_FILES_FOR_CAPTURE {
        StepView::ReadStale(call, files)
    } else {
        done_with(ActionView::TakePreSnapshot, None)
    }
}

/// The step after the daemon was asked. Before its first full checkpoint the dirty files are listed
/// as well.
pub open spec fn after_watermarks(
    call: CallView,
    snap: SnapshotView,
    marks: Option<WatermarksView>,
) -> StepView {
    match marks {
        Some(marks) => {
            let stale = stale_paths(snap, marks);
            match marks.worktree {
                Some(_) => with_stale_files(call, stale),
                None => StepView::ListDirty(call, marks, stale),
            }
        },
        None => done_with(ActionView::TakePreSnapshot, None),
    }
}

/// The step after the dirty files were listed; without a list nothing is captured.
pub open spec fn after_dirty(
    call: CallView,
    marks: WatermarksView,
    stale: Seq<Seq<char>>,
    listed: Result<Seq<Seq<char>>, ErrorView>,
) -> StepView {
    match listed {
        Ok(dirty) => with_stale_files(call, with_dirty(stale, marks.per_file, dirty)),
        Err(_) => done_with(ActionView::TakePreSnapshot, None),
    }
}

/// The step after the stale files were read.
pub open spec fn after_stale_read(
    call: CallView,
    files: Seq<Seq<char>>,
    reads: Seq<FileRead>,
) -> StepView {
    StepView::PreparePre(
        hook_request(
            CheckpointKind::Human,
            call.repo_root,
            files.map_values(|f: Seq<char>| posix_form(f)),
            put_all::<String, String>(Seq::empty(), captured(reads)),
        ),
    )
}

/// The step after the attempt to load the first snapshot.
pub open spec fn after_load(
    call: CallView,
    loaded: Result<Option<SnapshotView>, ErrorView>,
) -> StepView {
    match loaded {
        Ok(Some(pre)) => StepView::TakePostSnapshot(call, pre),
        Ok(None) => StepView::ListChanged(call),
        Err(error) => StepView::Done(Err(error)),
    }
}

/// The step after both snapshots are at hand with their rules.
pub open spec fn compared(call: CallView, pre: SnapshotView, post: SnapshotView) -> StepView {
    let difference = snapshot_diff(pre, post);
    if difference.nothing() {
        done_with(ActionView::NoChanges, None)
    } else {
        StepView::CheckPostDelegation(call, difference.changed_paths())
    }
}

/// The step after the attempt to take the second snapshot.
pub open spec fn after_post_snapshot(
    call: CallView,
    pre: SnapshotView,
    taken: Result<SnapshotView, ErrorView>,
) -> StepView {
    match taken {
        Ok(post) => match pre.gitignore {
            Some(_) => compared(call, pre, post),
            None => StepView::RebuildRules(call, pre, post),
        },
        Err(_) => StepView::ListChanged(call),
    }
}

/// The step after the attempt to build the rules again; without rules every new file counts.
pub open spec fn after_rules(
    call: CallView,
    pre: SnapshotView,
    post: SnapshotView,
    built: Result<RulesView, ErrorView>,
) -> StepView {
    match built {
        Ok(rules) => compared(call, SnapshotView { gitignore: Some(rules), ..pre }, post),
        Err(_) => compared(call, SnapshotView { gitignore: None, ..pre }, post),
    }
}

/// The step after it was found out whether there is delegation.
pub open spec fn after_post_delegation(
    call: CallView,
    paths: Seq<Seq<char>>,
    delegates: bool,
) -> StepView {
    if delegates {
        StepView::ReadChanged(call, paths)
    } else {
        done_with(ActionView::Checkpoint(paths), None)
    }
}

/// The step after the changed files were read.
pub open spec fn after_changed_read(
    call: CallView,
    paths: Seq<Seq<char>>,
    reads: Seq<FileRead>,
) -> StepView {
    StepView::PreparePost(
        paths,
        hook_request(
            CheckpointKind::AiAgent,
            call.repo_root,
            paths,
            put_all::<String, String>(Seq::empty(), captured(reads)),
        ),
    )
}

/// The step after the changed files were listed with `git status`.
pub open spec fn after_status(listed: Result<Seq<Seq<char>>, ErrorView>) -> StepView {
    match listed {
        Ok(paths) => if paths.len() == 0 {
            done_with(ActionView::NoChanges, None)
        } else {
            done_with(ActionView::Checkpoint(paths), None)
        },
        Err(_) => done_with(ActionView::Fallback, None),
    }
}

/// The first step of a hook.
pub open spec fn first_step(event: HookEvent, call: CallView) -> StepView {
    match event {
        HookEvent::PreToolUse => StepView::CleanUp(call),
        HookEvent::PostToolUse => StepView::LoadPreSnapshot(
            call,
            key_of_call(call.session_id, call.tool_use_id),
        ),
    }
}

/// Begins a hook. Before the tool runs, a snapshot is taken and stored; after it ran, a second one
/// is taken and compared with the first.
pub fn handle_bash_tool(
    hook_event: HookEvent,
    repo_root: &str,
    session_id: &str,
    tool_use_id: &str,
) -> (step: HookStep)
    ensures
        step@ == first_step(
            hook_event,
            (CallView {
                repo_root: repo_root@,
                session_id: session_id@,
                tool_use_id: tool_use_id@,
            }),
        ),
{
    let call = HookCall {
        repo_root: repo_root.to_owned(),
        session_id: session_id.to_owned(),
        tool_use_id: tool_use_id.to_owned(),
    };
    match hook_event {
        HookEvent::PreToolUse => HookStep::CleanUp(CleanUp { call }),
        HookEvent::PostToolUse => HookStep::LoadPreSnapshot(
            LoadPreSnapshot { call, invocation_key: invocation_key(session_id, tool_use_id) },
        ),
    }
}

/// A snapshot or an error, by its contents.
pub open spec fn snapshot_result(taken: Result<StatSnapshot, GitAiError>) -> Result<
    SnapshotView,
    ErrorView,
> {
    match taken {
        Ok(snap) => Ok(snap@),
        Err(error) => Err(error@),
    }
}

/// A snapshot, none or an error, by its contents.
pub open spec fn load_result(loaded: Result<Option<StatSnapshot>, GitAiError>) -> Result<
    Option<SnapshotView>,
    ErrorView,
> {
    match loaded {
        Ok(Some(snap)) => Ok(Some(snap@)),
        Ok(None) => Ok(None),
        Err(error) => Err(error@),
    }
}

/// Success or an error, by its contents.
pub open spec fn save_result(saved: Result<(), GitAiError>) -> Result<(), ErrorView> {
    match saved {
        Ok(_) => Ok(()),
        Err(error) => Err(error@),
    }
}

/// A list of paths or an error, by its contents.
pub open spec fn list_result(listed: Result<Vec<String>, GitAiError>) -> Result<
    Seq<Seq<char>>,
    ErrorView,
> {
    match listed {
        Ok(paths) => Ok(texts(paths@)),
        Err(error) => Err(error@),
    }
}

/// Rules or an error, by their contents.
pub open spec fn rules_result(built: Result<Gitignore, GitAiError>) -> Result<
    RulesView,
    ErrorView,
> {
    match built {
        Ok(rules) => Ok(rules_of(rules)),
        Err(error) => Err(error@),
    }
}

/// Watermarks or none, by their contents.
pub open spec fn marks_view(marks: Option<DaemonWatermarks>) -> Option<WatermarksView> {
    match marks {
        Some(m) => Some(m@),
        None => None,
    }
}

impl CleanUp {
    /// Goes on after the cache was cleaned up, or could not be.
    pub fn cleaned(self) -> (step: HookStep)
        ensures
            step@ == StepView::TakePreSnapshot(self.call@),
    {
        HookStep::TakePreSnapshot(TakePreSnapshot { call: self.call })
    }
}

impl TakePreSnapshot {
    /// Goes on with the snapshot.
    pub fn taken(self, taken: Result<StatSnapshot, GitAiError>) -> (step: HookStep)
        ensures
            step@ == after_pre_snapshot(self.call@, snapshot_result(taken)),
    {
        match taken {
            Ok(snap) => HookStep::SavePreSnapshot(SavePreSnapshot { call: self.call, snap }),
            Err(_) => done(BashCheckpointAction::TakePreSnapshot, None),
        }
    }
}

impl SavePreSnapshot {
    /// Goes on after the attempt to save the snapshot.
    pub fn saved(self, saved: Result<(), GitAiError>) -> (step: HookStep)
        ensures
            step@ == after_save(self.call@, self.snap@, save_result(saved)),
    {
        match saved {
            Ok(_) => HookStep::CheckPreDelegation(
                CheckPreDelegation { call: self.call, snap: self.snap },
            ),
            Err(error) => HookStep::Done(Err(error)),
        }
    }
}

/// Begins a captured checkpoint before the tool runs, if checkpoints are delegated.
pub fn attempt_pre_hook_capture(call: HookCall, snap: StatSnapshot, delegates: bool) -> (step:
    HookStep)
    ensures
        step@ == after_pre_delegation(call@, snap@, delegates),
{
    if delegates {
        HookStep::QueryWatermarks(QueryWatermarks { call, snap })
    } else {
        done(BashCheckpointAction::TakePreSnapshot, None)
    }
}

impl CheckPreDelegation {
    /// Goes on after it was found out whether checkpoints are delegated.
    pub fn checked(self, delegates: bool) -> (step: HookStep)
        ensures
            step@ == after_pre_delegation(self.call@, self.snap@, delegates),
    {
        attempt_pre_hook_capture(self.call, self.snap, delegates)
    }
}

fn capture_stale_files(call: HookCall, files: Vec<FilePath>) -> (step: HookStep)
    ensures
        step@ == with_stale_files(call@, path_texts(files@)),
{
    if files.len() == 0 || files.len() > MAX_STALE_FILES_FOR_CAPTURE {
        done(BashCheckpointAction::TakePreSnapshot, None)
    } else {
        HookStep::ReadStale(ReadStale { call, files })
    }
}

impl QueryWatermarks {
    /// Goes on with the watermarks.
    pub fn answered(self, marks: Option<DaemonWatermarks>) -> (step: HookStep)
        ensures
            step@ == after_watermarks(self.call@, self.snap@, marks_view(marks)),
    {
        match marks {
            Some(marks) => {
                let stale = find_stale_files(&self.snap, &marks);
                match marks.worktree {
                    Some(_) => capture_stale_files(self.call, stale),
                    None => HookStep::ListDirty(ListDirty { call: self.call, marks, stale }),
                }
            },
            None => done(BashCheckpointAction::TakePreSnapshot, None),
        }
    }
}

impl ListDirty {
    /// Goes on with the dirty files.
    pub fn listed(self, listed: Result<Vec<String>, GitAiError>) -> (step: HookStep)
        ensures
            step@ == after_dirty(
                self.call@,
                self.marks@,
                path_texts(self.stale@),
                list_result(listed),
            ),
    {
        match listed {
            Ok(dirty) => capture_stale_files(
                self.call,
                add_dirty_files(&self.stale, &self.marks, &dirty),
            ),
            Err(_) => done(BashCheckpointAction::TakePreSnapshot, None),
        }
    }
}

impl ReadStale {
    /// Goes on with what was read of the files.
    pub fn read(self, reads: Vec<FileRead>) -> (step: HookStep)
        ensures
            step@ == after_stale_read(self.call@, path_texts(self.files@), reads@),
    {
        let contents = capture_file_contents(reads);
        let mut paths: Vec<String> = Vec::new();
        push_posix(&mut paths, &self.files);
        assert(texts(paths@) =~= path_texts(self.files@).map_values(
            |f: Seq<char>| posix_form(f),
        ));
        HookStep::PreparePre(
            PreparePre {
                request: checkpoint_request(
                    CheckpointKind::Human,
                    self.call.repo_root.as_str(),
                    paths,
                    contents,
                ),
            },
        )
    }
}

impl PreparePre {
    /// Ends the hook after the attempt to prepare the checkpoint.
    pub fn prepared(
        self,
        prepared: Result<Option<PreparedCheckpoint>, GitAiError>,
    ) -> (step: HookStep)
        ensures
            step@ == done_with(ActionView::TakePreSnapshot, prepared_info(prepared)),
    {
        done(BashCheckpointAction::TakePreSnapshot, captured_info(prepared))
    }
}

impl LoadPreSnapshot {
    /// Goes on with the snapshot that was loaded.
    pub fn loaded(self, loaded: Result<Option<StatSnapshot>, GitAiError>) -> (step: HookStep)
        ensures
            step@ == after_load(self.call@, load_result(loaded)),
    {
        match loaded {
            Ok(Some(pre)) => HookStep::TakePostSnapshot(
                TakePostSnapshot { call: self.call, pre },
            ),
            Ok(None) => HookStep::ListChanged(ListChanged { call: self.call }),
            Err(error) => HookStep::Done(Err(error)),
        }
    }
}

fn compare(call: HookCall, pre: StatSnapshot, post: StatSnapshot) -> (step: HookStep)
    ensures
        step@ == compared(call@, pre@, post@),
{
    let difference = diff(&pre, &post);
    if difference.is_empty() {
        done(BashCheckpointAction::NoChanges, None)
    } else {
        HookStep::CheckPostDelegation(
            CheckPostDelegation { call, paths: difference.all_changed_paths() },
        )
    }
}

impl TakePostSnapshot {
    /// Goes on with the snapshot.
    pub fn taken(self, taken: Result<StatSnapshot, GitAiError>) -> (step: HookStep)
        ensures
            step@ == after_post_snapshot(self.call@, self.pre@, snapshot_result(taken)),
    {
        match taken {
            Ok(post) => if self.pre.gitignore.is_none() {
                HookStep::RebuildRules(RebuildRules { call: self.call, pre: self.pre, post })
            } else {
                compare(self.call, self.pre, post)
            },
            Err(_) => HookStep::ListChanged(ListChanged { call: self.call }),
        }
    }
}

impl RebuildRules {
    /// Goes on with the rules.
    pub fn rebuilt(self, built: Result<Gitignore, GitAiError>) -> (step: HookStep)
        ensures
            step@ == after_rules(self.call@, self.pre@, self.post@, rules_result(built)),
    {
        let rules = match built {
            Ok(rules) => Some(rules),
            Err(_) => None,
        };
        let pre = StatSnapshot { gitignore: rules, ..self.pre };
        compare(self.call, pre, self.post)
    }
}

/// Begins a captured checkpoint after the tool ran, if checkpoints are delegated.
pub fn attempt_post_hook_capture(call: HookCall, changed_paths: Vec<String>, delegates: bool) -> (
step: HookStep)
    ensures
        step@ == after_post_delegation(call@, texts(changed_paths@), delegates),
{
    if delegates {
        HookStep::ReadChanged(ReadChanged { call, paths: changed_paths })
    } else {
        done(BashCheckpointAction::Checkpoint(changed_paths), None)
    }
}

impl CheckPostDelegation {
    /// Goes on after it was found out whether checkpoints are delegated.
    pub fn checked(self, delegates: bool) -> (step: HookStep)
        ensures
            step@ == after_post_delegation(self.call@, texts(self.paths@), delegates),
    {
        attempt_post_hook_capture(self.call, self.paths, delegates)
    }
}

impl ReadChanged {
    /// Goes on with what was read of the files.
    pub fn read(self, reads: Vec<FileRead>) -> (step: HookStep)
        ensures
            step@ == after_changed_read(self.call@, texts(self.paths@), reads@),
    {
        let contents = capture_file_contents(reads);
        let request = checkpoint_request(
            CheckpointKind::AiAgent,
            self.call.repo_root.as_str(),
            copy_texts(&self.paths),
            contents,
        );
        HookStep::PreparePost(PreparePost { paths: self.paths, request })
    }
}

impl PreparePost {
    /// Ends the hook after the attempt to prepare the checkpoint.
    pub fn prepared(
        self,
        prepared: Result<Option<PreparedCheckpoint>, GitAiError>,
    ) -> (step: HookStep)
        ensures
            step@ == done_with(ActionView::Checkpoint(texts(self.paths@)), prepared_info(prepared)),
    {
        done(BashCheckpointAction::Checkpoint(self.paths), captured_info(prepared))
    }
}

impl ListChanged {
    /// Ends the hook with the changed files.
    pub fn listed(self, listed: Result<Vec<String>, GitAiError>) -> (step: HookStep)
        ensures
            step@ == after_status(list_result(listed)),
    {
        match listed {
            Ok(paths) => if paths.len() == 0 {
                done(BashCheckpointAction::NoChanges, None)
            } else {
                done(BashCheckpointAction::Checkpoint(paths), None)
            },
            Err(_) => done(BashCheckpointAction::Fallback, None),
        }
    }
}

/// What the world outside answers to the steps of a hook.
pub struct Answers {
    pub taken: Result<SnapshotView, ErrorView>,
    pub saved: Result<(), ErrorView>,
    pub delegates: bool,
    pub marks: Option<WatermarksView>,
    pub listed: Result<Seq<Seq<char>>, ErrorView>,
    pub reads: spec_fn(Seq<Seq<char>>) -> Seq<FileRead>,
    pub prepared: spec_fn(RequestView) -> Option<InfoView>,
    pub loaded: Result<Option<SnapshotView>, ErrorView>,
    pub built: Result<RulesView, ErrorView>,
}

/// The step that follows when the world outside answers.
pub open spec fn next_step(step: StepView, answers: Answers) -> StepView {
    match step {
        StepView::CleanUp(call) => StepView::TakePreSnapshot(call),
        StepView::TakePreSnapshot(call) => after_pre_snapshot(call, answers.taken),
        StepView::SavePreSnapshot(call, snap) => after_save(call, snap, answers.saved),
        StepView::CheckPreDelegation(call, snap) => after_pre_delegation(
            call,
            snap,
            answers.delegates,
        ),
        StepView::QueryWatermarks(call, snap) => after_watermarks(call, snap, answers.marks),
        StepView::ListDirty(call, marks, stale) => after_dirty(call, marks, stale, answers.listed),
        StepView::ReadStale(call, files) => after_stale_read(call, files, (answers.reads)(files)),
        StepView::PreparePre(request) => done_with(
            ActionView::TakePreSnapshot,
            (answers.prepared)(request),
        ),
        StepView::LoadPreSnapshot(call, key) => after_load(call, answers.loaded),
        StepView::TakePostSnapshot(call, pre) => after_post_snapshot(call, pre, answers.taken),
        StepView::RebuildRules(call, pre, post) => after_rules(call, pre, post, answers.built),
        StepView::CheckPostDelegation(call, paths) => after_post_delegation(
            call,
            paths,
            answers.delegates,
        ),
        StepView::ReadChanged(call, paths) => after_changed_read(
            call,
            paths,
            (answers.reads)(paths),
        ),
        StepView::PreparePost(paths, request) => done_with(
            ActionView::Checkpoint(paths),
            (answers.prepared)(request),
        ),
        StepView::ListChanged(call) => after_status(answers.listed),
        StepView::Done(result) => step,
    }
}

/// The most steps that a hook still takes.
pub open spec fn steps_left(step: StepView) -> nat {
    match step {
        StepView::CleanUp(_) => 8,
        StepView::TakePreSnapshot(_) => 7,
        StepView::SavePreSnapshot(_, _) => 6,
        StepView::CheckPreDelegation(_, _) => 5,
        StepView::QueryWatermarks(_, _) => 4,
        StepView::ListDirty(_, _, _) => 3,
        StepView::ReadStale(_, _) => 2,
        StepView::PreparePre(_) => 1,
        StepView::LoadPreSnapshot(_, _) => 6,
        StepView::TakePostSnapshot(_, _) => 5,
        StepView::RebuildRules(_, _, _) => 4,
        StepView::CheckPostDelegation(_, _) => 3,
        StepView::ReadChanged(_, _) => 2,
        StepView::PreparePost(_, _) => 1,
        StepView::ListChanged(_) => 1,
        StepView::Done(_) => 0,
    }
}

/// Every answer brings a hook nearer to its end: it takes eight steps at most.
#[verifier::spinoff_prover]
pub proof fn hooks_come_to_an_end(step: StepView, answers: Answers)
    ensures
        steps_left(step) <= 8,
        steps_left(step) == 0 <==> step is Done,
        step !is Done ==> steps_left(next_step(step, answers)) < steps_left(step),
{
}

/// What a hook comes to from a step on.
pub open spec fn run_from(step: StepView, answers: Answers) -> Result<ResultView, ErrorView>
    decreases steps_left(step),
{
    match step {
        StepView::Done(result) => result,
        _ => run_from(next_step(step, answers), answers),
    }
}

/// What a hook comes to.
pub open spec fn hook_result(event: HookEvent, call: CallView, answers: Answers) -> Result<
    ResultView,
    ErrorView,
> {
    run_from(first_step(event, call), answers)
}

/// An action, and the captured checkpoint that goes with it.
pub open spec fn acted(action: ActionView, info: Option<InfoView>) -> Result<
    ResultView,
    ErrorView,
> {
    Ok(ResultView { action, captured_checkpoint: info })
}

/// The files whose contents are captured before the tool runs: those that are newer than the
/// watermarks, and as long as the worktree has none, the dirty files that have none of their own; if
/// these are needed and cannot be listed, none.
pub open spec fn files_to_capture(
    snap: SnapshotView,
    marks: WatermarksView,
    listed: Result<Seq<Seq<char>>, ErrorView>,
) -> Seq<Seq<char>> {
    match (marks.worktree, listed) {
        (Some(_), _) => stale_paths(snap, marks),
        (None, Ok(dirty)) => with_dirty(stale_paths(snap, marks), marks.per_file, dirty),
        (None, Err(_)) => Seq::empty(),
    }
}

/// The captured checkpoint of the hook before the tool runs.
pub open spec fn pre_capture(call: CallView, snap: SnapshotView, answers: Answers) -> Option<
    InfoView,
> {
    match answers.marks {
        Some(marks) => {
            let files = files_to_capture(snap, marks, answers.listed);
            if answers.delegates && 0 < files.len() <= MAX_STALE_FILES_FOR_CAPTURE {
                (answers.prepared)(
                    hook_request(
                        CheckpointKind::Human,
                        call.repo_root,
                        files.map_values(|f: Seq<char>| posix_form(f)),
                        put_all::<String, String>(Seq::empty(), captured((answers.reads)(files))),
                    ),
                )
            } else {
                None
            }
        },
        None => None,
    }
}

/// What the hook before the tool runs comes to.
pub open spec fn pre_outcome(call: CallView, answers: Answers) -> Result<ResultView, ErrorView> {
    match (answers.taken, answers.saved) {
        (Ok(_), Err(error)) => Err(error),
        (Ok(snap), Ok(_)) => acted(
            ActionView::TakePreSnapshot,
            pre_capture(call, snap, answers),
        ),
        (Err(_), _) => acted(ActionView::TakePreSnapshot, None),
    }
}

/// The captured checkpoint of the hook after the tool ran.
pub open spec fn post_capture(
    call: CallView,
    paths: Seq<Seq<char>>,
    answers: Answers,
) -> Option<InfoView> {
    if answers.delegates {
        (answers.prepared)(
            hook_request(
                CheckpointKind::AiAgent,
                call.repo_root,
                paths,
                put_all::<String, String>(Seq::empty(), captured((answers.reads)(paths))),
            ),
        )
    } else {
        None
    }
}

/// What comes of the changed files that `git status` lists.
pub open spec fn status_outcome(listed: Result<Seq<Seq<char>>, ErrorView>) -> Result<
    ResultView,
    ErrorView,
> {
    match listed {
        Ok(paths) => acted(
            if paths.len() == 0 {
                ActionView::NoChanges
            } else {
                ActionView::Checkpoint(paths)
            },
            None,
        ),
        Err(_) => acted(ActionView::Fallback, None),
    }
}

/// A snapshot with the rules that it was stored without, if they could be built again.
pub open spec fn with_rules(pre: SnapshotView, built: Result<RulesView, ErrorView>) -> SnapshotView {
    SnapshotView {
        gitignore: match (pre.gitignore, built) {
            (Some(rules), _) => Some(rules),
            (None, Ok(rules)) => Some(rules),
            (None, Err(_)) => None,
        },
        ..pre
    }
}

/// What comes of the comparison of two snapshots.
pub open spec fn diff_outcome(
    call: CallView,
    pre: SnapshotView,
    post: SnapshotView,
    answers: Answers,
) -> Result<ResultView, ErrorView> {
    let difference = snapshot_diff(pre, post);
    if difference.nothing() {
        acted(ActionView::NoChanges, None)
    } else {
        acted(
            ActionView::Checkpoint(difference.changed_paths()),
            post_capture(call, difference.changed_paths(), answers),
        )
    }
}

/// What the hook after the tool ran comes to.
pub open spec fn post_outcome(call: CallView, answers: Answers) -> Result<ResultView, ErrorView> {
    match (answers.loaded, answers.taken) {
        (Err(error), _) => Err(error),
        (Ok(Some(pre)), Ok(post)) => diff_outcome(
            call,
            with_rules(pre, answers.built),
            post,
            answers,
        ),
        _ => status_outcome(answers.listed),
    }
}

#[verifier::spinoff_prover]
proof fn lemma_pre_capture(call: CallView, snap: SnapshotView, answers: Answers)
    ensures
        run_from(StepView::CheckPreDelegation(call, snap), answers) == acted(
            ActionView::TakePreSnapshot,
            pre_capture(call, snap, answers),
        ),
{
    reveal_with_fuel(run_from, 6);
}

#[verifier::spinoff_prover]
proof fn lemma_pre_outcome(call: CallView, answers: Answers)
    ensures
        hook_result(HookEvent::PreToolUse, call, answers) == pre_outcome(call, answers),
{
    reveal_with_fuel(run_from, 4);
    match answers.taken {
        Ok(snap) => {
            lemma_pre_capture(call, snap, answers);
        },
        Err(_) => {},
    }
}

#[verifier::spinoff_prover]
proof fn lemma_compared(call: CallView, pre: SnapshotView, post: SnapshotView, answers: Answers)
    ensures
        run_from(compared(call, pre, post), answers) == diff_outcome(call, pre, post, answers),
{
    reveal_with_fuel(run_from, 4);
}

#[verifier::spinoff_prover]
proof fn lemma_post_outcome(call: CallView, answers: Answers)
    ensures
        hook_result(HookEvent::PostToolUse, call, answers) == post_outcome(call, answers),
{
    reveal_with_fuel(run_from, 4);
    match (answers.loaded, answers.taken) {
        (Ok(Some(pre)), Ok(post)) => {
            let ruled = with_rules(pre, answers.built);
            lemma_compared(call, ruled, post, answers);
            if pre.gitignore is Some {
                assert(ruled == pre);
            }
        },
        _ => {},
    }
}

/// What a hook comes to, whatever the world outside answers.
pub proof fn hooks_come_to(event: HookEvent, call: CallView, answers: Answers)
    ensures
        hook_result(event, call, answers) == match event {
            HookEvent::PreToolUse => pre_outcome(call, answers),
            HookEvent::PostToolUse => post_outcome(call, answers),
        },
{
    match event {
        HookEvent::PreToolUse => lemma_pre_outcome(call, answers),
        HookEvent::PostToolUse => lemma_post_outcome(call, answers),
    }
}

/// The hook before the tool runs fails only if the snapshot was taken and could not be saved, with
/// that error. Otherwise it takes a snapshot, also where the attempt failed.
pub proof fn pre_hook_takes_a_snapshot(call: CallView, answers: Answers)
    ensures
        match hook_result(HookEvent::PreToolUse, call, answers) {
            Ok(result) => result.action is TakePreSnapshot && (answers.taken is Err
                || answers.saved is Ok),
            Err(error) => answers.taken is Ok && answers.saved == Err::<(), ErrorView>(error),
        },
{
    hooks_come_to(HookEvent::PreToolUse, call, answers);
}

/// The hook after the tool ran fails only if the stored snapshot could not be loaded, with that
/// error. Otherwise it reports changed files, of which there is at least one, or that nothing
/// changed, or that it could not find out; this last only if `git status` failed and a snapshot was
/// missing.
pub proof fn post_hook_reports_changes(call: CallView, answers: Answers)
    ensures
        match hook_result(HookEvent::PostToolUse, call, answers) {
            Ok(result) => answers.loaded is Ok && match result.action {
                ActionView::TakePreSnapshot => false,
                ActionView::Checkpoint(paths) => paths.len() > 0,
                ActionView::NoChanges => result.captured_checkpoint is None,
                ActionView::Fallback => result.captured_checkpoint is None && answers.listed is Err
                    && (answers.taken is Err || answers.loaded->Ok_0 is None),
            },
            Err(error) => answers.loaded == Err::<Option<SnapshotView>, ErrorView>(error),
        },
{
    hooks_come_to(HookEvent::PostToolUse, call, answers);
}

/// A checkpoint is captured only if checkpoints are delegated.
pub proof fn capture_needs_delegation(event: HookEvent, call: CallView, answers: Answers)
    requires
        !answers.delegates,
    ensures
        hook_result(event, call, answers) matches Ok(result) ==> result.captured_checkpoint is None,
{
    hooks_come_to(event, call, answers);
}

/// Where the stored snapshot is lost, or no second one can be taken, the changed files are those
/// that `git status` lists.
pub proof fn lost_snapshots_fall_back_to_git_status(call: CallView, answers: Answers)
    requires
        answers.loaded matches Ok(pre) && (pre is None || answers.taken is Err),
    ensures
        hook_result(HookEvent::PostToolUse, call, answers) == status_outcome(answers.listed),
{
    hooks_come_to(HookEvent::PostToolUse, call, answers);
}

/// A stored snapshot serves one second hook only: once it was handed out, and until a first hook
/// stores another one, the changed files are those that `git status` lists.
pub proof fn used_up_snapshots_fall_back_to_git_status(
    call: CallView,
    git_dir: Seq<char>,
    store: Store,
    steps: Seq<StoreStep>,
    answers: Answers,
)
    requires
        ({
            let file = snapshot_file_of(
                cache_dir_of(call.repo_root, git_dir),
                key_of_call(call.session_id, call.tool_use_id),
            );
            let used = store_after(store, StoreStep::Consume(file));
            never_saves(steps, file) && answers.loaded == Ok::<Option<SnapshotView>, ErrorView>(
                handed_out(store_after_all(used, steps), file),
            )
        }),
    ensures
        hook_result(HookEvent::PostToolUse, call, answers) == status_outcome(answers.listed),
        hook_result(HookEvent::PostToolUse, call, answers)->Ok_0.captured_checkpoint is None,
{
    let file = snapshot_file_of(
        cache_dir_of(call.repo_root, git_dir),
        key_of_call(call.session_id, call.tool_use_id),
    );
    snapshots_are_handed_out_once(store, file, steps);
    lost_snapshots_fall_back_to_git_status(call, answers);
}

/// The second hook reports the difference between the tree that the first hook found and stored and
/// the tree that it finds itself, under the rules that it builds again: a checkpoint with the
/// changed paths if there is a difference, and no change if there is none.
pub proof fn changes_between_the_hooks_are_reported(
    call: CallView,
    pre: SnapshotView,
    post: SnapshotView,
    answers: Answers,
)
    requires
        pre.in_order(),
        answers.loaded == Ok::<Option<SnapshotView>, ErrorView>(
            Some(restored_form(stored_form(pre))),
        ),
        answers.taken == Ok::<SnapshotView, ErrorView>(post),
    ensures
        ({
            let frozen = SnapshotView {
                gitignore: match answers.built {
                    Ok(rules) => Some(rules),
                    Err(_) => None,
                },
                ..pre
            };
            let result = hook_result(HookEvent::PostToolUse, call, answers);
            &&& result is Ok
            &&& result->Ok_0.action == if snapshot_diff(frozen, post).nothing() {
                ActionView::NoChanges
            } else {
                ActionView::Checkpoint(snapshot_diff(frozen, post).changed_paths())
            }
        }),
{
    hooks_come_to(HookEvent::PostToolUse, call, answers);
    restoring_undoes_storing(pre);
    let frozen = SnapshotView {
        gitignore: match answers.built {
            Ok(rules) => Some(rules),
            Err(_) => None,
        },
        ..pre
    };
    let used = with_rules(restored_form(stored_form(pre)), answers.built);
    assert((|e: (Seq<char>, StatEntry)| is_created(used, e.0)) =~= (|e: (Seq<char>, StatEntry)|
        is_created(frozen, e.0)));
    assert(snapshot_diff(used, post) == snapshot_diff(frozen, post));
}

/// The second hook of a tool call looks for the snapshot in the file in which the first hook stored
/// it.
pub proof fn both_hooks_use_one_file(call: CallView, snap: SnapshotView, git_dir: Seq<char>)
    requires
        snap.repo_root == call.repo_root,
        snap.invocation_key == key_of_call(call.session_id, call.tool_use_id),
    ensures
        first_step(HookEvent::PostToolUse, call) matches StepView::LoadPreSnapshot(_, key)
            && snapshot_file_of(cache_dir_of(call.repo_root, git_dir), key) == snapshot_file_of(
            cache_dir_of(snap.repo_root, git_dir),
            snap.invocation_key,
        ),
{
}

/// If the tool left the tree as it was, the second hook reports no change.
pub proof fn unchanged_tree_needs_no_checkpoint(
    call: CallView,
    pre: SnapshotView,
    post: SnapshotView,
    answers: Answers,
)
    requires
        pre.in_order(),
        post.in_order(),
        pre.entries == post.entries,
        answers.loaded == Ok::<Option<SnapshotView>, ErrorView>(Some(pre)),
        answers.taken == Ok::<SnapshotView, ErrorView>(post),
    ensures
        hook_result(HookEvent::PostToolUse, call, answers) == acted(ActionView::NoChanges, None),
{
    hooks_come_to(HookEvent::PostToolUse, call, answers);
    unchanged_tree_has_no_difference(with_rules(pre, answers.built), post);
}

/// What a hook asks for, step by step: before the tool runs, the cache is cleaned up, a snapshot is
/// taken and saved, and a checkpoint is captured if checkpoints are delegated; after it ran, the saved
/// snapshot is loaded, a second one is taken, and the two are compared under the rules at hand or
/// built again.
pub proof fn answers_lead_on(
    call: CallView,
    snap: SnapshotView,
    post: SnapshotView,
    error: ErrorView,
    rules: RulesView,
)
    ensures
        first_step(HookEvent::PreToolUse, call) == StepView::CleanUp(call),
        first_step(HookEvent::PostToolUse, call) == StepView::LoadPreSnapshot(
            call,
            call.session_id + ":"@ + call.tool_use_id,
        ),
        after_pre_snapshot(call, Ok(snap)) == StepView::SavePreSnapshot(call, snap),
        after_save(call, snap, Ok(())) == StepView::CheckPreDelegation(call, snap),
        after_save(call, snap, Err(error)) == StepView::Done(Err(error)),
        after_pre_delegation(call, snap, true) == StepView::QueryWatermarks(call, snap),
        after_load(call, Ok(Some(snap))) == StepView::TakePostSnapshot(call, snap),
        after_load(call, Ok(None)) == StepView::ListChanged(call),
        after_load(call, Err(error)) == StepView::Done(Err(error)),
        after_post_snapshot(call, snap, Err(error)) == StepView::ListChanged(call),
        snap.gitignore is None ==> after_post_snapshot(call, snap, Ok(post))
            == StepView::RebuildRules(call, snap, post),
        snap.gitignore is Some ==> after_post_snapshot(call, snap, Ok(post)) == compared(
            call,
            snap,
            post,
        ),
        after_rules(call, snap, post, Ok(rules)) == compared(
            call,
            SnapshotView { gitignore: Some(rules), ..snap },
            post,
        ),
        after_rules(call, snap, post, Err(error)) == compared(
            call,
            SnapshotView { gitignore: None, ..snap },
            post,
        ),
{
}

/// What follows the files and checkpoints of a hook: up to a thousand stale files are read, and if
/// there are none or more, the hook ends; the changed files are read if checkpoints are delegated, and
/// otherwise reported as they are.
pub proof fn files_lead_on(
    call: CallView,
    files: Seq<Seq<char>>,
    marks: WatermarksView,
    snap: SnapshotView,
    dirty: Seq<Seq<char>>,
    error: ErrorView,
)
    ensures
        0 < files.len() <= 1000 ==> with_stale_files(call, files) == StepView::ReadStale(call, files),
        files.len() == 0 || files.len() > 1000 ==> with_stale_files(call, files) == StepView::Done(
            Ok(ResultView { action: ActionView::TakePreSnapshot, captured_checkpoint: None }),
        ),
        marks.worktree is Some ==> after_watermarks(call, snap, Some(marks)) == with_stale_files(
            call,
            stale_paths(snap, marks),
        ),
        marks.worktree is None ==> after_watermarks(call, snap, Some(marks)) == StepView::ListDirty(
            call,
            marks,
            stale_paths(snap, marks),
        ),
        after_dirty(call, marks, files, Ok(dirty)) == with_stale_files(
            call,
            with_dirty(files, marks.per_file, dirty),
        ),
        after_post_delegation(call, files, true) == StepView::ReadChanged(call, files),
        after_post_delegation(call, files, false) == StepView::Done(
            Ok(
                ResultView {
                    action: ActionView::Checkpoint(files),
                    captured_checkpoint: None,
                },
            ),
        ),
        ({
            let over = StepView::Done(
                Ok(ResultView { action: ActionView::TakePreSnapshot, captured_checkpoint: None }),
            );
            &&& after_pre_snapshot(call, Err(error)) == over
            &&& after_pre_delegation(call, snap, false) == over
            &&& after_watermarks(call, snap, None) == over
            &&& after_dirty(call, marks, files, Err(error)) == over
        }),
{
}

/// What is requested once the files were read: a checkpoint of all of them, with forward slashes, and
/// with the contents of those that could be read.
pub proof fn reads_lead_to_requests(call: CallView, files: Seq<Seq<char>>, reads: Seq<FileRead>)
    ensures
        ({
            let contents = put_all::<String, String>(Seq::empty(), captured(reads));
            &&& after_changed_read(call, files, reads) == StepView::PreparePost(
                files,
                hook_request(CheckpointKind::AiAgent, call.repo_root, files, contents),
            )
            &&& after_stale_read(call, files, reads) is PreparePre
            &&& forall|paths: Seq<Seq<char>>|
                paths.len() == files.len() && (forall|i: int|
                    0 <= i < files.len() ==> #[trigger] paths[i] == posix_form(files[i]))
                    ==> after_stale_read(call, files, reads) == StepView::PreparePre(
                    #[trigger] hook_request(CheckpointKind::Human, call.repo_root, paths, contents),
                )
        }),
{
    let contents = put_all::<String, String>(Seq::empty(), captured(reads));
    assert forall|paths: Seq<Seq<char>>|
        paths.len() == files.len() && (forall|i: int|
            0 <= i < files.len() ==> #[trigger] paths[i] == posix_form(files[i])) implies after_stale_read(
    call, files, reads) == StepView::PreparePre(
        #[trigger] hook_request(CheckpointKind::Human, call.repo_root, paths, contents),
    ) by {
        assert(paths =~= files.map_values(|f: Seq<char>| posix_form(f)));
    }
}

/// Where the stored snapshot is lost, or no second one can be taken, the hook after the tool ran
/// reports just the paths that `git status` lists, no change if it lists none, and that it could not
/// find out if there is no list.
pub proof fn second_hooks_report_what_git_lists(call: CallView, answers: Answers)
    requires
        answers.loaded matches Ok(pre) && (pre is None || answers.taken is Err),
    ensures
        ({
            let result = hook_result(HookEvent::PostToolUse, call, answers);
            &&& result is Ok
            &&& result->Ok_0.captured_checkpoint is None
            &&& answers.listed is Err ==> result->Ok_0.action is Fallback
            &&& answers.listed is Ok && answers.listed->Ok_0.len() == 0
                ==> result->Ok_0.action is NoChanges
            &&& answers.listed is Ok && answers.listed->Ok_0.len() > 0 ==> result->Ok_0.action
                == ActionView::Checkpoint(answers.listed->Ok_0)
        }),
{
    hooks_come_to(HookEvent::PostToolUse, call, answers);
}

/// With both snapshots at hand, the hook after the tool ran reports no change if the comparison lists
/// none, and otherwise every listed path, first the created ones, then the modified and the deleted
/// ones. If checkpoints are delegated, one of all these paths is captured.
pub proof fn second_hooks_report_what_differs(
    call: CallView,
    pre: SnapshotView,
    post: SnapshotView,
    answers: Answers,
)
    requires
        answers.loaded == Ok::<Option<SnapshotView>, ErrorView>(Some(pre)),
        answers.taken == Ok::<SnapshotView, ErrorView>(post),
    ensures
        ({
            let frozen = SnapshotView {
                gitignore: if pre.gitignore is Some {
                    pre.gitignore
                } else if answers.built is Ok {
                    Some(answers.built->Ok_0)
                } else {
                    None
                },
                ..pre
            };
            let d = snapshot_diff(frozen, post);
            let n = d.created.len() + d.modified.len() + d.deleted.len();
            let result = hook_result(HookEvent::PostToolUse, call, answers);
            &&& result is Ok
            &&& n == 0 ==> result->Ok_0.action is NoChanges
                && result->Ok_0.captured_checkpoint is None
            &&& n > 0 ==> result->Ok_0.action is Checkpoint && {
                let paths = result->Ok_0.action->Checkpoint_0;
                &&& paths.len() == n
                &&& forall|i: int|
                    0 <= i < d.created.len() ==> paths[i] == posix_form(#[trigger] d.created[i])
                &&& forall|i: int|
                    0 <= i < d.modified.len() ==> paths[d.created.len() + i] == posix_form(
                        #[trigger] d.modified[i],
                    )
                &&& forall|i: int|
                    0 <= i < d.deleted.len() ==> paths[d.created.len() + d.modified.len() + i]
                        == posix_form(#[trigger] d.deleted[i])
                &&& !answers.delegates ==> result->Ok_0.captured_checkpoint is None
                &&& answers.delegates ==> result->Ok_0.captured_checkpoint == (answers.prepared)(
                    hook_request(
                        CheckpointKind::AiAgent,
                        call.repo_root,
                        paths,
                        put_all::<String, String>(
                            Seq::empty(),
                            captured((answers.reads)(paths)),
                        ),
                    ),
                )
            }
        }),
{
    hooks_come_to(HookEvent::PostToolUse, call, answers);
    let frozen = SnapshotView {
        gitignore: if pre.gitignore is Some {
            pre.gitignore
        } else if answers.built is Ok {
            Some(answers.built->Ok_0)
        } else {
            None
        },
        ..pre
    };
    assert(with_rules(pre, answers.built) == frozen);
    every_listed_path_is_changed(snapshot_diff(frozen, post));
}

/// The hook before the tool runs captures a checkpoint if checkpoints are delegated, the daemon sent
/// its watermarks, and there is at least one and at most a thousand files to capture: those that are
/// newer than the watermarks, and as long as the worktree has none, the dirty ones that have none of
/// their own as well. Otherwise it captures nothing.
pub proof fn first_hooks_capture_what_is_stale(
    call: CallView,
    snap: SnapshotView,
    marks: WatermarksView,
    paths: Seq<Seq<char>>,
    answers: Answers,
)
    requires
        answers.taken == Ok::<SnapshotView, ErrorView>(snap),
        answers.saved is Ok,
    ensures
        ({
            let result = hook_result(HookEvent::PreToolUse, call, answers);
            let files = if marks.worktree is Some {
                stale_paths(snap, marks)
            } else {
                with_dirty(stale_paths(snap, marks), marks.per_file, answers.listed->Ok_0)
            };
            let known = answers.marks == Some(marks) && (marks.worktree is Some
                || answers.listed is Ok);
            let counts = known && 1 <= files.len() <= 1000;
            &&& result is Ok
            &&& result->Ok_0.action is TakePreSnapshot
            &&& !answers.delegates || answers.marks is None
                ==> result->Ok_0.captured_checkpoint is None
            &&& answers.marks == Some(marks) && !counts ==> result->Ok_0.captured_checkpoint is None
            &&& answers.delegates && counts && paths.len() == files.len() && (forall|i: int|
                0 <= i < files.len() ==> #[trigger] paths[i] == posix_form(files[i]))
                ==> result->Ok_0.captured_checkpoint == (answers.prepared)(
                hook_request(
                    CheckpointKind::Human,
                    call.repo_root,
                    paths,
                    put_all::<String, String>(Seq::empty(), captured((answers.reads)(files))),
                ),
            )
        }),
{
    hooks_come_to(HookEvent::PreToolUse, call, answers);
    if answers.marks == Some(marks) && (marks.worktree is Some || answers.listed is Ok) {
        let files = files_to_capture(snap, marks, answers.listed);
        if paths.len() == files.len() && (forall|i: int|
            0 <= i < files.len() ==> #[trigger] paths[i] == posix_form(files[i])) {
            assert(paths =~= files.map_values(|f: Seq<char>| posix_form(f)));
        }
    }
}

/// Steps show what they hold.
pub proof fn steps_show_what_they_hold(step: HookStep, result: BashToolResult, call: HookCall)
    ensures
        call@.repo_root == call.repo_root@,
        call@.session_id == call.session_id@,
        call@.tool_use_id == call.tool_use_id@,
        result.action is TakePreSnapshot <==> result@.action is TakePreSnapshot,
        result.action is NoChanges <==> result@.action is NoChanges,
        result.action is Fallback <==> result@.action is Fallback,
        result.action matches BashCheckpointAction::Checkpoint(paths) ==> result@.action
            == ActionView::Checkpoint(texts(paths@)),
        result.captured_checkpoint is None ==> result@.captured_checkpoint is None,
        result.captured_checkpoint matches Some(info) ==> result@.captured_checkpoint == Some(info@),
        step matches HookStep::CleanUp(s) ==> step@ == StepView::CleanUp(s.call@),
        step matches HookStep::TakePreSnapshot(s) ==> step@ == StepView::TakePreSnapshot(s.call@),
        step matches HookStep::SavePreSnapshot(s) ==> step@ == StepView::SavePreSnapshot(
            s.call@,
            s.snap@,
        ),
        step matches HookStep::CheckPreDelegation(s) ==> step@ == StepView::CheckPreDelegation(
            s.call@,
            s.snap@,
        ),
        step matches HookStep::QueryWatermarks(s) ==> step@ == StepView::QueryWatermarks(
            s.call@,
            s.snap@,
        ),
        step matches HookStep::ListDirty(s) ==> step@ == StepView::ListDirty(
            s.call@,
            s.marks@,
            path_texts(s.stale@),
        ),
        step matches HookStep::ReadStale(s) ==> step@ == StepView::ReadStale(
            s.call@,
            path_texts(s.files@),
        ),
        step matches HookStep::PreparePre(s) ==> step@ == StepView::PreparePre(s.request@),
        step matches HookStep::LoadPreSnapshot(s) ==> step@ == StepView::LoadPreSnapshot(
            s.call@,
            s.invocation_key@,
        ),
        step matches HookStep::TakePostSnapshot(s) ==> step@ == StepView::TakePostSnapshot(
            s.call@,
            s.pre@,
        ),
        step matches HookStep::RebuildRules(s) ==> step@ == StepView::RebuildRules(
            s.call@,
            s.pre@,
            s.post@,
        ),
        step matches HookStep::CheckPostDelegation(s) ==> step@ == StepView::CheckPostDelegation(
            s.call@,
            texts(s.paths@),
        ),
        step matches HookStep::ReadChanged(s) ==> step@ == StepView::ReadChanged(
            s.call@,
            texts(s.paths@),
        ),
        step matches HookStep::PreparePost(s) ==> step@ == StepView::PreparePost(
            texts(s.paths@),
            s.request@,
        ),
        step matches HookStep::ListChanged(s) ==> step@ == StepView::ListChanged(s.call@),
        step matches HookStep::Done(Ok(r)) ==> step@ == StepView::Done(Ok(r@)),
        step matches HookStep::Done(Err(e)) ==> step@ == StepView::Done(Err(e@)),
{
}

/// Answers show what they hold.
pub proof fn answers_show_what_they_hold(
    taken: Result<StatSnapshot, GitAiError>,
    loaded: Result<Option<StatSnapshot>, GitAiError>,
    saved: Result<(), GitAiError>,
    listed: Result<Vec<String>, GitAiError>,
    built: Result<Gitignore, GitAiError>,
    marks: Option<DaemonWatermarks>,
)
    ensures
        taken matches Ok(snap) ==> snapshot_result(taken) == Ok::<SnapshotView, ErrorView>(snap@),
        taken matches Err(e) ==> snapshot_result(taken) == Err::<SnapshotView, ErrorView>(e@),
        loaded matches Ok(Some(snap)) ==> load_result(loaded) == Ok::<
            Option<SnapshotView>,
            ErrorView,
        >(Some(snap@)),
        loaded matches Ok(None) ==> load_result(loaded) == Ok::<Option<SnapshotView>, ErrorView>(None),
        loaded matches Err(e) ==> load_result(loaded) == Err::<Option<SnapshotView>, ErrorView>(e@),
        saved is Ok ==> save_result(saved) is Ok,
        saved matches Err(e) ==> save_result(saved) == Err::<(), ErrorView>(e@),
        listed matches Ok(paths) ==> list_result(listed) == Ok::<Seq<Seq<char>>, ErrorView>(
            texts(paths@),
        ),
        listed matches Err(e) ==> list_result(listed) == Err::<Seq<Seq<char>>, ErrorView>(e@),
        built matches Ok(rules) ==> rules_result(built) == Ok::<RulesView, ErrorView>(
            rules_of(rules),
        ),
        built matches Err(e) ==> rules_result(built) == Err::<RulesView, ErrorView>(e@),
        marks is None ==> marks_view(marks) is None,
        marks matches Some(m) ==> marks_view(marks) == Some(m@),
{
}

/// What follows a comparison and a list: without a changed path the hook ends with no change; the
/// paths that a comparison gives are handed on, and those that `git status` lists are reported as they
/// are; without a list the hook ends without having found out.
pub proof fn changes_lead_on(
    call: CallView,
    pre: SnapshotView,
    post: SnapshotView,
    paths: Seq<Seq<char>>,
    error: ErrorView,
    action: ActionView,
    info: Option<InfoView>,
)
    ensures
        ({
            let d = snapshot_diff(pre, post);
            let unchanged = StepView::Done(
                Ok(ResultView { action: ActionView::NoChanges, captured_checkpoint: None }),
            );
            let empty = d.created.len() == 0 && d.modified.len() == 0 && d.deleted.len() == 0;
            &&& empty ==> compared(call, pre, post) == unchanged
            &&& !empty ==> compared(call, pre, post) == StepView::CheckPostDelegation(
                call,
                d.changed_paths(),
            )
            &&& paths.len() == 0 ==> after_status(Ok(paths)) == unchanged
            &&& paths.len() > 0 ==> after_status(Ok(paths)) == StepView::Done(
                Ok(
                    ResultView {
                        action: ActionView::Checkpoint(paths),
                        captured_checkpoint: None,
                    },
                ),
            )
            &&& after_status(Err(error)) == StepView::Done(
                Ok(ResultView { action: ActionView::Fallback, captured_checkpoint: None }),
            )
            &&& done_with(action, info) == StepView::Done(
                Ok(ResultView { action, captured_checkpoint: info }),
            )
        }),
{
}

} // verus!
