//! Snapshots of a working tree, and how one is taken.

use ignore::gitignore::Gitignore;
use vstd::prelude::*;

use crate::error::{ErrorView, GitAiError};
use crate::ignore_rules::{lets_through, match_verdict, matcher_globs, matcher_root, rules_of};
use crate::ignore_rules::{should_include_new_file, IgnoreMatch, RulesView};
use crate::path::{folds_case, normalize_path, normalized, path_key, path_texts};
use crate::path::{FilePath, PathSystem};
use crate::sorted_map::{entries_are_found, entry, holds, keyed_at, lemma_put_all, lemma_put_all_holds};
use crate::sorted_map::{lemma_put_all_value, only_items_are_stored, put_all, sorted, Entries, SortedMap};
use crate::stat::{FileTime, StatEntry};
use crate::text::joined;

verus! {

/// The most tracked files that a snapshot is taken of.
pub const MAX_TRACKED_FILES: usize = 500_000;

/// The longest time, in milliseconds, that a walk of the tree may take; a snapshot whose walk takes
/// longer fails.
pub const STAT_DIFF_TIMEOUT_MS: u64 = 5000;

/// A set of paths.
pub type PathSet = SortedMap<FilePath, ()>;

/// The fingerprints of files under their paths.
pub type PathMap = SortedMap<FilePath, StatEntry>;

/// A snapshot of a working tree.
#[derive(Debug)]
pub struct StatSnapshot {
    /// The fingerprints under the normalized relative paths.
    pub entries: PathMap,
    /// The files that git tracked when the snapshot was taken.
    pub tracked_files: PathSet,
    /// The frozen ignore rules; a snapshot that was stored and read again has none.
    pub gitignore: Option<Gitignore>,
    /// When the snapshot was taken.
    pub taken_at: Option<FileTime>,
    /// The tool call that the snapshot belongs to.
    pub invocation_key: String,
    /// The root of the working tree.
    pub repo_root: FilePath,
    /// Whether every path in the entries is the name of its file as it is, and not what was made of
    /// a name that is no text.
    pub exact_names: bool,
}

/// A snapshot by its contents.
pub struct SnapshotView {
    pub entries: Entries<StatEntry>,
    pub tracked_files: Entries<()>,
    pub gitignore: Option<RulesView>,
    pub taken_at: Option<FileTime>,
    pub invocation_key: Seq<char>,
    pub repo_root: Seq<char>,
    pub exact_names: bool,
}

impl SnapshotView {
    /// The entries and the tracked files are in the order of their paths, without repetition. Every
    /// snapshot is.
    pub open spec fn in_order(self) -> bool {
        &&& sorted::<FilePath, StatEntry>(self.entries)
        &&& sorted::<FilePath, ()>(self.tracked_files)
    }
}

impl View for StatSnapshot {
    type V = SnapshotView;

    open spec fn view(&self) -> SnapshotView {
        SnapshotView {
            entries: self.entries@,
            tracked_files: self.tracked_files@,
            gitignore: match self.gitignore {
                Some(rules) => Some(rules_of(rules)),
                None => None,
            },
            taken_at: self.taken_at,
            invocation_key: self.invocation_key@,
            repo_root: self.repo_root@,
            exact_names: self.exact_names,
        }
    }
}

impl StatSnapshot {
    /// Does nothing; a snapshot is always in order.
    pub(crate) fn known_in_order(&self)
        ensures
            self@.in_order(),
    {
        self.entries.known_in_order();
        self.tracked_files.known_in_order();
    }
}

/// Some entry stands for the path.
pub open spec fn has_path<V>(list: Entries<V>, path: Seq<char>) -> bool {
    holds::<FilePath, V>(list, path_key(path))
}

/// The fingerprint of a path.
pub open spec fn stat_of(list: Entries<StatEntry>, path: Seq<char>) -> Option<StatEntry> {
    match entry::<FilePath, StatEntry>(list, path_key(path)) {
        Some(e) => Some(e.1),
        None => None,
    }
}

/// The key of a tool call: the session and the use of the tool in it.
pub open spec fn key_of_call(session_id: Seq<char>, tool_use_id: Seq<char>) -> Seq<char> {
    session_id + ":"@ + tool_use_id
}

/// The key of a tool call.
pub fn invocation_key(session_id: &str, tool_use_id: &str) -> (key: String)
    ensures
        key@ == key_of_call(session_id@, tool_use_id@),
{
    joined(joined(session_id, ":").as_str(), tool_use_id)
}

/// What a walk of the tree comes upon.
pub enum WalkItem {
    /// Something that could not be read.
    Failed,
    /// A directory.
    Dir,
    /// A file that does not lie below the root.
    Outside,
    /// A file, with its path relative to the root.
    File(FilePath),
    /// A file whose name is no text, with what was made of its path.
    Inexact(FilePath),
}

/// What is to be done about it.
pub enum WalkStep {
    /// The time is up: the walk ends, and no snapshot comes of it.
    Stop,
    /// Nothing.
    Pass,
    /// The file's metadata is to be stored under this path.
    Stat(FilePath),
}

/// A snapshot in the making: the tree is being walked.
pub struct SnapshotWalk {
    pub system: PathSystem,
    pub invocation_key: String,
    pub repo_root: FilePath,
    pub tracked_files: PathSet,
    pub gitignore: Gitignore,
    pub found: Vec<(FilePath, StatEntry)>,
    pub exact_names: bool,
    pub timed_out: bool,
}

/// A file belongs in the snapshot if git tracks it or the rules let it through.
pub open spec fn belongs(
    system: PathSystem,
    tracked_files: Entries<()>,
    rules: RulesView,
    path: Seq<char>,
) -> bool {
    has_path(tracked_files, normalized(system, path)) || lets_through(rules, path, false)
}

/// A file that the walk comes upon is taken up if it belongs in the snapshot. Where the case counts, a
/// name that is no text is not the name of a tracked file, and the rules alone decide.
pub open spec fn taken_up(
    system: PathSystem,
    tracked_files: Entries<()>,
    rules: RulesView,
    path: Seq<char>,
    exact: bool,
) -> bool {
    if exact || folds_case(system) {
        belongs(system, tracked_files, rules, path)
    } else {
        lets_through(rules, path, false)
    }
}

/// The path of the file that the walk comes upon.
pub open spec fn item_path(item: WalkItem) -> Option<Seq<char>> {
    match item {
        WalkItem::File(path) => Some(path@),
        WalkItem::Inexact(path) => Some(path@),
        _ => None,
    }
}

/// The texts and fingerprints of a list of files.
pub open spec fn stat_list(files: Seq<(FilePath, StatEntry)>) -> Entries<StatEntry> {
    files.map_values(|f: (FilePath, StatEntry)| (f.0@, f.1))
}

/// The error of a repository with too many tracked files.
pub open spec fn too_many_tracked() -> ErrorView {
    ErrorView::Generic("Repo exceeds 500000 tracked files; use git status fallback"@)
}

/// The error of a walk that took too long.
pub open spec fn walk_timed_out() -> ErrorView {
    ErrorView::Generic("Stat-diff timeout exceeded; use git status fallback"@)
}

/// Refuses a repository with too many tracked files.
pub fn check_tracked_count(tracked_files: &PathSet) -> (checked: Result<(), GitAiError>)
    ensures
        checked is Ok <==> tracked_files@.len() <= MAX_TRACKED_FILES,
        checked is Ok <==> tracked_files@.len() <= 500_000,
        checked matches Err(error) ==> error@ == too_many_tracked(),
{
    if tracked_files.len() > MAX_TRACKED_FILES {
        Err(
            GitAiError::Generic(
                "Repo exceeds 500000 tracked files; use git status fallback".to_owned(),
            ),
        )
    } else {
        Ok(())
    }
}

/// Begins a snapshot of the working tree at `repo_root` for a tool call: the tracked files and the
/// ignore rules are fixed, and the tree is to be walked. A repository with too many tracked files is
/// refused, and so is one whose rules could not be built.
pub fn snapshot(
    system: PathSystem,
    repo_root: &str,
    session_id: &str,
    tool_use_id: &str,
    tracked_files: PathSet,
    gitignore: Result<Gitignore, GitAiError>,
) -> (begun: Result<SnapshotWalk, GitAiError>)
    ensures
        begun is Ok <==> tracked_files@.len() <= MAX_TRACKED_FILES && gitignore is Ok,
        begun matches Ok(walk) ==> {
            &&& walk.system == system
            &&& walk.invocation_key@ == key_of_call(session_id@, tool_use_id@)
            &&& walk.repo_root@ == repo_root@
            &&& walk.tracked_files == tracked_files
            &&& Ok::<Gitignore, GitAiError>(walk.gitignore) == gitignore
            &&& walk.found@.len() == 0
            &&& walk.exact_names
            &&& !walk.timed_out
        },
        begun matches Err(error) ==> error@ == if tracked_files@.len() > MAX_TRACKED_FILES {
            too_many_tracked()
        } else {
            gitignore->Err_0@
        },
{
    match check_tracked_count(&tracked_files) {
        Ok(_) => {},
        Err(error) => {
            return Err(error);
        },
    }
    match gitignore {
        Ok(gitignore) => Ok(
            SnapshotWalk {
                system,
                invocation_key: invocation_key(session_id, tool_use_id),
                repo_root: FilePath::new(repo_root),
                tracked_files,
                gitignore,
                found: Vec::new(),
                exact_names: true,
                timed_out: false,
            },
        ),
        Err(error) => Err(error),
    }
}

impl SnapshotWalk {
    /// Decides what to do about the next thing that the walk comes upon. Once the time is up, it is
    /// up for good.
    pub fn examine(&mut self, elapsed_ms: u128, item: &WalkItem) -> (step: WalkStep)
        ensures
            final(self).timed_out == (old(self).timed_out || elapsed_ms > STAT_DIFF_TIMEOUT_MS),
            final(self).found == old(self).found,
            final(self).exact_names == old(self).exact_names,
            final(self).system == old(self).system,
            final(self).invocation_key == old(self).invocation_key,
            final(self).repo_root == old(self).repo_root,
            final(self).tracked_files == old(self).tracked_files,
            final(self).gitignore == old(self).gitignore,
            step is Stop <==> final(self).timed_out,
            step is Stop <==> old(self).timed_out || elapsed_ms > 5_000,
            item is Failed || item is Dir || item is Outside ==> step !is Stat,
            (item matches WalkItem::File(path) ==> step !is Stop ==> (step is Stat <==> {
                ||| match_verdict(
                    matcher_root(old(self).gitignore),
                    matcher_globs(old(self).gitignore),
                    path@,
                    false,
                ) != IgnoreMatch::Ignore
                ||| holds::<FilePath, ()>(
                    old(self).tracked_files@,
                    path_key(normalized(old(self).system, path@)),
                )
            })),
            (item matches WalkItem::Inexact(path) ==> step !is Stop ==> (step is Stat <==> {
                ||| match_verdict(
                    matcher_root(old(self).gitignore),
                    matcher_globs(old(self).gitignore),
                    path@,
                    false,
                ) != IgnoreMatch::Ignore
                ||| old(self).system != PathSystem::Unix && holds::<FilePath, ()>(
                    old(self).tracked_files@,
                    path_key(normalized(old(self).system, path@)),
                )
            })),
            step is Stat <==> !final(self).timed_out && item_path(*item) is Some && taken_up(
                old(self).system,
                old(self).tracked_files@,
                rules_of(old(self).gitignore),
                item_path(*item)->0,
                item is File,
            ),
            step matches WalkStep::Stat(key) ==> key@ == normalized(
                old(self).system,
                item_path(*item)->0,
            ),
    {
        if elapsed_ms > STAT_DIFF_TIMEOUT_MS as u128 {
            self.timed_out = true;
        }
        if self.timed_out {
            return WalkStep::Stop;
        }
        let (path, exact) = match item {
            WalkItem::File(path) => (path, true),
            WalkItem::Inexact(path) => (path, false),
            _ => {
                return WalkStep::Pass;
            },
        };
        let key = normalize_path(self.system, path);
        let in_git = (exact || self.system != PathSystem::Unix) && self.tracked_files.contains(&key);
        if in_git || should_include_new_file(&self.gitignore, path, false) {
            WalkStep::Stat(key)
        } else {
            WalkStep::Pass
        }
    }

    /// Stores the fingerprint of a file.
    pub fn record(&mut self, key: FilePath, stat: StatEntry)
        ensures
            stat_list(final(self).found@) == stat_list(old(self).found@).push((key@, stat)),
            final(self).timed_out == old(self).timed_out,
            final(self).exact_names == old(self).exact_names,
            final(self).system == old(self).system,
            final(self).invocation_key == old(self).invocation_key,
            final(self).repo_root == old(self).repo_root,
            final(self).tracked_files == old(self).tracked_files,
            final(self).gitignore == old(self).gitignore,
    {
        let ghost before = stat_list(self.found@);
        self.found.push((key, stat));
        assert(stat_list(self.found@) =~= before.push((key@, stat)));
    }

    /// Notes that the file stored last has a name that is no text, so that its path is not its name.
    /// Where the case does not count, paths are not the names of files anyway.
    pub fn note_inexact_name(&mut self)
        ensures
            final(self).exact_names == (old(self).exact_names && folds_case(old(self).system)),
            final(self).found == old(self).found,
            final(self).timed_out == old(self).timed_out,
            final(self).system == old(self).system,
            final(self).invocation_key == old(self).invocation_key,
            final(self).repo_root == old(self).repo_root,
            final(self).tracked_files == old(self).tracked_files,
            final(self).gitignore == old(self).gitignore,
    {
        if self.system == PathSystem::Unix {
            self.exact_names = false;
        }
    }

    /// Ends the walk. A walk whose time was up fails.
    pub fn end_walk(self) -> (ended: Result<SnapshotFill, GitAiError>)
        ensures
            ended is Err <==> self.timed_out,
            ended matches Err(error) ==> error@ == walk_timed_out(),
            ended matches Ok(fill) ==> {
                &&& fill.entries@ == put_all::<FilePath, StatEntry>(
                    Seq::empty(),
                    stat_list(self.found@),
                )
                &&& fill.system == self.system
                &&& fill.invocation_key == self.invocation_key
                &&& fill.repo_root == self.repo_root
                &&& fill.tracked_files == self.tracked_files
                &&& fill.gitignore == self.gitignore
                &&& fill.exact_names == self.exact_names
            },
    {
        if self.timed_out {
            return Err(
                GitAiError::Generic(
                    "Stat-diff timeout exceeded; use git status fallback".to_owned(),
                ),
            );
        }
        assert(stat_list(self.found@) =~= self.found@.map_values(
            |e: (FilePath, StatEntry)| (e.0@, e.1),
        ));
        Ok(
            SnapshotFill {
                system: self.system,
                invocation_key: self.invocation_key,
                repo_root: self.repo_root,
                tracked_files: self.tracked_files,
                gitignore: self.gitignore,
                entries: SortedMap::from_entries(self.found),
                exact_names: self.exact_names,
            },
        )
    }
}

/// A snapshot in the making: the tree was walked, and tracked files that the walk passed by are to
/// be added.
pub struct SnapshotFill {
    pub system: PathSystem,
    pub invocation_key: String,
    pub repo_root: FilePath,
    pub tracked_files: PathSet,
    pub gitignore: Gitignore,
    pub entries: PathMap,
    pub exact_names: bool,
}

/// The tracked files that have no entry.
pub open spec fn missing_files(
    system: PathSystem,
    tracked_files: Entries<()>,
    entries: Entries<StatEntry>,
) -> Seq<Seq<char>> {
    tracked_files.filter(|t: (Seq<char>, ())| !has_path(entries, normalized(system, t.0))).map_values(
        |t: (Seq<char>, ())| t.0,
    )
}

/// The entries after those fingerprints were added whose files had none.
pub open spec fn filled_entries(
    system: PathSystem,
    entries: Entries<StatEntry>,
    stats: Entries<StatEntry>,
) -> Entries<StatEntry> {
    put_all::<FilePath, StatEntry>(
        entries,
        stats.map_values(|s: (Seq<char>, StatEntry)| (normalized(system, s.0), s.1)).filter(
            |s: (Seq<char>, StatEntry)| !has_path(entries, s.0),
        ),
    )
}

impl SnapshotFill {
    /// The tracked files that the walk did not store, in their order.
    pub fn missing(&self) -> (paths: Vec<FilePath>)
        ensures
            path_texts(paths@) == missing_files(self.system, self.tracked_files@, self.entries@),
    {
        let mut paths: Vec<FilePath> = Vec::new();
        let ghost tracked_files = self.tracked_files@;
        let ghost test = |t: (Seq<char>, ())|
            !has_path(self.entries@, normalized(self.system, t.0));
        let ghost text = |t: (Seq<char>, ())| t.0;
        let mut i: usize = 0;
        let n: usize = self.tracked_files.len();
        proof {
            reveal(Seq::filter);
            assert(tracked_files.take(0) =~= Seq::empty());
            assert(path_texts(paths@) =~= tracked_files.take(0).filter(test).map_values(text));
        }
        while i < n
            invariant
                i <= n,
                n == tracked_files.len(),
                tracked_files == self.tracked_files@,
                test == (|t: (Seq<char>, ())|
                    !has_path(self.entries@, normalized(self.system, t.0))),
                text == (|t: (Seq<char>, ())| t.0),
                path_texts(paths@) == tracked_files.take(i as int).filter(test).map_values(text),
            decreases n - i,
        {
            let path = self.tracked_files.key_at(i);
            let ghost before = paths@;
            proof {
                reveal(Seq::filter);
                assert(tracked_files.take(i + 1).drop_last() =~= tracked_files.take(i as int));
                assert(tracked_files.take(i + 1).last() == tracked_files[i as int]);
            }
            if !self.entries.contains(&normalize_path(self.system, path)) {
                let copy = path.copy();
                paths.push(copy);
                assert(path_texts(paths@) =~= path_texts(before).push(path@));
                assert(tracked_files.take(i + 1).filter(test).map_values(text) =~= tracked_files.take(
                    i as int,
                ).filter(test).map_values(text).push(path@));
            }
            i = i + 1;
        }
        assert(tracked_files.take(i as int) =~= tracked_files);
        paths
    }

    /// Completes the snapshot with the fingerprints of missing files. A file that has an entry
    /// keeps it.
    pub fn finish(self, stats: Vec<(FilePath, StatEntry)>, taken_at: FileTime) -> (snap: StatSnapshot)
        ensures
            snap.entries@ == filled_entries(self.system, self.entries@, stat_list(stats@)),
            snap.tracked_files == self.tracked_files,
            snap.gitignore == Some(self.gitignore),
            snap.taken_at == Some(taken_at),
            snap.invocation_key == self.invocation_key,
            snap.repo_root == self.repo_root,
            snap.exact_names == self.exact_names,
    {
        let ghost renamed = stat_list(stats@).map_values(
            |s: (Seq<char>, StatEntry)| (normalized(self.system, s.0), s.1),
        );
        let ghost test = |s: (Seq<char>, StatEntry)| !has_path(self.entries@, s.0);
        let mut added: Vec<(FilePath, StatEntry)> = Vec::new();
        let mut i: usize = 0;
        proof {
            reveal(Seq::filter);
            assert(renamed.take(0) =~= Seq::empty());
            assert(stat_list(added@) =~= renamed.take(0).filter(test));
        }
        while i < stats.len()
            invariant
                i <= stats@.len(),
                renamed == stat_list(stats@).map_values(
                    |s: (Seq<char>, StatEntry)| (normalized(self.system, s.0), s.1),
                ),
                test == (|s: (Seq<char>, StatEntry)| !has_path(self.entries@, s.0)),
                stat_list(added@) == renamed.take(i as int).filter(test),
            decreases stats@.len() - i,
        {
            let key = normalize_path(self.system, &stats[i].0);
            let stat = stats[i].1;
            let ghost before = stat_list(added@);
            proof {
                reveal(Seq::filter);
                assert(renamed.take(i + 1).drop_last() =~= renamed.take(i as int));
                assert(renamed.take(i + 1).last() == (key@, stat));
            }
            if !self.entries.contains(&key) {
                added.push((key, stat));
                assert(stat_list(added@) =~= before.push((key@, stat)));
            }
            i = i + 1;
        }
        assert(renamed.take(i as int) =~= renamed);
        assert(stat_list(added@) =~= added@.map_values(
            |e: (FilePath, StatEntry)| (e.0@, e.1),
        ));
        StatSnapshot {
            entries: self.entries.with_all(added),
            tracked_files: self.tracked_files,
            gitignore: Some(self.gitignore),
            taken_at: Some(taken_at),
            invocation_key: self.invocation_key,
            repo_root: self.repo_root,
            exact_names: self.exact_names,
        }
    }
}

/// Completing a snapshot leaves the entries of the walk as they are, and every tracked file whose
/// metadata could be read ends up in the snapshot, whatever the ignore rules say.
pub proof fn tracked_files_are_kept(
    system: PathSystem,
    tracked_files: Entries<()>,
    entries: Entries<StatEntry>,
    stats: Entries<StatEntry>,
)
    requires
        sorted::<FilePath, StatEntry>(entries),
    ensures
        sorted::<FilePath, StatEntry>(filled_entries(system, entries, stats)),
        forall|path: Seq<char>|
            #![trigger stat_of(filled_entries(system, entries, stats), path)]
            has_path(entries, path) ==> stat_of(filled_entries(system, entries, stats), path)
                == stat_of(entries, path),
        forall|i: int, j: int|
            0 <= i < tracked_files.len() && 0 <= j < stats.len() && (#[trigger] tracked_files[i]).0
                == (#[trigger] stats[j]).0 ==> has_path(
                filled_entries(system, entries, stats),
                normalized(system, tracked_files[i].0),
            ),
{
    let renamed = stats.map_values(|s: (Seq<char>, StatEntry)| (normalized(system, s.0), s.1));
    let test = |s: (Seq<char>, StatEntry)| !has_path(entries, s.0);
    let added = renamed.filter(test);
    let all = filled_entries(system, entries, stats);
    let none: Entries<StatEntry> = Seq::empty();
    lemma_put_all::<FilePath, StatEntry>(entries, added);
    lemma_put_all_holds::<FilePath, StatEntry>(entries, added);
    lemma_put_all_holds::<FilePath, StatEntry>(none, added);
    broadcast use vstd::seq_lib::group_filter_ensures;

    assert forall|path: Seq<char>|
        #![trigger stat_of(all, path)]
        has_path(entries, path) implies stat_of(all, path) == stat_of(entries, path) by {
        let k = path_key(path);
        if holds::<FilePath, StatEntry>(added, k) {
            let i = choose|i: int| #[trigger] keyed_at::<FilePath, StatEntry>(added, k, i);
            assert(test(added[i]));
            assert(path_key(added[i].0) == k);
        }
        assert(!holds::<FilePath, StatEntry>(none, k));
        assert(!holds::<FilePath, StatEntry>(put_all::<FilePath, StatEntry>(none, added), k));
        assert(entry::<FilePath, StatEntry>(all, k) == entry::<FilePath, StatEntry>(entries, k));
    }
    assert forall|i: int, j: int|
        0 <= i < tracked_files.len() && 0 <= j < stats.len() && (#[trigger] tracked_files[i]).0 == (
        #[trigger] stats[j]).0 implies has_path(all, normalized(system, tracked_files[i].0)) by {
        let name = normalized(system, tracked_files[i].0);
        if !has_path(entries, name) {
            assert(renamed[j] == (name, stats[j].1));
            assert(test(renamed[j]));
            assert(added.contains(renamed[j]));
            let m = choose|m: int| 0 <= m < added.len() && added[m] == renamed[j];
            assert(keyed_at::<FilePath, StatEntry>(added, path_key(name), m));
        }
        assert(holds::<FilePath, StatEntry>(all, path_key(name)));
    }
}

/// Something that a walk came upon: the time that had passed, the path of the file if it was one
/// below the root, whether its name is a text, and its fingerprint if it could be read.
pub struct WalkEvent {
    pub elapsed_ms: int,
    pub file: Option<Seq<char>>,
    pub exact: bool,
    pub stat: Option<StatEntry>,
}

/// What the walk stores of one thing that it came upon.
pub open spec fn stored_of(
    system: PathSystem,
    tracked_files: Entries<()>,
    rules: RulesView,
    event: WalkEvent,
) -> Entries<StatEntry> {
    match (event.file, event.stat) {
        (Some(path), Some(stat)) => if taken_up(system, tracked_files, rules, path, event.exact) {
            seq![(normalized(system, path), stat)]
        } else {
            Seq::empty()
        },
        _ => Seq::empty(),
    }
}

/// What a walk stores of all that it came upon.
pub open spec fn found_by(
    system: PathSystem,
    tracked_files: Entries<()>,
    rules: RulesView,
    events: Seq<WalkEvent>,
) -> Entries<StatEntry>
    decreases events.len(),
{
    if events.len() == 0 {
        Seq::empty()
    } else {
        found_by(system, tracked_files, rules, events.drop_last()) + stored_of(
            system,
            tracked_files,
            rules,
            events.last(),
        )
    }
}

/// Everything came up while there was time.
pub open spec fn all_in_time(events: Seq<WalkEvent>) -> bool {
    forall|k: int|
        0 <= k < events.len() ==> (#[trigger] events[k]).elapsed_ms <= STAT_DIFF_TIMEOUT_MS
}

/// What a walk gives: what it stores, or nothing once the time is up.
pub open spec fn walked(
    system: PathSystem,
    tracked_files: Entries<()>,
    rules: RulesView,
    events: Seq<WalkEvent>,
) -> Option<Entries<StatEntry>> {
    if all_in_time(events) {
        Some(found_by(system, tracked_files, rules, events))
    } else {
        None
    }
}

/// A walk goes on by one step at a time: it stores what the next thing gives, or fails there because
/// the time is up. A walk that failed stays failed.
pub proof fn walks_grow_by_steps(
    system: PathSystem,
    tracked_files: Entries<()>,
    rules: RulesView,
    events: Seq<WalkEvent>,
    event: WalkEvent,
)
    ensures
        walked(system, tracked_files, rules, Seq::empty()) == Some(Seq::<(Seq<char>, StatEntry)>::empty()),
        walked(system, tracked_files, rules, events.push(event)) == match walked(
            system,
            tracked_files,
            rules,
            events,
        ) {
            Some(list) => if event.elapsed_ms > STAT_DIFF_TIMEOUT_MS {
                None
            } else {
                Some(list + stored_of(system, tracked_files, rules, event))
            },
            None => None,
        },
{
    let all = events.push(event);
    assert(all.drop_last() =~= events);
    assert forall|k: int| 0 <= k < events.len() implies #[trigger] events[k] == all[k] by {}
    assert(all[events.len() as int] == event);
    if all_in_time(all) {
        assert forall|k: int| 0 <= k < events.len() implies (#[trigger] events[k]).elapsed_ms
            <= STAT_DIFF_TIMEOUT_MS by {
            assert(all[k].elapsed_ms <= STAT_DIFF_TIMEOUT_MS);
        }
    } else if all_in_time(events) {
        let k = choose|k: int|
            0 <= k < all.len() && (#[trigger] all[k]).elapsed_ms > STAT_DIFF_TIMEOUT_MS;
        assert(k == events.len());
    }
}

/// The thing that was come upon gives this entry.
pub open spec fn gives(
    system: PathSystem,
    tracked_files: Entries<()>,
    rules: RulesView,
    event: WalkEvent,
    e: (Seq<char>, StatEntry),
) -> bool {
    &&& event.file is Some
    &&& event.stat is Some
    &&& taken_up(system, tracked_files, rules, event.file->0, event.exact)
    &&& e == (normalized(system, event.file->0), event.stat->0)
}

/// What a walk stores comes of a file that git tracks or the rules let through.
pub proof fn walks_store_only_what_belongs(
    system: PathSystem,
    tracked_files: Entries<()>,
    rules: RulesView,
    events: Seq<WalkEvent>,
    i: int,
)
    requires
        0 <= i < found_by(system, tracked_files, rules, events).len(),
    ensures
        exists|j: int|
            0 <= j < events.len() && gives(
                system,
                tracked_files,
                rules,
                #[trigger] events[j],
                found_by(system, tracked_files, rules, events)[i],
            ),
    decreases events.len(),
{
    let before = events.drop_last();
    let list = found_by(system, tracked_files, rules, before);
    let e = found_by(system, tracked_files, rules, events)[i];
    if i < list.len() {
        walks_store_only_what_belongs(system, tracked_files, rules, before, i);
        let j = choose|j: int|
            0 <= j < before.len() && gives(system, tracked_files, rules, #[trigger] before[j], e);
        assert(gives(system, tracked_files, rules, events[j], e));
    } else {
        assert(gives(system, tracked_files, rules, events[events.len() - 1], e));
    }
}

/// A file that belongs in the snapshot and could be read is stored by the walk.
pub proof fn walks_store_all_that_belongs(
    system: PathSystem,
    tracked_files: Entries<()>,
    rules: RulesView,
    events: Seq<WalkEvent>,
    j: int,
)
    requires
        0 <= j < events.len(),
        events[j].file is Some,
        events[j].stat is Some,
        taken_up(system, tracked_files, rules, events[j].file->0, events[j].exact),
    ensures
        found_by(system, tracked_files, rules, events).contains(
            (normalized(system, events[j].file->0), events[j].stat->0),
        ),
    decreases events.len(),
{
    let before = events.drop_last();
    let list = found_by(system, tracked_files, rules, before);
    let last = stored_of(system, tracked_files, rules, events.last());
    let e = (normalized(system, events[j].file->0), events[j].stat->0);
    if j < before.len() {
        walks_store_all_that_belongs(system, tracked_files, rules, before, j);
        let i = choose|i: int| 0 <= i < list.len() && list[i] == e;
        assert((list + last)[i] == e);
    } else {
        assert((list + last)[list.len() as int] == e);
    }
}

/// A snapshot shows what it holds.
pub proof fn snapshots_show_what_they_hold(snap: StatSnapshot)
    ensures
        snap@.entries == snap.entries@,
        snap@.tracked_files == snap.tracked_files@,
        snap.gitignore is None ==> snap@.gitignore is None,
        snap.gitignore matches Some(rules) ==> snap@.gitignore == Some(rules_of(rules)),
        snap@.taken_at == snap.taken_at,
        snap@.invocation_key == snap.invocation_key@,
        snap@.repo_root == snap.repo_root@,
        snap@.exact_names == snap.exact_names,
{
}

/// The texts and fingerprints of a list of files are those of its files, one for each, in their order.
pub proof fn each_file_has_its_fingerprint(files: Seq<(FilePath, StatEntry)>)
    ensures
        stat_list(files).len() == files.len(),
        forall|i: int|
            0 <= i < files.len() ==> #[trigger] stat_list(files)[i] == (files[i].0@, files[i].1),
{
}

/// A path is found in a list exactly if some entry has the same components, and its fingerprint is
/// that of such an entry.
pub proof fn paths_are_found_by_their_components(list: Entries<StatEntry>, path: Seq<char>)
    ensures
        has_path(list, path) <==> exists|i: int|
            0 <= i < list.len() && path_key((#[trigger] list[i]).0) == path_key(path),
        has_path(list, path) ==> exists|i: int|
            0 <= i < list.len() && path_key((#[trigger] list[i]).0) == path_key(path) && stat_of(
                list,
                path,
            ) == Some(list[i].1),
        !has_path(list, path) ==> stat_of(list, path) is None,
{
    entries_are_found::<FilePath, StatEntry>(list, path_key(path));
    if has_path(list, path) {
        let i = choose|i: int|
            0 <= i < list.len() && path_key(list[i].0) == path_key(path) && entry::<
                FilePath,
                StatEntry,
            >(list, path_key(path)) == Some(#[trigger] list[i]);
        assert(stat_of(list, path) == Some(list[i].1));
    }
}

/// The key of a tool call is the session, a colon and the use of the tool.
pub proof fn keys_name_session_and_use(session_id: Seq<char>, tool_use_id: Seq<char>)
    ensures
        ({
            let key = key_of_call(session_id, tool_use_id);
            &&& key.len() == session_id.len() + 1 + tool_use_id.len()
            &&& key.take(session_id.len() as int) == session_id
            &&& key[session_id.len() as int] == ':'
            &&& key.skip(session_id.len() as int + 1) == tool_use_id
        }),
{
    reveal_strlit(":");
    let key = key_of_call(session_id, tool_use_id);
    assert(key.take(session_id.len() as int) =~= session_id);
    assert(key.skip(session_id.len() as int + 1) =~= tool_use_id);
}

/// One more tracked file is missing exactly if no entry has its path in the form in which it is
/// stored.
pub proof fn files_without_an_entry_are_missing(
    system: PathSystem,
    tracked_files: Entries<()>,
    name: Seq<char>,
    entries: Entries<StatEntry>,
)
    ensures
        missing_files(system, Seq::empty(), entries) == Seq::<Seq<char>>::empty(),
        missing_files(system, tracked_files.push((name, ())), entries) == if exists|i: int|
            0 <= i < entries.len() && path_key((#[trigger] entries[i]).0) == path_key(
                normalized(system, name),
            ) {
            missing_files(system, tracked_files, entries)
        } else {
            missing_files(system, tracked_files, entries).push(name)
        },
{
    reveal(Seq::filter);
    let more = tracked_files.push((name, ()));
    let none: Entries<()> = Seq::empty();
    assert(more.drop_last() =~= tracked_files);
    assert(missing_files(system, none, entries) =~= Seq::empty());
    paths_are_found_by_their_components(entries, normalized(system, name));
    if has_path(entries, normalized(system, name)) {
        assert(missing_files(system, more, entries) =~= missing_files(system, tracked_files, entries));
    } else {
        assert(missing_files(system, more, entries) =~= missing_files(
            system,
            tracked_files,
            entries,
        ).push(name));
    }
}

/// What was read of a missing file is added as it is; what an entry has stays as it is.
pub proof fn read_files_are_added(
    system: PathSystem,
    entries: Entries<StatEntry>,
    stats: Entries<StatEntry>,
    j: int,
)
    requires
        sorted::<FilePath, StatEntry>(entries),
        0 <= j < stats.len(),
        forall|m: int|
            0 <= m < stats.len() && path_key(normalized(system, (#[trigger] stats[m]).0)) == path_key(
                normalized(system, stats[j].0),
            ) ==> stats[m].1 == stats[j].1,
    ensures
        ({
            let path = normalized(system, stats[j].0);
            stat_of(filled_entries(system, entries, stats), path) == if exists|i: int|
                0 <= i < entries.len() && path_key((#[trigger] entries[i]).0) == path_key(path) {
                stat_of(entries, path)
            } else {
                Some(stats[j].1)
            }
        }),
{
    let path = normalized(system, stats[j].0);
    let k = path_key(path);
    let renamed = stats.map_values(|s: (Seq<char>, StatEntry)| (normalized(system, s.0), s.1));
    let test = |s: (Seq<char>, StatEntry)| !has_path(entries, s.0);
    let added = renamed.filter(test);
    let none: Entries<StatEntry> = Seq::empty();
    let all = filled_entries(system, entries, stats);
    broadcast use vstd::seq_lib::group_filter_ensures;

    paths_are_found_by_their_components(entries, path);
    tracked_files_are_kept(system, Seq::empty(), entries, stats);
    lemma_put_all::<FilePath, StatEntry>(entries, added);
    if !has_path(entries, path) {
        assert(renamed[j] == (path, stats[j].1));
        assert(test(renamed[j]));
        assert(added.contains(renamed[j]));
        let m = choose|m: int| 0 <= m < added.len() && added[m] == renamed[j];
        assert(keyed_at::<FilePath, StatEntry>(added, k, m));
        assert forall|i: int| #[trigger] keyed_at::<FilePath, StatEntry>(added, k, i) implies added[i].1
            == stats[j].1 by {
            lemma_filtered(renamed, test, i);
            let n = choose|n: int| 0 <= n < renamed.len() && renamed[n] == added[i];
            assert(path_key(normalized(system, stats[n].0)) == k);
        }
        lemma_put_all_value::<FilePath, StatEntry>(added, k, stats[j].1);
        assert(entry::<FilePath, StatEntry>(entries, k) is None);
        assert(entry::<FilePath, StatEntry>(all, k) is Some);
    } else {
        assert(stat_of(all, path) == stat_of(entries, path));
    }
}

proof fn lemma_filtered<T>(list: Seq<T>, test: spec_fn(T) -> bool, i: int)
    requires
        0 <= i < list.filter(test).len(),
    ensures
        list.contains(list.filter(test)[i]),
    decreases list.len(),
{
    reveal(Seq::filter);
    if list.len() > 0 {
        let before = list.drop_last();
        if i < before.filter(test).len() {
            lemma_filtered(before, test, i);
            let j = choose|j: int| 0 <= j < before.len() && before[j] == before.filter(test)[i];
            assert(list[j] == list.filter(test)[i]);
        } else {
            assert(list[list.len() - 1] == list.filter(test)[i]);
        }
    }
}

/// A file that the walk came upon and that could be read is in the snapshot with its fingerprint if
/// the rules do not ignore it or git tracks it, whatever its name is. Where the case counts, this
/// last holds of files whose names are texts.
pub proof fn files_that_count_are_in_the_snapshot(
    system: PathSystem,
    tracked_files: Entries<()>,
    rules: RulesView,
    events: Seq<WalkEvent>,
    stats: Entries<StatEntry>,
    j: int,
)
    requires
        0 <= j < events.len(),
        events[j].file is Some,
        events[j].stat is Some,
        ({
            ||| match_verdict(rules.root, rules.globs, events[j].file->0, false)
                != IgnoreMatch::Ignore
            ||| events[j].exact && exists|t: int|
                0 <= t < tracked_files.len() && (#[trigger] tracked_files[t]).0 == normalized(
                    system,
                    events[j].file->0,
                )
        }),
        forall|m: int|
            0 <= m < events.len() && (#[trigger] events[m]).file is Some && events[m].stat is Some
                && path_key(normalized(system, events[m].file->0)) == path_key(
                normalized(system, events[j].file->0),
            ) ==> events[m].stat == events[j].stat,
    ensures
        ({
            let list = filled_entries(
                system,
                put_all::<FilePath, StatEntry>(
                    Seq::empty(),
                    found_by(system, tracked_files, rules, events),
                ),
                stats,
            );
            exists|i: int|
                0 <= i < list.len() && path_key((#[trigger] list[i]).0) == path_key(
                    normalized(system, events[j].file->0),
                ) && list[i].1 == events[j].stat->0
        }),
{
    let path = normalized(system, events[j].file->0);
    let stat = events[j].stat->0;
    let k = path_key(path);
    let found = found_by(system, tracked_files, rules, events);
    let none: Entries<StatEntry> = Seq::empty();
    let entries = put_all::<FilePath, StatEntry>(none, found);
    let list = filled_entries(system, entries, stats);
    if match_verdict(rules.root, rules.globs, events[j].file->0, false) == IgnoreMatch::Ignore {
        let t = choose|t: int|
            0 <= t < tracked_files.len() && (#[trigger] tracked_files[t]).0 == path;
        assert(keyed_at::<FilePath, ()>(tracked_files, k, t));
    }
    walks_store_all_that_belongs(system, tracked_files, rules, events, j);
    let n = choose|n: int| 0 <= n < found.len() && found[n] == (path, stat);
    assert(keyed_at::<FilePath, StatEntry>(found, k, n));
    assert forall|i: int| #[trigger] keyed_at::<FilePath, StatEntry>(found, k, i) implies found[i].1
        == stat by {
        walks_store_only_what_belongs(system, tracked_files, rules, events, i);
        let m = choose|m: int|
            0 <= m < events.len() && gives(
                system,
                tracked_files,
                rules,
                #[trigger] events[m],
                found[i],
            );
        assert(events[m].file is Some);
    }
    lemma_put_all_value::<FilePath, StatEntry>(found, k, stat);
    lemma_put_all::<FilePath, StatEntry>(none, found);
    assert(has_path(entries, path));
    assert(stat_of(entries, path) == Some(stat));
    tracked_files_are_kept(system, tracked_files, entries, stats);
    assert(stat_of(list, path) == Some(stat));
    paths_are_found_by_their_components(list, path);
}

/// What a walk stores is, under its own path in the form in which it is stored, a file that it came
/// upon, and that the rules do not ignore or git tracks.
pub proof fn only_files_that_count_are_stored(
    system: PathSystem,
    tracked_files: Entries<()>,
    rules: RulesView,
    events: Seq<WalkEvent>,
    i: int,
) -> (j: int)
    requires
        0 <= i < put_all::<FilePath, StatEntry>(
            Seq::empty(),
            found_by(system, tracked_files, rules, events),
        ).len(),
    ensures
        0 <= j < events.len(),
        events[j].file is Some,
        events[j].stat is Some,
        normalized(system, events[j].file->0) == put_all::<FilePath, StatEntry>(
            Seq::empty(),
            found_by(system, tracked_files, rules, events),
        )[i].0,
        match_verdict(rules.root, rules.globs, events[j].file->0, false) != IgnoreMatch::Ignore
            || exists|t: int|
            0 <= t < tracked_files.len() && path_key((#[trigger] tracked_files[t]).0) == path_key(
                normalized(system, events[j].file->0),
            ),
{
    let found = found_by(system, tracked_files, rules, events);
    let all = put_all::<FilePath, StatEntry>(Seq::empty(), found);
    only_items_are_stored::<FilePath, StatEntry>(found, i);
    let n = choose|n: int| 0 <= n < found.len() && (#[trigger] found[n]).0 == all[i].0;
    walks_store_only_what_belongs(system, tracked_files, rules, events, n);
    let j = choose|j: int|
        0 <= j < events.len() && gives(system, tracked_files, rules, #[trigger] events[j], found[n]);
    let path = events[j].file->0;
    if match_verdict(rules.root, rules.globs, path, false) == IgnoreMatch::Ignore {
        assert(has_path(tracked_files, normalized(system, path)));
        entries_are_found::<FilePath, ()>(tracked_files, path_key(normalized(system, path)));
    }
    j
}

/// What a walk comes upon is a file in two cases only, and then has the path of the file.
pub proof fn files_have_their_paths(item: WalkItem)
    ensures
        item matches WalkItem::File(path) ==> item_path(item) == Some(path@),
        item matches WalkItem::Inexact(path) ==> item_path(item) == Some(path@),
        item is Failed || item is Dir || item is Outside ==> item_path(item) is None,
{
}

/// In which words a snapshot is refused.
pub proof fn refused_snapshots_are_told_apart()
    ensures
        too_many_tracked() == ErrorView::Generic(
            "Repo exceeds 500000 tracked files; use git status fallback"@,
        ),
        walk_timed_out() == ErrorView::Generic(
            "Stat-diff timeout exceeded; use git status fallback"@,
        ),
{
}

} // verus!
