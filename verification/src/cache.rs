//! The store of snapshots between two hooks of one tool call.

use vstd::prelude::*;

use crate::error::{ErrorView, GitAiError};
use crate::git_output::GitOutput;
use crate::path::FilePath;
use crate::snapshot::{SnapshotView, StatSnapshot};
use crate::sorted_map::{lemma_put_all_sorted, put_all, Entries, SortedMap};
use crate::stat::{FileTime, StatEntry, NANOS_PER_SEC};
use crate::text::{chars_of, joined, lossy_decoded, lossy_text, same_text, text_from, texts, trimmed};
use crate::text::{decodes_exactly, is_white, trimmed_end, trimmed_start, trimming_takes_white_ends_off};

verus! {

/// A stored snapshot that is older than this, in seconds, is removed.
pub const SNAPSHOT_STALE_SECS: u64 = 300;

/// Characters that a file name must not hold on some system.
pub open spec fn is_reserved(c: char) -> bool {
    ||| c == '/'
    ||| c == '\\'
    ||| c == ':'
    ||| c == '*'
    ||| c == '?'
    ||| c == '"'
    ||| c == '<'
    ||| c == '>'
    ||| c == '|'
}

/// The key with an underscore for every reserved character.
pub open spec fn sanitized(key: Seq<char>) -> Seq<char> {
    key.map_values(
        |c: char|
            if is_reserved(c) {
                '_'
            } else {
                c
            },
    )
}

/// Makes a file name of the key of a tool call.
pub fn sanitize_key(key: &str) -> (name: String)
    ensures
        name@ == sanitized(key@),
{
    let mut name = String::new();
    for c in it: key.chars()
        invariant
            it.seq() == key@,
            name@ == sanitized(key@).take(it.index() as int),
    {
        let next = if c == '/' || c == '\\' || c == ':' || c == '*' || c == '?' || c == '"' || c
            == '<' || c == '>' || c == '|' {
            '_'
        } else {
            c
        };
        assert(sanitized(key@).take(it.index() + 1) =~= sanitized(key@).take(
            it.index() as int,
        ).push(next));
        name.push(next);
    }
    assert(sanitized(key@).take(key@.len() as int) =~= sanitized(key@));
    name
}

/// A file name made of a key has a character for each of the key's, none of them reserved; making a
/// file name of it again changes nothing.
pub proof fn file_names_are_safe(key: Seq<char>)
    ensures
        sanitized(key).len() == key.len(),
        forall|i: int|
            0 <= i < key.len() ==> !is_reserved(#[trigger] sanitized(key)[i]) && (!is_reserved(
                key[i],
            ) ==> sanitized(key)[i] == key[i]),
        sanitized(sanitized(key)) == sanitized(key),
{
    assert(sanitized(sanitized(key)) =~= sanitized(key));
}

/// A place in the file system: parts that the system joins from the left, by its own rules. A part
/// that is absolute stands for itself, whatever is to its left.
pub type Place = Seq<Seq<char>>;

/// The directory that snapshots are stored in, below the directory that git names, which is taken
/// from the root of the repository.
pub open spec fn cache_dir_of(repo_root: Seq<char>, git_dir: Seq<char>) -> Place {
    seq![repo_root, git_dir, "ai"@, "bash_snapshots"@]
}

/// The parts of the directory that snapshots are stored in.
pub fn cache_dir_below(repo_root: &str, git_dir: &str) -> (dir: Vec<String>)
    ensures
        texts(dir@) == cache_dir_of(repo_root@, git_dir@),
{
    let mut dir: Vec<String> = Vec::new();
    dir.push(repo_root.to_owned());
    dir.push(git_dir.to_owned());
    dir.push("ai".to_owned());
    dir.push("bash_snapshots".to_owned());
    assert(texts(dir@) =~= cache_dir_of(repo_root@, git_dir@));
    dir
}

/// The directory that a printed line names: white space at its ends does not count.
pub open spec fn printed_dir(stdout: Seq<u8>) -> Seq<char> {
    trimmed_start(trimmed_end(lossy_decoded(stdout)))
}

/// Finds the parts of the directory that snapshots are stored in from the output of `git rev-parse --git-dir`.
/// Output that is valid UTF-8 is decoded exactly.
pub fn snapshot_cache_dir(repo_root: &str, output: &GitOutput) -> (found: Result<
    Vec<String>,
    GitAiError,
>)
    ensures
        found is Ok <==> output.success,
        found matches Ok(dir) ==> {
            &&& texts(dir@) == cache_dir_of(repo_root@, printed_dir(output.stdout@))
            &&& decodes_exactly(output.stdout@)
        },
        found matches Err(error) ==> error@ == ErrorView::Generic(
            "Failed to find .git directory"@,
        ),
{
    if !output.success {
        return Err(GitAiError::Generic("Failed to find .git directory".to_owned()));
    }
    let printed = lossy_text(output.stdout.as_slice());
    let git_dir = trimmed(printed.as_str());
    Ok(cache_dir_below(repo_root, git_dir.as_str()))
}

/// The file that a tool call's snapshot is stored in.
pub open spec fn snapshot_file_of(cache_dir: Place, key: Seq<char>) -> Place {
    cache_dir.push(sanitized(key) + ".json"@)
}

/// The parts of the file that a tool call's snapshot is stored in.
pub fn snapshot_file(cache_dir: Vec<String>, invocation_key: &str) -> (file: Vec<String>)
    ensures
        texts(file@) == snapshot_file_of(texts(cache_dir@), invocation_key@),
{
    let ghost dir = texts(cache_dir@);
    let mut file = cache_dir;
    let name = joined(sanitize_key(invocation_key).as_str(), ".json");
    file.push(name);
    assert(texts(file@) =~= dir.push(name@));
    file
}

/// Whatever the key, its file lies in the cache directory itself: the name of the file holds no
/// reserved character, and so no separator, and is not the name of a directory above.
pub proof fn snapshots_stay_in_their_directory(cache_dir: Place, key: Seq<char>)
    ensures
        snapshot_file_of(cache_dir, key).drop_last() == cache_dir,
        forall|i: int|
            0 <= i < snapshot_file_of(cache_dir, key).last().len() ==> !is_reserved(
                #[trigger] snapshot_file_of(cache_dir, key).last()[i],
            ),
        snapshot_file_of(cache_dir, key).last().len() > 2,
{
    reveal_strlit(".json");
    file_names_are_safe(key);
    let name = snapshot_file_of(cache_dir, key).last();
    assert forall|i: int| 0 <= i < name.len() implies !is_reserved(#[trigger] name[i]) by {
        if i < key.len() {
            assert(name[i] == sanitized(key)[i]);
        }
    }
    assert(snapshot_file_of(cache_dir, key).drop_last() =~= cache_dir);
}

/// A snapshot in the form in which it is stored: without the rules and the time.
pub struct StoredSnapshot {
    pub entries: Vec<(String, StatEntry)>,
    pub tracked_files: Vec<String>,
    pub invocation_key: String,
    pub repo_root: String,
}

/// A stored snapshot by its contents.
pub struct StoredView {
    pub entries: Entries<StatEntry>,
    pub tracked_files: Entries<()>,
    pub invocation_key: Seq<char>,
    pub repo_root: Seq<char>,
}

impl View for StoredSnapshot {
    type V = StoredView;

    open spec fn view(&self) -> StoredView {
        StoredView {
            entries: self.entries@.map_values(|e: (String, StatEntry)| (e.0@, e.1)),
            tracked_files: self.tracked_files@.map_values(|t: String| (t@, ())),
            invocation_key: self.invocation_key@,
            repo_root: self.repo_root@,
        }
    }
}

/// The form in which a snapshot is stored.
pub open spec fn stored_form(snap: SnapshotView) -> StoredView {
    StoredView {
        entries: snap.entries,
        tracked_files: snap.tracked_files,
        invocation_key: snap.invocation_key,
        repo_root: snap.repo_root,
    }
}

/// The snapshot that is made of a stored one. Of several entries under one path the last counts.
pub open spec fn restored_form(stored: StoredView) -> SnapshotView {
    SnapshotView {
        entries: put_all::<FilePath, StatEntry>(Seq::empty(), stored.entries),
        tracked_files: put_all::<FilePath, ()>(Seq::empty(), stored.tracked_files),
        gitignore: None,
        taken_at: None,
        invocation_key: stored.invocation_key,
        repo_root: stored.repo_root,
        exact_names: true,
    }
}

/// Puts a snapshot into the form in which it is stored.
pub fn store(snap: &StatSnapshot) -> (stored: StoredSnapshot)
    ensures
        stored@ == stored_form(snap@),
{
    let mut entries: Vec<(String, StatEntry)> = Vec::new();
    let n: usize = snap.entries.len();
    let mut i: usize = 0;
    while i < n
        invariant
            i <= n,
            n == snap.entries@.len(),
            entries@.len() == i,
            forall|j: int|
                0 <= j < i ==> (#[trigger] entries@[j]).0@ == snap.entries@[j].0 && entries@[j].1
                    == snap.entries@[j].1,
        decreases n - i,
    {
        entries.push((snap.entries.key_at(i).text().to_owned(), *snap.entries.value_at(i)));
        i = i + 1;
    }
    let mut tracked_files: Vec<String> = Vec::new();
    let m: usize = snap.tracked_files.len();
    let mut k: usize = 0;
    while k < m
        invariant
            k <= m,
            m == snap.tracked_files@.len(),
            tracked_files@.len() == k,
            forall|j: int|
                0 <= j < k ==> (#[trigger] tracked_files@[j])@ == snap.tracked_files@[j].0,
        decreases m - k,
    {
        tracked_files.push(snap.tracked_files.key_at(k).text().to_owned());
        k = k + 1;
    }
    let stored = StoredSnapshot {
        entries,
        tracked_files,
        invocation_key: snap.invocation_key.as_str().to_owned(),
        repo_root: snap.repo_root.text().to_owned(),
    };
    assert(stored@.entries =~= snap.entries@);
    assert forall|j: int| 0 <= j < m implies #[trigger] stored@.tracked_files[j]
        == snap.tracked_files@[j] by {
        assert(tracked_files@[j]@ == snap.tracked_files@[j].0);
        assert(snap.tracked_files@[j].1 == ());
    }
    assert(stored@.tracked_files =~= snap.tracked_files@);
    stored
}

/// Makes a snapshot of a stored one.
pub fn restore(stored: &StoredSnapshot) -> (snap: StatSnapshot)
    ensures
        snap@ == restored_form(stored@),
{
    let mut entries: Vec<(FilePath, StatEntry)> = Vec::new();
    let mut i: usize = 0;
    while i < stored.entries.len()
        invariant
            i <= stored.entries@.len(),
            entries@.len() == i,
            forall|j: int|
                0 <= j < i ==> (#[trigger] entries@[j]).0@ == stored@.entries[j].0 && entries@[j].1
                    == stored@.entries[j].1,
        decreases stored.entries@.len() - i,
    {
        let e = &stored.entries[i];
        entries.push((FilePath::new(e.0.as_str()), e.1));
        i = i + 1;
    }
    let mut tracked_files: Vec<(FilePath, ())> = Vec::new();
    let mut k: usize = 0;
    while k < stored.tracked_files.len()
        invariant
            k <= stored.tracked_files@.len(),
            tracked_files@.len() == k,
            forall|j: int|
                0 <= j < k ==> (#[trigger] tracked_files@[j]).0@ == stored@.tracked_files[j].0,
        decreases stored.tracked_files@.len() - k,
    {
        tracked_files.push((FilePath::new(stored.tracked_files[k].as_str()), ()));
        k = k + 1;
    }
    assert(entries@.map_values(|e: (FilePath, StatEntry)| (e.0@, e.1)) =~= stored@.entries);
    assert(tracked_files@.map_values(|e: (FilePath, ())| (e.0@, e.1)) =~= stored@.tracked_files);
    StatSnapshot {
        entries: SortedMap::from_entries(entries),
        tracked_files: SortedMap::from_entries(tracked_files),
        gitignore: None,
        taken_at: None,
        invocation_key: stored.invocation_key.as_str().to_owned(),
        repo_root: FilePath::new(stored.repo_root.as_str()),
        exact_names: true,
    }
}

/// A snapshot that was stored and read again is the same but for the rules and the time, which are
/// not stored. Its names are exact, for no other snapshot is stored.
pub proof fn restoring_undoes_storing(snap: SnapshotView)
    requires
        snap.in_order(),
    ensures
        restored_form(stored_form(snap)) == (SnapshotView {
            gitignore: None,
            taken_at: None,
            exact_names: true,
            ..snap
        }),
{
    lemma_put_all_sorted::<FilePath, StatEntry>(snap.entries);
    lemma_put_all_sorted::<FilePath, ()>(snap.tracked_files);
}

/// A snapshot that is to be written to a file.
pub struct SnapshotToSave {
    pub file: Vec<String>,
    pub contents: StoredSnapshot,
}

/// The error of a snapshot with a path that stands for a name that is no text.
pub open spec fn name_is_no_text() -> ErrorView {
    ErrorView::Json("path contains invalid UTF-8 characters"@)
}

/// Decides where and in which form a snapshot is stored, from the output of
/// `git rev-parse --git-dir` at its root. A snapshot in which some path is not the name of its file
/// is not stored.
pub fn save_snapshot(snap: &StatSnapshot, output: &GitOutput) -> (save: Result<
    SnapshotToSave,
    GitAiError,
>)
    ensures
        save is Ok <==> output.success && snap@.exact_names,
        save matches Ok(to_save) ==> {
            &&& texts(to_save.file@) == snapshot_file_of(
                cache_dir_of(snap@.repo_root, printed_dir(output.stdout@)),
                snap@.invocation_key,
            )
            &&& to_save.contents@ == stored_form(snap@)
        },
        save matches Err(error) ==> error@ == if output.success {
            name_is_no_text()
        } else {
            ErrorView::Generic("Failed to find .git directory"@)
        },
{
    match snapshot_cache_dir(snap.repo_root.text(), output) {
        Ok(dir) => if snap.exact_names {
            Ok(
                SnapshotToSave {
                    file: snapshot_file(dir, snap.invocation_key.as_str()),
                    contents: store(snap),
                },
            )
        } else {
            Err(GitAiError::JsonError("path contains invalid UTF-8 characters".to_owned()))
        },
        Err(error) => Err(error),
    }
}

/// What reading the file of a snapshot gave.
pub enum SnapshotRead {
    /// There is no such file.
    Absent,
    /// The file could not be read, for the given reason.
    Unreadable(String),
    /// The file holds no snapshot, for the given reason.
    Malformed(String),
    /// The file holds this snapshot.
    Present(StoredSnapshot),
}

/// Takes over what was read from the file of a snapshot.
pub fn load_and_consume_snapshot(read: SnapshotRead) -> (loaded: Result<
    Option<StatSnapshot>,
    GitAiError,
>)
    ensures
        match read {
            SnapshotRead::Absent => loaded matches Ok(snap) && snap is None,
            SnapshotRead::Unreadable(reason) => loaded matches Err(error) && error@
                == ErrorView::Io(reason@),
            SnapshotRead::Malformed(reason) => loaded matches Err(error) && error@
                == ErrorView::Json(reason@),
            SnapshotRead::Present(stored) => loaded matches Ok(snap) && snap is Some && snap->0@
                == restored_form(stored@),
        },
{
    match read {
        SnapshotRead::Absent => Ok(None),
        SnapshotRead::Unreadable(reason) => Err(GitAiError::IoError(reason)),
        SnapshotRead::Malformed(reason) => Err(GitAiError::JsonError(reason)),
        SnapshotRead::Present(stored) => Ok(Some(restore(&stored))),
    }
}

/// Whether the file of a snapshot is to be removed after it was read: it is once the snapshot was
/// handed out.
pub fn is_used_up(loaded: &Result<Option<StatSnapshot>, GitAiError>) -> (used_up: bool)
    ensures
        used_up == (loaded matches Ok(snap) && snap is Some),
{
    match loaded {
        Ok(Some(_)) => true,
        _ => false,
    }
}

/// The stored snapshots under the places of their files.
pub type Store = Map<Place, StoredView>;

/// What happens to the store.
pub enum StoreStep {
    /// A snapshot is written to a file.
    Save(Place, StoredView),
    /// A file is read; if it holds a snapshot, the file is removed.
    Consume(Place),
    /// A file is removed because it is stale.
    CleanUp(Place),
}

/// What reading a file of the store hands out.
pub open spec fn handed_out(store: Store, file: Place) -> Option<SnapshotView> {
    if store.dom().contains(file) {
        Some(restored_form(store[file]))
    } else {
        None
    }
}

/// The store after a step.
pub open spec fn store_after(store: Store, step: StoreStep) -> Store {
    match step {
        StoreStep::Save(file, contents) => store.insert(file, contents),
        StoreStep::Consume(file) => store.remove(file),
        StoreStep::CleanUp(file) => store.remove(file),
    }
}

/// The store after all of the steps, one after the other.
pub open spec fn store_after_all(store: Store, steps: Seq<StoreStep>) -> Store
    decreases steps.len(),
{
    if steps.len() == 0 {
        store
    } else {
        store_after(store_after_all(store, steps.drop_last()), steps.last())
    }
}

/// None of the steps writes to the file.
pub open spec fn never_saves(steps: Seq<StoreStep>, file: Place) -> bool {
    forall|i: int|
        0 <= i < steps.len() ==> !((#[trigger] steps[i]) matches StoreStep::Save(f, _) && f == file)
}

proof fn lemma_stays_absent(store: Store, steps: Seq<StoreStep>, file: Place)
    requires
        !store.dom().contains(file),
        never_saves(steps, file),
    ensures
        !store_after_all(store, steps).dom().contains(file),
    decreases steps.len(),
{
    if steps.len() > 0 {
        let before = steps.drop_last();
        assert(never_saves(before, file)) by {
            assert forall|i: int| 0 <= i < before.len() implies !((#[trigger] before[i]) matches
                StoreStep::Save(f, _) && f == file) by {
                assert(before[i] == steps[i]);
            }
        }
        lemma_stays_absent(store, before, file);
        assert(steps.last() == steps[steps.len() - 1]);
    }
}

/// A stored snapshot is handed out at most once: after its file was read, nothing is handed out of
/// that file until a snapshot is saved there again. Nor is anything handed out of a file that
/// nothing was ever saved in.
pub proof fn snapshots_are_handed_out_once(store: Store, file: Place, steps: Seq<StoreStep>)
    requires
        never_saves(steps, file),
    ensures
        handed_out(
            store_after_all(store_after(store, StoreStep::Consume(file)), steps),
            file,
        ) is None,
        handed_out(store_after_all(Map::empty(), steps), file) is None,
{
    lemma_stays_absent(store_after(store, StoreStep::Consume(file)), steps, file);
    lemma_stays_absent(Map::empty(), steps, file);
}

/// What was saved in a file is handed out of it, without rules and time, whatever is read or removed
/// elsewhere.
pub proof fn saved_snapshots_are_handed_out(
    store: Store,
    file: Place,
    snap: SnapshotView,
    other: StoreStep,
)
    requires
        snap.in_order(),
        match other {
            StoreStep::Save(f, _) => f != file,
            StoreStep::Consume(f) => f != file,
            StoreStep::CleanUp(f) => f != file,
        },
    ensures
        ({
            let saved = store_after(store, StoreStep::Save(file, stored_form(snap)));
            let wanted = Some(
                SnapshotView { gitignore: None, taken_at: None, exact_names: true, ..snap },
            );
            handed_out(saved, file) == wanted && handed_out(store_after(saved, other), file)
                == wanted
        }),
{
    restoring_undoes_storing(snap);
}

/// A file of the cache directory; its modification time is missing if it could not be read.
pub struct CachedFile {
    pub name: String,
    pub modified: Option<FileTime>,
}

/// The file name has the extension `json`.
pub open spec fn is_json_name(name: Seq<char>) -> bool {
    name.len() > 5 && name.skip(name.len() - 5) == ".json"@
}

/// More than the allowed time has passed from `modified` to `now`.
pub open spec fn is_too_old(now: FileTime, modified: FileTime) -> bool {
    now.nanos - modified.nanos > SNAPSHOT_STALE_SECS * NANOS_PER_SEC
}

/// The file is a stored snapshot that is too old.
pub open spec fn is_stale(now: FileTime, file: CachedFile) -> bool {
    is_json_name(file.name@) && match file.modified {
        Some(modified) => is_too_old(now, modified),
        None => false,
    }
}

/// Whether a file of the cache directory is a stored snapshot that is too old.
pub fn is_stale_snapshot(now: FileTime, file: &CachedFile) -> (stale: bool)
    ensures
        stale == is_stale(now, *file),
{
    let name = chars_of(file.name.as_str());
    if name.len() <= 5 {
        return false;
    }
    let ending = text_from(&name, name.len() - 5);
    if !same_text(ending.as_str(), ".json") {
        return false;
    }
    match file.modified {
        Some(modified) => {
            let limit: i128 = (SNAPSHOT_STALE_SECS as i128) * NANOS_PER_SEC;
            now.nanos >= i128::MIN + limit && modified.nanos < now.nanos - limit
        },
        None => false,
    }
}

/// The names of the files that are too old, in their order.
pub open spec fn stale_names(now: FileTime, files: Seq<CachedFile>) -> Seq<Seq<char>> {
    files.filter(|f: CachedFile| is_stale(now, f)).map_values(|f: CachedFile| f.name@)
}

/// The names of the files of the cache directory that are to be removed.
pub fn cleanup_stale_snapshots(now: FileTime, files: &Vec<CachedFile>) -> (names: Vec<String>)
    ensures
        texts(names@) == stale_names(now, files@),
{
    let mut names: Vec<String> = Vec::new();
    let mut i: usize = 0;
    proof {
        reveal(Seq::filter);
        assert(files@.take(0) =~= Seq::empty());
        assert(texts(names@) =~= stale_names(now, files@.take(0)));
    }
    while i < files.len()
        invariant
            i <= files@.len(),
            texts(names@) == stale_names(now, files@.take(i as int)),
        decreases files@.len() - i,
    {
        let ghost before = texts(names@);
        proof {
            reveal(Seq::filter);
            assert(files@.take(i + 1).drop_last() =~= files@.take(i as int));
            assert(files@.take(i + 1).last() == files@[i as int]);
        }
        if is_stale_snapshot(now, &files[i]) {
            let name = files[i].name.as_str().to_owned();
            names.push(name);
            assert(texts(names@) =~= before.push(name@));
            assert(stale_names(now, files@.take(i + 1)) =~= before.push(name@));
        }
        i = i + 1;
    }
    assert(files@.take(i as int) =~= files@);
    names
}

/// A stored snapshot is removed exactly if its file was last written more than the allowed time
/// ago; so a file that was written after `now` is kept.
pub proof fn recent_snapshots_are_kept(now: FileTime, file: CachedFile)
    requires
        is_json_name(file.name@),
        file.modified is Some,
    ensures
        is_stale(now, file) <==> now.nanos > file.modified->0.nanos + SNAPSHOT_STALE_SECS
            * NANOS_PER_SEC,
        file.modified->0.nanos >= now.nanos ==> !is_stale(now, file),
{
}

/// A file name made of a key has an underscore for each of the nine reserved characters, and the
/// key's own character everywhere else.
pub proof fn only_reserved_characters_are_replaced(key: Seq<char>)
    ensures
        sanitized(key).len() == key.len(),
        forall|i: int|
            0 <= i < key.len() ==> #[trigger] sanitized(key)[i] == if key[i] == '/' || key[i] == '\\'
                || key[i] == ':' || key[i] == '*' || key[i] == '?' || key[i] == '"' || key[i] == '<'
                || key[i] == '>' || key[i] == '|' {
                '_'
            } else {
                key[i]
            },
{
}

/// Where a snapshot is stored: in the directory `ai/bash_snapshots` below the one that git names,
/// taken from the root, in a file named after the key with the ending `.json`.
pub proof fn snapshots_have_their_place(repo_root: Seq<char>, git_dir: Seq<char>, key: Seq<char>)
    ensures
        ({
            let dir = cache_dir_of(repo_root, git_dir);
            let file = snapshot_file_of(dir, key);
            &&& dir.len() == 4
            &&& dir[0] == repo_root
            &&& dir[1] == git_dir
            &&& dir[2] == seq!['a', 'i']
            &&& dir[3] == "bash_snapshots"@
            &&& file.len() == 5
            &&& file.take(4) == dir
            &&& file[4].len() == key.len() + 5
            &&& file[4].take(key.len() as int) == sanitized(key)
            &&& file[4].skip(key.len() as int) == seq!['.', 'j', 's', 'o', 'n']
        }),
{
    reveal_strlit("ai");
    reveal_strlit(".json");
    let dir = cache_dir_of(repo_root, git_dir);
    let file = snapshot_file_of(dir, key);
    assert(dir[2] =~= seq!['a', 'i']);
    assert(file.take(4) =~= dir);
    assert(file[4].take(key.len() as int) =~= sanitized(key));
    assert(file[4].skip(key.len() as int) =~= seq!['.', 'j', 's', 'o', 'n']);
}

/// The directory that git prints is the printed text without the white space around it.
pub proof fn printed_directories_are_trimmed(stdout: Seq<u8>) -> (ends: (int, int))
    ensures
        ({
            let text = lossy_decoded(stdout);
            &&& 0 <= ends.0 <= ends.1 <= text.len()
            &&& printed_dir(stdout) == text.subrange(ends.0, ends.1)
            &&& forall|i: int|
                0 <= i < ends.0 || ends.1 <= i < text.len() ==> is_white(#[trigger] text[i])
            &&& ends.0 < ends.1 ==> !is_white(text[ends.0]) && !is_white(text[ends.1 - 1])
        }),
{
    trimming_takes_white_ends_off(lossy_decoded(stdout))
}

/// A snapshot is stored with its entries, its tracked files, its key and its root as they are; what
/// is stored shows what it holds.
pub proof fn snapshots_are_stored_as_they_are(snap: SnapshotView, stored: StoredSnapshot)
    ensures
        stored_form(snap).entries == snap.entries,
        stored_form(snap).tracked_files == snap.tracked_files,
        stored_form(snap).invocation_key == snap.invocation_key,
        stored_form(snap).repo_root == snap.repo_root,
        stored@.entries.len() == stored.entries@.len(),
        forall|i: int|
            0 <= i < stored.entries@.len() ==> #[trigger] stored@.entries[i] == (
                stored.entries@[i].0@,
                stored.entries@[i].1,
            ),
        stored@.tracked_files.len() == stored.tracked_files@.len(),
        forall|i: int|
            0 <= i < stored.tracked_files@.len() ==> (#[trigger] stored@.tracked_files[i]).0
                == stored.tracked_files@[i]@,
        stored@.invocation_key == stored.invocation_key@,
        stored@.repo_root == stored.repo_root@,
{
}

/// What a stored snapshot is read as: its entries and tracked files as maps, its key and root as they
/// are, no rules and no time.
pub proof fn snapshots_are_read_as_they_are_stored(stored: StoredView)
    ensures
        restored_form(stored).entries == put_all::<FilePath, StatEntry>(
            Seq::empty(),
            stored.entries,
        ),
        restored_form(stored).tracked_files == put_all::<FilePath, ()>(
            Seq::empty(),
            stored.tracked_files,
        ),
        restored_form(stored).invocation_key == stored.invocation_key,
        restored_form(stored).repo_root == stored.repo_root,
        restored_form(stored).gitignore is None,
        restored_form(stored).taken_at is None,
        restored_form(stored).exact_names,
{
}

/// A file of the cache is stale exactly if its name goes on before the ending `.json` and it was
/// last written more than three hundred seconds ago; if it is not known when, it is not.
pub proof fn old_snapshots_are_stale(now: FileTime, file: CachedFile)
    ensures
        is_stale(now, file) <==> {
            let name = file.name@;
            &&& name.len() > 5
            &&& name[name.len() - 5] == '.'
            &&& name[name.len() - 4] == 'j'
            &&& name[name.len() - 3] == 's'
            &&& name[name.len() - 2] == 'o'
            &&& name[name.len() - 1] == 'n'
            &&& file.modified is Some
            &&& now.nanos - file.modified->0.nanos > 300_000_000_000
        },
{
    reveal_strlit(".json");
    let name = file.name@;
    if name.len() > 5 {
        let end = name.skip(name.len() - 5);
        assert(end[0] == name[name.len() - 5]);
        assert(end[1] == name[name.len() - 4]);
        assert(end[2] == name[name.len() - 3]);
        assert(end[3] == name[name.len() - 2]);
        assert(end[4] == name[name.len() - 1]);
        if end[0] == '.' && end[1] == 'j' && end[2] == 's' && end[3] == 'o' && end[4] == 'n' {
            assert(end =~= ".json"@);
        }
    }
}

/// One more file is to be removed exactly if it is stale.
pub proof fn exactly_the_stale_files_are_removed(
    now: FileTime,
    files: Seq<CachedFile>,
    file: CachedFile,
)
    ensures
        stale_names(now, Seq::empty()) == Seq::<Seq<char>>::empty(),
        stale_names(now, files.push(file)) == if is_stale(now, file) {
            stale_names(now, files).push(file.name@)
        } else {
            stale_names(now, files)
        },
{
    reveal(Seq::filter);
    let none: Seq<CachedFile> = Seq::empty();
    assert(stale_names(now, none) =~= Seq::empty());
    assert(files.push(file).drop_last() =~= files);
    if is_stale(now, file) {
        assert(stale_names(now, files.push(file)) =~= stale_names(now, files).push(file.name@));
    }
}

/// In which words a snapshot with an inexact name is refused.
pub proof fn inexact_names_are_told()
    ensures
        name_is_no_text() == ErrorView::Json("path contains invalid UTF-8 characters"@),
{
}

} // verus!
