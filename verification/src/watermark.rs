//! Watermarks: up to which time the daemon has seen the files, and which files are newer.

use std::collections::BTreeMap;
use vstd::prelude::*;

use crate::diff::{lemma_paths_none, lemma_paths_step, lemma_paths_where, lists, passing_entries_are_listed};
use crate::diff::{paths_in_order, paths_where};
use crate::path::{path_key, path_texts, FilePath};
use crate::snapshot::{has_path, stat_of, SnapshotView, StatSnapshot};
use crate::sorted_map::{entry, put_all, sorted, text_key, values_are_found_by_text, Entries, SortedMap};
use crate::stat::{nanos_since_epoch, system_time_to_nanos, FileTime, StatEntry};
use crate::text::{normalize_to_posix, posix_form, same_text};

verus! {

/// How far, in nanoseconds, a modification time may lie above a watermark: file systems may keep
/// times in steps of up to two seconds.
pub const MTIME_GRACE_WINDOW_NS: u128 = 2_000_000_000;

/// The watermarks of one worktree.
pub struct DaemonWatermarks {
    /// The modification times up to which single files were seen, in nanoseconds since the epoch.
    pub per_file: SortedMap<String, u128>,
    /// The time up to which all files were seen; none before the first full checkpoint.
    pub worktree: Option<u128>,
}

/// Watermarks by their contents.
pub struct WatermarksView {
    pub per_file: Entries<u128>,
    pub worktree: Option<u128>,
}

impl View for DaemonWatermarks {
    type V = WatermarksView;

    open spec fn view(&self) -> WatermarksView {
        WatermarksView { per_file: self.per_file@, worktree: self.worktree }
    }
}

/// The member of a JSON object under a key, as JSON text.
pub uninterp spec fn json_member(text: Seq<char>, key: Seq<char>) -> Option<Seq<char>>;

/// The number that a JSON text stands for.
pub uninterp spec fn json_u128(text: Seq<char>) -> Option<u128>;

/// The texts and numbers that a JSON object holds, in the order of the texts.
pub uninterp spec fn json_u128_map(text: Seq<char>) -> Option<Entries<u128>>;

/// `serde_json::Value::get` on a JSON text: the member of the object under `key`, written as JSON
/// again. Nothing comes of a text that is no JSON object or has no such member. What comes depends
/// on the text and the key alone.
#[verifier::external_body]
fn member_of(text: &str, key: &str) -> (member: Option<String>)
    ensures
        match member {
            Some(m) => json_member(text@, key@) == Some(m@),
            None => json_member(text@, key@) is None,
        },
{
    let value: serde_json::Value = serde_json::from_str(text).ok()?;
    let member = value.get(key)?;
    Some(member.to_string())
}

/// `serde_json::from_value` on a JSON text, for a `u128`: the number, if the text is an integer of
/// that range that a JSON value can hold. What comes depends on the text alone.
#[verifier::external_body]
fn number_of(text: &str) -> (number: Option<u128>)
    ensures
        number == json_u128(text@),
{
    let value: serde_json::Value = serde_json::from_str(text).ok()?;
    serde_json::from_value(value).ok()
}

/// `serde_json::from_value` on a JSON text, for a map from texts to `u128`: the entries of the map,
/// if the text is an object of such numbers. What comes depends on the text alone.
#[verifier::external_body]
fn numbers_of(text: &str) -> (numbers: Option<Vec<(String, u128)>>)
    ensures
        match numbers {
            Some(list) => json_u128_map(text@) == Some(
                list@.map_values(|e: (String, u128)| (e.0@, e.1)),
            ),
            None => json_u128_map(text@) is None,
        },
{
    let value: serde_json::Value = serde_json::from_str(text).ok()?;
    let map: BTreeMap<String, u128> = serde_json::from_value(value).ok()?;
    Some(map.into_iter().collect())
}

/// What the daemon answers: whether it could, and what it found, as JSON text.
pub struct DaemonReply {
    pub ok: bool,
    pub data: Option<String>,
}

/// What was read of a member of a reply.
pub enum Member<T> {
    /// The reply has no such member.
    Missing,
    /// The member is not what it should be.
    Unreadable,
    /// The member holds this.
    Found(T),
}

/// The watermarks made of what was read from a reply. Without the member for single files no file
/// has one; a member that cannot be read spoils the reply.
pub open spec fn watermarks_of(
    per_file: Member<Entries<u128>>,
    worktree: Member<u128>,
) -> Option<WatermarksView> {
    if per_file is Unreadable || worktree is Unreadable {
        None
    } else {
        Some(
            WatermarksView {
                per_file: match per_file {
                    Member::Found(list) => put_all::<String, u128>(Seq::empty(), list),
                    _ => Seq::empty(),
                },
                worktree: match worktree {
                    Member::Found(mark) => Some(mark),
                    _ => None,
                },
            },
        )
    }
}

/// What was read of the member for single files, by its contents.
pub open spec fn list_member(member: Member<Vec<(String, u128)>>) -> Member<Entries<u128>> {
    match member {
        Member::Missing => Member::Missing,
        Member::Unreadable => Member::Unreadable,
        Member::Found(list) => Member::Found(
            list@.map_values(|e: (String, u128)| (e.0@, e.1)),
        ),
    }
}

/// The watermarks made of what was read from a reply.
pub fn watermarks_from(per_file: Member<Vec<(String, u128)>>, worktree: Member<u128>) -> (marks:
    Option<DaemonWatermarks>)
    ensures
        match marks {
            Some(found) => watermarks_of(list_member(per_file), worktree) == Some(found@),
            None => watermarks_of(list_member(per_file), worktree) is None,
        },
{
    let per_file = match per_file {
        Member::Missing => SortedMap::new(),
        Member::Unreadable => {
            return None;
        },
        Member::Found(list) => SortedMap::from_entries(list),
    };
    let worktree = match worktree {
        Member::Missing => None,
        Member::Unreadable => {
            return None;
        },
        Member::Found(mark) => Some(mark),
    };
    Some(DaemonWatermarks { per_file, worktree })
}

/// The watermarks of single files that the data of a reply spells under `watermarks`.
pub open spec fn per_file_member(data: Seq<char>) -> Member<Entries<u128>> {
    match json_member(data, "watermarks"@) {
        Some(member) => match json_u128_map(member) {
            Some(list) => Member::Found(list),
            None => Member::Unreadable,
        },
        None => Member::Missing,
    }
}

/// The watermark of the worktree that the data of a reply spells under `worktree_watermark`; `null`
/// stands for none.
pub open spec fn worktree_member(data: Seq<char>) -> Member<u128> {
    match json_member(data, "worktree_watermark"@) {
        Some(member) => if member == "null"@ {
            Member::Missing
        } else {
            match json_u128(member) {
                Some(mark) => Member::Found(mark),
                None => Member::Unreadable,
            }
        },
        None => Member::Missing,
    }
}

/// The watermarks that the data of a reply spells.
pub open spec fn reply_watermarks(data: Seq<char>) -> Option<WatermarksView> {
    watermarks_of(per_file_member(data), worktree_member(data))
}

/// Reads the watermarks from the daemon's reply. There are none if no reply came, if the daemon
/// could not answer, if it sent no data, or if a member of what it sent is not what it should be. Data
/// that is no JSON object counts as data without members.
pub fn query_daemon_watermarks(reply: &Option<DaemonReply>) -> (marks: Option<DaemonWatermarks>)
    ensures
        marks is Some <==> {
            &&& reply is Some
            &&& reply->0.ok
            &&& reply->0.data is Some
            &&& json_member(reply->0.data->0@, "watermarks"@) matches Some(m) ==> json_u128_map(
                m,
            ) is Some
            &&& json_member(reply->0.data->0@, "worktree_watermark"@) matches Some(m) ==> m
                == "null"@ || json_u128(m) is Some
        },
        marks matches Some(found) ==> reply_watermarks(reply->0.data->0@) == Some(found@),
{
    match reply {
        Some(reply) => {
            if !reply.ok {
                return None;
            }
            match &reply.data {
                Some(data) => {
                    let per_file = match member_of(data.as_str(), "watermarks") {
                        Some(member) => match numbers_of(member.as_str()) {
                            Some(list) => Member::Found(list),
                            None => Member::Unreadable,
                        },
                        None => Member::Missing,
                    };
                    let worktree = match member_of(data.as_str(), "worktree_watermark") {
                        Some(member) => if same_text(member.as_str(), "null") {
                            Member::Missing
                        } else {
                            match number_of(member.as_str()) {
                                Some(mark) => Member::Found(mark),
                                None => Member::Unreadable,
                            }
                        },
                        None => Member::Missing,
                    };
                    assert(list_member(per_file) == per_file_member(data@));
                    watermarks_from(per_file, worktree)
                },
                None => None,
            }
        },
        None => None,
    }
}

/// The watermark that counts for a path: its own if it has one, else that of the worktree.
pub open spec fn watermark_for(marks: WatermarksView, path: Seq<char>) -> Option<u128> {
    match entry::<String, u128>(marks.per_file, text_key(posix_form(path))) {
        Some(e) => Some(e.1),
        None => marks.worktree,
    }
}

/// A modification time lies above a watermark by more than the grace window.
pub open spec fn is_beyond(mtime: FileTime, mark: u128) -> bool {
    nanos_since_epoch(mtime) > mark + MTIME_GRACE_WINDOW_NS
}

/// A file is stale if it was modified after the watermark that counts for it. Without a watermark
/// it is not.
pub open spec fn is_stale_file(marks: WatermarksView, path: Seq<char>, stat: StatEntry) -> bool {
    match (stat.mtime, watermark_for(marks, path)) {
        (Some(mtime), Some(mark)) => stat.exists && is_beyond(mtime, mark),
        _ => false,
    }
}

/// The stale files of a snapshot, in their order.
pub open spec fn stale_paths(snap: SnapshotView, marks: WatermarksView) -> Seq<Seq<char>> {
    paths_where(snap.entries, |e: (Seq<char>, StatEntry)| is_stale_file(marks, e.0, e.1))
}

fn beyond(mtime: FileTime, mark: u128) -> (beyond: bool)
    ensures
        beyond == is_beyond(mtime, mark),
{
    let nanos: u128 = system_time_to_nanos(mtime);
    nanos > MTIME_GRACE_WINDOW_NS && nanos - MTIME_GRACE_WINDOW_NS > mark
}

fn stale(marks: &DaemonWatermarks, path: &FilePath, stat: &StatEntry) -> (stale: bool)
    ensures
        stale == is_stale_file(marks@, path@, *stat),
{
    if !stat.exists {
        return false;
    }
    match stat.mtime {
        Some(mtime) => {
            let key = normalize_to_posix(path.text());
            match marks.per_file.get(&key) {
                Some(mark) => beyond(mtime, *mark),
                None => match marks.worktree {
                    Some(mark) => beyond(mtime, mark),
                    None => false,
                },
            }
        },
        None => false,
    }
}

/// Compares the files of a snapshot with the watermarks and lists the stale ones in order.
pub fn find_stale_files(snap: &StatSnapshot, marks: &DaemonWatermarks) -> (paths: Vec<FilePath>)
    ensures
        path_texts(paths@) == stale_paths(snap@, marks@),
        paths_in_order(path_texts(paths@)),
{
    let mut paths: Vec<FilePath> = Vec::new();
    let ghost list = snap.entries@;
    let ghost test = |e: (Seq<char>, StatEntry)| is_stale_file(marks@, e.0, e.1);
    let n: usize = snap.entries.len();
    let mut i: usize = 0;
    proof {
        lemma_paths_none(list, test);
        assert(path_texts(paths@) =~= Seq::empty());
    }
    while i < n
        invariant
            i <= n,
            n == list.len(),
            list == snap.entries@,
            test == (|e: (Seq<char>, StatEntry)| is_stale_file(marks@, e.0, e.1)),
            path_texts(paths@) == paths_where(list.take(i as int), test),
        decreases n - i,
    {
        let path = snap.entries.key_at(i);
        let ghost before = path_texts(paths@);
        proof {
            lemma_paths_step(list, test, i as int);
        }
        if stale(marks, path, snap.entries.value_at(i)) {
            assert(test(list[i as int]));
            let copy = path.copy();
            paths.push(copy);
            assert(path_texts(paths@) =~= before.push(path@));
        } else {
            assert(!test(list[i as int]));
        }
        i = i + 1;
    }
    proof {
        assert(list.take(i as int) =~= list);
        lemma_paths_where(list, test);
    }
    paths
}

/// A path is listed as stale exactly if the snapshot has it, and has it as stale.
pub proof fn stale_files_are_listed(snap: SnapshotView, marks: WatermarksView, path: Seq<char>)
    requires
        snap.in_order(),
    ensures
        lists(stale_paths(snap, marks), path) <==> has_path(snap.entries, path) && is_stale_file(
            marks,
            entry::<FilePath, StatEntry>(snap.entries, path_key(path)).unwrap().0,
            stat_of(snap.entries, path)->0,
        ),
{
    lemma_paths_where(
        snap.entries,
        |e: (Seq<char>, StatEntry)| is_stale_file(marks, e.0, e.1),
    );
}

/// A watermark of the file itself counts, whatever the watermark of the worktree is.
pub proof fn own_watermark_wins(
    marks: WatermarksView,
    worktree: Option<u128>,
    path: Seq<char>,
    stat: StatEntry,
)
    requires
        entry::<String, u128>(marks.per_file, text_key(posix_form(path))) is Some,
    ensures
        is_stale_file(marks, path, stat) == is_stale_file(
            WatermarksView { worktree, ..marks },
            path,
            stat,
        ),
{
}

/// A file that was modified within the grace window above its watermark, or before it, is not
/// stale; without any watermark no file is.
pub proof fn grace_window_is_granted(marks: WatermarksView, path: Seq<char>, stat: StatEntry)
    ensures
        watermark_for(marks, path) is None ==> !is_stale_file(marks, path, stat),
        stat.mtime matches Some(mtime) ==> watermark_for(marks, path) matches Some(mark)
            ==> nanos_since_epoch(mtime) <= mark + MTIME_GRACE_WINDOW_NS ==> !is_stale_file(
            marks,
            path,
            stat,
        ),
{
}

/// A later modification keeps a stale file stale, and so does a lower watermark.
pub proof fn staleness_is_monotone(low: FileTime, high: FileTime, mark: u128, lower: u128)
    requires
        low.nanos <= high.nanos,
        lower <= mark,
        is_beyond(low, mark),
    ensures
        is_beyond(high, lower),
{
}

/// A file is stale exactly if it exists and its modification time is known and lies more than two
/// seconds above the watermark that counts for it: its own under its path with forward slashes, or
/// without one that of the worktree. A file without either is not stale.
pub proof fn files_beyond_the_grace_window_are_stale(
    marks: WatermarksView,
    path: Seq<char>,
    stat: StatEntry,
)
    requires
        sorted::<String, u128>(marks.per_file),
    ensures
        forall|i: int|
            0 <= i < marks.per_file.len() && (#[trigger] marks.per_file[i]).0 == posix_form(path) ==> (
            is_stale_file(marks, path, stat) <==> stat.exists && stat.mtime is Some
                && stat.mtime->0.nanos > marks.per_file[i].1 + 2_000_000_000),
        (forall|i: int|
            0 <= i < marks.per_file.len() ==> (#[trigger] marks.per_file[i]).0 != posix_form(path))
            ==> (is_stale_file(marks, path, stat) <==> stat.exists && stat.mtime is Some
            && marks.worktree is Some && stat.mtime->0.nanos > marks.worktree->0 + 2_000_000_000),
{
    values_are_found_by_text(marks.per_file, posix_form(path));
}

/// Only whether a file exists and when it was modified bears on its being stale.
pub proof fn other_fields_do_not_make_stale(
    marks: WatermarksView,
    path: Seq<char>,
    one: StatEntry,
    other: StatEntry,
)
    requires
        one.exists == other.exists,
        one.mtime == other.mtime,
    ensures
        is_stale_file(marks, path, one) == is_stale_file(marks, path, other),
{
}

/// The list of stale files has every file of the snapshot that was modified more than two seconds
/// after the watermark that counts for it, under its own path, and no other.
pub proof fn exactly_the_stale_files_are_listed(snap: SnapshotView, marks: WatermarksView)
    requires
        sorted::<String, u128>(marks.per_file),
    ensures
        forall|i: int, m: int|
            0 <= i < snap.entries.len() && 0 <= m < marks.per_file.len() && (
            #[trigger] marks.per_file[m]).0 == posix_form((#[trigger] snap.entries[i]).0)
                && snap.entries[i].1.exists && snap.entries[i].1.mtime is Some
                && snap.entries[i].1.mtime->0.nanos > marks.per_file[m].1 + 2_000_000_000
                ==> stale_paths(snap, marks).contains(snap.entries[i].0),
        forall|i: int|
            0 <= i < snap.entries.len() && (forall|m: int|
                0 <= m < marks.per_file.len() ==> (#[trigger] marks.per_file[m]).0 != posix_form(
                    snap.entries[i].0,
                )) && (#[trigger] snap.entries[i]).1.exists && snap.entries[i].1.mtime is Some
                && marks.worktree is Some && snap.entries[i].1.mtime->0.nanos > marks.worktree->0
                + 2_000_000_000 ==> stale_paths(snap, marks).contains(snap.entries[i].0),
        forall|path: Seq<char>| #[trigger]
            stale_paths(snap, marks).contains(path) ==> exists|i: int|
                0 <= i < snap.entries.len() && (#[trigger] snap.entries[i]).0 == path
                    && is_stale_file(marks, path, snap.entries[i].1),
{
    let test = |e: (Seq<char>, StatEntry)| is_stale_file(marks, e.0, e.1);
    let list = stale_paths(snap, marks);
    passing_entries_are_listed(snap.entries, test);
    assert forall|i: int, m: int|
        0 <= i < snap.entries.len() && 0 <= m < marks.per_file.len() && (
        #[trigger] marks.per_file[m]).0 == posix_form((#[trigger] snap.entries[i]).0)
            && snap.entries[i].1.exists && snap.entries[i].1.mtime is Some
            && snap.entries[i].1.mtime->0.nanos > marks.per_file[m].1 + 2_000_000_000 implies list.contains(
    snap.entries[i].0) by {
        files_beyond_the_grace_window_are_stale(marks, snap.entries[i].0, snap.entries[i].1);
        assert(test(snap.entries[i]));
    }
    assert forall|i: int|
        0 <= i < snap.entries.len() && (forall|m: int|
            0 <= m < marks.per_file.len() ==> (#[trigger] marks.per_file[m]).0 != posix_form(
                snap.entries[i].0,
            )) && (#[trigger] snap.entries[i]).1.exists && snap.entries[i].1.mtime is Some
            && marks.worktree is Some && snap.entries[i].1.mtime->0.nanos > marks.worktree->0
            + 2_000_000_000 implies list.contains(snap.entries[i].0) by {
        files_beyond_the_grace_window_are_stale(marks, snap.entries[i].0, snap.entries[i].1);
        assert(test(snap.entries[i]));
    }
    assert forall|path: Seq<char>| #[trigger] list.contains(path) implies exists|i: int|
        0 <= i < snap.entries.len() && (#[trigger] snap.entries[i]).0 == path && is_stale_file(
            marks,
            path,
            snap.entries[i].1,
        ) by {
        assert(paths_where(snap.entries, test).contains(path));
        let i = choose|i: int|
            0 <= i < snap.entries.len() && test(#[trigger] snap.entries[i]) && snap.entries[i].0
                == path;
        assert(snap.entries[i].0 == path);
    }
}

/// Watermarks show what they hold.
pub proof fn watermarks_show_what_they_hold(marks: DaemonWatermarks)
    ensures
        marks@.per_file == marks.per_file@,
        marks@.worktree == marks.worktree,
{
}

/// What watermarks are made of two members of a reply: none if either could not be read; otherwise
/// the listed ones for single files, or none without a list, and that of the worktree if there is
/// one.
pub proof fn members_make_watermarks(per_file: Member<Vec<(String, u128)>>, worktree: Member<u128>)
    ensures
        ({
            let marks = watermarks_of(list_member(per_file), worktree);
            &&& marks is None <==> per_file is Unreadable || worktree is Unreadable
            &&& marks is Some && per_file is Missing ==> marks->0.per_file.len() == 0
            &&& per_file matches Member::Found(list) ==> marks is Some ==> marks->0.per_file
                == put_all::<String, u128>(
                Seq::empty(),
                list@.map_values(|e: (String, u128)| (e.0@, e.1)),
            )
            &&& marks is Some && worktree is Missing ==> marks->0.worktree is None
            &&& worktree matches Member::Found(mark) ==> marks is Some ==> marks->0.worktree == Some(
                mark,
            )
        }),
{
}

/// What the data of a reply says: the numbers under `watermarks` for single files, and the number
/// under `worktree_watermark` for the worktree; a member that is there and cannot be read, and is not
/// the `null` of the worktree, spoils the reply.
pub proof fn replies_say_what_their_members_say(data: Seq<char>)
    ensures
        ({
            let files = json_member(data, "watermarks"@);
            let tree = json_member(data, "worktree_watermark"@);
            let marks = reply_watermarks(data);
            &&& marks is None <==> (files is Some && json_u128_map(files->0) is None) || (tree is Some
                && tree->0 != "null"@ && json_u128(tree->0) is None)
            &&& marks is Some && files is None ==> marks->0.per_file.len() == 0
            &&& marks is Some && files is Some ==> marks->0.per_file == put_all::<String, u128>(
                Seq::empty(),
                json_u128_map(files->0)->0,
            )
            &&& marks is Some && (tree is None || tree->0 == "null"@) ==> marks->0.worktree is None
            &&& marks is Some && tree is Some && tree->0 != "null"@ ==> marks->0.worktree == json_u128(
                tree->0,
            )
        }),
{
}

} // verus!
