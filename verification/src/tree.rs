//! What the hooks report of a working tree: from the files that two walks saw to the changed paths.

use vstd::prelude::*;

use crate::cache::{restored_form, stored_form};
use crate::diff::{all_new_files_are_listed, diff_lists_are_in_order, lists, new_files_count};
use crate::diff::{every_path_is_listed_where_it_belongs, snapshot_diff, DiffView};
use crate::error::ErrorView;
use crate::hook::{changes_between_the_hooks_are_reported, hook_result, ActionView, Answers};
use crate::hook::{CallView, HookEvent};
use crate::ignore_rules::{lets_through, match_verdict, IgnoreMatch, RulesView};
use crate::order::{lemma_key_order, Key};
use crate::path::{normalized, path_key, FilePath, PathSystem};
use crate::snapshot::{all_in_time, belongs, filled_entries, found_by, gives, has_path, stat_of};
use crate::snapshot::{walks_store_all_that_belongs, walks_store_only_what_belongs, SnapshotView};
use crate::snapshot::WalkEvent;
use crate::sorted_map::{entries_are_found, entry, holds, keyed_at, lemma_put_all, lemma_put_all_holds};
use crate::sorted_map::{lemma_put_all_value, put_all, sorted, Entries};
use crate::stat::StatEntry;
use crate::text::posix_form;

verus! {

/// The files of a working tree: their paths from the root, and their fingerprints.
pub type Tree = Map<Seq<char>, StatEntry>;

/// What a file is found under in a snapshot.
pub open spec fn tree_key(system: PathSystem, path: Seq<char>) -> Key {
    path_key(normalized(system, path))
}

/// The file has the path and is found under the key.
pub open spec fn is_at(system: PathSystem, tree: Tree, key: Key, path: Seq<char>) -> bool {
    tree.dom().contains(path) && tree_key(system, path) == key
}

/// The fingerprint of the file that is found under a key.
pub open spec fn file_at(system: PathSystem, tree: Tree, key: Key) -> Option<StatEntry> {
    if exists|path: Seq<char>| #[trigger] is_at(system, tree, key, path) {
        Some(tree[choose|path: Seq<char>| #[trigger] is_at(system, tree, key, path)])
    } else {
        None
    }
}

/// No two files of the tree are found under the same key.
pub open spec fn is_proper(system: PathSystem, tree: Tree) -> bool {
    forall|key: Key, p: Seq<char>, q: Seq<char>| #[trigger]
        is_at(system, tree, key, p) && #[trigger] is_at(system, tree, key, q) ==> p == q
}

/// The files that a snapshot is to hold: those that git tracks or the rules let through.
pub open spec fn visible(
    system: PathSystem,
    tracked_files: Entries<()>,
    rules: RulesView,
    tree: Tree,
) -> Tree {
    Map::new(
        |path: Seq<char>| tree.dom().contains(path) && belongs(system, tracked_files, rules, path),
        |path: Seq<char>| tree[path],
    )
}

/// The course of a snapshot: the tracked files, the rules, what the walk came upon, and what was read
/// of the tracked files that it had passed by.
pub struct Walk {
    pub tracked_files: Entries<()>,
    pub rules: RulesView,
    pub events: Seq<WalkEvent>,
    pub stats: Entries<StatEntry>,
}

impl Walk {
    /// What the walk stores.
    pub open spec fn found(self, system: PathSystem) -> Entries<StatEntry> {
        put_all::<FilePath, StatEntry>(
            Seq::empty(),
            found_by(system, self.tracked_files, self.rules, self.events),
        )
    }

    /// The entries of the snapshot.
    pub open spec fn entries(self, system: PathSystem) -> Entries<StatEntry> {
        filled_entries(system, self.found(system), self.stats)
    }

    /// The walk came upon nothing but files of the tree, whose names are texts, and read them as they
    /// are.
    pub open spec fn saw_only(self, tree: Tree) -> bool {
        forall|j: int|
            0 <= j < self.events.len() && (#[trigger] self.events[j]).file is Some ==> {
                &&& self.events[j].exact
                &&& tree.dom().contains(self.events[j].file->0)
                &&& self.events[j].stat == Some(tree[self.events[j].file->0])
            }
    }

    /// The walk came upon the file.
    pub open spec fn saw(self, path: Seq<char>) -> bool {
        exists|j: int|
            0 <= j < self.events.len() && (#[trigger] self.events[j]).file == Some(path)
    }

    /// The walk passed by no file that the rules let through.
    pub open spec fn saw_all(self, tree: Tree) -> bool {
        forall|path: Seq<char>|
            tree.dom().contains(path) && #[trigger] lets_through(self.rules, path, false)
                ==> self.saw(path)
    }

    /// Something was read of the tracked file.
    pub open spec fn reads(self, name: Seq<char>) -> bool {
        exists|j: int| 0 <= j < self.stats.len() && (#[trigger] self.stats[j]).0 == name
    }

    /// Of the tracked files that the walk had passed by, those that the tree has were read, and they
    /// were read as they are.
    pub open spec fn read_the_rest(self, system: PathSystem, tree: Tree) -> bool {
        &&& forall|j: int|
            0 <= j < self.stats.len() ==> {
                &&& file_at(system, tree, tree_key(system, (#[trigger] self.stats[j]).0)) == Some(
                    self.stats[j].1,
                )
                &&& has_path(self.tracked_files, self.stats[j].0)
            }
        &&& forall|i: int|
            0 <= i < self.tracked_files.len() && !has_path(
                self.found(system),
                normalized(system, (#[trigger] self.tracked_files[i]).0),
            ) && file_at(system, tree, tree_key(system, self.tracked_files[i].0)) is Some
                ==> self.reads(self.tracked_files[i].0)
    }

    /// The tracked files are in the form in which paths are stored.
    pub open spec fn is_normal(self, system: PathSystem) -> bool {
        forall|t: Seq<char>| #[trigger]
            has_path(self.tracked_files, t) ==> tree_key(system, t) == path_key(t)
    }

    /// The walk went through the whole tree in time.
    pub open spec fn covers(self, system: PathSystem, tree: Tree) -> bool {
        &&& all_in_time(self.events)
        &&& self.is_normal(system)
        &&& self.saw_only(tree)
        &&& self.saw_all(tree)
        &&& self.read_the_rest(system, tree)
    }
}

/// The fingerprint that is found under a key.
pub open spec fn stat_at(entries: Entries<StatEntry>, key: Key) -> Option<StatEntry> {
    match entry::<FilePath, StatEntry>(entries, key) {
        Some(e) => Some(e.1),
        None => None,
    }
}

/// The entries are the files of the tree.
pub open spec fn shows(system: PathSystem, entries: Entries<StatEntry>, tree: Tree) -> bool {
    forall|key: Key| #[trigger] stat_at(entries, key) == file_at(system, tree, key)
}

proof fn lemma_file_at(system: PathSystem, tree: Tree, key: Key, path: Seq<char>)
    requires
        is_proper(system, tree),
        is_at(system, tree, key, path),
    ensures
        file_at(system, tree, key) == Some(tree[path]),
{
    let q = choose|q: Seq<char>| #[trigger] is_at(system, tree, key, q);
    assert(is_at(system, tree, key, q));
    assert(q == path);
}

proof fn lemma_visible_proper(system: PathSystem, walk: Walk, tree: Tree)
    requires
        is_proper(system, tree),
    ensures
        is_proper(system, visible(system, walk.tracked_files, walk.rules, tree)),
{
    let seen = visible(system, walk.tracked_files, walk.rules, tree);
    assert forall|key: Key, p: Seq<char>, q: Seq<char>| #[trigger]
        is_at(system, seen, key, p) && #[trigger] is_at(system, seen, key, q) implies p == q by {
        assert(is_at(system, tree, key, p));
        assert(is_at(system, tree, key, q));
    }
}

/// What the walk found under a key is the visible file there.
proof fn lemma_found(system: PathSystem, walk: Walk, tree: Tree, key: Key)
    requires
        is_proper(system, tree),
        walk.saw_only(tree),
    ensures
        ({
            let seen = visible(system, walk.tracked_files, walk.rules, tree);
            holds::<FilePath, StatEntry>(walk.found(system), key) ==> stat_at(walk.found(system), key)
                == file_at(system, seen, key) && file_at(system, seen, key) is Some
        }),
        !holds::<FilePath, StatEntry>(walk.found(system), key) ==> entry::<FilePath, StatEntry>(
            walk.found(system),
            key,
        ) is None,
        holds::<FilePath, StatEntry>(walk.found(system), key) <==> holds::<FilePath, StatEntry>(
            found_by(system, walk.tracked_files, walk.rules, walk.events),
            key,
        ),
{
    let list = found_by(system, walk.tracked_files, walk.rules, walk.events);
    let seen = visible(system, walk.tracked_files, walk.rules, tree);
    let none: Entries<StatEntry> = Seq::empty();
    lemma_visible_proper(system, walk, tree);
    lemma_put_all_holds::<FilePath, StatEntry>(none, list);
    assert(!holds::<FilePath, StatEntry>(none, key));
    if holds::<FilePath, StatEntry>(list, key) {
        let value = file_at(system, seen, key)->0;
        assert forall|i: int| #[trigger] keyed_at::<FilePath, StatEntry>(list, key, i) implies list[i].1
            == value && file_at(system, seen, key) is Some by {
            walks_store_only_what_belongs(
                system,
                walk.tracked_files,
                walk.rules,
                walk.events,
                i,
            );
            let j = choose|j: int|
                0 <= j < walk.events.len() && gives(
                    system,
                    walk.tracked_files,
                    walk.rules,
                    #[trigger] walk.events[j],
                    list[i],
                );
            let path = walk.events[j].file->0;
            assert(is_at(system, seen, key, path));
            lemma_file_at(system, seen, key, path);
        }
        lemma_put_all_value::<FilePath, StatEntry>(list, key, value);
        let i = choose|i: int| #[trigger] keyed_at::<FilePath, StatEntry>(list, key, i);
        assert(file_at(system, seen, key) is Some);
    }
}

/// What was read afterwards under a key is the visible file there.
proof fn lemma_read(system: PathSystem, walk: Walk, tree: Tree, key: Key, j: int)
    requires
        is_proper(system, tree),
        walk.is_normal(system),
        walk.read_the_rest(system, tree),
        0 <= j < walk.stats.len(),
        tree_key(system, walk.stats[j].0) == key,
    ensures
        file_at(system, visible(system, walk.tracked_files, walk.rules, tree), key) == Some(
            walk.stats[j].1,
        ),
{
    let seen = visible(system, walk.tracked_files, walk.rules, tree);
    let name = walk.stats[j].0;
    assert(file_at(system, tree, tree_key(system, name)) == Some(walk.stats[j].1));
    let path = choose|path: Seq<char>| #[trigger] is_at(system, tree, key, path);
    assert(is_at(system, tree, key, path));
    lemma_file_at(system, tree, key, path);
    assert(has_path(walk.tracked_files, name));
    assert(path_key(name) == key);
    assert(has_path(walk.tracked_files, normalized(system, path)));
    assert(is_at(system, seen, key, path));
    lemma_visible_proper(system, walk, tree);
    lemma_file_at(system, seen, key, path);
}

/// A visible file was found by the walk or read afterwards.
proof fn lemma_nothing_missed(system: PathSystem, walk: Walk, tree: Tree, key: Key)
    requires
        is_proper(system, tree),
        walk.covers(system, tree),
        file_at(system, visible(system, walk.tracked_files, walk.rules, tree), key) is Some,
        !holds::<FilePath, StatEntry>(walk.found(system), key),
    ensures
        exists|j: int|
            0 <= j < walk.stats.len() && tree_key(system, (#[trigger] walk.stats[j]).0) == key,
{
    let seen = visible(system, walk.tracked_files, walk.rules, tree);
    let path = choose|path: Seq<char>| #[trigger] is_at(system, seen, key, path);
    assert(is_at(system, seen, key, path));
    lemma_found(system, walk, tree, key);
    if lets_through(walk.rules, path, false) {
        assert(walk.saw(path));
        let j = choose|j: int|
            0 <= j < walk.events.len() && (#[trigger] walk.events[j]).file == Some(path);
        assert(walk.events[j].stat is Some);
        walks_store_all_that_belongs(system, walk.tracked_files, walk.rules, walk.events, j);
        let list = found_by(system, walk.tracked_files, walk.rules, walk.events);
        let e = (normalized(system, path), walk.events[j].stat->0);
        let i = choose|i: int| 0 <= i < list.len() && list[i] == e;
        assert(keyed_at::<FilePath, StatEntry>(list, key, i));
    } else {
        assert(has_path(walk.tracked_files, normalized(system, path)));
        let i = choose|i: int| #[trigger]
            keyed_at::<FilePath, ()>(walk.tracked_files, key, i);
        let name = walk.tracked_files[i].0;
        assert(keyed_at::<FilePath, ()>(walk.tracked_files, path_key(name), i));
        assert(has_path(walk.tracked_files, name));
        assert(tree_key(system, name) == key);
        assert(is_at(system, tree, key, path));
        lemma_file_at(system, tree, key, path);
        assert(!has_path(walk.found(system), normalized(system, name)));
        assert(walk.reads(name));
        let j = choose|j: int| 0 <= j < walk.stats.len() && (#[trigger] walk.stats[j]).0 == name;
        assert(tree_key(system, walk.stats[j].0) == key);
    }
}

proof fn lemma_filter_from<T>(list: Seq<T>, test: spec_fn(T) -> bool, i: int)
    requires
        0 <= i < list.filter(test).len(),
    ensures
        list.contains(list.filter(test)[i]),
    decreases list.len(),
{
    reveal(Seq::filter);
    if list.len() > 0 {
        let before = list.drop_last();
        if i < before.filter(test).len() {
            lemma_filter_from(before, test, i);
            let j = choose|j: int| 0 <= j < before.len() && before[j] == before.filter(test)[i];
            assert(list[j] == list.filter(test)[i]);
        } else {
            assert(list[list.len() - 1] == list.filter(test)[i]);
        }
    }
}

/// A walk that went through the whole tree in time gives a snapshot that shows every file that git
/// tracks or the rules let through, as it is, and no other.
pub proof fn complete_walks_show_the_tree(system: PathSystem, walk: Walk, tree: Tree)
    requires
        is_proper(system, tree),
        walk.covers(system, tree),
    ensures
        sorted::<FilePath, StatEntry>(walk.entries(system)),
        shows(
            system,
            walk.entries(system),
            visible(system, walk.tracked_files, walk.rules, tree),
        ),
{
    let none: Entries<StatEntry> = Seq::empty();
    let list = found_by(system, walk.tracked_files, walk.rules, walk.events);
    let found = walk.found(system);
    let seen = visible(system, walk.tracked_files, walk.rules, tree);
    let renamed = walk.stats.map_values(
        |s: (Seq<char>, StatEntry)| (normalized(system, s.0), s.1),
    );
    let test = |s: (Seq<char>, StatEntry)| !has_path(found, s.0);
    let added = renamed.filter(test);
    let all = walk.entries(system);
    broadcast use vstd::seq_lib::group_filter_ensures;

    lemma_put_all::<FilePath, StatEntry>(none, list);
    lemma_put_all::<FilePath, StatEntry>(found, added);
    assert(all == put_all::<FilePath, StatEntry>(found, added));
    assert forall|key: Key| #[trigger] stat_at(all, key) == file_at(system, seen, key) by {
        lemma_found(system, walk, tree, key);
        lemma_put_all_holds::<FilePath, StatEntry>(none, added);
        let stored = put_all::<FilePath, StatEntry>(none, added);
        assert(!holds::<FilePath, StatEntry>(none, key));
        assert forall|i: int| #[trigger] keyed_at::<FilePath, StatEntry>(added, key, i) implies Some(
            added[i].1,
        ) == file_at(system, seen, key) && !holds::<FilePath, StatEntry>(found, key) by {
            assert(test(added[i]));
            lemma_filter_from(renamed, test, i);
            let j = choose|j: int| 0 <= j < renamed.len() && renamed[j] == added[i];
            lemma_read(system, walk, tree, key, j);
        }
        lemma_put_all_value::<FilePath, StatEntry>(
            added,
            key,
            file_at(system, seen, key)->0,
        );
        if holds::<FilePath, StatEntry>(added, key) {
            let i = choose|i: int| #[trigger] keyed_at::<FilePath, StatEntry>(added, key, i);
            assert(Some(added[i].1) == file_at(system, seen, key));
        } else if !holds::<FilePath, StatEntry>(found, key) && file_at(system, seen, key) is Some {
            lemma_nothing_missed(system, walk, tree, key);
            let j = choose|j: int|
                0 <= j < walk.stats.len() && tree_key(system, (#[trigger] walk.stats[j]).0) == key;
            assert(test(renamed[j]));
            assert(added.contains(renamed[j]));
            let m = choose|m: int| 0 <= m < added.len() && added[m] == renamed[j];
            assert(keyed_at::<FilePath, StatEntry>(added, key, m));
        }
        assert(entry::<FilePath, StatEntry>(all, key) is Some <==> entry::<FilePath, StatEntry>(
            found,
            key,
        ) is Some || entry::<FilePath, StatEntry>(stored, key) is Some);
    }
}

/// The lists of a difference, one after the other.
pub open spec fn all_listed(difference: DiffView) -> Seq<Seq<char>> {
    difference.created + difference.modified + difference.deleted
}

/// The list has exactly the paths at which two trees differ, each of them once: files that only one
/// of them has, and files that both have with different fingerprints.
pub open spec fn lists_exactly(
    system: PathSystem,
    before: Tree,
    after: Tree,
    paths: Seq<Seq<char>>,
) -> bool {
    &&& forall|path: Seq<char>| #[trigger]
        lists(paths, path) <==> file_at(system, before, path_key(path)) != file_at(
            system,
            after,
            path_key(path),
        )
    &&& forall|i: int, j: int|
        0 <= i < j < paths.len() ==> path_key(#[trigger] paths[i]) != path_key(#[trigger] paths[j])
}

proof fn lemma_lists_append(a: Seq<Seq<char>>, b: Seq<Seq<char>>, path: Seq<char>)
    ensures
        lists(a + b, path) <==> lists(a, path) || lists(b, path),
{
    let k = path_key(path);
    if lists(a, path) {
        let i = choose|i: int| 0 <= i < a.len() && path_key(#[trigger] a[i]) == k;
        assert((a + b)[i] == a[i]);
    }
    if lists(b, path) {
        let i = choose|i: int| 0 <= i < b.len() && path_key(#[trigger] b[i]) == k;
        assert((a + b)[a.len() + i] == b[i]);
    }
    if lists(a + b, path) {
        let i = choose|i: int| 0 <= i < (a + b).len() && path_key(#[trigger] (a + b)[i]) == k;
        if i < a.len() {
            assert(a[i] == (a + b)[i]);
        } else {
            assert(b[i - a.len()] == (a + b)[i]);
        }
    }
}

proof fn lemma_no_repeats(a: Seq<Seq<char>>, b: Seq<Seq<char>>)
    requires
        forall|i: int, j: int|
            0 <= i < j < a.len() ==> path_key(#[trigger] a[i]) != path_key(#[trigger] a[j]),
        forall|i: int, j: int|
            0 <= i < j < b.len() ==> path_key(#[trigger] b[i]) != path_key(#[trigger] b[j]),
        forall|path: Seq<char>| !(#[trigger] lists(a, path) && lists(b, path)),
    ensures
        forall|i: int, j: int|
            0 <= i < j < (a + b).len() ==> path_key(#[trigger] (a + b)[i]) != path_key(
                #[trigger] (a + b)[j],
            ),
{
    let all = a + b;
    assert forall|i: int, j: int| 0 <= i < j < all.len() implies path_key(#[trigger] all[i])
        != path_key(#[trigger] all[j]) by {
        if j < a.len() {
            assert(all[i] == a[i] && all[j] == a[j]);
        } else if i >= a.len() {
            assert(all[i] == b[i - a.len()] && all[j] == b[j - a.len()]);
        } else {
            assert(all[i] == a[i] && all[j] == b[j - a.len()]);
            assert(lists(a, all[i]));
            if path_key(all[i]) == path_key(all[j]) {
                assert(path_key(b[j - a.len()]) == path_key(all[i]));
                assert(lists(b, all[i]));
            }
        }
    }
}

/// The difference of two snapshots that show two trees lists exactly the paths at which the trees
/// differ, unless the rules exclude a new file.
pub proof fn differences_are_those_of_the_trees(
    system: PathSystem,
    before: Tree,
    after: Tree,
    pre: SnapshotView,
    post: SnapshotView,
)
    requires
        pre.in_order(),
        post.in_order(),
        shows(system, pre.entries, before),
        shows(system, post.entries, after),
        new_files_count(pre, post),
    ensures
        lists_exactly(system, before, after, all_listed(snapshot_diff(pre, post))),
{
    let d = snapshot_diff(pre, post);
    lemma_key_order();
    diff_lists_are_in_order(pre, post);
    assert forall|path: Seq<char>| #[trigger]
        lists(all_listed(d), path) <==> file_at(system, before, path_key(path)) != file_at(
            system,
            after,
            path_key(path),
        ) by {
        lemma_lists_append(d.created + d.modified, d.deleted, path);
        lemma_lists_append(d.created, d.modified, path);
        every_path_is_listed_where_it_belongs(pre, post, path);
        all_new_files_are_listed(pre, post, path);
        assert(stat_at(pre.entries, path_key(path)) == file_at(system, before, path_key(path)));
        assert(stat_at(post.entries, path_key(path)) == file_at(system, after, path_key(path)));
        assert(stat_of(pre.entries, path) == stat_at(pre.entries, path_key(path)));
        assert(stat_of(post.entries, path) == stat_at(post.entries, path_key(path)));
    }
    assert forall|path: Seq<char>| !(#[trigger] lists(d.created, path) && lists(d.modified, path)) by {
        every_path_is_listed_where_it_belongs(pre, post, path);
    }
    assert forall|path: Seq<char>| !(#[trigger] lists(d.created + d.modified, path) && lists(
        d.deleted,
        path,
    )) by {
        lemma_lists_append(d.created, d.modified, path);
        every_path_is_listed_where_it_belongs(pre, post, path);
    }
    lemma_no_repeats(d.created, d.modified);
    lemma_no_repeats(d.created + d.modified, d.deleted);
}

/// The action for a list of changed paths: a checkpoint with them, with forward slashes, if there
/// are any.
pub open spec fn reported(paths: Seq<Seq<char>>) -> ActionView {
    if paths.len() == 0 {
        ActionView::NoChanges
    } else {
        ActionView::Checkpoint(paths.map_values(|p: Seq<char>| posix_form(p)))
    }
}

/// The second hook of a tool call reports exactly what changed in the working tree since the first:
/// each file that git tracks or the rules let through and that was created, deleted or changed in
/// between, once, and nothing else. Both walks went through the whole tree in time, and the rules
/// that the second hook builds exclude no new file.
pub proof fn hooks_report_what_changed_in_the_tree(
    system: PathSystem,
    call: CallView,
    before: Tree,
    after: Tree,
    first: Walk,
    second: Walk,
    pre: SnapshotView,
    post: SnapshotView,
    rules: RulesView,
    answers: Answers,
)
    requires
        is_proper(system, before),
        is_proper(system, after),
        first.covers(system, before),
        second.covers(system, after),
        pre.entries == first.entries(system),
        pre.tracked_files == first.tracked_files,
        post.entries == second.entries(system),
        post.tracked_files == second.tracked_files,
        sorted::<FilePath, ()>(pre.tracked_files),
        sorted::<FilePath, ()>(post.tracked_files),
        answers.loaded == Ok::<Option<SnapshotView>, ErrorView>(
            Some(restored_form(stored_form(pre))),
        ),
        answers.taken == Ok::<SnapshotView, ErrorView>(post),
        answers.built == Ok::<RulesView, ErrorView>(rules),
        new_files_count(SnapshotView { gitignore: Some(rules), ..pre }, post),
    ensures
        ({
            let result = hook_result(HookEvent::PostToolUse, call, answers);
            exists|paths: Seq<Seq<char>>|
                result is Ok && result->Ok_0.action == reported(paths) && #[trigger] lists_exactly(
                    system,
                    visible(system, first.tracked_files, first.rules, before),
                    visible(system, second.tracked_files, second.rules, after),
                    paths,
                )
        }),
{
    let seen_before = visible(system, first.tracked_files, first.rules, before);
    let seen_after = visible(system, second.tracked_files, second.rules, after);
    let frozen = SnapshotView { gitignore: Some(rules), ..pre };
    complete_walks_show_the_tree(system, first, before);
    complete_walks_show_the_tree(system, second, after);
    changes_between_the_hooks_are_reported(call, pre, post, answers);
    differences_are_those_of_the_trees(system, seen_before, seen_after, frozen, post);
    let paths = all_listed(snapshot_diff(frozen, post));
    assert(lists_exactly(system, seen_before, seen_after, paths));
}

/// The files that a snapshot is to hold are just those of the tree that the rules do not ignore or
/// git tracks, as they are, whatever their names.
pub proof fn files_that_count_are_visible(
    system: PathSystem,
    tracked_files: Entries<()>,
    rules: RulesView,
    tree: Tree,
    path: Seq<char>,
)
    ensures
        ({
            let seen = visible(system, tracked_files, rules, tree);
            &&& seen.dom().contains(path) <==> tree.dom().contains(path) && (match_verdict(
                rules.root,
                rules.globs,
                path,
                false,
            ) != IgnoreMatch::Ignore || holds::<FilePath, ()>(
                tracked_files,
                path_key(normalized(system, path)),
            ))
            &&& seen.dom().contains(path) ==> seen[path] == tree[path]
        }),
{
}

/// A walk that went through the whole tree in time gives a snapshot that holds every file of the
/// tree that the rules do not ignore or git tracks, with its fingerprint, and no file that the tree
/// does not have or that the rules ignore and git does not track.
pub proof fn complete_walks_hold_every_file_that_counts(
    system: PathSystem,
    walk: Walk,
    tree: Tree,
    path: Seq<char>,
)
    requires
        is_proper(system, tree),
        walk.covers(system, tree),
        tree.dom().contains(path),
    ensures
        ({
            let list = walk.entries(system);
            let counts = match_verdict(walk.rules.root, walk.rules.globs, path, false)
                != IgnoreMatch::Ignore || holds::<FilePath, ()>(
                walk.tracked_files,
                path_key(normalized(system, path)),
            );
            &&& counts ==> exists|i: int|
                0 <= i < list.len() && path_key((#[trigger] list[i]).0) == path_key(
                    normalized(system, path),
                ) && list[i].1 == tree[path]
            &&& !counts ==> forall|i: int|
                0 <= i < list.len() ==> path_key((#[trigger] list[i]).0) != path_key(
                    normalized(system, path),
                )
        }),
{
    let seen = visible(system, walk.tracked_files, walk.rules, tree);
    let key = tree_key(system, path);
    let list = walk.entries(system);
    complete_walks_show_the_tree(system, walk, tree);
    lemma_visible_proper(system, walk, tree);
    assert(stat_at(list, key) == file_at(system, seen, key));
    entries_are_found::<FilePath, StatEntry>(list, key);
    if seen.dom().contains(path) {
        assert(is_at(system, seen, key, path));
        lemma_file_at(system, seen, key, path);
    } else if file_at(system, seen, key) is Some {
        let q = choose|q: Seq<char>| #[trigger] is_at(system, seen, key, q);
        assert(is_at(system, tree, key, q));
        assert(is_at(system, tree, key, path));
    }
}

} // verus!
