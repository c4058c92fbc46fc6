//! The difference of two snapshots.

use vstd::prelude::*;

use crate::ignore_rules::{lets_through, match_verdict, should_include_new_file, IgnoreMatch};
use crate::order::key_lt;
use crate::path::{path_key, path_texts, FilePath};
use crate::snapshot::{has_path, stat_of, SnapshotView, StatSnapshot};
use crate::sorted_map::{entries_are_found, entry, holds, keyed_at, lemma_entry_at, lemma_filter};
use crate::sorted_map::{sorted, Entries};
use crate::stat::StatEntry;
use crate::text::{normalize_to_posix, posix_form, texts};

verus! {

/// The paths that differ between two snapshots.
#[derive(Debug)]
pub struct StatDiffResult {
    pub created: Vec<FilePath>,
    pub modified: Vec<FilePath>,
    pub deleted: Vec<FilePath>,
}

/// A difference by the texts of its paths.
pub struct DiffView {
    pub created: Seq<Seq<char>>,
    pub modified: Seq<Seq<char>>,
    pub deleted: Seq<Seq<char>>,
}

impl View for StatDiffResult {
    type V = DiffView;

    open spec fn view(&self) -> DiffView {
        DiffView {
            created: path_texts(self.created@),
            modified: path_texts(self.modified@),
            deleted: path_texts(self.deleted@),
        }
    }
}

impl Default for StatDiffResult {
    fn default() -> (result: Self)
        ensures
            result@ == (DiffView {
                created: Seq::empty(),
                modified: Seq::empty(),
                deleted: Seq::empty(),
            }),
    {
        let result = StatDiffResult {
            created: Vec::new(),
            modified: Vec::new(),
            deleted: Vec::new(),
        };
        assert(path_texts(result.created@) =~= Seq::empty());
        assert(path_texts(result.modified@) =~= Seq::empty());
        assert(path_texts(result.deleted@) =~= Seq::empty());
        result
    }
}

impl DiffView {
    /// The changed paths with forward slashes: created, then modified, then deleted.
    pub open spec fn changed_paths(self) -> Seq<Seq<char>> {
        (self.created + self.modified + self.deleted).map_values(|t: Seq<char>| posix_form(t))
    }

    /// Nothing differs.
    pub open spec fn nothing(self) -> bool {
        self.created.len() == 0 && self.modified.len() == 0 && self.deleted.len() == 0
    }
}

/// Appends the paths, as texts with forward slashes.
pub(crate) fn push_posix(out: &mut Vec<String>, paths: &Vec<FilePath>)
    ensures
        texts(final(out)@) == texts(old(out)@) + path_texts(paths@).map_values(
            |t: Seq<char>| posix_form(t),
        ),
{
    let ghost before = texts(out@);
    let ghost forms = path_texts(paths@).map_values(|t: Seq<char>| posix_form(t));
    let mut i: usize = 0;
    assert(before + forms.take(0) =~= before);
    while i < paths.len()
        invariant
            i <= paths@.len(),
            forms == path_texts(paths@).map_values(|t: Seq<char>| posix_form(t)),
            texts(out@) == before + forms.take(i as int),
        decreases paths@.len() - i,
    {
        let ghost now = texts(out@);
        let text = normalize_to_posix(paths[i].text());
        out.push(text);
        assert(texts(out@) =~= now.push(text@));
        assert(forms.take(i + 1) =~= forms.take(i as int).push(text@));
        assert(texts(out@) =~= before + forms.take(i + 1));
        i = i + 1;
    }
    assert(forms.take(i as int) =~= forms);
}

impl StatDiffResult {
    /// All changed paths as texts with forward slashes: created, then modified, then deleted.
    pub fn all_changed_paths(&self) -> (paths: Vec<String>)
        ensures
            texts(paths@) == self@.changed_paths(),
    {
        let mut paths: Vec<String> = Vec::new();
        push_posix(&mut paths, &self.created);
        push_posix(&mut paths, &self.modified);
        push_posix(&mut paths, &self.deleted);
        assert(texts(paths@) =~= self@.changed_paths());
        paths
    }

    /// Whether nothing differs.
    pub fn is_empty(&self) -> (empty: bool)
        ensures
            empty == self@.nothing(),
    {
        self.created.len() == 0 && self.modified.len() == 0 && self.deleted.len() == 0
    }
}

/// A path of the later snapshot counts as created if the earlier one does not have it, and git
/// tracked it then or the rules frozen then let it through.
pub open spec fn is_created(pre: SnapshotView, path: Seq<char>) -> bool {
    &&& !has_path(pre.entries, path)
    &&& has_path(pre.tracked_files, path) || match pre.gitignore {
        Some(rules) => lets_through(rules, path, false),
        None => true,
    }
}

/// A file of the earlier snapshot counts as modified if the later one has it with another
/// fingerprint.
pub open spec fn is_modified(post: SnapshotView, path: Seq<char>, stat: StatEntry) -> bool {
    has_path(post.entries, path) && stat_of(post.entries, path) != Some(stat)
}

/// The texts of the entries that pass a test, in their order.
pub open spec fn paths_where(
    list: Entries<StatEntry>,
    test: spec_fn((Seq<char>, StatEntry)) -> bool,
) -> Seq<Seq<char>> {
    list.filter(test).map_values(|e: (Seq<char>, StatEntry)| e.0)
}

/// The difference between two snapshots.
pub open spec fn snapshot_diff(pre: SnapshotView, post: SnapshotView) -> DiffView {
    DiffView {
        created: paths_where(
            post.entries,
            |e: (Seq<char>, StatEntry)| is_created(pre, e.0),
        ),
        modified: paths_where(
            pre.entries,
            |e: (Seq<char>, StatEntry)| is_modified(post, e.0, e.1),
        ),
        deleted: paths_where(
            pre.entries,
            |e: (Seq<char>, StatEntry)| !has_path(post.entries, e.0),
        ),
    }
}

/// One more entry adds its text exactly if it passes the test.
pub proof fn lemma_paths_step(
    list: Entries<StatEntry>,
    test: spec_fn((Seq<char>, StatEntry)) -> bool,
    i: int,
)
    requires
        0 <= i < list.len(),
    ensures
        paths_where(list.take(i + 1), test) == if test(list[i]) {
            paths_where(list.take(i), test).push(list[i].0)
        } else {
            paths_where(list.take(i), test)
        },
{
    reveal(Seq::filter);
    assert(list.take(i + 1).drop_last() =~= list.take(i));
    assert(list.take(i + 1).last() == list[i]);
    if test(list[i]) {
        assert(paths_where(list.take(i + 1), test) =~= paths_where(list.take(i), test).push(
            list[i].0,
        ));
    }
}

/// No entry gives no text.
pub proof fn lemma_paths_none(
    list: Entries<StatEntry>,
    test: spec_fn((Seq<char>, StatEntry)) -> bool,
)
    ensures
        paths_where(list.take(0), test) == Seq::<Seq<char>>::empty(),
{
    reveal(Seq::filter);
    assert(list.take(0) =~= Seq::empty());
    assert(paths_where(list.take(0), test) =~= Seq::<Seq<char>>::empty());
}

fn created_paths(pre: &StatSnapshot, post: &StatSnapshot) -> (paths: Vec<FilePath>)
    ensures
        path_texts(paths@) == snapshot_diff(pre@, post@).created,
{
    let mut paths: Vec<FilePath> = Vec::new();
    let ghost list = post.entries@;
    let ghost test = |e: (Seq<char>, StatEntry)| is_created(pre@, e.0);
    let n: usize = post.entries.len();
    let mut i: usize = 0;
    proof {
        lemma_paths_none(list, test);
        assert(path_texts(paths@) =~= Seq::empty());
    }
    while i < n
        invariant
            i <= n,
            n == list.len(),
            list == post.entries@,
            test == (|e: (Seq<char>, StatEntry)| is_created(pre@, e.0)),
            path_texts(paths@) == paths_where(list.take(i as int), test),
        decreases n - i,
    {
        let path = post.entries.key_at(i);
        let ghost before = path_texts(paths@);
        let created = if pre.entries.contains(path) {
            false
        } else if pre.tracked_files.contains(path) {
            true
        } else {
            match &pre.gitignore {
                Some(rules) => should_include_new_file(rules, path, false),
                None => true,
            }
        };
        proof {
            lemma_paths_step(list, test, i as int);
            assert(created == test(list[i as int]));
        }
        if created {
            let copy = path.copy();
            paths.push(copy);
            assert(path_texts(paths@) =~= before.push(path@));
        }
        i = i + 1;
    }
    assert(list.take(i as int) =~= list);
    paths
}

fn deleted_paths(pre: &StatSnapshot, post: &StatSnapshot) -> (paths: Vec<FilePath>)
    ensures
        path_texts(paths@) == snapshot_diff(pre@, post@).deleted,
{
    let mut paths: Vec<FilePath> = Vec::new();
    let ghost list = pre.entries@;
    let ghost test = |e: (Seq<char>, StatEntry)| !has_path(post@.entries, e.0);
    let n: usize = pre.entries.len();
    let mut i: usize = 0;
    proof {
        lemma_paths_none(list, test);
        assert(path_texts(paths@) =~= Seq::empty());
    }
    while i < n
        invariant
            i <= n,
            n == list.len(),
            list == pre.entries@,
            test == (|e: (Seq<char>, StatEntry)| !has_path(post@.entries, e.0)),
            path_texts(paths@) == paths_where(list.take(i as int), test),
        decreases n - i,
    {
        let path = pre.entries.key_at(i);
        let ghost before = path_texts(paths@);
        proof {
            lemma_paths_step(list, test, i as int);
        }
        if !post.entries.contains(path) {
            let copy = path.copy();
            paths.push(copy);
            assert(path_texts(paths@) =~= before.push(path@));
        }
        i = i + 1;
    }
    assert(list.take(i as int) =~= list);
    paths
}

fn modified_paths(pre: &StatSnapshot, post: &StatSnapshot) -> (paths: Vec<FilePath>)
    ensures
        path_texts(paths@) == snapshot_diff(pre@, post@).modified,
{
    let mut paths: Vec<FilePath> = Vec::new();
    let ghost list = pre.entries@;
    let ghost test = |e: (Seq<char>, StatEntry)| is_modified(post@, e.0, e.1);
    let n: usize = pre.entries.len();
    let mut i: usize = 0;
    proof {
        lemma_paths_none(list, test);
        assert(path_texts(paths@) =~= Seq::empty());
    }
    while i < n
        invariant
            i <= n,
            n == list.len(),
            list == pre.entries@,
            test == (|e: (Seq<char>, StatEntry)| is_modified(post@, e.0, e.1)),
            path_texts(paths@) == paths_where(list.take(i as int), test),
        decreases n - i,
    {
        let path = pre.entries.key_at(i);
        let ghost before = path_texts(paths@);
        let changed = match post.entries.get(path) {
            Some(stat) => *stat != *pre.entries.value_at(i),
            None => false,
        };
        proof {
            lemma_paths_step(list, test, i as int);
            assert(changed == test(list[i as int]));
        }
        if changed {
            let copy = path.copy();
            paths.push(copy);
            assert(path_texts(paths@) =~= before.push(path@));
        }
        i = i + 1;
    }
    assert(list.take(i as int) =~= list);
    paths
}

/// Compares two snapshots: which files were created, modified and deleted, each in the order of the
/// paths. New files are held against the rules that were frozen with the earlier snapshot.
pub fn diff(pre: &StatSnapshot, post: &StatSnapshot) -> (result: StatDiffResult)
    ensures
        result@ == snapshot_diff(pre@, post@),
        pre@.in_order(),
        post@.in_order(),
{
    pre.known_in_order();
    post.known_in_order();
    StatDiffResult {
        created: created_paths(pre, post),
        modified: modified_paths(pre, post),
        deleted: deleted_paths(pre, post),
    }
}

/// The list has a path with the same components.
pub open spec fn lists(paths: Seq<Seq<char>>, path: Seq<char>) -> bool {
    exists|i: int| 0 <= i < paths.len() && path_key(#[trigger] paths[i]) == path_key(path)
}

/// The paths strictly increase.
pub open spec fn paths_in_order(paths: Seq<Seq<char>>) -> bool {
    forall|i: int, j: int|
        0 <= i < j < paths.len() ==> key_lt(path_key(#[trigger] paths[i]), path_key(
            #[trigger] paths[j],
        ))
}

/// The texts of the entries that pass a test are in order, and are those of exactly these entries.
pub proof fn lemma_paths_where(
    list: Entries<StatEntry>,
    test: spec_fn((Seq<char>, StatEntry)) -> bool,
)
    requires
        sorted::<FilePath, StatEntry>(list),
    ensures
        paths_in_order(paths_where(list, test)),
        forall|path: Seq<char>| #[trigger]
            lists(paths_where(list, test), path) <==> has_path(list, path) && test(
                entry::<FilePath, StatEntry>(list, path_key(path))->0,
            ),
{
    lemma_filter::<FilePath, StatEntry>(list, test);
    let kept = list.filter(test);
    let paths = paths_where(list, test);
    assert forall|i: int, j: int| 0 <= i < j < paths.len() implies key_lt(
        path_key(#[trigger] paths[i]),
        path_key(#[trigger] paths[j]),
    ) by {
        assert(paths[i] == kept[i].0 && paths[j] == kept[j].0);
    }
    assert forall|path: Seq<char>| #[trigger] lists(paths, path) <==> has_path(list, path) && test(
        entry::<FilePath, StatEntry>(list, path_key(path))->0,
    ) by {
        let k = path_key(path);
        assert(lists(paths, path) <==> holds::<FilePath, StatEntry>(kept, k)) by {
            if lists(paths, path) {
                let i = choose|i: int|
                    0 <= i < paths.len() && path_key(#[trigger] paths[i]) == path_key(path);
                assert(keyed_at::<FilePath, StatEntry>(kept, k, i));
            }
            if holds::<FilePath, StatEntry>(kept, k) {
                let i = choose|i: int| #[trigger] keyed_at::<FilePath, StatEntry>(kept, k, i);
                assert(path_key(paths[i]) == path_key(path));
            }
        }
    }
}

/// The three lists of a difference are each in the order of the paths, without repetition.
pub proof fn diff_lists_are_in_order(pre: SnapshotView, post: SnapshotView)
    requires
        pre.in_order(),
        post.in_order(),
    ensures
        paths_in_order(snapshot_diff(pre, post).created),
        paths_in_order(snapshot_diff(pre, post).modified),
        paths_in_order(snapshot_diff(pre, post).deleted),
{
    lemma_paths_where(post.entries, |e: (Seq<char>, StatEntry)| is_created(pre, e.0));
    lemma_paths_where(pre.entries, |e: (Seq<char>, StatEntry)| is_modified(post, e.0, e.1));
    lemma_paths_where(
        pre.entries,
        |e: (Seq<char>, StatEntry)| !has_path(post.entries, e.0),
    );
}

/// A path is listed as created only if the later snapshot alone has it, as deleted exactly if the
/// earlier one alone has it, and as modified exactly if both have it with different fingerprints;
/// so no path is in two of the lists.
pub proof fn every_path_is_listed_where_it_belongs(
    pre: SnapshotView,
    post: SnapshotView,
    path: Seq<char>,
)
    requires
        pre.in_order(),
        post.in_order(),
    ensures
        lists(snapshot_diff(pre, post).created, path) ==> has_path(post.entries, path) && !has_path(
            pre.entries,
            path,
        ),
        lists(snapshot_diff(pre, post).deleted, path) <==> has_path(pre.entries, path) && !has_path(
            post.entries,
            path,
        ),
        lists(snapshot_diff(pre, post).modified, path) <==> has_path(pre.entries, path) && has_path(
            post.entries,
            path,
        ) && stat_of(pre.entries, path) != stat_of(post.entries, path),
        !(lists(snapshot_diff(pre, post).created, path) && lists(
            snapshot_diff(pre, post).deleted,
            path,
        )),
        !(lists(snapshot_diff(pre, post).created, path) && lists(
            snapshot_diff(pre, post).modified,
            path,
        )),
        !(lists(snapshot_diff(pre, post).modified, path) && lists(
            snapshot_diff(pre, post).deleted,
            path,
        )),
{
    let k = path_key(path);
    let created = |e: (Seq<char>, StatEntry)| is_created(pre, e.0);
    let modified = |e: (Seq<char>, StatEntry)| is_modified(post, e.0, e.1);
    let deleted = |e: (Seq<char>, StatEntry)| !has_path(post.entries, e.0);
    lemma_paths_where(post.entries, created);
    lemma_paths_where(pre.entries, modified);
    lemma_paths_where(pre.entries, deleted);
    assert(lists(paths_where(post.entries, created), path) == lists(
        snapshot_diff(pre, post).created,
        path,
    ));
    assert(lists(paths_where(pre.entries, modified), path) == lists(
        snapshot_diff(pre, post).modified,
        path,
    ));
    assert(lists(paths_where(pre.entries, deleted), path) == lists(
        snapshot_diff(pre, post).deleted,
        path,
    ));
    if has_path(post.entries, path) {
        let i = choose|i: int| #[trigger]
            keyed_at::<FilePath, StatEntry>(post.entries, k, i);
        lemma_entry_at::<FilePath, StatEntry>(post.entries, i);
    }
    if has_path(pre.entries, path) {
        let i = choose|i: int| #[trigger] keyed_at::<FilePath, StatEntry>(pre.entries, k, i);
        lemma_entry_at::<FilePath, StatEntry>(pre.entries, i);
    }
}

/// A file that only the later snapshot has is listed as created if git tracked it, whatever the
/// rules say, and otherwise exactly if the frozen rules let it through.
pub proof fn new_files_are_listed_unless_ignored(pre: SnapshotView, post: SnapshotView, i: int)
    requires
        pre.in_order(),
        post.in_order(),
        0 <= i < post.entries.len(),
        !has_path(pre.entries, post.entries[i].0),
    ensures
        has_path(pre.tracked_files, post.entries[i].0) ==> lists(
            snapshot_diff(pre, post).created,
            post.entries[i].0,
        ),
        !has_path(pre.tracked_files, post.entries[i].0) ==> (lists(
            snapshot_diff(pre, post).created,
            post.entries[i].0,
        ) <==> (pre.gitignore matches Some(rules) ==> lets_through(
            rules,
            post.entries[i].0,
            false,
        ))),
{
    let created = |e: (Seq<char>, StatEntry)| is_created(pre, e.0);
    lemma_paths_where(post.entries, created);
    lemma_entry_at::<FilePath, StatEntry>(post.entries, i);
    assert(lists(paths_where(post.entries, created), post.entries[i].0) == lists(
        snapshot_diff(pre, post).created,
        post.entries[i].0,
    ));
}

/// Every file that only the later entries have is tracked or let through by the rules.
pub open spec fn new_files_count(pre: SnapshotView, post: SnapshotView) -> bool {
    forall|i: int|
        0 <= i < post.entries.len() && !has_path(pre.entries, (#[trigger] post.entries[i]).0)
            ==> has_path(pre.tracked_files, post.entries[i].0) || (pre.gitignore matches Some(rules)
            ==> lets_through(rules, post.entries[i].0, false))
}

/// If the rules exclude no new file, a path is listed as created exactly if the later snapshot alone has
/// it.
pub proof fn all_new_files_are_listed(pre: SnapshotView, post: SnapshotView, path: Seq<char>)
    requires
        pre.in_order(),
        post.in_order(),
        new_files_count(pre, post),
    ensures
        lists(snapshot_diff(pre, post).created, path) <==> has_path(post.entries, path)
            && !has_path(pre.entries, path),
{
    every_path_is_listed_where_it_belongs(pre, post, path);
    if has_path(post.entries, path) && !has_path(pre.entries, path) {
        let k = path_key(path);
        let created = snapshot_diff(pre, post).created;
        let i = choose|i: int| #[trigger] keyed_at::<FilePath, StatEntry>(post.entries, k, i);
        new_files_are_listed_unless_ignored(pre, post, i);
        assert(lists(created, post.entries[i].0));
        let m = choose|m: int|
            0 <= m < created.len() && path_key(#[trigger] created[m]) == path_key(
                post.entries[i].0,
            );
        assert(path_key(created[m]) == k);
    }
}

/// Two snapshots with the same entries do not differ.
pub proof fn unchanged_tree_has_no_difference(pre: SnapshotView, post: SnapshotView)
    requires
        pre.in_order(),
        post.in_order(),
        post.entries == pre.entries,
    ensures
        snapshot_diff(pre, post).nothing(),
        snapshot_diff(pre, post).changed_paths().len() == 0,
{
    let d = snapshot_diff(pre, post);
    if d.created.len() > 0 {
        every_path_is_listed_where_it_belongs(pre, post, d.created[0]);
        assert(lists(d.created, d.created[0]));
    }
    if d.modified.len() > 0 {
        every_path_is_listed_where_it_belongs(pre, post, d.modified[0]);
        assert(lists(d.modified, d.modified[0]));
    }
    if d.deleted.len() > 0 {
        every_path_is_listed_where_it_belongs(pre, post, d.deleted[0]);
        assert(lists(d.deleted, d.deleted[0]));
    }
}

/// Two snapshots do not differ exactly if the same fingerprint, or none, is found in both under every
/// path, as long as the rules exclude no new file.
pub proof fn no_difference_means_the_same_files(pre: SnapshotView, post: SnapshotView)
    requires
        pre.in_order(),
        post.in_order(),
        new_files_count(pre, post),
    ensures
        snapshot_diff(pre, post).nothing() <==> forall|path: Seq<char>| #[trigger]
            stat_of(pre.entries, path) == stat_of(post.entries, path),
{
    let d = snapshot_diff(pre, post);
    if d.nothing() {
        assert forall|path: Seq<char>| #[trigger] stat_of(pre.entries, path) == stat_of(
            post.entries,
            path,
        ) by {
            every_path_is_listed_where_it_belongs(pre, post, path);
            all_new_files_are_listed(pre, post, path);
            assert(!lists(d.created, path) && !lists(d.modified, path) && !lists(d.deleted, path));
        }
    }
    if forall|path: Seq<char>| #[trigger]
        stat_of(pre.entries, path) == stat_of(post.entries, path) {
        if d.created.len() > 0 {
            let path = d.created[0];
            every_path_is_listed_where_it_belongs(pre, post, path);
            assert(lists(d.created, path));
            assert(stat_of(pre.entries, path) == stat_of(post.entries, path));
        }
        if d.modified.len() > 0 {
            let path = d.modified[0];
            every_path_is_listed_where_it_belongs(pre, post, path);
            assert(lists(d.modified, path));
            assert(stat_of(pre.entries, path) == stat_of(post.entries, path));
        }
        if d.deleted.len() > 0 {
            let path = d.deleted[0];
            every_path_is_listed_where_it_belongs(pre, post, path);
            assert(lists(d.deleted, path));
            assert(stat_of(pre.entries, path) == stat_of(post.entries, path));
        }
    }
}

/// Exchanging the snapshots leaves the modified files the same.
pub proof fn modification_is_the_same_both_ways(
    pre: SnapshotView,
    post: SnapshotView,
    path: Seq<char>,
)
    requires
        pre.in_order(),
        post.in_order(),
    ensures
        lists(snapshot_diff(pre, post).modified, path) <==> lists(
            snapshot_diff(post, pre).modified,
            path,
        ),
{
    every_path_is_listed_where_it_belongs(pre, post, path);
    every_path_is_listed_where_it_belongs(post, pre, path);
}

/// A difference is empty exactly if it names no changed path.
pub proof fn nothing_means_no_changed_path(diff: DiffView)
    ensures
        diff.nothing() <==> diff.changed_paths().len() == 0,
{
}

/// Exchanging the snapshots turns what was deleted into what was created, as long as no rules
/// exclude new files.
pub proof fn deletion_seen_backwards_is_creation(pre: SnapshotView, post: SnapshotView)
    requires
        post.gitignore is None,
    ensures
        snapshot_diff(post, pre).created == snapshot_diff(pre, post).deleted,
{
    let created = |e: (Seq<char>, StatEntry)| is_created(post, e.0);
    let deleted = |e: (Seq<char>, StatEntry)| !has_path(post.entries, e.0);
    assert(created =~= deleted);
}

/// The texts of the entries that pass a test are those of all entries that pass it, and of no other.
pub proof fn passing_entries_are_listed(
    list: Entries<StatEntry>,
    test: spec_fn((Seq<char>, StatEntry)) -> bool,
)
    ensures
        forall|i: int|
            0 <= i < list.len() && test(#[trigger] list[i]) ==> paths_where(list, test).contains(
                list[i].0,
            ),
        forall|path: Seq<char>| #[trigger]
            paths_where(list, test).contains(path) ==> exists|i: int|
                0 <= i < list.len() && test(#[trigger] list[i]) && list[i].0 == path,
    decreases list.len(),
{
    reveal(Seq::filter);
    let all = paths_where(list, test);
    if list.len() > 0 {
        let before = list.drop_last();
        let old = paths_where(before, test);
        passing_entries_are_listed(before, test);
        if test(list.last()) {
            assert(all =~= old.push(list.last().0));
        } else {
            assert(all =~= old);
        }
        assert forall|i: int| 0 <= i < list.len() && test(#[trigger] list[i]) implies all.contains(
            list[i].0,
        ) by {
            if i < before.len() {
                assert(before[i] == list[i]);
                let k = choose|k: int| 0 <= k < old.len() && old[k] == list[i].0;
                assert(all[k] == list[i].0);
            } else {
                assert(all[all.len() - 1] == list[i].0);
            }
        }
        assert forall|path: Seq<char>| #[trigger] all.contains(path) implies exists|i: int|
            0 <= i < list.len() && test(#[trigger] list[i]) && list[i].0 == path by {
            let k = choose|k: int| 0 <= k < all.len() && all[k] == path;
            if k < old.len() {
                assert(old[k] == path);
                assert(old.contains(path));
                let i = choose|i: int|
                    0 <= i < before.len() && test(#[trigger] before[i]) && before[i].0 == path;
                assert(list[i] == before[i]);
            } else {
                assert(list[list.len() - 1].0 == path);
            }
        }
    } else {
        assert(all =~= Seq::empty());
    }
}

/// A difference shows the texts of its paths.
pub proof fn differences_show_their_paths(result: StatDiffResult)
    ensures
        result@.created == path_texts(result.created@),
        result@.modified == path_texts(result.modified@),
        result@.deleted == path_texts(result.deleted@),
{
}

/// The changed paths are the created, then the modified, then the deleted ones, each with forward
/// slashes; nothing differs exactly if there is none of either.
pub proof fn every_listed_path_is_changed(d: DiffView)
    ensures
        d.changed_paths().len() == d.created.len() + d.modified.len() + d.deleted.len(),
        forall|i: int|
            0 <= i < d.created.len() ==> d.changed_paths()[i] == posix_form(#[trigger] d.created[i]),
        forall|i: int|
            0 <= i < d.modified.len() ==> d.changed_paths()[d.created.len() + i] == posix_form(
                #[trigger] d.modified[i],
            ),
        forall|i: int|
            0 <= i < d.deleted.len() ==> d.changed_paths()[d.created.len() + d.modified.len() + i]
                == posix_form(#[trigger] d.deleted[i]),
        d.nothing() <==> d.created.len() == 0 && d.modified.len() == 0 && d.deleted.len() == 0,
{
}

/// A file of the later snapshot is listed as created, by its own text, exactly if the earlier one has
/// no file with the same components, and git tracked it, or no rules were frozen, or they do not
/// ignore it. Nothing else is listed as created.
pub proof fn new_files_are_created(pre: SnapshotView, post: SnapshotView, i: int)
    requires
        0 <= i < post.entries.len(),
    ensures
        snapshot_diff(pre, post).created.contains(post.entries[i].0) <==> {
            &&& forall|m: int|
                0 <= m < pre.entries.len() ==> path_key((#[trigger] pre.entries[m]).0) != path_key(
                    post.entries[i].0,
                )
            &&& {
                ||| exists|t: int|
                    0 <= t < pre.tracked_files.len() && path_key((#[trigger] pre.tracked_files[t]).0)
                        == path_key(post.entries[i].0)
                ||| pre.gitignore is None
                ||| match_verdict(
                    pre.gitignore->0.root,
                    pre.gitignore->0.globs,
                    post.entries[i].0,
                    false,
                ) != IgnoreMatch::Ignore
            }
        },
        forall|path: Seq<char>| #[trigger]
            snapshot_diff(pre, post).created.contains(path) ==> exists|m: int|
                0 <= m < post.entries.len() && (#[trigger] post.entries[m]).0 == path,
{
    let path = post.entries[i].0;
    let test = |e: (Seq<char>, StatEntry)| is_created(pre, e.0);
    let created = snapshot_diff(pre, post).created;
    passing_entries_are_listed(post.entries, test);
    assert(created == paths_where(post.entries, test));
    entries_are_found::<FilePath, StatEntry>(pre.entries, path_key(path));
    entries_are_found::<FilePath, ()>(pre.tracked_files, path_key(path));
    if is_created(pre, path) {
        assert(test(post.entries[i]));
    }
    assert forall|p: Seq<char>| #[trigger] created.contains(p) implies exists|m: int|
        0 <= m < post.entries.len() && (#[trigger] post.entries[m]).0 == p && is_created(pre, p) by {
        let m = choose|m: int|
            0 <= m < post.entries.len() && test(#[trigger] post.entries[m]) && post.entries[m].0
                == p;
        assert(post.entries[m].0 == p);
    }
}

/// A file of the earlier snapshot is listed as deleted, by its own text, exactly if the later one has
/// no file with the same components, and as modified exactly if it has one with another fingerprint.
/// Nothing else is listed as either.
pub proof fn old_files_are_deleted_or_modified(pre: SnapshotView, post: SnapshotView, i: int)
    requires
        pre.in_order(),
        post.in_order(),
        0 <= i < pre.entries.len(),
    ensures
        snapshot_diff(pre, post).deleted.contains(pre.entries[i].0) <==> forall|m: int|
            0 <= m < post.entries.len() ==> path_key((#[trigger] post.entries[m]).0) != path_key(
                pre.entries[i].0,
            ),
        snapshot_diff(pre, post).modified.contains(pre.entries[i].0) <==> exists|m: int|
            0 <= m < post.entries.len() && path_key((#[trigger] post.entries[m]).0) == path_key(
                pre.entries[i].0,
            ) && post.entries[m].1 != pre.entries[i].1,
        forall|path: Seq<char>| #[trigger]
            snapshot_diff(pre, post).deleted.contains(path) ==> exists|m: int|
                0 <= m < pre.entries.len() && (#[trigger] pre.entries[m]).0 == path,
        forall|path: Seq<char>| #[trigger]
            snapshot_diff(pre, post).modified.contains(path) ==> exists|m: int|
                0 <= m < pre.entries.len() && (#[trigger] pre.entries[m]).0 == path,
{
    let path = pre.entries[i].0;
    let stat = pre.entries[i].1;
    let k = path_key(path);
    let gone = |e: (Seq<char>, StatEntry)| !has_path(post.entries, e.0);
    let other = |e: (Seq<char>, StatEntry)| is_modified(post, e.0, e.1);
    let deleted = snapshot_diff(pre, post).deleted;
    let modified = snapshot_diff(pre, post).modified;
    passing_entries_are_listed(pre.entries, gone);
    passing_entries_are_listed(pre.entries, other);
    assert(deleted == paths_where(pre.entries, gone));
    assert(modified == paths_where(pre.entries, other));
    entries_are_found::<FilePath, StatEntry>(post.entries, k);
    assert forall|p: Seq<char>| #[trigger] deleted.contains(p) implies exists|m: int|
        0 <= m < pre.entries.len() && (#[trigger] pre.entries[m]).0 == p && gone(pre.entries[m]) by {
        let m = choose|m: int|
            0 <= m < pre.entries.len() && gone(#[trigger] pre.entries[m]) && pre.entries[m].0 == p;
        assert(pre.entries[m].0 == p);
    }
    assert forall|p: Seq<char>| #[trigger] modified.contains(p) implies exists|m: int|
        0 <= m < pre.entries.len() && (#[trigger] pre.entries[m]).0 == p && other(pre.entries[m]) by {
        let m = choose|m: int|
            0 <= m < pre.entries.len() && other(#[trigger] pre.entries[m]) && pre.entries[m].0 == p;
        assert(pre.entries[m].0 == p);
    }
    lemma_entry_at::<FilePath, StatEntry>(pre.entries, i);
    if modified.contains(path) {
        let m = choose|m: int|
            0 <= m < pre.entries.len() && (#[trigger] pre.entries[m]).0 == path && other(
                pre.entries[m],
            );
        lemma_entry_at::<FilePath, StatEntry>(pre.entries, m);
        assert(pre.entries[m].1 == stat);
    }
    if exists|m: int|
        0 <= m < post.entries.len() && path_key((#[trigger] post.entries[m]).0) == k
            && post.entries[m].1 != stat {
        let m = choose|m: int|
            0 <= m < post.entries.len() && path_key((#[trigger] post.entries[m]).0) == k
                && post.entries[m].1 != stat;
        lemma_entry_at::<FilePath, StatEntry>(post.entries, m);
        assert(other(pre.entries[i]));
    }
    if !has_path(post.entries, path) {
        assert(gone(pre.entries[i]));
    }
}

/// A list has a path if some item of it has the same components; a list in order has them strictly
/// increasing.
pub proof fn lists_go_by_components(paths: Seq<Seq<char>>, path: Seq<char>)
    ensures
        lists(paths, path) <==> exists|i: int|
            0 <= i < paths.len() && path_key(#[trigger] paths[i]) == path_key(path),
        paths_in_order(paths) <==> forall|i: int, j: int|
            0 <= i < j < paths.len() ==> key_lt(
                path_key(#[trigger] paths[i]),
                path_key(#[trigger] paths[j]),
            ),
{
}

} // verus!
