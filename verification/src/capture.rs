//! Captured checkpoints: which files are captured, with which contents, and under which name.

use vstd::prelude::*;
use vstd::utf8::*;

use crate::diff::{lists, paths_in_order};
use crate::error::GitAiError;
use crate::order::key_lt;
use crate::path::{path_key, path_texts, FilePath};
use crate::sorted_map::{entries_are_found, holds, keyed_at, lemma_put_all, lemma_put_all_holds};
use crate::sorted_map::{only_items_are_stored, put_all, text_key, texts_are_their_own_keys, Entries};
use crate::sorted_map::SortedMap;
use crate::text::{ascii_lower, normalize_to_posix, posix_form, same_ignoring_ascii_case, texts};
use crate::watermark::DaemonWatermarks;

verus! {

/// The most stale files that are captured.
pub const MAX_STALE_FILES_FOR_CAPTURE: usize = 1000;

/// The largest file, in bytes, that is captured.
pub const MAX_CAPTURE_FILE_SIZE: u64 = 10 * 1024 * 1024;

/// The text says yes to delegation.
pub open spec fn is_yes(text: Seq<char>) -> bool {
    let small = text.map_values(|c: char| ascii_lower(c));
    small == "1"@ || small == "true"@ || small == "yes"@
}

/// Whether checkpoints are delegated to the daemon: in asynchronous mode, or if the variable
/// `GIT_AI_DAEMON_CHECKPOINT_DELEGATE` says so.
pub fn captured_checkpoint_delegate_enabled(async_mode: bool, variable: Option<&str>) -> (yes: bool)
    ensures
        yes == (async_mode || match variable {
            Some(text) => is_yes(text@),
            None => false,
        }),
{
    if async_mode {
        return true;
    }
    match variable {
        Some(text) => same_ignoring_ascii_case(text, "1") || same_ignoring_ascii_case(text, "true")
            || same_ignoring_ascii_case(text, "yes"),
        None => false,
    }
}

/// What was read of a file: its size, unless its metadata could not be read, and its text, unless it
/// was not read or is no text.
pub struct FileRead {
    pub path: FilePath,
    pub size: Option<u64>,
    pub content: Option<String>,
}

/// A file of this size is captured.
pub open spec fn is_small(size: Option<u64>) -> bool {
    match size {
        Some(bytes) => bytes <= MAX_CAPTURE_FILE_SIZE,
        None => false,
    }
}

/// Whether a file of the given size is worth reading.
pub fn should_read_for_capture(size: Option<u64>) -> (read: bool)
    ensures
        read == is_small(size),
{
    match size {
        Some(bytes) => bytes <= MAX_CAPTURE_FILE_SIZE,
        None => false,
    }
}

/// The contents of the files that are captured, under their paths with forward slashes.
pub open spec fn captured(reads: Seq<FileRead>) -> Entries<String> {
    reads.filter(|r: FileRead| is_small(r.size) && r.content is Some).map_values(
        |r: FileRead| (posix_form(r.path@), r.content->0),
    )
}

/// Collects the contents of the files that could be read and are not too large.
pub fn capture_file_contents(reads: Vec<FileRead>) -> (contents: SortedMap<String, String>)
    ensures
        contents@ == put_all::<String, String>(Seq::empty(), captured(reads@)),
{
    let mut items: Vec<(String, String)> = Vec::new();
    let ghost all = reads@;
    proof {
        reveal(Seq::filter);
        assert(all.take(0) =~= Seq::empty());
        assert(items@.map_values(|e: (String, String)| (e.0@, e.1)) =~= captured(all.take(0)));
    }
    for read in it: reads
        invariant
            it.seq() == all,
            items@.map_values(|e: (String, String)| (e.0@, e.1)) == captured(
                all.take(it.index() as int),
            ),
    {
        let ghost i = it.index() as int;
        let ghost before = items@.map_values(|e: (String, String)| (e.0@, e.1));
        proof {
            reveal(Seq::filter);
            assert(all.take(i + 1).drop_last() =~= all.take(i));
            assert(all.take(i + 1).last() == read);
        }
        if should_read_for_capture(read.size) {
            match read.content {
                Some(content) => {
                    let key = normalize_to_posix(read.path.text());
                    items.push((key, content));
                    assert(items@.map_values(|e: (String, String)| (e.0@, e.1)) =~= before.push(
                        (key@, content),
                    ));
                    assert(captured(all.take(i + 1)) =~= before.push((key@, content)));
                },
                None => {},
            }
        }
    }
    assert(all.take(all.len() as int) =~= all);
    SortedMap::from_entries(items)
}

/// Paths as the members of a set.
pub open spec fn units(paths: Seq<Seq<char>>) -> Entries<()> {
    paths.map_values(|p: Seq<char>| (p, ()))
}

/// The paths that have no watermark of their own.
pub open spec fn unmarked(per_file: Entries<u128>, paths: Seq<Seq<char>>) -> Seq<Seq<char>> {
    paths.filter(|p: Seq<char>| !holds::<String, u128>(per_file, text_key(posix_form(p))))
}

/// The stale files together with the dirty ones that have no watermark of their own, in order and
/// without repetition.
pub open spec fn with_dirty(
    stale: Seq<Seq<char>>,
    per_file: Entries<u128>,
    dirty: Seq<Seq<char>>,
) -> Seq<Seq<char>> {
    put_all::<FilePath, ()>(
        Seq::empty(),
        units(stale) + units(unmarked(per_file, dirty)),
    ).map_values(|e: (Seq<char>, ())| e.0)
}

/// Adds the dirty files that no watermark of their own covers to the stale files.
pub fn add_dirty_files(
    stale: &Vec<FilePath>,
    marks: &DaemonWatermarks,
    dirty: &Vec<String>,
) -> (paths: Vec<FilePath>)
    ensures
        path_texts(paths@) == with_dirty(path_texts(stale@), marks@.per_file, texts(dirty@)),
{
    let mut items: Vec<(FilePath, ())> = Vec::new();
    let ghost view = |e: (FilePath, ())| (e.0@, e.1);
    let ghost first = units(path_texts(stale@));
    let mut i: usize = 0;
    while i < stale.len()
        invariant
            i <= stale@.len(),
            first == units(path_texts(stale@)),
            items@.len() == i,
            forall|j: int| 0 <= j < i ==> (#[trigger] items@[j]).0@ == first[j].0,
        decreases stale@.len() - i,
    {
        items.push((stale[i].copy(), ()));
        i = i + 1;
    }
    let ghost names = texts(dirty@);
    let ghost per_file = marks@.per_file;
    let mut k: usize = 0;
    proof {
        reveal(Seq::filter);
        assert(items@.map_values(view) =~= first);
        assert(names.take(0) =~= Seq::empty());
        assert(units(unmarked(per_file, names.take(0))) =~= Seq::empty());
        assert(first + units(unmarked(per_file, names.take(0))) =~= first);
    }
    while k < dirty.len()
        invariant
            k <= dirty@.len(),
            view == (|e: (FilePath, ())| (e.0@, e.1)),
            names == texts(dirty@),
            per_file == marks@.per_file,
            items@.map_values(view) == first + units(unmarked(per_file, names.take(k as int))),
        decreases dirty@.len() - k,
    {
        let ghost before = items@.map_values(view);
        let name = &dirty[k];
        proof {
            reveal(Seq::filter);
            assert(names.take(k + 1).drop_last() =~= names.take(k as int));
            assert(names.take(k + 1).last() == name@);
        }
        let key = normalize_to_posix(name.as_str());
        if !marks.per_file.contains(&key) {
            let path = FilePath::new(name.as_str());
            items.push((path, ()));
            assert(items@.map_values(view) =~= before.push((name@, ())));
            assert(first + units(unmarked(per_file, names.take(k + 1))) =~= before.push(
                (name@, ()),
            ));
        }
        k = k + 1;
    }
    assert(names.take(k as int) =~= names);
    let set: SortedMap<FilePath, ()> = SortedMap::from_entries(items);
    let ghost sorted_texts = set@.map_values(|e: (Seq<char>, ())| e.0);
    let mut paths: Vec<FilePath> = Vec::new();
    let n: usize = set.len();
    let mut m: usize = 0;
    while m < n
        invariant
            m <= n,
            n == set@.len(),
            sorted_texts == set@.map_values(|e: (Seq<char>, ())| e.0),
            paths@.len() == m,
            forall|j: int| 0 <= j < m ==> (#[trigger] paths@[j])@ == sorted_texts[j],
        decreases n - m,
    {
        paths.push(set.key_at(m).copy());
        m = m + 1;
    }
    assert(path_texts(paths@) =~= sorted_texts);
    paths
}

/// The merged list is in order and without repetition. It has every stale file, and a dirty file
/// exactly if it is stale or no watermark of its own covers it.
pub proof fn dirty_files_are_added(
    stale: Seq<Seq<char>>,
    per_file: Entries<u128>,
    dirty: Seq<Seq<char>>,
)
    ensures
        paths_in_order(with_dirty(stale, per_file, dirty)),
        forall|path: Seq<char>| #[trigger]
            lists(with_dirty(stale, per_file, dirty), path) <==> lists(stale, path) || lists(
                unmarked(per_file, dirty),
                path,
            ),
{
    let more = unmarked(per_file, dirty);
    let items = units(stale) + units(more);
    let none: Entries<()> = Seq::empty();
    let set = put_all::<FilePath, ()>(none, items);
    let all = with_dirty(stale, per_file, dirty);
    lemma_put_all::<FilePath, ()>(none, items);
    lemma_put_all_holds::<FilePath, ()>(none, items);
    assert forall|i: int, j: int| 0 <= i < j < all.len() implies key_lt(
        path_key(#[trigger] all[i]),
        path_key(#[trigger] all[j]),
    ) by {
        assert(all[i] == set[i].0 && all[j] == set[j].0);
    }
    assert forall|path: Seq<char>| #[trigger] lists(all, path) <==> lists(stale, path) || lists(
        more,
        path,
    ) by {
        let k = path_key(path);
        assert(!holds::<FilePath, ()>(none, k));
        assert(holds::<FilePath, ()>(set, k) <==> holds::<FilePath, ()>(items, k));
        if lists(all, path) {
            let i = choose|i: int| 0 <= i < all.len() && path_key(#[trigger] all[i]) == k;
            assert(keyed_at::<FilePath, ()>(set, k, i));
            let j = choose|j: int| #[trigger] keyed_at::<FilePath, ()>(items, k, j);
            if j < stale.len() {
                assert(items[j].0 == stale[j]);
            } else {
                assert(items[j].0 == more[j - stale.len()]);
            }
        }
        if lists(stale, path) {
            let i = choose|i: int| 0 <= i < stale.len() && path_key(#[trigger] stale[i]) == k;
            assert(keyed_at::<FilePath, ()>(items, k, i));
        }
        if lists(more, path) {
            let i = choose|i: int| 0 <= i < more.len() && path_key(#[trigger] more[i]) == k;
            assert(keyed_at::<FilePath, ()>(items, k, stale.len() + i));
        }
        if holds::<FilePath, ()>(items, k) {
            let i = choose|i: int| #[trigger] keyed_at::<FilePath, ()>(set, k, i);
            assert(all[i] == set[i].0);
        }
    }
}

/// Who made a change.
pub struct AgentId {
    pub tool: String,
    pub id: String,
    pub model: String,
}

/// What kind of editing a checkpoint records.
#[derive(Debug, Clone, Copy, PartialEq, Eq, Structural)]
pub enum CheckpointKind {
    Human,
    AiAgent,
}

/// What a checkpoint is made of. Of an agent run, the parts that a shell tool never has, a
/// transcript and metadata, are left out.
pub struct AgentRunResult {
    pub agent_id: AgentId,
    pub checkpoint_kind: CheckpointKind,
    pub repo_working_dir: Option<String>,
    pub edited_filepaths: Option<Vec<String>>,
    pub will_edit_filepaths: Option<Vec<String>>,
    pub dirty_files: Option<SortedMap<String, String>>,
    pub captured_checkpoint_id: Option<String>,
}

/// A request to prepare a captured checkpoint.
pub struct CheckpointRequest {
    pub author: String,
    pub kind: CheckpointKind,
    pub run: AgentRunResult,
    pub is_pre_commit: bool,
    pub base_commit_override: Option<String>,
}

/// An agent run by its contents.
pub struct RunView {
    pub tool: Seq<char>,
    pub id: Seq<char>,
    pub model: Seq<char>,
    pub checkpoint_kind: CheckpointKind,
    pub repo_working_dir: Option<Seq<char>>,
    pub edited_filepaths: Option<Seq<Seq<char>>>,
    pub will_edit_filepaths: Option<Seq<Seq<char>>>,
    pub dirty_files: Option<Entries<String>>,
    pub captured_checkpoint_id: Option<Seq<char>>,
}

/// A request by its contents.
pub struct RequestView {
    pub author: Seq<char>,
    pub kind: CheckpointKind,
    pub run: RunView,
    pub is_pre_commit: bool,
    pub base_commit_override: Option<Seq<char>>,
}

/// The text of a string that may be missing.
pub open spec fn optional_text(text: Option<String>) -> Option<Seq<char>> {
    match text {
        Some(t) => Some(t@),
        None => None,
    }
}

/// The texts of a list that may be missing.
pub open spec fn optional_texts(list: Option<Vec<String>>) -> Option<Seq<Seq<char>>> {
    match list {
        Some(l) => Some(texts(l@)),
        None => None,
    }
}

impl View for AgentRunResult {
    type V = RunView;

    open spec fn view(&self) -> RunView {
        RunView {
            tool: self.agent_id.tool@,
            id: self.agent_id.id@,
            model: self.agent_id.model@,
            checkpoint_kind: self.checkpoint_kind,
            repo_working_dir: optional_text(self.repo_working_dir),
            edited_filepaths: optional_texts(self.edited_filepaths),
            will_edit_filepaths: optional_texts(self.will_edit_filepaths),
            dirty_files: match self.dirty_files {
                Some(files) => Some(files@),
                None => None,
            },
            captured_checkpoint_id: optional_text(self.captured_checkpoint_id),
        }
    }
}

impl View for CheckpointRequest {
    type V = RequestView;

    open spec fn view(&self) -> RequestView {
        RequestView {
            author: self.author@,
            kind: self.kind,
            run: self.run@,
            is_pre_commit: self.is_pre_commit,
            base_commit_override: optional_text(self.base_commit_override),
        }
    }
}

/// The request of a hook: before the tool runs, the paths are those that it will edit, and what is
/// found in them is a human's work; afterwards they are those that it edited.
pub open spec fn hook_request(
    kind: CheckpointKind,
    repo_root: Seq<char>,
    paths: Seq<Seq<char>>,
    contents: Entries<String>,
) -> RequestView {
    RequestView {
        author: "bash-tool"@,
        kind,
        run: RunView {
            tool: "bash-tool"@,
            id: match kind {
                CheckpointKind::Human => "pre-hook"@,
                CheckpointKind::AiAgent => "post-hook"@,
            },
            model: Seq::empty(),
            checkpoint_kind: kind,
            repo_working_dir: Some(repo_root),
            edited_filepaths: match kind {
                CheckpointKind::Human => None,
                CheckpointKind::AiAgent => Some(paths),
            },
            will_edit_filepaths: match kind {
                CheckpointKind::Human => Some(paths),
                CheckpointKind::AiAgent => None,
            },
            dirty_files: Some(contents),
            captured_checkpoint_id: None,
        },
        is_pre_commit: false,
        base_commit_override: None,
    }
}

/// Makes the request of a hook.
pub fn checkpoint_request(
    kind: CheckpointKind,
    repo_root: &str,
    paths: Vec<String>,
    contents: SortedMap<String, String>,
) -> (request: CheckpointRequest)
    ensures
        request@ == hook_request(kind, repo_root@, texts(paths@), contents@),
{
    let (id, edited, will_edit) = match kind {
        CheckpointKind::Human => ("pre-hook", None, Some(paths)),
        CheckpointKind::AiAgent => ("post-hook", Some(paths), None),
    };
    let model = String::new();
    assert(model@ =~= Seq::empty());
    CheckpointRequest {
        author: "bash-tool".to_owned(),
        kind,
        run: AgentRunResult {
            agent_id: AgentId { tool: "bash-tool".to_owned(), id: id.to_owned(), model },
            checkpoint_kind: kind,
            repo_working_dir: Some(repo_root.to_owned()),
            edited_filepaths: edited,
            will_edit_filepaths: will_edit,
            dirty_files: Some(contents),
            captured_checkpoint_id: None,
        },
        is_pre_commit: false,
        base_commit_override: None,
    }
}

/// A captured checkpoint that was prepared.
pub struct PreparedCheckpoint {
    pub capture_id: String,
    pub repo_working_dir: String,
    pub file_count: usize,
}

/// A captured checkpoint that is to be submitted.
pub struct CapturedCheckpointInfo {
    pub capture_id: String,
    pub repo_working_dir: String,
}

/// A captured checkpoint by its contents.
pub struct InfoView {
    pub capture_id: Seq<char>,
    pub repo_working_dir: Seq<char>,
}

impl View for PreparedCheckpoint {
    type V = InfoView;

    open spec fn view(&self) -> InfoView {
        InfoView { capture_id: self.capture_id@, repo_working_dir: self.repo_working_dir@ }
    }
}

impl View for CapturedCheckpointInfo {
    type V = InfoView;

    open spec fn view(&self) -> InfoView {
        InfoView { capture_id: self.capture_id@, repo_working_dir: self.repo_working_dir@ }
    }
}

/// The checkpoint of a preparation: a failure counts as none.
pub open spec fn prepared_info(
    prepared: Result<Option<PreparedCheckpoint>, GitAiError>,
) -> Option<InfoView> {
    match prepared {
        Ok(Some(checkpoint)) => Some(checkpoint@),
        _ => None,
    }
}

/// Takes over a captured checkpoint that was prepared; a failure counts as none.
pub fn captured_info(prepared: Result<Option<PreparedCheckpoint>, GitAiError>) -> (info: Option<
    CapturedCheckpointInfo,
>)
    ensures
        match info {
            Some(i) => prepared_info(prepared) == Some(i@),
            None => prepared_info(prepared) is None,
        },
{
    match prepared {
        Ok(Some(checkpoint)) => Some(
            CapturedCheckpointInfo {
                capture_id: checkpoint.capture_id,
                repo_working_dir: checkpoint.repo_working_dir,
            },
        ),
        _ => None,
    }
}

proof fn lemma_letter(c: char, small: char, capital: char)
    requires
        'a' <= small <= 'z',
        capital as u32 + 32 == small as u32,
    ensures
        ascii_lower(c) == small <==> c == small || c == capital,
{
    char_u32_cast(small, small as u32);
    char_u32_cast(c, c as u32);
    if 'A' <= c <= 'Z' {
        let u: u32 = ((c as u32) + 32) as u32;
        char_u32_cast(ascii_lower(c), u);
        char_u32_cast(capital, capital as u32);
    }
}

/// The variable says yes exactly if it is `1`, or `true` or `yes` in capital or small letters.
pub proof fn one_true_and_yes_say_yes(text: Seq<char>)
    ensures
        is_yes(text) <==> {
            ||| text.len() == 1 && text[0] == '1'
            ||| text.len() == 4 && (text[0] == 't' || text[0] == 'T') && (text[1] == 'r' || text[1]
                == 'R') && (text[2] == 'u' || text[2] == 'U') && (text[3] == 'e' || text[3] == 'E')
            ||| text.len() == 3 && (text[0] == 'y' || text[0] == 'Y') && (text[1] == 'e' || text[1]
                == 'E') && (text[2] == 's' || text[2] == 'S')
        },
{
    reveal_strlit("1");
    reveal_strlit("true");
    reveal_strlit("yes");
    let small = text.map_values(|c: char| ascii_lower(c));
    assert forall|c: char| #[trigger] ascii_lower(c) == '1' <==> c == '1' by {
        if 'A' <= c <= 'Z' {
            let u: u32 = ((c as u32) + 32) as u32;
            char_u32_cast(ascii_lower(c), u);
        }
    }
    if text.len() > 0 {
        lemma_letter(text[0], 't', 'T');
        lemma_letter(text[0], 'y', 'Y');
    }
    if text.len() > 1 {
        lemma_letter(text[1], 'r', 'R');
        lemma_letter(text[1], 'e', 'E');
    }
    if text.len() > 2 {
        lemma_letter(text[2], 'u', 'U');
        lemma_letter(text[2], 's', 'S');
    }
    if text.len() > 3 {
        lemma_letter(text[3], 'e', 'E');
    }
    assert(small.len() == text.len());
    assert forall|i: int| 0 <= i < text.len() implies small[i] == ascii_lower(#[trigger] text[i]) by {}
    if small == "1"@ {
        assert(small[0] == '1');
    }
    if small == "true"@ {
        assert(small[0] == 't' && small[1] == 'r' && small[2] == 'u' && small[3] == 'e');
    }
    if small == "yes"@ {
        assert(small[0] == 'y' && small[1] == 'e' && small[2] == 's');
    }
    if text.len() == 1 && text[0] == '1' {
        assert(small =~= "1"@);
    }
    if text.len() == 4 && small[0] == 't' && small[1] == 'r' && small[2] == 'u' && small[3] == 'e' {
        assert(small =~= "true"@);
    }
    if text.len() == 3 && small[0] == 'y' && small[1] == 'e' && small[2] == 's' {
        assert(small =~= "yes"@);
    }
}

/// One more file is captured exactly if its size is known and is no more than ten mebibytes and its
/// text could be read: under its path with forward slashes, with its own text.
pub proof fn readable_files_are_captured(reads: Seq<FileRead>, read: FileRead)
    ensures
        is_small(read.size) <==> read.size is Some && read.size->0 <= 10_485_760,
        captured(Seq::empty()) == Seq::<(Seq<char>, String)>::empty(),
        captured(reads.push(read)) == if read.size is Some && read.size->0 <= 10_485_760
            && read.content is Some {
            captured(reads).push((posix_form(read.path@), read.content->0))
        } else {
            captured(reads)
        },
{
    reveal(Seq::filter);
    let none: Seq<FileRead> = Seq::empty();
    assert(captured(none) =~= Seq::empty());
    assert(reads.push(read).drop_last() =~= reads);
    if is_small(read.size) && read.content is Some {
        assert(captured(reads.push(read)) =~= captured(reads).push(
            (posix_form(read.path@), read.content->0),
        ));
    }
}

/// One more dirty file is without a watermark of its own exactly if none is kept under its path with
/// forward slashes.
pub proof fn files_without_a_watermark_are_unmarked(
    per_file: Entries<u128>,
    paths: Seq<Seq<char>>,
    path: Seq<char>,
)
    ensures
        unmarked(per_file, Seq::empty()) == Seq::<Seq<char>>::empty(),
        unmarked(per_file, paths.push(path)) == if exists|i: int|
            0 <= i < per_file.len() && (#[trigger] per_file[i]).0 == posix_form(path) {
            unmarked(per_file, paths)
        } else {
            unmarked(per_file, paths).push(path)
        },
{
    reveal(Seq::filter);
    let key = text_key(posix_form(path));
    entries_are_found::<String, u128>(per_file, key);
    if holds::<String, u128>(per_file, key) {
        let i = choose|i: int| #[trigger] keyed_at::<String, u128>(per_file, key, i);
        texts_are_their_own_keys(per_file[i].0, posix_form(path));
        assert(per_file[i].0 == posix_form(path));
    }
    if exists|i: int| 0 <= i < per_file.len() && (#[trigger] per_file[i]).0 == posix_form(path) {
        let i = choose|i: int|
            0 <= i < per_file.len() && (#[trigger] per_file[i]).0 == posix_form(path);
        assert(keyed_at::<String, u128>(per_file, key, i));
    }
    assert(paths.push(path).drop_last() =~= paths);
}

/// The merged list has nothing but texts of stale files and of dirty ones without a watermark.
pub proof fn merged_files_keep_their_texts(
    stale: Seq<Seq<char>>,
    per_file: Entries<u128>,
    dirty: Seq<Seq<char>>,
    k: int,
)
    requires
        0 <= k < with_dirty(stale, per_file, dirty).len(),
    ensures
        stale.contains(with_dirty(stale, per_file, dirty)[k]) || unmarked(per_file, dirty).contains(
            with_dirty(stale, per_file, dirty)[k],
        ),
{
    let more = unmarked(per_file, dirty);
    let items = units(stale) + units(more);
    let set = put_all::<FilePath, ()>(Seq::empty(), items);
    only_items_are_stored::<FilePath, ()>(items, k);
    let j = choose|j: int| 0 <= j < items.len() && (#[trigger] items[j]).0 == set[k].0;
    if j < stale.len() {
        assert(stale[j] == set[k].0);
    } else {
        assert(more[j - stale.len()] == set[k].0);
    }
}

/// What a hook requests. Before the tool runs, the paths are those that it will edit, and the work is
/// a human's; afterwards the paths are those that it edited, and the work is the agent's.
pub proof fn requests_tell_the_hooks_apart(
    repo_root: Seq<char>,
    paths: Seq<Seq<char>>,
    contents: Entries<String>,
)
    ensures
        ({
            let before = hook_request(CheckpointKind::Human, repo_root, paths, contents);
            let after = hook_request(CheckpointKind::AiAgent, repo_root, paths, contents);
            &&& before.author == "bash-tool"@ && after.author == "bash-tool"@
            &&& before.kind == CheckpointKind::Human && after.kind == CheckpointKind::AiAgent
            &&& !before.is_pre_commit && !after.is_pre_commit
            &&& before.base_commit_override is None && after.base_commit_override is None
            &&& before.run.tool == "bash-tool"@ && after.run.tool == "bash-tool"@
            &&& before.run.id == "pre-hook"@ && after.run.id == "post-hook"@
            &&& before.run.model.len() == 0 && after.run.model.len() == 0
            &&& before.run.checkpoint_kind == CheckpointKind::Human
            &&& after.run.checkpoint_kind == CheckpointKind::AiAgent
            &&& before.run.repo_working_dir == Some(repo_root)
            &&& after.run.repo_working_dir == Some(repo_root)
            &&& before.run.will_edit_filepaths == Some(paths)
            &&& before.run.edited_filepaths is None
            &&& after.run.edited_filepaths == Some(paths)
            &&& after.run.will_edit_filepaths is None
            &&& before.run.dirty_files == Some(contents) && after.run.dirty_files == Some(contents)
            &&& before.run.captured_checkpoint_id is None
            &&& after.run.captured_checkpoint_id is None
        }),
{
}

/// Requests and checkpoints show what they hold, and a checkpoint is taken over exactly if one was
/// prepared.
pub proof fn requests_show_what_they_hold(
    request: CheckpointRequest,
    prepared: Result<Option<PreparedCheckpoint>, GitAiError>,
    info: CapturedCheckpointInfo,
    text: Option<String>,
    list: Option<Vec<String>>,
)
    ensures
        text is None ==> optional_text(text) is None,
        text matches Some(t) ==> optional_text(text) == Some(t@),
        list is None ==> optional_texts(list) is None,
        list matches Some(l) ==> optional_texts(list) == Some(texts(l@)),
        request@.author == request.author@,
        request@.kind == request.kind,
        request@.is_pre_commit == request.is_pre_commit,
        request@.base_commit_override == optional_text(request.base_commit_override),
        request@.run.tool == request.run.agent_id.tool@,
        request@.run.id == request.run.agent_id.id@,
        request@.run.model == request.run.agent_id.model@,
        request@.run.checkpoint_kind == request.run.checkpoint_kind,
        request@.run.repo_working_dir == optional_text(request.run.repo_working_dir),
        request@.run.edited_filepaths == optional_texts(request.run.edited_filepaths),
        request@.run.will_edit_filepaths == optional_texts(request.run.will_edit_filepaths),
        request.run.dirty_files is None ==> request@.run.dirty_files is None,
        request.run.dirty_files matches Some(files) ==> request@.run.dirty_files == Some(files@),
        request@.run.captured_checkpoint_id == optional_text(request.run.captured_checkpoint_id),
        info@.capture_id == info.capture_id@,
        info@.repo_working_dir == info.repo_working_dir@,
        prepared is Err ==> prepared_info(prepared) is None,
        prepared matches Ok(found) ==> found is None ==> prepared_info(prepared) is None,
        prepared matches Ok(found) ==> found is Some ==> prepared_info(prepared) is Some
            && prepared_info(prepared)->0.capture_id == found->0.capture_id@ && prepared_info(
            prepared,
        )->0.repo_working_dir == found->0.repo_working_dir@,
{
}

} // verus!
