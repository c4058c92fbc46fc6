//! What git prints: the tracked files and the changed files.

use vstd::prelude::*;
use vstd::utf8::*;

use crate::error::{ErrorView, GitAiError};
use crate::path::{normalize_path, normalized, path_key, slashed, FilePath, PathSystem};
use crate::snapshot::PathSet;
use crate::sorted_map::{holds, keyed_at, lemma_put_all_holds, only_items_are_stored, put_all, Entries};
use crate::sorted_map::SortedMap;
use crate::text::{begins_with, chars_of, decodes_exactly, glued, joined, lemma_ascii_byte_is_char};
use crate::text::{lossy_decoded, lossy_text, normalize_to_posix, posix_form, posix_form_is_stable};
use crate::text::{split_at_each, split_bytes, splitting_undoes_gluing, text_from, texts};

verus! {

/// The outcome of a git command that could be run.
pub struct GitOutput {
    pub success: bool,
    pub stdout: Vec<u8>,
    pub stderr: Vec<u8>,
}

/// The pieces between the NUL bytes of an output, as texts.
pub open spec fn records(stdout: Seq<u8>) -> Seq<Seq<char>> {
    split_at_each(stdout, 0u8).map_values(|part: Seq<u8>| lossy_decoded(part))
}

/// The pieces between the NUL bytes of an output that are not empty, as texts.
pub open spec fn nonempty_records(stdout: Seq<u8>) -> Seq<Seq<char>> {
    split_at_each(stdout, 0u8).filter(|part: Seq<u8>| part.len() > 0).map_values(
        |part: Seq<u8>| lossy_decoded(part),
    )
}

fn failure(command: &str, stderr: &Vec<u8>) -> (error: GitAiError)
    ensures
        decodes_exactly(stderr@),
        error@ == ErrorView::Generic(command@ + lossy_decoded(stderr@)),
{
    GitAiError::Generic(joined(command, lossy_text(stderr.as_slice()).as_str()))
}

/// The paths that the names stand for, as the items of a set.
pub open spec fn tracked_items(system: PathSystem, names: Seq<Seq<char>>) -> Entries<()> {
    names.map_values(|name: Seq<char>| (normalized(system, slashed(system, name)), ()))
}

/// The set of the files with the given names, under their normalized paths.
pub fn tracked_set(system: PathSystem, names: &Vec<String>) -> (set: PathSet)
    ensures
        set@ == put_all::<FilePath, ()>(Seq::empty(), tracked_items(system, texts(names@))),
{
    let mut items: Vec<(FilePath, ())> = Vec::new();
    let ghost wanted = tracked_items(system, texts(names@));
    let mut i: usize = 0;
    while i < names.len()
        invariant
            i <= names@.len(),
            wanted == tracked_items(system, texts(names@)),
            items@.len() == i,
            forall|j: int|
                0 <= j < i ==> (#[trigger] items@[j]).0@ == wanted[j].0,
        decreases names@.len() - i,
    {
        let key = normalize_path(system, &FilePath::from_system(system, names[i].as_str()));
        items.push((key, ()));
        i = i + 1;
    }
    assert(items@.map_values(|e: (FilePath, ())| (e.0@, e.1)) =~= wanted);
    SortedMap::from_entries(items)
}

/// Every piece between the NUL bytes that is not empty is decoded exactly if it is valid UTF-8.
pub open spec fn pieces_decode_exactly(stdout: Seq<u8>) -> bool {
    forall|i: int|
        0 <= i < split_at_each(stdout, 0u8).len() && split_at_each(stdout, 0u8)[i].len() > 0
            ==> decodes_exactly(#[trigger] split_at_each(stdout, 0u8)[i])
}

/// Reads the tracked files from the output of `git ls-files -z`. Names that are valid UTF-8 are
/// decoded exactly.
pub fn load_tracked_files(system: PathSystem, output: &GitOutput) -> (loaded: Result<
    PathSet,
    GitAiError,
>)
    ensures
        loaded is Ok <==> output.success,
        loaded matches Ok(set) ==> {
            &&& set@ == put_all::<FilePath, ()>(
                Seq::empty(),
                tracked_items(system, nonempty_records(output.stdout@)),
            )
            &&& pieces_decode_exactly(output.stdout@)
            &&& output.stdout@.len() == 0 ==> set@.len() == 0
            &&& forall|names: Seq<Seq<char>>|
                are_names(names) && output.stdout@ == #[trigger] nul_ended(names)
                    ==> lists_the_names(system, set@, names)
        },
        loaded matches Err(error) ==> {
            &&& error@ == ErrorView::Generic(
                "git ls-files failed: "@ + lossy_decoded(output.stderr@),
            )
            &&& decodes_exactly(output.stderr@)
        },
{
    if !output.success {
        return Err(failure("git ls-files failed: ", &output.stderr));
    }
    let parts = split_bytes(output.stdout.as_slice(), 0);
    let ghost pieces = split_at_each(output.stdout@, 0u8);
    let ghost test = |part: Seq<u8>| part.len() > 0;
    let ghost decode = |part: Seq<u8>| lossy_decoded(part);
    let mut names: Vec<String> = Vec::new();
    let mut i: usize = 0;
    proof {
        reveal(Seq::filter);
        assert(pieces.take(0) =~= Seq::empty());
        assert(texts(names@) =~= pieces.take(0).filter(test).map_values(decode));
    }
    while i < parts.len()
        invariant
            i <= parts@.len(),
            parts@.len() == pieces.len(),
            forall|j: int| 0 <= j < parts@.len() ==> (#[trigger] parts@[j])@ == pieces[j],
            test == (|part: Seq<u8>| part.len() > 0),
            decode == (|part: Seq<u8>| lossy_decoded(part)),
            texts(names@) == pieces.take(i as int).filter(test).map_values(decode),
            forall|j: int|
                0 <= j < i && pieces[j].len() > 0 ==> decodes_exactly(#[trigger] pieces[j]),
        decreases parts@.len() - i,
    {
        let part = &parts[i];
        let ghost before = texts(names@);
        proof {
            reveal(Seq::filter);
            assert(pieces.take(i + 1).drop_last() =~= pieces.take(i as int));
            assert(pieces.take(i + 1).last() == part@);
        }
        if part.len() > 0 {
            let name = lossy_text(part.as_slice());
            names.push(name);
            assert(texts(names@) =~= before.push(name@));
            assert(pieces.take(i + 1).filter(test).map_values(decode) =~= pieces.take(
                i as int,
            ).filter(test).map_values(decode).push(name@));
        }
        i = i + 1;
    }
    assert(pieces.take(i as int) =~= pieces);
    proof {
        if output.stdout@.len() == 0 {
            reveal(Seq::filter);
            assert(pieces =~= seq![Seq::<u8>::empty()]);
            assert(pieces.drop_last() =~= Seq::empty());
            assert(pieces.filter(test) =~= Seq::empty());
            assert(tracked_items(system, texts(names@)) =~= Seq::empty());
        }
    }
    proof {
        assert forall|names: Seq<Seq<char>>|
            are_names(names) && output.stdout@ == #[trigger] nul_ended(names) implies lists_the_names(
            system,
            put_all::<FilePath, ()>(
                Seq::empty(),
                tracked_items(system, nonempty_records(output.stdout@)),
            ),
            names,
        ) by {
            listed_files_are_tracked(system, names);
        }
    }
    Ok(tracked_set(system, &names))
}

/// Where the first blank of a text stands; its length if there is none.
pub open spec fn blank_at(text: Seq<char>) -> int
    decreases text.len(),
{
    if text.len() == 0 || text[0] == ' ' {
        0
    } else {
        1 + blank_at(text.drop_first())
    }
}

/// The last of at most `n` fields that blanks part: what is left after `n - 1` blanks, or after the
/// last blank if there are fewer.
pub open spec fn last_field(line: Seq<char>, n: int) -> Seq<char>
    decreases n,
{
    if n <= 1 || blank_at(line) >= line.len() {
        line
    } else {
        last_field(line.skip(blank_at(line) + 1), n - 1)
    }
}

/// The line begins with the given mark and a blank.
pub open spec fn is_marked(line: Seq<char>, mark: char) -> bool {
    line.len() >= 2 && line[0] == mark && line[1] == ' '
}

/// The paths that a porcelain status names from its `i`-th record on. A changed or unmerged entry
/// names its path after a fixed number of fields; a renamed or copied one is followed by a record
/// with the original path; an untracked file is named after its mark. Other records name nothing.
pub open spec fn status_paths(lines: Seq<Seq<char>>, i: int) -> Seq<Seq<char>>
    decreases lines.len() - i,
{
    if i < 0 || i >= lines.len() {
        Seq::empty()
    } else if is_marked(lines[i], '1') {
        seq![posix_form(last_field(lines[i], 9))] + status_paths(lines, i + 1)
    } else if is_marked(lines[i], 'u') {
        seq![posix_form(last_field(lines[i], 11))] + status_paths(lines, i + 1)
    } else if is_marked(lines[i], '2') {
        seq![posix_form(last_field(lines[i], 10))] + after_rename(lines, i + 1)
    } else if is_marked(lines[i], '?') {
        seq![posix_form(lines[i].skip(2))] + status_paths(lines, i + 1)
    } else {
        status_paths(lines, i + 1)
    }
}

/// The paths that are named from the record after a renamed or copied entry on.
pub open spec fn after_rename(lines: Seq<Seq<char>>, i: int) -> Seq<Seq<char>>
    decreases lines.len() - i,
{
    if i < 0 || i >= lines.len() {
        Seq::empty()
    } else if lines[i].len() > 0 {
        seq![posix_form(lines[i])] + status_paths(lines, i + 1)
    } else {
        status_paths(lines, i + 1)
    }
}

proof fn lemma_blank_at(text: Seq<char>, i: int)
    requires
        0 <= i <= text.len(),
        forall|j: int| 0 <= j < i ==> #[trigger] text[j] != ' ',
        i < text.len() ==> text[i] == ' ',
    ensures
        blank_at(text) == i,
    decreases i,
{
    if i > 0 {
        assert(text[0] != ' ');
        assert forall|j: int| 0 <= j < i - 1 implies #[trigger] text.drop_first()[j] != ' ' by {
            assert(text[j + 1] != ' ');
        }
        lemma_blank_at(text.drop_first(), i - 1);
    }
}

fn field_start(line: &Vec<char>, n: usize) -> (start: usize)
    requires
        n >= 1,
    ensures
        start <= line@.len(),
        line@.skip(start as int) == last_field(line@, n as int),
{
    let mut start: usize = 0;
    let mut left: usize = n;
    assert(line@.skip(0) =~= line@);
    while left > 1
        invariant
            1 <= left <= n,
            start <= line@.len(),
            last_field(line@.skip(start as int), left as int) == last_field(line@, n as int),
        ensures
            start <= line@.len(),
            line@.skip(start as int) == last_field(line@, n as int),
        decreases left,
    {
        let ghost rest = line@.skip(start as int);
        let mut i: usize = start;
        while i < line.len() && line[i] != ' '
            invariant
                start <= i <= line@.len(),
                rest == line@.skip(start as int),
                forall|j: int| 0 <= j < i - start ==> #[trigger] rest[j] != ' ',
            decreases line@.len() - i,
        {
            i = i + 1;
        }
        proof {
            lemma_blank_at(rest, i - start);
        }
        if i == line.len() {
            return start;
        }
        assert(rest.skip(i - start + 1) =~= line@.skip(i + 1));
        start = i + 1;
        left = left - 1;
    }
    start
}

/// Reads the changed paths from the records of a porcelain status.
pub fn parse_status(lines: &Vec<String>) -> (paths: Vec<String>)
    ensures
        texts(paths@) == status_paths(texts(lines@), 0),
{
    let mut paths: Vec<String> = Vec::new();
    let ghost all = texts(lines@);
    let mut i: usize = 0;
    assert(texts(paths@) + status_paths(all, 0) =~= status_paths(all, 0));
    while i < lines.len()
        invariant
            i <= lines@.len(),
            all == texts(lines@),
            texts(paths@) + status_paths(all, i as int) == status_paths(all, 0),
        decreases lines@.len() - i,
    {
        let line = chars_of(lines[i].as_str());
        let ghost before = texts(paths@);
        if begins_with(&line, '1', ' ') || begins_with(&line, 'u', ' ') {
            let n: usize = if begins_with(&line, 'u', ' ') {
                11
            } else {
                9
            };
            let path = normalize_to_posix(text_from(&line, field_start(&line, n)).as_str());
            paths.push(path);
            assert(texts(paths@) =~= before.push(path@));
            assert(before.push(path@) + status_paths(all, i + 1) =~= before + (seq![path@]
                + status_paths(all, i + 1)));
        } else if begins_with(&line, '2', ' ') {
            let path = normalize_to_posix(text_from(&line, field_start(&line, 10)).as_str());
            paths.push(path);
            assert(texts(paths@) =~= before.push(path@));
            assert(status_paths(all, i as int) == seq![path@] + after_rename(all, i + 1));
            if i + 1 < lines.len() {
                assert(all[i + 1] == lines@[i + 1]@);
                if !lines[i + 1].as_str().is_empty() {
                    let orig = normalize_to_posix(lines[i + 1].as_str());
                    paths.push(orig);
                    assert(texts(paths@) =~= before.push(path@).push(orig@));
                    assert(after_rename(all, i + 1) == seq![orig@] + status_paths(all, i + 2));
                    assert(before.push(path@).push(orig@) + status_paths(all, i + 2) =~= before + (
                    seq![path@] + (seq![orig@] + status_paths(all, i + 2))));
                } else {
                    assert(after_rename(all, i + 1) == status_paths(all, i + 2));
                    assert(before.push(path@) + status_paths(all, i + 2) =~= before + (seq![path@]
                        + status_paths(all, i + 2)));
                }
                i = i + 1;
            } else {
                assert(before.push(path@) + status_paths(all, i + 1) =~= before + (seq![path@]
                    + after_rename(all, i + 1)));
            }
        } else if begins_with(&line, '?', ' ') {
            let path = normalize_to_posix(text_from(&line, 2).as_str());
            paths.push(path);
            assert(texts(paths@) =~= before.push(path@));
            assert(before.push(path@) + status_paths(all, i + 1) =~= before + (seq![path@]
                + status_paths(all, i + 1)));
        }
        i = i + 1;
    }
    assert(texts(paths@) + status_paths(all, i as int) =~= texts(paths@));
    paths
}

/// No bytes are valid UTF-8, and their exact decoding is the empty text; so an empty piece that is
/// decoded exactly is an empty record.
pub proof fn no_bytes_decode_to_no_text()
    ensures
        valid_utf8(Seq::<u8>::empty()),
        decode_utf8(Seq::<u8>::empty()) == Seq::<char>::empty(),
        decodes_exactly(Seq::empty()) ==> lossy_decoded(Seq::empty()) == Seq::<char>::empty(),
{
    encode_utf8_decode_utf8(Seq::<char>::empty());
    assert(encode_utf8(Seq::<char>::empty()) =~= Seq::<u8>::empty());
}

/// Reads the changed files from the output of
/// `git status --porcelain=v2 -z --untracked-files=all`. Names that are valid UTF-8 are decoded
/// exactly; without output nothing has changed.
pub fn git_status_fallback(output: &GitOutput) -> (changed: Result<Vec<String>, GitAiError>)
    ensures
        changed is Ok <==> output.success,
        changed matches Ok(paths) ==> {
            &&& texts(paths@) == status_paths(records(output.stdout@), 0)
            &&& forall|i: int|
                0 <= i < split_at_each(output.stdout@, 0u8).len() ==> decodes_exactly(
                    #[trigger] split_at_each(output.stdout@, 0u8)[i],
                )
            &&& output.stdout@.len() == 0 ==> paths@.len() == 0
            &&& forall|changes: Seq<Change>|
                are_printable(changes) && output.stdout@ == #[trigger] nul_ended(all_lines(changes))
                    ==> texts(paths@) == all_paths(changes)
        },
        changed matches Err(error) ==> {
            &&& error@ == ErrorView::Generic(
                "git status failed: "@ + lossy_decoded(output.stderr@),
            )
            &&& decodes_exactly(output.stderr@)
        },
{
    if !output.success {
        return Err(failure("git status failed: ", &output.stderr));
    }
    let parts = split_bytes(output.stdout.as_slice(), 0);
    let ghost wanted = records(output.stdout@);
    let mut lines: Vec<String> = Vec::new();
    let mut i: usize = 0;
    while i < parts.len()
        invariant
            i <= parts@.len(),
            wanted == records(output.stdout@),
            parts@.len() == wanted.len(),
            forall|j: int|
                0 <= j < parts@.len() ==> (#[trigger] parts@[j])@ == split_at_each(
                    output.stdout@,
                    0u8,
                )[j],
            lines@.len() == i,
            forall|j: int| 0 <= j < i ==> (#[trigger] lines@[j])@ == wanted[j],
            forall|j: int|
                0 <= j < i ==> decodes_exactly(#[trigger] split_at_each(output.stdout@, 0u8)[j]),
        decreases parts@.len() - i,
    {
        lines.push(lossy_text(parts[i].as_slice()));
        i = i + 1;
    }
    assert(texts(lines@) =~= wanted);
    let paths = parse_status(&lines);
    proof {
        no_bytes_decode_to_no_text();
        if output.stdout@.len() == 0 {
            assert(split_at_each(output.stdout@, 0u8) =~= seq![Seq::<u8>::empty()]);
            assert(decodes_exactly(split_at_each(output.stdout@, 0u8)[0]));
            assert(wanted[0].len() == 0);
            assert(status_paths(wanted, 1).len() == 0);
            assert(status_paths(wanted, 0).len() == 0);
        }
        assert forall|changes: Seq<Change>|
            are_printable(changes) && output.stdout@ == #[trigger] nul_ended(
                all_lines(changes),
            ) implies texts(paths@) == all_paths(changes) by {
            printed_changes_are_read_back(changes);
        }
    }
    Ok(paths)
}

/// One entry of a porcelain status, with its fields before the path.
pub enum Change {
    Ordinary { fields: Seq<Seq<char>>, path: Seq<char> },
    Unmerged { fields: Seq<Seq<char>>, path: Seq<char> },
    Renamed { fields: Seq<Seq<char>>, path: Seq<char>, original: Seq<char> },
    Untracked { path: Seq<char> },
}

/// Each field followed by a blank.
pub open spec fn spaced(fields: Seq<Seq<char>>) -> Seq<char>
    decreases fields.len(),
{
    if fields.len() == 0 {
        Seq::empty()
    } else {
        fields[0].push(' ') + spaced(fields.drop_first())
    }
}

/// The fields are as many as given, the first is the mark, and none holds a blank.
pub open spec fn are_fields(fields: Seq<Seq<char>>, mark: char, count: int) -> bool {
    &&& fields.len() == count
    &&& fields[0] == seq![mark]
    &&& forall|i: int| 0 <= i < fields.len() ==> !(#[trigger] fields[i]).contains(' ')
}

impl Change {
    /// The entry is one that git prints.
    pub open spec fn is_proper(self) -> bool {
        match self {
            Change::Ordinary { fields, path } => are_fields(fields, '1', 8),
            Change::Unmerged { fields, path } => are_fields(fields, 'u', 10),
            Change::Renamed { fields, path, original } => are_fields(fields, '2', 9)
                && original.len() > 0,
            Change::Untracked { path } => true,
        }
    }

    /// The records that the entry is printed as.
    pub open spec fn lines(self) -> Seq<Seq<char>> {
        match self {
            Change::Ordinary { fields, path } => seq![spaced(fields) + path],
            Change::Unmerged { fields, path } => seq![spaced(fields) + path],
            Change::Renamed { fields, path, original } => seq![spaced(fields) + path, original],
            Change::Untracked { path } => seq![seq!['?', ' '] + path],
        }
    }

    /// The paths that the entry speaks of.
    pub open spec fn paths(self) -> Seq<Seq<char>> {
        match self {
            Change::Ordinary { fields, path } => seq![posix_form(path)],
            Change::Unmerged { fields, path } => seq![posix_form(path)],
            Change::Renamed { fields, path, original } => seq![
                posix_form(path),
                posix_form(original),
            ],
            Change::Untracked { path } => seq![posix_form(path)],
        }
    }
}

proof fn lemma_last_field(fields: Seq<Seq<char>>, path: Seq<char>)
    requires
        forall|i: int| 0 <= i < fields.len() ==> !(#[trigger] fields[i]).contains(' '),
    ensures
        last_field(spaced(fields) + path, (fields.len() + 1) as int) == path,
    decreases fields.len(),
{
    let line = spaced(fields) + path;
    if fields.len() == 0 {
        assert(line =~= path);
    } else {
        let field = fields[0];
        let rest = fields.drop_first();
        assert forall|j: int| 0 <= j < field.len() implies #[trigger] line[j] != ' ' by {
            assert(line[j] == field[j]);
            assert(field.contains(field[j]));
        }
        lemma_blank_at(line, field.len() as int);
        assert(line.skip(field.len() as int + 1) =~= spaced(rest) + path);
        assert forall|i: int| 0 <= i < rest.len() implies !(#[trigger] rest[i]).contains(' ') by {
            assert(rest[i] == fields[i + 1]);
        }
        lemma_last_field(rest, path);
    }
}

proof fn lemma_status_shift(lines: Seq<Seq<char>>, more: Seq<Seq<char>>, i: int)
    requires
        0 <= i <= more.len(),
    ensures
        status_paths(lines + more, lines.len() + i) == status_paths(more, i),
        after_rename(lines + more, lines.len() + i) == after_rename(more, i),
    decreases more.len() - i,
{
    let all = lines + more;
    if i < more.len() {
        assert(all[lines.len() + i] == more[i]);
        lemma_status_shift(lines, more, i + 1);
        assert(lines.len() + i + 1 == lines.len() + (i + 1));
    }
}

proof fn lemma_spaced_mark(fields: Seq<Seq<char>>, mark: char, count: int, path: Seq<char>)
    requires
        count > 0,
        are_fields(fields, mark, count),
    ensures
        is_marked(spaced(fields) + path, mark),
        last_field(spaced(fields) + path, count + 1) == path,
{
    lemma_last_field(fields, path);
    assert(spaced(fields) == fields[0].push(' ') + spaced(fields.drop_first()));
}

#[verifier::spinoff_prover]
proof fn lemma_one_line(change: Change, more: Seq<Seq<char>>)
    requires
        change.is_proper(),
        change !is Renamed,
    ensures
        status_paths(change.lines() + more, 0) == change.paths() + status_paths(more, 0),
{
    let lines = change.lines();
    let all = lines + more;
    lemma_status_shift(lines, more, 0);
    assert(all[0] == lines[0]);
    match change {
        Change::Ordinary { fields, path } => {
            lemma_spaced_mark(fields, '1', 8, path);
        },
        Change::Unmerged { fields, path } => {
            lemma_spaced_mark(fields, 'u', 10, path);
        },
        Change::Untracked { path } => {
            assert(lines[0].skip(2) =~= path);
        },
        _ => {},
    }
}

#[verifier::spinoff_prover]
proof fn lemma_two_lines(
    fields: Seq<Seq<char>>,
    path: Seq<char>,
    original: Seq<char>,
    more: Seq<Seq<char>>,
)
    requires
        are_fields(fields, '2', 9),
        original.len() > 0,
    ensures
        status_paths(seq![spaced(fields) + path, original] + more, 0) == seq![
            posix_form(path),
            posix_form(original),
        ] + status_paths(more, 0),
{
    let lines = seq![spaced(fields) + path, original];
    let all = lines + more;
    lemma_status_shift(lines, more, 0);
    lemma_spaced_mark(fields, '2', 9, path);
    assert(all[0] == lines[0]);
    assert(all[1] == lines[1]);
    assert(after_rename(all, 1) == seq![posix_form(original)] + status_paths(all, 2));
    assert(seq![posix_form(path), posix_form(original)] + status_paths(more, 0) =~= seq![
        posix_form(path),
    ] + (seq![posix_form(original)] + status_paths(more, 0)));
}

proof fn lemma_change(change: Change, more: Seq<Seq<char>>)
    requires
        change.is_proper(),
    ensures
        status_paths(change.lines() + more, 0) == change.paths() + status_paths(more, 0),
{
    match change {
        Change::Renamed { fields, path, original } => {
            lemma_two_lines(fields, path, original, more);
        },
        _ => {
            lemma_one_line(change, more);
        },
    }
}

/// The records of all the entries, one entry after the other.
pub open spec fn all_lines(changes: Seq<Change>) -> Seq<Seq<char>>
    decreases changes.len(),
{
    if changes.len() == 0 {
        Seq::empty()
    } else {
        changes[0].lines() + all_lines(changes.drop_first())
    }
}

/// The paths that all the entries speak of, one entry after the other.
pub open spec fn all_paths(changes: Seq<Change>) -> Seq<Seq<char>>
    decreases changes.len(),
{
    if changes.len() == 0 {
        Seq::empty()
    } else {
        changes[0].paths() + all_paths(changes.drop_first())
    }
}

/// Reading a porcelain status gives back the paths of every entry that was printed, in order, with
/// the original path of a rename after the new one. A path may hold blanks.
pub proof fn status_names_every_change(changes: Seq<Change>)
    requires
        forall|i: int| 0 <= i < changes.len() ==> (#[trigger] changes[i]).is_proper(),
    ensures
        status_paths(all_lines(changes), 0) == all_paths(changes),
    decreases changes.len(),
{
    if changes.len() > 0 {
        let rest = changes.drop_first();
        assert forall|i: int| 0 <= i < rest.len() implies (#[trigger] rest[i]).is_proper() by {
            assert(rest[i] == changes[i + 1]);
        }
        status_names_every_change(rest);
        lemma_change(changes[0], all_lines(rest));
    }
}

/// No path of the list holds a backslash.
pub open spec fn all_posix(paths: Seq<Seq<char>>) -> bool {
    forall|i: int| 0 <= i < paths.len() ==> !(#[trigger] paths[i]).contains('\\')
}

proof fn lemma_posix_first(text: Seq<char>, paths: Seq<Seq<char>>)
    requires
        all_posix(paths),
    ensures
        all_posix(seq![posix_form(text)] + paths),
{
    posix_form_is_stable(text);
    let list = seq![posix_form(text)] + paths;
    assert forall|i: int| 0 <= i < list.len() implies !(#[trigger] list[i]).contains('\\') by {
        if i > 0 {
            assert(list[i] == paths[i - 1]);
        }
    }
}

proof fn lemma_posix_paths(lines: Seq<Seq<char>>, i: int)
    ensures
        all_posix(status_paths(lines, i)),
        all_posix(after_rename(lines, i)),
    decreases lines.len() - i,
{
    if 0 <= i < lines.len() {
        lemma_posix_paths(lines, i + 1);
        let rest = status_paths(lines, i + 1);
        lemma_posix_first(last_field(lines[i], 9), rest);
        lemma_posix_first(last_field(lines[i], 11), rest);
        lemma_posix_first(last_field(lines[i], 10), after_rename(lines, i + 1));
        lemma_posix_first(lines[i].skip(2), rest);
        lemma_posix_first(lines[i], rest);
    }
}

/// No path that is read from a porcelain status holds a backslash.
pub proof fn status_paths_are_posix(lines: Seq<Seq<char>>)
    ensures
        all_posix(status_paths(lines, 0)),
{
    lemma_posix_paths(lines, 0);
}

/// Each of the texts in UTF-8, with a NUL byte behind it.
pub open spec fn nul_ended(lines: Seq<Seq<char>>) -> Seq<u8>
    decreases lines.len(),
{
    if lines.len() == 0 {
        Seq::empty()
    } else {
        nul_ended(lines.drop_last()) + encode_utf8(lines.last()).push(0u8)
    }
}

/// The entries are such as git prints, and none of their records holds a NUL.
pub open spec fn are_printable(changes: Seq<Change>) -> bool {
    &&& forall|i: int| 0 <= i < changes.len() ==> (#[trigger] changes[i]).is_proper()
    &&& forall|i: int|
        0 <= i < all_lines(changes).len() ==> !(#[trigger] all_lines(changes)[i]).contains('\0')
}

/// The texts are names that git can list: none is empty, and none holds a NUL.
pub open spec fn are_names(names: Seq<Seq<char>>) -> bool {
    forall|i: int|
        0 <= i < names.len() ==> (#[trigger] names[i]).len() > 0 && !names[i].contains('\0')
}

/// The set has each of the names, in the form in which it is stored, and nothing else.
pub open spec fn lists_the_names(
    system: PathSystem,
    set: Entries<()>,
    names: Seq<Seq<char>>,
) -> bool {
    &&& forall|i: int|
        0 <= i < names.len() ==> holds::<FilePath, ()>(
            set,
            path_key(normalized(system, slashed(system, #[trigger] names[i]))),
        )
    &&& forall|k: int|
        #![trigger set[k]]
        0 <= k < set.len() ==> exists|i: int|
            0 <= i < names.len() && normalized(system, slashed(system, #[trigger] names[i]))
                == set[k].0
}

spec fn encoded_lines(lines: Seq<Seq<char>>) -> Seq<Seq<u8>> {
    lines.map_values(|l: Seq<char>| encode_utf8(l))
}

proof fn lemma_nul_ended_is_glued(lines: Seq<Seq<char>>)
    ensures
        nul_ended(lines) == glued(encoded_lines(lines).push(Seq::<u8>::empty()), 0u8),
    decreases lines.len(),
{
    let none = Seq::<u8>::empty();
    let pieces = encoded_lines(lines).push(none);
    if lines.len() == 0 {
        assert(pieces[0] == none);
    } else {
        let less = lines.drop_last();
        let old = encoded_lines(less).push(none);
        let start = encoded_lines(lines);
        lemma_nul_ended_is_glued(less);
        assert(pieces.drop_last() =~= start);
        assert(start.drop_last() =~= encoded_lines(less));
        assert(old.drop_last() =~= encoded_lines(less));
        assert(pieces.last() == none);
        assert(glued(pieces, 0u8) =~= glued(start, 0u8).push(0u8));
        if less.len() == 0 {
            assert(old[0] == none);
            assert(glued(start, 0u8) == start[0]);
            assert(nul_ended(lines) =~= encode_utf8(lines.last()).push(0u8));
        } else {
            assert(old.last() == none);
            assert(glued(old, 0u8) =~= glued(encoded_lines(less), 0u8).push(0u8));
            assert(glued(start, 0u8) =~= glued(old, 0u8) + encode_utf8(lines.last()));
            assert(nul_ended(lines) =~= glued(start, 0u8).push(0u8));
        }
    }
}

/// What is split at the NUL bytes are the texts themselves, and an empty piece at the end.
proof fn lemma_pieces_of_output(lines: Seq<Seq<char>>)
    requires
        forall|i: int| 0 <= i < lines.len() ==> !(#[trigger] lines[i]).contains('\0'),
    ensures
        split_at_each(nul_ended(lines), 0u8) == encoded_lines(lines).push(Seq::<u8>::empty()),
{
    let pieces = encoded_lines(lines).push(Seq::<u8>::empty());
    lemma_nul_ended_is_glued(lines);
    assert forall|i: int| 0 <= i < pieces.len() implies !(#[trigger] pieces[i]).contains(0u8) by {
        if i < lines.len() {
            lemma_ascii_byte_is_char(lines[i], '\0');
        }
    }
    splitting_undoes_gluing(pieces, 0u8);
}

proof fn lemma_status_of_changes(changes: Seq<Change>, more: Seq<Seq<char>>)
    requires
        forall|i: int| 0 <= i < changes.len() ==> (#[trigger] changes[i]).is_proper(),
    ensures
        status_paths(all_lines(changes) + more, 0) == all_paths(changes) + status_paths(more, 0),
    decreases changes.len(),
{
    if changes.len() == 0 {
        assert(all_lines(changes) + more =~= more);
        assert(all_paths(changes) + status_paths(more, 0) =~= status_paths(more, 0));
    } else {
        let rest = changes.drop_first();
        assert forall|i: int| 0 <= i < rest.len() implies (#[trigger] rest[i]).is_proper() by {
            assert(rest[i] == changes[i + 1]);
        }
        lemma_status_of_changes(rest, more);
        lemma_change(changes[0], all_lines(rest) + more);
        assert(all_lines(changes) + more =~= changes[0].lines() + (all_lines(rest) + more));
        assert(changes[0].paths() + (all_paths(rest) + status_paths(more, 0)) =~= all_paths(changes)
            + status_paths(more, 0));
    }
}

/// Reading what git prints gives back the paths of every entry, in order: the output is each record
/// of the entries in UTF-8 with a NUL byte behind it, and no record holds a NUL. The pieces are
/// decoded exactly.
pub proof fn printed_changes_are_read_back(changes: Seq<Change>)
    requires
        are_printable(changes),
        forall|i: int|
            0 <= i < split_at_each(nul_ended(all_lines(changes)), 0u8).len() ==> decodes_exactly(
                #[trigger] split_at_each(nul_ended(all_lines(changes)), 0u8)[i],
            ),
    ensures
        status_paths(records(nul_ended(all_lines(changes))), 0) == all_paths(changes),
{
    let lines = all_lines(changes);
    let stdout = nul_ended(lines);
    let end = seq![Seq::<char>::empty()];
    let pieces = split_at_each(stdout, 0u8);
    lemma_pieces_of_output(lines);
    no_bytes_decode_to_no_text();
    assert forall|i: int| 0 <= i < pieces.len() implies records(stdout)[i] == (lines + end)[i] by {
        assert(decodes_exactly(pieces[i]));
        if i < lines.len() {
            encode_utf8_valid_utf8(lines[i]);
            encode_utf8_decode_utf8(lines[i]);
            assert(pieces[i] == encode_utf8(lines[i]));
        } else {
            assert(pieces[i] == Seq::<u8>::empty());
        }
    }
    assert(records(stdout) =~= lines + end);
    lemma_status_of_changes(changes, end);
    reveal_with_fuel(status_paths, 2);
    assert(status_paths(end, 0) =~= Seq::empty());
    assert(all_paths(changes) + status_paths(end, 0) =~= all_paths(changes));
}

proof fn lemma_names_of_output(names: Seq<Seq<char>>)
    requires
        are_names(names),
        pieces_decode_exactly(nul_ended(names)),
    ensures
        nonempty_records(nul_ended(names)) == names,
{
    let stdout = nul_ended(names);
    let pieces = split_at_each(stdout, 0u8);
    let test = |part: Seq<u8>| part.len() > 0;
    let decode = |part: Seq<u8>| lossy_decoded(part);
    let front = encoded_lines(names);
    lemma_pieces_of_output(names);
    assert(pieces.drop_last() =~= front);
    assert forall|i: int| 0 <= i < front.len() implies test(#[trigger] front[i]) by {
        if front[i].len() == 0 {
            encode_utf8_decode_utf8(names[i]);
            no_bytes_decode_to_no_text();
            assert(front[i] =~= Seq::<u8>::empty());
        }
    }
    lemma_all_pass(front, test);
    reveal(Seq::filter);
    assert(pieces.filter(test) == front);
    assert forall|i: int| 0 <= i < names.len() implies #[trigger] front.map_values(decode)[i]
        == names[i] by {
        assert(pieces[i] == front[i]);
        assert(test(front[i]));
        assert(decodes_exactly(split_at_each(stdout, 0u8)[i]));
        encode_utf8_valid_utf8(names[i]);
        encode_utf8_decode_utf8(names[i]);
    }
    assert(front.map_values(decode) =~= names);
}

proof fn lemma_all_pass<T>(list: Seq<T>, test: spec_fn(T) -> bool)
    requires
        forall|i: int| 0 <= i < list.len() ==> test(#[trigger] list[i]),
    ensures
        list.filter(test) == list,
    decreases list.len(),
{
    reveal(Seq::filter);
    if list.len() > 0 {
        let less = list.drop_last();
        assert forall|i: int| 0 <= i < less.len() implies test(#[trigger] less[i]) by {
            assert(less[i] == list[i]);
        }
        lemma_all_pass(less, test);
        assert(test(list[list.len() - 1]));
        assert(list.filter(test) =~= list);
    }
}

/// The files that git lists, each name in UTF-8 with a NUL byte behind it, are the tracked files: each
/// of them in the form in which it is stored, and no other.
pub proof fn listed_files_are_tracked(system: PathSystem, names: Seq<Seq<char>>)
    requires
        are_names(names),
        pieces_decode_exactly(nul_ended(names)),
    ensures
        lists_the_names(
            system,
            put_all::<FilePath, ()>(
                Seq::empty(),
                tracked_items(system, nonempty_records(nul_ended(names))),
            ),
            names,
        ),
{
    let none: Entries<()> = Seq::empty();
    let items = tracked_items(system, nonempty_records(nul_ended(names)));
    let set = put_all::<FilePath, ()>(none, items);
    lemma_names_of_output(names);
    lemma_put_all_holds::<FilePath, ()>(none, items);
    assert forall|i: int| 0 <= i < names.len() implies holds::<FilePath, ()>(
        set,
        path_key(normalized(system, slashed(system, #[trigger] names[i]))),
    ) by {
        let key = path_key(normalized(system, slashed(system, names[i])));
        assert(keyed_at::<FilePath, ()>(items, key, i));
        assert(holds::<FilePath, ()>(items, key));
    }
    assert forall|k: int|
        #![trigger set[k]]
        0 <= k < set.len() implies exists|i: int|
        0 <= i < names.len() && normalized(system, slashed(system, #[trigger] names[i]))
            == set[k].0 by {
        only_items_are_stored::<FilePath, ()>(items, k);
        let i = choose|i: int| 0 <= i < items.len() && (#[trigger] items[i]).0 == set[k].0;
        assert(normalized(system, slashed(system, names[i])) == set[k].0);
    }
}

/// How many blanks a text has.
pub open spec fn blanks(text: Seq<char>) -> nat
    decreases text.len(),
{
    if text.len() == 0 {
        0
    } else if text.last() == ' ' {
        blanks(text.drop_last()) + 1
    } else {
        blanks(text.drop_last())
    }
}

proof fn lemma_blanks_append(a: Seq<char>, b: Seq<char>)
    ensures
        blanks(a + b) == blanks(a) + blanks(b),
    decreases b.len(),
{
    if b.len() == 0 {
        assert(a + b =~= a);
    } else {
        assert((a + b).drop_last() =~= a + b.drop_last());
        lemma_blanks_append(a, b.drop_last());
    }
}

proof fn lemma_no_blanks(text: Seq<char>)
    requires
        !text.contains(' '),
    ensures
        blanks(text) == 0,
    decreases text.len(),
{
    if text.len() > 0 {
        assert(text.contains(text.last()));
        assert forall|i: int| 0 <= i < text.len() - 1 implies text.drop_last()[i] != ' ' by {
            assert(text.contains(text[i]));
        }
        lemma_no_blanks(text.drop_last());
    }
}

proof fn lemma_first_blank(text: Seq<char>)
    ensures
        0 <= blank_at(text) <= text.len(),
        forall|i: int| 0 <= i < blank_at(text) ==> #[trigger] text[i] != ' ',
        blank_at(text) < text.len() ==> text[blank_at(text)] == ' ',
    decreases text.len(),
{
    if text.len() > 0 && text[0] != ' ' {
        let rest = text.drop_first();
        lemma_first_blank(rest);
        assert forall|i: int| 0 <= i < blank_at(text) implies #[trigger] text[i] != ' ' by {
            if i > 0 {
                assert(rest[i - 1] == text[i]);
            }
        }
    }
}

/// The last of at most `n` fields is what follows the `(n - 1)`-th blank of a line; if the line has
/// fewer blanks, it is what follows the last one, and without any it is the line.
pub proof fn fields_are_counted(line: Seq<char>, n: int) -> (start: int)
    requires
        n >= 1,
    ensures
        0 <= start <= line.len(),
        last_field(line, n) == line.skip(start),
        start > 0 ==> line[start - 1] == ' ',
        blanks(line.take(start)) <= n - 1,
        blanks(line.take(start)) < n - 1 ==> !last_field(line, n).contains(' '),
    decreases n,
{
    let at = blank_at(line);
    lemma_first_blank(line);
    if n <= 1 || at >= line.len() {
        assert(line.skip(0) =~= line);
        assert(line.take(0) =~= Seq::empty());
        0
    } else {
        let rest = line.skip(at + 1);
        let inner = fields_are_counted(rest, n - 1);
        let start = at + 1 + inner;
        assert(rest.skip(inner) =~= line.skip(start));
        let word = line.take(at);
        assert(!word.contains(' '));
        lemma_no_blanks(word);
        assert(line.take(at + 1) =~= word.push(' '));
        assert(word.push(' ').drop_last() =~= word);
        assert(line.take(start) =~= line.take(at + 1) + rest.take(inner));
        lemma_blanks_append(line.take(at + 1), rest.take(inner));
        start
    }
}

/// What a record of a porcelain status names: the last of 9 fields after the mark `1`, of 11 after
/// `u`, of 10 after `2`, with the next record as the original path if it is not empty, and all that
/// follows the mark `?`; any other record names nothing. Each path is named with forward slashes.
pub proof fn marks_decide_what_is_named(lines: Seq<Seq<char>>, i: int)
    requires
        0 <= i < lines.len(),
    ensures
        ({
            let line = lines[i];
            let marked = line.len() >= 2 && line[1] == ' ';
            let paths = status_paths(lines, i);
            let rest = status_paths(lines, i + 1);
            &&& marked && line[0] == '1' ==> paths == seq![posix_form(last_field(line, 9))] + rest
            &&& marked && line[0] == 'u' ==> paths == seq![posix_form(last_field(line, 11))] + rest
            &&& marked && line[0] == '?' ==> paths == seq![posix_form(line.skip(2))] + rest
            &&& marked && line[0] == '2' && i + 1 < lines.len() && lines[i + 1].len() > 0 ==> paths
                == seq![posix_form(last_field(line, 10)), posix_form(lines[i + 1])] + status_paths(
                lines,
                i + 2,
            )
            &&& marked && line[0] == '2' && !(i + 1 < lines.len() && lines[i + 1].len() > 0) ==> paths
                == seq![posix_form(last_field(line, 10))] + status_paths(lines, i + 2)
            &&& !(marked && (line[0] == '1' || line[0] == 'u' || line[0] == '?' || line[0] == '2'))
                ==> paths == rest
        }),
        status_paths(lines, lines.len() as int) == Seq::<Seq<char>>::empty(),
{
    assert(after_rename(lines, i + 1) == if i + 1 < lines.len() && lines[i + 1].len() > 0 {
        seq![posix_form(lines[i + 1])] + status_paths(lines, i + 2)
    } else {
        status_paths(lines, i + 2)
    });
    if i + 1 < lines.len() && lines[i + 1].len() > 0 {
        assert(seq![posix_form(last_field(lines[i], 10))] + (seq![posix_form(lines[i + 1])]
            + status_paths(lines, i + 2)) =~= seq![
            posix_form(last_field(lines[i], 10)),
            posix_form(lines[i + 1]),
        ] + status_paths(lines, i + 2));
    }
}

/// The records of an output are its pieces between the NUL bytes, decoded, one for each.
pub proof fn records_are_the_pieces(stdout: Seq<u8>)
    ensures
        records(stdout).len() == split_at_each(stdout, 0u8).len(),
        forall|i: int|
            0 <= i < records(stdout).len() ==> #[trigger] records(stdout)[i] == lossy_decoded(
                split_at_each(stdout, 0u8)[i],
            ),
{
}

/// Each name stands for the path in the form in which its system stores it.
pub proof fn names_stand_for_paths(system: PathSystem, names: Seq<Seq<char>>)
    ensures
        tracked_items(system, names).len() == names.len(),
        forall|i: int|
            0 <= i < names.len() ==> (#[trigger] tracked_items(system, names)[i]).0 == normalized(
                system,
                slashed(system, names[i]),
            ),
{
}

/// The names of an output are its pieces that are not empty, decoded: each of them, and no other.
pub proof fn pieces_that_are_not_empty_are_names(stdout: Seq<u8>)
    ensures
        forall|i: int|
            0 <= i < split_at_each(stdout, 0u8).len() && (#[trigger] split_at_each(
                stdout,
                0u8,
            )[i]).len() > 0 ==> nonempty_records(stdout).contains(
                lossy_decoded(split_at_each(stdout, 0u8)[i]),
            ),
        forall|name: Seq<char>| #[trigger]
            nonempty_records(stdout).contains(name) ==> exists|i: int|
                0 <= i < split_at_each(stdout, 0u8).len() && (#[trigger] split_at_each(
                    stdout,
                    0u8,
                )[i]).len() > 0 && lossy_decoded(split_at_each(stdout, 0u8)[i]) == name,
{
    let pieces = split_at_each(stdout, 0u8);
    let test = |part: Seq<u8>| part.len() > 0;
    let kept = pieces.filter(test);
    let names = nonempty_records(stdout);
    broadcast use vstd::seq_lib::group_filter_ensures;

    assert forall|i: int| 0 <= i < pieces.len() && (#[trigger] pieces[i]).len() > 0 implies names.contains(
    lossy_decoded(pieces[i])) by {
        assert(test(pieces[i]));
        assert(kept.contains(pieces[i]));
        let k = choose|k: int| 0 <= k < kept.len() && kept[k] == pieces[i];
        assert(names[k] == lossy_decoded(pieces[i]));
    }
    assert forall|name: Seq<char>| #[trigger] names.contains(name) implies exists|i: int|
        0 <= i < pieces.len() && (#[trigger] pieces[i]).len() > 0 && lossy_decoded(pieces[i])
            == name by {
        let k = choose|k: int| 0 <= k < names.len() && names[k] == name;
        assert(test(kept[k]));
        lemma_kept(pieces, test, k);
        let i = choose|i: int| 0 <= i < pieces.len() && pieces[i] == kept[k];
        assert(lossy_decoded(pieces[i]) == name);
    }
}

proof fn lemma_kept<T>(list: Seq<T>, test: spec_fn(T) -> bool, k: int)
    requires
        0 <= k < list.filter(test).len(),
    ensures
        list.contains(list.filter(test)[k]),
    decreases list.len(),
{
    reveal(Seq::filter);
    if list.len() > 0 {
        let less = list.drop_last();
        if k < less.filter(test).len() {
            lemma_kept(less, test, k);
            let i = choose|i: int| 0 <= i < less.len() && less[i] == less.filter(test)[k];
            assert(list[i] == list.filter(test)[k]);
        } else {
            assert(list[list.len() - 1] == list.filter(test)[k]);
        }
    }
}

} // verus!
