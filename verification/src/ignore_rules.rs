//! Frozen `.gitignore` rules: where they are looked for, how they are built, what they exclude.

use ignore::gitignore::{Gitignore, GitignoreBuilder};
use ignore::Match;
use vstd::prelude::*;

use crate::error::{ErrorView, GitAiError};
use crate::path::FilePath;
use crate::text::{chars_of, is_white, joined, same_text, text_from, texts, trimmed_end};
use crate::text::trimming_takes_white_ends_off;

verus! {

/// The matcher that the `ignore` crate builds from a list of globs.
#[verifier::external_type_specification]
#[verifier::external_body]
pub struct ExGitignore(ignore::gitignore::Gitignore);

/// The collection of globs that a matcher is built from.
#[verifier::external_type_specification]
#[verifier::external_body]
pub struct ExGitignoreBuilder(ignore::gitignore::GitignoreBuilder);

/// The errors of the `ignore` crate.
#[verifier::external_type_specification]
#[verifier::external_body]
pub struct ExIgnoreError(ignore::Error);

/// What the highest-ranking matching glob says of a path.
#[derive(Debug, Clone, Copy, PartialEq, Eq, Structural)]
pub enum IgnoreMatch {
    NoMatch,
    Ignore,
    Whitelist,
}

/// The globs that a builder holds, in the order in which they were added.
pub uninterp spec fn builder_globs(builder: GitignoreBuilder) -> Seq<Seq<char>>;

/// The directory that a builder's globs are relative to.
pub uninterp spec fn builder_root(builder: GitignoreBuilder) -> Seq<char>;

/// The globs that a matcher holds, in the order in which they were added.
pub uninterp spec fn matcher_globs(matcher: Gitignore) -> Seq<Seq<char>>;

/// The directory that a matcher's globs are relative to.
pub uninterp spec fn matcher_root(matcher: Gitignore) -> Seq<char>;

/// Whether the text of a rule is a well-formed glob, as `GitignoreBuilder::add_line` finds it.
pub uninterp spec fn glob_parses(rule: Seq<char>) -> bool;

/// Whether a list of globs can be compiled together, as `GitignoreBuilder::build` finds it.
pub uninterp spec fn globs_compile(globs: Seq<Seq<char>>) -> bool;

/// What `Gitignore::matched` says of a path.
pub uninterp spec fn match_verdict(
    root: Seq<char>,
    globs: Seq<Seq<char>>,
    path: Seq<char>,
    is_dir: bool,
) -> IgnoreMatch;

/// The text without a leading `./`.
pub open spec fn without_dot_slash(text: Seq<char>) -> Seq<char> {
    if text.len() >= 2 && text[0] == '.' && text[1] == '/' {
        text.skip(2)
    } else {
        text
    }
}

/// The rule that a line spells: white space at its end does not count, unless the last blank is
/// escaped.
pub open spec fn rule_text(line: Seq<char>) -> Seq<char> {
    if line.len() >= 2 && line[line.len() - 2] == '\\' && line.last() == ' ' {
        line
    } else {
        trimmed_end(line)
    }
}

/// A comment or an empty line spells no rule.
pub open spec fn spells_no_rule(line: Seq<char>) -> bool {
    (line.len() > 0 && line[0] == '#') || rule_text(line).len() == 0
}

/// `GitignoreBuilder::new`: a builder without globs for the directory `root`, from whose text a
/// leading `./` is dropped (Unix).
#[verifier::external_body]
fn new_builder(root: &str) -> (builder: GitignoreBuilder)
    ensures
        builder_globs(builder) == Seq::<Seq<char>>::empty(),
        builder_root(builder) == without_dot_slash(root@),
{
    GitignoreBuilder::new(root)
}

/// `GitignoreBuilder::add_line`: adds the rule that a line spells at the end of the globs. A line
/// that spells no rule is accepted and adds nothing; a rule that is no well-formed glob is refused
/// and adds nothing.
#[verifier::external_body]
fn add_rule_line(builder: &mut GitignoreBuilder, line: &str) -> (added: Result<(), ignore::Error>)
    ensures
        builder_root(*final(builder)) == builder_root(*old(builder)),
        added is Ok <==> spells_no_rule(line@) || glob_parses(rule_text(line@)),
        builder_globs(*final(builder)) == if !spells_no_rule(line@) && added is Ok {
            builder_globs(*old(builder)).push(rule_text(line@))
        } else {
            builder_globs(*old(builder))
        },
{
    match builder.add_line(None, line) {
        Ok(_) => Ok(()),
        Err(err) => Err(err),
    }
}

/// `GitignoreBuilder::build`: the matcher with the builder's globs. Without globs it always
/// succeeds and the matcher's directory is empty; otherwise it fails exactly if the globs do not
/// compile together. Which words the refusal is told in is left open: if several globs do not
/// compile, the words may speak of any one of them.
#[verifier::external_body]
fn build_matcher(builder: &GitignoreBuilder) -> (built: Result<Gitignore, String>)
    ensures
        built is Ok <==> builder_globs(*builder).len() == 0 || globs_compile(
            builder_globs(*builder),
        ),
        built matches Ok(matcher) ==> {
            &&& matcher_globs(matcher) == builder_globs(*builder)
            &&& matcher_root(matcher) == if builder_globs(*builder).len() == 0 {
                Seq::<char>::empty()
            } else {
                builder_root(*builder)
            }
        },
{
    match builder.build() {
        Ok(matcher) => Ok(matcher),
        Err(err) => Err(err.to_string()),
    }
}

/// `Gitignore::matched`: what the globs say of a path; without globs nothing matches.
#[verifier::external_body]
fn match_path(matcher: &Gitignore, path: &str, is_dir: bool) -> (found: IgnoreMatch)
    ensures
        found == match_verdict(matcher_root(*matcher), matcher_globs(*matcher), path@, is_dir),
        matcher_globs(*matcher).len() == 0 ==> found == IgnoreMatch::NoMatch,
{
    match matcher.matched(path, is_dir) {
        Match::None => IgnoreMatch::NoMatch,
        Match::Ignore(_) => IgnoreMatch::Ignore,
        Match::Whitelist(_) => IgnoreMatch::Whitelist,
    }
}

/// Frozen rules: the directory they are relative to, and the globs.
pub struct RulesView {
    pub root: Seq<char>,
    pub globs: Seq<Seq<char>>,
}

/// The rules that a matcher holds.
pub open spec fn rules_of(matcher: Gitignore) -> RulesView {
    RulesView { root: matcher_root(matcher), globs: matcher_globs(matcher) }
}

/// Rules let a path through unless they ignore it.
pub open spec fn lets_through(rules: RulesView, path: Seq<char>, is_dir: bool) -> bool {
    match_verdict(rules.root, rules.globs, path, is_dir) != IgnoreMatch::Ignore
}

/// Whether a file of which the rules say this is to be reported.
pub fn is_reported(verdict: IgnoreMatch) -> (reported: bool)
    ensures
        reported == (verdict != IgnoreMatch::Ignore),
{
    match verdict {
        IgnoreMatch::Ignore => false,
        _ => true,
    }
}

/// Whether a newly created, untracked file is to be reported: it is unless the rules ignore it.
pub fn should_include_new_file(gitignore: &Gitignore, path: &FilePath, is_dir: bool) -> (r: bool)
    ensures
        r == lets_through(rules_of(*gitignore), path@, is_dir),
        rules_of(*gitignore).globs.len() == 0 ==> r,
        r <==> match_verdict(matcher_root(*gitignore), matcher_globs(*gitignore), path@, is_dir)
            != IgnoreMatch::Ignore,
{
    is_reported(match_path(gitignore, path.text(), is_dir))
}

/// The byte order mark.
pub const BOM: char = '\u{feff}';

/// The text without the byte order marks at its start.
pub open spec fn without_bom(text: Seq<char>) -> Seq<char>
    decreases text.len(),
{
    if text.len() > 0 && text[0] == BOM {
        without_bom(text.drop_first())
    } else {
        text
    }
}

/// The globs that a line adds.
pub open spec fn line_globs(line: Seq<char>) -> Seq<Seq<char>> {
    if !spells_no_rule(line) && glob_parses(rule_text(line)) {
        seq![rule_text(line)]
    } else {
        Seq::empty()
    }
}

/// The globs that the first `n` lines of a file add, in their order.
pub open spec fn file_globs(lines: Seq<Seq<char>>, n: int) -> Seq<Seq<char>>
    decreases n,
{
    if n <= 0 {
        Seq::empty()
    } else {
        file_globs(lines, n - 1) + line_globs(
            if n == 1 {
                without_bom(lines[0])
            } else {
                lines[n - 1]
            },
        )
    }
}

/// The globs that the files add, one file after the other.
pub open spec fn all_globs(files: Seq<Seq<Seq<char>>>) -> Seq<Seq<char>>
    decreases files.len(),
{
    if files.len() == 0 {
        Seq::empty()
    } else {
        all_globs(files.drop_last()) + file_globs(files.last(), files.last().len() as int)
    }
}

/// The lines of one `.gitignore` file.
pub struct IgnoreFile {
    pub lines: Vec<String>,
}

impl View for IgnoreFile {
    type V = Seq<Seq<char>>;

    open spec fn view(&self) -> Seq<Seq<char>> {
        texts(self.lines@)
    }
}

/// The lines of each of a list of files.
pub open spec fn file_lines(files: Seq<IgnoreFile>) -> Seq<Seq<Seq<char>>> {
    files.map_values(|f: IgnoreFile| f@)
}

/// Adds the rules of one file to a builder; a line that is refused is passed over.
fn add_file(builder: &mut GitignoreBuilder, file: &IgnoreFile)
    ensures
        builder_root(*final(builder)) == builder_root(*old(builder)),
        builder_globs(*final(builder)) == builder_globs(*old(builder)) + file_globs(
            file@,
            file@.len() as int,
        ),
{
    let ghost before = builder_globs(*builder);
    let mut i: usize = 0;
    assert(before =~= before + file_globs(file@, 0));
    while i < file.lines.len()
        invariant
            i <= file.lines@.len(),
            builder_root(*builder) == builder_root(*old(builder)),
            builder_globs(*builder) == before + file_globs(file@, i as int),
        decreases file.lines@.len() - i,
    {
        let ghost line = if i == 0 {
            without_bom(file@[0])
        } else {
            file@[i as int]
        };
        let ghost globs = builder_globs(*builder);
        let added = if i == 0 {
            add_rule_line(builder, strip_bom(file.lines[0].as_str()).as_str())
        } else {
            add_rule_line(builder, file.lines[i].as_str())
        };
        assert(builder_globs(*builder) =~= globs + line_globs(line));
        assert(before + file_globs(file@, i as int) + line_globs(line) =~= before + file_globs(
            file@,
            i + 1,
        ));
        i = i + 1;
    }
}

fn strip_bom(text: &str) -> (short: String)
    ensures
        short@ == without_bom(text@),
{
    let chars = chars_of(text);
    let mut start: usize = 0;
    assert(chars@.skip(0) =~= chars@);
    while start < chars.len() && chars[start] == BOM
        invariant
            start <= chars@.len(),
            without_bom(chars@.skip(start as int)) == without_bom(chars@),
        decreases chars@.len() - start,
    {
        assert(chars@.skip(start as int).drop_first() =~= chars@.skip(start + 1));
        start = start + 1;
    }
    text_from(&chars, start)
}

/// The rules that the files spell, relative to `repo_root`; rules without any glob are relative to
/// nothing.
pub open spec fn frozen_rules(
    repo_root: Seq<char>,
    files: Seq<Seq<Seq<char>>>,
) -> RulesView {
    RulesView {
        root: if all_globs(files).len() == 0 {
            Seq::empty()
        } else {
            without_dot_slash(repo_root)
        },
        globs: all_globs(files),
    }
}

/// The error of rules that were refused in the given words.
pub open spec fn rules_refused(why: Seq<char>) -> ErrorView {
    ErrorView::Generic("Failed to build gitignore rules: "@ + why)
}

/// The rules, or the error of rules that were refused.
pub fn built_rules(built: Result<Gitignore, String>) -> (rules: Result<Gitignore, GitAiError>)
    ensures
        match built {
            Ok(matcher) => rules matches Ok(r) && r == matcher,
            Err(why) => rules matches Err(error) && error@ == rules_refused(why@),
        },
{
    match built {
        Ok(matcher) => Ok(matcher),
        Err(why) => Err(
            GitAiError::Generic(joined("Failed to build gitignore rules: ", why.as_str())),
        ),
    }
}

/// Builds the frozen rules from the `.gitignore` files of a repository, in the order in which they
/// were found. A line that is no well-formed glob is passed over. Rules that are refused are refused
/// in words of the `ignore` crate, of which nothing is said.
pub fn build_gitignore(repo_root: &str, files: &Vec<IgnoreFile>) -> (built: Result<
    Gitignore,
    GitAiError,
>)
    ensures
        built is Ok <==> all_globs(file_lines(files@)).len() == 0 || globs_compile(
            all_globs(file_lines(files@)),
        ),
        built matches Ok(matcher) ==> rules_of(matcher) == frozen_rules(
            repo_root@,
            file_lines(files@),
        ),
        built matches Ok(matcher) ==> forall|f: int, l: int|
            0 <= f < files@.len() && 0 <= l < files@[f].lines@.len() && spells_a_rule(
                #[trigger] read_line(file_lines(files@)[f], l),
            ) ==> matcher_globs(matcher).contains(rule_text(read_line(file_lines(files@)[f], l))),
        built matches Err(error) ==> exists|why: Seq<char>|
            error@ == #[trigger] rules_refused(why),
{
    let mut builder = new_builder(repo_root);
    let ghost lines = file_lines(files@);
    let mut i: usize = 0;
    assert(lines.take(0) =~= Seq::empty());
    while i < files.len()
        invariant
            i <= files@.len(),
            lines == file_lines(files@),
            builder_root(builder) == without_dot_slash(repo_root@),
            builder_globs(builder) == all_globs(lines.take(i as int)),
        decreases files@.len() - i,
    {
        add_file(&mut builder, &files[i]);
        assert(lines.take(i + 1).drop_last() =~= lines.take(i as int));
        assert(lines.take(i + 1).last() == files@[i as int]@);
        i = i + 1;
    }
    assert(lines.take(i as int) =~= lines);
    proof {
        assert forall|f: int, l: int|
            0 <= f < files@.len() && 0 <= l < files@[f].lines@.len() && spells_a_rule(
                #[trigger] read_line(lines[f], l),
            ) implies all_globs(lines).contains(rule_text(read_line(lines[f], l))) by {
            every_rule_is_frozen(lines, f, l);
        }
    }
    built_rules(build_matcher(&builder))
}

/// How deep below the repository root `.gitignore` files are looked for.
pub const MAX_GITIGNORE_DEPTH: usize = 10;

/// The longest time, in nanoseconds, that the search for `.gitignore` files may take.
pub const GITIGNORE_TIME_LIMIT_NANOS: u64 = 2_000_000_000;

/// The names of directories that are almost always ignored; they are not entered.
pub open spec fn skipped_dir_names() -> Set<Seq<char>> {
    set![
        "node_modules"@,
        "target"@,
        ".build"@,
        "vendor"@,
        "__pycache__"@,
        ".venv"@,
        "dist"@,
        "build"@,
    ]
}

/// Whether a directory of this name is searched for `.gitignore` files.
pub open spec fn is_searched(name: Seq<char>) -> bool {
    name != ".git"@ && !skipped_dir_names().contains(name)
}

fn searched(name: &str) -> (yes: bool)
    ensures
        yes == is_searched(name@),
{
    !(same_text(name, ".git") || same_text(name, "node_modules") || same_text(name, "target")
        || same_text(name, ".build") || same_text(name, "vendor") || same_text(name, "__pycache__")
        || same_text(name, ".venv") || same_text(name, "dist") || same_text(name, "build"))
}

/// A directory that is still to be searched: the place where it is found, and its depth below the
/// root. What a place is, the caller decides.
pub struct ScanDir<T> {
    pub place: T,
    pub depth: usize,
}

impl<T> View for ScanDir<T> {
    type V = (T, int);

    open spec fn view(&self) -> (T, int) {
        (self.place, self.depth as int)
    }
}

/// The places and depths of a list of directories.
pub open spec fn dir_views<T>(dirs: Seq<ScanDir<T>>) -> Seq<(T, int)> {
    dirs.map_values(|d: ScanDir<T>| d@)
}

/// The names and places of a list of subdirectories.
pub open spec fn subdir_views<T>(subdirs: Seq<(String, T)>) -> Seq<(Seq<char>, T)> {
    subdirs.map_values(|s: (String, T)| (s.0@, s.1))
}

/// A search for `.gitignore` files: the files found, and the directories still to be searched, the
/// next one last.
pub struct IgnoreScan<T> {
    pub files: Vec<IgnoreFile>,
    pub pending: Vec<ScanDir<T>>,
}

/// The subdirectories to be searched among those listed, the first one last.
pub open spec fn searched_children<T>(depth: int, subdirs: Seq<(Seq<char>, T)>) -> Seq<(T, int)>
    decreases subdirs.len(),
{
    if subdirs.len() == 0 {
        Seq::empty()
    } else {
        let rest = searched_children(depth, subdirs.drop_first());
        if is_searched(subdirs[0].0) {
            rest.push((subdirs[0].1, depth + 1))
        } else {
            rest
        }
    }
}

impl<T> IgnoreScan<T> {
    /// A search that begins at the root of the repository.
    pub fn new(root: T) -> (scan: IgnoreScan<T>)
        ensures
            scan.files@.len() == 0,
            dir_views(scan.pending@) == seq![(root, 0int)],
    {
        let mut pending: Vec<ScanDir<T>> = Vec::new();
        pending.push(ScanDir { place: root, depth: 0 });
        let scan = IgnoreScan { files: Vec::new(), pending };
        assert(dir_views(scan.pending@) =~= seq![(root, 0int)]);
        scan
    }

    /// Takes the next directory to be searched. Directories that are too deep are passed over; once
    /// the time is up there is none.
    pub fn next_dir(&mut self, elapsed_nanos: u128) -> (dir: Option<ScanDir<T>>)
        ensures
            final(self).files@ == old(self).files@,
            match dir {
                Some(d) => {
                    let n = final(self).pending@.len() as int;
                    &&& elapsed_nanos <= GITIGNORE_TIME_LIMIT_NANOS
                    &&& n < old(self).pending@.len()
                    &&& final(self).pending@ == old(self).pending@.take(n)
                    &&& d == old(self).pending@[n]
                    &&& d.depth < MAX_GITIGNORE_DEPTH
                    &&& forall|i: int|
                        n < i < old(self).pending@.len() ==> (#[trigger] old(
                            self,
                        ).pending@[i]).depth >= MAX_GITIGNORE_DEPTH
                },
                None => {
                    &&& final(self).pending@.len() == 0
                    &&& elapsed_nanos > GITIGNORE_TIME_LIMIT_NANOS || forall|i: int|
                        0 <= i < old(self).pending@.len() ==> (#[trigger] old(
                            self,
                        ).pending@[i]).depth >= MAX_GITIGNORE_DEPTH
                },
            },
    {
        let time_is_up = elapsed_nanos > GITIGNORE_TIME_LIMIT_NANOS as u128;
        let ghost before = self.pending@;
        assert(before.take(before.len() as int) =~= before);
        while self.pending.len() > 0
            invariant
                self.files@ == old(self).files@,
                before == old(self).pending@,
                self.pending@.len() <= before.len(),
                self.pending@ == before.take(self.pending@.len() as int),
                time_is_up == (elapsed_nanos > GITIGNORE_TIME_LIMIT_NANOS),
                time_is_up || forall|i: int|
                    self.pending@.len() <= i < before.len() ==> (#[trigger] before[i]).depth
                        >= MAX_GITIGNORE_DEPTH,
            decreases self.pending@.len(),
        {
            let dir = self.pending.pop().unwrap();
            assert(self.pending@ =~= before.take(self.pending@.len() as int));
            if !time_is_up && dir.depth < MAX_GITIGNORE_DEPTH {
                return Some(dir);
            }
        }
        None
    }

    /// Records what was found in a directory at the given depth: the lines of its `.gitignore` file,
    /// if it has one, and its subdirectories with their names and places, in the order in which they
    /// were listed.
    pub fn record(&mut self, depth: usize, lines: Option<Vec<String>>, subdirs: Vec<(String, T)>)
        requires
            depth < MAX_GITIGNORE_DEPTH,
        ensures
            file_lines(final(self).files@) == match lines {
                Some(l) => file_lines(old(self).files@).push(texts(l@)),
                None => file_lines(old(self).files@),
            },
            dir_views(final(self).pending@) == dir_views(old(self).pending@) + searched_children(
                depth as int,
                subdir_views(subdirs@),
            ),
    {
        let ghost files = file_lines(self.files@);
        match lines {
            Some(lines) => {
                self.files.push(IgnoreFile { lines });
                assert(file_lines(self.files@) =~= files.push(texts(lines@)));
            },
            None => {},
        }
        let ghost before = dir_views(self.pending@);
        let ghost all = subdir_views(subdirs@);
        let ghost listed = subdirs@;
        let mut rest = subdirs;
        assert(all.skip(all.len() as int) =~= Seq::empty());
        assert(before =~= before + searched_children(depth as int, all.skip(all.len() as int)));
        assert(listed.take(listed.len() as int) =~= listed);
        while rest.len() > 0
            invariant
                rest@.len() <= listed.len(),
                rest@ == listed.take(rest@.len() as int),
                all == subdir_views(listed),
                depth < MAX_GITIGNORE_DEPTH,
                file_lines(self.files@) == match lines {
                    Some(l) => files.push(texts(l@)),
                    None => files,
                },
                dir_views(self.pending@) == before + searched_children(
                    depth as int,
                    all.skip(rest@.len() as int),
                ),
            decreases rest@.len(),
        {
            let ghost i = rest@.len() - 1;
            let ghost now = dir_views(self.pending@);
            let (name, place) = rest.pop().unwrap();
            assert(rest@ =~= listed.take(i));
            assert(all.skip(i).drop_first() =~= all.skip(i + 1));
            assert(all.skip(i)[0] == (name@, place));
            if searched(name.as_str()) {
                let child = ScanDir { place, depth: depth + 1 };
                self.pending.push(child);
                assert(dir_views(self.pending@) =~= now.push(child@));
                assert(dir_views(self.pending@) =~= before + searched_children(
                    depth as int,
                    all.skip(i),
                ));
            }
        }
        assert(all.skip(0) =~= all);
    }
}

/// What a directory holds: the lines of its `.gitignore` file, if it has one, and its subdirectories
/// with their names and places, in the order in which they are listed.
pub struct Listing<T> {
    pub lines: Option<Seq<Seq<char>>>,
    pub subdirs: Seq<(Seq<char>, T)>,
}

/// The files that one directory contributes itself.
pub open spec fn own_files<T>(listing: Listing<T>) -> Seq<Seq<Seq<char>>> {
    match listing.lines {
        Some(lines) => seq![lines],
        None => Seq::empty(),
    }
}

/// The `.gitignore` files at and below a directory: its own, then those of each searched
/// subdirectory in turn, down to the depth limit.
pub open spec fn files_below<T>(tree: spec_fn(T) -> Listing<T>, place: T, depth: int) -> Seq<
    Seq<Seq<char>>,
>
    decreases 2 * (MAX_GITIGNORE_DEPTH - depth), 0nat,
{
    if depth >= MAX_GITIGNORE_DEPTH {
        Seq::empty()
    } else {
        own_files(tree(place)) + files_of_subdirs(tree, tree(place).subdirs, depth + 1)
    }
}

/// The `.gitignore` files at and below the listed subdirectories, which are `depth` below the root.
pub open spec fn files_of_subdirs<T>(
    tree: spec_fn(T) -> Listing<T>,
    subdirs: Seq<(Seq<char>, T)>,
    depth: int,
) -> Seq<Seq<Seq<char>>>
    decreases 2 * (MAX_GITIGNORE_DEPTH - depth) + 1, subdirs.len(),
{
    if subdirs.len() == 0 || depth > MAX_GITIGNORE_DEPTH {
        Seq::empty()
    } else {
        (if is_searched(subdirs[0].0) {
            files_below(tree, subdirs[0].1, depth)
        } else {
            Seq::empty()
        }) + files_of_subdirs(tree, subdirs.drop_first(), depth)
    }
}

/// The `.gitignore` files at and below the pending directories, taken from the last one on.
pub open spec fn files_pending<T>(
    tree: spec_fn(T) -> Listing<T>,
    pending: Seq<(T, int)>,
) -> Seq<Seq<Seq<char>>>
    decreases pending.len(),
{
    if pending.len() == 0 {
        Seq::empty()
    } else {
        files_below(tree, pending.last().0, pending.last().1) + files_pending(
            tree,
            pending.drop_last(),
        )
    }
}

proof fn lemma_pending_children<T>(
    tree: spec_fn(T) -> Listing<T>,
    base: Seq<(T, int)>,
    depth: int,
    subdirs: Seq<(Seq<char>, T)>,
)
    requires
        depth < MAX_GITIGNORE_DEPTH,
    ensures
        files_pending(tree, base + searched_children(depth, subdirs)) == files_of_subdirs(
            tree,
            subdirs,
            depth + 1,
        ) + files_pending(tree, base),
    decreases subdirs.len(),
{
    let stack = base + searched_children(depth, subdirs);
    if subdirs.len() == 0 {
        assert(stack =~= base);
        assert(Seq::<Seq<Seq<char>>>::empty() + files_pending(tree, base) =~= files_pending(
            tree,
            base,
        ));
    } else {
        let rest = subdirs.drop_first();
        lemma_pending_children(tree, base, depth, rest);
        if is_searched(subdirs[0].0) {
            assert(stack.drop_last() =~= base + searched_children(depth, rest));
            assert(files_pending(tree, stack) =~= files_below(tree, subdirs[0].1, depth + 1) + (
            files_of_subdirs(tree, rest, depth + 1) + files_pending(tree, base)));
            assert(files_pending(tree, stack) =~= files_of_subdirs(tree, subdirs, depth + 1)
                + files_pending(tree, base));
        } else {
            assert(files_of_subdirs(tree, subdirs, depth + 1) =~= files_of_subdirs(
                tree,
                rest,
                depth + 1,
            ));
        }
    }
}

/// A search finds the files of the whole tree in the order of the recursive descent: at its start
/// the pending directories stand for the whole tree, and each directory that is taken and recorded
/// leaves the files found so far, followed by those still pending, as they were. A directory that is
/// too deep stands for no file.
pub proof fn search_follows_the_descent<T>(
    tree: spec_fn(T) -> Listing<T>,
    root: T,
    files: Seq<Seq<Seq<char>>>,
    pending: Seq<(T, int)>,
    dir: (T, int),
)
    ensures
        files_pending(tree, seq![(root, 0int)]) == files_below(tree, root, 0),
        files_pending(tree, Seq::empty()) == Seq::<Seq<Seq<char>>>::empty(),
        dir.1 >= MAX_GITIGNORE_DEPTH ==> files_pending(tree, pending.push(dir)) == files_pending(
            tree,
            pending,
        ),
        dir.1 < MAX_GITIGNORE_DEPTH ==> files + files_pending(tree, pending.push(dir)) == (files
            + own_files(tree(dir.0))) + files_pending(
            tree,
            pending + searched_children(dir.1, tree(dir.0).subdirs),
        ),
{
    let none: Seq<Seq<Seq<char>>> = Seq::empty();
    let start = seq![(root, 0int)];
    assert(start.drop_last() =~= Seq::empty());
    assert(files_pending(tree, start.drop_last()) == none);
    assert(files_pending(tree, start) =~= files_below(tree, root, 0));
    assert(pending.push(dir).drop_last() =~= pending);
    if dir.1 >= MAX_GITIGNORE_DEPTH {
        assert(none + files_pending(tree, pending) =~= files_pending(tree, pending));
    } else {
        lemma_pending_children(tree, pending, dir.1, tree(dir.0).subdirs);
        assert(files + files_pending(tree, pending.push(dir)) =~= (files + own_files(tree(dir.0)))
            + files_pending(tree, pending + searched_children(dir.1, tree(dir.0).subdirs)));
    }
}

/// The text of a line as it is read: the first line of a file without its byte order marks.
pub open spec fn read_line(lines: Seq<Seq<char>>, l: int) -> Seq<char> {
    if l == 0 {
        without_bom(lines[0])
    } else {
        lines[l]
    }
}

/// A line that is no comment and not empty, and whose rule is a well-formed glob.
pub open spec fn spells_a_rule(line: Seq<char>) -> bool {
    !spells_no_rule(line) && glob_parses(rule_text(line))
}

proof fn lemma_file_globs(lines: Seq<Seq<char>>, more: Seq<Seq<char>>, n: int)
    requires
        n <= lines.len(),
        n <= more.len(),
        forall|i: int| 0 <= i < n ==> #[trigger] lines[i] == more[i],
    ensures
        file_globs(lines, n) == file_globs(more, n),
    decreases n,
{
    if n > 0 {
        assert(lines[n - 1] == more[n - 1]);
        assert(lines[0] == more[0]);
        lemma_file_globs(lines, more, n - 1);
    }
}

/// Rules are frozen file by file and line by line, in their order: one more line at the end adds its
/// rule at the end if it is no comment, is not empty and is a well-formed glob, and otherwise nothing.
/// The first line of a file is read without its byte order marks. A file without lines adds nothing.
pub proof fn rules_are_frozen_line_by_line(
    files: Seq<Seq<Seq<char>>>,
    lines: Seq<Seq<char>>,
    line: Seq<char>,
)
    ensures
        all_globs(Seq::empty()) == Seq::<Seq<char>>::empty(),
        all_globs(files.push(Seq::empty())) == all_globs(files),
        ({
            let read = if lines.len() == 0 {
                without_bom(line)
            } else {
                line
            };
            all_globs(files.push(lines.push(line))) == if spells_no_rule(read) || !glob_parses(
                rule_text(read),
            ) {
                all_globs(files.push(lines))
            } else {
                all_globs(files.push(lines)).push(rule_text(read))
            }
        }),
{
    let more = lines.push(line);
    let n = lines.len() as int;
    assert(files.push(more).drop_last() =~= files);
    assert(files.push(lines).drop_last() =~= files);
    assert(files.push(Seq::empty()).drop_last() =~= files);
    lemma_file_globs(lines, more, n);
    assert(more[n] == line);
    let old = file_globs(lines, n);
    assert(all_globs(files) + file_globs(Seq::empty(), 0) =~= all_globs(files));
    assert(file_globs(more, n + 1) == old + line_globs(
        if n == 0 {
            without_bom(line)
        } else {
            line
        },
    ));
    assert(forall|g: Seq<char>|
        all_globs(files) + (old + seq![g]) =~= (all_globs(files) + old).push(g));
    assert(all_globs(files) + (old + Seq::<Seq<char>>::empty()) =~= all_globs(files) + old);
}

proof fn lemma_rule_in_file(lines: Seq<Seq<char>>, n: int, l: int)
    requires
        0 <= l < n <= lines.len(),
        spells_a_rule(read_line(lines, l)),
    ensures
        file_globs(lines, n).contains(rule_text(read_line(lines, l))),
    decreases n,
{
    let g = rule_text(read_line(lines, l));
    let old = file_globs(lines, n - 1);
    let all = file_globs(lines, n);
    if l == n - 1 {
        assert(all[old.len() as int] == g);
    } else {
        lemma_rule_in_file(lines, n - 1, l);
        let k = choose|k: int| 0 <= k < old.len() && old[k] == g;
        assert(all[k] == g);
    }
}

/// Every line of every file that is no comment, is not empty and is a well-formed glob has its rule
/// among the frozen ones, whatever it says.
pub proof fn every_rule_is_frozen(files: Seq<Seq<Seq<char>>>, f: int, l: int)
    requires
        0 <= f < files.len(),
        0 <= l < files[f].len(),
        !spells_no_rule(read_line(files[f], l)),
        glob_parses(rule_text(read_line(files[f], l))),
    ensures
        all_globs(files).contains(rule_text(read_line(files[f], l))),
    decreases files.len(),
{
    let g = rule_text(read_line(files[f], l));
    let old = all_globs(files.drop_last());
    let new = file_globs(files.last(), files.last().len() as int);
    if f == files.len() - 1 {
        lemma_rule_in_file(files[f], files[f].len() as int, l);
        let k = choose|k: int| 0 <= k < new.len() && new[k] == g;
        assert((old + new)[old.len() + k] == g);
    } else {
        assert(files.drop_last()[f] == files[f]);
        every_rule_is_frozen(files.drop_last(), f, l);
        let k = choose|k: int| 0 <= k < old.len() && old[k] == g;
        assert((old + new)[k] == g);
    }
}

proof fn lemma_only_rules_in_file(lines: Seq<Seq<char>>, n: int, k: int) -> (l: int)
    requires
        0 <= n <= lines.len(),
        0 <= k < file_globs(lines, n).len(),
    ensures
        0 <= l < n,
        spells_a_rule(read_line(lines, l)),
        file_globs(lines, n)[k] == rule_text(read_line(lines, l)),
    decreases n,
{
    let old = file_globs(lines, n - 1);
    if k < old.len() {
        lemma_only_rules_in_file(lines, n - 1, k)
    } else {
        n - 1
    }
}

/// Each frozen rule is that of a line that is no comment, is not empty and is a well-formed glob.
pub proof fn only_rules_are_frozen(files: Seq<Seq<Seq<char>>>, k: int) -> (from: (int, int))
    requires
        0 <= k < all_globs(files).len(),
    ensures
        0 <= from.0 < files.len(),
        0 <= from.1 < files[from.0].len(),
        !spells_no_rule(read_line(files[from.0], from.1)),
        glob_parses(rule_text(read_line(files[from.0], from.1))),
        all_globs(files)[k] == rule_text(read_line(files[from.0], from.1)),
    decreases files.len(),
{
    let old = all_globs(files.drop_last());
    if k < old.len() {
        let from = only_rules_are_frozen(files.drop_last(), k);
        assert(files.drop_last()[from.0] == files[from.0]);
        from
    } else {
        let l = lemma_only_rules_in_file(files.last(), files.last().len() as int, k - old.len());
        (files.len() - 1, l)
    }
}

/// The byte order marks at the start of a text are dropped, and nothing else.
pub proof fn byte_order_marks_are_dropped(text: Seq<char>) -> (start: int)
    ensures
        0 <= start <= text.len(),
        without_bom(text) == text.skip(start),
        forall|i: int| 0 <= i < start ==> #[trigger] text[i] == '\u{feff}',
        start < text.len() ==> text[start] != '\u{feff}',
    decreases text.len(),
{
    if text.len() > 0 && text[0] == BOM {
        let rest = text.drop_first();
        let inner = byte_order_marks_are_dropped(rest);
        assert(rest.skip(inner) =~= text.skip(inner + 1));
        assert forall|i: int| 0 <= i < inner + 1 implies #[trigger] text[i] == '\u{feff}' by {
            if i > 0 {
                assert(rest[i - 1] == text[i]);
            }
        }
        inner + 1
    } else {
        assert(text.skip(0) =~= text);
        0
    }
}

/// The rule of a line is the line without the white space at its end; a line that ends in an escaped
/// blank is its own rule. A line spells no rule if it begins with `#` or is nothing but white space.
pub proof fn lines_spell_their_rules(line: Seq<char>)
    ensures
        ({
            let rule = rule_text(line);
            let escaped = line.len() >= 2 && line[line.len() - 2] == '\\' && line[line.len() - 1]
                == ' ';
            &&& rule.len() <= line.len()
            &&& forall|i: int| 0 <= i < rule.len() ==> #[trigger] rule[i] == line[i]
            &&& escaped ==> rule == line
            &&& !escaped ==> forall|i: int| rule.len() <= i < line.len() ==> is_white(
                #[trigger] line[i],
            )
            &&& !escaped && rule.len() > 0 ==> !is_white(rule[rule.len() - 1])
            &&& spells_no_rule(line) <==> (line.len() > 0 && line[0] == '#') || rule.len() == 0
        }),
{
    let ends = trimming_takes_white_ends_off(line);
}

/// Rules let a path through exactly if the verdict of the matcher is not that they ignore it.
pub proof fn rules_let_through_what_they_do_not_ignore(
    rules: RulesView,
    path: Seq<char>,
    is_dir: bool,
)
    ensures
        lets_through(rules, path, is_dir) <==> match_verdict(rules.root, rules.globs, path, is_dir)
            != IgnoreMatch::Ignore,
{
}

/// Frozen rules hold what the files spell, and are relative to the root of the repository without a
/// leading `./`; without any rule they are relative to nothing. A matcher shows what it holds.
pub proof fn frozen_rules_hold_what_the_files_spell(
    repo_root: Seq<char>,
    files: Seq<Seq<Seq<char>>>,
    matcher: Gitignore,
)
    ensures
        frozen_rules(repo_root, files).globs == all_globs(files),
        all_globs(files).len() == 0 ==> frozen_rules(repo_root, files).root.len() == 0,
        all_globs(files).len() > 0 && repo_root.len() >= 2 && repo_root[0] == '.' && repo_root[1]
            == '/' ==> frozen_rules(repo_root, files).root == repo_root.skip(2),
        all_globs(files).len() > 0 && !(repo_root.len() >= 2 && repo_root[0] == '.' && repo_root[1]
            == '/') ==> frozen_rules(repo_root, files).root == repo_root,
        rules_of(matcher).root == matcher_root(matcher),
        rules_of(matcher).globs == matcher_globs(matcher),
{
}

/// Every directory is searched for `.gitignore` files but the one of git itself and those of a few
/// well-known names.
pub proof fn all_but_a_few_directories_are_searched(name: Seq<char>)
    ensures
        !is_searched(name) <==> {
            ||| name == ".git"@
            ||| name == "node_modules"@
            ||| name == "target"@
            ||| name == ".build"@
            ||| name == "vendor"@
            ||| name == "__pycache__"@
            ||| name == ".venv"@
            ||| name == "dist"@
            ||| name == "build"@
        },
{
}

/// Of the listed subdirectories each one that is searched is to be searched, one deeper, and the
/// first one next.
pub proof fn subdirectories_are_searched_in_turn<T>(
    depth: int,
    first: (Seq<char>, T),
    rest: Seq<(Seq<char>, T)>,
)
    ensures
        searched_children(depth, Seq::<(Seq<char>, T)>::empty()) == Seq::<(T, int)>::empty(),
        searched_children(depth, seq![first] + rest) == if first.0 == ".git"@ || first.0
            == "node_modules"@ || first.0 == "target"@ || first.0 == ".build"@ || first.0
            == "vendor"@ || first.0 == "__pycache__"@ || first.0 == ".venv"@ || first.0 == "dist"@
            || first.0 == "build"@ {
            searched_children(depth, rest)
        } else {
            searched_children(depth, rest).push((first.1, depth + 1))
        },
{
    assert((seq![first] + rest).drop_first() =~= rest);
    assert((seq![first] + rest)[0] == first);
}

/// Files and directories show what they hold, one for each, in their order.
pub proof fn files_and_directories_show_what_they_hold<T>(
    file: IgnoreFile,
    files: Seq<IgnoreFile>,
    dirs: Seq<ScanDir<T>>,
    subdirs: Seq<(String, T)>,
)
    ensures
        file@ == texts(file.lines@),
        file_lines(files).len() == files.len(),
        forall|i: int| 0 <= i < files.len() ==> #[trigger] file_lines(files)[i] == files[i]@,
        dir_views(dirs).len() == dirs.len(),
        forall|i: int|
            0 <= i < dirs.len() ==> #[trigger] dir_views(dirs)[i] == (
                dirs[i].place,
                dirs[i].depth as int,
            ),
        subdir_views(subdirs).len() == subdirs.len(),
        forall|i: int|
            0 <= i < subdirs.len() ==> #[trigger] subdir_views(subdirs)[i] == (
                subdirs[i].0@,
                subdirs[i].1,
            ),
{
}

/// Rules that are refused are told in the words of the refusal, after what could not be done.
pub proof fn refusals_are_told_in_full(why: Seq<char>)
    ensures
        rules_refused(why) == ErrorView::Generic("Failed to build gitignore rules: "@ + why),
{
}

} // verus!
