//! Paths as texts that are compared component by component.

use vstd::prelude::*;
use vstd::utf8::*;

use crate::order::{bytes_lt, key_lt, lemma_key_order, lex_splits, order_bytes, part_lt, placed, Key};
use crate::order::{Part, Placement};
use crate::text::{ascii_lower, capitals_have_small_letters, glued, lemma_ascii_byte_is_char};
use crate::text::{lemma_encode_append, normalize_to_posix, only_backslashes_are_rewritten, posix_form};
use crate::text::{split_at_each, split_bytes, splitting_undoes_gluing};

verus! {

/// The kinds of path components, in the order in which they compare.
pub const ROOT_DIR: u8 = 0;

pub const CUR_DIR: u8 = 1;

pub const PARENT_DIR: u8 = 2;

pub const NORMAL: u8 = 3;

/// What the pieces between slashes stand for: empty pieces and `.` for nothing, `..` for the
/// parent directory, any other piece for the entry of that name.
pub open spec fn segment_parts(segments: Seq<Seq<u8>>) -> Key
    decreases segments.len(),
{
    if segments.len() == 0 {
        Seq::empty()
    } else {
        let before = segment_parts(segments.drop_last());
        let name = segments.last();
        if name == Seq::<u8>::empty() || name == seq![0x2eu8] {
            before
        } else if name == seq![0x2eu8, 0x2eu8] {
            before.push((PARENT_DIR as int, Seq::empty()))
        } else {
            before.push((NORMAL as int, name))
        }
    }
}

/// The component that only the start of a path can give: the root, or a leading `.`.
pub open spec fn leading_part(bytes: Seq<u8>) -> Key {
    if bytes.len() > 0 && bytes[0] == 0x2f {
        seq![(ROOT_DIR as int, Seq::empty())]
    } else if split_at_each(bytes, 0x2fu8)[0] == seq![0x2eu8] {
        seq![(CUR_DIR as int, Seq::empty())]
    } else {
        Seq::empty()
    }
}

/// The components of a path text, by which paths are compared.
pub open spec fn path_key(text: Seq<char>) -> Key {
    let bytes = encode_utf8(text);
    leading_part(bytes) + segment_parts(split_at_each(bytes, 0x2fu8))
}

#[derive(Debug)]
struct PathPart {
    kind: u8,
    name: Vec<u8>,
}

spec fn part_of(part: PathPart) -> Part {
    (part.kind as int, part.name@)
}

spec fn key_of(parts: Seq<PathPart>) -> Key {
    parts.map_values(|p: PathPart| part_of(p))
}

/// A path: its text, and its components kept beside it. The components are parted by `/`; the path
/// of a system that parts them otherwise comes in through `from_system`.
#[derive(Debug)]
pub struct FilePath {
    text: String,
    parts: Vec<PathPart>,
}

impl View for FilePath {
    type V = Seq<char>;

    closed spec fn view(&self) -> Seq<char> {
        self.text@
    }
}

impl FilePath {
    #[verifier::type_invariant]
    spec fn parts_match(self) -> bool {
        key_of(self.parts@) == path_key(self.text@)
    }

    /// The path with the given text.
    pub fn new(text: &str) -> (path: FilePath)
        ensures
            path@ == text@,
    {
        let bytes = text.as_bytes();
        let segments = split_bytes(bytes, 0x2f);
        let ghost pieces = split_at_each(bytes@, 0x2fu8);
        let mut parts: Vec<PathPart> = Vec::new();
        if bytes.len() > 0 && bytes[0] == 0x2f {
            parts.push(PathPart { kind: ROOT_DIR, name: Vec::new() });
        } else if segments.len() > 0 && segments[0].len() == 1 && segments[0][0] == 0x2e {
            assert(segments@[0]@ =~= seq![0x2eu8]);
            parts.push(PathPart { kind: CUR_DIR, name: Vec::new() });
        }
        proof {
            lemma_split_nonempty(bytes@, 0x2fu8);
            assert(key_of(parts@) =~= leading_part(bytes@));
            assert(pieces.take(0) =~= Seq::empty());
            assert(key_of(parts@) =~= leading_part(bytes@) + segment_parts(pieces.take(0)));
        }
        let mut i: usize = 0;
        while i < segments.len()
            invariant
                i <= segments@.len(),
                segments@.len() == pieces.len(),
                forall|j: int| 0 <= j < segments@.len() ==> (#[trigger] segments@[j])@ == pieces[j],
                key_of(parts@) == leading_part(bytes@) + segment_parts(pieces.take(i as int)),
            decreases segments@.len() - i,
        {
            let segment = &segments[i];
            let ghost before = parts@;
            proof {
                assert(pieces.take(i + 1).drop_last() =~= pieces.take(i as int));
                assert(pieces.take(i + 1).last() == segment@);
                assert(segment@.len() == 1 && segment@[0] == 0x2e ==> segment@ =~= seq![0x2eu8]);
                assert(segment@.len() == 2 && segment@[0] == 0x2e && segment@[1] == 0x2e
                    ==> segment@ =~= seq![0x2eu8, 0x2eu8]);
                assert(segment@.len() == 0 ==> segment@ =~= Seq::<u8>::empty());
            }
            let skipped = segment.len() == 0 || (segment.len() == 1 && segment[0] == 0x2e);
            if !skipped {
                let part = if segment.len() == 2 && segment[0] == 0x2e && segment[1] == 0x2e {
                    PathPart { kind: PARENT_DIR, name: Vec::new() }
                } else {
                    PathPart { kind: NORMAL, name: segment.clone() }
                };
                parts.push(part);
                assert(key_of(parts@) =~= key_of(before).push(part_of(part)));
                assert(part.name@ =~= segment@ || part.name@ =~= Seq::<u8>::empty());
                assert(key_of(parts@) =~= leading_part(bytes@) + segment_parts(
                    pieces.take(i + 1),
                ));
            }
            i = i + 1;
        }
        assert(pieces.take(i as int) =~= pieces);
        FilePath { text: text.to_owned(), parts }
    }

    /// The path that a system writes in the given way.
    pub fn from_system(system: PathSystem, text: &str) -> (path: FilePath)
        ensures
            path@ == slashed(system, text@),
    {
        match system {
            PathSystem::Windows => FilePath::new(normalize_to_posix(text).as_str()),
            _ => FilePath::new(text),
        }
    }

    /// The text of the path.
    pub fn text(&self) -> (text: &str)
        ensures
            text@ == self@,
    {
        self.text.as_str()
    }

    /// A path with the same text.
    pub fn copy(&self) -> (path: FilePath)
        ensures
            path@ == self@,
    {
        FilePath::new(self.text.as_str())
    }

    /// Compares two paths component by component.
    pub fn compare(&self, other: &FilePath) -> (p: Placement)
        ensures
            placed(p, path_key(self@), path_key(other@)),
            p == Placement::Equal <==> path_key(self@) == path_key(other@),
            p == Placement::Less <==> key_lt(path_key(self@), path_key(other@)),
            p == Placement::Greater <==> key_lt(path_key(other@), path_key(self@)),
    {
        proof {
            lemma_key_order();
            use_type_invariant(self);
            use_type_invariant(other);
        }
        let ghost lt = |x: Part, y: Part| part_lt(x, y);
        let ghost a = path_key(self@);
        let ghost b = path_key(other@);
        let mut i: usize = 0;
        while i < self.parts.len() && i < other.parts.len()
            invariant
                i <= self.parts@.len(),
                i <= other.parts@.len(),
                a == key_of(self.parts@),
                b == key_of(other.parts@),
                a == path_key(self@),
                b == path_key(other@),
                lt == (|x: Part, y: Part| part_lt(x, y)),
                forall|j: int| 0 <= j < i ==> #[trigger] a[j] == b[j],
            decreases self.parts@.len() - i,
        {
            let x = &self.parts[i];
            let y = &other.parts[i];
            assert(a[i as int] == part_of(*x));
            assert(b[i as int] == part_of(*y));
            if x.kind < y.kind {
                assert(lex_splits(a, b, lt, i as int));
                return Placement::Less;
            }
            if y.kind < x.kind {
                assert(lex_splits(b, a, lt, i as int));
                return Placement::Greater;
            }
            match order_bytes(x.name.as_slice(), y.name.as_slice()) {
                Placement::Less => {
                    assert(lex_splits(a, b, lt, i as int));
                    return Placement::Less;
                },
                Placement::Greater => {
                    assert(lex_splits(b, a, lt, i as int));
                    return Placement::Greater;
                },
                Placement::Equal => {},
            }
            i = i + 1;
        }
        if self.parts.len() < other.parts.len() {
            assert(lex_splits(a, b, lt, i as int));
            Placement::Less
        } else if other.parts.len() < self.parts.len() {
            assert(lex_splits(b, a, lt, i as int));
            Placement::Greater
        } else {
            assert(a =~= b);
            Placement::Equal
        }
    }
}

/// A split always has a piece.
pub proof fn lemma_split_nonempty<T>(s: Seq<T>, sep: T)
    ensures
        split_at_each(s, sep).len() > 0,
    decreases s.len(),
{
    if s.len() > 0 {
        lemma_split_nonempty(s.drop_last(), sep);
    }
}

/// The systems whose paths are told apart: by how they write a path, and by whether the file system
/// tells apart the capital and the small form of a letter.
#[derive(Debug, Clone, Copy, PartialEq, Eq, Structural)]
pub enum PathSystem {
    /// Paths are parted by `/`, and the case counts.
    Unix,
    /// Paths are parted by `/`, and the case does not count.
    MacOs,
    /// Paths are parted by `/` and by `\`, and the case does not count.
    Windows,
}

/// The case does not count.
pub open spec fn folds_case(system: PathSystem) -> bool {
    system != PathSystem::Unix
}

/// A path of the system, parted by `/` alone.
pub open spec fn slashed(system: PathSystem, text: Seq<char>) -> Seq<char> {
    match system {
        PathSystem::Windows => posix_form(text),
        _ => text,
    }
}

/// Every character is an ASCII character.
pub open spec fn is_ascii_text(text: Seq<char>) -> bool {
    forall|i: int| 0 <= i < text.len() ==> ((#[trigger] text[i]) as u32) < 128
}

/// The text with its ASCII capitals made small.
pub open spec fn ascii_folded(text: Seq<char>) -> Seq<char> {
    text.map_values(|c: char| ascii_lower(c))
}

/// The text that `str::to_lowercase` gives.
pub uninterp spec fn lower_cased(text: Seq<char>) -> Seq<char>;

/// `str::to_lowercase`: the lower case of a text by the Unicode rules, which depends on the text
/// alone. In an ASCII text the capitals are made small and nothing else changes, so that its lower
/// case is its own lower case. Nothing more is claimed of the lower case of a lower case.
#[verifier::external_body]
fn lower_case(text: &str) -> (lower: String)
    ensures
        lower@ == lower_cased(text@),
        is_ascii_text(text@) ==> lower@ == ascii_folded(text@) && lower_cased(lower@) == lower@,
{
    text.to_lowercase()
}

/// The form of a path under which it is stored: the path itself, in lower case on a system where the
/// case does not count.
pub open spec fn normalized(system: PathSystem, text: Seq<char>) -> Seq<char> {
    if folds_case(system) {
        lower_cased(text)
    } else {
        text
    }
}

/// Normalizes a path of the given system for use as a map key. Where the case does not count it is
/// folded; normalizing the key again changes nothing where the case counts, nor where the path is in
/// ASCII.
pub fn normalize_path(system: PathSystem, path: &FilePath) -> (key: FilePath)
    ensures
        key@ == normalized(system, path@),
        !folds_case(system) ==> key@ == path@,
        folds_case(system) && is_ascii_text(path@) ==> key@ == ascii_folded(path@),
        !folds_case(system) || is_ascii_text(path@) ==> normalized(system, key@) == key@,
{
    match system {
        PathSystem::Unix => path.copy(),
        _ => FilePath::new(lower_case(path.text()).as_str()),
    }
}

/// Where the case counts, normalizing leaves a path as it is, however often.
pub proof fn normalizing_keeps_the_path(text: Seq<char>)
    ensures
        normalized(PathSystem::Unix, text) == text,
        normalized(PathSystem::Unix, normalized(PathSystem::Unix, text)) == normalized(
            PathSystem::Unix,
            text,
        ),
{
}

/// Folding an ASCII text gives an ASCII text, which folding leaves as it is; two texts that differ
/// in the case of ASCII letters alone are folded into the same.
pub proof fn spellings_fold_into_one(one: Seq<char>, other: Seq<char>)
    requires
        one.len() == other.len(),
        forall|i: int| 0 <= i < one.len() ==> ascii_lower(#[trigger] one[i]) == ascii_lower(other[i]),
    ensures
        ascii_folded(one) == ascii_folded(other),
        ascii_folded(ascii_folded(one)) == ascii_folded(one),
        is_ascii_text(one) ==> is_ascii_text(ascii_folded(one)),
{
    assert forall|i: int| 0 <= i < one.len() implies ascii_folded(one)[i] == ascii_folded(other)[i]
        && ascii_lower(ascii_lower(#[trigger] one[i])) == ascii_lower(one[i]) by {
        lemma_lower(one[i]);
    }
    assert(ascii_folded(one) =~= ascii_folded(other));
    assert(ascii_folded(ascii_folded(one)) =~= ascii_folded(one));
    if is_ascii_text(one) {
        assert forall|i: int| 0 <= i < one.len() implies (#[trigger] ascii_folded(one)[i] as u32)
            < 128 by {
            lemma_lower(one[i]);
            assert((one[i] as u32) < 128);
        }
    }
}

proof fn lemma_lower(c: char)
    ensures
        ascii_lower(ascii_lower(c)) == ascii_lower(c),
        (c as u32) < 128 ==> (ascii_lower(c) as u32) < 128,
{
    if 'A' <= c <= 'Z' {
        let small: u32 = ((c as u32) + 32) as u32;
        char_u32_cast(ascii_lower(c), small);
    }
}

/// The texts of a list of paths.
pub open spec fn path_texts(paths: Seq<FilePath>) -> Seq<Seq<char>> {
    paths.map_values(|p: FilePath| p@)
}

/// The texts of a list of paths are those of its paths, one for each, in their order.
pub proof fn each_path_has_its_text(paths: Seq<FilePath>)
    ensures
        path_texts(paths).len() == paths.len(),
        forall|i: int| 0 <= i < paths.len() ==> #[trigger] path_texts(paths)[i] == paths[i]@,
{
}

/// On Unix a path is stored as it is, and nowhere else is it stored otherwise than in lower case. On
/// Windows a path is read with a slash for each backslash, elsewhere as it is.
pub proof fn each_system_has_its_paths(text: Seq<char>)
    ensures
        normalized(PathSystem::Unix, text) == text,
        normalized(PathSystem::MacOs, text) == lower_cased(text),
        normalized(PathSystem::Windows, text) == lower_cased(text),
        !folds_case(PathSystem::Unix),
        folds_case(PathSystem::MacOs),
        folds_case(PathSystem::Windows),
        slashed(PathSystem::Unix, text) == text,
        slashed(PathSystem::MacOs, text) == text,
        slashed(PathSystem::Windows, text).len() == text.len(),
        forall|i: int|
            0 <= i < text.len() ==> #[trigger] slashed(PathSystem::Windows, text)[i] == if text[i]
                == '\\' {
                '/'
            } else {
                text[i]
            },
{
    only_backslashes_are_rewritten(text);
}

/// The names that the parts of a path between its slashes can have: no slash, and not one of the
/// parts that stand for nothing or for the directory above.
pub open spec fn is_file_name(name: Seq<char>) -> bool {
    &&& name.len() > 0
    &&& !name.contains('/')
    &&& name != seq!['.']
    &&& name != seq!['.', '.']
}

spec fn encoded(segments: Seq<Seq<char>>) -> Seq<Seq<u8>> {
    segments.map_values(|s: Seq<char>| encode_utf8(s))
}

proof fn lemma_encode_one(c: char)
    requires
        (c as u32) < 0x80,
    ensures
        encode_utf8(seq![c]) == seq![c as u32 as u8],
{
    let u = c as u32;
    assert((u & 0x7F) as u8 == u as u8) by (bit_vector)
        requires
            u < 0x80,
    ;
    reveal_with_fuel(encode_utf8, 2);
    assert(seq![c].drop_first() =~= Seq::empty());
    assert(encode_utf8(seq![c]) =~= seq![c as u32 as u8]);
}

proof fn lemma_encode_same(a: Seq<char>, b: Seq<char>)
    requires
        encode_utf8(a) == encode_utf8(b),
    ensures
        a == b,
{
    encode_utf8_decode_utf8(a);
    encode_utf8_decode_utf8(b);
}

proof fn lemma_dots()
    ensures
        encode_utf8(Seq::<char>::empty()) == Seq::<u8>::empty(),
        encode_utf8(seq!['.']) == seq![0x2eu8],
        encode_utf8(seq!['.', '.']) == seq![0x2eu8, 0x2eu8],
        encode_utf8(seq!['/']) == seq![0x2fu8],
{
    lemma_encode_one('.');
    lemma_encode_one('/');
    lemma_encode_append(seq!['.'], seq!['.']);
    assert(seq!['.'] + seq!['.'] =~= seq!['.', '.']);
    assert(seq![0x2eu8] + seq![0x2eu8] =~= seq![0x2eu8, 0x2eu8]);
}

proof fn lemma_encode_glued(segments: Seq<Seq<char>>)
    ensures
        encode_utf8(glued(segments, '/')) == glued(encoded(segments), 0x2fu8),
    decreases segments.len(),
{
    lemma_dots();
    if segments.len() > 1 {
        let less = segments.drop_last();
        let start = glued(less, '/');
        lemma_encode_glued(less);
        assert(encoded(segments).drop_last() =~= encoded(less));
        lemma_encode_append(start, seq!['/']);
        assert(start + seq!['/'] =~= start.push('/'));
        lemma_encode_append(start.push('/'), segments.last());
        assert(encode_utf8(start) + seq![0x2fu8] =~= encode_utf8(start).push(0x2fu8));
    }
}

spec fn lead_of(segments: Seq<Seq<char>>) -> Key {
    if segments.len() > 1 && segments[0].len() == 0 {
        seq![(ROOT_DIR as int, Seq::<u8>::empty())]
    } else if segments[0] == seq!['.'] {
        seq![(CUR_DIR as int, Seq::<u8>::empty())]
    } else {
        Seq::empty()
    }
}

proof fn lemma_glued_start(segments: Seq<Seq<u8>>)
    requires
        segments.len() > 0,
    ensures
        glued(segments, 0x2fu8).len() >= segments[0].len(),
        glued(segments, 0x2fu8).take(segments[0].len() as int) == segments[0],
        segments.len() > 1 ==> glued(segments, 0x2fu8).len() > segments[0].len() && glued(
            segments,
            0x2fu8,
        )[segments[0].len() as int] == 0x2f,
    decreases segments.len(),
{
    let all = glued(segments, 0x2fu8);
    if segments.len() == 1 {
        assert(all.take(segments[0].len() as int) =~= segments[0]);
    } else {
        let less = segments.drop_last();
        lemma_glued_start(less);
        assert(all =~= glued(less, 0x2fu8).push(0x2fu8) + segments.last());
        assert(all.take(segments[0].len() as int) =~= glued(less, 0x2fu8).take(
            segments[0].len() as int,
        ));
    }
}

proof fn lemma_key_of_segments(segments: Seq<Seq<char>>)
    requires
        segments.len() > 0,
        forall|i: int| 0 <= i < segments.len() ==> !(#[trigger] segments[i]).contains('/'),
    ensures
        path_key(glued(segments, '/')) == lead_of(segments) + segment_parts(encoded(segments)),
{
    let bytes = encode_utf8(glued(segments, '/'));
    let pieces = encoded(segments);
    lemma_dots();
    lemma_encode_glued(segments);
    assert forall|i: int| 0 <= i < pieces.len() implies !(#[trigger] pieces[i]).contains(0x2fu8) by {
        lemma_ascii_byte_is_char(segments[i], '/');
    }
    splitting_undoes_gluing(pieces, 0x2fu8);
    lemma_glued_start(pieces);
    let first = pieces[0];
    if first.len() > 0 {
        assert(bytes.take(first.len() as int)[0] == first[0]);
        assert(first.contains(first[0]));
    } else {
        lemma_encode_same(segments[0], Seq::empty());
    }
    if segments[0].len() == 0 {
        assert(segments[0] =~= Seq::empty());
    }
    if first == seq![0x2eu8] {
        lemma_encode_same(segments[0], seq!['.']);
    }
    assert(leading_part(bytes) =~= lead_of(segments));
}

/// What the last part of a path adds to its components: nothing if it is empty or `.`; otherwise the
/// directory above for `..`, and the name itself for any other part.
pub proof fn parts_add_their_names(front: Seq<Seq<char>>, last: Seq<char>)
    requires
        front.len() > 0,
        forall|i: int| 0 <= i < front.len() ==> !(#[trigger] front[i]).contains('/'),
        !last.contains('/'),
    ensures
        ({
            let whole = path_key(glued(front.push(last), '/'));
            let base = if front == seq![Seq::<char>::empty()] {
                seq![(ROOT_DIR as int, Seq::<u8>::empty())]
            } else {
                path_key(glued(front, '/'))
            };
            whole == if last.len() == 0 || last == seq!['.'] {
                base
            } else if last == seq!['.', '.'] {
                base.push((PARENT_DIR as int, Seq::<u8>::empty()))
            } else {
                base.push((NORMAL as int, encode_utf8(last)))
            }
        }),
        path_key(last) == if last.len() == 0 {
            Seq::<Part>::empty()
        } else if last == seq!['.'] {
            seq![(CUR_DIR as int, Seq::<u8>::empty())]
        } else if last == seq!['.', '.'] {
            seq![(PARENT_DIR as int, Seq::<u8>::empty())]
        } else {
            seq![(NORMAL as int, encode_utf8(last))]
        },
{
    let whole = front.push(last);
    let alone = seq![last];
    reveal_with_fuel(segment_parts, 2);
    lemma_dots();
    assert forall|i: int| 0 <= i < whole.len() implies !(#[trigger] whole[i]).contains('/') by {}
    lemma_key_of_segments(whole);
    lemma_key_of_segments(front);
    lemma_key_of_segments(alone);
    assert(encoded(whole).drop_last() =~= encoded(front));
    assert(encoded(whole).last() == encode_utf8(last));
    assert(encoded(alone).drop_last() =~= Seq::empty());
    assert(encoded(alone).last() == encode_utf8(last));
    assert(glued(alone, '/') == last);
    if last.len() == 0 {
        assert(last =~= Seq::empty());
    }
    if encode_utf8(last) == Seq::<u8>::empty() {
        lemma_encode_same(last, Seq::empty());
    }
    if encode_utf8(last) == seq![0x2eu8] {
        lemma_encode_same(last, seq!['.']);
    }
    if encode_utf8(last) == seq![0x2eu8, 0x2eu8] {
        lemma_encode_same(last, seq!['.', '.']);
    }
    if front == seq![Seq::<char>::empty()] {
        assert(front[0].len() == 0);
        assert(encoded(front).drop_last() =~= Seq::empty());
        assert(encoded(front).last() == Seq::<u8>::empty());
        assert(segment_parts(encoded(front)) =~= Seq::empty());
        assert(lead_of(whole) + segment_parts(encoded(front)) =~= lead_of(whole));
    } else {
        if front.len() == 1 && front[0].len() == 0 {
            assert(front[0] =~= Seq::empty());
            assert(front =~= seq![Seq::<char>::empty()]);
        }
        assert(lead_of(whole) == lead_of(front));
    }
    let parts = segment_parts(encoded(front));
    assert(forall|e: Part| lead_of(whole) + parts.push(e) =~= (lead_of(whole) + parts).push(e));
    assert(path_key(last) =~= lead_of(alone) + segment_parts(encoded(alone)));
}

/// The components of a path are the names between its slashes, each of them as it is.
pub proof fn names_are_the_components(names: Seq<Seq<char>>)
    requires
        names.len() > 0,
        forall|i: int| 0 <= i < names.len() ==> is_file_name(#[trigger] names[i]),
    ensures
        path_key(glued(names, '/')).len() == names.len(),
        forall|i: int|
            0 <= i < names.len() ==> #[trigger] path_key(glued(names, '/'))[i] == (
                NORMAL as int,
                encode_utf8(names[i]),
            ),
    decreases names.len(),
{
    let front = names.drop_last();
    assert(names.last() == names[names.len() - 1]);
    if names.len() == 1 {
        parts_add_their_names(seq![Seq::<char>::empty()], names[0]);
        assert(glued(names, '/') == names[0]);
    } else {
        assert forall|i: int| 0 <= i < front.len() implies is_file_name(#[trigger] front[i]) by {
            assert(front[i] == names[i]);
        }
        names_are_the_components(front);
        parts_add_their_names(front, names.last());
        assert(front[0].len() > 0);
        assert(front.push(names.last()) =~= names);
        assert forall|i: int| 0 <= i < names.len() implies #[trigger] path_key(glued(names, '/'))[i]
            == (NORMAL as int, encode_utf8(names[i])) by {
            if i < front.len() {
                assert(path_key(glued(front, '/'))[i] == (NORMAL as int, encode_utf8(front[i])));
            }
        }
    }
}

/// Two paths made of names are the same key only if they are made of the same names; so they have
/// the same text.
pub proof fn paths_with_other_names_are_others(one: Seq<Seq<char>>, other: Seq<Seq<char>>)
    requires
        one.len() > 0,
        other.len() > 0,
        forall|i: int| 0 <= i < one.len() ==> is_file_name(#[trigger] one[i]),
        forall|i: int| 0 <= i < other.len() ==> is_file_name(#[trigger] other[i]),
        path_key(glued(one, '/')) == path_key(glued(other, '/')),
    ensures
        one == other,
{
    names_are_the_components(one);
    names_are_the_components(other);
    assert forall|i: int| 0 <= i < one.len() implies one[i] == other[i] by {
        assert(path_key(glued(one, '/'))[i] == (NORMAL as int, encode_utf8(one[i])));
        assert(path_key(glued(other, '/'))[i] == (NORMAL as int, encode_utf8(other[i])));
        lemma_encode_same(one[i], other[i]);
    }
    assert(one =~= other);
}

/// Paths made of names are ordered by the first names in which they differ, and these by the first
/// bytes in which they differ; a name comes before those that it begins, and a directory before what
/// lies in it.
pub proof fn paths_are_ordered_by_their_names(
    common: Seq<Seq<char>>,
    one: Seq<Seq<char>>,
    other: Seq<Seq<char>>,
    k: int,
)
    requires
        other.len() > 0,
        forall|i: int| 0 <= i < common.len() ==> is_file_name(#[trigger] common[i]),
        forall|i: int| 0 <= i < one.len() ==> is_file_name(#[trigger] one[i]),
        forall|i: int| 0 <= i < other.len() ==> is_file_name(#[trigger] other[i]),
        one.len() == 0 ==> common.len() > 0,
        one.len() > 0 ==> {
            let x = encode_utf8(one[0]);
            let y = encode_utf8(other[0]);
            &&& 0 <= k <= x.len()
            &&& k < y.len()
            &&& forall|j: int| 0 <= j < k ==> #[trigger] x[j] == y[j]
            &&& k == x.len() || x[k] < y[k]
        },
    ensures
        key_lt(path_key(glued(common + one, '/')), path_key(glued(common + other, '/'))),
{
    let a = common + one;
    let b = common + other;
    let lt = |x: Part, y: Part| part_lt(x, y);
    let n = common.len() as int;
    assert forall|i: int| 0 <= i < a.len() implies is_file_name(#[trigger] a[i]) by {
        if i < n {
            assert(a[i] == common[i]);
        } else {
            assert(a[i] == one[i - n]);
        }
    }
    assert forall|i: int| 0 <= i < b.len() implies is_file_name(#[trigger] b[i]) by {
        if i < n {
            assert(b[i] == common[i]);
        } else {
            assert(b[i] == other[i - n]);
        }
    }
    names_are_the_components(a);
    names_are_the_components(b);
    let x = path_key(glued(a, '/'));
    let y = path_key(glued(b, '/'));
    assert forall|j: int| 0 <= j < n implies #[trigger] x[j] == y[j] by {
        assert(x[j] == (NORMAL as int, encode_utf8(a[j])));
        assert(y[j] == (NORMAL as int, encode_utf8(b[j])));
    }
    if one.len() > 0 {
        assert(x[n] == (NORMAL as int, encode_utf8(a[n])));
        assert(y[n] == (NORMAL as int, encode_utf8(b[n])));
        assert(lex_splits(
            encode_utf8(one[0]),
            encode_utf8(other[0]),
            |p: u8, q: u8| p < q,
            k,
        ));
        assert(bytes_lt(encode_utf8(one[0]), encode_utf8(other[0])));
        assert(lt(x[n], y[n]));
    }
    assert(lex_splits(x, y, lt, n));
}

/// A text is in ASCII if each of its characters is, and folding it makes each capital of the alphabet
/// small and leaves any other character as it is.
pub proof fn ascii_texts_fold_letter_by_letter(text: Seq<char>)
    ensures
        is_ascii_text(text) <==> forall|i: int|
            0 <= i < text.len() ==> '\0' <= (#[trigger] text[i]) <= '\u{7f}',
        ascii_folded(text).len() == text.len(),
        forall|i: int, k: int|
            0 <= i < text.len() && 0 <= k < 26 && #[trigger] text[i]
                == #[trigger] "ABCDEFGHIJKLMNOPQRSTUVWXYZ"@[k] ==> ascii_folded(text)[i]
                == "abcdefghijklmnopqrstuvwxyz"@[k],
        forall|i: int|
            0 <= i < text.len() && !"ABCDEFGHIJKLMNOPQRSTUVWXYZ"@.contains(#[trigger] text[i])
                ==> ascii_folded(text)[i] == text[i],
{
    if forall|i: int| 0 <= i < text.len() ==> '\0' <= (#[trigger] text[i]) <= '\u{7f}' {
        assert forall|i: int| 0 <= i < text.len() implies ((#[trigger] text[i]) as u32) < 128 by {}
        assert(is_ascii_text(text));
    }
    if is_ascii_text(text) {
        assert forall|i: int| 0 <= i < text.len() implies '\0' <= (#[trigger] text[i]) <= '\u{7f}' by {
            let c: char = text[i];
            assert((text[i] as u32) < 128);
            char_is_scalar(c);
            char_u32_cast(c, c as u32);
        }
    }
    assert forall|i: int, k: int|
        0 <= i < text.len() && 0 <= k < 26 && #[trigger] text[i]
            == #[trigger] "ABCDEFGHIJKLMNOPQRSTUVWXYZ"@[k] implies ascii_folded(text)[i]
        == "abcdefghijklmnopqrstuvwxyz"@[k] by {
        capitals_have_small_letters(text[i]);
    }
    assert forall|i: int|
        0 <= i < text.len() && !"ABCDEFGHIJKLMNOPQRSTUVWXYZ"@.contains(
            #[trigger] text[i],
        ) implies ascii_folded(text)[i] == text[i] by {
        capitals_have_small_letters(text[i]);
    }
}

} // verus!
