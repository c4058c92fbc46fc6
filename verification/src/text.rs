//! Text: comparison, splitting, trimming and the rewriting rules for path texts.

use vstd::prelude::*;
use vstd::utf8::*;

verus! {

/// `String::push` appends one character.
pub assume_specification[ String::push ](s: &mut String, c: char)
    ensures
        final(s)@ == old(s)@.push(c),
;

/// The text that `String::from_utf8_lossy` makes of a byte string.
pub uninterp spec fn lossy_decoded(bytes: Seq<u8>) -> Seq<char>;

/// Decodes bytes with `String::from_utf8_lossy`. A valid UTF-8 byte string is decoded exactly; in
/// any other the ill-formed parts come out as replacement characters, and which text that gives
/// depends on the bytes alone.
#[verifier::external_body]
pub(crate) fn lossy_text(bytes: &[u8]) -> (text: String)
    ensures
        text@ == lossy_decoded(bytes@),
        valid_utf8(bytes@) ==> text@ == decode_utf8(bytes@),
{
    String::from_utf8_lossy(bytes).into_owned()
}

/// The text that is made of the bytes is their exact decoding if they are valid UTF-8.
pub open spec fn decodes_exactly(bytes: Seq<u8>) -> bool {
    valid_utf8(bytes) ==> lossy_decoded(bytes) == decode_utf8(bytes)
}

/// The pieces of `s` between the occurrences of `sep`; there is always at least one piece.
pub open spec fn split_at_each<T>(s: Seq<T>, sep: T) -> Seq<Seq<T>>
    decreases s.len(),
{
    if s.len() == 0 {
        seq![Seq::empty()]
    } else {
        let before = split_at_each(s.drop_last(), sep);
        if s.last() == sep {
            before.push(Seq::empty())
        } else {
            before.drop_last().push(before.last().push(s.last()))
        }
    }
}

/// Splits a byte string at each occurrence of `sep`.
pub(crate) fn split_bytes(bytes: &[u8], sep: u8) -> (parts: Vec<Vec<u8>>)
    ensures
        parts@.len() == split_at_each(bytes@, sep).len(),
        forall|i: int|
            0 <= i < parts@.len() ==> (#[trigger] parts@[i])@ == split_at_each(bytes@, sep)[i],
{
    let mut done: Vec<Vec<u8>> = Vec::new();
    let mut piece: Vec<u8> = Vec::new();
    let mut i: usize = 0;
    assert(bytes@.take(0) =~= Seq::empty());
    while i < bytes.len()
        invariant
            i <= bytes.len(),
            split_at_each(bytes@.take(i as int), sep).len() == done@.len() + 1,
            forall|j: int|
                0 <= j < done@.len() ==> (#[trigger] done@[j])@ == split_at_each(
                    bytes@.take(i as int),
                    sep,
                )[j],
            piece@ == split_at_each(bytes@.take(i as int), sep).last(),
        decreases bytes.len() - i,
    {
        assert(bytes@.take(i + 1).drop_last() =~= bytes@.take(i as int));
        assert(bytes@.take(i + 1).last() == bytes@[i as int]);
        if bytes[i] == sep {
            done.push(piece);
            piece = Vec::new();
        } else {
            piece.push(bytes[i]);
        }
        i = i + 1;
    }
    assert(bytes@.take(i as int) =~= bytes@);
    done.push(piece);
    done
}

/// The characters of a text.
pub(crate) fn chars_of(text: &str) -> (chars: Vec<char>)
    ensures
        chars@ == text@,
{
    let mut chars: Vec<char> = Vec::new();
    for c in it: text.chars()
        invariant
            chars@ == text@.take(it.index() as int),
            it.seq() == text@,
    {
        assert(text@.take(it.index() + 1) =~= text@.take(it.index() as int).push(c));
        chars.push(c);
    }
    assert(text@.take(text@.len() as int) =~= text@);
    chars
}

/// The text made of the characters from `start` on.
pub(crate) fn text_from(chars: &Vec<char>, start: usize) -> (text: String)
    requires
        start <= chars@.len(),
    ensures
        text@ == chars@.skip(start as int),
{
    let mut text = String::new();
    let mut i: usize = start;
    while i < chars.len()
        invariant
            start <= i <= chars@.len(),
            text@ == chars@.subrange(start as int, i as int),
        decreases chars@.len() - i,
    {
        text.push(chars[i]);
        i = i + 1;
        assert(chars@.subrange(start as int, i as int) =~= chars@.subrange(
            start as int,
            i - 1,
        ).push(chars@[i - 1]));
    }
    assert(chars@.subrange(start as int, i as int) =~= chars@.skip(start as int));
    text
}

/// Whether two texts are the same.
pub fn same_text(a: &str, b: &str) -> (same: bool)
    ensures
        same == (a@ == b@),
{
    let x = a.as_bytes();
    let y = b.as_bytes();
    proof {
        encode_utf8_decode_utf8(a@);
        encode_utf8_decode_utf8(b@);
    }
    if x.len() != y.len() {
        return false;
    }
    let mut i: usize = 0;
    while i < x.len()
        invariant
            i <= x.len(),
            x.len() == y.len(),
            x@ == encode_utf8(a@),
            y@ == encode_utf8(b@),
            forall|j: int| 0 <= j < i ==> #[trigger] x@[j] == y@[j],
        decreases x.len() - i,
    {
        if x[i] != y[i] {
            return false;
        }
        i = i + 1;
    }
    assert(x@ =~= y@);
    true
}

/// `first` followed by `second`.
pub(crate) fn joined(first: &str, second: &str) -> (text: String)
    ensures
        text@ == first@ + second@,
{
    let mut text = first.to_owned();
    text.append(second);
    text
}

/// The text with every backslash turned into a slash.
pub open spec fn posix_form(text: Seq<char>) -> Seq<char> {
    text.map_values(
        |c: char|
            if c == '\\' {
                '/'
            } else {
                c
            },
    )
}

/// Rewrites a path text with forward slashes.
pub fn normalize_to_posix(text: &str) -> (posix: String)
    ensures
        posix@ == posix_form(text@),
        posix@.len() == text@.len(),
        forall|i: int|
            0 <= i < text@.len() ==> #[trigger] posix@[i] == if text@[i] == '\\' {
                '/'
            } else {
                text@[i]
            },
{
    let mut posix = String::new();
    for c in it: text.chars()
        invariant
            it.seq() == text@,
            posix@ == posix_form(text@).take(it.index() as int),
    {
        let next = if c == '\\' {
            '/'
        } else {
            c
        };
        assert(posix_form(text@).take(it.index() + 1) =~= posix_form(text@).take(
            it.index() as int,
        ).push(next));
        posix.push(next);
    }
    assert(posix_form(text@).take(text@.len() as int) =~= posix_form(text@));
    posix
}

/// Rewriting a text a second time changes nothing, and no backslash is left.
pub proof fn posix_form_is_stable(text: Seq<char>)
    ensures
        posix_form(posix_form(text)) == posix_form(text),
        !posix_form(text).contains('\\'),
{
    assert(posix_form(posix_form(text)) =~= posix_form(text));
}

/// The posix form of a text has a slash where the text has a backslash, and the text's own character
/// everywhere else; so a text without a backslash is its own posix form.
pub proof fn only_backslashes_are_rewritten(text: Seq<char>)
    ensures
        posix_form(text).len() == text.len(),
        forall|i: int|
            0 <= i < text.len() ==> #[trigger] posix_form(text)[i] == if text[i] == '\\' {
                '/'
            } else {
                text[i]
            },
        !text.contains('\\') ==> posix_form(text) == text,
{
    if !text.contains('\\') {
        assert(posix_form(text) =~= text);
    }
}

/// The Unicode property `White_Space`.
pub open spec fn is_white(c: char) -> bool {
    let u = c as u32;
    ||| 0x9 <= u <= 0xd
    ||| u == 0x20
    ||| u == 0x85
    ||| u == 0xa0
    ||| u == 0x1680
    ||| 0x2000 <= u <= 0x200a
    ||| u == 0x2028
    ||| u == 0x2029
    ||| u == 0x202f
    ||| u == 0x205f
    ||| u == 0x3000
}

fn white(c: char) -> (white: bool)
    ensures
        white == is_white(c),
{
    let u: u32 = c as u32;
    (0x9 <= u && u <= 0xd) || u == 0x20 || u == 0x85 || u == 0xa0 || u == 0x1680 || (0x2000 <= u && u
        <= 0x200a) || u == 0x2028 || u == 0x2029 || u == 0x202f || u == 0x205f || u == 0x3000
}

/// The text without the white space at its end.
pub open spec fn trimmed_end(text: Seq<char>) -> Seq<char>
    decreases text.len(),
{
    if text.len() > 0 && is_white(text.last()) {
        trimmed_end(text.drop_last())
    } else {
        text
    }
}

/// The text without the white space at its start.
pub open spec fn trimmed_start(text: Seq<char>) -> Seq<char>
    decreases text.len(),
{
    if text.len() > 0 && is_white(text[0]) {
        trimmed_start(text.drop_first())
    } else {
        text
    }
}

/// Removes the white space at both ends of a text.
pub(crate) fn trimmed(text: &str) -> (short: String)
    ensures
        short@ == trimmed_start(trimmed_end(text@)),
{
    let mut chars = chars_of(text);
    while chars.len() > 0 && white(chars[chars.len() - 1])
        invariant
            trimmed_end(chars@) == trimmed_end(text@),
        decreases chars.len(),
    {
        chars.pop();
    }
    let mut start: usize = 0;
    assert(chars@.skip(0) =~= chars@);
    while start < chars.len() && white(chars[start])
        invariant
            start <= chars@.len(),
            trimmed_start(chars@.skip(start as int)) == trimmed_start(chars@),
        decreases chars.len() - start,
    {
        assert(chars@.skip(start as int).drop_first() =~= chars@.skip(start + 1));
        start = start + 1;
    }
    text_from(&chars, start)
}

/// The ASCII lower case of a character.
pub open spec fn ascii_lower(c: char) -> char {
    if 'A' <= c <= 'Z' {
        ((c as u32) + 32) as char
    } else {
        c
    }
}

/// Whether `text`, with ASCII capitals made small, is `word`.
pub(crate) fn same_ignoring_ascii_case(text: &str, word: &str) -> (same: bool)
    ensures
        same == (text@.map_values(|c: char| ascii_lower(c)) == word@),
{
    let a = chars_of(text);
    let b = chars_of(word);
    let ghost lower = text@.map_values(|c: char| ascii_lower(c));
    if a.len() != b.len() {
        return false;
    }
    let mut i: usize = 0;
    while i < a.len()
        invariant
            i <= a@.len(),
            a@.len() == b@.len(),
            a@ == text@,
            b@ == word@,
            lower == text@.map_values(|c: char| ascii_lower(c)),
            forall|j: int| 0 <= j < i ==> #[trigger] lower[j] == b@[j],
        decreases a@.len() - i,
    {
        let c: char = a[i];
        let small: u32 = if 'A' <= c && c <= 'Z' {
            (c as u32) + 32
        } else {
            c as u32
        };
        let d: char = b[i];
        proof {
            char_u32_cast(lower[i as int], small);
            char_u32_cast(d, d as u32);
        }
        if small != d as u32 {
            return false;
        }
        i = i + 1;
    }
    assert(lower =~= word@);
    true
}

/// Whether `text` begins with the two characters `first` and `second`.
pub(crate) fn begins_with(text: &Vec<char>, first: char, second: char) -> (begins: bool)
    ensures
        begins == (text@.len() >= 2 && text@[0] == first && text@[1] == second),
{
    text.len() >= 2 && text[0] == first && text[1] == second
}

/// The texts of a list of strings.
pub open spec fn texts(list: Seq<String>) -> Seq<Seq<char>> {
    list.map_values(|s: String| s@)
}

/// A list of the same texts.
pub(crate) fn copy_texts(list: &Vec<String>) -> (copy: Vec<String>)
    ensures
        texts(copy@) == texts(list@),
{
    let mut copy: Vec<String> = Vec::new();
    let mut i: usize = 0;
    while i < list.len()
        invariant
            i <= list@.len(),
            copy@.len() == i,
            forall|j: int| 0 <= j < i ==> (#[trigger] copy@[j])@ == list@[j]@,
        decreases list@.len() - i,
    {
        copy.push(list[i].as_str().to_owned());
        i = i + 1;
    }
    assert(texts(copy@) =~= texts(list@));
    copy
}

/// The texts of a list of strings are those of its strings, one for each, in their order.
pub proof fn each_string_has_its_text(list: Seq<String>)
    ensures
        texts(list).len() == list.len(),
        forall|i: int| 0 <= i < list.len() ==> #[trigger] texts(list)[i] == list[i]@,
{
}

/// The pieces in a row, with `sep` between each two of them.
pub open spec fn glued<T>(pieces: Seq<Seq<T>>, sep: T) -> Seq<T>
    decreases pieces.len(),
{
    if pieces.len() == 0 {
        Seq::empty()
    } else if pieces.len() == 1 {
        pieces[0]
    } else {
        glued(pieces.drop_last(), sep).push(sep) + pieces.last()
    }
}

/// Splitting gives pieces that do not hold the separator and that, put in a row with separators
/// between them, make up the whole.
pub proof fn pieces_make_up_the_whole<T>(s: Seq<T>, sep: T)
    ensures
        split_at_each(s, sep).len() > 0,
        forall|i: int|
            0 <= i < split_at_each(s, sep).len() ==> !(#[trigger] split_at_each(s, sep)[i]).contains(
                sep,
            ),
        glued(split_at_each(s, sep), sep) == s,
    decreases s.len(),
{
    let all = split_at_each(s, sep);
    if s.len() == 0 {
        assert(all =~= seq![Seq::<T>::empty()]);
    } else {
        let before = split_at_each(s.drop_last(), sep);
        pieces_make_up_the_whole(s.drop_last(), sep);
        assert(s =~= s.drop_last().push(s.last()));
        if s.last() == sep {
            assert(all.drop_last() =~= before);
            assert(glued(all, sep) =~= s);
        } else {
            let last = before.last().push(s.last());
            assert(all.drop_last() =~= before.drop_last());
            assert(all.last() == last);
            assert(!before.last().contains(sep));
            assert forall|i: int| 0 <= i < last.len() implies last[i] != sep by {
                if i < before.last().len() {
                    assert(before.last().contains(before.last()[i]));
                }
            }
            assert forall|i: int| 0 <= i < all.len() implies !(#[trigger] all[i]).contains(sep) by {
                if i < before.len() - 1 {
                    assert(all[i] == before[i]);
                }
            }
            assert(glued(all, sep) =~= s);
        }
    }
}

proof fn lemma_split_free<T>(s: Seq<T>, free: Seq<T>, sep: T)
    requires
        !free.contains(sep),
    ensures
        split_at_each(s, sep).len() > 0,
        split_at_each(s + free, sep) == split_at_each(s, sep).drop_last().push(
            split_at_each(s, sep).last() + free,
        ),
    decreases free.len(),
{
    let before = split_at_each(s, sep);
    pieces_make_up_the_whole(s, sep);
    if free.len() == 0 {
        assert(s + free =~= s);
        assert(before.last() + free =~= before.last());
        assert(before.drop_last().push(before.last()) =~= before);
    } else {
        let less = free.drop_last();
        assert(free.contains(free.last()));
        assert forall|i: int| 0 <= i < less.len() implies less[i] != sep by {
            assert(free.contains(free[i]));
        }
        lemma_split_free(s, less, sep);
        assert((s + free).drop_last() =~= s + less);
        assert((s + free).last() == free.last());
        let middle = split_at_each(s + less, sep);
        assert(middle.drop_last() =~= before.drop_last());
        assert(middle.last().push(free.last()) =~= before.last() + free);
    }
}

/// Pieces that do not hold the separator come back from splitting what they make up.
pub proof fn splitting_undoes_gluing<T>(pieces: Seq<Seq<T>>, sep: T)
    requires
        pieces.len() > 0,
        forall|i: int| 0 <= i < pieces.len() ==> !(#[trigger] pieces[i]).contains(sep),
    ensures
        split_at_each(glued(pieces, sep), sep) == pieces,
    decreases pieces.len(),
{
    let none: Seq<T> = Seq::empty();
    if pieces.len() == 1 {
        lemma_split_free(none, pieces[0], sep);
        assert(none + pieces[0] =~= pieces[0]);
        assert(split_at_each(none, sep) =~= seq![none]);
        assert(split_at_each(glued(pieces, sep), sep) =~= pieces);
    } else {
        let less = pieces.drop_last();
        splitting_undoes_gluing(less, sep);
        let start = glued(less, sep).push(sep);
        assert(start.drop_last() =~= glued(less, sep));
        assert(split_at_each(start, sep) == less.push(none));
        lemma_split_free(start, pieces.last(), sep);
        assert(less.push(none).drop_last() =~= less);
        assert(none + pieces.last() =~= pieces.last());
        assert(split_at_each(glued(pieces, sep), sep) =~= pieces);
    }
}

/// Which characters are white space.
pub proof fn white_space_is_known(c: char)
    ensures
        is_white(c) <==> {
            ||| c == '\t' || c == '\n' || c == '\u{b}' || c == '\u{c}' || c == '\r' || c == ' '
            ||| c == '\u{85}' || c == '\u{a0}' || c == '\u{1680}'
            ||| c == '\u{2000}' || c == '\u{2001}' || c == '\u{2002}' || c == '\u{2003}'
            ||| c == '\u{2004}' || c == '\u{2005}' || c == '\u{2006}' || c == '\u{2007}'
            ||| c == '\u{2008}' || c == '\u{2009}' || c == '\u{200a}'
            ||| c == '\u{2028}' || c == '\u{2029}' || c == '\u{202f}' || c == '\u{205f}'
            ||| c == '\u{3000}'
        },
{
}

proof fn lemma_trimmed_end(text: Seq<char>)
    ensures
        trimmed_end(text).len() <= text.len(),
        trimmed_end(text) == text.take(trimmed_end(text).len() as int),
        forall|i: int| trimmed_end(text).len() <= i < text.len() ==> is_white(#[trigger] text[i]),
        trimmed_end(text).len() > 0 ==> !is_white(trimmed_end(text).last()),
    decreases text.len(),
{
    if text.len() > 0 && is_white(text.last()) {
        lemma_trimmed_end(text.drop_last());
        assert(text.drop_last().take(trimmed_end(text).len() as int) =~= text.take(
            trimmed_end(text).len() as int,
        ));
        assert forall|i: int| trimmed_end(text).len() <= i < text.len() implies is_white(
            #[trigger] text[i],
        ) by {
            if i < text.len() - 1 {
                assert(text.drop_last()[i] == text[i]);
            }
        }
    } else {
        assert(text.take(text.len() as int) =~= text);
    }
}

proof fn lemma_trimmed_start(text: Seq<char>)
    ensures
        trimmed_start(text).len() <= text.len(),
        trimmed_start(text) == text.skip(text.len() - trimmed_start(text).len()),
        forall|i: int|
            0 <= i < text.len() - trimmed_start(text).len() ==> is_white(#[trigger] text[i]),
        trimmed_start(text).len() > 0 ==> !is_white(trimmed_start(text)[0]),
    decreases text.len(),
{
    if text.len() > 0 && is_white(text[0]) {
        let rest = text.drop_first();
        lemma_trimmed_start(rest);
        assert(rest.skip(rest.len() - trimmed_start(text).len()) =~= text.skip(
            text.len() - trimmed_start(text).len(),
        ));
        assert forall|i: int| 0 <= i < text.len() - trimmed_start(text).len() implies is_white(
            #[trigger] text[i],
        ) by {
            if i > 0 {
                assert(rest[i - 1] == text[i]);
            }
        }
    } else {
        assert(text.skip(0) =~= text);
    }
}

/// Trimming cuts out a part of the text: what lies before and after it is white space, and the part
/// itself neither begins nor ends with any.
pub proof fn trimming_takes_white_ends_off(text: Seq<char>) -> (ends: (int, int))
    ensures
        0 <= ends.0 <= ends.1 <= text.len(),
        trimmed_start(trimmed_end(text)) == text.subrange(ends.0, ends.1),
        forall|i: int| 0 <= i < ends.0 ==> is_white(#[trigger] text[i]),
        forall|i: int| ends.1 <= i < text.len() ==> is_white(#[trigger] text[i]),
        ends.0 < ends.1 ==> !is_white(text[ends.0]) && !is_white(text[ends.1 - 1]),
        trimmed_end(text).len() <= text.len(),
        trimmed_end(text) == text.take(trimmed_end(text).len() as int),
        forall|i: int| trimmed_end(text).len() <= i < text.len() ==> is_white(#[trigger] text[i]),
        trimmed_end(text).len() > 0 ==> !is_white(trimmed_end(text).last()),
{
    let kept = trimmed_end(text);
    let both = trimmed_start(kept);
    lemma_trimmed_end(text);
    lemma_trimmed_start(kept);
    let start = kept.len() - both.len();
    assert(both =~= text.subrange(start, kept.len() as int));
    assert forall|i: int| 0 <= i < start implies is_white(#[trigger] text[i]) by {
        assert(kept[i] == text[i]);
    }
    (start, kept.len() as int)
}

/// The ASCII lower case of each capital is the small letter at the same place in the alphabet; any
/// other character is its own.
pub proof fn capitals_have_small_letters(c: char)
    ensures
        forall|i: int|
            0 <= i < 26 ==> ascii_lower(#[trigger] "ABCDEFGHIJKLMNOPQRSTUVWXYZ"@[i])
                == "abcdefghijklmnopqrstuvwxyz"@[i],
        !"ABCDEFGHIJKLMNOPQRSTUVWXYZ"@.contains(c) ==> ascii_lower(c) == c,
{
    reveal_strlit("ABCDEFGHIJKLMNOPQRSTUVWXYZ");
    reveal_strlit("abcdefghijklmnopqrstuvwxyz");
    let capitals = "ABCDEFGHIJKLMNOPQRSTUVWXYZ"@;
    let letters = "abcdefghijklmnopqrstuvwxyz"@;
    assert forall|i: int| 0 <= i < 26 implies ascii_lower(#[trigger] capitals[i]) == letters[i] by {
        assert(capitals[i] as u32 == 65 + i);
        assert(letters[i] as u32 == 97 + i);
        char_u32_cast(letters[i], (97 + i) as u32);
    }
    if 'A' <= c <= 'Z' {
        let i = (c as u32) - 65;
        assert(capitals[i] as u32 == 65 + i);
        char_u32_cast(c, c as u32);
        char_u32_cast(capitals[i], c as u32);
        assert(capitals[i] == c);
    }
}

/// The UTF-8 encoding of a text that is made up of two is made up of theirs.
pub proof fn lemma_encode_append(a: Seq<char>, b: Seq<char>)
    ensures
        encode_utf8(a + b) == encode_utf8(a) + encode_utf8(b),
    decreases a.len(),
{
    if a.len() == 0 {
        assert(a + b =~= b);
        assert(encode_utf8(a) + encode_utf8(b) =~= encode_utf8(b));
    } else {
        assert((a + b).drop_first() =~= a.drop_first() + b);
        lemma_encode_append(a.drop_first(), b);
        assert(encode_utf8(a + b) =~= encode_utf8(a) + encode_utf8(b));
    }
}

proof fn lemma_encoded_scalar(c: u32, byte: u8)
    requires
        is_scalar(c),
        byte < 0x80,
        encode_scalar(c).contains(byte),
    ensures
        c == byte as u32,
        encode_scalar(c) == seq![byte],
{
    if has_width_1_encoding(c) {
        assert((c & 0x7F) as u8 as u32 == c) by (bit_vector)
            requires
                c <= 0x7F,
        ;
        assert(encode_scalar(c) =~= seq![byte]);
    } else {
        assert(0xC0u8 | ((c >> 6) & 0x1F) as u8 >= 0x80) by (bit_vector);
        assert(0xE0u8 | ((c >> 12) & 0x0F) as u8 >= 0x80) by (bit_vector);
        assert(0xF0u8 | ((c >> 18) & 0x7) as u8 >= 0x80) by (bit_vector);
        assert(0x80u8 | (c & 0x3F) as u8 >= 0x80) by (bit_vector);
        assert(0x80u8 | ((c >> 6) & 0x3F) as u8 >= 0x80) by (bit_vector);
        assert(0x80u8 | ((c >> 12) & 0x3F) as u8 >= 0x80) by (bit_vector);
    }
}

/// An ASCII byte is in the UTF-8 encoding of a text only if the character is in the text.
pub proof fn lemma_ascii_byte_is_char(text: Seq<char>, c: char)
    requires
        (c as u32) < 0x80,
        !text.contains(c),
    ensures
        !encode_utf8(text).contains(c as u32 as u8),
    decreases text.len(),
{
    let byte = c as u32 as u8;
    assert(byte as u32 == c as u32);
    if text.len() > 0 {
        let first = text[0];
        let rest = text.drop_first();
        assert(text.contains(first));
        assert(!rest.contains(c)) by {
            if rest.contains(c) {
                let i = choose|i: int| 0 <= i < rest.len() && rest[i] == c;
                assert(text[i + 1] == c);
            }
        }
        lemma_ascii_byte_is_char(rest, c);
        char_is_scalar(first);
        let head = encode_scalar(first as u32);
        if head.contains(byte) {
            lemma_encoded_scalar(first as u32, byte);
            char_u32_cast(first, c as u32);
            char_u32_cast(c, c as u32);
        }
        if encode_utf8(text).contains(byte) {
            let i = choose|i: int| 0 <= i < encode_utf8(text).len() && encode_utf8(text)[i] == byte;
            if i < head.len() {
                assert(head.contains(head[i]));
            } else {
                assert(encode_utf8(rest)[i - head.len()] == byte);
            }
        }
    }
}

} // verus!
