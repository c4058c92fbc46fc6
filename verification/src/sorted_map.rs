//! A map kept as a list of entries in the order of their keys.

use vstd::prelude::*;
use vstd::utf8::*;

use crate::order::{bytes_lt, key_lt, lemma_key_order, lex_splits, order_bytes, part_lt, placed, Key};
use crate::order::{Part, Placement};
use crate::path::{path_key, FilePath};

verus! {

/// What a map can be keyed by: a text together with the rank by which it is compared. Two texts of
/// the same rank are the same key.
pub trait MapKey: View<V = Seq<char>> + Sized {
    /// The rank of a text.
    spec fn key(text: Seq<char>) -> Key;

    /// Compares two keys by rank.
    fn place(&self, other: &Self) -> (p: Placement)
        ensures
            placed(p, Self::key(self@), Self::key(other@)),
    ;
}

impl MapKey for FilePath {
    open spec fn key(text: Seq<char>) -> Key {
        path_key(text)
    }

    fn place(&self, other: &Self) -> (p: Placement) {
        self.compare(other)
    }
}

/// The rank of a plain text: its bytes.
pub open spec fn text_key(text: Seq<char>) -> Key {
    seq![(0int, encode_utf8(text))]
}

impl MapKey for String {
    open spec fn key(text: Seq<char>) -> Key {
        text_key(text)
    }

    fn place(&self, other: &Self) -> (p: Placement) {
        let a = self.as_str().as_bytes();
        let b = other.as_str().as_bytes();
        let ghost lt = |x: Part, y: Part| part_lt(x, y);
        let ghost ka = text_key(self@);
        let ghost kb = text_key(other@);
        match order_bytes(a, b) {
            Placement::Less => {
                assert(lex_splits(ka, kb, lt, 0));
                Placement::Less
            },
            Placement::Greater => {
                assert(lex_splits(kb, ka, lt, 0));
                Placement::Greater
            },
            Placement::Equal => Placement::Equal,
        }
    }
}

/// The entries of a map: the text of each key with its value.
pub type Entries<V> = Seq<(Seq<char>, V)>;

/// The ranks strictly increase.
pub open spec fn sorted<K: MapKey, V>(list: Entries<V>) -> bool {
    forall|i: int, j: int|
        0 <= i < j < list.len() ==> key_lt(K::key((#[trigger] list[i]).0), K::key(
            (#[trigger] list[j]).0,
        ))
}

/// The entry at `i` has the rank `key`.
pub open spec fn keyed_at<K: MapKey, V>(list: Entries<V>, key: Key, i: int) -> bool {
    0 <= i < list.len() && K::key(list[i].0) == key
}

/// Some entry has the rank `key`.
pub open spec fn holds<K: MapKey, V>(list: Entries<V>, key: Key) -> bool {
    exists|i: int| #[trigger] keyed_at::<K, V>(list, key, i)
}

/// The entry with the rank `key`.
pub open spec fn entry<K: MapKey, V>(list: Entries<V>, key: Key) -> Option<(Seq<char>, V)> {
    if holds::<K, V>(list, key) {
        Some(list[choose|i: int| #[trigger] keyed_at::<K, V>(list, key, i)])
    } else {
        None
    }
}

/// How many entries at the start of the list rank below `key`.
pub open spec fn slot<K: MapKey, V>(list: Entries<V>, key: Key) -> int
    decreases list.len(),
{
    if list.len() > 0 && key_lt(K::key(list[0].0), key) {
        1 + slot::<K, V>(list.drop_first(), key)
    } else {
        0
    }
}

/// The list after `value` was stored under `text`: an entry of the same rank keeps its text and gets
/// the value; otherwise the entry is put in its place in the order.
pub open spec fn put<K: MapKey, V>(list: Entries<V>, text: Seq<char>, value: V) -> Entries<V> {
    let i = slot::<K, V>(list, K::key(text));
    if i < list.len() && K::key(list[i].0) == K::key(text) {
        list.update(i, (list[i].0, value))
    } else {
        list.insert(i, (text, value))
    }
}

/// The list after all of `items` were stored, one after the other.
pub open spec fn put_all<K: MapKey, V>(list: Entries<V>, items: Entries<V>) -> Entries<V>
    decreases items.len(),
{
    if items.len() == 0 {
        list
    } else {
        put::<K, V>(put_all::<K, V>(list, items.drop_last()), items.last().0, items.last().1)
    }
}

proof fn lemma_slot_at<K: MapKey, V>(list: Entries<V>, key: Key, i: int)
    requires
        0 <= i <= list.len(),
        forall|j: int| 0 <= j < i ==> key_lt(K::key((#[trigger] list[j]).0), key),
        i < list.len() ==> !key_lt(K::key(list[i].0), key),
    ensures
        slot::<K, V>(list, key) == i,
    decreases list.len(),
{
    if i > 0 {
        let rest = list.drop_first();
        assert forall|j: int| 0 <= j < i - 1 implies key_lt(K::key((#[trigger] rest[j]).0), key) by {
            assert(rest[j] == list[j + 1]);
        }
        assert(key_lt(K::key(list[0].0), key));
        lemma_slot_at::<K, V>(rest, key, i - 1);
    }
}

/// In a sorted list the slot of a rank parts the smaller ranks from the others.
pub proof fn lemma_slot<K: MapKey, V>(list: Entries<V>, key: Key)
    requires
        sorted::<K, V>(list),
    ensures
        0 <= slot::<K, V>(list, key) <= list.len(),
        forall|j: int|
            0 <= j < slot::<K, V>(list, key) ==> key_lt(K::key((#[trigger] list[j]).0), key),
        forall|j: int|
            slot::<K, V>(list, key) <= j < list.len() ==> !key_lt(
                K::key((#[trigger] list[j]).0),
                key,
            ),
    decreases list.len(),
{
    lemma_key_order();
    if list.len() > 0 && key_lt(K::key(list[0].0), key) {
        let rest = list.drop_first();
        assert(sorted::<K, V>(rest)) by {
            assert forall|i: int, j: int| 0 <= i < j < rest.len() implies key_lt(
                K::key((#[trigger] rest[i]).0),
                K::key((#[trigger] rest[j]).0),
            ) by {
                assert(rest[i] == list[i + 1]);
                assert(rest[j] == list[j + 1]);
            }
        }
        lemma_slot::<K, V>(rest, key);
        assert forall|j: int| 0 <= j < slot::<K, V>(list, key) implies key_lt(
            K::key((#[trigger] list[j]).0),
            key,
        ) by {
            if j > 0 {
                assert(list[j] == rest[j - 1]);
            }
        }
        assert forall|j: int| slot::<K, V>(list, key) <= j < list.len() implies !key_lt(
            K::key((#[trigger] list[j]).0),
            key,
        ) by {
            assert(list[j] == rest[j - 1]);
        }
    } else if list.len() > 0 {
        assert forall|j: int| 0 <= j < list.len() implies !key_lt(
            K::key((#[trigger] list[j]).0),
            key,
        ) by {
            if j > 0 {
                assert(key_lt(K::key(list[0].0), K::key(list[j].0)));
            }
        }
    }
}

/// In a sorted list each entry is the one found under its own rank.
pub proof fn lemma_entry_at<K: MapKey, V>(list: Entries<V>, i: int)
    requires
        sorted::<K, V>(list),
        0 <= i < list.len(),
    ensures
        holds::<K, V>(list, K::key(list[i].0)),
        entry::<K, V>(list, K::key(list[i].0)) == Some(list[i]),
{
    lemma_key_order();
    let key = K::key(list[i].0);
    assert(keyed_at::<K, V>(list, key, i));
    let j = choose|j: int| #[trigger] keyed_at::<K, V>(list, key, j);
    if i < j {
        assert(key_lt(K::key(list[i].0), K::key(list[j].0)));
    } else if j < i {
        assert(key_lt(K::key(list[j].0), K::key(list[i].0)));
    }
}

/// The slot of a rank that is present is where its entry stands; if the slot holds another rank, the
/// rank is absent.
pub proof fn lemma_slot_holds<K: MapKey, V>(list: Entries<V>, key: Key)
    requires
        sorted::<K, V>(list),
    ensures
        holds::<K, V>(list, key) <==> keyed_at::<K, V>(list, key, slot::<K, V>(list, key)),
        holds::<K, V>(list, key) ==> entry::<K, V>(list, key) == Some(
            list[slot::<K, V>(list, key)],
        ),
{
    lemma_key_order();
    lemma_slot::<K, V>(list, key);
    let s = slot::<K, V>(list, key);
    if holds::<K, V>(list, key) {
        let i = choose|i: int| #[trigger] keyed_at::<K, V>(list, key, i);
        if i < s {
            assert(key_lt(K::key(list[i].0), key));
        } else if s < i {
            assert(key_lt(K::key(list[s].0), K::key(list[i].0)));
            assert(!key_lt(K::key(list[s].0), key));
        }
        assert(i == s);
        lemma_entry_at::<K, V>(list, i);
    }
}

/// Storing a value keeps the list sorted, and changes what is found under one rank only.
pub proof fn lemma_put<K: MapKey, V>(list: Entries<V>, text: Seq<char>, value: V)
    requires
        sorted::<K, V>(list),
    ensures
        sorted::<K, V>(put::<K, V>(list, text, value)),
        forall|k: Key|
            #![trigger entry::<K, V>(put::<K, V>(list, text, value), k)]
            entry::<K, V>(put::<K, V>(list, text, value), k) == if k == K::key(text) {
                match entry::<K, V>(list, k) {
                    Some(e) => Some((e.0, value)),
                    None => Some((text, value)),
                }
            } else {
                entry::<K, V>(list, k)
            },
        forall|k: Key|
            #![trigger holds::<K, V>(put::<K, V>(list, text, value), k)]
            holds::<K, V>(put::<K, V>(list, text, value), k) <==> (k == K::key(text) || holds::<
                K,
                V,
            >(list, k)),
{
    lemma_key_order();
    let key = K::key(text);
    let s = slot::<K, V>(list, key);
    let new = put::<K, V>(list, text, value);
    lemma_slot::<K, V>(list, key);
    lemma_slot_holds::<K, V>(list, key);
    let found = s < list.len() && K::key(list[s].0) == key;
    assert forall|i: int, j: int| 0 <= i < j < new.len() implies key_lt(
        K::key((#[trigger] new[i]).0),
        K::key((#[trigger] new[j]).0),
    ) by {
        if found {
            assert(K::key(new[i].0) == K::key(list[i].0));
            assert(K::key(new[j].0) == K::key(list[j].0));
            assert(key_lt(K::key(list[i].0), K::key(list[j].0)));
        } else {
            let a = if i < s { list[i] } else { list[i - 1] };
            let b = if j < s { list[j] } else { list[j - 1] };
            if i == s {
                assert(!key_lt(K::key(list[j - 1].0), key));
                assert(K::key(list[j - 1].0) != key) by {
                    if K::key(list[j - 1].0) == key {
                        assert(keyed_at::<K, V>(list, key, j - 1));
                    }
                }
                assert(key_lt(key, K::key(list[j - 1].0)) || key_lt(K::key(list[j - 1].0), key));
            } else if j == s {
                assert(key_lt(K::key(list[i].0), key));
            } else {
                assert(new[i] == a && new[j] == b);
            }
        }
    }
    assert(sorted::<K, V>(new));
    assert(keyed_at::<K, V>(new, key, s));
    lemma_entry_at::<K, V>(new, s);
    assert forall|k: Key| k != key implies #[trigger] holds::<K, V>(new, k) == holds::<K, V>(
        list,
        k,
    ) && entry::<K, V>(new, k) == entry::<K, V>(list, k) by {
        if holds::<K, V>(list, k) {
            let i = choose|i: int| #[trigger] keyed_at::<K, V>(list, k, i);
            let j = if found || i < s { i } else { i + 1 };
            assert(new[j] == list[i]);
            lemma_entry_at::<K, V>(list, i);
            lemma_entry_at::<K, V>(new, j);
        }
        if holds::<K, V>(new, k) {
            let j = choose|j: int| #[trigger] keyed_at::<K, V>(new, k, j);
            let i = if found || j < s { j } else { j - 1 };
            assert(j != s);
            assert(keyed_at::<K, V>(list, k, i));
        }
    }
    assert forall|k: Key|
        #![trigger entry::<K, V>(new, k)]
        entry::<K, V>(new, k) == if k == key {
            match entry::<K, V>(list, k) {
                Some(e) => Some((e.0, value)),
                None => Some((text, value)),
            }
        } else {
            entry::<K, V>(list, k)
        } by {
        if k != key {
            assert(holds::<K, V>(new, k) == holds::<K, V>(list, k));
        }
    }
}

proof fn lemma_tail_sorted<K: MapKey, V>(list: Entries<V>)
    requires
        sorted::<K, V>(list),
        list.len() > 0,
    ensures
        sorted::<K, V>(list.drop_first()),
        forall|k: Key|
            #![trigger entry::<K, V>(list.drop_first(), k)]
            entry::<K, V>(list.drop_first(), k) == if k == K::key(list[0].0) {
                None
            } else {
                entry::<K, V>(list, k)
            },
{
    lemma_key_order();
    let rest = list.drop_first();
    assert forall|i: int, j: int| 0 <= i < j < rest.len() implies key_lt(
        K::key((#[trigger] rest[i]).0),
        K::key((#[trigger] rest[j]).0),
    ) by {
        assert(rest[i] == list[i + 1]);
        assert(rest[j] == list[j + 1]);
    }
    assert forall|k: Key|
        #![trigger entry::<K, V>(rest, k)]
        entry::<K, V>(rest, k) == if k == K::key(list[0].0) {
            None
        } else {
            entry::<K, V>(list, k)
        } by {
        if holds::<K, V>(rest, k) {
            let i = choose|i: int| #[trigger] keyed_at::<K, V>(rest, k, i);
            assert(rest[i] == list[i + 1]);
            assert(key_lt(K::key(list[0].0), K::key(list[i + 1].0)));
            lemma_entry_at::<K, V>(list, i + 1);
            lemma_entry_at::<K, V>(rest, i);
        } else if holds::<K, V>(list, k) {
            let i = choose|i: int| #[trigger] keyed_at::<K, V>(list, k, i);
            if i > 0 {
                assert(keyed_at::<K, V>(rest, k, i - 1));
            }
        }
    }
}

/// Two sorted lists in which the same entries are found are the same list.
pub proof fn lemma_sorted_unique<K: MapKey, V>(a: Entries<V>, b: Entries<V>)
    requires
        sorted::<K, V>(a),
        sorted::<K, V>(b),
        forall|k: Key| #[trigger] entry::<K, V>(a, k) == entry::<K, V>(b, k),
    ensures
        a == b,
    decreases a.len(),
{
    lemma_key_order();
    if a.len() == 0 {
        if b.len() > 0 {
            lemma_entry_at::<K, V>(b, 0);
            assert(entry::<K, V>(a, K::key(b[0].0)) == entry::<K, V>(b, K::key(b[0].0)));
            assert(holds::<K, V>(a, K::key(b[0].0)));
        }
        assert(a =~= b);
    } else {
        let ka = K::key(a[0].0);
        lemma_entry_at::<K, V>(a, 0);
        assert(entry::<K, V>(b, ka) == Some(a[0]));
        assert(holds::<K, V>(b, ka));
        let j = choose|j: int| #[trigger] keyed_at::<K, V>(b, ka, j);
        lemma_entry_at::<K, V>(b, j);
        if j > 0 {
            let kb = K::key(b[0].0);
            assert(key_lt(kb, ka));
            lemma_entry_at::<K, V>(b, 0);
            assert(entry::<K, V>(a, kb) == Some(b[0]));
            assert(holds::<K, V>(a, kb));
            let i = choose|i: int| #[trigger] keyed_at::<K, V>(a, kb, i);
            if i > 0 {
                assert(key_lt(K::key(a[0].0), K::key(a[i].0)));
            }
        }
        lemma_tail_sorted::<K, V>(a);
        lemma_tail_sorted::<K, V>(b);
        let ra = a.drop_first();
        let rb = b.drop_first();
        assert forall|k: Key| #[trigger] entry::<K, V>(ra, k) == entry::<K, V>(rb, k) by {
            assert(entry::<K, V>(a, k) == entry::<K, V>(b, k));
            assert(entry::<K, V>(rb, k) == if k == K::key(b[0].0) {
                None
            } else {
                entry::<K, V>(b, k)
            });
        }
        lemma_sorted_unique::<K, V>(ra, rb);
        assert(a =~= seq![a[0]] + ra);
        assert(b =~= seq![b[0]] + rb);
    }
}

/// What is found under a rank when `right` is stored over `left`.
pub open spec fn overlaid<V>(
    left: Option<(Seq<char>, V)>,
    right: Option<(Seq<char>, V)>,
) -> Option<(Seq<char>, V)> {
    match (left, right) {
        (Some(l), Some(r)) => Some((l.0, r.1)),
        (Some(l), None) => Some(l),
        (None, r) => r,
    }
}

/// Storing a sequence of items over a list: the list stays sorted, and an item under a rank wins
/// over what the list held there.
pub proof fn lemma_put_all<K: MapKey, V>(list: Entries<V>, items: Entries<V>)
    requires
        sorted::<K, V>(list),
    ensures
        sorted::<K, V>(put_all::<K, V>(list, items)),
        sorted::<K, V>(put_all::<K, V>(Seq::empty(), items)),
        forall|k: Key|
            #![trigger entry::<K, V>(put_all::<K, V>(list, items), k)]
            entry::<K, V>(put_all::<K, V>(list, items), k) == overlaid(
                entry::<K, V>(list, k),
                entry::<K, V>(put_all::<K, V>(Seq::empty(), items), k),
            ),
    decreases items.len(),
{
    let none: Entries<V> = Seq::empty();
    if items.len() == 0 {
        assert forall|k: Key| #[trigger] entry::<K, V>(none, k) is None by {}
    } else {
        let before = items.drop_last();
        let last = items.last();
        lemma_put_all::<K, V>(list, before);
        lemma_put::<K, V>(put_all::<K, V>(list, before), last.0, last.1);
        lemma_put::<K, V>(put_all::<K, V>(none, before), last.0, last.1);
        assert forall|k: Key|
            #![trigger entry::<K, V>(put_all::<K, V>(list, items), k)]
            entry::<K, V>(put_all::<K, V>(list, items), k) == overlaid(
                entry::<K, V>(list, k),
                entry::<K, V>(put_all::<K, V>(none, items), k),
            ) by {
            let e = entry::<K, V>(put_all::<K, V>(list, before), k);
            let f = entry::<K, V>(put_all::<K, V>(none, before), k);
            assert(e == overlaid(entry::<K, V>(list, k), f));
            assert(entry::<K, V>(put::<K, V>(put_all::<K, V>(none, before), last.0, last.1), k)
                == entry::<K, V>(put_all::<K, V>(none, items), k));
        }
    }
}

/// Under which ranks something is found after a sequence of items was stored.
pub proof fn lemma_put_all_holds<K: MapKey, V>(list: Entries<V>, items: Entries<V>)
    requires
        sorted::<K, V>(list),
    ensures
        forall|k: Key|
            #![trigger holds::<K, V>(put_all::<K, V>(list, items), k)]
            holds::<K, V>(put_all::<K, V>(list, items), k) <==> (holds::<K, V>(list, k) || holds::<
                K,
                V,
            >(items, k)),
    decreases items.len(),
{
    if items.len() > 0 {
        let before = items.drop_last();
        let last = items.last();
        lemma_put_all_holds::<K, V>(list, before);
        lemma_put_all::<K, V>(list, before);
        lemma_put::<K, V>(put_all::<K, V>(list, before), last.0, last.1);
        assert forall|k: Key|
            #![trigger holds::<K, V>(put_all::<K, V>(list, items), k)]
            holds::<K, V>(put_all::<K, V>(list, items), k) <==> (holds::<K, V>(list, k) || holds::<
                K,
                V,
            >(items, k)) by {
            assert(holds::<K, V>(put::<K, V>(put_all::<K, V>(list, before), last.0, last.1), k)
                == (k == K::key(last.0) || holds::<K, V>(put_all::<K, V>(list, before), k)));
            assert(holds::<K, V>(items, k) <==> (k == K::key(last.0) || holds::<K, V>(before, k)))
                by {
                if holds::<K, V>(before, k) {
                    let i = choose|i: int| #[trigger] keyed_at::<K, V>(before, k, i);
                    assert(keyed_at::<K, V>(items, k, i));
                }
                if k == K::key(last.0) {
                    assert(keyed_at::<K, V>(items, k, items.len() - 1));
                }
                if holds::<K, V>(items, k) {
                    let i = choose|i: int| #[trigger] keyed_at::<K, V>(items, k, i);
                    if i < before.len() {
                        assert(keyed_at::<K, V>(before, k, i));
                    }
                }
            }
        }
    } else {
        assert forall|k: Key| !#[trigger] holds::<K, V>(items, k) by {}
    }
}

/// Storing the entries of a sorted list into an empty one gives the same list.
pub proof fn lemma_put_all_sorted<K: MapKey, V>(list: Entries<V>)
    requires
        sorted::<K, V>(list),
    ensures
        put_all::<K, V>(Seq::empty(), list) == list,
    decreases list.len(),
{
    if list.len() == 0 {
        assert(list =~= Seq::empty());
    } else {
        let before = list.drop_last();
        let last = list.last();
        lemma_drop_last::<K, V>(list);
        lemma_put_all_sorted::<K, V>(before);
        assert forall|j: int| 0 <= j < before.len() implies key_lt(
            K::key((#[trigger] before[j]).0),
            K::key(last.0),
        ) by {
            assert(before[j] == list[j]);
        }
        lemma_slot_at::<K, V>(before, K::key(last.0), before.len() as int);
        assert(before.insert(before.len() as int, last) =~= list);
    }
}

/// If all items under a rank have the same value, that value is found under it once they were
/// stored.
pub proof fn lemma_put_all_value<K: MapKey, V>(items: Entries<V>, key: Key, value: V)
    requires
        forall|i: int| #[trigger] keyed_at::<K, V>(items, key, i) ==> items[i].1 == value,
    ensures
        holds::<K, V>(items, key) ==> {
            &&& entry::<K, V>(put_all::<K, V>(Seq::empty(), items), key) is Some
            &&& entry::<K, V>(put_all::<K, V>(Seq::empty(), items), key).unwrap().1 == value
        },
        !holds::<K, V>(items, key) ==> entry::<K, V>(
            put_all::<K, V>(Seq::empty(), items),
            key,
        ) is None,
    decreases items.len(),
{
    let none: Entries<V> = Seq::empty();
    if items.len() == 0 {
        assert(!holds::<K, V>(items, key));
        assert(!holds::<K, V>(none, key));
    } else {
        let before = items.drop_last();
        let last = items.last();
        assert forall|i: int| #[trigger] keyed_at::<K, V>(before, key, i) implies before[i].1
            == value by {
            assert(keyed_at::<K, V>(items, key, i));
        }
        lemma_put_all_value::<K, V>(before, key, value);
        lemma_put_all::<K, V>(none, before);
        lemma_put::<K, V>(put_all::<K, V>(none, before), last.0, last.1);
        if K::key(last.0) == key {
            assert(keyed_at::<K, V>(items, key, items.len() - 1));
        }
        if holds::<K, V>(before, key) {
            let i = choose|i: int| #[trigger] keyed_at::<K, V>(before, key, i);
            assert(keyed_at::<K, V>(items, key, i));
        }
        if holds::<K, V>(items, key) && K::key(last.0) != key {
            let i = choose|i: int| #[trigger] keyed_at::<K, V>(items, key, i);
            assert(keyed_at::<K, V>(before, key, i));
        }
    }
}

proof fn lemma_put_all_append<K: MapKey, V>(list: Entries<V>, a: Entries<V>, b: Entries<V>)
    ensures
        put_all::<K, V>(list, a + b) == put_all::<K, V>(put_all::<K, V>(list, a), b),
    decreases b.len(),
{
    if b.len() == 0 {
        assert(a + b =~= a);
    } else {
        assert((a + b).drop_last() =~= a + b.drop_last());
        lemma_put_all_append::<K, V>(list, a, b.drop_last());
    }
}

/// Two sorted lists merged from their ends; under a common rank the text of `x` and the value of `y`
/// remain.
spec fn merged<K: MapKey, V>(x: Entries<V>, y: Entries<V>) -> Entries<V>
    decreases x.len() + y.len(),
{
    if x.len() == 0 {
        y
    } else if y.len() == 0 {
        x
    } else if key_lt(K::key(x.last().0), K::key(y.last().0)) {
        merged::<K, V>(x, y.drop_last()).push(y.last())
    } else if key_lt(K::key(y.last().0), K::key(x.last().0)) {
        merged::<K, V>(x.drop_last(), y).push(x.last())
    } else {
        merged::<K, V>(x.drop_last(), y.drop_last()).push((x.last().0, y.last().1))
    }
}

proof fn lemma_push_last<K: MapKey, V>(list: Entries<V>, e: (Seq<char>, V))
    requires
        sorted::<K, V>(list),
        forall|k: Key| #[trigger] holds::<K, V>(list, k) ==> key_lt(k, K::key(e.0)),
    ensures
        sorted::<K, V>(list.push(e)),
        forall|k: Key|
            #![trigger entry::<K, V>(list.push(e), k)]
            entry::<K, V>(list.push(e), k) == if k == K::key(e.0) {
                Some(e)
            } else {
                entry::<K, V>(list, k)
            },
        forall|k: Key|
            #![trigger holds::<K, V>(list.push(e), k)]
            holds::<K, V>(list.push(e), k) <==> (k == K::key(e.0) || holds::<K, V>(list, k)),
{
    let new = list.push(e);
    lemma_key_order();
    assert forall|i: int, j: int| 0 <= i < j < new.len() implies key_lt(
        K::key((#[trigger] new[i]).0),
        K::key((#[trigger] new[j]).0),
    ) by {
        assert(keyed_at::<K, V>(list, K::key(list[i].0), i));
        if j < list.len() {
            assert(new[i] == list[i] && new[j] == list[j]);
        } else {
            assert(holds::<K, V>(list, K::key(list[i].0)));
        }
    }
    assert(keyed_at::<K, V>(new, K::key(e.0), list.len() as int));
    lemma_entry_at::<K, V>(new, list.len() as int);
    assert forall|k: Key| k != K::key(e.0) implies #[trigger] holds::<K, V>(new, k) == holds::<K, V>(
        list,
        k,
    ) && entry::<K, V>(new, k) == entry::<K, V>(list, k) by {
        if holds::<K, V>(list, k) {
            let i = choose|i: int| #[trigger] keyed_at::<K, V>(list, k, i);
            assert(new[i] == list[i]);
            lemma_entry_at::<K, V>(list, i);
            lemma_entry_at::<K, V>(new, i);
        }
        if holds::<K, V>(new, k) {
            let i = choose|i: int| #[trigger] keyed_at::<K, V>(new, k, i);
            assert(keyed_at::<K, V>(list, k, i));
        }
    }
    assert forall|k: Key|
        #![trigger entry::<K, V>(new, k)]
        entry::<K, V>(new, k) == if k == K::key(e.0) {
            Some(e)
        } else {
            entry::<K, V>(list, k)
        } by {
        if k != K::key(e.0) {
            assert(holds::<K, V>(new, k) == holds::<K, V>(list, k));
        }
    }
}

/// The last entry of a sorted list ranks above all others; without it the rest is found as before.
pub proof fn lemma_drop_last<K: MapKey, V>(list: Entries<V>)
    requires
        sorted::<K, V>(list),
        list.len() > 0,
    ensures
        sorted::<K, V>(list.drop_last()),
        forall|k: Key|
            #[trigger] holds::<K, V>(list.drop_last(), k) ==> key_lt(k, K::key(list.last().0)),
        forall|k: Key|
            #![trigger entry::<K, V>(list, k)]
            entry::<K, V>(list, k) == if k == K::key(list.last().0) {
                Some(list.last())
            } else {
                entry::<K, V>(list.drop_last(), k)
            },
        forall|k: Key|
            #![trigger holds::<K, V>(list, k)]
            holds::<K, V>(list, k) <==> (k == K::key(list.last().0) || holds::<K, V>(
                list.drop_last(),
                k,
            )),
{
    let short = list.drop_last();
    assert forall|i: int, j: int| 0 <= i < j < short.len() implies key_lt(
        K::key((#[trigger] short[i]).0),
        K::key((#[trigger] short[j]).0),
    ) by {
        assert(short[i] == list[i] && short[j] == list[j]);
    }
    assert forall|k: Key| #[trigger] holds::<K, V>(short, k) implies key_lt(
        k,
        K::key(list.last().0),
    ) by {
        let i = choose|i: int| #[trigger] keyed_at::<K, V>(short, k, i);
        assert(short[i] == list[i]);
        assert(key_lt(K::key(list[i].0), K::key(list[list.len() - 1].0)));
    }
    lemma_push_last::<K, V>(short, list.last());
    assert(short.push(list.last()) =~= list);
}

proof fn lemma_merged<K: MapKey, V>(x: Entries<V>, y: Entries<V>)
    requires
        sorted::<K, V>(x),
        sorted::<K, V>(y),
    ensures
        sorted::<K, V>(merged::<K, V>(x, y)),
        forall|k: Key|
            #![trigger entry::<K, V>(merged::<K, V>(x, y), k)]
            entry::<K, V>(merged::<K, V>(x, y), k) == overlaid(
                entry::<K, V>(x, k),
                entry::<K, V>(y, k),
            ),
        forall|k: Key|
            #![trigger holds::<K, V>(merged::<K, V>(x, y), k)]
            holds::<K, V>(merged::<K, V>(x, y), k) <==> (holds::<K, V>(x, k) || holds::<K, V>(y, k)),
    decreases x.len() + y.len(),
{
    lemma_key_order();
    if x.len() == 0 {
        assert forall|k: Key| !#[trigger] holds::<K, V>(x, k) by {}
    } else if y.len() == 0 {
        assert forall|k: Key| !#[trigger] holds::<K, V>(y, k) by {}
    } else {
        lemma_drop_last::<K, V>(x);
        lemma_drop_last::<K, V>(y);
        let kx = K::key(x.last().0);
        let ky = K::key(y.last().0);
        let (a, b, e) = if key_lt(kx, ky) {
            (x, y.drop_last(), y.last())
        } else if key_lt(ky, kx) {
            (x.drop_last(), y, x.last())
        } else {
            (x.drop_last(), y.drop_last(), (x.last().0, y.last().1))
        };
        let rest = merged::<K, V>(a, b);
        lemma_merged::<K, V>(a, b);
        assert forall|k: Key| #[trigger] holds::<K, V>(rest, k) implies key_lt(k, K::key(e.0)) by {
            assert(holds::<K, V>(a, k) || holds::<K, V>(b, k));
            if holds::<K, V>(a, k) {
                assert(holds::<K, V>(x, k));
            } else {
                assert(holds::<K, V>(y, k));
            }
        }
        lemma_push_last::<K, V>(rest, e);
        assert(!key_lt(kx, ky) && !key_lt(ky, kx) ==> kx == ky);
        assert forall|k: Key|
            #![trigger entry::<K, V>(merged::<K, V>(x, y), k)]
            entry::<K, V>(merged::<K, V>(x, y), k) == overlaid(
                entry::<K, V>(x, k),
                entry::<K, V>(y, k),
            ) by {
            assert(entry::<K, V>(rest, k) == overlaid(entry::<K, V>(a, k), entry::<K, V>(b, k)));
            assert(holds::<K, V>(x, k) == (k == kx || holds::<K, V>(x.drop_last(), k)));
            assert(holds::<K, V>(y, k) == (k == ky || holds::<K, V>(y.drop_last(), k)));
        }
        assert forall|k: Key|
            #![trigger holds::<K, V>(merged::<K, V>(x, y), k)]
            holds::<K, V>(merged::<K, V>(x, y), k) <==> (holds::<K, V>(x, k) || holds::<K, V>(y, k))
            by {
            assert(holds::<K, V>(rest, k) == (holds::<K, V>(a, k) || holds::<K, V>(b, k)));
        }
    }
}

/// Storing all items of two batches is merging what each batch alone gives.
proof fn lemma_merge_batches<K: MapKey, V>(a: Entries<V>, b: Entries<V>)
    ensures
        merged::<K, V>(
            put_all::<K, V>(Seq::empty(), a),
            put_all::<K, V>(Seq::empty(), b),
        ) == put_all::<K, V>(Seq::empty(), a + b),
{
    let none: Entries<V> = Seq::empty();
    let x = put_all::<K, V>(none, a);
    let y = put_all::<K, V>(none, b);
    lemma_put_all::<K, V>(none, a);
    lemma_put_all::<K, V>(x, b);
    lemma_put_all_append::<K, V>(none, a, b);
    lemma_merged::<K, V>(x, y);
    assert forall|k: Key| #[trigger] entry::<K, V>(merged::<K, V>(x, y), k) == entry::<K, V>(
        put_all::<K, V>(none, a + b),
        k,
    ) by {
        assert(entry::<K, V>(put_all::<K, V>(x, b), k) == overlaid(
            entry::<K, V>(x, k),
            entry::<K, V>(y, k),
        ));
    }
    lemma_sorted_unique::<K, V>(merged::<K, V>(x, y), put_all::<K, V>(none, a + b));
}

/// Storing items over a sorted list is merging it with what the items alone give.
proof fn lemma_merge_over<K: MapKey, V>(list: Entries<V>, items: Entries<V>)
    requires
        sorted::<K, V>(list),
    ensures
        merged::<K, V>(list, put_all::<K, V>(Seq::empty(), items)) == put_all::<K, V>(list, items),
{
    let fresh = put_all::<K, V>(Seq::empty(), items);
    lemma_put_all::<K, V>(list, items);
    lemma_merged::<K, V>(list, fresh);
    assert forall|k: Key| #[trigger] entry::<K, V>(merged::<K, V>(list, fresh), k) == entry::<K, V>(
        put_all::<K, V>(list, items),
        k,
    ) by {}
    lemma_sorted_unique::<K, V>(merged::<K, V>(list, fresh), put_all::<K, V>(list, items));
}

/// The entries of a sorted list that pass a test form a sorted list; an entry is found in it exactly
/// if it is found in the whole list and passes.
pub proof fn lemma_filter<K: MapKey, V>(list: Entries<V>, test: spec_fn((Seq<char>, V)) -> bool)
    requires
        sorted::<K, V>(list),
    ensures
        sorted::<K, V>(list.filter(test)),
        forall|k: Key|
            #![trigger holds::<K, V>(list.filter(test), k)]
            holds::<K, V>(list.filter(test), k) <==> (entry::<K, V>(list, k) is Some && test(
                entry::<K, V>(list, k)->0,
            )),
        forall|k: Key|
            #![trigger entry::<K, V>(list.filter(test), k)]
            entry::<K, V>(list.filter(test), k) == if entry::<K, V>(list, k) is Some && test(
                entry::<K, V>(list, k)->0,
            ) {
                entry::<K, V>(list, k)
            } else {
                None
            },
    decreases list.len(),
{
    reveal(Seq::filter);
    if list.len() == 0 {
        assert forall|k: Key| !#[trigger] holds::<K, V>(list, k) by {}
    } else {
        let short = list.drop_last();
        let last = list.last();
        lemma_drop_last::<K, V>(list);
        lemma_filter::<K, V>(short, test);
        let kept = short.filter(test);
        assert forall|k: Key| #[trigger] holds::<K, V>(kept, k) implies key_lt(k, K::key(last.0)) by {
            assert(holds::<K, V>(short, k));
        }
        assert forall|k: Key| #[trigger] holds::<K, V>(list, k) && k == K::key(last.0) implies !holds::<
            K,
            V,
        >(short, k) by {
            lemma_key_order();
        }
        lemma_push_last::<K, V>(kept, last);
        assert forall|k: Key|
            #![trigger entry::<K, V>(list.filter(test), k)]
            entry::<K, V>(list.filter(test), k) == if entry::<K, V>(list, k) is Some && test(
                entry::<K, V>(list, k)->0,
            ) {
                entry::<K, V>(list, k)
            } else {
                None
            } by {
            if k == K::key(last.0) {
                lemma_entry_at::<K, V>(list, list.len() - 1);
                assert(entry::<K, V>(list, k) == Some(last));
                lemma_key_order();
                assert(!holds::<K, V>(kept, k));
            } else {
                assert(entry::<K, V>(kept, k) == if entry::<K, V>(short, k) is Some && test(
                    entry::<K, V>(short, k)->0,
                ) {
                    entry::<K, V>(short, k)
                } else {
                    None
                });
            }
        }
        assert forall|k: Key|
            #![trigger holds::<K, V>(list.filter(test), k)]
            holds::<K, V>(list.filter(test), k) <==> (entry::<K, V>(list, k) is Some && test(
                entry::<K, V>(list, k)->0,
            )) by {
            assert(entry::<K, V>(list.filter(test), k) is Some == holds::<K, V>(
                list.filter(test),
                k,
            ));
        }
    }
}

/// A map from keys to values, held as a list in the order of the keys.
#[derive(Debug)]
pub struct SortedMap<K: MapKey, V> {
    entries: Vec<(K, V)>,
}

spec fn entries_of<K: MapKey, V>(list: Seq<(K, V)>) -> Entries<V> {
    list.map_values(|e: (K, V)| (e.0@, e.1))
}

impl<K: MapKey, V> View for SortedMap<K, V> {
    type V = Entries<V>;

    closed spec fn view(&self) -> Entries<V> {
        entries_of(self.entries@)
    }
}

impl<K: MapKey, V> SortedMap<K, V> {
    #[verifier::type_invariant]
    spec fn in_order(self) -> bool {
        sorted::<K, V>(entries_of(self.entries@))
    }

    /// The empty map.
    pub fn new() -> (map: Self)
        ensures
            map@ == Seq::<(Seq<char>, V)>::empty(),
    {
        let map = SortedMap { entries: Vec::new() };
        assert(map@ =~= Seq::<(Seq<char>, V)>::empty());
        map
    }

    /// Does nothing; the ranks of the entries always strictly increase.
    pub(crate) fn known_in_order(&self)
        ensures
            sorted::<K, V>(self@),
    {
        proof {
            use_type_invariant(self);
        }
    }

    /// The number of entries. The ranks of the entries strictly increase.
    pub fn len(&self) -> (n: usize)
        ensures
            n == self@.len(),
            sorted::<K, V>(self@),
    {
        self.known_in_order();
        self.entries.len()
    }

    /// Whether there is no entry.
    pub fn is_empty(&self) -> (empty: bool)
        ensures
            empty == (self@.len() == 0),
    {
        self.entries.len() == 0
    }

    /// The key of the `i`-th entry.
    pub fn key_at(&self, i: usize) -> (key: &K)
        requires
            i < self@.len(),
        ensures
            key@ == self@[i as int].0,
    {
        &self.entries[i].0
    }

    /// The value of the `i`-th entry.
    pub fn value_at(&self, i: usize) -> (value: &V)
        requires
            i < self@.len(),
        ensures
            *value == self@[i as int].1,
    {
        &self.entries[i].1
    }

    /// The slot of a key, and whether an entry of its rank stands there.
    fn seek(&self, key: &K) -> (r: (usize, bool))
        ensures
            r.0 == slot::<K, V>(self@, K::key(key@)),
            r.0 <= self@.len(),
            r.1 == (r.0 < self@.len() && K::key(self@[r.0 as int].0) == K::key(key@)),
    {
        proof {
            use_type_invariant(self);
            lemma_key_order();
        }
        let ghost list = self@;
        let ghost rank = K::key(key@);
        let mut low: usize = 0;
        let mut high: usize = self.entries.len();
        while low < high
            invariant
                low <= high <= self.entries@.len(),
                list == entries_of(self.entries@),
                rank == K::key(key@),
                sorted::<K, V>(list),
                forall|j: int| 0 <= j < low ==> key_lt(K::key((#[trigger] list[j]).0), rank),
                forall|j: int| high <= j < list.len() ==> key_lt(rank, K::key((#[trigger] list[j]).0)),
            decreases high - low,
        {
            let mid: usize = low + (high - low) / 2;
            proof {
                lemma_key_order();
            }
            assert(list[mid as int].0 == self.entries@[mid as int].0@);
            match self.entries[mid].0.place(key) {
                Placement::Less => {
                    assert forall|j: int| 0 <= j < mid + 1 implies key_lt(
                        K::key((#[trigger] list[j]).0),
                        rank,
                    ) by {
                        if j < mid {
                            assert(key_lt(K::key(list[j].0), K::key(list[mid as int].0)));
                        }
                    }
                    low = mid + 1;
                },
                Placement::Greater => {
                    assert forall|j: int| mid <= j < list.len() implies key_lt(
                        rank,
                        K::key((#[trigger] list[j]).0),
                    ) by {
                        if mid < j {
                            assert(key_lt(K::key(list[mid as int].0), K::key(list[j].0)));
                        }
                    }
                    high = mid;
                },
                Placement::Equal => {
                    assert forall|j: int| 0 <= j < mid implies key_lt(
                        K::key((#[trigger] list[j]).0),
                        rank,
                    ) by {
                        assert(key_lt(K::key(list[j].0), K::key(list[mid as int].0)));
                    }
                    proof {
                        lemma_slot_at::<K, V>(list, rank, mid as int);
                    }
                    return (mid, true);
                },
            }
        }
        proof {
            lemma_key_order();
            if low < list.len() {
                assert(key_lt(rank, K::key(list[low as int].0)));
                if key_lt(K::key(list[low as int].0), rank) {
                    assert(key_lt(rank, rank));
                }
            }
            lemma_slot_at::<K, V>(list, rank, low as int);
        }
        (low, false)
    }

    /// Whether an entry of the rank of `key` is present.
    pub fn contains(&self, key: &K) -> (present: bool)
        ensures
            present == holds::<K, V>(self@, K::key(key@)),
    {
        proof {
            use_type_invariant(self);
            lemma_slot_holds::<K, V>(self@, K::key(key@));
        }
        self.seek(key).1
    }

    /// The value under the rank of `key`.
    pub fn get(&self, key: &K) -> (value: Option<&V>)
        ensures
            match entry::<K, V>(self@, K::key(key@)) {
                Some(e) => value == Some(&e.1),
                None => value is None,
            },
    {
        proof {
            use_type_invariant(self);
            lemma_slot_holds::<K, V>(self@, K::key(key@));
        }
        let (i, found) = self.seek(key);
        if found {
            Some(&self.entries[i].1)
        } else {
            None
        }
    }

    /// Stores `value` under `key`.
    pub fn insert(&mut self, key: K, value: V)
        ensures
            final(self)@ == put::<K, V>(old(self)@, key@, value),
    {
        proof {
            use_type_invariant(&*self);
            lemma_put::<K, V>(self@, key@, value);
        }
        let ghost before = self@;
        let (i, found) = self.seek(&key);
        let mut entries: Vec<(K, V)> = Vec::new();
        std::mem::swap(&mut entries, &mut self.entries);
        if found {
            let (old_key, _) = entries.remove(i);
            entries.insert(i, (old_key, value));
        } else {
            entries.insert(i, (key, value));
        }
        assert(entries_of(entries@) =~= put::<K, V>(before, key@, value));
        self.entries = entries;
    }

    /// The map that holds `items`, stored one after the other.
    pub fn from_entries(items: Vec<(K, V)>) -> (map: Self)
        ensures
            map@ == put_all::<K, V>(
                Seq::empty(),
                items@.map_values(|e: (K, V)| (e.0@, e.1)),
            ),
    {
        let entries = sort_entries(items);
        proof {
            lemma_put_all::<K, V>(Seq::empty(), entries_of(items@));
        }
        SortedMap { entries }
    }

    /// The map after `items` were stored in it, one after the other.
    pub fn with_all(self, items: Vec<(K, V)>) -> (map: Self)
        ensures
            map@ == put_all::<K, V>(self@, items@.map_values(|e: (K, V)| (e.0@, e.1))),
    {
        proof {
            use_type_invariant(&self);
            lemma_merge_over::<K, V>(self@, entries_of(items@));
            lemma_put_all::<K, V>(self@, entries_of(items@));
        }
        let entries = merge_entries(self.entries, sort_entries(items));
        SortedMap { entries }
    }
}

fn merge_entries<K: MapKey, V>(first: Vec<(K, V)>, second: Vec<(K, V)>) -> (list: Vec<(K, V)>)
    ensures
        entries_of(list@) == merged::<K, V>(entries_of(first@), entries_of(second@)),
{
    let ghost x0 = entries_of(first@);
    let ghost y0 = entries_of(second@);
    let mut x = first;
    let mut y = second;
    let mut down: Vec<(K, V)> = Vec::new();
    assert(merged::<K, V>(x0, y0) =~= merged::<K, V>(entries_of(x@), entries_of(y@)) + entries_of(
        down@,
    ).reverse());
    while x.len() > 0 && y.len() > 0
        invariant
            merged::<K, V>(x0, y0) == merged::<K, V>(entries_of(x@), entries_of(y@)) + entries_of(
                down@,
            ).reverse(),
        decreases x.len() + y.len(),
    {
        let ghost xs = entries_of(x@);
        let ghost ys = entries_of(y@);
        let ghost out = entries_of(down@);
        proof {
            lemma_key_order();
            assert(entries_of(x@.drop_last()) =~= xs.drop_last());
            assert(entries_of(y@.drop_last()) =~= ys.drop_last());
        }
        match x[x.len() - 1].0.place(&y[y.len() - 1].0) {
            Placement::Less => {
                let e = y.pop().unwrap();
                down.push(e);
                assert(entries_of(down@) =~= out.push(ys.last()));
                assert(merged::<K, V>(xs, ys.drop_last()).push(ys.last()) + out.reverse() =~= merged::<
                    K,
                    V,
                >(xs, ys.drop_last()) + out.push(ys.last()).reverse());
            },
            Placement::Greater => {
                let e = x.pop().unwrap();
                down.push(e);
                assert(entries_of(down@) =~= out.push(xs.last()));
                assert(merged::<K, V>(xs.drop_last(), ys).push(xs.last()) + out.reverse() =~= merged::<
                    K,
                    V,
                >(xs.drop_last(), ys) + out.push(xs.last()).reverse());
            },
            Placement::Equal => {
                let (key, _) = x.pop().unwrap();
                let (_, value) = y.pop().unwrap();
                down.push((key, value));
                assert(entries_of(down@) =~= out.push((xs.last().0, ys.last().1)));
                assert(merged::<K, V>(xs.drop_last(), ys.drop_last()).push(
                    (xs.last().0, ys.last().1),
                ) + out.reverse() =~= merged::<K, V>(xs.drop_last(), ys.drop_last()) + out.push(
                    (xs.last().0, ys.last().1),
                ).reverse());
            },
        }
    }
    let mut list = if x.len() > 0 {
        x
    } else {
        y
    };
    assert(entries_of(list@) + entries_of(down@).reverse() == merged::<K, V>(x0, y0));
    while down.len() > 0
        invariant
            entries_of(list@) + entries_of(down@).reverse() == merged::<K, V>(x0, y0),
        decreases down.len(),
    {
        let ghost before = entries_of(list@);
        let ghost out = entries_of(down@);
        let e = down.pop().unwrap();
        list.push(e);
        assert(entries_of(list@) =~= before.push(out.last()));
        assert(entries_of(down@) =~= out.drop_last());
        assert(before + out.reverse() =~= before.push(out.last()) + out.drop_last().reverse());
    }
    assert(entries_of(list@) + entries_of(down@).reverse() =~= entries_of(list@));
    list
}

fn sort_entries<K: MapKey, V>(items: Vec<(K, V)>) -> (list: Vec<(K, V)>)
    ensures
        entries_of(list@) == put_all::<K, V>(Seq::empty(), entries_of(items@)),
    decreases items.len(),
{
    let ghost all = entries_of(items@);
    if items.len() <= 1 {
        proof {
            let none: Entries<V> = Seq::empty();
            reveal_with_fuel(put_all, 2);
            if all.len() == 1 {
                assert(all.drop_last() =~= none);
                assert(none.insert(0, all[0]) =~= all);
            } else {
                assert(all =~= none);
            }
        }
        return items;
    }
    let mid: usize = items.len() / 2;
    let mut first = items;
    let second = first.split_off(mid);
    proof {
        lemma_merge_batches::<K, V>(entries_of(first@), entries_of(second@));
        assert(entries_of(first@) + entries_of(second@) =~= all);
    }
    merge_entries(sort_entries(first), sort_entries(second))
}

/// Something is found under a rank exactly if an entry has it, and then it is such an entry.
pub proof fn entries_are_found<K: MapKey, V>(list: Entries<V>, key: Key)
    ensures
        holds::<K, V>(list, key) <==> exists|i: int|
            0 <= i < list.len() && K::key((#[trigger] list[i]).0) == key,
        holds::<K, V>(list, key) ==> exists|i: int|
            0 <= i < list.len() && K::key(list[i].0) == key && entry::<K, V>(list, key) == Some(
                #[trigger] list[i],
            ),
        !holds::<K, V>(list, key) ==> entry::<K, V>(list, key) is None,
{
    if exists|i: int| 0 <= i < list.len() && K::key((#[trigger] list[i]).0) == key {
        let i = choose|i: int| 0 <= i < list.len() && K::key((#[trigger] list[i]).0) == key;
        assert(keyed_at::<K, V>(list, key, i));
    }
    if holds::<K, V>(list, key) {
        let i = choose|i: int| #[trigger] keyed_at::<K, V>(list, key, i);
        assert(entry::<K, V>(list, key) == Some(list[i]));
    }
}

/// Plain texts are told apart by all of their characters.
pub proof fn texts_are_their_own_keys(one: Seq<char>, other: Seq<char>)
    ensures
        text_key(one) == text_key(other) <==> one == other,
        <FilePath as MapKey>::key(one) == path_key(one),
        <String as MapKey>::key(one) == text_key(one),
{
    encode_utf8_decode_utf8(one);
    encode_utf8_decode_utf8(other);
    if text_key(one) == text_key(other) {
        assert(text_key(one)[0] == text_key(other)[0]);
    }
}

/// The value of a text in a list that is in the order of its texts is that of the entry with just
/// this text; without such an entry there is none.
pub proof fn values_are_found_by_text<V>(list: Entries<V>, text: Seq<char>)
    requires
        sorted::<String, V>(list),
    ensures
        forall|i: int|
            0 <= i < list.len() && (#[trigger] list[i]).0 == text ==> entry::<String, V>(
                list,
                text_key(text),
            ) == Some(list[i]),
        (forall|i: int| 0 <= i < list.len() ==> (#[trigger] list[i]).0 != text) ==> entry::<
            String,
            V,
        >(list, text_key(text)) is None && !holds::<String, V>(list, text_key(text)),
{
    assert forall|i: int| 0 <= i < list.len() && (#[trigger] list[i]).0 == text implies entry::<
        String,
        V,
    >(list, text_key(text)) == Some(list[i]) by {
        lemma_entry_at::<String, V>(list, i);
    }
    if holds::<String, V>(list, text_key(text)) {
        let i = choose|i: int| #[trigger] keyed_at::<String, V>(list, text_key(text), i);
        texts_are_their_own_keys(list[i].0, text);
        assert(list[i].0 == text);
    }
}

/// Of the items that are stored under one rank the last one counts, and nothing but items is stored.
pub proof fn the_last_item_counts<K: MapKey, V>(items: Entries<V>, j: int)
    requires
        0 <= j < items.len(),
        forall|m: int| j < m < items.len() ==> K::key((#[trigger] items[m]).0) != K::key(items[j].0),
    ensures
        entry::<K, V>(put_all::<K, V>(Seq::empty(), items), K::key(items[j].0)) is Some,
        entry::<K, V>(put_all::<K, V>(Seq::empty(), items), K::key(items[j].0)).unwrap().1
            == items[j].1,
    decreases items.len(),
{
    let none: Entries<V> = Seq::empty();
    let before = items.drop_last();
    let last = items.last();
    lemma_put_all::<K, V>(none, before);
    lemma_put::<K, V>(put_all::<K, V>(none, before), last.0, last.1);
    if j < items.len() - 1 {
        assert(items[items.len() - 1] == last);
        assert forall|m: int| j < m < before.len() implies K::key((#[trigger] before[m]).0) != K::key(
            before[j].0,
        ) by {
            assert(before[m] == items[m]);
        }
        the_last_item_counts::<K, V>(before, j);
        assert(entry::<K, V>(put_all::<K, V>(none, items), K::key(items[j].0)) == entry::<K, V>(
            put_all::<K, V>(none, before),
            K::key(items[j].0),
        ));
    }
}

/// Nothing but items is stored: each entry stands for an item of the same rank, and has the text of
/// one and the value of one.
pub proof fn only_items_are_stored<K: MapKey, V>(items: Entries<V>, i: int)
    requires
        0 <= i < put_all::<K, V>(Seq::empty(), items).len(),
    ensures
        exists|j: int|
            0 <= j < items.len() && (#[trigger] items[j]).0 == put_all::<K, V>(Seq::empty(), items)[i].0,
        exists|j: int|
            0 <= j < items.len() && K::key((#[trigger] items[j]).0) == K::key(
                put_all::<K, V>(Seq::empty(), items)[i].0,
            ) && items[j].1 == put_all::<K, V>(Seq::empty(), items)[i].1,
    decreases items.len(),
{
    let none: Entries<V> = Seq::empty();
    if items.len() > 0 {
        let before = items.drop_last();
        let last = items.last();
        let old = put_all::<K, V>(none, before);
        let all = put_all::<K, V>(none, items);
        let s = slot::<K, V>(old, K::key(last.0));
        lemma_put_all::<K, V>(none, before);
        lemma_slot::<K, V>(old, K::key(last.0));
        assert(items[items.len() - 1] == last);
        let m = if s < old.len() && K::key(old[s].0) == K::key(last.0) {
            i
        } else if i < s {
            i
        } else {
            i - 1
        };
        if i == s && !(s < old.len() && K::key(old[s].0) == K::key(last.0)) {
            assert(all[i] == last);
        } else {
            assert(all[i].0 == old[m].0);
            only_items_are_stored::<K, V>(before, m);
            let j = choose|j: int| 0 <= j < before.len() && (#[trigger] before[j]).0 == old[m].0;
            assert(items[j].0 == all[i].0);
            let n = choose|n: int|
                0 <= n < before.len() && K::key((#[trigger] before[n]).0) == K::key(old[m].0)
                    && before[n].1 == old[m].1;
            assert(items[n] == before[n]);
            if i == s {
                assert(all[i].1 == last.1);
            }
        }
    }
}

/// Plain texts are ordered by the first bytes in which they differ; a text comes before those that it
/// begins.
pub proof fn texts_are_ordered_by_their_bytes(one: Seq<char>, other: Seq<char>, k: int)
    requires
        0 <= k <= encode_utf8(one).len(),
        k < encode_utf8(other).len(),
        forall|j: int| 0 <= j < k ==> #[trigger] encode_utf8(one)[j] == encode_utf8(other)[j],
        k == encode_utf8(one).len() || encode_utf8(one)[k] < encode_utf8(other)[k],
    ensures
        key_lt(text_key(one), text_key(other)),
{
    let lt = |x: Part, y: Part| part_lt(x, y);
    assert(lex_splits(encode_utf8(one), encode_utf8(other), |p: u8, q: u8| p < q, k));
    assert(bytes_lt(encode_utf8(one), encode_utf8(other)));
    assert(lex_splits(text_key(one), text_key(other), lt, 0));
}

} // verus!
