//! Lexicographic orders on byte strings and on path ranks.

use vstd::prelude::*;

verus! {

/// Where one value stands relative to another in a total order.
#[derive(Debug, Clone, Copy, PartialEq, Eq, Structural)]
pub enum Placement {
    Less,
    Equal,
    Greater,
}

/// `a` and `b` agree before position `i`, and at `i` either `a` ends or its item is smaller.
pub open spec fn lex_splits<T>(
    a: Seq<T>,
    b: Seq<T>,
    lt: spec_fn(T, T) -> bool,
    i: int,
) -> bool {
    &&& 0 <= i <= a.len()
    &&& i < b.len()
    &&& forall|j: int| 0 <= j < i ==> #[trigger] a[j] == b[j]
    &&& i == a.len() || lt(a[i], b[i])
}

/// `a` precedes `b` in the lexicographic order built on `lt`.
pub open spec fn lex_lt<T>(a: Seq<T>, b: Seq<T>, lt: spec_fn(T, T) -> bool) -> bool {
    exists|i: int| #[trigger] lex_splits(a, b, lt, i)
}

/// `lt` is a strict total order.
pub open spec fn strict_total<T>(lt: spec_fn(T, T) -> bool) -> bool {
    &&& forall|a: T| !#[trigger] lt(a, a)
    &&& forall|a: T, b: T, c: T| #[trigger] lt(a, b) && #[trigger] lt(b, c) ==> lt(a, c)
    &&& forall|a: T, b: T| #![trigger lt(a, b)] a != b ==> lt(a, b) || lt(b, a)
}

/// Byte strings in the order of their first differing byte.
pub open spec fn bytes_lt(a: Seq<u8>, b: Seq<u8>) -> bool {
    lex_lt(a, b, |x: u8, y: u8| x < y)
}

/// One component of a rank: its kind, then its name.
pub type Part = (int, Seq<u8>);

/// A rank: what a key is compared by.
pub type Key = Seq<Part>;

/// Components are ordered by kind, and within a kind by name.
pub open spec fn part_lt(a: Part, b: Part) -> bool {
    a.0 < b.0 || (a.0 == b.0 && bytes_lt(a.1, b.1))
}

/// Ranks in the order of their first differing component.
pub open spec fn key_lt(a: Key, b: Key) -> bool {
    lex_lt(a, b, |x: Part, y: Part| part_lt(x, y))
}

/// `p` says how `a` stands to `b`.
pub open spec fn placed(p: Placement, a: Key, b: Key) -> bool {
    match p {
        Placement::Less => key_lt(a, b),
        Placement::Equal => a == b,
        Placement::Greater => key_lt(b, a),
    }
}

proof fn lemma_lex_irreflexive<T>(a: Seq<T>, lt: spec_fn(T, T) -> bool)
    requires
        strict_total(lt),
    ensures
        !lex_lt(a, a, lt),
{
}

proof fn lemma_lex_transitive<T>(a: Seq<T>, b: Seq<T>, c: Seq<T>, lt: spec_fn(T, T) -> bool)
    requires
        strict_total(lt),
        lex_lt(a, b, lt),
        lex_lt(b, c, lt),
    ensures
        lex_lt(a, c, lt),
{
    let i = choose|i: int| lex_splits(a, b, lt, i);
    let j = choose|j: int| lex_splits(b, c, lt, j);
    let k = if i <= j { i } else { j };
    assert forall|m: int| 0 <= m < k implies #[trigger] a[m] == c[m] by {
        assert(a[m] == b[m]);
    }
    if i < j {
        assert(b[i] == c[i]);
    } else if j < i {
        assert(a[j] == b[j]);
    }
    assert(lex_splits(a, c, lt, k));
}

proof fn lemma_lex_total<T>(a: Seq<T>, b: Seq<T>, lt: spec_fn(T, T) -> bool)
    requires
        strict_total(lt),
        a != b,
    ensures
        lex_lt(a, b, lt) || lex_lt(b, a, lt),
    decreases a.len(),
{
    if a.len() == 0 {
        assert(b.len() > 0) by {
            if b.len() == 0 {
                assert(a =~= b);
            }
        }
        assert(lex_splits(a, b, lt, 0));
    } else if b.len() == 0 {
        assert(lex_splits(b, a, lt, 0));
    } else if a[0] != b[0] {
        if lt(a[0], b[0]) {
            assert(lex_splits(a, b, lt, 0));
        } else {
            assert(lex_splits(b, a, lt, 0));
        }
    } else {
        let at = a.drop_first();
        let bt = b.drop_first();
        if at == bt {
            assert(a =~= seq![a[0]] + at);
            assert(b =~= seq![b[0]] + bt);
        }
        lemma_lex_total(at, bt, lt);
        if lex_lt(at, bt, lt) {
            let i = choose|i: int| lex_splits(at, bt, lt, i);
            lemma_lex_shift(a, b, lt, i);
        } else {
            let i = choose|i: int| lex_splits(bt, at, lt, i);
            lemma_lex_shift(b, a, lt, i);
        }
    }
}

proof fn lemma_lex_shift<T>(a: Seq<T>, b: Seq<T>, lt: spec_fn(T, T) -> bool, i: int)
    requires
        a.len() > 0,
        b.len() > 0,
        a[0] == b[0],
        lex_splits(a.drop_first(), b.drop_first(), lt, i),
    ensures
        lex_splits(a, b, lt, i + 1),
{
    let at = a.drop_first();
    let bt = b.drop_first();
    assert forall|j: int| 0 <= j < i + 1 implies #[trigger] a[j] == b[j] by {
        if j > 0 {
            assert(at[j - 1] == bt[j - 1]);
        }
    }
}

proof fn lemma_lex_strict_total<T>(lt: spec_fn(T, T) -> bool)
    requires
        strict_total(lt),
    ensures
        strict_total(|a: Seq<T>, b: Seq<T>| lex_lt(a, b, lt)),
{
    let lex = |a: Seq<T>, b: Seq<T>| lex_lt(a, b, lt);
    assert forall|a: Seq<T>| !#[trigger] lex(a, a) by {
        lemma_lex_irreflexive(a, lt);
    }
    assert forall|a: Seq<T>, b: Seq<T>, c: Seq<T>| #[trigger] lex(a, b) && #[trigger] lex(
        b,
        c,
    ) implies lex(a, c) by {
        lemma_lex_transitive(a, b, c, lt);
    }
    assert forall|a: Seq<T>, b: Seq<T>| #![trigger lex(a, b)] a != b implies lex(a, b) || lex(b, a) by {
        lemma_lex_total(a, b, lt);
    }
}

/// `bytes_lt` is a strict total order.
pub proof fn lemma_bytes_order()
    ensures
        forall|a: Seq<u8>| !#[trigger] bytes_lt(a, a),
        forall|a: Seq<u8>, b: Seq<u8>, c: Seq<u8>| #[trigger]
            bytes_lt(a, b) && #[trigger] bytes_lt(b, c) ==> bytes_lt(a, c),
        forall|a: Seq<u8>, b: Seq<u8>|
            #![trigger bytes_lt(a, b)]
            a != b ==> bytes_lt(a, b) || bytes_lt(b, a),
{
    let lt = |x: u8, y: u8| x < y;
    lemma_lex_strict_total(lt);
    let lex = |a: Seq<u8>, b: Seq<u8>| lex_lt(a, b, lt);
    assert forall|a: Seq<u8>| !#[trigger] bytes_lt(a, a) by {
        assert(!lex(a, a));
    }
    assert forall|a: Seq<u8>, b: Seq<u8>, c: Seq<u8>| #[trigger] bytes_lt(a, b) && #[trigger] bytes_lt(
        b,
        c,
    ) implies bytes_lt(a, c) by {
        assert(lex(a, b) && lex(b, c));
        assert(lex(a, c));
    }
    assert forall|a: Seq<u8>, b: Seq<u8>| #![trigger bytes_lt(a, b)] a != b implies bytes_lt(
        a,
        b,
    ) || bytes_lt(b, a) by {
        assert(lex(a, b) || lex(b, a));
    }
}

/// `key_lt` is a strict total order.
pub proof fn lemma_key_order()
    ensures
        forall|a: Key| !#[trigger] key_lt(a, a),
        forall|a: Key, b: Key, c: Key| #[trigger] key_lt(a, b) && #[trigger] key_lt(b, c) ==> key_lt(
            a,
            c,
        ),
        forall|a: Key, b: Key| #![trigger key_lt(a, b)] a != b ==> key_lt(a, b) || key_lt(b, a),
{
    let lt = |x: Part, y: Part| part_lt(x, y);
    lemma_bytes_order();
    lemma_lex_strict_total(lt);
    let lex = |a: Key, b: Key| lex_lt(a, b, lt);
    assert forall|a: Key| !#[trigger] key_lt(a, a) by {
        assert(!lex(a, a));
    }
    assert forall|a: Key, b: Key, c: Key| #[trigger] key_lt(a, b) && #[trigger] key_lt(b, c) implies key_lt(
        a,
        c,
    ) by {
        assert(lex(a, b) && lex(b, c));
        assert(lex(a, c));
    }
    assert forall|a: Key, b: Key| #![trigger key_lt(a, b)] a != b implies key_lt(a, b) || key_lt(
        b,
        a,
    ) by {
        assert(lex(a, b) || lex(b, a));
    }
}

/// Compares two byte strings.
pub fn order_bytes(a: &[u8], b: &[u8]) -> (p: Placement)
    ensures
        match p {
            Placement::Less => bytes_lt(a@, b@),
            Placement::Equal => a@ == b@,
            Placement::Greater => bytes_lt(b@, a@),
        },
{
    let ghost lt = |x: u8, y: u8| x < y;
    let mut i: usize = 0;
    while i < a.len() && i < b.len()
        invariant
            i <= a.len(),
            i <= b.len(),
            lt == (|x: u8, y: u8| x < y),
            forall|j: int| 0 <= j < i ==> #[trigger] a@[j] == b@[j],
        decreases a.len() - i,
    {
        if a[i] < b[i] {
            assert(lex_splits(a@, b@, lt, i as int));
            return Placement::Less;
        }
        if b[i] < a[i] {
            assert(lex_splits(b@, a@, lt, i as int));
            return Placement::Greater;
        }
        i = i + 1;
    }
    if a.len() < b.len() {
        assert(lex_splits(a@, b@, lt, i as int));
        Placement::Less
    } else if b.len() < a.len() {
        assert(lex_splits(b@, a@, lt, i as int));
        Placement::Greater
    } else {
        assert(a@ =~= b@);
        Placement::Equal
    }
}

/// What a placement says: below, the same, or above.
pub proof fn placements_say_where(a: Key, b: Key)
    ensures
        placed(Placement::Less, a, b) <==> key_lt(a, b),
        placed(Placement::Equal, a, b) <==> a == b,
        placed(Placement::Greater, a, b) <==> key_lt(b, a),
{
}

} // verus!
