//! Lexicographic ordering of names.
//!
//! Collected variable names are emitted in strictly ascending lexicographic
//! order of their character sequences (compared by code point, case-sensitive,
//! with no normalization). This module defines that order, proves the facts
//! the sorting proofs need, and implements the executable comparison.

use vstd::prelude::*;

verus! {

/// Strict lexicographic order on character sequences, by code point.
pub open spec fn seq_lt(a: Seq<char>, b: Seq<char>) -> bool
    decreases a.len(),
{
    if b.len() == 0 {
        false
    } else if a.len() == 0 {
        true
    } else if a[0] != b[0] {
        a[0] < b[0]
    } else {
        seq_lt(a.drop_first(), b.drop_first())
    }
}

/// The order is irreflexive.
pub proof fn lemma_seq_lt_irreflexive(a: Seq<char>)
    ensures
        !seq_lt(a, a),
    decreases a.len(),
{
    if a.len() > 0 {
        lemma_seq_lt_irreflexive(a.drop_first());
    }
}

/// Any two distinct sequences are ordered one way or the other.
pub proof fn lemma_seq_lt_total(a: Seq<char>, b: Seq<char>)
    ensures
        a == b || seq_lt(a, b) || seq_lt(b, a),
    decreases a.len(),
{
    if a.len() == 0 && b.len() == 0 {
        assert(a =~= b);
    } else if a.len() > 0 && b.len() > 0 && a[0] == b[0] {
        lemma_seq_lt_total(a.drop_first(), b.drop_first());
        if a.drop_first() == b.drop_first() {
            assert(a.drop_first().len() == a.len() - 1);
            assert(b.drop_first().len() == b.len() - 1);
            assert forall|i: int| 0 <= i < a.len() implies a[i] == b[i] by {
                if i > 0 {
                    assert(a.drop_first()[i - 1] == a[i]);
                    assert(b.drop_first()[i - 1] == b[i]);
                }
            }
            assert(a =~= b);
        }
    } else if a.len() == 0 {
        assert(seq_lt(a, b));
    } else if b.len() == 0 {
        assert(seq_lt(b, a));
    } else {
        assert(a[0] != b[0]);
        assert((a[0] as int) != (b[0] as int));
        assert(seq_lt(a, b) || seq_lt(b, a));
    }
}

/// The order is transitive.
pub proof fn lemma_seq_lt_transitive(a: Seq<char>, b: Seq<char>, c: Seq<char>)
    requires
        seq_lt(a, b),
        seq_lt(b, c),
    ensures
        seq_lt(a, c),
    decreases a.len(),
{
    if a.len() > 0 && b.len() > 0 && c.len() > 0 && a[0] == b[0] && b[0] == c[0] {
        lemma_seq_lt_transitive(a.drop_first(), b.drop_first(), c.drop_first());
    }
}

/// A sequence of names in strictly ascending order, hence without duplicates.
pub open spec fn strictly_sorted(l: Seq<Seq<char>>) -> bool {
    forall|i: int, j: int| 0 <= i < j < l.len() ==> seq_lt(l[i], l[j])
}

/// Inserts `x` into the sorted sequence `l`, keeping it sorted; inserting a
/// name already present leaves the sequence unchanged.
pub open spec fn insert_sorted(x: Seq<char>, l: Seq<Seq<char>>) -> Seq<Seq<char>>
    decreases l.len(),
{
    if l.len() == 0 {
        seq![x]
    } else if x == l[0] {
        l
    } else if seq_lt(x, l[0]) {
        seq![x] + l
    } else {
        seq![l[0]] + insert_sorted(x, l.drop_first())
    }
}

/// The unique names of `names`, in strictly ascending order.
pub open spec fn sorted_unique(names: Seq<Seq<char>>) -> Seq<Seq<char>>
    decreases names.len(),
{
    if names.len() == 0 {
        Seq::empty()
    } else {
        insert_sorted(names.last(), sorted_unique(names.drop_last()))
    }
}

/// A strictly sorted sequence holds no name twice.
pub proof fn lemma_strictly_sorted_distinct(l: Seq<Seq<char>>)
    requires
        strictly_sorted(l),
    ensures
        forall|i: int, j: int| 0 <= i < j < l.len() ==> l[i] != l[j],
{
    assert forall|i: int, j: int| 0 <= i < j < l.len() implies l[i] != l[j] by {
        lemma_seq_lt_irreflexive(l[i]);
    }
}

/// The names of a sequence extended at the front by one name.
proof fn lemma_to_set_cons(x: Seq<char>, l: Seq<Seq<char>>)
    ensures
        (seq![x] + l).to_set() == l.to_set().insert(x),
{
    let r = seq![x] + l;
    assert forall|y: Seq<char>| r.to_set().contains(y) implies l.to_set().insert(x).contains(
        y,
    ) by {
        let i = choose|i: int| 0 <= i < r.len() && r[i] == y;
        if i > 0 {
            assert(l[i - 1] == y);
        }
    }
    assert forall|y: Seq<char>| l.to_set().insert(x).contains(y) implies r.to_set().contains(
        y,
    ) by {
        if y == x {
            assert(r[0] == y);
        } else {
            let i = choose|i: int| 0 <= i < l.len() && l[i] == y;
            assert(r[i + 1] == y);
        }
    }
    assert(r.to_set() =~= l.to_set().insert(x));
}

/// Insertion keeps the order strict and adds exactly the inserted name.
pub proof fn lemma_insert_sorted(x: Seq<char>, l: Seq<Seq<char>>)
    requires
        strictly_sorted(l),
    ensures
        strictly_sorted(insert_sorted(x, l)),
        insert_sorted(x, l).to_set() == l.to_set().insert(x),
    decreases l.len(),
{
    let r = insert_sorted(x, l);
    if l.len() == 0 {
        assert(r == seq![x]);
        assert(r.to_set() =~= l.to_set().insert(x)) by {
            assert(r[0] == x);
            assert(r.to_set().contains(x));
        }
    } else if x == l[0] {
        assert(l.to_set().contains(l[0]));
        assert(r.to_set() =~= l.to_set().insert(x));
    } else if seq_lt(x, l[0]) {
        assert forall|i: int, j: int| 0 <= i < j < r.len() implies seq_lt(r[i], r[j]) by {
            if i == 0 {
                if j > 1 {
                    lemma_seq_lt_transitive(x, l[0], l[j - 1]);
                }
            }
        }
        lemma_to_set_cons(x, l);
    } else {
        let tail = l.drop_first();
        assert(strictly_sorted(tail)) by {
            assert(forall|i: int, j: int|
                0 <= i < j < tail.len() ==> seq_lt(#[trigger] tail[i], #[trigger] tail[j]));
        }
        lemma_insert_sorted(x, tail);
        let rt = insert_sorted(x, tail);
        assert(r == seq![l[0]] + rt);
        lemma_seq_lt_total(x, l[0]);
        assert(seq_lt(l[0], x));
        assert forall|i: int, j: int| 0 <= i < j < r.len() implies seq_lt(r[i], r[j]) by {
            if i == 0 {
                assert(r[j] == rt[j - 1]);
                assert(rt.to_set().contains(rt[j - 1]));
                if rt[j - 1] == x {
                } else {
                    assert(tail.to_set().contains(rt[j - 1]));
                    let k = choose|k: int| 0 <= k < tail.len() && tail[k] == rt[j - 1];
                    assert(seq_lt(l[0], tail[k]));
                }
            } else {
                assert(r[i] == rt[i - 1] && r[j] == rt[j - 1]);
            }
        }
        assert(r.to_set() =~= l.to_set().insert(x)) by {
            assert(rt.to_set() == tail.to_set().insert(x));
            assert(l =~= seq![l[0]] + tail);
            lemma_to_set_cons(l[0], tail);
            lemma_to_set_cons(l[0], rt);
            assert(r.to_set() == rt.to_set().insert(l[0]));
        }
    }
}

/// The dedup-and-sort of any name sequence is strictly sorted and holds
/// exactly the names of the sequence.
pub proof fn lemma_sorted_unique(names: Seq<Seq<char>>)
    ensures
        strictly_sorted(sorted_unique(names)),
        sorted_unique(names).to_set() == names.to_set(),
    decreases names.len(),
{
    if names.len() == 0 {
        assert(sorted_unique(names).to_set() =~= names.to_set());
    } else {
        lemma_sorted_unique(names.drop_last());
        lemma_insert_sorted(names.last(), sorted_unique(names.drop_last()));
        assert(names =~= names.drop_last().push(names.last()));
        assert(names.drop_last().push(names.last()).to_set() =~= names.drop_last()
            .to_set()
            .insert(names.last()));
    }
}

/// Two strictly sorted sequences with the same names are the same sequence:
/// the emitted order is determined by the set of names alone.
pub proof fn lemma_strictly_sorted_unique(a: Seq<Seq<char>>, b: Seq<Seq<char>>)
    requires
        strictly_sorted(a),
        strictly_sorted(b),
        a.to_set() == b.to_set(),
    ensures
        a == b,
    decreases a.len(),
{
    if a.len() == 0 {
        if b.len() > 0 {
            assert(b.to_set().contains(b[0]));
            assert(a.to_set().contains(b[0]));
        }
        assert(a =~= b);
    } else {
        assert(a.to_set().contains(a[0]));
        assert(b.to_set().contains(a[0]));
        assert(b.len() > 0);
        // The head of a strictly sorted sequence is its unique minimum, so the
        // heads agree.
        assert(a[0] == b[0]) by {
            let i = choose|i: int| 0 <= i < b.len() && b[i] == a[0];
            if i > 0 {
                assert(seq_lt(b[0], a[0]));
                assert(a.to_set().contains(b[0]));
                let k = choose|k: int| 0 <= k < a.len() && a[k] == b[0];
                if k > 0 {
                    assert(seq_lt(a[0], a[k]));
                    lemma_seq_lt_transitive(a[0], a[k], a[0]);
                    lemma_seq_lt_irreflexive(a[0]);
                } else {
                    lemma_seq_lt_irreflexive(a[0]);
                }
            }
        }
        let at = a.drop_first();
        let bt = b.drop_first();
        assert(strictly_sorted(at)) by {
            assert(forall|i: int, j: int|
                0 <= i < j < at.len() ==> seq_lt(#[trigger] at[i], #[trigger] at[j]));
        }
        assert(strictly_sorted(bt)) by {
            assert(forall|i: int, j: int|
                0 <= i < j < bt.len() ==> seq_lt(#[trigger] bt[i], #[trigger] bt[j]));
        }
        assert(at.to_set() =~= bt.to_set()) by {
            assert forall|x: Seq<char>| at.to_set().contains(x) implies bt.to_set().contains(
                x,
            ) by {
                let i = choose|i: int| 0 <= i < at.len() && at[i] == x;
                assert(a[i + 1] == x);
                assert(seq_lt(a[0], x));
                assert(a.to_set().contains(x));
                assert(b.to_set().contains(x));
                let j = choose|j: int| 0 <= j < b.len() && b[j] == x;
                lemma_seq_lt_irreflexive(x);
                assert(j > 0);
                assert(bt[j - 1] == x);
            }
            assert forall|x: Seq<char>| bt.to_set().contains(x) implies at.to_set().contains(
                x,
            ) by {
                let i = choose|i: int| 0 <= i < bt.len() && bt[i] == x;
                assert(b[i + 1] == x);
                assert(seq_lt(b[0], x));
                assert(b.to_set().contains(x));
                assert(a.to_set().contains(x));
                let j = choose|j: int| 0 <= j < a.len() && a[j] == x;
                lemma_seq_lt_irreflexive(x);
                assert(j > 0);
                assert(at[j - 1] == x);
            }
        }
        lemma_strictly_sorted_unique(at, bt);
        assert(a =~= b) by {
            assert(forall|i: int| 1 <= i < a.len() ==> a[i] == at[i - 1] && b[i] == bt[i - 1]);
        }
    }
}

/// Executable equality of two strings, as equality of their characters.
pub fn str_eq(a: &str, b: &str) -> (r: bool)
    ensures
        r == (a@ == b@),
{
    let la = a.unicode_len();
    let lb = b.unicode_len();
    if la != lb {
        return false;
    }
    let mut i: usize = 0;
    while i < la
        invariant
            la == a@.len(),
            lb == b@.len(),
            la == lb,
            i <= la,
            forall|k: int| 0 <= k < i ==> a@[k] == b@[k],
        decreases la - i,
    {
        if a.get_char(i) != b.get_char(i) {
            return false;
        }
        i += 1;
    }
    proof {
        assert(a@ =~= b@);
    }
    true
}

/// Executable lexicographic comparison of two strings.
pub fn str_lt(a: &str, b: &str) -> (r: bool)
    ensures
        r == seq_lt(a@, b@),
{
    let la = a.unicode_len();
    let lb = b.unicode_len();
    let mut i: usize = 0;
    proof {
        assert(a@.skip(0) =~= a@);
        assert(b@.skip(0) =~= b@);
    }
    loop
        invariant
            la == a@.len(),
            lb == b@.len(),
            i <= la,
            i <= lb,
            seq_lt(a@, b@) == seq_lt(a@.skip(i as int), b@.skip(i as int)),
        decreases la - i,
    {
        if i >= la || i >= lb {
            proof {
                if i >= la {
                    assert(a@.skip(i as int) =~= Seq::<char>::empty());
                } else {
                    assert(b@.skip(i as int) =~= Seq::<char>::empty());
                }
            }
            return la < lb;
        }
        let ca = a.get_char(i);
        let cb = b.get_char(i);
        if ca != cb {
            proof {
                let sa = a@.skip(i as int);
                let sb = b@.skip(i as int);
                assert(sa[0] == a@[i as int] && sb[0] == b@[i as int]);
            }
            return ca < cb;
        }
        proof {
            let sa = a@.skip(i as int);
            let sb = b@.skip(i as int);
            assert(sa[0] == a@[i as int] && sb[0] == b@[i as int]);
            assert(sa.drop_first() =~= a@.skip(i + 1));
            assert(sb.drop_first() =~= b@.skip(i + 1));
        }
        i += 1;
    }
}

} // verus!
