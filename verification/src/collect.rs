//! Collecting variable references.
//!
//! The collector walks the whole document, scans every string leaf for
//! `var.<name>` references, and emits one `variable` declaration block per
//! distinct name, in strictly ascending lexicographic order.

use crate::block::{is_variable_block, variable_block, DeclarationBlock};
use crate::node::{Field, Node};
use crate::order::{
    insert_sorted, lemma_insert_sorted, lemma_seq_lt_irreflexive, lemma_seq_lt_total,
    lemma_seq_lt_transitive, lemma_sorted_unique, lemma_strictly_sorted_unique, seq_lt,
    sorted_unique, strictly_sorted, str_lt,
};
use crate::scan::{scan_text, string_names, views_of};
use vstd::prelude::*;

verus! {

/// Every name referenced anywhere below `n`, in traversal order, duplicates
/// kept.
pub open spec fn node_names(n: Node) -> Seq<Seq<char>>
    decreases n,
{
    match n {
        Node::Object(fields) => fields_names(fields@),
        Node::Text(s) => string_names(s@),
        Node::Other => Seq::empty(),
    }
}

/// The names referenced below a run of object entries.
pub open spec fn fields_names(fields: Seq<Field>) -> Seq<Seq<char>>
    decreases fields,
{
    if fields.len() == 0 {
        Seq::empty()
    } else {
        fields_names(fields.drop_last()) + node_names(fields.last().value)
    }
}

/// The names referenced by the document, duplicates kept. A document whose
/// root is not an object is not traversed.
pub open spec fn collected_names(root: Node) -> Seq<Seq<char>> {
    match root {
        Node::Object(_) => node_names(root),
        _ => Seq::empty(),
    }
}

/// The distinct names referenced by the document.
pub open spec fn collected_vars(root: Node) -> Set<Seq<char>> {
    collected_names(root).to_set()
}

/// The labels the collector emits: the distinct referenced names, in strictly
/// ascending lexicographic order.
pub open spec fn var_labels(root: Node) -> Seq<Seq<char>> {
    sorted_unique(collected_names(root))
}

/// Appends every name referenced below `n` to `out`, in traversal order,
/// duplicates kept.
#[verifier::loop_isolation(false)]
fn walk(n: &Node, out: &mut Vec<String>)
    ensures
        views_of(final(out)@) == views_of(old(out)@) + node_names(*n),
    decreases *n,
{
    match n {
        Node::Object(fields) => {
            proof {
                assert(fields@.take(0) =~= Seq::<Field>::empty());
                assert(views_of(out@) =~= views_of(out@) + fields_names(fields@.take(0)));
            }
            let mut idx: usize = 0;
            while idx < fields.len()
                invariant
                    idx <= fields@.len(),
                    views_of(out@) == views_of(old(out)@) + fields_names(
                        fields@.take(idx as int),
                    ),
                decreases fields@.len() - idx,
            {
                proof {
                    assert(*fields == n->Object_0);
                    assert(decreases_to!(*n => n->Object_0));
                    assert(decreases_to!(*fields => fields@[idx as int]));
                    assert(decreases_to!(*n => fields@[idx as int].value));
                }
                walk(&fields[idx].value, out);
                proof {
                    let taken = fields@.take(idx + 1);
                    assert(taken.drop_last() =~= fields@.take(idx as int));
                    assert(taken.last() == fields@[idx as int]);
                    assert(fields_names(taken) == fields_names(fields@.take(idx as int))
                        + node_names(fields@[idx as int].value));
                    assert(views_of(out@) =~= views_of(old(out)@) + fields_names(taken));
                }
                idx += 1;
            }
            proof {
                assert(fields@.take(fields@.len() as int) =~= fields@);
            }
        },
        Node::Text(s) => {
            scan_text(s.as_str(), out);
        },
        Node::Other => {
            proof {
                assert(views_of(out@) =~= views_of(out@) + Seq::<Seq<char>>::empty());
            }
        },
    }
}

/// First position of `sorted` whose name is not below `x`.
fn find_pos(sorted: &Vec<String>, x: &String) -> (p: usize)
    ensures
        p <= sorted@.len(),
        forall|i: int| 0 <= i < p ==> seq_lt(#[trigger] views_of(sorted@)[i], x@),
        p < sorted@.len() ==> !seq_lt(views_of(sorted@)[p as int], x@),
{
    let mut p: usize = 0;
    while p < sorted.len()
        invariant
            p <= sorted@.len(),
            forall|i: int| 0 <= i < p ==> seq_lt(#[trigger] views_of(sorted@)[i], x@),
        decreases sorted@.len() - p,
    {
        if !str_lt(sorted[p].as_str(), x.as_str()) {
            return p;
        }
        p += 1;
    }
    p
}

/// Inserting into a strictly sorted sequence at the position the scan found:
/// either the name is already there and nothing changes, or it goes exactly
/// between its neighbours.
proof fn lemma_insert_sorted_at(x: Seq<char>, l: Seq<Seq<char>>, p: int)
    requires
        strictly_sorted(l),
        0 <= p <= l.len(),
        forall|i: int| 0 <= i < p ==> seq_lt(#[trigger] l[i], x),
        p < l.len() ==> !seq_lt(l[p], x),
    ensures
        p < l.len() && l[p] == x ==> insert_sorted(x, l) == l,
        !(p < l.len() && l[p] == x) ==> insert_sorted(x, l) == l.take(p) + seq![x] + l.skip(p),
    decreases l.len(),
{
    if l.len() == 0 {
        assert(insert_sorted(x, l) == seq![x]);
        assert(l.take(0) + seq![x] + l.skip(0) =~= seq![x]);
    } else if p == 0 {
        if l[0] == x {
        } else {
            lemma_seq_lt_total(x, l[0]);
            assert(seq_lt(x, l[0]));
            assert(insert_sorted(x, l) == seq![x] + l);
            assert(l.take(0) + seq![x] + l.skip(0) =~= seq![x] + l);
        }
    } else {
        assert(seq_lt(l[0], x));
        lemma_seq_lt_irreflexive(l[0]);
        assert(l[0] != x);
        if seq_lt(x, l[0]) {
            lemma_seq_lt_transitive(l[0], x, l[0]);
            assert(false);
        }
        let tail = l.drop_first();
        assert(strictly_sorted(tail)) by {
            assert(forall|i: int, j: int|
                0 <= i < j < tail.len() ==> seq_lt(#[trigger] tail[i], #[trigger] tail[j]));
        }
        assert(forall|i: int| 0 <= i < p - 1 ==> seq_lt(#[trigger] tail[i], x)) by {
            assert(forall|i: int| 0 <= i < p - 1 ==> tail[i] == l[i + 1]);
        }
        assert(p - 1 < tail.len() ==> !seq_lt(tail[p - 1], x));
        lemma_insert_sorted_at(x, tail, p - 1);
        assert(insert_sorted(x, l) == seq![l[0]] + insert_sorted(x, tail));
        if p < l.len() && l[p] == x {
            assert(tail[p - 1] == x);
            assert(seq![l[0]] + tail =~= l);
        } else {
            assert(insert_sorted(x, tail) == tail.take(p - 1) + seq![x] + tail.skip(p - 1));
            assert(seq![l[0]] + (tail.take(p - 1) + seq![x] + tail.skip(p - 1)) =~= l.take(p)
                + seq![x] + l.skip(p));
        }
    }
}

/// Inserts the name `x` into the sorted run of names, unless it is already
/// there.
fn insert_name(sorted: &mut Vec<String>, x: String)
    requires
        strictly_sorted(views_of(old(sorted)@)),
    ensures
        views_of(final(sorted)@) == insert_sorted(x@, views_of(old(sorted)@)),
        strictly_sorted(views_of(final(sorted)@)),
{
    proof {
        lemma_insert_sorted(x@, views_of(sorted@));
    }
    let p = find_pos(sorted, &x);
    proof {
        lemma_insert_sorted_at(x@, views_of(sorted@), p as int);
    }
    if p < sorted.len() && sorted[p] == x {
        return ;
    }
    let ghost before = views_of(sorted@);
    sorted.insert(p, x);
    proof {
        assert(views_of(sorted@) =~= before.take(p as int) + seq![x@] + before.skip(p as int));
    }
}

/// Walks the document and returns one `variable` declaration block per
/// distinct referenced name, in strictly ascending lexicographic order of the
/// names. A document whose root is not an object yields nothing.
pub fn collect_variables(root: &Node) -> (r: Vec<DeclarationBlock>)
    ensures
        r@.len() == var_labels(*root).len(),
        forall|i: int|
            0 <= i < r@.len() ==> is_variable_block(#[trigger] r@[i], var_labels(*root)[i]),
        strictly_sorted(var_labels(*root)),
        var_labels(*root).to_set() == collected_vars(*root),
{
    proof {
        lemma_sorted_unique(collected_names(*root));
    }
    let mut names: Vec<String> = Vec::new();
    if let Node::Object(_) = root {
        walk(root, &mut names);
    }
    proof {
        assert(views_of(names@) =~= collected_names(*root));
    }
    let all = names;
    let mut sorted: Vec<String> = Vec::new();
    let mut k: usize = 0;
    proof {
        assert(views_of(all@).take(0) =~= Seq::<Seq<char>>::empty());
        assert(views_of(sorted@) =~= Seq::<Seq<char>>::empty());
    }
    while k < all.len()
        invariant
            k <= all@.len(),
            views_of(all@) == collected_names(*root),
            views_of(sorted@) == sorted_unique(views_of(all@).take(k as int)),
            strictly_sorted(views_of(sorted@)),
        decreases all@.len() - k,
    {
        let x = all[k].clone();
        proof {
            let taken = views_of(all@).take(k + 1);
            assert(taken.drop_last() =~= views_of(all@).take(k as int));
            assert(taken.last() == views_of(all@)[k as int]);
            assert(x@ == views_of(all@)[k as int]);
        }
        insert_name(&mut sorted, x);
        k += 1;
    }
    proof {
        assert(views_of(all@).take(all@.len() as int) =~= views_of(all@));
        assert(views_of(sorted@) == var_labels(*root));
    }
    let mut r: Vec<DeclarationBlock> = Vec::new();
    let mut i: usize = 0;
    while i < sorted.len()
        invariant
            i <= sorted@.len(),
            views_of(sorted@) == var_labels(*root),
            r@.len() == i,
            forall|j: int|
                0 <= j < i ==> is_variable_block(#[trigger] r@[j], var_labels(*root)[j]),
        decreases sorted@.len() - i,
    {
        r.push(variable_block(sorted[i].clone()));
        i += 1;
    }
    r
}

/// No string leaf stands anywhere below `n`.
pub open spec fn text_free(n: Node) -> bool
    decreases n,
{
    match n {
        Node::Object(fields) => fields_text_free(fields@),
        Node::Text(_) => false,
        Node::Other => true,
    }
}

/// No string leaf stands below any of these object entries.
pub open spec fn fields_text_free(fields: Seq<Field>) -> bool
    decreases fields,
{
    fields.len() == 0 || (fields_text_free(fields.drop_last()) && text_free(
        fields.last().value,
    ))
}

/// Non-string leaves are inert: a document without string leaves references
/// no variable, whatever its numeric, boolean or other leaves hold.
pub proof fn lemma_text_free_collects_nothing(n: Node)
    requires
        text_free(n),
    ensures
        node_names(n) == Seq::<Seq<char>>::empty(),
        collected_vars(n) == Set::<Seq<char>>::empty(),
    decreases n,
{
    match n {
        Node::Object(fields) => {
            lemma_fields_text_free(fields@);
        },
        _ => {},
    }
    assert(collected_names(n) =~= Seq::<Seq<char>>::empty());
    assert(collected_vars(n) =~= Set::<Seq<char>>::empty());
}

proof fn lemma_fields_text_free(fields: Seq<Field>)
    requires
        fields_text_free(fields),
    ensures
        fields_names(fields) == Seq::<Seq<char>>::empty(),
    decreases fields,
{
    if fields.len() == 0 {
        assert(fields_names(fields) =~= Seq::<Seq<char>>::empty());
    } else {
        lemma_fields_text_free(fields.drop_last());
        lemma_text_free_collects_nothing(fields.last().value);
        assert(fields_names(fields) =~= Seq::<Seq<char>>::empty());
    }
}

/// Determinism of the collector: the set of referenced names alone fixes the
/// emitted labels and their order, so any two runs over the same document
/// agree.
pub proof fn lemma_collect_deterministic(root: Node, l1: Seq<Seq<char>>, l2: Seq<Seq<char>>)
    requires
        strictly_sorted(l1),
        l1.to_set() == collected_vars(root),
        strictly_sorted(l2),
        l2.to_set() == collected_vars(root),
    ensures
        l1 == l2,
{
    lemma_strictly_sorted_unique(l1, l2);
}

} // verus!
