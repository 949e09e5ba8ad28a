//! Lists of records in the order of their names.

use crate::dependency::DependencyView;
use crate::text::{
    lemma_lex_le_antisymmetric, lemma_lex_le_reflexive, lemma_lex_le_total,
    lemma_lex_le_transitive, lex_le,
};
use vstd::prelude::*;

verus! {

/// The test "has this name".
pub open spec fn named(name: Seq<char>) -> spec_fn(DependencyView) -> bool {
    |d: DependencyView| d.name == name
}

/// No record comes before one with a smaller name.
pub open spec fn names_ascending(s: Seq<DependencyView>) -> bool {
    forall|i: int, j: int|
        #![trigger s[i], s[j]]
        0 <= i < j < s.len() ==> lex_le(s[i].name, s[j].name)
}

/// `sorted` holds the records of `source` by ascending name, those of one
/// name in the order they have in `source`.
pub open spec fn stably_sorted(sorted: Seq<DependencyView>, source: Seq<DependencyView>) -> bool {
    &&& sorted.len() == source.len()
    &&& names_ascending(sorted)
    &&& forall|n: Seq<char>| #[trigger] sorted.filter(named(n)) == source.filter(named(n))
}

/// Putting a record behind the last one whose name is at or before its own
/// keeps a sorted list sorted, and the records of each name in their order.
pub proof fn lemma_insert_keeps_order(
    sorted: Seq<DependencyView>,
    source: Seq<DependencyView>,
    d: DependencyView,
    p: int,
)
    requires
        stably_sorted(sorted, source),
        0 <= p <= sorted.len(),
        forall|k: int| p <= k < sorted.len() ==> !lex_le((#[trigger] sorted[k]).name, d.name),
        p > 0 ==> lex_le(sorted[p - 1].name, d.name),
    ensures
        stably_sorted(sorted.insert(p, d), source.push(d)),
{
    let out = sorted.insert(p, d);
    assert forall|i: int, j: int|
        #![trigger out[i], out[j]]
        0 <= i < j < out.len() implies lex_le(out[i].name, out[j].name) by {
        if j < p {
            assert(out[i] == sorted[i] && out[j] == sorted[j]);
        } else if j == p {
            assert(out[i] == sorted[i]);
            if i < p - 1 {
                assert(lex_le(sorted[i].name, sorted[p - 1].name));
                lemma_lex_le_transitive(sorted[i].name, sorted[p - 1].name, d.name);
            }
        } else if i < p {
            assert(out[i] == sorted[i] && out[j] == sorted[j - 1]);
        } else if i == p {
            assert(out[j] == sorted[j - 1]);
            lemma_lex_le_total(sorted[j - 1].name, d.name);
        } else {
            assert(out[i] == sorted[i - 1] && out[j] == sorted[j - 1]);
        }
    }
    let front = sorted.take(p);
    let back = sorted.skip(p);
    assert(sorted =~= front + back);
    assert(out =~= front.push(d) + back);
    assert forall|n: Seq<char>| #[trigger]
        out.filter(named(n)) == source.push(d).filter(named(n)) by {
        let keep = named(n);
        Seq::filter_distributes_over_add(front, back, keep);
        Seq::filter_distributes_over_add(front.push(d), back, keep);
        front.lemma_filter_push(d, keep);
        source.lemma_filter_push(d, keep);
        assert(sorted.filter(keep) == source.filter(keep));
        if n == d.name {
            lemma_lex_le_reflexive(d.name);
            assert(back.all(|x: DependencyView| !keep(x))) by {
                assert forall|k: int| 0 <= k < back.len() implies !keep(#[trigger] back[k]) by {
                    assert(back[k] == sorted[p + k]);
                }
            }
            back.lemma_all_neg_filter_empty(keep);
            assert(back.filter(keep) =~= Seq::empty());
            assert(front.filter(keep) + back.filter(keep) =~= front.filter(keep));
            assert(front.filter(keep).push(d) + back.filter(keep) =~= front.filter(keep).push(d));
        }
    }
}

/// What passes a test occurs as often as in the list it came from; what
/// does not pass does not occur.
pub proof fn lemma_filter_count<A>(s: Seq<A>, keep: spec_fn(A) -> bool, x: A)
    ensures
        s.filter(keep).to_multiset().count(x) == if keep(x) {
            s.to_multiset().count(x)
        } else {
            0
        },
    decreases s.len(),
{
    reveal(Seq::filter);
    if s.len() == 0 {
        s.to_multiset_ensures();
        assert(s.to_multiset().len() == 0);
    } else {
        let front = s.drop_last();
        let last = s.last();
        lemma_filter_count(front, keep, x);
        assert(s =~= front.push(last));
        vstd::seq_lib::to_multiset_build(front, last);
        if keep(last) {
            vstd::seq_lib::to_multiset_build(front.filter(keep), last);
        }
    }
}

/// A sorted list holds exactly the records of its source, each as often.
pub proof fn lemma_stably_sorted_permutes(sorted: Seq<DependencyView>, source: Seq<DependencyView>)
    requires
        stably_sorted(sorted, source),
    ensures
        sorted.to_multiset() == source.to_multiset(),
{
    assert forall|d: DependencyView|
        sorted.to_multiset().count(d) == source.to_multiset().count(d) by {
        let keep = named(d.name);
        assert(sorted.filter(keep) == source.filter(keep));
        lemma_filter_count(sorted, keep, d);
        lemma_filter_count(source, keep, d);
    }
    assert(sorted.to_multiset() =~= source.to_multiset());
}

/// Some record of the list has the name of each record that passes the
/// test for that name.
proof fn lemma_named_occurs(s: Seq<DependencyView>, n: Seq<char>)
    requires
        s.filter(named(n)).len() > 0,
    ensures
        exists|k: int| 0 <= k < s.len() && (#[trigger] s[k]).name == n,
{
    let kept = s.filter(named(n));
    let d = kept[0];
    s.lemma_filter_pred(named(n), 0);
    assert(kept.contains(d));
    s.lemma_filter_contains_rev(named(n), d);
    let k = choose|k: int| 0 <= k < s.len() && s[k] == d;
    assert(s[k].name == n);
}

/// The records of each name, once the last record of the list is taken away.
proof fn lemma_filter_drop_last(s: Seq<DependencyView>, n: Seq<char>)
    requires
        s.len() > 0,
    ensures
        s.filter(named(n)) == if s.last().name == n {
            s.drop_last().filter(named(n)).push(s.last())
        } else {
            s.drop_last().filter(named(n))
        },
{
    reveal(Seq::filter);
}

/// There is one way only to sort a list: two sorted lists of one source
/// are the same list.
pub proof fn lemma_stably_sorted_unique(
    a: Seq<DependencyView>,
    b: Seq<DependencyView>,
    source: Seq<DependencyView>,
)
    requires
        stably_sorted(a, source),
        stably_sorted(b, source),
    ensures
        a == b,
    decreases a.len(),
{
    if a.len() == 0 {
        assert(a =~= b);
    } else {
        let n = a.last().name;
        let m = b.last().name;
        assert(a.filter(named(n)) == source.filter(named(n)));
        assert(b.filter(named(n)) == source.filter(named(n)));
        assert(a.filter(named(m)) == source.filter(named(m)));
        assert(b.filter(named(m)) == source.filter(named(m)));
        lemma_filter_drop_last(a, n);
        lemma_filter_drop_last(b, m);
        lemma_named_occurs(b, n);
        lemma_named_occurs(a, m);
        let kb = choose|k: int| 0 <= k < b.len() && (#[trigger] b[k]).name == n;
        let ka = choose|k: int| 0 <= k < a.len() && (#[trigger] a[k]).name == m;
        if kb < b.len() - 1 {
            assert(lex_le(b[kb].name, b[b.len() - 1].name));
        } else {
            lemma_lex_le_reflexive(n);
        }
        if ka < a.len() - 1 {
            assert(lex_le(a[ka].name, a[a.len() - 1].name));
        } else {
            lemma_lex_le_reflexive(m);
        }
        lemma_lex_le_antisymmetric(n, m);
        lemma_filter_drop_last(b, n);
        assert(a.last() == a.filter(named(n)).last());
        assert(b.last() == b.filter(named(n)).last());
        let a0 = a.drop_last();
        let b0 = b.drop_last();
        assert(names_ascending(a0)) by {
            assert forall|i: int, j: int|
                #![trigger a0[i], a0[j]]
                0 <= i < j < a0.len() implies lex_le(a0[i].name, a0[j].name) by {
                assert(a0[i] == a[i] && a0[j] == a[j]);
            }
        }
        assert(names_ascending(b0)) by {
            assert forall|i: int, j: int|
                #![trigger b0[i], b0[j]]
                0 <= i < j < b0.len() implies lex_le(b0[i].name, b0[j].name) by {
                assert(b0[i] == b[i] && b0[j] == b[j]);
            }
        }
        assert forall|x: Seq<char>| #[trigger] a0.filter(named(x)) == b0.filter(named(x)) by {
            lemma_filter_drop_last(a, x);
            lemma_filter_drop_last(b, x);
            assert(a.filter(named(x)) == source.filter(named(x)));
            assert(b.filter(named(x)) == source.filter(named(x)));
            if x == n {
                assert(a0.filter(named(x)) =~= a.filter(named(x)).drop_last());
                assert(b0.filter(named(x)) =~= b.filter(named(x)).drop_last());
            }
        }
        lemma_stably_sorted_unique(a0, b0, a0);
        assert(a =~= a0.push(a.last()));
        assert(b =~= b0.push(b.last()));
    }
}

} // verus!
