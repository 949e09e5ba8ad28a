//! Feature lists: the sorted, duplicate-free list of the features a package
//! declares, and its split into those an edge asks for and the rest.

use crate::text::{
    lemma_lex_le_antisymmetric, lemma_lex_le_reflexive, lemma_lex_le_total,
    lemma_lex_le_transitive, lex_le, str_eq, str_le,
};
use vstd::prelude::*;

verus! {

/// The texts that a list of strings holds, in order.
pub open spec fn texts(v: Seq<String>) -> Seq<Seq<char>> {
    v.map_values(|s: String| s@)
}

/// Every entry comes strictly before each later one.
pub open spec fn strictly_ascending(s: Seq<Seq<char>>) -> bool {
    forall|i: int, j: int|
        #![trigger s[i], s[j]]
        0 <= i < j < s.len() ==> s[i] != s[j] && lex_le(s[i], s[j])
}

/// `s` with `x` put behind the last entry that is at or before it; `s`
/// itself where that entry is `x`.
pub open spec fn insert_sorted(s: Seq<Seq<char>>, x: Seq<char>) -> Seq<Seq<char>>
    decreases s.len(),
{
    if s.len() == 0 {
        seq![x]
    } else if s.last() == x {
        s
    } else if lex_le(s.last(), x) {
        s.push(x)
    } else {
        insert_sorted(s.drop_last(), x).push(s.last())
    }
}

/// The entries of `s` in ascending order, each once.
pub open spec fn sorted_set(s: Seq<Seq<char>>) -> Seq<Seq<char>>
    decreases s.len(),
{
    if s.len() == 0 {
        Seq::empty()
    } else {
        insert_sorted(sorted_set(s.drop_last()), s.last())
    }
}

/// The test "is among `requested`".
pub open spec fn among(requested: Seq<Seq<char>>) -> spec_fn(Seq<char>) -> bool {
    |f: Seq<char>| requested.contains(f)
}

/// The test "is not among `requested`".
pub open spec fn not_among(requested: Seq<Seq<char>>) -> spec_fn(Seq<char>) -> bool {
    |f: Seq<char>| !requested.contains(f)
}

/// Where `x` belongs in `s`, given the place `p` behind which everything is
/// after `x` and before which the nearest entry is not.
pub proof fn lemma_insert_sorted_at(s: Seq<Seq<char>>, x: Seq<char>, p: int)
    requires
        0 <= p <= s.len(),
        forall|k: int| p <= k < s.len() ==> !lex_le(s[k], x),
        p > 0 ==> lex_le(s[p - 1], x),
    ensures
        insert_sorted(s, x) == if p > 0 && s[p - 1] == x {
            s
        } else {
            s.insert(p, x)
        },
    decreases s.len() - p,
{
    if s.len() == 0 {
        assert(seq![x] =~= s.insert(0, x));
    } else if p == s.len() {
        if s.last() != x {
            assert(s.push(x) =~= s.insert(p, x));
        }
    } else {
        lemma_lex_le_reflexive(x);
        let front = s.drop_last();
        lemma_insert_sorted_at(front, x, p);
        if p > 0 && s[p - 1] == x {
            assert(front.push(s.last()) =~= s);
        } else {
            assert(front.insert(p, x).push(s.last()) =~= s.insert(p, x));
        }
    }
}

/// Inserting into a strictly ascending list keeps it strictly ascending and
/// adds exactly the inserted entry.
pub proof fn lemma_insert_sorted_ascending(s: Seq<Seq<char>>, x: Seq<char>)
    requires
        strictly_ascending(s),
    ensures
        strictly_ascending(insert_sorted(s, x)),
        forall|f: Seq<char>| #[trigger]
            insert_sorted(s, x).contains(f) <==> (s.contains(f) || f == x),
    decreases s.len(),
{
    let out = insert_sorted(s, x);
    if s.len() == 0 {
        assert(out[0] == x);
    } else if s.last() == x {
        assert(s[s.len() - 1] == x);
    } else if lex_le(s.last(), x) {
        assert forall|i: int, j: int|
            #![trigger out[i], out[j]]
            0 <= i < j < out.len() implies out[i] != out[j] && lex_le(out[i], out[j]) by {
            if j == s.len() {
                if i < s.len() - 1 {
                    lemma_lex_le_transitive(s[i], s.last(), x);
                    if s[i] == x {
                        lemma_lex_le_antisymmetric(s.last(), s[i]);
                    }
                }
            }
        }
        assert forall|f: Seq<char>| out.contains(f) <==> (s.contains(f) || f == x) by {
            if out.contains(f) {
                let k = choose|k: int| 0 <= k < out.len() && out[k] == f;
                if k < s.len() {
                    assert(s[k] == f);
                }
            }
            if s.contains(f) {
                let k = choose|k: int| 0 <= k < s.len() && s[k] == f;
                assert(out[k] == f);
            }
            if f == x {
                assert(out[s.len() as int] == x);
            }
        }
    } else {
        let front = s.drop_last();
        let last = s.last();
        assert(strictly_ascending(front)) by {
            assert forall|i: int, j: int| 0 <= i < j < front.len() implies front[i] != front[j]
                && lex_le(front[i], front[j]) by {
                assert(front[i] == s[i] && front[j] == s[j]);
            }
        }
        lemma_insert_sorted_ascending(front, x);
        let mid = insert_sorted(front, x);
        lemma_lex_le_total(last, x);
        assert forall|i: int, j: int|
            #![trigger out[i], out[j]]
            0 <= i < j < out.len() implies out[i] != out[j] && lex_le(out[i], out[j]) by {
            if j == mid.len() {
                assert(mid.contains(mid[i]));
                if front.contains(mid[i]) {
                    let k = choose|k: int| 0 <= k < front.len() && front[k] == mid[i];
                    assert(s[k] == mid[i]);
                }
            } else {
                assert(out[i] == mid[i] && out[j] == mid[j]);
            }
        }
        assert forall|f: Seq<char>| out.contains(f) <==> (s.contains(f) || f == x) by {
            if out.contains(f) {
                let k = choose|k: int| 0 <= k < out.len() && out[k] == f;
                if k < mid.len() {
                    assert(mid.contains(mid[k]));
                    if front.contains(f) {
                        let m = choose|m: int| 0 <= m < front.len() && front[m] == f;
                        assert(s[m] == f);
                    }
                } else {
                    assert(s[s.len() - 1] == f);
                }
            }
            if s.contains(f) {
                let k = choose|k: int| 0 <= k < s.len() && s[k] == f;
                if k < front.len() {
                    assert(front[k] == f);
                    assert(mid.contains(f));
                    let m = choose|m: int| 0 <= m < mid.len() && mid[m] == f;
                    assert(out[m] == f);
                } else {
                    assert(out[mid.len() as int] == f);
                }
            }
            if f == x {
                assert(mid.contains(x));
                let m = choose|m: int| 0 <= m < mid.len() && mid[m] == x;
                assert(out[m] == x);
            }
        }
    }
}

/// The sorted list is strictly ascending and holds exactly the entries of
/// the list it was made from.
pub proof fn lemma_sorted_set(s: Seq<Seq<char>>)
    ensures
        strictly_ascending(sorted_set(s)),
        forall|f: Seq<char>| #[trigger] sorted_set(s).contains(f) <==> s.contains(f),
    decreases s.len(),
{
    if s.len() > 0 {
        let front = s.drop_last();
        lemma_sorted_set(front);
        lemma_insert_sorted_ascending(sorted_set(front), s.last());
        assert forall|f: Seq<char>| sorted_set(s).contains(f) <==> s.contains(f) by {
            if s.contains(f) {
                let k = choose|k: int| 0 <= k < s.len() && s[k] == f;
                if k < front.len() {
                    assert(front[k] == f);
                }
            }
            if front.contains(f) {
                let k = choose|k: int| 0 <= k < front.len() && front[k] == f;
                assert(s[k] == f);
            }
            if f == s.last() {
                assert(s[s.len() - 1] == f);
            }
        }
    }
}

/// The entries of `names` in ascending order, each once.
pub fn sorted_features(names: &Vec<String>) -> (r: Vec<String>)
    ensures
        texts(r@) == sorted_set(texts(names@)),
        strictly_ascending(texts(r@)),
        forall|f: Seq<char>| #[trigger] texts(r@).contains(f) <==> texts(names@).contains(f),
{
    let mut out: Vec<String> = Vec::new();
    let mut i: usize = 0;
    proof {
        assert(texts(names@).take(0) =~= Seq::empty());
        assert(texts(out@) =~= Seq::empty());
    }
    while i < names.len()
        invariant
            i <= names.len(),
            texts(out@) == sorted_set(texts(names@).take(i as int)),
            out.len() <= i,
        decreases names.len() - i,
    {
        let x: &String = &names[i];
        let mut p: usize = out.len();
        while p > 0 && !str_le(out[p - 1].as_str(), x.as_str())
            invariant
                p <= out.len(),
                forall|k: int| p <= k < out.len() ==> !lex_le(#[trigger] texts(out@)[k], x@),
            decreases p,
        {
            p -= 1;
        }
        let ghost before = texts(out@);
        proof {
            lemma_insert_sorted_at(before, x@, p as int);
            assert(texts(names@).take(i + 1).drop_last() =~= texts(names@).take(i as int));
            assert(texts(names@).take(i + 1).last() == x@);
        }
        if !(p > 0 && str_eq(out[p - 1].as_str(), x.as_str())) {
            out.insert(p, x.clone());
            proof {
                assert(texts(out@) =~= before.insert(p as int, x@));
            }
        }
        i += 1;
    }
    proof {
        assert(texts(names@).take(i as int) =~= texts(names@));
        lemma_sorted_set(texts(names@));
    }
    out
}

/// Whether `list` holds the text `x`.
pub fn contains_text(list: &Vec<String>, x: &str) -> (r: bool)
    ensures
        r == texts(list@).contains(x@),
{
    let mut i: usize = 0;
    while i < list.len()
        invariant
            i <= list.len(),
            forall|k: int| 0 <= k < i ==> texts(list@)[k] != x@,
        decreases list.len() - i,
    {
        if str_eq(list[i].as_str(), x) {
            proof {
                assert(texts(list@)[i as int] == x@);
            }
            return true;
        }
        i += 1;
    }
    false
}

/// Splits `all` into the entries that `requested` holds and the others,
/// each part in the order of `all`.
pub fn split_features(all: &Vec<String>, requested: &Vec<String>) -> (r: (
    Vec<String>,
    Vec<String>,
))
    ensures
        texts(r.0@) == texts(all@).filter(among(texts(requested@))),
        texts(r.1@) == texts(all@).filter(not_among(texts(requested@))),
{
    let mut enabled: Vec<String> = Vec::new();
    let mut disabled: Vec<String> = Vec::new();
    let ghost yes = among(texts(requested@));
    let ghost no = not_among(texts(requested@));
    let mut i: usize = 0;
    proof {
        reveal(Seq::filter);
        assert(texts(all@).take(0) =~= Seq::empty());
        assert(texts(enabled@) =~= Seq::empty());
        assert(texts(disabled@) =~= Seq::empty());
    }
    while i < all.len()
        invariant
            i <= all.len(),
            yes == among(texts(requested@)),
            no == not_among(texts(requested@)),
            texts(enabled@) == texts(all@).take(i as int).filter(yes),
            texts(disabled@) == texts(all@).take(i as int).filter(no),
        decreases all.len() - i,
    {
        let f: &String = &all[i];
        let ghost seen = texts(all@).take(i as int);
        let ghost was_enabled = texts(enabled@);
        let ghost was_disabled = texts(disabled@);
        proof {
            assert(texts(all@).take(i + 1) =~= seen.push(f@));
            seen.lemma_filter_push(f@, yes);
            seen.lemma_filter_push(f@, no);
        }
        if contains_text(requested, f.as_str()) {
            enabled.push(f.clone());
            proof {
                assert(texts(enabled@) =~= was_enabled.push(f@));
            }
        } else {
            disabled.push(f.clone());
            proof {
                assert(texts(disabled@) =~= was_disabled.push(f@));
            }
        }
        i += 1;
    }
    proof {
        assert(texts(all@).take(i as int) =~= texts(all@));
    }
    (enabled, disabled)
}

/// What passes a test keeps the order of the list it came from.
pub proof fn lemma_filter_ascending(s: Seq<Seq<char>>, keep: spec_fn(Seq<char>) -> bool)
    requires
        strictly_ascending(s),
    ensures
        strictly_ascending(s.filter(keep)),
        forall|f: Seq<char>| #[trigger] s.filter(keep).contains(f) <==> (s.contains(f) && keep(f)),
    decreases s.len(),
{
    reveal(Seq::filter);
    let out = s.filter(keep);
    if s.len() > 0 {
        let front = s.drop_last();
        let last = s.last();
        assert forall|i: int, j: int|
            #![trigger front[i], front[j]]
            0 <= i < j < front.len() implies front[i] != front[j] && lex_le(front[i], front[j]) by {
            assert(front[i] == s[i] && front[j] == s[j]);
        }
        lemma_filter_ascending(front, keep);
        let sub = front.filter(keep);
        assert forall|i: int, j: int|
            #![trigger out[i], out[j]]
            0 <= i < j < out.len() implies out[i] != out[j] && lex_le(out[i], out[j]) by {
            if j == sub.len() {
                assert(sub.contains(sub[i]));
                let k = choose|k: int| 0 <= k < front.len() && front[k] == sub[i];
                assert(s[k] == sub[i] && s[s.len() - 1] == last);
            } else {
                assert(out[i] == sub[i] && out[j] == sub[j]);
            }
        }
        assert forall|f: Seq<char>| #[trigger] out.contains(f) <==> (s.contains(f) && keep(f)) by {
            if out.contains(f) {
                let k = choose|k: int| 0 <= k < out.len() && out[k] == f;
                if k < sub.len() {
                    assert(sub.contains(sub[k]));
                    let m = choose|m: int| 0 <= m < front.len() && front[m] == f;
                    assert(s[m] == f);
                } else {
                    assert(s[s.len() - 1] == f);
                }
            }
            if s.contains(f) && keep(f) {
                let k = choose|k: int| 0 <= k < s.len() && s[k] == f;
                if k < front.len() {
                    assert(front[k] == f);
                    assert(sub.contains(f));
                    let m = choose|m: int| 0 <= m < sub.len() && sub[m] == f;
                    assert(out[m] == f);
                } else {
                    assert(out[out.len() - 1] == f);
                }
            }
        }
    }
}

} // verus!
