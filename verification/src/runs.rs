//! Runs: grouping a sequence into its maximal stretches of neighbours with
//! the same key.
//!
//! This is grouping in one pass. Elements with equal keys that are not
//! neighbours end up in different runs; on a sequence that is sorted by the
//! key the runs are the classes of the key.

use vstd::prelude::*;

verus! {

/// The runs of `s` under `key`, in order: neighbours share a run exactly
/// when their keys are equal.
pub open spec fn runs_by<A, K>(s: Seq<A>, key: spec_fn(A) -> K) -> Seq<Seq<A>>
    decreases s.len(),
{
    if s.len() == 0 {
        Seq::empty()
    } else if s.len() >= 2 && key(s[s.len() - 2]) == key(s.last()) {
        let before = runs_by(s.drop_last(), key);
        before.drop_last().push(before.last().push(s.last()))
    } else {
        runs_by(s.drop_last(), key).push(seq![s.last()])
    }
}

/// The parts laid end to end.
pub open spec fn concat_all<A>(parts: Seq<Seq<A>>) -> Seq<A>
    decreases parts.len(),
{
    if parts.len() == 0 {
        Seq::empty()
    } else {
        concat_all(parts.drop_last()) + parts.last()
    }
}

/// The number of elements in all parts together.
pub open spec fn total_len<A>(parts: Seq<Seq<A>>) -> nat
    decreases parts.len(),
{
    if parts.len() == 0 {
        0
    } else {
        total_len(parts.drop_last()) + parts.last().len()
    }
}

/// The first element of each part.
pub open spec fn heads<A>(parts: Seq<Seq<A>>) -> Seq<A> {
    Seq::new(parts.len(), |i: int| parts[i][0])
}

/// Each element as a part of its own.
pub open spec fn singletons<A>(s: Seq<A>) -> Seq<Seq<A>> {
    Seq::new(s.len(), |i: int| seq![s[i]])
}

/// No two neighbours of `s` have the same key.
pub open spec fn neighbours_differ<A, K>(s: Seq<A>, key: spec_fn(A) -> K) -> bool {
    forall|i: int| 0 <= i && i + 1 < s.len() ==> key(#[trigger] s[i]) != key(s[i + 1])
}

/// What the runs of a sequence are like: none is empty; laid end to end
/// they give the sequence back, so they hold as many elements as it has;
/// within a run all keys are equal; and the keys of two runs that follow
/// each other differ. The last run ends with the last element.
pub proof fn lemma_runs<A, K>(s: Seq<A>, key: spec_fn(A) -> K)
    ensures
        forall|i: int| 0 <= i < runs_by(s, key).len() ==> (#[trigger] runs_by(s, key)[i]).len() > 0,
        concat_all(runs_by(s, key)) == s,
        total_len(runs_by(s, key)) == s.len(),
        forall|i: int, j: int|
            0 <= i < runs_by(s, key).len() && 0 <= j < runs_by(s, key)[i].len() ==> key(
                #[trigger] runs_by(s, key)[i][j],
            ) == key(runs_by(s, key)[i][0]),
        forall|i: int|
            0 <= i && i + 1 < runs_by(s, key).len() ==> key(#[trigger] runs_by(s, key)[i][0])
                != key(runs_by(s, key)[i + 1][0]),
        s.len() > 0 ==> runs_by(s, key).len() > 0 && runs_by(s, key).last().last() == s.last(),
        s.len() == 0 ==> runs_by(s, key).len() == 0,
    decreases s.len(),
{
    let r = runs_by(s, key);
    if s.len() == 0 {
    } else {
        let t = s.drop_last();
        let before = runs_by(t, key);
        lemma_runs(t, key);
        let x = s.last();
        if s.len() >= 2 && key(s[s.len() - 2]) == key(x) {
            assert(t.last() == s[s.len() - 2]);
            let n = before.len() as int;
            let grown = before.last().push(x);
            assert(r == before.drop_last().push(grown));
            assert(r.len() == n);
            assert forall|i: int| 0 <= i < r.len() implies (#[trigger] r[i]).len() > 0 by {
                if i < n - 1 {
                    assert(r[i] == before[i]);
                }
            }
            assert(r.drop_last() =~= before.drop_last());
            assert(concat_all(r) == concat_all(before.drop_last()) + grown);
            assert(concat_all(before) == concat_all(before.drop_last()) + before.last());
            assert(concat_all(before.drop_last()) + grown =~= (concat_all(before.drop_last())
                + before.last()).push(x));
            assert(t.push(x) =~= s);
            assert(concat_all(r) =~= s);
            assert(total_len(r) == total_len(before.drop_last()) + grown.len());
            assert forall|i: int, j: int| 0 <= i < r.len() && 0 <= j < r[i].len() implies key(
                #[trigger] r[i][j],
            ) == key(r[i][0]) by {
                if i < n - 1 {
                    assert(r[i] == before[i]);
                } else {
                    let m = before.last().len() as int;
                    assert(before[n - 1] == before.last());
                    assert(key(before[n - 1][m - 1]) == key(before[n - 1][0]));
                    if j < m {
                        assert(r[i][j] == before[n - 1][j]);
                    }
                }
            }
            assert forall|i: int| 0 <= i && i + 1 < r.len() implies key(#[trigger] r[i][0]) != key(
                r[i + 1][0],
            ) by {
                assert(r[i] == before[i]);
                assert(r[i + 1][0] == before[i + 1][0]);
            }
        } else {
            let n = before.len() as int;
            assert(r == before.push(seq![x]));
            assert(r.drop_last() =~= before);
            assert(t + seq![x] =~= s);
            assert(concat_all(r) =~= s);
            assert forall|i: int| 0 <= i < r.len() implies (#[trigger] r[i]).len() > 0 by {
                if i < n {
                    assert(r[i] == before[i]);
                }
            }
            assert forall|i: int, j: int| 0 <= i < r.len() && 0 <= j < r[i].len() implies key(
                #[trigger] r[i][j],
            ) == key(r[i][0]) by {
                if i < n {
                    assert(r[i] == before[i]);
                }
            }
            assert forall|i: int| 0 <= i && i + 1 < r.len() implies key(#[trigger] r[i][0]) != key(
                r[i + 1][0],
            ) by {
                assert(r[i] == before[i]);
                if i + 1 < n {
                    assert(r[i + 1] == before[i + 1]);
                } else {
                    let m = before.last().len() as int;
                    assert(before[n - 1] == before.last());
                    assert(key(before[n - 1][m - 1]) == key(before[n - 1][0]));
                    assert(t.last() == s[s.len() - 2]);
                }
            }
        }
    }
}

/// A stretch of equal keys that starts where the key changes is the next
/// run: if the key changes between positions `from - 1` and `from` (or
/// `from` is the start) and stays the same from `from` up to `to`, then the
/// runs of the first `to` elements are the runs of the first `from`
/// elements followed by the stretch.
pub proof fn lemma_next_run<A, K>(s: Seq<A>, key: spec_fn(A) -> K, from: int, to: int)
    requires
        0 <= from < to <= s.len(),
        from > 0 ==> key(s[from - 1]) != key(s[from]),
        forall|k: int| from < k < to ==> key(s[k - 1]) == key(#[trigger] s[k]),
    ensures
        runs_by(s.take(to), key) == runs_by(s.take(from), key).push(s.subrange(from, to)),
    decreases to - from,
{
    let whole = s.take(to);
    assert(whole.drop_last() =~= s.take(to - 1));
    assert(whole.last() == s[to - 1]);
    if to == from + 1 {
        if whole.len() >= 2 {
            assert(whole[whole.len() - 2] == s[from - 1]);
        }
        assert(s.subrange(from, to) =~= seq![s[from]]);
    } else {
        lemma_next_run(s, key, from, to - 1);
        assert(whole[whole.len() - 2] == s[to - 2]);
        assert(key(s[to - 2]) == key(s[to - 1]));
        let before = runs_by(s.take(to - 1), key);
        let base = runs_by(s.take(from), key);
        assert(before == base.push(s.subrange(from, to - 1)));
        assert(before.drop_last() =~= base);
        assert(before.last().push(s[to - 1]) =~= s.subrange(from, to));
    }
}

/// Grouping is stable: laying the runs end to end and grouping again gives
/// the same runs.
pub proof fn lemma_regroup<A, K>(s: Seq<A>, key: spec_fn(A) -> K)
    ensures
        runs_by(concat_all(runs_by(s, key)), key) == runs_by(s, key),
{
    lemma_runs(s, key);
}

/// Where no two neighbours have the same key, every element is a run of
/// its own.
pub proof fn lemma_runs_of_distinct<A, K>(s: Seq<A>, key: spec_fn(A) -> K)
    requires
        neighbours_differ(s, key),
    ensures
        runs_by(s, key) == singletons(s),
    decreases s.len(),
{
    if s.len() > 0 {
        let t = s.drop_last();
        assert forall|i: int| 0 <= i && i + 1 < t.len() implies key(#[trigger] t[i]) != key(
            t[i + 1],
        ) by {
            assert(t[i] == s[i]);
            assert(t[i + 1] == s[i + 1]);
        }
        lemma_runs_of_distinct(t, key);
        if s.len() >= 2 {
            let i = s.len() - 2;
            assert(key(s[i]) != key(s[i + 1]));
        }
        assert(runs_by(s, key) =~= singletons(s));
    } else {
        assert(runs_by(s, key) =~= singletons(s));
    }
}

/// Grouping what is already one per run changes nothing: the first
/// elements of the runs of a sequence are each a run of their own.
pub proof fn lemma_heads_are_runs<A, K>(s: Seq<A>, key: spec_fn(A) -> K)
    ensures
        neighbours_differ(heads(runs_by(s, key)), key),
        runs_by(heads(runs_by(s, key)), key) == singletons(heads(runs_by(s, key))),
        heads(runs_by(heads(runs_by(s, key)), key)) == heads(runs_by(s, key)),
{
    let r = runs_by(s, key);
    let h = heads(r);
    lemma_runs(s, key);
    assert forall|i: int| 0 <= i && i + 1 < h.len() implies key(#[trigger] h[i]) != key(
        h[i + 1],
    ) by {
        assert(key(r[i][0]) != key(r[i + 1][0]));
    }
    lemma_runs_of_distinct(h, key);
    assert(heads(singletons(h)) =~= h);
}

/// `s` is in ascending order of `rank`, and elements have the same rank
/// exactly when they have the same key.
pub open spec fn sorted_by_rank<A, K>(
    s: Seq<A>,
    key: spec_fn(A) -> K,
    rank: spec_fn(A) -> int,
) -> bool {
    &&& forall|i: int, j: int| 0 <= i <= j < s.len() ==> rank(s[i]) <= rank(s[j])
    &&& forall|i: int, j: int|
        0 <= i < s.len() && 0 <= j < s.len() ==> (rank(s[i]) == rank(s[j])) == (key(s[i]) == key(
            s[j],
        ))
}

/// On a sorted sequence the runs are the classes of the key: the first
/// elements of the runs are in strictly ascending order of rank, so no two
/// runs have the same key.
pub proof fn lemma_sorted_runs<A, K>(s: Seq<A>, key: spec_fn(A) -> K, rank: spec_fn(A) -> int)
    requires
        sorted_by_rank(s, key, rank),
    ensures
        forall|a: int, b: int|
            0 <= a < b < runs_by(s, key).len() ==> rank(#[trigger] runs_by(s, key)[a][0]) < rank(
                #[trigger] runs_by(s, key)[b][0],
            ),
        forall|a: int, b: int|
            0 <= a < b < runs_by(s, key).len() ==> key(#[trigger] runs_by(s, key)[a][0]) != key(
                #[trigger] runs_by(s, key)[b][0],
            ),
        s.len() > 0 ==> rank(runs_by(s, key).last()[0]) == rank(s.last()),
        forall|a: int|
            0 <= a < runs_by(s, key).len() ==> exists|i: int|
                0 <= i < s.len() && s[i] == (#[trigger] runs_by(s, key)[a])[0],
    decreases s.len(),
{
    let r = runs_by(s, key);
    if s.len() > 0 {
        let t = s.drop_last();
        let before = runs_by(t, key);
        let x = s.last();
        let n = before.len() as int;
        assert forall|i: int, j: int| 0 <= i <= j < t.len() implies rank(t[i]) <= rank(t[j]) by {
            assert(t[i] == s[i] && t[j] == s[j]);
        }
        assert forall|i: int, j: int| 0 <= i < t.len() && 0 <= j < t.len() implies (rank(t[i])
            == rank(t[j])) == (key(t[i]) == key(t[j])) by {
            assert(t[i] == s[i] && t[j] == s[j]);
        }
        lemma_sorted_runs(t, key, rank);
        lemma_runs(t, key);
        lemma_runs(s, key);
        assert forall|a: int| 0 <= a < n implies exists|i: int|
            0 <= i < s.len() && s[i] == (#[trigger] before[a])[0] by {
            let i = choose|i: int| 0 <= i < t.len() && t[i] == before[a][0];
            assert(s[i] == before[a][0]);
        }
        if s.len() >= 2 && key(s[s.len() - 2]) == key(x) {
            assert(t.last() == s[s.len() - 2]);
            assert(r.len() == n);
            assert forall|a: int| 0 <= a < n implies (#[trigger] r[a])[0] == before[a][0] by {
                if a < n - 1 {
                    assert(r[a] == before[a]);
                } else {
                    assert(before[n - 1] == before.last());
                    assert(before[n - 1].len() > 0);
                }
            }
            assert(rank(s[s.len() - 2]) == rank(x));
            assert(r.last()[0] == before.last()[0]);
            assert forall|a: int| 0 <= a < r.len() implies exists|i: int|
                0 <= i < s.len() && s[i] == (#[trigger] r[a])[0] by {
                let i = choose|i: int| 0 <= i < s.len() && s[i] == before[a][0];
                assert(s[i] == r[a][0]);
            }
        } else {
            assert(r == before.push(seq![x]));
            assert forall|a: int| 0 <= a < n implies (#[trigger] r[a])[0] == before[a][0] by {
                assert(r[a] == before[a]);
            }
            assert(r[n][0] == x);
            assert forall|a: int, b: int| 0 <= a < b < r.len() implies rank(#[trigger] r[a][0])
                < rank(#[trigger] r[b][0]) by {
                if b == n {
                    let i = choose|i: int| 0 <= i < s.len() && s[i] == before[a][0];
                    assert(rank(s[i]) <= rank(s[s.len() - 1]));
                    assert(t.last() == s[s.len() - 2]);
                    if a == n - 1 {
                        assert(before[n - 1] == before.last());
                        assert(rank(before.last()[0]) == rank(t.last()));
                        assert(key(s[s.len() - 2]) != key(x));
                        assert(rank(s[s.len() - 2]) != rank(s[s.len() - 1]));
                        assert(rank(s[s.len() - 2]) <= rank(s[s.len() - 1]));
                    } else {
                        assert(rank(before[a][0]) < rank(before[n - 1][0]));
                        assert(before[n - 1] == before.last());
                        assert(rank(before.last()[0]) == rank(t.last()));
                        assert(rank(s[s.len() - 2]) <= rank(s[s.len() - 1]));
                    }
                }
            }
            assert forall|a: int| 0 <= a < r.len() implies exists|i: int|
                0 <= i < s.len() && s[i] == (#[trigger] r[a])[0] by {
                if a < n {
                    let i = choose|i: int| 0 <= i < s.len() && s[i] == before[a][0];
                    assert(s[i] == r[a][0]);
                } else {
                    assert(s[s.len() - 1] == r[a][0]);
                }
            }
        }
        assert forall|a: int, b: int| 0 <= a < b < r.len() implies key(#[trigger] r[a][0]) != key(
            #[trigger] r[b][0],
        ) by {
            assert(rank(r[a][0]) < rank(r[b][0]));
            let i = choose|i: int| 0 <= i < s.len() && s[i] == r[a][0];
            let j = choose|j: int| 0 <= j < s.len() && s[j] == r[b][0];
            assert((rank(s[i]) == rank(s[j])) == (key(s[i]) == key(s[j])));
        }
    }
}

} // verus!
