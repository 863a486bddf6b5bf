//! Ordering detected folders from the most to the least usable, and
//! dropping repeated paths.

use vstd::prelude::*;
use crate::pathsyntax::{path_components, same_path_exec, PathComps, PathStyle};
use crate::types::{
    source_priority, spec_source_priority, status_rank, AddonPathCandidate, AddonPathStatus,
    CandidateView,
};

verus! {

broadcast use vstd::seq_lib::group_to_multiset_ensures;

/// The sort key of a candidate: a higher status comes first, then a lower
/// source priority. Smaller keys come first.
pub open spec fn rank_key(c: CandidateView) -> int {
    (3 - status_rank(c.status)) * 8 + spec_source_priority(c.source)
}

/// `a` may stand before `b`: its status is higher, or the statuses are
/// equal and its source priority is not higher.
pub open spec fn ranked_before(a: CandidateView, b: CandidateView) -> bool {
    ||| status_rank(a.status) > status_rank(b.status)
    ||| (a.status == b.status && spec_source_priority(a.source) <= spec_source_priority(b.source))
}

/// Where a stable insertion puts an element of key `k` into `s`: after the
/// last element whose key is not greater than `k`.
pub open spec fn insert_pos(s: Seq<CandidateView>, k: int) -> int
    decreases s.len(),
{
    if s.len() == 0 {
        0
    } else if rank_key(s.last()) <= k {
        s.len() as int
    } else {
        insert_pos(s.drop_last(), k)
    }
}

/// `s` in rank order; candidates of equal key keep their relative order.
pub open spec fn sort_ranked(s: Seq<CandidateView>) -> Seq<CandidateView>
    decreases s.len(),
{
    if s.len() == 0 {
        s
    } else {
        let t = sort_ranked(s.drop_last());
        t.insert(insert_pos(t, rank_key(s.last())), s.last())
    }
}

/// What a path names, by its components.
pub type PathPlace = PathComps;

/// The place a candidate's path names.
pub open spec fn place(style: PathStyle, c: CandidateView) -> PathPlace {
    path_components(style, c.path)
}

/// Some candidate of `s` names the place `p`.
pub open spec fn has_path(style: PathStyle, s: Seq<CandidateView>, p: PathPlace) -> bool {
    exists|i: int| 0 <= i < s.len() && #[trigger] place(style, s[i]) == p
}

/// `s` keeping only the first candidate of each place.
pub open spec fn dedupe_paths(style: PathStyle, s: Seq<CandidateView>) -> Seq<CandidateView>
    decreases s.len(),
{
    if s.len() == 0 {
        s
    } else {
        let d = dedupe_paths(style, s.drop_last());
        if has_path(style, d, place(style, s.last())) {
            d
        } else {
            d.push(s.last())
        }
    }
}

/// The candidates in rank order, each path once, kept at its best rank.
pub open spec fn spec_rank_and_dedupe(style: PathStyle, s: Seq<CandidateView>) -> Seq<CandidateView> {
    dedupe_paths(style, sort_ranked(s))
}

/// Keys never decrease along `s`.
pub open spec fn keys_sorted(s: Seq<CandidateView>) -> bool {
    forall|i: int, j: int| 0 <= i < j < s.len() ==> rank_key(s[i]) <= rank_key(s[j])
}

/// No two candidates of `s` name the same place.
pub open spec fn paths_distinct(style: PathStyle, s: Seq<CandidateView>) -> bool {
    forall|i: int, j: int| 0 <= i < s.len() && 0 <= j < s.len() && i != j ==> place(style, s[i]) != place(style, s[j])
}

proof fn lemma_key_order(a: CandidateView, b: CandidateView)
    ensures
        rank_key(a) <= rank_key(b) <==> ranked_before(a, b),
{
}

proof fn lemma_insert_pos(s: Seq<CandidateView>, k: int)
    ensures
        0 <= insert_pos(s, k) <= s.len(),
        forall|i: int| insert_pos(s, k) <= i < s.len() ==> rank_key(#[trigger] s[i]) > k,
        insert_pos(s, k) > 0 ==> rank_key(s[insert_pos(s, k) - 1]) <= k,
    decreases s.len(),
{
    if s.len() > 0 && rank_key(s.last()) > k {
        let d = s.drop_last();
        lemma_insert_pos(d, k);
        assert forall|i: int| insert_pos(s, k) <= i < s.len() implies rank_key(#[trigger] s[i]) > k by {
            if i < d.len() {
                assert(s[i] == d[i]);
            }
        }
    }
}

proof fn lemma_insert_sorted(s: Seq<CandidateView>, x: CandidateView)
    requires
        keys_sorted(s),
    ensures
        keys_sorted(s.insert(insert_pos(s, rank_key(x)), x)),
{
    let p = insert_pos(s, rank_key(x));
    lemma_insert_pos(s, rank_key(x));
    let t = s.insert(p, x);
    s.insert_ensures(p, x);
    assert forall|i: int, j: int| 0 <= i < j < t.len() implies rank_key(t[i]) <= rank_key(t[j]) by {
        if j < p {
        } else if j == p {
            if i < p {
                assert(rank_key(s[i]) <= rank_key(s[p - 1]));
            }
        } else {
            assert(t[j] == s[j - 1]);
            if i < p {
            } else if i == p {
            } else {
                assert(t[i] == s[i - 1]);
            }
        }
    }
}

proof fn lemma_sort_ranked(s: Seq<CandidateView>)
    ensures
        keys_sorted(sort_ranked(s)),
        sort_ranked(s).to_multiset() == s.to_multiset(),
        sort_ranked(s).len() == s.len(),
    decreases s.len(),
{
    if s.len() > 0 {
        let t = sort_ranked(s.drop_last());
        lemma_sort_ranked(s.drop_last());
        lemma_insert_pos(t, rank_key(s.last()));
        lemma_insert_sorted(t, s.last());
        vstd::seq_lib::to_multiset_insert(t, insert_pos(t, rank_key(s.last())), s.last());
        assert(s.drop_last().push(s.last()) =~= s);
    }
}

proof fn lemma_sort_of_sorted(s: Seq<CandidateView>)
    requires
        keys_sorted(s),
    ensures
        sort_ranked(s) == s,
    decreases s.len(),
{
    if s.len() > 0 {
        let d = s.drop_last();
        assert(keys_sorted(d));
        lemma_sort_of_sorted(d);
        assert(insert_pos(d, rank_key(s.last())) == d.len());
        assert(d.insert(d.len() as int, s.last()) =~= s);
    }
}

proof fn lemma_dedupe(style: PathStyle, s: Seq<CandidateView>)
    ensures
        paths_distinct(style, dedupe_paths(style, s)),
        forall|p: PathPlace| has_path(style, dedupe_paths(style, s), p) <==> has_path(style, s, p),
        forall|c: CandidateView| dedupe_paths(style, s).contains(c) ==> s.contains(c),
        keys_sorted(s) ==> keys_sorted(dedupe_paths(style, s)),
        keys_sorted(s) ==> forall|i: int|
            0 <= i < s.len() ==> exists|j: int|
                0 <= j < dedupe_paths(style, s).len() && #[trigger] place(style, dedupe_paths(style, s)[j]) == place(style, #[trigger] s[i])
                    && rank_key(dedupe_paths(style, s)[j]) <= rank_key(s[i]),
    decreases s.len(),
{
    if s.len() > 0 {
        let t = s.drop_last();
        let d = dedupe_paths(style, t);
        let x = s.last();
        lemma_dedupe(style, t);
        assert forall|c: CandidateView| t.contains(c) implies s.contains(c) by {
            let i = choose|i: int| 0 <= i < t.len() && t[i] == c;
            assert(s[i] == c);
        }
        assert forall|p: PathPlace| has_path(style, t, p) implies has_path(style, s, p) by {
            let i = choose|i: int| 0 <= i < t.len() && #[trigger] place(style, t[i]) == p;
            assert(place(style, s[i]) == p);
        }
        assert forall|p: PathPlace| has_path(style, s, p) && p != place(style, x) implies has_path(style, t, p) by {
            let i = choose|i: int| 0 <= i < s.len() && #[trigger] place(style, s[i]) == p;
            assert(place(style, t[i]) == p);
        }
        assert(place(style, s[s.len() - 1]) == place(style, x));
        if has_path(style, d, place(style, x)) {
            if keys_sorted(s) {
                assert(keys_sorted(t));
                assert forall|i: int| 0 <= i < s.len() implies exists|j: int|
                    0 <= j < d.len() && #[trigger] place(style, d[j]) == place(style, #[trigger] s[i])
                        && rank_key(d[j]) <= rank_key(s[i]) by {
                    if i < s.len() - 1 {
                        assert(s[i] == t[i]);
                    } else {
                        let j = choose|j: int| 0 <= j < d.len() && #[trigger] place(style, d[j]) == place(style, x);
                        assert(d.contains(d[j]));
                        assert(t.contains(d[j]));
                        let k = choose|k: int| 0 <= k < t.len() && t[k] == d[j];
                        assert(s[k] == t[k]);
                    }
                }
            }
        } else {
            let e = d.push(x);
            assert forall|p: PathPlace| has_path(style, e, p) <==> has_path(style, s, p) by {
                if has_path(style, e, p) && p != place(style, x) {
                    let i = choose|i: int| 0 <= i < e.len() && #[trigger] place(style, e[i]) == p;
                    assert(place(style, d[i]) == p);
                }
                if has_path(style, d, p) {
                    let i = choose|i: int| 0 <= i < d.len() && #[trigger] place(style, d[i]) == p;
                    assert(place(style, e[i]) == p);
                }
                assert(place(style, e[e.len() - 1]) == place(style, x));
            }
            assert forall|c: CandidateView| e.contains(c) implies s.contains(c) by {
                let i = choose|i: int| 0 <= i < e.len() && e[i] == c;
                if i < d.len() {
                    assert(d[i] == c);
                    assert(d.contains(c));
                }
            }
            assert forall|i: int, j: int|
                0 <= i < e.len() && 0 <= j < e.len() && i != j implies place(style, e[i]) != place(style, e[j]) by {
                if i == d.len() {
                    assert(e[j] == d[j]);
                } else if j == d.len() {
                    assert(e[i] == d[i]);
                }
            }
            if keys_sorted(s) {
                assert(keys_sorted(t));
                assert forall|i: int, j: int| 0 <= i < j < e.len() implies rank_key(e[i])
                    <= rank_key(e[j]) by {
                    if j == d.len() {
                        assert(d.contains(e[i]));
                        assert(t.contains(e[i]));
                        let k = choose|k: int| 0 <= k < t.len() && t[k] == e[i];
                        assert(s[k] == t[k]);
                    }
                }
                assert forall|i: int| 0 <= i < s.len() implies exists|j: int|
                    0 <= j < e.len() && #[trigger] place(style, e[j]) == place(style, #[trigger] s[i])
                        && rank_key(e[j]) <= rank_key(s[i]) by {
                    if i < s.len() - 1 {
                        assert(s[i] == t[i]);
                        let j = choose|j: int|
                            0 <= j < d.len() && #[trigger] place(style, d[j]) == place(style, #[trigger] t[i])
                                && rank_key(d[j]) <= rank_key(t[i]);
                        assert(e[j] == d[j]);
                    } else {
                        assert(e[d.len() as int] == x);
                    }
                }
            }
        }
    }
}

proof fn lemma_dedupe_of_distinct(style: PathStyle, s: Seq<CandidateView>)
    requires
        paths_distinct(style, s),
    ensures
        dedupe_paths(style, s) == s,
    decreases s.len(),
{
    if s.len() > 0 {
        let t = s.drop_last();
        assert(paths_distinct(style, t));
        lemma_dedupe_of_distinct(style, t);
        if has_path(style, t, place(style, s.last())) {
            let i = choose|i: int| 0 <= i < t.len() && #[trigger] place(style, t[i]) == place(style, s.last());
            assert(s[i] == t[i]);
            assert(false);
        }
        assert(t.push(s.last()) =~= s);
    }
}

/// Ranking puts a higher status first and, among equal statuses, the source
/// of lower priority first.
pub proof fn law_rank_order(style: PathStyle, s: Seq<CandidateView>)
    ensures
        forall|i: int, j: int|
            0 <= i < j < spec_rank_and_dedupe(style, s).len() ==> ranked_before(
                #[trigger] spec_rank_and_dedupe(style, s)[i],
                #[trigger] spec_rank_and_dedupe(style, s)[j],
            ),
{
    lemma_sort_ranked(s);
    lemma_dedupe(style, sort_ranked(s));
    let r = spec_rank_and_dedupe(style, s);
    assert forall|i: int, j: int| 0 <= i < j < r.len() implies ranked_before(r[i], r[j]) by {
        lemma_key_order(r[i], r[j]);
    }
}

/// After ranking, no path occurs twice.
pub proof fn law_rank_paths_distinct(style: PathStyle, s: Seq<CandidateView>)
    ensures
        paths_distinct(style, spec_rank_and_dedupe(style, s)),
{
    lemma_dedupe(style, sort_ranked(s));
}

/// Ranking loses no path and invents no candidate: each path of the input
/// is in the output, and each output candidate is an input candidate.
pub proof fn law_rank_keeps_paths(style: PathStyle, s: Seq<CandidateView>)
    ensures
        forall|p: PathPlace| has_path(style, spec_rank_and_dedupe(style, s), p) <==> has_path(style, s, p),
        forall|c: CandidateView| spec_rank_and_dedupe(style, s).contains(c) ==> s.contains(c),
{
    let t = sort_ranked(s);
    lemma_sort_ranked(s);
    lemma_dedupe(style, t);
    assert forall|c: CandidateView| t.contains(c) <==> s.contains(c) by {
        assert(t.contains(c) <==> t.to_multiset().count(c) > 0);
        assert(s.contains(c) <==> s.to_multiset().count(c) > 0);
    }
    assert forall|p: PathPlace| has_path(style, t, p) <==> has_path(style, s, p) by {
        if has_path(style, t, p) {
            let i = choose|i: int| 0 <= i < t.len() && #[trigger] place(style, t[i]) == p;
            assert(t.contains(t[i]));
            let k = choose|k: int| 0 <= k < s.len() && s[k] == t[i];
            assert(place(style, s[k]) == p);
        }
        if has_path(style, s, p) {
            let i = choose|i: int| 0 <= i < s.len() && #[trigger] place(style, s[i]) == p;
            assert(s.contains(s[i]));
            let k = choose|k: int| 0 <= k < t.len() && t[k] == s[i];
            assert(place(style, t[k]) == p);
        }
    }
}

/// For each path, the candidate that stays ranks at least as well as every
/// input candidate of that path.
pub proof fn law_rank_keeps_best(style: PathStyle, s: Seq<CandidateView>)
    ensures
        forall|i: int|
            0 <= i < s.len() ==> exists|j: int|
                0 <= j < spec_rank_and_dedupe(style, s).len()
                    && #[trigger] place(style, spec_rank_and_dedupe(style, s)[j]) == place(style, #[trigger] s[i])
                    && ranked_before(spec_rank_and_dedupe(style, s)[j], s[i]),
{
    let t = sort_ranked(s);
    let r = spec_rank_and_dedupe(style, s);
    lemma_sort_ranked(s);
    lemma_dedupe(style, t);
    assert forall|i: int| 0 <= i < s.len() implies exists|j: int|
        0 <= j < r.len() && #[trigger] place(style, r[j]) == place(style, #[trigger] s[i]) && ranked_before(r[j], s[i]) by {
        assert(s.contains(s[i]));
        assert(s.to_multiset().count(s[i]) > 0);
        assert(t.contains(s[i]));
        let k = choose|k: int| 0 <= k < t.len() && t[k] == s[i];
        let j = choose|j: int|
            0 <= j < r.len() && #[trigger] place(style, r[j]) == place(style, #[trigger] t[k]) && rank_key(r[j])
                <= rank_key(t[k]);
        lemma_key_order(r[j], s[i]);
    }
}

/// Ranking a ranked list changes nothing.
pub proof fn law_rank_idempotent(style: PathStyle, s: Seq<CandidateView>)
    ensures
        spec_rank_and_dedupe(style, spec_rank_and_dedupe(style, s)) == spec_rank_and_dedupe(style, s),
{
    let r = spec_rank_and_dedupe(style, s);
    lemma_sort_ranked(s);
    lemma_dedupe(style, sort_ranked(s));
    lemma_sort_of_sorted(r);
    lemma_dedupe_of_distinct(style, r);
}

/// The candidates of `s` whose sort key is `k`, in order.
pub open spec fn with_key(s: Seq<CandidateView>, k: int) -> Seq<CandidateView>
    decreases s.len(),
{
    if s.len() == 0 {
        s
    } else {
        let r = with_key(s.drop_last(), k);
        if rank_key(s.last()) == k {
            r.push(s.last())
        } else {
            r
        }
    }
}

/// `a` is `b` with some elements left out and the rest in order.
pub open spec fn is_subseq(a: Seq<CandidateView>, b: Seq<CandidateView>) -> bool
    decreases b.len(),
{
    if a.len() == 0 {
        true
    } else if b.len() == 0 {
        false
    } else if a.last() == b.last() {
        is_subseq(a.drop_last(), b.drop_last())
    } else {
        is_subseq(a, b.drop_last())
    }
}

proof fn lemma_with_key_add(a: Seq<CandidateView>, b: Seq<CandidateView>, k: int)
    ensures
        with_key(a + b, k) == with_key(a, k) + with_key(b, k),
    decreases b.len(),
{
    if b.len() == 0 {
        assert(a + b =~= a);
        assert(with_key(a, k) + with_key(b, k) =~= with_key(a, k));
    } else {
        lemma_with_key_add(a, b.drop_last(), k);
        assert((a + b).drop_last() =~= a + b.drop_last());
        assert((a + b).last() == b.last());
        if rank_key(b.last()) == k {
            assert(with_key(a, k) + with_key(b.drop_last(), k).push(b.last()) =~= (with_key(a, k)
                + with_key(b.drop_last(), k)).push(b.last()));
        }
    }
}

proof fn lemma_with_key_none(s: Seq<CandidateView>, k: int)
    requires
        forall|i: int| 0 <= i < s.len() ==> rank_key(#[trigger] s[i]) != k,
    ensures
        with_key(s, k).len() == 0,
    decreases s.len(),
{
    if s.len() > 0 {
        let d = s.drop_last();
        assert forall|i: int| 0 <= i < d.len() implies rank_key(#[trigger] d[i]) != k by {
            assert(d[i] == s[i]);
        }
        lemma_with_key_none(d, k);
        assert(s[s.len() - 1] == s.last());
    }
}

proof fn lemma_sort_stable(s: Seq<CandidateView>, k: int)
    ensures
        with_key(sort_ranked(s), k) == with_key(s, k),
    decreases s.len(),
{
    if s.len() > 0 {
        let x = s.last();
        let t = sort_ranked(s.drop_last());
        let p = insert_pos(t, rank_key(x));
        lemma_sort_stable(s.drop_last(), k);
        lemma_insert_pos(t, rank_key(x));
        let front = t.take(p);
        let back = t.skip(p);
        assert(t =~= front + back);
        assert(t.insert(p, x) =~= front + seq![x] + back);
        lemma_with_key_add(front, back, k);
        lemma_with_key_add(front + seq![x], back, k);
        lemma_with_key_add(front, seq![x], k);
        let e = Seq::<CandidateView>::empty();
        assert(seq![x].drop_last() =~= e);
        assert(seq![x].last() == x);
        assert(with_key(e, k) == e);
        assert(with_key(seq![x], k) == if rank_key(x) == k {
            e.push(x)
        } else {
            e
        });
        assert(e.push(x) =~= seq![x]);
        if rank_key(x) == k {
            assert forall|i: int| 0 <= i < back.len() implies rank_key(#[trigger] back[i]) != k by {
                assert(back[i] == t[p + i]);
            }
            lemma_with_key_none(back, k);
            assert(with_key(back, k) =~= Seq::<CandidateView>::empty());
            assert(with_key(front, k) + with_key(seq![x], k) + with_key(back, k) =~= (with_key(front, k)
                + with_key(back, k)).push(x));
        } else {
            assert(with_key(seq![x], k) =~= Seq::<CandidateView>::empty());
            assert(with_key(front, k) + with_key(seq![x], k) + with_key(back, k) =~= with_key(front, k)
                + with_key(back, k));
        }
    }
}

proof fn lemma_subseq_drop(a: Seq<CandidateView>, b: Seq<CandidateView>)
    requires
        is_subseq(a, b),
        a.len() > 0,
    ensures
        is_subseq(a.drop_last(), b),
    decreases 2 * b.len() + 1,
{
    if a.last() == b.last() {
        lemma_subseq_push(a.drop_last(), b.drop_last(), b.last());
    } else {
        lemma_subseq_drop(a, b.drop_last());
        lemma_subseq_push(a.drop_last(), b.drop_last(), b.last());
    }
    assert(b.drop_last().push(b.last()) =~= b);
}

proof fn lemma_subseq_push(a: Seq<CandidateView>, b: Seq<CandidateView>, y: CandidateView)
    requires
        is_subseq(a, b),
    ensures
        is_subseq(a, b.push(y)),
    decreases 2 * b.len() + 2,
{
    assert(b.push(y).drop_last() =~= b);
    if a.len() > 0 && a.last() == y {
        lemma_subseq_drop(a, b);
    }
}

proof fn lemma_subseq_with_key(a: Seq<CandidateView>, b: Seq<CandidateView>, k: int)
    requires
        is_subseq(a, b),
    ensures
        is_subseq(with_key(a, k), with_key(b, k)),
    decreases b.len(),
{
    if a.len() == 0 {
    } else if a.last() == b.last() {
        lemma_subseq_with_key(a.drop_last(), b.drop_last(), k);
        if rank_key(b.last()) == k {
            let wa = with_key(a.drop_last(), k);
            let wb = with_key(b.drop_last(), k);
            assert(wa.push(a.last()).drop_last() =~= wa);
            assert(wb.push(b.last()).drop_last() =~= wb);
        }
    } else {
        lemma_subseq_with_key(a, b.drop_last(), k);
        if rank_key(b.last()) == k {
            lemma_subseq_push(with_key(a, k), with_key(b.drop_last(), k), b.last());
        }
    }
}

proof fn lemma_dedupe_subseq(style: PathStyle, s: Seq<CandidateView>)
    ensures
        is_subseq(dedupe_paths(style, s), s),
        dedupe_paths(style, s).len() <= s.len(),
    decreases s.len(),
{
    if s.len() > 0 {
        let d = dedupe_paths(style, s.drop_last());
        lemma_dedupe_subseq(style, s.drop_last());
        assert(s.drop_last().push(s.last()) =~= s);
        if has_path(style, d, place(style, s.last())) {
            lemma_subseq_push(d, s.drop_last(), s.last());
        } else {
            assert(d.push(s.last()).drop_last() =~= d);
        }
    }
}

/// Ranking never makes the list longer.
pub proof fn law_rank_not_longer(style: PathStyle, s: Seq<CandidateView>)
    ensures
        spec_rank_and_dedupe(style, s).len() <= s.len(),
{
    lemma_sort_ranked(s);
    lemma_dedupe_subseq(style, sort_ranked(s));
}

/// Ranking keeps candidates of equal rank (the same status and source) in
/// their input order: for each sort key, the candidates of that key that
/// stay are those of the input, some left out, the rest in input order.
pub proof fn law_rank_stable(style: PathStyle, s: Seq<CandidateView>, k: int)
    ensures
        is_subseq(with_key(spec_rank_and_dedupe(style, s), k), with_key(s, k)),
{
    let t = sort_ranked(s);
    lemma_dedupe_subseq(style, t);
    lemma_subseq_with_key(dedupe_paths(style, t), t, k);
    lemma_sort_stable(s, k);
}

/// Ranking puts a more complete folder chain first: after a candidate
/// whose AddOns folder exists come only such candidates before it, a
/// candidate with a `live` folder never follows one with only the game
/// folder or only the documents folder, and one with the game folder never
/// follows one with only the documents folder.
pub proof fn law_rank_complete_first(style: PathStyle, s: Seq<CandidateView>, i: int, j: int)
    requires
        0 <= i < j < spec_rank_and_dedupe(style, s).len(),
    ensures
        ({
            let a = spec_rank_and_dedupe(style, s)[i].status;
            let b = spec_rank_and_dedupe(style, s)[j].status;
            &&& b == AddonPathStatus::AddOnsExists ==> a == AddonPathStatus::AddOnsExists
            &&& b == AddonPathStatus::LiveExists ==> a == AddonPathStatus::LiveExists || a
                == AddonPathStatus::AddOnsExists
            &&& b == AddonPathStatus::GameSavedataExists ==> a != AddonPathStatus::PrefixExists
        }),
{
    law_rank_order(style, s);
    let r = spec_rank_and_dedupe(style, s);
    assert(ranked_before(r[i], r[j]));
}

/// The sort key of a candidate.
fn candidate_key(c: &AddonPathCandidate) -> (res: u8)
    ensures
        res == rank_key(c.deep_view()),
{
    (3 - c.status.rank()) * 8 + source_priority(c.source)
}

/// Whether some candidate of `v` has the path `p`.
fn contains_path(style: PathStyle, v: &Vec<AddonPathCandidate>, p: &String) -> (res: bool)
    ensures
        res == has_path(style, v.deep_view(), path_components(style, p@)),
{
    let mut i: usize = 0;
    while i < v.len()
        invariant
            i <= v.len(),
            forall|k: int| 0 <= k < i ==> place(style, v.deep_view()[k]) != path_components(style, p@),
        decreases v.len() - i,
    {
        if same_path_exec(style, v[i].path.as_str(), p.as_str()) {
            assert(place(style, v.deep_view()[i as int]) == path_components(style, p@));
            return true;
        }
        i += 1;
    }
    false
}

/// Sorts the candidates from the most to the least usable (a higher status
/// first, then a lower source priority, keeping the given order between
/// equals) and keeps only the first candidate of each path.
pub fn rank_and_dedupe(style: PathStyle, candidates: &mut Vec<AddonPathCandidate>)
    ensures
        final(candidates).deep_view() == spec_rank_and_dedupe(style, old(candidates).deep_view()),
{
    let mut input: Vec<AddonPathCandidate> = Vec::new();
    std::mem::swap(&mut input, candidates);
    let ghost orig = input.deep_view();
    let n0: usize = input.len();
    let ghost n = orig.len();
    assert(n == n0);
    let mut sorted: Vec<AddonPathCandidate> = Vec::new();
    let mut i: usize = 0;
    assert(orig.skip(0) =~= orig);
    while input.len() > 0
        invariant
            n == orig.len(),
            n <= usize::MAX,
            i + input.len() == n,
            input.deep_view() == orig.skip(i as int),
            sorted.deep_view() == sort_ranked(orig.take(i as int)),
        decreases input.len(),
    {
        let ghost before = input.deep_view();
        let x = input.remove(0);
        assert(input.deep_view() =~= before.drop_first());
        assert(before[0] == x.deep_view());
        assert(orig.skip(i as int)[0] == orig[i as int]);
        assert(orig.skip(i as int).drop_first() =~= orig.skip(i + 1));
        let k: u8 = candidate_key(&x);
        let ghost t = sorted.deep_view();
        let mut p: usize = sorted.len();
        assert(t.take(p as int) =~= t);
        while p > 0 && candidate_key(&sorted[p - 1]) > k
            invariant
                p <= sorted.len(),
                t == sorted.deep_view(),
                insert_pos(t, k as int) == insert_pos(t.take(p as int), k as int),
            decreases p,
        {
            assert(t.take(p as int).drop_last() =~= t.take(p - 1));
            p -= 1;
        }
        if p > 0 {
            assert(t.take(p as int).last() == t[p - 1]);
        }
        assert(insert_pos(t, k as int) == p);
        sorted.insert(p, x);
        assert(sorted.deep_view() =~= t.insert(p as int, x.deep_view()));
        assert(orig.take(i + 1).drop_last() =~= orig.take(i as int));
        assert(orig.take(i + 1).last() == orig[i as int]);
        i += 1;
    }
    assert(orig.take(n as int) =~= orig);
    let ghost sv = sorted.deep_view();
    let m0: usize = sorted.len();
    assert(sv.len() == m0);
    let mut out: Vec<AddonPathCandidate> = Vec::new();
    let mut j: usize = 0;
    assert(sv.skip(0) =~= sv);
    while sorted.len() > 0
        invariant
            sv.len() <= usize::MAX,
            j + sorted.len() == sv.len(),
            sorted.deep_view() == sv.skip(j as int),
            out.deep_view() == dedupe_paths(style, sv.take(j as int)),
        decreases sorted.len(),
    {
        let ghost before = sorted.deep_view();
        let x = sorted.remove(0);
        assert(sorted.deep_view() =~= before.drop_first());
        assert(before[0] == x.deep_view());
        assert(sv.skip(j as int)[0] == sv[j as int]);
        assert(sv.skip(j as int).drop_first() =~= sv.skip(j + 1));
        assert(sv.take(j + 1).drop_last() =~= sv.take(j as int));
        assert(sv.take(j + 1).last() == sv[j as int]);
        let ghost o = out.deep_view();
        if !contains_path(style, &out, &x.path) {
            out.push(x);
            assert(out.deep_view() =~= o.push(x.deep_view()));
        }
        j += 1;
    }
    assert(sv.take(sv.len() as int) =~= sv);
    *candidates = out;
}

} // verus!
