//! Orders and selections over integer keys: the stable sorts the optimizer
//! takes from `itertools` and `std`, and the first-minimum / last-maximum
//! selections that `Iterator::min_by_key` and `Iterator::max_by_key` make.
use vstd::prelude::*;
use itertools::Itertools;

verus! {

broadcast use vstd::seq_lib::group_seq_properties;

/// Every id of `ids` indexes `keys`.
pub open spec fn ids_index_keys(ids: Seq<usize>, keys: Seq<u64>) -> bool {
    forall|i: int| 0 <= i < ids.len() ==> (#[trigger] ids[i] as int) < keys.len()
}

/// The predicate "has key `k`" over ids.
pub open spec fn has_key(keys: Seq<u64>, k: u64) -> spec_fn(usize) -> bool {
    |x: usize| keys[x as int] == k
}

/// `r` lists its ids in ascending key order.
pub open spec fn ascending_by(r: Seq<usize>, keys: Seq<u64>) -> bool {
    forall|i: int, j: int|
        0 <= i < j < r.len() ==> keys[#[trigger] r[i] as int] <= keys[#[trigger] r[j] as int]
}

/// `r` lists its ids in descending key order.
pub open spec fn descending_by(r: Seq<usize>, keys: Seq<u64>) -> bool {
    forall|i: int, j: int|
        0 <= i < j < r.len() ==> keys[#[trigger] r[i] as int] >= keys[#[trigger] r[j] as int]
}

/// Ids with equal keys keep, in `r`, the order they have in `s`.
pub open spec fn keeps_ties(r: Seq<usize>, s: Seq<usize>, keys: Seq<u64>) -> bool {
    forall|k: u64| #[trigger] r.filter(has_key(keys, k)) == s.filter(has_key(keys, k))
}

/// `r` is `s` sorted stably in ascending key order.
pub open spec fn is_stable_ascending(r: Seq<usize>, s: Seq<usize>, keys: Seq<u64>) -> bool {
    &&& r.to_multiset() == s.to_multiset()
    &&& ascending_by(r, keys)
    &&& keeps_ties(r, s, keys)
}

/// `r` is `s` sorted stably in descending key order.
pub open spec fn is_stable_descending(r: Seq<usize>, s: Seq<usize>, keys: Seq<u64>) -> bool {
    &&& r.to_multiset() == s.to_multiset()
    &&& descending_by(r, keys)
    &&& keeps_ties(r, s, keys)
}

/// The key of `id`; the closures handed to the sorts call it.
pub fn key_at(keys: &Vec<u64>, id: usize) -> (k: u64)
    requires
        id < keys.len(),
    ensures
        k == keys@[id as int],
{
    keys[id]
}

/// `Itertools::sorted_by_key` on ids, keyed by `keys`. The itertools
/// documentation states that this sort is stable and ascending; the contract
/// claims exactly that: the result is a permutation of `ids`, ascending by
/// key, with ids of equal key in their input order.
#[verifier::external_body]
pub(crate) fn itertools_sorted_by_key(ids: Vec<usize>, keys: &Vec<u64>) -> (r: Vec<usize>)
    requires
        ids_index_keys(ids@, keys@),
    ensures
        is_stable_ascending(r@, ids@, keys@),
{
    ids.into_iter().sorted_by_key(|id| key_at(keys, *id)).collect()
}

/// `Itertools::sorted_by_cached_key` on ids, keyed by `keys`. The itertools
/// documentation states that this sort is stable and ascending (and calls the
/// key function once per element); the contract claims the stable ascending
/// order.
#[verifier::external_body]
pub(crate) fn itertools_sorted_by_cached_key(ids: Vec<usize>, keys: &Vec<u64>) -> (r: Vec<usize>)
    requires
        ids_index_keys(ids@, keys@),
    ensures
        is_stable_ascending(r@, ids@, keys@),
{
    ids.into_iter().sorted_by_cached_key(|id| key_at(keys, *id)).collect()
}

/// `slice::sort_by_key` on ids, keyed by `keys`. The std documentation states
/// that this sort is stable and ascending; the contract claims exactly that.
#[verifier::external_body]
pub(crate) fn slice_sort_by_key(ids: &mut Vec<usize>, keys: &Vec<u64>)
    requires
        ids_index_keys(old(ids)@, keys@),
    ensures
        is_stable_ascending(final(ids)@, old(ids)@, keys@),
{
    ids.sort_by_key(|id| key_at(keys, *id));
}

/// The ids `0..n` in order.
pub open spec fn id_range(n: nat) -> Seq<usize> {
    Seq::new(n, |i: int| i as usize)
}

/// Filters by two predicates that agree on every element are equal.
pub proof fn lemma_filter_congruent(s: Seq<usize>, p: spec_fn(usize) -> bool, q: spec_fn(usize) -> bool)
    requires
        forall|i: int| 0 <= i < s.len() ==> p(#[trigger] s[i]) == q(s[i]),
    ensures
        s.filter(p) == s.filter(q),
    decreases s.len(),
{
    reveal(Seq::filter);
    if s.len() > 0 {
        lemma_filter_congruent(s.drop_last(), p, q);
    }
}

/// An element of a permutation of `s` is an element of `s`.
pub proof fn lemma_permutation_elements(r: Seq<usize>, s: Seq<usize>)
    requires
        r.to_multiset() == s.to_multiset(),
    ensures
        forall|i: int| 0 <= i < r.len() ==> s.contains(#[trigger] r[i]),
        r.len() == s.len(),
{
    broadcast use vstd::seq_lib::group_to_multiset_ensures;
    assert forall|i: int| 0 <= i < r.len() implies s.contains(#[trigger] r[i]) by {
        assert(r.contains(r[i]));
        assert(r.to_multiset().count(r[i]) > 0);
    }
    assert(r.len() == r.to_multiset().len());
    assert(s.len() == s.to_multiset().len());
}

/// The ids below `n` that satisfy `p`, in order, are exactly those ids.
pub proof fn lemma_id_filter_members(n: nat, p: spec_fn(usize) -> bool)
    ensures
        forall|i: int|
            0 <= i < id_range(n).filter(p).len() ==> (#[trigger] id_range(n).filter(p)[i] as int)
                < n && p(id_range(n).filter(p)[i]),
        forall|x: usize| (x as int) < n && p(x) ==> #[trigger] id_range(n).filter(p).contains(x),
{
    broadcast use vstd::seq_lib::group_filter_ensures;
    let ids = id_range(n);
    let s = ids.filter(p);
    assert forall|i: int| 0 <= i < s.len() implies (#[trigger] s[i] as int) < n && p(s[i]) by {
        ids.lemma_filter_pred(p, i);
        ids.lemma_filter_contains_rev(p, s[i]);
    }
    assert forall|x: usize| (x as int) < n && p(x) implies #[trigger] s.contains(x) by {
        assert(ids[x as int] == x);
        ids.lemma_filter_contains(p, x as int);
    }
}

/// A stable ascending sort of the ids below `n` that satisfy `p` holds
/// exactly those ids, and its first id has the least key among them.
pub proof fn lemma_sorted_selection(r: Seq<usize>, n: nat, p: spec_fn(usize) -> bool, keys: Seq<u64>)
    requires
        is_stable_ascending(r, id_range(n).filter(p), keys),
    ensures
        forall|i: int| 0 <= i < r.len() ==> (#[trigger] r[i] as int) < n && p(r[i]),
        forall|x: usize| (x as int) < n && p(x) ==> #[trigger] r.contains(x),
        forall|x: usize| (x as int) < n && p(x) ==> keys[r[0] as int] <= #[trigger] keys[x as int],
{
    broadcast use vstd::seq_lib::group_to_multiset_ensures;
    broadcast use vstd::seq_lib::group_filter_ensures;
    let ids = id_range(n);
    let s = ids.filter(p);
    lemma_permutation_elements(r, s);
    assert forall|i: int| 0 <= i < r.len() implies (#[trigger] r[i] as int) < n && p(r[i]) by {
        assert(s.contains(r[i]));
        let k = choose|k: int| 0 <= k < s.len() && s[k] == r[i];
        ids.lemma_filter_pred(p, k);
        ids.lemma_filter_contains_rev(p, s[k]);
    }
    assert forall|x: usize| (x as int) < n && p(x) implies #[trigger] r.contains(x) by {
        assert(ids[x as int] == x);
        assert(s.contains(ids[x as int]));
        assert(s.to_multiset().count(x) > 0);
        assert(r.to_multiset().count(x) > 0);
    }
    assert forall|x: usize| (x as int) < n && p(x) implies keys[r[0] as int]
        <= #[trigger] keys[x as int] by {
        assert(r.contains(x));
        let j = choose|j: int| 0 <= j < r.len() && r[j] == x;
        if j > 0 {
            assert(keys[r[0] as int] <= keys[r[j] as int]);
        }
    }
}

/// The complement key of `k` within `u64`.
pub open spec fn flip(k: u64) -> u64 {
    (u64::MAX - k) as u64
}

/// Keys in reverse order: `flip(keys[i])` at each position.
pub fn flipped_keys(keys: &Vec<u64>) -> (r: Vec<u64>)
    ensures
        r.len() == keys.len(),
        forall|i: int| 0 <= i < keys.len() ==> #[trigger] r@[i] == flip(keys@[i]),
{
    let mut r: Vec<u64> = Vec::new();
    let mut i: usize = 0;
    while i < keys.len()
        invariant
            i <= keys.len(),
            r.len() == i,
            forall|j: int| 0 <= j < i ==> #[trigger] r@[j] == flip(keys@[j]),
        decreases keys.len() - i,
    {
        r.push(u64::MAX - keys[i]);
        i = i + 1;
    }
    r
}

/// A stable ascending sort by flipped keys is a stable descending sort by
/// the keys themselves.
pub proof fn lemma_flipped_ascending_is_descending(
    r: Seq<usize>,
    s: Seq<usize>,
    keys: Seq<u64>,
    flipped: Seq<u64>,
)
    requires
        ids_index_keys(s, keys),
        flipped.len() == keys.len(),
        forall|i: int| 0 <= i < keys.len() ==> #[trigger] flipped[i] == flip(keys[i]),
        is_stable_ascending(r, s, flipped),
    ensures
        is_stable_descending(r, s, keys),
{
    lemma_permutation_elements(r, s);
    assert forall|i: int| 0 <= i < r.len() implies (#[trigger] r[i] as int) < keys.len() by {
        assert(s.contains(r[i]));
    }
    assert forall|i: int, j: int| 0 <= i < j < r.len() implies keys[#[trigger] r[i] as int]
        >= keys[#[trigger] r[j] as int] by {
        assert(flipped[r[i] as int] <= flipped[r[j] as int]);
    }
    assert forall|k: u64| #[trigger] r.filter(has_key(keys, k)) == s.filter(has_key(keys, k)) by {
        let k2 = flip(k);
        assert(r.filter(has_key(flipped, k2)) == s.filter(has_key(flipped, k2)));
        lemma_filter_congruent(r, has_key(keys, k), has_key(flipped, k2));
        lemma_filter_congruent(s, has_key(keys, k), has_key(flipped, k2));
    }
}

/// A filter by a predicate that no element satisfies is empty.
pub proof fn lemma_filter_none(s: Seq<usize>, p: spec_fn(usize) -> bool)
    requires
        forall|i: int| 0 <= i < s.len() ==> !p(#[trigger] s[i]),
    ensures
        s.filter(p) == Seq::<usize>::empty(),
    decreases s.len(),
{
    reveal(Seq::filter);
    if s.len() > 0 {
        lemma_filter_none(s.drop_last(), p);
    }
}

/// Dropping the head `x` of a stable descending sort of `s` gives a stable
/// descending sort of `s` without its first element of key `keys[x]`, when
/// that element (at `i`) is `x`.
proof fn lemma_tail_of_stable_descending(r: Seq<usize>, s: Seq<usize>, keys: Seq<u64>, i: int)
    requires
        is_stable_descending(r, s, keys),
        r.len() > 0,
        0 <= i < s.len(),
        s[i] == r[0],
        forall|j: int| 0 <= j < i ==> !has_key(keys, keys[r[0] as int])(#[trigger] s[j]),
    ensures
        is_stable_descending(r.drop_first(), s.remove(i), keys),
{
    broadcast use vstd::seq_lib::group_to_multiset_ensures;
    let x = r[0];
    let k = keys[x as int];
    let t = r.drop_first();
    let head = s.take(i);
    let tail = s.skip(i + 1);
    let s2 = s.remove(i);
    assert(s =~= head + (seq![x] + tail));
    assert(s2 =~= head + tail);
    assert(r =~= seq![x] + t);
    assert(s2.to_multiset() == s.to_multiset().remove(x));
    assert(r.to_multiset() == t.to_multiset().insert(x)) by {
        assert(r =~= t.insert(0, x));
    }
    assert(t.to_multiset() =~= s2.to_multiset());
    lemma_filter_none(head, has_key(keys, k));
    assert forall|q: u64| #[trigger] t.filter(has_key(keys, q)) == s2.filter(has_key(keys, q)) by {
        let pq = has_key(keys, q);
        t.lemma_filter_prepend(x, pq);
        tail.lemma_filter_prepend(x, pq);
        assert(r.filter(pq) == s.filter(pq));
        assert(s.filter(pq) == head.filter(pq) + (seq![x] + tail).filter(pq));
        assert(s2.filter(pq) == head.filter(pq) + tail.filter(pq));
        if q == k {
            assert(t.filter(pq) =~= r.filter(pq).drop_first());
            assert(s2.filter(pq) =~= s.filter(pq).drop_first());
        } else {
            assert(t.filter(pq) =~= r.filter(pq));
            assert(s2.filter(pq) =~= s.filter(pq));
        }
    }
    assert forall|a: int, b: int| 0 <= a < b < t.len() implies keys[#[trigger] t[a] as int]
        >= keys[#[trigger] t[b] as int] by {
        assert(t[a] == r[a + 1] && t[b] == r[b + 1]);
    }
}

/// Two stable descending sorts of the same non-empty sequence start with
/// the same element.
proof fn lemma_stable_descending_same_head(r1: Seq<usize>, r2: Seq<usize>, s: Seq<usize>, keys: Seq<
    u64,
>)
    requires
        is_stable_descending(r1, s, keys),
        is_stable_descending(r2, s, keys),
        s.len() > 0,
    ensures
        r1.len() == s.len(),
        r2.len() == s.len(),
        r1[0] == r2[0],
{
    broadcast use vstd::seq_lib::group_to_multiset_ensures;
    lemma_permutation_elements(r1, s);
    lemma_permutation_elements(r2, s);
    let x1 = r1[0];
    let x2 = r2[0];
    assert(r2.to_multiset() == r1.to_multiset());
    lemma_permutation_elements(r2, r1);
    lemma_permutation_elements(r1, r2);
    assert(r1.contains(x2));
    let j1 = choose|j: int| 0 <= j < r1.len() && r1[j] == x2;
    assert(r2.contains(x1));
    let j2 = choose|j: int| 0 <= j < r2.len() && r2[j] == x1;
    if j1 > 0 {
        assert(keys[r1[0] as int] >= keys[r1[j1] as int]);
    }
    if j2 > 0 {
        assert(keys[r2[0] as int] >= keys[r2[j2] as int]);
    }
    let k = keys[x1 as int];
    assert(keys[x2 as int] == k);
    let pk = has_key(keys, k);
    let t1 = r1.drop_first();
    let t2 = r2.drop_first();
    assert(r1 =~= seq![x1] + t1);
    assert(r2 =~= seq![x2] + t2);
    t1.lemma_filter_prepend(x1, pk);
    t2.lemma_filter_prepend(x2, pk);
    assert(r1.filter(pk) == r2.filter(pk));
    assert(r1.filter(pk)[0] == x1);
    assert(r2.filter(pk)[0] == x2);
}

/// The head of a stable descending sort is the first element of the sorted
/// sequence that has the head's key: there is an index `i` of `s` holding
/// it with no element of that key before.
proof fn lemma_head_is_first_of_its_key(r: Seq<usize>, s: Seq<usize>, keys: Seq<u64>) -> (i: int)
    requires
        is_stable_descending(r, s, keys),
        s.len() > 0,
    ensures
        0 <= i < s.len(),
        s[i] == r[0],
        forall|j: int| 0 <= j < i ==> !has_key(keys, keys[r[0] as int])(#[trigger] s[j]),
{
    broadcast use vstd::seq_lib::group_to_multiset_ensures;
    lemma_permutation_elements(r, s);
    let x = r[0];
    let pk = has_key(keys, keys[x as int]);
    let t = r.drop_first();
    assert(r =~= seq![x] + t);
    t.lemma_filter_prepend(x, pk);
    assert(r.filter(pk)[0] == x);
    assert(s.contains(x));
    let w = choose|w: int| 0 <= w < s.len() && s[w] == x;
    lemma_first_satisfying(s, pk, w);
    let i = choose|i: int| 0 <= i < s.len() && pk(s[i]) && forall|j: int| 0 <= j < i ==> !pk(#[trigger] s[j]);
    let head = s.take(i);
    let tail = s.skip(i + 1);
    assert(s =~= head + (seq![s[i]] + tail));
    lemma_filter_none(head, pk);
    tail.lemma_filter_prepend(s[i], pk);
    assert(s.filter(pk) == head.filter(pk) + (seq![s[i]] + tail).filter(pk));
    assert(s.filter(pk) =~= seq![s[i]] + tail.filter(pk));
    i
}

/// Stable descending sorts are unique: two stable descending sorts of the
/// same sequence by the same keys are equal.
#[verifier::spinoff_prover]
pub proof fn lemma_stable_descending_unique(r1: Seq<usize>, r2: Seq<usize>, s: Seq<usize>, keys: Seq<
    u64,
>)
    requires
        is_stable_descending(r1, s, keys),
        is_stable_descending(r2, s, keys),
    ensures
        r1 == r2,
    decreases s.len(),
{
    if s.len() == 0 {
        lemma_permutation_elements(r1, s);
        lemma_permutation_elements(r2, s);
        assert(r1 =~= r2);
        return;
    }
    lemma_stable_descending_same_head(r1, r2, s, keys);
    let i = lemma_head_is_first_of_its_key(r1, s, keys);
    lemma_tail_of_stable_descending(r1, s, keys, i);
    lemma_tail_of_stable_descending(r2, s, keys, i);
    lemma_stable_descending_unique(r1.drop_first(), r2.drop_first(), s.remove(i), keys);
    assert(r1 =~= seq![r1[0]] + r1.drop_first());
    assert(r2 =~= seq![r2[0]] + r2.drop_first());
}

/// Every key flipped.
pub open spec fn flip_all(keys: Seq<u64>) -> Seq<u64> {
    keys.map_values(|k: u64| flip(k))
}

/// A stable ascending sort is a stable descending sort by flipped keys.
pub proof fn lemma_ascending_is_flipped_descending(r: Seq<usize>, s: Seq<usize>, keys: Seq<u64>)
    requires
        ids_index_keys(s, keys),
        is_stable_ascending(r, s, keys),
    ensures
        is_stable_descending(r, s, flip_all(keys)),
{
    let f = flip_all(keys);
    lemma_permutation_elements(r, s);
    assert forall|i: int| 0 <= i < r.len() implies (#[trigger] r[i] as int) < keys.len() by {
        assert(s.contains(r[i]));
    }
    assert forall|i: int, j: int| 0 <= i < j < r.len() implies f[#[trigger] r[i] as int]
        >= f[#[trigger] r[j] as int] by {
        assert(keys[r[i] as int] <= keys[r[j] as int]);
    }
    assert forall|q: u64| #[trigger] r.filter(has_key(f, q)) == s.filter(has_key(f, q)) by {
        let q2 = flip(q);
        assert(r.filter(has_key(keys, q2)) == s.filter(has_key(keys, q2)));
        lemma_filter_congruent(r, has_key(f, q), has_key(keys, q2));
        lemma_filter_congruent(s, has_key(f, q), has_key(keys, q2));
    }
}

/// Stable ascending sorts are unique: two stable ascending sorts of the
/// same ids by the same keys are equal.
pub proof fn lemma_stable_ascending_unique(r1: Seq<usize>, r2: Seq<usize>, s: Seq<usize>, keys: Seq<
    u64,
>)
    requires
        ids_index_keys(s, keys),
        is_stable_ascending(r1, s, keys),
        is_stable_ascending(r2, s, keys),
    ensures
        r1 == r2,
{
    lemma_ascending_is_flipped_descending(r1, s, keys);
    lemma_ascending_is_flipped_descending(r2, s, keys);
    lemma_stable_descending_unique(r1, r2, s, flip_all(keys));
}

/// If some element satisfies `p`, there is a first one.
pub proof fn lemma_first_satisfying(s: Seq<usize>, p: spec_fn(usize) -> bool, w: int)
    requires
        0 <= w < s.len(),
        p(s[w]),
    ensures
        exists|i: int| 0 <= i < s.len() && p(s[i]) && forall|j: int| 0 <= j < i ==> !p(#[trigger] s[j]),
    decreases w,
{
    if exists|j: int| 0 <= j < w && p(#[trigger] s[j]) {
        let j = choose|j: int| 0 <= j < w && p(#[trigger] s[j]);
        lemma_first_satisfying(s, p, j);
    } else {
        assert(forall|j: int| 0 <= j < w ==> !p(#[trigger] s[j]));
    }
}

/// Whether `v` holds `x`.
pub fn vec_contains(v: &Vec<u64>, x: u64) -> (b: bool)
    ensures
        b == v@.contains(x),
{
    let mut i: usize = 0;
    while i < v.len()
        invariant
            i <= v.len(),
            forall|j: int| 0 <= j < i ==> #[trigger] v@[j] != x,
        decreases v.len() - i,
    {
        if v[i] == x {
            return true;
        }
        i = i + 1;
    }
    false
}

/// Index of the first minimum among the eligible positions.
pub open spec fn is_first_min_eligible(i: int, keys: Seq<u64>, eligible: Seq<bool>) -> bool {
    &&& 0 <= i < keys.len()
    &&& eligible[i]
    &&& forall|j: int| 0 <= j < keys.len() && eligible[j] ==> keys[i] <= #[trigger] keys[j]
    &&& forall|j: int| 0 <= j < i && eligible[j] ==> keys[i] < #[trigger] keys[j]
}

pub open spec fn any_eligible(eligible: Seq<bool>) -> bool {
    exists|j: int| 0 <= j < eligible.len() && #[trigger] eligible[j]
}

/// The first position with the least key among the eligible ones, as
/// `Iterator::min_by_key` returns it after a filter; `None` when no position
/// is eligible.
pub fn first_min_eligible(keys: &Vec<u64>, eligible: &Vec<bool>) -> (r: Option<usize>)
    requires
        keys.len() == eligible.len(),
    ensures
        r is None <==> !any_eligible(eligible@),
        r matches Some(i) ==> is_first_min_eligible(i as int, keys@, eligible@),
{
    let mut best: Option<usize> = None;
    let mut i: usize = 0;
    while i < keys.len()
        invariant
            keys.len() == eligible.len(),
            i <= keys.len(),
            best is None <==> (forall|j: int| 0 <= j < i ==> !#[trigger] eligible@[j]),
            best matches Some(b) ==> {
                &&& b < i
                &&& eligible@[b as int]
                &&& forall|j: int| 0 <= j < i && eligible@[j] ==> keys@[b as int] <= #[trigger] keys@[j]
                &&& forall|j: int| 0 <= j < b && eligible@[j] ==> keys@[b as int] < #[trigger] keys@[j]
            },
        decreases keys.len() - i,
    {
        if eligible[i] {
            match best {
                None => {
                    best = Some(i);
                },
                Some(b) => {
                    if keys[i] < keys[b] {
                        best = Some(i);
                    }
                },
            }
        }
        i = i + 1;
    }
    best
}

/// Index of the last maximum.
pub open spec fn is_last_max(i: int, keys: Seq<u64>) -> bool {
    &&& 0 <= i < keys.len()
    &&& forall|j: int| 0 <= j < keys.len() ==> #[trigger] keys[j] <= keys[i]
    &&& forall|j: int| i < j < keys.len() ==> #[trigger] keys[j] < keys[i]
}

/// The last position with the greatest key, as `Iterator::max_by_key`
/// returns it; `None` for no keys.
pub fn last_max(keys: &Vec<u64>) -> (r: Option<usize>)
    ensures
        r is None <==> keys.len() == 0,
        r matches Some(i) ==> is_last_max(i as int, keys@),
{
    if keys.len() == 0 {
        return None;
    }
    let mut best: usize = 0;
    let mut i: usize = 1;
    while i < keys.len()
        invariant
            1 <= i <= keys.len(),
            best < i,
            forall|j: int| 0 <= j < i ==> #[trigger] keys@[j] <= keys@[best as int],
            forall|j: int| best < j < i ==> #[trigger] keys@[j] < keys@[best as int],
        decreases keys.len() - i,
    {
        if keys[i] >= keys[best] {
            best = i;
        }
        i = i + 1;
    }
    Some(best)
}

} // verus!
