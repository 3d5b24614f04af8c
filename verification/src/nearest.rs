//! Picking what is nearest: sorting by distance and cutting off.

use crate::geometry::IVec3;
use vstd::prelude::*;

verus! {

/// Whether the keys of a sequence do not decrease.
pub open spec fn sorted<T>(s: Seq<(u128, T)>) -> bool {
    forall|i: int, j: int| 0 <= i <= j < s.len() ==> (#[trigger] s[i]).0 <= (#[trigger] s[j]).0
}

/// Puts an item into a sorted sequence, behind all items whose key is not
/// larger.
pub open spec fn placed<T>(s: Seq<(u128, T)>, x: (u128, T)) -> Seq<(u128, T)>
    decreases s.len(),
{
    if s.len() == 0 || s.last().0 <= x.0 {
        s.push(x)
    } else {
        placed(s.drop_last(), x).push(s.last())
    }
}

/// The stable sort of a sequence by its keys: items with equal keys keep
/// their order.
pub open spec fn stable_sort<T>(s: Seq<(u128, T)>) -> Seq<(u128, T)>
    decreases s.len(),
{
    if s.len() == 0 {
        s
    } else {
        placed(stable_sort(s.drop_last()), s.last())
    }
}

/// Sorts by key with `slice::sort_by_key` of the standard library, which is
/// documented to be a stable sort: the result is ordered by the key, and items
/// with equal keys stay in the order they had.
#[verifier::external_body]
pub(crate) fn sort_by_key<T>(items: &mut Vec<(u128, T)>)
    ensures
        final(items)@ == stable_sort(old(items)@),
{
    items.sort_by_key(|item| item.0);
}

proof fn lemma_placed<T>(s: Seq<(u128, T)>, x: (u128, T))
    requires
        sorted(s),
    ensures
        sorted(placed(s, x)),
        placed(s, x).len() == s.len() + 1,
        placed(s, x).to_multiset() == s.to_multiset().insert(x),
        forall|i: int| 0 <= i < placed(s, x).len() ==> (#[trigger] placed(s, x)[i]) == x || s.contains(placed(s, x)[i]),
    decreases s.len(),
{
    broadcast use vstd::seq_lib::group_to_multiset_ensures;

    if s.len() == 0 || s.last().0 <= x.0 {
        assert(placed(s, x) == s.push(x));
    } else {
        let rest = s.drop_last();
        lemma_placed(rest, x);
        let p = placed(rest, x);
        assert(rest.push(s.last()) =~= s);
        assert(p.push(s.last()).to_multiset() == p.to_multiset().insert(s.last()));
        assert(s.to_multiset() == rest.to_multiset().insert(s.last()));
        assert(p.to_multiset().insert(s.last()) =~= s.to_multiset().insert(x));
        assert forall|i: int| 0 <= i < p.len() implies (#[trigger] p[i]).0 <= s.last().0 by {
            if p[i] != x {
                assert(rest.contains(p[i]));
            }
        }
        assert forall|i: int| 0 <= i < p.push(s.last()).len() implies (#[trigger] p.push(s.last())[i])
            == x || s.contains(p.push(s.last())[i]) by {
            if i < p.len() {
                assert(p.push(s.last())[i] == p[i]);
                if p[i] != x {
                    let k = choose|k: int| 0 <= k < rest.len() && rest[k] == p[i];
                    assert(s[k] == p[i]);
                }
            } else {
                assert(s[s.len() - 1] == s.last());
            }
        }
    }
}

/// A stable sort is sorted and holds the same items.
pub proof fn lemma_stable_sort<T>(s: Seq<(u128, T)>)
    ensures
        sorted(stable_sort(s)),
        stable_sort(s).len() == s.len(),
        stable_sort(s).to_multiset() == s.to_multiset(),
    decreases s.len(),
{
    broadcast use vstd::seq_lib::group_to_multiset_ensures;

    if s.len() > 0 {
        lemma_stable_sort(s.drop_last());
        lemma_placed(stable_sort(s.drop_last()), s.last());
        assert(s.drop_last().push(s.last()) =~= s);
    }
}

/// The square of the distance between two positions.
pub open spec fn distance_sq(a: IVec3, b: IVec3) -> int {
    (a.x - b.x) * (a.x - b.x) + (a.y - b.y) * (a.y - b.y) + (a.z - b.z) * (a.z - b.z)
}

/// The square of a difference of coordinates.
pub fn square(d: i64) -> (s: u128)
    requires
        -0x1_0000_0000 <= d <= 0x1_0000_0000,
    ensures
        s == d * d,
        s <= 0x1_0000_0000_0000_0000,
{
    let m: u128 = if d < 0 { (-d) as u128 } else { d as u128 };
    assert(m * m == d * d && 0 <= m * m <= 0x1_0000_0000_0000_0000) by (nonlinear_arith)
        requires
            m == d || m == -d,
            0 <= m <= 0x1_0000_0000,
    ;
    m * m
}

/// The square of the distance between two positions.
pub fn chunk_distance_sq(a: IVec3, b: IVec3) -> (d: u128)
    ensures
        d == distance_sq(a, b),
{
    square(a.x as i64 - b.x as i64) + square(a.y as i64 - b.y as i64) + square(
        a.z as i64 - b.z as i64,
    )
}

/// Items with their keys.
pub open spec fn keyed<T>(items: Seq<T>, key: spec_fn(T) -> int) -> Seq<(u128, T)> {
    items.map_values(|p: T| (key(p) as u128, p))
}

/// The first `k` items of a list of keyed items in the order of their keys.
pub open spec fn first_of<T>(items: Seq<(u128, T)>, k: int) -> Seq<T> {
    let all = stable_sort(items).map_values(|e: (u128, T)| e.1);
    if k < all.len() {
        all.take(k)
    } else {
        all
    }
}

/// Whether `chosen` lists, smallest key first, up to `k` members of `set`,
/// and leaves a member out only where `k` others are chosen whose keys are no
/// larger.
pub open spec fn is_least<T>(
    chosen: Seq<T>,
    set: Set<T>,
    key: spec_fn(T) -> int,
    k: int,
) -> bool {
    &&& chosen.no_duplicates()
    &&& chosen.len() <= k
    &&& forall|i: int| 0 <= i < chosen.len() ==> set.contains(#[trigger] chosen[i])
    &&& forall|i: int, j: int|
        0 <= i <= j < chosen.len() ==> key(#[trigger] chosen[i]) <= key(#[trigger] chosen[j])
    &&& forall|p: T| #[trigger]
        set.contains(p) && !chosen.contains(p) ==> {
            &&& chosen.len() == k
            &&& forall|i: int| 0 <= i < chosen.len() ==> key(#[trigger] chosen[i]) <= key(p)
        }
}

/// The distance from `center` as a key.
pub open spec fn from_center(center: IVec3) -> spec_fn(IVec3) -> int {
    |p: IVec3| distance_sq(p, center)
}

/// Whether `chosen` lists, nearest first, up to `k` members of `set`, and
/// leaves a member out only where `k` others are chosen that are no farther.
pub open spec fn is_nearest(chosen: Seq<IVec3>, set: Set<IVec3>, center: IVec3, k: int) -> bool {
    is_least(chosen, set, from_center(center), k)
}

/// The first items of a list without repetitions are the least of its set.
pub proof fn lemma_first_is_least<T>(items: Seq<T>, key: spec_fn(T) -> int, k: int)
    requires
        items.no_duplicates(),
        k >= 0,
        forall|p: T| 0 <= #[trigger] key(p) <= u128::MAX,
    ensures
        is_least(first_of(keyed(items, key), k), items.to_set(), key, k),
{
    broadcast use vstd::seq_lib::group_to_multiset_ensures;

    let given = keyed(items, key);
    let all = stable_sort(given);
    lemma_stable_sort(given);
    let chosen = first_of(given, k);
    assert(given.no_duplicates());
    given.lemma_multiset_has_no_duplicates();
    all.lemma_multiset_has_no_duplicates_conv();
    assert forall|i: int| 0 <= i < all.len() implies items.contains((#[trigger] all[i]).1)
        && all[i].0 == key(all[i].1) by {
        assert(all.to_multiset().contains(all[i]));
        assert(given.contains(all[i]));
        let j = choose|j: int| 0 <= j < given.len() && given[j] == all[i];
        assert(items[j] == all[i].1);
    }
    assert forall|i: int| 0 <= i < chosen.len() implies items.to_set().contains(
        #[trigger] chosen[i],
    ) && chosen[i] == all[i].1 by {
        assert(chosen[i] == all[i].1);
    }
    assert forall|i: int, j: int| 0 <= i < j < chosen.len() implies chosen[i] != chosen[j] by {
        assert(all[i] != all[j]);
    }
    assert forall|p: T| #[trigger]
        items.to_set().contains(p) && !chosen.contains(p) implies chosen.len() == k && (forall|
        i: int,
    | 0 <= i < chosen.len() ==> key(#[trigger] chosen[i]) <= key(p)) by {
        let j = choose|j: int| 0 <= j < items.len() && items[j] == p;
        assert(given[j] == (key(p) as u128, p));
        assert(given.contains(given[j]));
        assert(all.to_multiset().contains(given[j]));
        assert(all.contains(given[j]));
        let n = choose|n: int| 0 <= n < all.len() && all[n] == given[j];
        if n < chosen.len() {
            assert(chosen[n] == p);
        }
    }
}

/// Takes the first `k` items in the order of their keys.
pub(crate) fn take_first<T: Copy>(items: Vec<(u128, T)>, k: usize) -> (chosen: Vec<T>)
    ensures
        chosen@ == first_of(items@, k as int),
{
    let mut sorted_items = items;
    sort_by_key(&mut sorted_items);
    let mut chosen: Vec<T> = Vec::new();
    let mut m: usize = 0;
    while m < sorted_items.len() && m < k
        invariant
            m <= sorted_items@.len(),
            m <= k,
            chosen@ =~= sorted_items@.map_values(|e: (u128, T)| e.1).take(m as int),
        decreases sorted_items@.len() - m,
    {
        chosen.push(sorted_items[m].1);
        m += 1;
    }
    assert(chosen@ =~= first_of(items@, k as int));
    chosen
}

/// Distances fit the sort key.
pub proof fn lemma_distance_fits(a: IVec3, b: IVec3)
    ensures
        0 <= distance_sq(a, b) <= u128::MAX,
{
    lemma_square_fits(a.x - b.x);
    lemma_square_fits(a.y - b.y);
    lemma_square_fits(a.z - b.z);
}

proof fn lemma_square_fits(d: int)
    requires
        -0x1_0000_0000 <= d <= 0x1_0000_0000,
    ensures
        0 <= d * d <= 0x1_0000_0000_0000_0000,
{
    assert(0 <= d * d <= 0x1_0000_0000_0000_0000) by (nonlinear_arith)
        requires
            -0x1_0000_0000 <= d <= 0x1_0000_0000,
    ;
}

/// The `k` items nearest to `center`, nearest first; among equally distant
/// ones, those that come first.
pub fn nearest(items: &Vec<IVec3>, center: IVec3, k: usize) -> (chosen: Vec<IVec3>)
    ensures
        chosen@ == first_of(keyed(items@, from_center(center)), k as int),
        items@.no_duplicates() ==> is_nearest(chosen@, items@.to_set(), center, k as int),
{
    let mut keys: Vec<(u128, IVec3)> = Vec::new();
    let mut n: usize = 0;
    while n < items.len()
        invariant
            n <= items@.len(),
            keys@ =~= keyed(items@.take(n as int), from_center(center)),
        decreases items@.len() - n,
    {
        keys.push((chunk_distance_sq(items[n], center), items[n]));
        n += 1;
    }
    assert(items@.take(n as int) =~= items@);
    let chosen = take_first(keys, k);
    proof {
        if items@.no_duplicates() {
            let key = from_center(center);
            assert forall|p: IVec3| 0 <= #[trigger] key(p) <= u128::MAX by {
                lemma_distance_fits(p, center);
            }
            lemma_first_is_least(items@, key, k as int);
        }
    }
    chosen
}

/// Items with equal keys keep their order: where the items are numbered in
/// the order given, the sorted ones with equal keys are in the order of their
/// numbers.
pub proof fn law_equals_keep_their_order(s: Seq<(u128, usize)>)
    requires
        forall|i: int, j: int| 0 <= i < j < s.len() ==> (#[trigger] s[i]).1 < (#[trigger] s[j]).1,
    ensures
        forall|i: int, j: int|
            0 <= i < j < stable_sort(s).len() && stable_sort(s)[i].0 == stable_sort(s)[j].0 ==> (
            #[trigger] stable_sort(s)[i]).1 < (#[trigger] stable_sort(s)[j]).1,
    decreases s.len(),
{
    broadcast use vstd::seq_lib::group_to_multiset_ensures;

    if s.len() > 0 {
        let rest = s.drop_last();
        let t = stable_sort(rest);
        law_equals_keep_their_order(rest);
        lemma_stable_sort(rest);
        assert forall|i: int| 0 <= i < t.len() implies (#[trigger] t[i]).1 < s.last().1 by {
            assert(t.contains(t[i]));
            assert(t.to_multiset().count(t[i]) > 0);
            assert(rest.to_multiset().count(t[i]) > 0);
            assert(rest.contains(t[i]));
            let k = choose|k: int| 0 <= k < rest.len() && rest[k] == t[i];
            assert(s[k] == t[i]);
            assert(s[s.len() - 1] == s.last());
        }
        lemma_placed_behind_equals(t, s.last());
    }
}

proof fn lemma_placed_behind_equals(s: Seq<(u128, usize)>, x: (u128, usize))
    requires
        sorted(s),
        forall|i: int| 0 <= i < s.len() ==> (#[trigger] s[i]).1 < x.1,
        forall|i: int, j: int|
            0 <= i < j < s.len() && s[i].0 == s[j].0 ==> (#[trigger] s[i]).1 < (#[trigger] s[j]).1,
    ensures
        forall|i: int, j: int|
            0 <= i < j < placed(s, x).len() && placed(s, x)[i].0 == placed(s, x)[j].0 ==> (
            #[trigger] placed(s, x)[i]).1 < (#[trigger] placed(s, x)[j]).1,
    decreases s.len(),
{
    if s.len() > 0 && s.last().0 > x.0 {
        let rest = s.drop_last();
        lemma_placed_behind_equals(rest, x);
        lemma_placed(rest, x);
        let p = placed(rest, x);
        assert forall|i: int| 0 <= i < p.len() && (#[trigger] p[i]).0 == s.last().0 implies p[i].1
            < s.last().1 by {
            assert(rest.contains(p[i]));
            let k = choose|k: int| 0 <= k < rest.len() && rest[k] == p[i];
            assert(s[k] == p[i]);
            assert(s[s.len() - 1] == s.last());
        }
    }
}

} // verus!
