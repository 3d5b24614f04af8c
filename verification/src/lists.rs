//! Facts about sequences.

use vstd::prelude::*;

verus! {

/// What a sequence contains once an element is appended.
pub proof fn lemma_push_contains<T>(s: Seq<T>, x: T)
    ensures
        forall|y: T| #[trigger] s.push(x).contains(y) <==> s.contains(y) || y == x,
        !s.contains(x) && s.no_duplicates() ==> s.push(x).no_duplicates(),
{
    assert forall|y: T| #[trigger] s.push(x).contains(y) <==> s.contains(y) || y == x by {
        if s.contains(y) {
            let i = choose|i: int| 0 <= i < s.len() && s[i] == y;
            assert(s.push(x)[i] == y);
        }
        if y == x {
            assert(s.push(x)[s.len() as int] == y);
        }
    }
}

/// Filtering nothing gives nothing.
pub proof fn lemma_filter_empty<T>(s: Seq<T>, pred: spec_fn(T) -> bool)
    requires
        s.len() == 0,
    ensures
        s.filter(pred) == Seq::<T>::empty(),
{
    reveal(Seq::filter);
    assert(s.filter(pred) =~= Seq::<T>::empty());
}

/// Filtering goes element by element.
pub proof fn lemma_filter_push<T>(s: Seq<T>, x: T, pred: spec_fn(T) -> bool)
    ensures
        s.push(x).filter(pred) == if pred(x) {
            s.filter(pred).push(x)
        } else {
            s.filter(pred)
        },
{
    reveal(Seq::filter);
    assert(s.push(x).drop_last() =~= s);
}

/// What a filtered sequence contains, and that it repeats nothing that the
/// whole does not.
pub proof fn lemma_filter_contains<T>(s: Seq<T>, pred: spec_fn(T) -> bool)
    ensures
        forall|x: T| #[trigger] s.filter(pred).contains(x) <==> s.contains(x) && pred(x),
        s.no_duplicates() ==> s.filter(pred).no_duplicates(),
    decreases s.len(),
{
    reveal(Seq::filter);
    if s.len() > 0 {
        let rest = s.drop_last();
        let last = s.last();
        lemma_filter_contains(rest, pred);
        assert(rest.push(last) =~= s);
        lemma_push_contains(rest, last);
        lemma_push_contains(rest.filter(pred), last);
        if s.no_duplicates() {
            assert(rest.no_duplicates());
            if rest.contains(last) {
                let i = choose|i: int| 0 <= i < rest.len() && rest[i] == last;
                assert(s[i] == s[s.len() - 1]);
            }
        }
    }
}

/// Two sequences one after the other contain what either contains.
pub proof fn lemma_concat_contains<T>(a: Seq<T>, b: Seq<T>)
    ensures
        forall|x: T| #[trigger] (a + b).contains(x) <==> a.contains(x) || b.contains(x),
        a.no_duplicates() && b.no_duplicates() && (forall|x: T|
            !(#[trigger] a.contains(x) && b.contains(x))) ==> (a + b).no_duplicates(),
{
    let c = a + b;
    assert forall|x: T| #[trigger] c.contains(x) <==> a.contains(x) || b.contains(x) by {
        if a.contains(x) {
            let i = choose|i: int| 0 <= i < a.len() && a[i] == x;
            assert(c[i] == x);
        }
        if b.contains(x) {
            let i = choose|i: int| 0 <= i < b.len() && b[i] == x;
            assert(c[a.len() + i] == x);
        }
    }
    if a.no_duplicates() && b.no_duplicates() && (forall|x: T|
        !(#[trigger] a.contains(x) && b.contains(x))) {
        assert forall|i: int, j: int| 0 <= i < j < c.len() implies c[i] != c[j] by {
            if i < a.len() && j >= a.len() {
                assert(a.contains(a[i]) && b.contains(b[j - a.len()]));
            }
        }
    }
}

} // verus!
