//! Searching a sequence for the first element that satisfies a predicate.

use vstd::prelude::*;

verus! {

/// `i` is the position of the first element of `s` that satisfies `p`.
pub open spec fn is_first<T>(s: Seq<T>, p: spec_fn(T) -> bool, i: int) -> bool {
    &&& 0 <= i < s.len()
    &&& p(s[i])
    &&& forall|j: int| 0 <= j < i ==> !p(#[trigger] s[j])
}

/// Some element of `s` satisfies `p`.
pub open spec fn any<T>(s: Seq<T>, p: spec_fn(T) -> bool) -> bool {
    exists|i: int| 0 <= i < s.len() && p(#[trigger] s[i])
}

/// The position of the first element of `s` that satisfies `p`, if any.
pub open spec fn first_index<T>(s: Seq<T>, p: spec_fn(T) -> bool) -> Option<int> {
    if exists|i: int| is_first(s, p, i) {
        Some(choose|i: int| is_first(s, p, i))
    } else {
        None
    }
}

/// The first position is unique, so finding one determines `first_index`.
pub proof fn lemma_first_index_is<T>(s: Seq<T>, p: spec_fn(T) -> bool, i: int)
    requires
        is_first(s, p, i),
    ensures
        first_index(s, p) == Some(i),
{
    let k = choose|k: int| is_first(s, p, k);
    assert(is_first(s, p, k));
    if k < i {
        assert(!p(s[k]));
    }
    if i < k {
        assert(!p(s[i]));
    }
}

/// When no element satisfies the predicate there is no first position.
pub proof fn lemma_first_index_none<T>(s: Seq<T>, p: spec_fn(T) -> bool)
    requires
        forall|j: int| 0 <= j < s.len() ==> !p(#[trigger] s[j]),
    ensures
        first_index(s, p) is None,
{
    if exists|i: int| is_first(s, p, i) {
        let k = choose|k: int| is_first(s, p, k);
        assert(!p(s[k]));
    }
}

/// What `first_index` says of its result.
pub proof fn lemma_first_index<T>(s: Seq<T>, p: spec_fn(T) -> bool)
    ensures
        first_index(s, p) matches Some(i) ==> is_first(s, p, i),
        first_index(s, p) is Some <==> any(s, p),
        first_index(s, p) is None ==> forall|j: int| 0 <= j < s.len() ==> !p(#[trigger] s[j]),
{
    if any(s, p) {
        let k = choose|k: int| 0 <= k < s.len() && p(#[trigger] s[k]);
        lemma_least_exists(s, p, k);
    }
    if first_index(s, p) is Some {
        let i = first_index(s, p)->Some_0;
        assert(is_first(s, p, i));
        assert(p(s[i]));
    }
    if first_index(s, p) is None {
        assert forall|j: int| 0 <= j < s.len() implies !p(#[trigger] s[j]) by {
            if p(s[j]) {
                lemma_least_exists(s, p, j);
            }
        }
    }
}

proof fn lemma_least_exists<T>(s: Seq<T>, p: spec_fn(T) -> bool, k: int)
    requires
        0 <= k < s.len(),
        p(s[k]),
    ensures
        exists|i: int| is_first(s, p, i),
    decreases k,
{
    if forall|j: int| 0 <= j < k ==> !p(#[trigger] s[j]) {
        assert(is_first(s, p, k));
    } else {
        let j = choose|j: int| 0 <= j < k && p(#[trigger] s[j]);
        lemma_least_exists(s, p, j);
    }
}


/// Where exactly one element satisfies the predicate, filtering a prefix
/// leaves nothing before that element and the element alone from it on.
proof fn lemma_filter_prefix_single<T>(s: Seq<T>, p: spec_fn(T) -> bool, k: int, n: int)
    requires
        0 <= k < s.len(),
        0 <= n <= s.len(),
        p(s[k]),
        forall|j: int| 0 <= j < s.len() && j != k ==> !p(#[trigger] s[j]),
    ensures
        s.take(n).filter(p) == (if n <= k {
            Seq::<T>::empty()
        } else {
            seq![s[k]]
        }),
    decreases n,
{
    if n == 0 {
        s.take(0).lemma_filter_len(p);
        assert(s.take(0).filter(p) =~= Seq::<T>::empty());
    } else {
        lemma_filter_prefix_single(s, p, k, n - 1);
        s.lemma_take_succ_push(n - 1);
        s.take(n - 1).lemma_filter_push(s[n - 1], p);
        if n - 1 == k {
            assert(Seq::<T>::empty().push(s[k]) =~= seq![s[k]]);
        }
    }
}

/// Where exactly one element satisfies the predicate, the filter holds that
/// element and nothing else.
pub proof fn lemma_filter_single<T>(s: Seq<T>, p: spec_fn(T) -> bool, k: int)
    requires
        0 <= k < s.len(),
        p(s[k]),
        forall|j: int| 0 <= j < s.len() && j != k ==> !p(#[trigger] s[j]),
    ensures
        s.filter(p) == seq![s[k]],
{
    lemma_filter_prefix_single(s, p, k, s.len() as int);
    assert(s.take(s.len() as int) =~= s);
}

/// Where two elements satisfy the predicate, the filter holds at least two.
pub proof fn lemma_filter_two<T>(s: Seq<T>, p: spec_fn(T) -> bool, i: int, j: int)
    requires
        0 <= i < j < s.len(),
        p(s[i]),
        p(s[j]),
    ensures
        s.filter(p).len() >= 2,
{
    let head = s.take(j);
    assert(head[i] == s[i]);
    head.lemma_filter_contains(p, i);
    assert(head.filter(p).len() >= 1);
    s.lemma_take_succ_push(j);
    head.lemma_filter_push(s[j], p);
    s.lemma_filter_take_len(p, j + 1);
}


/// Choosing among elements that are pairwise different leaves elements that
/// are pairwise different.
pub proof fn lemma_filter_no_duplicates<T>(s: Seq<T>, p: spec_fn(T) -> bool)
    requires
        s.no_duplicates(),
    ensures
        s.filter(p).no_duplicates(),
    decreases s.len(),
{
    reveal(Seq::filter);
    if s.len() > 0 {
        let head = s.drop_last();
        let chosen = head.filter(p);
        assert forall|i: int, j: int| 0 <= i < head.len() && 0 <= j < head.len() && i != j implies head[i]
            != head[j] by {
            assert(head[i] == s[i] && head[j] == s[j]);
        }
        lemma_filter_no_duplicates(head, p);
        if p(s.last()) {
            let all = chosen.push(s.last());
            assert forall|i: int, j: int| 0 <= i < all.len() && 0 <= j < all.len() && i != j implies all[i]
                != all[j] by {
                let (a, b) = if i < j {
                    (i, j)
                } else {
                    (j, i)
                };
                if b < chosen.len() {
                    assert(all[a] == chosen[a] && all[b] == chosen[b]);
                } else {
                    assert(all[a] == chosen[a]);
                    assert(chosen.contains(chosen[a]));
                    head.lemma_filter_contains_rev(p, chosen[a]);
                    let x = choose|x: int| 0 <= x < head.len() && head[x] == chosen[a];
                    assert(head[x] == s[x]);
                    assert(s[x] != s[s.len() - 1]);
                }
            }
        }
    }
}


/// Finds the first item that passes the test. `chosen` says which items
/// the test lets through.
pub(crate) fn position_where<T, F: Fn(&T) -> bool>(
    items: &Vec<T>,
    Ghost(chosen): Ghost<spec_fn(T) -> bool>,
    test: F,
) -> (found: Option<usize>)
    requires
        forall|x: &T| #[trigger] test.requires((x,)),
        forall|x: &T, b: bool| #[trigger] test.ensures((x,), b) ==> b == chosen(*x),
    ensures
        match found {
            Some(i) => first_index(items@, chosen) == Some(i as int),
            None => first_index(items@, chosen) is None,
        },
{
    let mut i: usize = 0;
    while i < items.len()
        invariant
            0 <= i <= items.len(),
            forall|x: &T| #[trigger] test.requires((x,)),
            forall|x: &T, b: bool| #[trigger] test.ensures((x,), b) ==> b == chosen(*x),
            forall|j: int| 0 <= j < i ==> !chosen(#[trigger] items@[j]),
        decreases items.len() - i,
    {
        if test(&items[i]) {
            proof {
                assert(is_first(items@, chosen, i as int));
                lemma_first_index_is(items@, chosen, i as int);
            }
            return Some(i);
        }
        i += 1;
    }
    proof {
        lemma_first_index_none(items@, chosen);
    }
    None
}

} // verus!
