//! Ordering records by their identifier.

use vstd::prelude::*;
use vstd::multiset::Multiset;
use vstd::seq_lib::{
    to_multiset_build, to_multiset_contains, to_multiset_insert, to_multiset_len, to_multiset_remove,
};
use crate::models::{CompanyPackage, Products};

verus! {

/// A record with an integer identifier to order by.
pub trait Keyed {
    spec fn key_spec(&self) -> i32;

    fn key(&self) -> (k: i32)
        ensures
            k == self.key_spec(),
    ;
}

impl Keyed for CompanyPackage {
    open spec fn key_spec(&self) -> i32 {
        self.id
    }

    fn key(&self) -> (k: i32) {
        self.id
    }
}

impl Keyed for Products {
    open spec fn key_spec(&self) -> i32 {
        self.id
    }

    fn key(&self) -> (k: i32) {
        self.id
    }
}

/// Keys never decrease along the sequence.
pub open spec fn sorted_by_key<T: Keyed>(s: Seq<T>) -> bool {
    forall|i: int, j: int|
        0 <= i <= j < s.len() ==> (#[trigger] s[i]).key_spec() <= (#[trigger] s[j]).key_spec()
}

/// Puts `item` into a sorted vector behind every element whose key is not
/// larger, so the vector stays sorted and gains exactly that item.
pub fn insert_sorted<T: Keyed>(sorted: &mut Vec<T>, item: T)
    requires
        sorted_by_key(old(sorted)@),
    ensures
        sorted_by_key(final(sorted)@),
        final(sorted)@.to_multiset() == old(sorted)@.to_multiset().insert(item),
        final(sorted)@.len() == old(sorted)@.len() + 1,
{
    let k = item.key();
    let mut pos: usize = 0;
    while pos < sorted.len() && sorted[pos].key() <= k
        invariant
            0 <= pos <= sorted.len(),
            sorted@ == old(sorted)@,
            forall|j: int| 0 <= j < pos ==> (#[trigger] sorted@[j]).key_spec() <= k,
        decreases sorted.len() - pos,
    {
        pos += 1;
    }
    let ghost before = sorted@;
    proof {
        to_multiset_insert(before, pos as int, item);
    }
    sorted.insert(pos, item);
    proof {
        let after = sorted@;
        assert forall|i: int, j: int| 0 <= i <= j < after.len() implies (#[trigger] after[i]).key_spec()
            <= (#[trigger] after[j]).key_spec() by {
            if i < pos && j > pos {
                assert(after[i] == before[i] && after[j] == before[j - 1]);
            } else if i < pos && j < pos {
                assert(after[i] == before[i] && after[j] == before[j]);
            } else if i > pos {
                assert(after[i] == before[i - 1] && after[j] == before[j - 1]);
            } else if i == pos && j > pos {
                assert(after[j] == before[j - 1]);
                assert(before[pos as int].key_spec() <= before[j - 1].key_spec());
            } else if i < pos && j == pos {
                assert(after[i] == before[i]);
            }
        }
    }
}

/// Sorts the records ascending by key. The result holds exactly the records
/// given.
pub fn sort_by_key<T: Keyed>(items: Vec<T>) -> (sorted: Vec<T>)
    ensures
        sorted_by_key(sorted@),
        sorted@.to_multiset() == items@.to_multiset(),
        sorted@.len() == items@.len(),
{
    let mut rest = items;
    let mut sorted: Vec<T> = Vec::new();
    assert(sorted@.to_multiset().add(rest@.to_multiset()) =~= items@.to_multiset()) by {
        assert(sorted@.to_multiset() =~= Multiset::<T>::empty()) by {
            sorted@.to_multiset_ensures();
        }
    }
    while rest.len() > 0
        invariant
            sorted_by_key(sorted@),
            sorted@.to_multiset().add(rest@.to_multiset()) == items@.to_multiset(),
            sorted@.len() + rest@.len() == items@.len(),
        decreases rest.len(),
    {
        let ghost rest_before = rest@;
        let ghost sorted_before = sorted@;
        let item = rest.pop().unwrap();
        proof {
            assert(rest_before =~= rest@.push(item));
            to_multiset_build(rest@, item);
        }
        insert_sorted(&mut sorted, item);
        assert(sorted@.to_multiset().add(rest@.to_multiset()) =~= sorted_before.to_multiset().add(
            rest_before.to_multiset(),
        ));
    }
    assert(rest@.to_multiset() =~= Multiset::<T>::empty()) by {
        rest@.to_multiset_ensures();
    }
    assert(sorted@.to_multiset().add(rest@.to_multiset()) =~= sorted@.to_multiset());
    sorted
}


/// No two records of the sequence have the same key.
pub open spec fn keys_distinct<T: Keyed>(s: Seq<T>) -> bool {
    forall|i: int, j: int|
        0 <= i < j < s.len() ==> (#[trigger] s[i]).key_spec() != (#[trigger] s[j]).key_spec()
}

/// Records with pairwise different keys have exactly one ascending order:
/// two ascending sequences of the same records are the same sequence.
pub proof fn lemma_ascending_order_is_unique<T: Keyed>(a: Seq<T>, b: Seq<T>)
    requires
        sorted_by_key(a),
        sorted_by_key(b),
        keys_distinct(a),
        a.to_multiset() == b.to_multiset(),
    ensures
        a == b,
    decreases a.len(),
{
    to_multiset_len(a);
    to_multiset_len(b);
    if a.len() == 0 {
        assert(a =~= b);
    } else {
        let x = a[0];
        let y = b[0];
        to_multiset_contains(b, x);
        to_multiset_contains(a, x);
        to_multiset_contains(a, y);
        to_multiset_contains(b, y);
        assert(a.contains(x));
        assert(b.contains(y));
        let j = choose|j: int| 0 <= j < b.len() && b[j] == x;
        let i = choose|i: int| 0 <= i < a.len() && a[i] == y;
        assert(y.key_spec() <= b[j].key_spec());
        assert(x.key_spec() <= a[i].key_spec());
        assert(i == 0);
        let rest_a = a.remove(0);
        let rest_b = b.remove(0);
        to_multiset_remove(a, 0);
        to_multiset_remove(b, 0);
        assert forall|p: int, q: int| 0 <= p <= q < rest_a.len() implies (#[trigger] rest_a[p]).key_spec()
            <= (#[trigger] rest_a[q]).key_spec() by {
            assert(rest_a[p] == a[p + 1] && rest_a[q] == a[q + 1]);
        }
        assert forall|p: int, q: int| 0 <= p <= q < rest_b.len() implies (#[trigger] rest_b[p]).key_spec()
            <= (#[trigger] rest_b[q]).key_spec() by {
            assert(rest_b[p] == b[p + 1] && rest_b[q] == b[q + 1]);
        }
        assert forall|p: int, q: int| 0 <= p < q < rest_a.len() implies (#[trigger] rest_a[p]).key_spec()
            != (#[trigger] rest_a[q]).key_spec() by {
            assert(rest_a[p] == a[p + 1] && rest_a[q] == a[q + 1]);
        }
        lemma_ascending_order_is_unique(rest_a, rest_b);
        assert forall|k: int| 0 <= k < a.len() implies a[k] == b[k] by {
            if k > 0 {
                assert(a[k] == rest_a[k - 1]);
                assert(b[k] == rest_b[k - 1]);
            }
        }
        assert(a =~= b);
    }
}


/// Keys increase along the sequence: it is ascending and free of records
/// with the same key.
pub open spec fn strictly_sorted_by_key<T: Keyed>(s: Seq<T>) -> bool {
    forall|i: int, j: int|
        0 <= i < j < s.len() ==> (#[trigger] s[i]).key_spec() < (#[trigger] s[j]).key_spec()
}

/// Choosing among records with pairwise different keys leaves records with
/// pairwise different keys.
pub proof fn lemma_filter_keeps_keys_distinct<T: Keyed>(s: Seq<T>, p: spec_fn(T) -> bool)
    requires
        keys_distinct(s),
    ensures
        keys_distinct(s.filter(p)),
    decreases s.len(),
{
    reveal(Seq::filter);
    if s.len() > 0 {
        let head = s.drop_last();
        let chosen = head.filter(p);
        assert forall|i: int, j: int| 0 <= i < j < head.len() implies (#[trigger] head[i]).key_spec()
            != (#[trigger] head[j]).key_spec() by {
            assert(head[i] == s[i] && head[j] == s[j]);
        }
        lemma_filter_keeps_keys_distinct(head, p);
        if p(s.last()) {
            let all = chosen.push(s.last());
            assert forall|i: int, j: int| 0 <= i < j < all.len() implies (#[trigger] all[i]).key_spec()
                != (#[trigger] all[j]).key_spec() by {
                if j < chosen.len() {
                    assert(all[i] == chosen[i] && all[j] == chosen[j]);
                } else {
                    assert(all[i] == chosen[i]);
                    assert(chosen.contains(chosen[i]));
                    head.lemma_filter_contains_rev(p, chosen[i]);
                    let a = choose|a: int| 0 <= a < head.len() && head[a] == chosen[i];
                    assert(head[a] == s[a]);
                    assert(s[a].key_spec() != s[s.len() - 1].key_spec());
                }
            }
        }
    }
}

/// An ascending order of records with pairwise different keys is strictly
/// ascending: no key comes twice.
pub proof fn lemma_sorted_permutation_is_strict<T: Keyed>(a: Seq<T>, b: Seq<T>)
    requires
        keys_distinct(a),
        sorted_by_key(b),
        a.to_multiset() == b.to_multiset(),
    ensures
        strictly_sorted_by_key(b),
{
    assert(a.no_duplicates()) by {
        assert forall|i: int, j: int| 0 <= i < a.len() && 0 <= j < a.len() && i != j implies a[i]
            != a[j] by {
            if i < j {
                assert(a[i].key_spec() != a[j].key_spec());
            } else {
                assert(a[j].key_spec() != a[i].key_spec());
            }
        }
    }
    a.lemma_multiset_has_no_duplicates();
    b.lemma_multiset_has_no_duplicates_conv();
    assert forall|i: int, j: int| 0 <= i < j < b.len() implies (#[trigger] b[i]).key_spec() < (
    #[trigger] b[j]).key_spec() by {
        if b[i].key_spec() == b[j].key_spec() {
            to_multiset_contains(b, b[i]);
            to_multiset_contains(b, b[j]);
            to_multiset_contains(a, b[i]);
            to_multiset_contains(a, b[j]);
            assert(b.contains(b[i]) && b.contains(b[j]));
            let x = choose|x: int| 0 <= x < a.len() && a[x] == b[i];
            let y = choose|y: int| 0 <= y < a.len() && a[y] == b[j];
            if x < y {
                assert(a[x].key_spec() != a[y].key_spec());
            } else if y < x {
                assert(a[y].key_spec() != a[x].key_spec());
            }
            assert(b[i] == b[j]);
        }
    }
}

} // verus!
