//! The country tree: the directory grouped by parent, and its pre-order
//! traversal.

use vstd::prelude::*;
use crate::countries::{
    Country, CountryDirectory, ancestor, has_label, label_position, lemma_parent_index,
    parent_index, parent_ok, well_formed,
};
use crate::errors::Error;
use crate::search::{
    first_index, is_first, lemma_filter_no_duplicates, lemma_first_index, lemma_first_index_is,
    lemma_first_index_none,
};

verus! {

/// The countries without a parent.
pub open spec fn root_country() -> spec_fn(Country) -> bool {
    |c: Country| c.parent_label is None
}

/// The positions `0, 1, .. n - 1`.
pub open spec fn positions(n: nat) -> Seq<usize> {
    Seq::new(n, |j: int| j as usize)
}

/// The positions of the countries whose parent is the country at `i`.
pub open spec fn child_of(countries: Seq<Country>, i: int) -> spec_fn(usize) -> bool {
    |j: usize| parent_index(countries, j as int) == Some(i)
}

/// The children of the country at `i`, in entry order.
pub open spec fn children_of(countries: Seq<Country>, i: int) -> Seq<usize> {
    positions(countries.len()).filter(child_of(countries, i))
}

/// Every child link leads to a later position.
pub open spec fn links_forward(kids: Seq<Seq<usize>>) -> bool {
    forall|i: int, k: int|
        0 <= i < kids.len() && 0 <= k < kids[i].len() ==> i < (#[trigger] kids[i][k]) < kids.len()
}

/// The pre-order traversal of the subtree at `i`: the node, then the
/// traversals of its children in order.
pub open spec fn preorder(kids: Seq<Seq<usize>>, i: int) -> Seq<usize>
    decreases kids.len() - i, 1int, 0int,
{
    if 0 <= i < kids.len() {
        seq![i as usize] + preorder_from(kids, i, 0)
    } else {
        Seq::empty()
    }
}

/// The traversals of the children of `i` from the `k`-th on.
pub open spec fn preorder_from(kids: Seq<Seq<usize>>, i: int, k: int) -> Seq<usize>
    decreases kids.len() - i, 0int, kids[i].len() - k,
{
    if 0 <= i < kids.len() && 0 <= k < kids[i].len() {
        let c = kids[i][k] as int;
        (if i < c < kids.len() {
            preorder(kids, c)
        } else {
            Seq::empty()
        }) + preorder_from(kids, i, k + 1)
    } else {
        Seq::empty()
    }
}

/// The tree of countries as an arena: the nodes in entry order, for each
/// node the positions of its children, and the position of the root.
pub struct CountryTree {
    nodes: Vec<Country>,
    children: Vec<Vec<usize>>,
    root: usize,
}

impl CountryTree {
    /// The nodes in entry order.
    pub closed spec fn nodes(&self) -> Seq<Country> {
        self.nodes@
    }

    /// For each node the positions of its children.
    pub closed spec fn kids(&self) -> Seq<Seq<usize>> {
        Seq::new(self.children@.len(), |i: int| self.children@[i]@)
    }

    /// The position of the root.
    pub closed spec fn root(&self) -> int {
        self.root as int
    }

    /// The arena is consistent: one child list per node, a root among the
    /// nodes, and child links that lead forward.
    pub open spec fn wf(&self) -> bool {
        &&& self.nodes().len() <= usize::MAX
        &&& self.kids().len() == self.nodes().len()
        &&& 0 <= self.root() < self.nodes().len()
        &&& links_forward(self.kids())
    }

    /// The positions of the tree in pre-order.
    pub open spec fn order(&self) -> Seq<usize> {
        preorder(self.kids(), self.root())
    }

    /// How many nodes the tree has.
    pub fn len(&self) -> (n: usize)
        ensures
            n == self.nodes().len(),
    {
        self.nodes.len()
    }

    /// The position of the root.
    pub fn root_index(&self) -> (i: usize)
        ensures
            i == self.root(),
    {
        self.root
    }

    /// The node at a position.
    pub fn node(&self, i: usize) -> (country: Option<Country>)
        ensures
            country == (if i < self.nodes().len() {
                Some(self.nodes()[i as int])
            } else {
                None
            }),
    {
        if i < self.nodes.len() {
            Some(self.nodes[i].clone())
        } else {
            None
        }
    }

    /// The positions of the children of the node at a position; none for a
    /// position outside the tree.
    pub fn children_at(&self, i: usize) -> (list: Vec<usize>)
        ensures
            list@ == (if i < self.kids().len() {
                self.kids()[i as int]
            } else {
                Seq::<usize>::empty()
            }),
    {
        let mut list: Vec<usize> = Vec::new();
        if i < self.children.len() {
            let src = &self.children[i];
            let mut k: usize = 0;
            while k < src.len()
                invariant
                    0 <= k <= src.len(),
                    list@ == src@.take(k as int),
                decreases src.len() - k,
            {
                list.push(src[k]);
                assert(src@.take(k + 1) =~= src@.take(k as int).push(src@[k as int]));
                k += 1;
            }
            assert(src@.take(src@.len() as int) =~= src@);
        }
        list
    }

    fn collect(&self, i: usize, out: &mut Vec<usize>)
        requires
            self.wf(),
            i < self.nodes().len(),
        ensures
            final(out)@ == old(out)@ + preorder(self.kids(), i as int),
        decreases self.kids().len() - i, 1int, 0int,
    {
        out.push(i);
        self.collect_from(i, 0, out);
        assert(old(out)@.push(i) + preorder_from(self.kids(), i as int, 0) =~= old(out)@ + (seq![i]
            + preorder_from(self.kids(), i as int, 0)));
    }

    fn collect_from(&self, i: usize, k: usize, out: &mut Vec<usize>)
        requires
            self.wf(),
            i < self.nodes().len(),
        ensures
            final(out)@ == old(out)@ + preorder_from(self.kids(), i as int, k as int),
        decreases self.kids().len() - i, 0int, self.kids()[i as int].len() - k,
    {
        if k < self.children[i].len() {
            let c = self.children[i][k];
            assert(c == self.kids()[i as int][k as int]);
            let ghost mid = preorder(self.kids(), c as int);
            self.collect(c, out);
            self.collect_from(i, k + 1, out);
            assert((old(out)@ + mid) + preorder_from(self.kids(), i as int, k + 1) =~= old(out)@ + (
            mid + preorder_from(self.kids(), i as int, k + 1)));
        } else {
            assert(old(out)@ + Seq::<usize>::empty() =~= old(out)@);
        }
    }

    /// The countries of the tree in pre-order: a node, then the subtrees of
    /// its children in entry order.
    pub fn flatten(&self) -> (list: Vec<Country>)
        requires
            self.wf(),
        ensures
            list@.len() == self.order().len(),
            forall|k: int|
                0 <= k < list@.len() ==> 0 <= #[trigger] self.order()[k] < self.nodes().len()
                    && list@[k] == self.nodes()[self.order()[k] as int],
    {
        let mut order: Vec<usize> = Vec::new();
        self.collect(self.root, &mut order);
        assert(order@ =~= self.order());
        proof {
            lemma_preorder_in_range(self.kids(), self.root as int);
        }
        let mut list: Vec<Country> = Vec::new();
        let mut k: usize = 0;
        while k < order.len()
            invariant
                0 <= k <= order.len(),
                order@ == self.order(),
                list@.len() == k,
                forall|q: int| 0 <= q < order@.len() ==> 0 <= #[trigger] order@[q] < self.nodes().len(),
                forall|q: int| 0 <= q < k ==> list@[q] == self.nodes()[order@[q] as int],
            decreases order.len() - k,
        {
            list.push(self.nodes[order[k]].clone());
            k += 1;
        }
        list
    }
}

/// Every position of a pre-order traversal is a position of the arena.
pub proof fn lemma_preorder_in_range(kids: Seq<Seq<usize>>, i: int)
    ensures
        forall|q: int|
            0 <= q < preorder(kids, i).len() ==> 0 <= #[trigger] preorder(kids, i)[q] < kids.len(),
    decreases kids.len() - i, 1int, 0int,
{
    if 0 <= i < kids.len() {
        lemma_preorder_from_in_range(kids, i, 0);
        let rest = preorder_from(kids, i, 0);
        assert forall|q: int| 0 <= q < preorder(kids, i).len() implies 0 <= #[trigger] preorder(
            kids,
            i,
        )[q] < kids.len() by {
            if q > 0 {
                assert(preorder(kids, i)[q] == rest[q - 1]);
            }
        }
    }
}

/// Every position of the traversals of a node's children is a position of
/// the arena.
pub proof fn lemma_preorder_from_in_range(kids: Seq<Seq<usize>>, i: int, k: int)
    ensures
        forall|q: int|
            0 <= q < preorder_from(kids, i, k).len() ==> 0 <= #[trigger] preorder_from(kids, i, k)[q]
                < kids.len(),
    decreases kids.len() - i, 0int, kids[i].len() - k,
{
    if 0 <= i < kids.len() && 0 <= k < kids[i].len() {
        let c = kids[i][k] as int;
        if i < c < kids.len() {
            lemma_preorder_in_range(kids, c);
        }
        lemma_preorder_from_in_range(kids, i, k + 1);
        let head = if i < c < kids.len() {
            preorder(kids, c)
        } else {
            Seq::<usize>::empty()
        };
        let tail = preorder_from(kids, i, k + 1);
        assert forall|q: int| 0 <= q < preorder_from(kids, i, k).len() implies 0
            <= #[trigger] preorder_from(kids, i, k)[q] < kids.len() by {
            if q < head.len() {
                assert(preorder_from(kids, i, k)[q] == head[q]);
            } else {
                assert(preorder_from(kids, i, k)[q] == tail[q - head.len()]);
            }
        }
    }
}


/// What the tree of a directory is: the directory's countries as nodes, the
/// first country without a parent as root, and for each node its children
/// in entry order.
pub open spec fn is_tree_of(tree: CountryTree, countries: Seq<Country>, root: int) -> bool {
    &&& tree.wf()
    &&& tree.nodes() == countries
    &&& tree.root() == root
    &&& forall|i: int| 0 <= i < countries.len() ==> #[trigger] tree.kids()[i] == children_of(countries, i)
}

impl CountryDirectory {
    /// Builds the tree in one pass over the countries, entering each under
    /// its parent. `NotFound` where the directory has no root.
    pub fn tree(&self) -> (r: Result<CountryTree, Error>)
        requires
            self.wf(),
        ensures
            match first_index(self@, root_country()) {
                None => r is Err && r->Err_0 == Error::NotFound,
                Some(root) => r matches Ok(t) && is_tree_of(t, self@, root),
            },
    {
        let rows = self.rows();
        let n = rows.len();
        let ghost countries = rows@;
        let ghost is_root = root_country();
        let mut root: Option<usize> = None;
        let mut nodes: Vec<Country> = Vec::new();
        let mut children: Vec<Vec<usize>> = Vec::new();
        let mut j: usize = 0;
        assert(positions(0).filter(child_of(countries, 0)).len() == 0) by {
            positions(0).lemma_filter_len(child_of(countries, 0));
        }
        while j < n
            invariant
                0 <= j <= n,
                n == countries.len(),
                countries == rows@,
                countries == self@,
                is_root == root_country(),
                nodes@ == countries.take(j as int),
                children@.len() == j,
                forall|i: int| 0 <= i < j ==> (#[trigger] children@[i])@.len() == 0,
                match root {
                    Some(r) => is_first(countries, is_root, r as int),
                    None => forall|q: int| 0 <= q < j ==> !is_root(#[trigger] countries[q]),
                },
            decreases n - j,
        {
            if root.is_none() && rows[j].parent_label.is_none() {
                root = Some(j);
            }
            nodes.push(rows[j].clone());
            children.push(Vec::new());
            assert(countries.take(j + 1) =~= countries.take(j as int).push(countries[j as int]));
            j += 1;
        }
        assert(countries.take(n as int) =~= countries);
        let root = match root {
            Some(r) => {
                proof {
                    lemma_first_index_is(countries, is_root, r as int);
                }
                r
            },
            None => {
                proof {
                    lemma_first_index_none(countries, is_root);
                }
                return Err(Error::NotFound);
            },
        };
        assert forall|i: int| 0 <= i < n implies (#[trigger] children@[i])@ == positions(0).filter(
            child_of(countries, i),
        ) by {
            positions(0).lemma_filter_len(child_of(countries, i));
            assert(children@[i]@ =~= positions(0).filter(child_of(countries, i)));
        }
        let mut j: usize = 0;
        while j < n
            invariant
                0 <= j <= n,
                n == countries.len(),
                countries == rows@,
                countries == self@,
                well_formed(countries),
                children@.len() == n,
                forall|i: int|
                    0 <= i < n ==> (#[trigger] children@[i])@ == positions(j as nat).filter(
                        child_of(countries, i),
                    ),
                forall|i: int, k: int|
                    0 <= i < n && 0 <= k < children@[i]@.len() ==> i < (#[trigger] children@[i]@[k])
                        < n,
            decreases n - j,
        {
            let ghost before = children@;
            let ghost parent = parent_index(countries, j as int);
            assert(positions((j + 1) as nat) =~= positions(j as nat).push(j));
            let mut entered: Option<usize> = None;
            match &rows[j].parent_label {
                Some(p) => {
                    match label_position(rows, p) {
                        Some(pos) => {
                            proof {
                                lemma_parent_index(countries, j as int);
                            }
                            children[pos].push(j);
                            entered = Some(pos);
                        },
                        None => {},
                    }
                },
                None => {},
            }
            proof {
                assert(match entered {
                    Some(pos) => parent == Some(pos as int),
                    None => parent is None,
                });
                assert forall|i: int| 0 <= i < n implies (#[trigger] children@[i])@ == positions(
                    (j + 1) as nat,
                ).filter(child_of(countries, i)) by {
                    positions(j as nat).lemma_filter_push(j, child_of(countries, i));
                    assert(before[i]@ == positions(j as nat).filter(child_of(countries, i)));
                    if entered == Some(i as usize) {
                        assert(children@[i]@ == before[i]@.push(j));
                    } else {
                        assert(children@[i] == before[i]);
                    }
                }
                assert forall|i: int, k: int|
                    0 <= i < n && 0 <= k < children@[i]@.len() implies i < (#[trigger] children@[i]@[k])
                    < n by {
                    if entered == Some(i as usize) {
                        if k < before[i]@.len() {
                            assert(children@[i]@[k] == before[i]@[k]);
                        }
                    } else {
                        assert(children@[i] == before[i]);
                    }
                }
            }
            j += 1;
        }
        let tree = CountryTree { nodes, children, root };
        proof {
            assert(tree.kids().len() == n);
            assert forall|i: int| 0 <= i < n implies #[trigger] tree.kids()[i] == children_of(
                countries,
                i,
            ) by {
                assert(tree.kids()[i] == children@[i]@);
            }
            assert forall|i: int, k: int|
                0 <= i < tree.kids().len() && 0 <= k < tree.kids()[i].len() implies i < (
                #[trigger] tree.kids()[i][k]) < tree.kids().len() by {
                assert(tree.kids()[i] == children@[i]@);
            }
        }
        Ok(tree)
    }

    /// All countries in pre-order, every country after its parent, each
    /// once. `NotFound` where the directory is empty.
    pub fn flatten(&self) -> (r: Result<Vec<Country>, Error>)
        requires
            self.wf(),
        ensures
            match first_index(self@, root_country()) {
                None => r is Err && r->Err_0 == Error::NotFound,
                Some(root) => r matches Ok(list) && list@.len() == self@.len() && exists|
                    t: CountryTree,
                |
                    {
                        &&& #[trigger] is_tree_of(t, self@, root)
                        &&& list@.len() == t.order().len()
                        &&& forall|k: int|
                            0 <= k < list@.len() ==> 0 <= #[trigger] t.order()[k] < self@.len()
                                && list@[k] == self@[t.order()[k] as int]
                    },
            },
    {
        match self.tree() {
            Err(e) => Err(e),
            Ok(t) => {
                let list = t.flatten();
                proof {
                    let root = first_index(self@, root_country())->Some_0;
                    lemma_flatten_lists_every_country_once(t, self@, root);
                }
                Ok(list)
            },
        }
    }
}


/// `child` is listed among the children of `parent`.
pub open spec fn is_child_of(kids: Seq<Seq<usize>>, parent: usize, child: usize) -> bool {
    0 <= parent < kids.len() && exists|k: int|
        0 <= k < kids[parent as int].len() && #[trigger] kids[parent as int][k] == child
}

/// Some position before `q` holds the parent of what position `q` holds.
pub open spec fn parent_comes_first(kids: Seq<Seq<usize>>, order: Seq<usize>, q: int) -> bool {
    exists|e: int| 0 <= e < q && is_child_of(kids, #[trigger] order[e], order[q])
}

/// In the traversal of a subtree every position but the first holds a
/// child of a node at an earlier position.
pub proof fn lemma_preorder_parent_first(kids: Seq<Seq<usize>>, i: int, q: int)
    requires
        0 < q < preorder(kids, i).len(),
    ensures
        parent_comes_first(kids, preorder(kids, i), q),
    decreases kids.len() - i, 1int, 0int,
{
    let order = preorder(kids, i);
    let rest = preorder_from(kids, i, 0);
    assert(order[0] == i as usize);
    assert(order[q] == rest[q - 1]);
    lemma_preorder_from_parent_first(kids, i, 0, q - 1);
    if is_child_of(kids, i as usize, rest[q - 1]) {
        assert(is_child_of(kids, order[0], order[q]));
    } else {
        let e = choose|e: int| 0 <= e < q - 1 && is_child_of(kids, #[trigger] rest[e], rest[q - 1]);
        assert(order[e + 1] == rest[e]);
        assert(is_child_of(kids, order[e + 1], order[q]));
    }
}

/// In the traversals of a node's children every position holds a child of
/// the node or a child of a node at an earlier position.
pub proof fn lemma_preorder_from_parent_first(kids: Seq<Seq<usize>>, i: int, k: int, q: int)
    requires
        0 <= q < preorder_from(kids, i, k).len(),
    ensures
        is_child_of(kids, i as usize, preorder_from(kids, i, k)[q]) || parent_comes_first(
            kids,
            preorder_from(kids, i, k),
            q,
        ),
    decreases kids.len() - i, 0int, kids[i].len() - k,
{
    let all = preorder_from(kids, i, k);
    if 0 <= i < kids.len() && 0 <= k < kids[i].len() {
        let c = kids[i][k] as int;
        let head = if i < c < kids.len() {
            preorder(kids, c)
        } else {
            Seq::<usize>::empty()
        };
        let tail = preorder_from(kids, i, k + 1);
        if q < head.len() {
            assert(all[q] == head[q]);
            if q == 0 {
                assert(head[0] == kids[i][k]);
                assert(is_child_of(kids, i as usize, all[q]));
            } else {
                lemma_preorder_parent_first(kids, c, q);
                let e = choose|e: int| 0 <= e < q && is_child_of(kids, #[trigger] head[e], head[q]);
                assert(all[e] == head[e]);
                assert(is_child_of(kids, all[e], all[q]));
            }
        } else {
            let r = q - head.len();
            assert(all[q] == tail[r]);
            lemma_preorder_from_parent_first(kids, i, k + 1, r);
            if !is_child_of(kids, i as usize, tail[r]) {
                let e = choose|e: int| 0 <= e < r && is_child_of(kids, #[trigger] tail[e], tail[r]);
                assert(all[e + head.len()] == tail[e]);
                assert(is_child_of(kids, all[e + head.len()], all[q]));
            }
        }
    }
}

/// In the pre-order of a directory's tree every country but the root comes
/// after its parent: an earlier position holds the country whose label is
/// its parent label.
pub proof fn lemma_flatten_parent_first(tree: CountryTree, countries: Seq<Country>, root: int, q: int)
    requires
        is_tree_of(tree, countries, root),
        0 < q < tree.order().len(),
    ensures
        0 <= tree.order()[q] < countries.len(),
        countries[tree.order()[q] as int].parent_label is Some,
        exists|e: int|
            0 <= e < q && 0 <= #[trigger] tree.order()[e] < countries.len()
                && countries[tree.order()[e] as int].label@
                == countries[tree.order()[q] as int].parent_label->Some_0@,
{
    let kids = tree.kids();
    let order = tree.order();
    lemma_preorder_in_range(kids, root);
    lemma_preorder_parent_first(kids, root, q);
    let e = choose|e: int| 0 <= e < q && is_child_of(kids, #[trigger] order[e], order[q]);
    let parent = order[e];
    let child = order[q];
    let k = choose|k: int| 0 <= k < kids[parent as int].len() && #[trigger] kids[parent as int][k] == child;
    assert(kids[parent as int] == children_of(countries, parent as int));
    positions(countries.len()).lemma_filter_pred(child_of(countries, parent as int), k);
    assert(parent_index(countries, child as int) == Some(parent as int));
    let label = countries[child as int].parent_label->Some_0;
    lemma_first_index(countries, has_label(label@));
}


/// The arena lists for each country its children in entry order.
pub open spec fn lists_children(kids: Seq<Seq<usize>>, countries: Seq<Country>) -> bool {
    &&& kids.len() == countries.len()
    &&& forall|i: int| 0 <= i < countries.len() ==> #[trigger] kids[i] == children_of(countries, i)
}

/// The country at `c` is the country at `x` or one of its ancestors.
pub open spec fn under(countries: Seq<Country>, x: int, c: int) -> bool {
    &&& 0 <= x < countries.len()
    &&& 0 <= c < countries.len()
    &&& countries[x].level >= countries[c].level
    &&& ancestor(countries, x, (countries[x].level - countries[c].level) as nat) == Some(c)
}

/// What the list of children of a country holds: later countries whose
/// parent it is, one level below it.
pub proof fn lemma_child(countries: Seq<Country>, i: int, k: int)
    requires
        well_formed(countries),
        countries.len() <= usize::MAX,
        0 <= i < countries.len(),
        0 <= k < children_of(countries, i).len(),
    ensures
        i < children_of(countries, i)[k] < countries.len(),
        parent_index(countries, children_of(countries, i)[k] as int) == Some(i),
        countries[children_of(countries, i)[k] as int].level == countries[i].level + 1,
{
    let all = positions(countries.len());
    let pred = child_of(countries, i);
    let c = all.filter(pred)[k];
    all.lemma_filter_pred(pred, k);
    assert(all.filter(pred).contains(c));
    all.lemma_filter_contains_rev(pred, c);
    let at = choose|at: int| 0 <= at < all.len() && all[at] == c;
    assert(c == at);
    assert(parent_ok(countries, c as int));
    if countries[c as int].parent_label is Some {
        lemma_parent_index(countries, c as int);
    }
}

/// No country is listed twice among the children of a country.
pub proof fn lemma_children_differ(countries: Seq<Country>, i: int, k: int, m: int)
    requires
        countries.len() <= usize::MAX,
        0 <= k < children_of(countries, i).len(),
        0 <= m < children_of(countries, i).len(),
        k != m,
    ensures
        children_of(countries, i)[k] != children_of(countries, i)[m],
{
    let all = positions(countries.len());
    assert forall|a: int, b: int| 0 <= a < all.len() && 0 <= b < all.len() && a != b implies all[a]
        != all[b] by {
        assert(all[a] == a as usize && all[b] == b as usize);
    }
    lemma_filter_no_duplicates(all, child_of(countries, i));
}

/// The ancestor one step beyond an ancestor is its parent.
pub proof fn lemma_ancestor_then_parent(countries: Seq<Country>, x: int, hops: nat, c: int, i: int)
    requires
        ancestor(countries, x, hops) == Some(c),
        parent_index(countries, c) == Some(i),
    ensures
        ancestor(countries, x, hops + 1) == Some(i),
    decreases hops,
{
    if hops == 0 {
        assert(ancestor(countries, i, 0) == Some(i));
    } else {
        let p = parent_index(countries, x)->Some_0;
        lemma_ancestor_then_parent(countries, p, (hops - 1) as nat, c, i);
    }
}

/// Every country in the traversal of a subtree is the root of the subtree
/// or has it among its ancestors.
pub proof fn lemma_preorder_under(countries: Seq<Country>, kids: Seq<Seq<usize>>, i: int, q: int)
    requires
        well_formed(countries),
        countries.len() <= usize::MAX,
        lists_children(kids, countries),
        0 <= i < countries.len(),
        0 <= q < preorder(kids, i).len(),
    ensures
        under(countries, preorder(kids, i)[q] as int, i),
    decreases kids.len() - i, 1int, 0int,
{
    let order = preorder(kids, i);
    if q == 0 {
        assert(order[0] == i as usize);
        assert(ancestor(countries, i, 0) == Some(i));
    } else {
        let rest = preorder_from(kids, i, 0);
        assert(order[q] == rest[q - 1]);
        lemma_preorder_from_under(countries, kids, i, 0, q - 1);
        let x = rest[q - 1] as int;
        let m = choose|m: int| 0 <= m < kids[i].len() && under(countries, x, #[trigger] kids[i][m] as int);
        let c = kids[i][m] as int;
        lemma_child(countries, i, m);
        lemma_ancestor_then_parent(
            countries,
            x,
            (countries[x].level - countries[c].level) as nat,
            c,
            i,
        );
    }
}

/// Every country in the traversals of a country's children from the `k`-th
/// on is one of these children or has one among its ancestors.
pub proof fn lemma_preorder_from_under(
    countries: Seq<Country>,
    kids: Seq<Seq<usize>>,
    i: int,
    k: int,
    q: int,
)
    requires
        well_formed(countries),
        countries.len() <= usize::MAX,
        lists_children(kids, countries),
        0 <= i < countries.len(),
        0 <= k,
        0 <= q < preorder_from(kids, i, k).len(),
    ensures
        exists|m: int|
            k <= m < kids[i].len() && under(
                countries,
                preorder_from(kids, i, k)[q] as int,
                #[trigger] kids[i][m] as int,
            ),
    decreases kids.len() - i, 0int, kids[i].len() - k,
{
    let all = preorder_from(kids, i, k);
    if 0 <= k < kids[i].len() {
        let c = kids[i][k] as int;
        lemma_child(countries, i, k);
        let head = preorder(kids, c);
        let tail = preorder_from(kids, i, k + 1);
        if q < head.len() {
            assert(all[q] == head[q]);
            lemma_preorder_under(countries, kids, c, q);
            assert(under(countries, all[q] as int, kids[i][k] as int));
        } else {
            assert(all[q] == tail[q - head.len()]);
            lemma_preorder_from_under(countries, kids, i, k + 1, q - head.len());
            let m = choose|m: int|
                k + 1 <= m < kids[i].len() && under(
                    countries,
                    tail[q - head.len()] as int,
                    #[trigger] kids[i][m] as int,
                );
            assert(under(countries, all[q] as int, kids[i][m] as int));
        }
    }
}

/// The traversal of a subtree holds no country twice.
pub proof fn lemma_preorder_no_duplicates(countries: Seq<Country>, kids: Seq<Seq<usize>>, i: int)
    requires
        well_formed(countries),
        countries.len() <= usize::MAX,
        lists_children(kids, countries),
        0 <= i < countries.len(),
    ensures
        preorder(kids, i).no_duplicates(),
    decreases kids.len() - i, 1int, 0int,
{
    let order = preorder(kids, i);
    let rest = preorder_from(kids, i, 0);
    lemma_preorder_from_no_duplicates(countries, kids, i, 0);
    assert forall|a: int, b: int| 0 <= a < order.len() && 0 <= b < order.len() && a != b implies order[a]
        != order[b] by {
        let (lo, hi) = if a < b {
            (a, b)
        } else {
            (b, a)
        };
        assert(order[hi] == rest[hi - 1]);
        if lo == 0 {
            assert(order[0] == i as usize);
            lemma_preorder_from_under(countries, kids, i, 0, hi - 1);
            let m = choose|m: int|
                0 <= m < kids[i].len() && under(
                    countries,
                    rest[hi - 1] as int,
                    #[trigger] kids[i][m] as int,
                );
            lemma_child(countries, i, m);
        } else {
            assert(order[lo] == rest[lo - 1]);
        }
    }
}

/// The traversals of a country's children from the `k`-th on hold no
/// country twice.
pub proof fn lemma_preorder_from_no_duplicates(
    countries: Seq<Country>,
    kids: Seq<Seq<usize>>,
    i: int,
    k: int,
)
    requires
        well_formed(countries),
        countries.len() <= usize::MAX,
        lists_children(kids, countries),
        0 <= i < countries.len(),
        0 <= k,
    ensures
        preorder_from(kids, i, k).no_duplicates(),
    decreases kids.len() - i, 0int, kids[i].len() - k,
{
    let all = preorder_from(kids, i, k);
    if 0 <= k < kids[i].len() {
        let c = kids[i][k] as int;
        lemma_child(countries, i, k);
        let head = preorder(kids, c);
        let tail = preorder_from(kids, i, k + 1);
        lemma_preorder_no_duplicates(countries, kids, c);
        lemma_preorder_from_no_duplicates(countries, kids, i, k + 1);
        assert forall|a: int, b: int| 0 <= a < all.len() && 0 <= b < all.len() && a != b implies all[a]
            != all[b] by {
            let (lo, hi) = if a < b {
                (a, b)
            } else {
                (b, a)
            };
            if hi < head.len() {
                assert(all[lo] == head[lo] && all[hi] == head[hi]);
            } else if lo >= head.len() {
                assert(all[lo] == tail[lo - head.len()] && all[hi] == tail[hi - head.len()]);
            } else {
                assert(all[lo] == head[lo] && all[hi] == tail[hi - head.len()]);
                lemma_preorder_under(countries, kids, c, lo);
                lemma_preorder_from_under(countries, kids, i, k + 1, hi - head.len());
                let m = choose|m: int|
                    k + 1 <= m < kids[i].len() && under(
                        countries,
                        tail[hi - head.len()] as int,
                        #[trigger] kids[i][m] as int,
                    );
                lemma_child(countries, i, m);
                lemma_children_differ(countries, i, k, m);
            }
        }
    }
}

/// A child of a country that the traversal of a subtree holds is held by
/// the traversal too.
pub proof fn lemma_child_listed(kids: Seq<Seq<usize>>, i: int, q: int, m: int)
    requires
        links_forward(kids),
        kids.len() <= usize::MAX,
        0 <= i < kids.len(),
        0 <= q < preorder(kids, i).len(),
        0 <= preorder(kids, i)[q] < kids.len(),
        0 <= m < kids[preorder(kids, i)[q] as int].len(),
    ensures
        preorder(kids, i).contains(kids[preorder(kids, i)[q] as int][m]),
    decreases kids.len() - i, 1int, 0int,
{
    let order = preorder(kids, i);
    let rest = preorder_from(kids, i, 0);
    let c = kids[order[q] as int][m];
    if q == 0 {
        assert(order[0] == i as usize);
        lemma_own_child_listed(kids, i, 0, m);
    } else {
        assert(order[q] == rest[q - 1]);
        lemma_child_listed_from(kids, i, 0, q - 1, m);
    }
    let at = choose|at: int| 0 <= at < rest.len() && rest[at] == c;
    assert(order[at + 1] == c);
}

/// The `m`-th child of a country is held by the traversals of its children
/// from the `k`-th on, where `k` is not beyond `m`.
pub proof fn lemma_own_child_listed(kids: Seq<Seq<usize>>, i: int, k: int, m: int)
    requires
        links_forward(kids),
        kids.len() <= usize::MAX,
        0 <= i < kids.len(),
        0 <= k <= m < kids[i].len(),
    ensures
        preorder_from(kids, i, k).contains(kids[i][m]),
    decreases m - k,
{
    let all = preorder_from(kids, i, k);
    let c = kids[i][k] as int;
    assert(i < c < kids.len());
    let head = preorder(kids, c);
    let tail = preorder_from(kids, i, k + 1);
    if k == m {
        assert(head[0] == kids[i][m]);
        assert(all[0] == kids[i][m]);
    } else {
        lemma_own_child_listed(kids, i, k + 1, m);
        let at = choose|at: int| 0 <= at < tail.len() && tail[at] == kids[i][m];
        assert(all[head.len() + at] == kids[i][m]);
    }
}

/// A child of a country that the traversals of some country's children hold
/// is held by these traversals too.
pub proof fn lemma_child_listed_from(kids: Seq<Seq<usize>>, i: int, k: int, q: int, m: int)
    requires
        links_forward(kids),
        kids.len() <= usize::MAX,
        0 <= i < kids.len(),
        0 <= k,
        0 <= q < preorder_from(kids, i, k).len(),
        0 <= preorder_from(kids, i, k)[q] < kids.len(),
        0 <= m < kids[preorder_from(kids, i, k)[q] as int].len(),
    ensures
        preorder_from(kids, i, k).contains(kids[preorder_from(kids, i, k)[q] as int][m]),
    decreases kids.len() - i, 0int, kids[i].len() - k,
{
    let all = preorder_from(kids, i, k);
    if 0 <= k < kids[i].len() {
        let c = kids[i][k] as int;
        assert(i < c < kids.len());
        let head = preorder(kids, c);
        let tail = preorder_from(kids, i, k + 1);
        let wanted = kids[all[q] as int][m];
        if q < head.len() {
            assert(all[q] == head[q]);
            lemma_child_listed(kids, c, q, m);
            let at = choose|at: int| 0 <= at < head.len() && head[at] == wanted;
            assert(all[at] == wanted);
        } else {
            assert(all[q] == tail[q - head.len()]);
            lemma_child_listed_from(kids, i, k + 1, q - head.len(), m);
            let at = choose|at: int| 0 <= at < tail.len() && tail[at] == wanted;
            assert(all[head.len() + at] == wanted);
        }
    }
}

/// The traversal from the first country holds every country of a
/// well-formed directory.
pub proof fn lemma_every_country_listed(countries: Seq<Country>, kids: Seq<Seq<usize>>, j: int)
    requires
        well_formed(countries),
        countries.len() <= usize::MAX,
        lists_children(kids, countries),
        links_forward(kids),
        0 <= j < countries.len(),
    ensures
        preorder(kids, 0).contains(j as usize),
    decreases j,
{
    let order = preorder(kids, 0);
    if j == 0 {
        assert(order[0] == 0usize);
    } else {
        lemma_parent_index(countries, j);
        let p = parent_index(countries, j)->Some_0;
        lemma_every_country_listed(countries, kids, p);
        let q = choose|q: int| 0 <= q < order.len() && order[q] == p as usize;
        let all = positions(countries.len());
        assert(all[j] == j as usize);
        all.lemma_filter_contains(child_of(countries, p), j);
        let m = choose|m: int|
            0 <= m < children_of(countries, p).len() && children_of(countries, p)[m] == j as usize;
        assert(kids[p] == children_of(countries, p));
        lemma_child_listed(kids, 0, q, m);
    }
}

/// The positions below `n`.
pub open spec fn below(n: nat) -> Set<usize> {
    Set::new(|x: usize| (x as nat) < n)
}

/// There are `n` positions below `n`.
pub proof fn lemma_below(n: nat)
    requires
        n <= usize::MAX,
    ensures
        below(n).finite(),
        below(n).len() == n,
    decreases n,
{
    if n == 0 {
        assert(below(0) =~= Set::<usize>::empty());
    } else {
        lemma_below((n - 1) as nat);
        assert(below(n) =~= below((n - 1) as nat).insert((n - 1) as usize));
    }
}

/// The pre-order of the tree of a well-formed directory lists every country
/// exactly once: each is listed, none twice, and the list is as long as the
/// directory.
pub proof fn lemma_flatten_lists_every_country_once(
    tree: CountryTree,
    countries: Seq<Country>,
    root: int,
)
    requires
        well_formed(countries),
        is_tree_of(tree, countries, root),
        first_index(countries, root_country()) == Some(root),
    ensures
        root == 0,
        tree.order().no_duplicates(),
        forall|j: usize| j < countries.len() ==> #[trigger] tree.order().contains(j),
        tree.order().len() == countries.len(),
{
    lemma_first_index(countries, root_country());
    assert(root == 0) by {
        if root > 0 {
            assert(countries[root].parent_label is Some);
        }
    }
    assert(lists_children(tree.kids(), countries));
    lemma_preorder_no_duplicates(countries, tree.kids(), 0);
    assert forall|j: usize| j < countries.len() implies #[trigger] tree.order().contains(j) by {
        lemma_every_country_listed(countries, tree.kids(), j as int);
    }
    let order = tree.order();
    lemma_preorder_in_range(tree.kids(), 0);
    assert(order.to_set() =~= below(countries.len())) by {
        assert forall|x: usize| order.to_set().contains(x) implies below(countries.len()).contains(
            x,
        ) by {
            let q = choose|q: int| 0 <= q < order.len() && order[q] == x;
            assert(0 <= order[q] < tree.kids().len());
        }
    }
    lemma_below(countries.len());
    order.unique_seq_to_set();
}

} // verus!
