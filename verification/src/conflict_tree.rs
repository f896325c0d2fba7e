use vstd::prelude::*;
use vstd::multiset::Multiset;

verus! {

broadcast use vstd::std_specs::vec::group_vec_axioms;

/// The mathematical value of a conflict tree: its weighted items, its
/// children and the cached sum of the children's values.
pub struct TreeModel<Item> {
    pub items: Seq<(Item, usize)>,
    pub children: Seq<TreeModel<Item>>,
    pub sum_of_children: usize,
}

/// A tree of weighted items; items in one node conflict with the items of
/// every node on the path to the root.
#[derive(Debug)]
pub struct ConflictTree<Item> {
    pub items: Vec<(Item, usize)>,
    pub children: Vec<ConflictTree<Item>>,
    sum_of_children: usize,
}

impl<Item> ConflictTree<Item> {
    pub closed spec fn model(&self) -> TreeModel<Item>
        decreases self,
    {
        TreeModel {
            items: self.items@,
            children: Self::models(self.children@),
            sum_of_children: self.sum_of_children,
        }
    }

    pub closed spec fn models(chs: Seq<ConflictTree<Item>>) -> Seq<TreeModel<Item>>
        decreases chs,
    {
        if chs.len() == 0 {
            Seq::empty()
        } else {
            Self::models(chs.drop_last()).push(chs.last().model())
        }
    }
}

impl<Item> View for ConflictTree<Item> {
    type V = TreeModel<Item>;

    open spec fn view(&self) -> TreeModel<Item> {
        self.model()
    }
}

/// The largest weight among `items` (0 for no items).
pub open spec fn max_weight<Item>(items: Seq<(Item, usize)>) -> nat
    decreases items.len(),
{
    if items.len() == 0 {
        0
    } else {
        let m = max_weight(items.drop_last());
        if items.last().1 > m { items.last().1 as nat } else { m }
    }
}

pub open spec fn max_nat(a: nat, b: nat) -> nat {
    if a >= b { a } else { b }
}

/// The value of a tree: the larger of the sum of its children's values and
/// the largest weight among its own items.
pub open spec fn tree_value<Item>(t: TreeModel<Item>) -> nat
    decreases t,
{
    max_nat(children_sum(t.children), max_weight(t.items))
}

/// The sum of the values of the trees in `chs`.
pub open spec fn children_sum<Item>(chs: Seq<TreeModel<Item>>) -> nat
    decreases chs,
{
    if chs.len() == 0 {
        0
    } else {
        children_sum(chs.drop_last()) + tree_value(chs.last())
    }
}

/// `t` with the cached sum of every node set to the sum of its children's values.
pub open spec fn with_sums<Item>(t: TreeModel<Item>) -> TreeModel<Item>
    decreases t,
{
    TreeModel {
        items: t.items,
        children: with_sums_all(t.children),
        sum_of_children: children_sum(t.children) as usize,
    }
}

pub open spec fn with_sums_all<Item>(chs: Seq<TreeModel<Item>>) -> Seq<TreeModel<Item>>
    decreases chs,
{
    if chs.len() == 0 {
        Seq::empty()
    } else {
        with_sums_all(chs.drop_last()).push(with_sums(chs.last()))
    }
}

/// Every node's children's values sum to a number that fits in a `usize`.
pub open spec fn sums_fit<Item>(t: TreeModel<Item>) -> bool
    decreases t,
{
    children_sum(t.children) <= usize::MAX && all_fit(t.children)
}

pub open spec fn all_fit<Item>(chs: Seq<TreeModel<Item>>) -> bool
    decreases chs,
{
    chs.len() == 0 || (all_fit(chs.drop_last()) && sums_fit(chs.last()))
}

/// Every node's cached sum equals the sum of its children's values.
pub open spec fn sums_valid<Item>(t: TreeModel<Item>) -> bool
    decreases t,
{
    t.sum_of_children == children_sum(t.children) && all_valid(t.children)
}

pub open spec fn all_valid<Item>(chs: Seq<TreeModel<Item>>) -> bool
    decreases chs,
{
    chs.len() == 0 || (all_valid(chs.drop_last()) && sums_valid(chs.last()))
}

/// The scan over the items that finds the best item: the index of the last
/// item of largest weight (-1 for no items), that weight, and the largest
/// weight among the other items.
pub open spec fn scan_best<Item>(items: Seq<(Item, usize)>) -> (int, nat, nat)
    decreases items.len(),
{
    if items.len() == 0 {
        (-1, 0, 0)
    } else {
        let (b, bc, sc) = scan_best(items.drop_last());
        let w = items.last().1 as nat;
        if w >= bc {
            (items.len() - 1, w, bc)
        } else if w > sc {
            (b, bc, w)
        } else {
            (b, bc, sc)
        }
    }
}

/// One greedy assignment step on a tree: the tree afterwards, the items
/// assigned (in order), the value returned, and whether every running sum
/// fitted in a `usize`.
pub open spec fn assign<Item>(t: TreeModel<Item>) -> (TreeModel<Item>, Seq<Item>, nat, bool)
    decreases t,
{
    let (b, bc, sc) = scan_best(t.items);
    if bc <= t.sum_of_children {
        let (chs, out, s, ok) = assign_children(t.children);
        (
            TreeModel { items: t.items, children: chs, sum_of_children: s as usize },
            out,
            max_nat(s, bc),
            ok,
        )
    } else {
        (
            TreeModel {
                items: t.items.update(b, t.items.last()).drop_last(),
                children: t.children,
                sum_of_children: t.sum_of_children,
            },
            seq![t.items[b].0],
            max_nat(t.sum_of_children as nat, sc),
            true,
        )
    }
}

/// The greedy step applied to each child in turn; children whose returned
/// value is 0 are dropped.
pub open spec fn assign_children<Item>(chs: Seq<TreeModel<Item>>) -> (
    Seq<TreeModel<Item>>,
    Seq<Item>,
    nat,
    bool,
)
    decreases chs,
{
    if chs.len() == 0 {
        (Seq::empty(), Seq::empty(), 0, true)
    } else {
        let (cs, out, s, ok) = assign_children(chs.drop_last());
        let (c, o, r, ok2) = assign(chs.last());
        (
            if r == 0 { cs } else { cs.push(c) },
            out + o,
            s + r,
            ok && ok2 && s + r <= usize::MAX,
        )
    }
}

proof fn lemma_models_concat<Item>(a: Seq<ConflictTree<Item>>, b: Seq<ConflictTree<Item>>)
    ensures
        ConflictTree::models(a + b) == ConflictTree::models(a) + ConflictTree::models(b),
    decreases b.len(),
{
    if b.len() == 0 {
        assert(a + b =~= a);
        assert(ConflictTree::models(b) =~= Seq::<TreeModel<Item>>::empty());
        assert(ConflictTree::models(a) + ConflictTree::models(b) =~= ConflictTree::models(a));
    } else {
        assert((a + b).drop_last() =~= a + b.drop_last());
        lemma_models_concat(a, b.drop_last());
        assert(ConflictTree::models(a) + ConflictTree::models(b) =~= (ConflictTree::models(a)
            + ConflictTree::models(b.drop_last())).push(b.last().model()));
    }
}

proof fn lemma_models_index<Item>(chs: Seq<ConflictTree<Item>>)
    ensures
        ConflictTree::models(chs).len() == chs.len(),
        forall|i: int| 0 <= i < chs.len() ==> #[trigger] ConflictTree::models(chs)[i] == chs[i]@,
    decreases chs.len(),
{
    if chs.len() > 0 {
        lemma_models_index(chs.drop_last());
    }
}

proof fn lemma_children_sum_prefix<Item>(chs: Seq<TreeModel<Item>>, k: int)
    requires
        0 <= k <= chs.len(),
    ensures
        children_sum(chs.take(k)) <= children_sum(chs),
    decreases chs.len(),
{
    if k < chs.len() {
        assert(chs.drop_last().take(k) =~= chs.take(k));
        lemma_children_sum_prefix(chs.drop_last(), k);
    } else {
        assert(chs.take(k) =~= chs);
    }
}

proof fn lemma_all_fit_index<Item>(chs: Seq<TreeModel<Item>>, i: int)
    requires
        all_fit(chs),
        0 <= i < chs.len(),
    ensures
        sums_fit(chs[i]),
    decreases chs.len(),
{
    if i < chs.len() - 1 {
        lemma_all_fit_index(chs.drop_last(), i);
    }
}

proof fn lemma_assign_children_prefix_ok<Item>(chs: Seq<TreeModel<Item>>, k: int)
    requires
        0 <= k <= chs.len(),
        assign_children(chs).3,
    ensures
        assign_children(chs.take(k)).3,
        assign_children(chs.take(k)).2 <= assign_children(chs).2,
    decreases chs.len(),
{
    if k < chs.len() {
        assert(chs.drop_last().take(k) =~= chs.take(k));
        lemma_assign_children_prefix_ok(chs.drop_last(), k);
    } else {
        assert(chs.take(k) =~= chs);
    }
}

/// The value of a tree does not depend on the cached sums.
proof fn lemma_value_with_sums<Item>(t: TreeModel<Item>)
    ensures
        tree_value(with_sums(t)) == tree_value(t),
    decreases t,
{
    lemma_children_sum_with_sums(t.children);
}

proof fn lemma_children_sum_with_sums<Item>(chs: Seq<TreeModel<Item>>)
    ensures
        children_sum(with_sums_all(chs)) == children_sum(chs),
        with_sums_all(chs).len() == chs.len(),
    decreases chs,
{
    if chs.len() > 0 {
        lemma_children_sum_with_sums(chs.drop_last());
        lemma_value_with_sums(chs.last());
        assert(with_sums_all(chs).drop_last() =~= with_sums_all(chs.drop_last()));
    }
}

/// After the cached sums are filled in, every cached sum is the sum of the
/// values of the node's children.
pub proof fn lemma_with_sums_valid<Item>(t: TreeModel<Item>)
    requires
        sums_fit(t),
    ensures
        sums_valid(with_sums(t)),
    decreases t,
{
    lemma_with_sums_all_valid(t.children);
    lemma_children_sum_with_sums(t.children);
}

proof fn lemma_with_sums_all_valid<Item>(chs: Seq<TreeModel<Item>>)
    requires
        all_fit(chs),
    ensures
        all_valid(with_sums_all(chs)),
    decreases chs,
{
    if chs.len() > 0 {
        lemma_with_sums_all_valid(chs.drop_last());
        lemma_with_sums_valid(chs.last());
        assert(with_sums_all(chs).drop_last() =~= with_sums_all(chs.drop_last()));
    }
}

/// Once the sums of a tree whose sums fit are filled in
/// (`compute_sum_of_max`), the greedy step (`assign_best`) can run on it
/// without overflow, and returns at most the tree's value.
pub proof fn law_weigh_then_assign<Item>(t: TreeModel<Item>)
    requires
        sums_fit(t),
    ensures
        assign(with_sums(t)).3,
        assign(with_sums(t)).2 <= tree_value(t),
{
    lemma_with_sums_valid(t);
    lemma_children_sum_with_sums(t.children);
    lemma_value_with_sums(t);
    lemma_assign_bounded(with_sums(t));
}

/// The items of `items`, without their weights.
pub open spec fn item_bag<Item>(items: Seq<(Item, usize)>) -> Multiset<Item> {
    items.map_values(|e: (Item, usize)| e.0).to_multiset()
}

/// The items of every node of `t`, without their weights.
pub open spec fn tree_items<Item>(t: TreeModel<Item>) -> Multiset<Item>
    decreases t,
{
    item_bag(t.items).add(all_items(t.children))
}

/// The items of every node of the trees `chs`.
pub open spec fn all_items<Item>(chs: Seq<TreeModel<Item>>) -> Multiset<Item>
    decreases chs,
{
    if chs.len() == 0 {
        Multiset::empty()
    } else {
        all_items(chs.drop_last()).add(tree_items(chs.last()))
    }
}

/// Every item of `t` weighs at least 1.
pub open spec fn weights_pos<Item>(t: TreeModel<Item>) -> bool
    decreases t,
{
    (forall|i: int| 0 <= i < t.items.len() ==> #[trigger] t.items[i].1 >= 1) && all_pos(t.children)
}

/// Every item of the trees `chs` weighs at least 1.
pub open spec fn all_pos<Item>(chs: Seq<TreeModel<Item>>) -> bool
    decreases chs,
{
    chs.len() == 0 || (all_pos(chs.drop_last()) && weights_pos(chs.last()))
}

/// Replacing the element `i` of `s` by `x` replaces it in its multiset.
proof fn lemma_update_bag<A>(s: Seq<A>, i: int, x: A)
    requires
        0 <= i < s.len(),
    ensures
        s.update(i, x).to_multiset() =~= s.to_multiset().remove(s[i]).insert(x),
{
    broadcast use vstd::seq_lib::group_seq_properties;
    let u = s.update(i, x);
    assert(u.remove(i) =~= s.remove(i));
    assert(u[i] == x);
    assert(u.to_multiset().count(x) > 0);
    assert(u.to_multiset() =~= u.to_multiset().remove(x).insert(x));
}

/// Taking the item `b` out by moving the last item into its place leaves
/// the other items.
proof fn lemma_swap_remove_bag<Item>(items: Seq<(Item, usize)>, b: int)
    requires
        0 <= b < items.len(),
    ensures
        item_bag(items) =~= item_bag(items.update(b, items.last()).drop_last()).insert(items[b].0),
{
    broadcast use vstd::seq_lib::group_seq_properties;
    let f = |e: (Item, usize)| e.0;
    let v = items.map_values(f);
    let w = items.update(b, items.last()).drop_last();
    assert(v =~= v.drop_last().push(v.last()));
    if b == items.len() - 1 {
        assert(w =~= items.drop_last());
        assert(w.map_values(f) =~= v.drop_last());
    } else {
        assert(w.map_values(f) =~= v.drop_last().update(b, v.last()));
        lemma_update_bag(v.drop_last(), b, v.last());
        assert(v.drop_last().to_multiset().count(v[b]) > 0);
        assert(v.drop_last().to_multiset() =~= v.drop_last().to_multiset().remove(v[b]).insert(v[b]));
    }
}

/// Items weighing at least 1 whose largest weight is 0 are none.
proof fn lemma_weight_zero<Item>(items: Seq<(Item, usize)>)
    requires
        forall|i: int| 0 <= i < items.len() ==> #[trigger] items[i].1 >= 1,
        max_weight(items) == 0,
    ensures
        items.len() == 0,
{
    if items.len() > 0 {
        assert(items.last().1 >= 1);
    }
}

/// A tree of value 0, with weights at least 1, holds no item.
proof fn lemma_value_zero<Item>(t: TreeModel<Item>)
    requires
        weights_pos(t),
        tree_value(t) == 0,
    ensures
        tree_items(t).len() == 0,
    decreases t,
{
    broadcast use vstd::seq_lib::group_seq_properties;
    lemma_weight_zero(t.items);
    lemma_children_zero(t.children);
    assert(t.items.map_values(|e: (Item, usize)| e.0).len() == 0);
    assert(item_bag(t.items).len() == 0);
}

proof fn lemma_children_zero<Item>(chs: Seq<TreeModel<Item>>)
    requires
        all_pos(chs),
        children_sum(chs) == 0,
    ensures
        all_items(chs).len() == 0,
    decreases chs,
{
    if chs.len() > 0 {
        lemma_children_zero(chs.drop_last());
        lemma_value_zero(chs.last());
    }
}

/// One greedy step loses no item: the items it assigns and those left in
/// the tree are, together, the items the tree had. A tree that the step
/// leaves with the value 0 holds no item, so dropping it loses none.
pub proof fn law_assign_keeps_items<Item>(t: TreeModel<Item>)
    requires
        sums_valid(t),
        weights_pos(t),
    ensures
        tree_items(t) =~= tree_items(assign(t).0).add(assign(t).1.to_multiset()),
        assign(t).2 == 0 ==> tree_items(assign(t).0).len() == 0,
    decreases t,
{
    broadcast use vstd::seq_lib::group_seq_properties;
    let (b, bc, sc) = scan_best(t.items);
    lemma_scan_best(t.items);
    if bc <= t.sum_of_children {
        lemma_assign_children_keeps(t.children);
        let (chs, out, s, ok) = assign_children(t.children);
        if assign(t).2 == 0 {
            lemma_weight_zero(t.items);
            assert(t.items.map_values(|e: (Item, usize)| e.0).len() == 0);
        }
    } else {
        lemma_swap_remove_bag(t.items, b);
        assert(seq![t.items[b].0].to_multiset() =~= Multiset::singleton(t.items[b].0)) by {
            assert(seq![t.items[b].0] =~= Seq::<Item>::empty().push(t.items[b].0));
        }
        if assign(t).2 == 0 {
            lemma_children_zero(t.children);
            let rest = t.items.update(b, t.items.last()).drop_last();
            if t.items.len() >= 2 {
                lemma_runner_up(t.items);
            }
            assert(rest.len() == 0);
            assert(rest.map_values(|e: (Item, usize)| e.0).len() == 0);
        }
    }
}

/// Among two or more items weighing at least 1, the runner-up the scan
/// keeps weighs at least 1.
proof fn lemma_runner_up<Item>(items: Seq<(Item, usize)>)
    requires
        forall|i: int| 0 <= i < items.len() ==> #[trigger] items[i].1 >= 1,
        items.len() >= 2,
    ensures
        scan_best(items).2 >= 1,
    decreases items.len(),
{
    let init = items.drop_last();
    assert(items.last().1 >= 1);
    lemma_scan_best(init);
    if init.len() >= 2 {
        assert forall|i: int| 0 <= i < init.len() implies #[trigger] init[i].1 >= 1 by {
            assert(init[i] == items[i]);
        }
        lemma_runner_up(init);
    } else {
        assert(init.len() == 1);
        assert(init[0].1 >= 1);
        assert(init.drop_last().len() == 0);
    }
}

proof fn lemma_assign_children_keeps<Item>(chs: Seq<TreeModel<Item>>)
    requires
        all_valid(chs),
        all_pos(chs),
    ensures
        all_items(chs) =~= all_items(assign_children(chs).0).add(assign_children(chs).1.to_multiset()),
        assign_children(chs).2 == 0 ==> all_items(assign_children(chs).0).len() == 0,
    decreases chs,
{
    broadcast use vstd::seq_lib::group_seq_properties;
    if chs.len() > 0 {
        lemma_assign_children_keeps(chs.drop_last());
        law_assign_keeps_items(chs.last());
        let (cs, out, s, ok) = assign_children(chs.drop_last());
        let (c, o, r, ok2) = assign(chs.last());
        vstd::seq_lib::lemma_multiset_commutative(out, o);
        if r != 0 {
            assert(cs.push(c).drop_last() =~= cs);
        }
    }
}

/// `item` is an item of the node of `t` reached by `path`: the root for
/// the empty path, else the node `path` without its first step reaches
/// in the child `path[0]`.
pub open spec fn item_at_path<Item>(t: TreeModel<Item>, path: Seq<int>, item: Item) -> bool
    decreases path.len(),
{
    if path.len() == 0 {
        exists|i: int| 0 <= i < t.items.len() && #[trigger] t.items[i].0 == item
    } else {
        0 <= path[0] < t.children.len() && item_at_path(t.children[path[0]], path.drop_first(), item)
    }
}

/// Two nodes conflict when one is the other or lies below it: the path
/// to one starts with the path to the other.
pub open spec fn paths_conflict(p: Seq<int>, q: Seq<int>) -> bool {
    p.len() <= q.len() && q.take(p.len() as int) == p || q.len() <= p.len() && p.take(q.len() as int) == q
}

/// The items `out` lie in nodes of `t`, at `paths`, of which no two
/// conflict.
pub open spec fn picks_apart<Item>(t: TreeModel<Item>, out: Seq<Item>, paths: Seq<Seq<int>>) -> bool {
    &&& paths.len() == out.len()
    &&& forall|i: int| 0 <= i < out.len() ==> #[trigger] item_at_path(t, paths[i], out[i])
    &&& forall|i: int, j: int| 0 <= i < j < out.len() ==> !paths_conflict(#[trigger] paths[i], #[trigger] paths[j])
}

/// One greedy step picks items no two of which conflict: no two come from
/// the same node, nor one from a node and another from below it.
pub proof fn law_assign_picks_apart<Item>(t: TreeModel<Item>)
    ensures
        exists|paths: Seq<Seq<int>>| picks_apart(t, assign(t).1, paths),
{
    let paths = lemma_assign_paths(t);
    assert(picks_apart(t, assign(t).1, paths));
}

/// The nodes of `t` at which one greedy step picks its items.
proof fn lemma_assign_paths<Item>(t: TreeModel<Item>) -> (paths: Seq<Seq<int>>)
    ensures
        picks_apart(t, assign(t).1, paths),
    decreases t,
{
    let (b, bc, sc) = scan_best(t.items);
    lemma_scan_best(t.items);
    if bc <= t.sum_of_children {
        let ps = lemma_assign_children_apart(t.children, t);
        ps
    } else {
        let ps = seq![Seq::<int>::empty()];
        assert(item_at_path(t, ps[0], assign(t).1[0]));
        ps
    }
}

/// The picks of the children of `t` in turn lie apart in `t`.
proof fn lemma_assign_children_apart<Item>(chs: Seq<TreeModel<Item>>, t: TreeModel<Item>) -> (paths: Seq<Seq<int>>)
    requires
        chs.len() <= t.children.len(),
        forall|c: int| 0 <= c < chs.len() ==> #[trigger] chs[c] == t.children[c],
    ensures
        picks_apart(t, assign_children(chs).1, paths),
        forall|i: int| 0 <= i < paths.len() ==> #[trigger] paths[i].len() > 0 && 0 <= paths[i][0] < chs.len(),
    decreases chs,
{
    if chs.len() == 0 {
        Seq::empty()
    } else {
        let init = chs.drop_last();
        let c = chs.len() - 1;
        let ps0 = lemma_assign_children_apart(init, t);
        let psc = lemma_assign_paths(chs.last());
        let out = assign_children(init).1;
        let o = assign(chs.last()).1;
        let ps1 = psc.map_values(|p: Seq<int>| seq![c] + p);
        let ps = ps0 + ps1;
        assert(assign_children(chs).1 == out + o);
        assert forall|i: int| 0 <= i < (out + o).len() implies #[trigger] item_at_path(t, ps[i], (out + o)[i]) by {
            if i < out.len() {
                assert(ps[i] == ps0[i]);
            } else {
                let k = i - out.len();
                assert(ps[i] == seq![c] + psc[k]);
                assert(ps[i].drop_first() =~= psc[k]);
                assert(t.children[c] == chs.last());
                assert(item_at_path(chs.last(), psc[k], o[k]));
            }
        }
        assert forall|i: int, j: int| 0 <= i < j < (out + o).len() implies !paths_conflict(
            #[trigger] ps[i],
            #[trigger] ps[j],
        ) by {
            if j < out.len() {
                assert(ps[i] == ps0[i] && ps[j] == ps0[j]);
            } else if i < out.len() {
                let k = j - out.len();
                assert(ps[i] == ps0[i]);
                assert(ps[j] == seq![c] + psc[k]);
                assert(ps[i][0] < c);
                assert(ps[j][0] == c);
                if ps[i].len() <= ps[j].len() && ps[j].take(ps[i].len() as int) == ps[i] {
                    assert(ps[j].take(ps[i].len() as int)[0] == ps[i][0]);
                }
                if ps[j].len() <= ps[i].len() && ps[i].take(ps[j].len() as int) == ps[j] {
                    assert(ps[i].take(ps[j].len() as int)[0] == ps[j][0]);
                }
            } else {
                let ki = i - out.len();
                let kj = j - out.len();
                assert(ps[i] == seq![c] + psc[ki]);
                assert(ps[j] == seq![c] + psc[kj]);
                assert(!paths_conflict(psc[ki], psc[kj]));
                assert(ps[i].drop_first() =~= psc[ki]);
                assert(ps[j].drop_first() =~= psc[kj]);
                if ps[i].len() <= ps[j].len() && ps[j].take(ps[i].len() as int) == ps[i] {
                    assert(psc[kj].take(psc[ki].len() as int) =~= ps[j].take(ps[i].len() as int).drop_first());
                }
                if ps[j].len() <= ps[i].len() && ps[i].take(ps[j].len() as int) == ps[j] {
                    assert(psc[ki].take(psc[kj].len() as int) =~= ps[i].take(ps[j].len() as int).drop_first());
                }
            }
        }
        assert forall|i: int| 0 <= i < ps.len() implies #[trigger] ps[i].len() > 0 && 0 <= ps[i][0] < chs.len() by {
            if i < ps0.len() {
                assert(ps[i] == ps0[i]);
            } else {
                assert(ps[i] == seq![c] + psc[i - ps0.len()]);
            }
        }
        ps
    }
}

/// On a tree whose cached sums are valid, the greedy step never overflows
/// and returns at most the tree's value.
pub proof fn lemma_assign_bounded<Item>(t: TreeModel<Item>)
    requires
        sums_valid(t),
        children_sum(t.children) <= usize::MAX,
    ensures
        assign(t).3,
        assign(t).2 <= tree_value(t),
    decreases t,
{
    let (b, bc, sc) = scan_best(t.items);
    lemma_scan_best(t.items);
    if bc <= t.sum_of_children {
        lemma_assign_children_bounded(t.children);
    }
}

proof fn lemma_assign_children_bounded<Item>(chs: Seq<TreeModel<Item>>)
    requires
        all_valid(chs),
        children_sum(chs) <= usize::MAX,
    ensures
        assign_children(chs).3,
        assign_children(chs).2 <= children_sum(chs),
    decreases chs,
{
    if chs.len() > 0 {
        let last = chs.last();
        assert(children_sum(last.children) <= tree_value(last));
        lemma_assign_children_bounded(chs.drop_last());
        lemma_assign_bounded(last);
    }
}

/// What the scan finds: the largest weight, an index holding it, and a
/// second count no larger than it.
pub proof fn lemma_scan_best<Item>(items: Seq<(Item, usize)>)
    ensures
        scan_best(items).1 == max_weight(items),
        scan_best(items).2 <= scan_best(items).1,
        items.len() == 0 ==> scan_best(items).0 == -1,
        items.len() > 0 ==> 0 <= scan_best(items).0 < items.len() && items[scan_best(
            items,
        ).0].1 == scan_best(items).1,
    decreases items.len(),
{
    if items.len() > 0 {
        lemma_scan_best(items.drop_last());
    }
}

impl<Item: Copy> ConflictTree<Item> {
    pub fn new() -> (r: Self)
        ensures
            r@ == (TreeModel::<Item> {
                items: Seq::empty(),
                children: Seq::empty(),
                sum_of_children: 0,
            }),
    {
        let r = ConflictTree { items: Vec::new(), children: Vec::new(), sum_of_children: 0 };
        assert(Self::models(r.children@) =~= Seq::<TreeModel<Item>>::empty());
        assert(r.items@ =~= Seq::<(Item, usize)>::empty());
        r
    }

    pub fn add_item(&mut self, item: Item, weight: usize)
        ensures
            final(self)@ == (TreeModel { items: old(self)@.items.push((item, weight)), ..old(self)@ }),
    {
        self.items.push((item, weight));
    }

    pub fn add_child(&mut self, child: Self)
        ensures
            final(self)@ == (TreeModel {
                children: old(self)@.children.push(child@),
                ..old(self)@
            }),
    {
        let ghost old_children = self.children@;
        self.children.push(child);
        assert(self.children@.drop_last() =~= old_children);
    }

    /// Moves the items and children of `other` to the end of this node's.
    pub fn append(&mut self, other: Self)
        ensures
            final(self)@ == (TreeModel {
                items: old(self)@.items + other@.items,
                children: old(self)@.children + other@.children,
                ..old(self)@
            }),
    {
        let mut other = other;
        let ghost a = self.children@;
        let ghost b = other.children@;
        self.items.append(&mut other.items);
        self.children.append(&mut other.children);
        proof {
            lemma_models_concat(a, b);
        }
    }

    /// The value of the tree, when every node's children's values sum to a
    /// number that fits in a `usize` (else `None`).
    pub fn checked_value(&self) -> (r: Option<usize>)
        ensures
            r is Some <==> sums_fit(self@),
            r matches Some(v) ==> v == tree_value(self@),
        decreases self@,
    {
        let ghost t = self@;
        proof {
            lemma_models_index(self.children@);
        }
        let n = self.children.len();
        let mut sum: usize = 0;
        let mut k: usize = 0;
        assert(t.children.take(0) =~= Seq::<TreeModel<Item>>::empty());
        while k < n
            invariant
                n == self.children@.len(),
                k <= n,
                t == self@,
                t.children == Self::models(self.children@),
                Self::models(self.children@).len() == n,
                forall|i: int| 0 <= i < n ==> #[trigger] Self::models(self.children@)[i] == self.children@[i]@,
                sum == children_sum(t.children.take(k as int)),
                all_fit(t.children.take(k as int)),
            decreases n - k,
        {
            assert(t.children.take(k as int + 1).drop_last() =~= t.children.take(k as int));
            assert(self.children@[k as int]@ == t.children[k as int]);
            match self.children[k].checked_value() {
                None => {
                    proof {
                        if sums_fit(t) {
                            lemma_all_fit_index(t.children, k as int);
                        }
                    }
                    return None;
                },
                Some(v) => {
                    if sum > usize::MAX - v {
                        proof {
                            lemma_children_sum_prefix(t.children, k as int + 1);
                        }
                        return None;
                    }
                    sum = sum + v;
                },
            }
            k = k + 1;
        }
        assert(t.children.take(n as int) =~= t.children);
        let mut max_self: usize = 0;
        let mut i: usize = 0;
        while i < self.items.len()
            invariant
                i <= self.items@.len(),
                self.items@ == t.items,
                max_self == max_weight(self.items@.take(i as int)),
            decreases self.items@.len() - i,
        {
            assert(self.items@.take(i as int + 1).drop_last() =~= self.items@.take(i as int));
            if self.items[i].1 > max_self {
                max_self = self.items[i].1;
            }
            i = i + 1;
        }
        assert(self.items@.take(i as int) =~= self.items@);
        if sum > max_self {
            Some(sum)
        } else {
            Some(max_self)
        }
    }

    /// Fills in the cached sum of every node and returns the tree's value.
    pub fn compute_sum_of_max(&mut self) -> (r: usize)
        requires
            sums_fit(old(self)@),
        ensures
            final(self)@ == with_sums(old(self)@),
            r == tree_value(old(self)@),
        decreases old(self)@,
    {
        let ghost orig = self@;
        let ghost orig_children = self.children@;
        let mut children: Vec<ConflictTree<Item>> = Vec::new();
        std::mem::swap(&mut children, &mut self.children);
        proof {
            lemma_models_index(orig_children);
        }
        let n = children.len();
        let mut done: Vec<ConflictTree<Item>> = Vec::new();
        let mut sum: usize = 0;
        let mut k: usize = 0;
        while k < n
            invariant
                n == orig_children.len(),
                k <= n,
                orig == old(self)@,
                orig.children == Self::models(orig_children),
                Self::models(orig_children).len() == n,
                sums_fit(orig),
                children@ == orig_children.skip(k as int),
                Self::models(done@) == with_sums_all(orig.children.take(k as int)),
                sum == children_sum(orig.children.take(k as int)),
            decreases n - k,
        {
            let ghost pre_done = done@;
            let mut ch = children.remove(0);
            proof {
                lemma_models_index(orig_children);
            }
            assert(ch@ == orig.children[k as int]);
            proof {
                lemma_all_fit_index(orig.children, k as int);
                lemma_children_sum_prefix(orig.children, k as int + 1);
                assert(orig.children.take(k as int + 1).drop_last() =~= orig.children.take(
                    k as int,
                ));
            }
            let v = ch.compute_sum_of_max();
            sum = sum + v;
            done.push(ch);
            assert(done@.drop_last() =~= pre_done);
            assert(children@ =~= orig_children.skip(k as int + 1));
            k = k + 1;
        }
        assert(orig.children.take(n as int) =~= orig.children);
        self.children = done;
        self.sum_of_children = sum;

        let mut max_self: usize = 0;
        let mut i: usize = 0;
        while i < self.items.len()
            invariant
                i <= self.items@.len(),
                self.items@ == orig.items,
                max_self == max_weight(self.items@.take(i as int)),
            decreases self.items@.len() - i,
        {
            assert(self.items@.take(i as int + 1).drop_last() =~= self.items@.take(i as int));
            if self.items[i].1 > max_self {
                max_self = self.items[i].1;
            }
            i = i + 1;
        }
        assert(self.items@.take(i as int) =~= self.items@);
        if sum > max_self {
            sum
        } else {
            max_self
        }
    }

    /// Assigns the best items of the tree and returns whether the tree
    /// still has items or children.
    pub fn assign_best(&mut self, result: &mut Vec<Item>) -> (r: bool)
        requires
            assign(old(self)@).3,
        ensures
            final(self)@ == assign(old(self)@).0,
            final(result)@ == old(result)@ + assign(old(self)@).1,
            r == (final(self)@.items.len() > 0 || final(self)@.children.len() > 0),
    {
        self.assign_best_(result);
        proof {
            lemma_models_index(self.children@);
        }
        self.items.len() > 0 || self.children.len() > 0
    }

    /// One greedy step: either the best item of this node is assigned, or
    /// the step is applied to each child in turn (children whose returned
    /// value is 0 are dropped).
    pub fn assign_best_(&mut self, result: &mut Vec<Item>) -> (r: usize)
        requires
            assign(old(self)@).3,
        ensures
            final(self)@ == assign(old(self)@).0,
            final(result)@ == old(result)@ + assign(old(self)@).1,
            r == assign(old(self)@).2,
        decreases old(self)@,
    {
        let ghost orig = self@;
        let mut found = false;
        let mut best: usize = 0;
        let mut second_best_count: usize = 0;
        let mut best_count: usize = 0;
        let mut i: usize = 0;
        while i < self.items.len()
            invariant
                i <= self.items@.len(),
                self.items@ == orig.items,
                (if found { best as int } else { -1int }, best_count as nat, second_best_count as nat)
                    == scan_best(self.items@.take(i as int)),
                found ==> best < i,
                !found ==> i == 0 || true,
            decreases self.items@.len() - i,
        {
            assert(self.items@.take(i as int + 1).drop_last() =~= self.items@.take(i as int));
            let w = self.items[i].1;
            if w >= best_count {
                second_best_count = best_count;
                best = i;
                found = true;
                best_count = w;
            } else if w > second_best_count {
                second_best_count = w;
            }
            i = i + 1;
        }
        assert(self.items@.take(i as int) =~= self.items@);
        proof {
            lemma_scan_best(orig.items);
        }

        let max_self;
        if best_count <= self.sum_of_children {
            let ghost orig_children = self.children@;
            proof {
                lemma_models_index(orig_children);
            }
            let mut children: Vec<ConflictTree<Item>> = Vec::new();
            std::mem::swap(&mut children, &mut self.children);
            let n = children.len();
            let mut kept: Vec<ConflictTree<Item>> = Vec::new();
            let mut new_sum_of_children: usize = 0;
            let mut k: usize = 0;
            while k < n
                invariant
                    n == orig_children.len(),
                    k <= n,
                    orig == old(self)@,
                    orig.children == Self::models(orig_children),
                    Self::models(orig_children).len() == n,
                    assign_children(orig.children).3,
                    children@ == orig_children.skip(k as int),
                    Self::models(kept@) == assign_children(orig.children.take(k as int)).0,
                    result@ == old(result)@ + assign_children(orig.children.take(k as int)).1,
                    new_sum_of_children == assign_children(orig.children.take(k as int)).2,
                decreases n - k,
            {
                let ghost pre_kept = kept@;
                let mut ch = children.remove(0);
                proof {
                    lemma_models_index(orig_children);
                }
                assert(ch@ == orig.children[k as int]);
                proof {
                    assert(orig.children.take(k as int + 1).drop_last() =~= orig.children.take(
                        k as int,
                    ));
                    lemma_assign_children_prefix_ok(orig.children, k as int + 1);
                }
                let child_max = ch.assign_best_(result);
                new_sum_of_children = new_sum_of_children + child_max;
                if child_max != 0 {
                    kept.push(ch);
                    assert(kept@.drop_last() =~= pre_kept);
                }
                assert(result@ =~= old(result)@ + assign_children(orig.children.take(
                    k as int + 1,
                )).1);
                assert(children@ =~= orig_children.skip(k as int + 1));
                k = k + 1;
            }
            assert(orig.children.take(n as int) =~= orig.children);
            self.children = kept;
            self.sum_of_children = new_sum_of_children;
            max_self = best_count;
        } else {
            let item_id = self.items[best].0;
            result.push(item_id);
            self.items.swap_remove(best);
            max_self = second_best_count;
            proof {
                assert(self@.children == orig.children);
            }
        }

        if self.sum_of_children > max_self {
            self.sum_of_children
        } else {
            max_self
        }
    }
}

/// The items of a node of module `tag`, each local paired with `tag`.
pub open spec fn annotate_items(items: Seq<(u32, usize)>, tag: u32) -> Seq<((u32, u32), usize)> {
    Seq::new(items.len(), |i: int| ((tag, items[i].0), items[i].1))
}

/// A tree of the locals of module `tag`, each local paired with `tag`; the
/// cached sums are not kept.
pub open spec fn annotate_model(t: TreeModel<u32>, tag: u32) -> TreeModel<(u32, u32)>
    decreases t,
{
    TreeModel {
        items: annotate_items(t.items, tag),
        children: annotate_models(t.children, tag),
        sum_of_children: 0,
    }
}

pub open spec fn annotate_models(chs: Seq<TreeModel<u32>>, tag: u32) -> Seq<TreeModel<(u32, u32)>>
    decreases chs,
{
    if chs.len() == 0 {
        Seq::empty()
    } else {
        annotate_models(chs.drop_last(), tag).push(annotate_model(chs.last(), tag))
    }
}

proof fn lemma_annotate_models_index(chs: Seq<TreeModel<u32>>, tag: u32)
    ensures
        annotate_models(chs, tag).len() == chs.len(),
        forall|i: int| 0 <= i < chs.len() ==> #[trigger] annotate_models(chs, tag)[i] == annotate_model(chs[i], tag),
    decreases chs.len(),
{
    if chs.len() > 0 {
        lemma_annotate_models_index(chs.drop_last(), tag);
    }
}

impl ConflictTree<u32> {
    /// A copy of the tree with each local paired with the module `tag`.
    pub fn clone_and_annotate(&self, tag: u32) -> (r: ConflictTree<(u32, u32)>)
        ensures
            r@ == annotate_model(self@, tag),
        decreases self,
    {
        let mut items: Vec<((u32, u32), usize)> = Vec::new();
        let mut i: usize = 0;
        while i < self.items.len()
            invariant
                i <= self.items@.len(),
                items@ == annotate_items(self.items@.take(i as int), tag),
            decreases self.items@.len() - i,
        {
            items.push(((tag, self.items[i].0), self.items[i].1));
            i = i + 1;
            assert(items@ =~= annotate_items(self.items@.take(i as int), tag));
        }
        assert(self.items@.take(i as int) =~= self.items@);
        let mut children: Vec<ConflictTree<(u32, u32)>> = Vec::new();
        let mut k: usize = 0;
        while k < self.children.len()
            invariant
                k <= self.children@.len(),
                children@.len() == k,
                forall|j: int| 0 <= j < k ==> #[trigger] children@[j]@ == annotate_model(self.children@[j]@, tag),
            decreases self.children@.len() - k,
        {
            let c = self.children[k].clone_and_annotate(tag);
            children.push(c);
            k = k + 1;
        }
        let r = ConflictTree { items, children, sum_of_children: 0 };
        proof {
            lemma_models_index(self.children@);
            lemma_models_index(r.children@);
            lemma_annotate_models_index(self@.children, tag);
            assert(r@.children =~= annotate_models(self@.children, tag));
        }
        r
    }
}

impl<Item> ConflictTree<Item> {
    /// The items of this node.
    pub fn node_items(&self) -> (r: &Vec<(Item, usize)>)
        ensures
            r@ == self@.items,
    {
        &self.items
    }

    /// The children of this node.
    pub fn node_children(&self) -> (r: &Vec<ConflictTree<Item>>)
        ensures
            r@.len() == self@.children.len(),
            forall|i: int| 0 <= i < r@.len() ==> #[trigger] r@[i]@ == self@.children[i],
    {
        proof {
            lemma_models_index(self.children@);
        }
        &self.children
    }
}

} // verus!
