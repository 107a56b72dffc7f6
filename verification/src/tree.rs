//! The partition tree: whether its nodes refer to each other soundly, and
//! how much work a part of it can cause.

use vstd::prelude::*;
use vstd::set_lib::{lemma_int_range, lemma_len_subset, set_int_range};
use crate::geometry::{Geometry, Node};

verus! {

/// Whether a child of a node exists: a node if it is not negative, else
/// the leaf `-(c + 1)`.
pub open spec fn child_ok(g: Geometry, c: int) -> bool {
    if c >= 0 {
        c < g.nodes@.len()
    } else {
        -(c + 1) < g.leafs@.len()
    }
}

/// Whether the plane and both children of a node exist.
pub open spec fn node_ok(g: Geometry, n: Node) -> bool {
    &&& 0 <= n.plane < g.planes@.len()
    &&& child_ok(g, n.children[0] as int)
    &&& child_ok(g, n.children[1] as int)
}

/// Whether the planes and children of all nodes exist.
pub open spec fn nodes_ok(g: Geometry) -> bool {
    forall|i: int| 0 <= i < g.nodes@.len() ==> node_ok(g, #[trigger] g.nodes@[i])
}

/// Whether `order` gives every node a number, none negative, that is
/// larger than the numbers of the nodes among its children.
pub open spec fn orders(g: Geometry, order: Seq<int>) -> bool {
    &&& order.len() == g.nodes@.len()
    &&& forall|i: int| 0 <= i < order.len() ==> 0 <= #[trigger] order[i]
    &&& forall|i: int|
        0 <= i < order.len() ==> {
            &&& (#[trigger] g.nodes@[i]).children[0] >= 0 ==> order[g.nodes@[i].children[0] as int]
                < order[i]
            &&& g.nodes@[i].children[1] >= 0 ==> order[g.nodes@[i].children[1] as int] < order[i]
        }
}

/// Whether `path` leads down the tree from node to node: each of its
/// nodes but the first is a child of the one before it.
pub open spec fn descends(g: Geometry, path: Seq<int>) -> bool {
    &&& path.len() >= 2
    &&& forall|i: int| 0 <= i < path.len() ==> 0 <= #[trigger] path[i] < g.nodes@.len()
    &&& forall|i: int|
        0 <= i < path.len() - 1 ==> g.nodes@[#[trigger] path[i]].children[0] == path[i + 1]
            || g.nodes@[path[i]].children[1] == path[i + 1]
}

/// Whether no node is its own descendant: no path down the tree comes
/// back to the node it started from.
pub open spec fn acyclic(g: Geometry) -> bool {
    forall|path: Seq<int>| #[trigger] descends(g, path) ==> path.last() != path[0]
}

/// Where the nodes are numbered so that every node comes after its
/// children, a path down the tree leads to smaller numbers: it never
/// comes back to the node it started from.
pub proof fn lemma_no_way_back(g: Geometry, order: Seq<int>, path: Seq<int>)
    requires
        orders(g, order),
        descends(g, path),
    ensures
        order[path.last()] < order[path[0]],
        path.last() != path[0],
    decreases path.len(),
{
    let n = path.len() as int;
    assert(0 <= path[n - 2] < g.nodes@.len());
    assert(0 <= path[n - 1] < g.nodes@.len());
    let parent = g.nodes@[path[n - 2]];
    assert(parent.children[0] == path[n - 1] || parent.children[1] == path[n - 1]);
    if n > 2 {
        let shorter = path.drop_last();
        assert forall|i: int| 0 <= i < shorter.len() - 1 implies g.nodes@[
        #[trigger] shorter[i]].children[0] == shorter[i + 1] || g.nodes@[shorter[i]].children[1]
            == shorter[i + 1] by {
            assert(shorter[i] == path[i]);
            assert(shorter[i + 1] == path[i + 1]);
        }
        assert forall|i: int| 0 <= i < shorter.len() implies 0 <= #[trigger] shorter[i]
            < g.nodes@.len() by {
            assert(shorter[i] == path[i]);
        }
        lemma_no_way_back(g, order, shorter);
    }
}

/// The numbers of a list.
pub open spec fn numbers(s: Seq<usize>) -> Seq<int> {
    s.map_values(|x: usize| x as int)
}

/// How many of the first `n` entries are true.
pub open spec fn trues(s: Seq<bool>, n: int) -> int
    decreases n,
{
    if n <= 0 {
        0
    } else if s[n - 1] {
        trues(s, n - 1) + 1
    } else {
        trues(s, n - 1)
    }
}

proof fn lemma_trues_bound(s: Seq<bool>, n: int)
    requires
        0 <= n,
    ensures
        0 <= trues(s, n) <= n,
    decreases n,
{
    if n > 0 {
        lemma_trues_bound(s, n - 1);
    }
}

proof fn lemma_trues_false(s: Seq<bool>, n: int, i: int)
    requires
        0 <= i < n,
        !s[i],
    ensures
        trues(s, n) < n,
    decreases n,
{
    if i < n - 1 {
        lemma_trues_false(s, n - 1, i);
    } else {
        lemma_trues_bound(s, n - 1);
    }
}

proof fn lemma_trues_set(s: Seq<bool>, n: int, i: int)
    requires
        0 <= i < s.len(),
        0 <= n <= s.len(),
        !s[i],
    ensures
        trues(s.update(i, true), n) == trues(s, n) + (if i < n {
            1int
        } else {
            0int
        }),
    decreases n,
{
    if n > 0 {
        lemma_trues_set(s, n - 1, i);
    }
}

proof fn lemma_trues_all(s: Seq<bool>, n: int)
    requires
        0 <= n,
        trues(s, n) == n,
    ensures
        forall|i: int| 0 <= i < n ==> s[i],
    decreases n,
{
    if n > 0 {
        lemma_trues_bound(s, n - 1);
        lemma_trues_all(s, n - 1);
    }
}

proof fn lemma_trues_some_false(s: Seq<bool>, n: int) -> (i: int)
    requires
        0 <= n,
        trues(s, n) < n,
    ensures
        0 <= i < n,
        !s[i],
    decreases n,
{
    if !s[n - 1] {
        n - 1
    } else {
        lemma_trues_some_false(s, n - 1)
    }
}

/// Whether a node waits for a child among the nodes that has no number yet.
pub open spec fn stuck(g: Geometry, ranked: Seq<bool>, i: int) -> bool {
    ||| g.nodes@[i].children[0] >= 0 && !ranked[g.nodes@[i].children[0] as int]
    ||| g.nodes@[i].children[1] >= 0 && !ranked[g.nodes@[i].children[1] as int]
}

/// Whether the nodes numbered so far come after their children.
pub open spec fn ranked_ok(g: Geometry, ranked: Seq<bool>, order: Seq<usize>, count: int) -> bool {
    &&& ranked.len() == g.nodes@.len()
    &&& order.len() == g.nodes@.len()
    &&& forall|i: int|
        0 <= i < ranked.len() && #[trigger] ranked[i] ==> {
            &&& order[i] < count
            &&& g.nodes@[i].children[0] >= 0 ==> ranked[g.nodes@[i].children[0] as int]
                && order[g.nodes@[i].children[0] as int] < order[i]
            &&& g.nodes@[i].children[1] >= 0 ==> ranked[g.nodes@[i].children[1] as int]
                && order[g.nodes@[i].children[1] as int] < order[i]
        }
}

/// A child among the nodes that a stuck node waits for.
pub open spec fn stuck_child(g: Geometry, ranked: Seq<bool>, i: int) -> int {
    if g.nodes@[i].children[0] >= 0 && !ranked[g.nodes@[i].children[0] as int] {
        g.nodes@[i].children[0] as int
    } else {
        g.nodes@[i].children[1] as int
    }
}

/// The path of `n` steps that leads from a stuck node to a node that it
/// waits for, from there to a node that that one waits for, and so on.
pub open spec fn stuck_path(g: Geometry, ranked: Seq<bool>, i: int, n: nat) -> Seq<int>
    decreases n,
{
    if n == 0 {
        seq![i]
    } else {
        stuck_path(g, ranked, i, (n - 1) as nat).push(
            stuck_child(g, ranked, stuck_path(g, ranked, i, (n - 1) as nat).last()),
        )
    }
}

/// Whether every node without a number waits for another such node.
pub open spec fn all_stuck(g: Geometry, ranked: Seq<bool>) -> bool {
    &&& ranked.len() == g.nodes@.len()
    &&& forall|j: int| 0 <= j < ranked.len() && !ranked[j] ==> stuck(g, ranked, j)
}

/// Where every node without a number waits for another such node, the
/// path from such a node to the nodes it waits for never ends: each of its
/// nodes is a child of the one before it, and none has a number.
proof fn lemma_stuck_path(g: Geometry, ranked: Seq<bool>, i: int, n: nat)
    requires
        nodes_ok(g),
        all_stuck(g, ranked),
        0 <= i < ranked.len(),
        !ranked[i],
    ensures
        stuck_path(g, ranked, i, n).len() == n + 1,
        stuck_path(g, ranked, i, n)[0] == i,
        forall|k: int|
            0 <= k <= n ==> 0 <= #[trigger] stuck_path(g, ranked, i, n)[k] < ranked.len()
                && !ranked[stuck_path(g, ranked, i, n)[k]],
        forall|k: int|
            0 <= k < n ==> g.nodes@[#[trigger] stuck_path(g, ranked, i, n)[k]].children[0]
                == stuck_path(g, ranked, i, n)[k + 1] || g.nodes@[stuck_path(
                g,
                ranked,
                i,
                n,
            )[k]].children[1] == stuck_path(g, ranked, i, n)[k + 1],
    decreases n,
{
    if n > 0 {
        lemma_stuck_path(g, ranked, i, (n - 1) as nat);
        let shorter = stuck_path(g, ranked, i, (n - 1) as nat);
        let last = shorter[n - 1];
        assert(0 <= last < ranked.len() && !ranked[last]);
        assert(stuck(g, ranked, last));
        assert(node_ok(g, g.nodes@[last]));
        let path = stuck_path(g, ranked, i, n);
        assert(path == shorter.push(stuck_child(g, ranked, last)));
        assert forall|k: int| 0 <= k <= n implies 0 <= #[trigger] path[k] < ranked.len()
            && !ranked[path[k]] by {
            if k < n {
                assert(path[k] == shorter[k]);
            }
        }
        assert forall|k: int| 0 <= k < n implies g.nodes@[#[trigger] path[k]].children[0] == path[k
            + 1] || g.nodes@[path[k]].children[1] == path[k + 1] by {
            assert(path[k] == shorter[k]);
            if k < n - 1 {
                assert(path[k + 1] == shorter[k + 1]);
            }
        }
    }
}

/// More numbers than `n`, each from `0` to `n - 1`, hold some number twice.
proof fn lemma_repeat(s: Seq<int>, n: int) -> (r: (int, int))
    requires
        0 <= n < s.len(),
        forall|i: int| 0 <= i < s.len() ==> 0 <= #[trigger] s[i] < n,
    ensures
        0 <= r.0 < r.1 < s.len(),
        s[r.0] == s[r.1],
{
    if s.no_duplicates() {
        s.unique_seq_to_set();
        lemma_int_range(0, n);
        assert(s.to_set().subset_of(set_int_range(0, n))) by {
            assert forall|x: int| s.to_set().contains(x) implies set_int_range(0, n).contains(
                x,
            ) by {
                let i = choose|i: int| 0 <= i < s.len() && s[i] == x;
                assert(0 <= s[i] < n);
            }
        }
        lemma_len_subset(s.to_set(), set_int_range(0, n));
    }
    let (i, j) = choose|i: int, j: int|
        0 <= i < s.len() && 0 <= j < s.len() && i != j && s[i] == s[j];
    if i < j {
        (i, j)
    } else {
        (j, i)
    }
}

/// Where every node without a number waits for another such node, and
/// there is such a node, some node is its own descendant.
proof fn lemma_stuck_is_cycle(g: Geometry, ranked: Seq<bool>, i: int)
    requires
        nodes_ok(g),
        all_stuck(g, ranked),
        0 <= i < ranked.len(),
        !ranked[i],
    ensures
        !acyclic(g),
{
    let n = g.nodes@.len();
    lemma_stuck_path(g, ranked, i, n);
    let path = stuck_path(g, ranked, i, n);
    let (a, b) = lemma_repeat(path, n as int);
    let cycle = path.subrange(a, b + 1);
    assert(cycle.len() >= 2);
    assert(cycle[0] == path[a]);
    assert(cycle.last() == path[b]);
    assert forall|k: int| 0 <= k < cycle.len() implies 0 <= #[trigger] cycle[k]
        < g.nodes@.len() by {
        assert(cycle[k] == path[a + k]);
    }
    assert forall|k: int| 0 <= k < cycle.len() - 1 implies g.nodes@[#[trigger] cycle[k]].children[0]
        == cycle[k + 1] || g.nodes@[cycle[k]].children[1] == cycle[k + 1] by {
        assert(cycle[k] == path[a + k]);
        assert(cycle[k + 1] == path[a + k + 1]);
    }
    assert(descends(g, cycle));
}

fn filled_flags(n: usize) -> (v: Vec<bool>)
    ensures
        v@.len() == n,
        forall|i: int| 0 <= i < n ==> !v@[i],
{
    let mut v: Vec<bool> = Vec::new();
    let mut i: usize = 0;
    while i < n
        invariant
            i <= n,
            v@.len() == i,
            forall|k: int| 0 <= k < i ==> !v@[k],
        decreases n - i,
    {
        v.push(false);
        i = i + 1;
    }
    v
}

fn filled_numbers(n: usize) -> (v: Vec<usize>)
    ensures
        v@.len() == n,
{
    let mut v: Vec<usize> = Vec::new();
    let mut i: usize = 0;
    while i < n
        invariant
            i <= n,
            v@.len() == i,
        decreases n - i,
    {
        v.push(0);
        i = i + 1;
    }
    v
}

/// Whether a child is a leaf or a node that has its number.
fn child_ready(ranked: &Vec<bool>, c: i32) -> (r: bool)
    requires
        c >= 0 ==> c < ranked@.len(),
    ensures
        r == (c < 0 || ranked@[c as int]),
{
    c < 0 || ranked[c as usize]
}

/// Numbers the nodes so that every node comes after the nodes among its
/// children, or finds that no such numbering exists.
pub fn rank_nodes(g: &Geometry) -> (r: Option<Vec<usize>>)
    requires
        nodes_ok(*g),
    ensures
        match r {
            Some(order) => orders(*g, numbers(order@)) && acyclic(*g),
            None => !acyclic(*g),
        },
{
    let n: usize = g.nodes.len();
    let mut ranked: Vec<bool> = filled_flags(n);
    let mut order: Vec<usize> = filled_numbers(n);
    let mut count: usize = 0;
    proof {
        lemma_trues_zero(ranked@, n as int);
    }
    loop
        invariant
            n == g.nodes@.len(),
            nodes_ok(*g),
            count == trues(ranked@, n as int),
            count <= n,
            ranked_ok(*g, ranked@, order@, count as int),
        decreases n - count,
    {
        if count == n {
            proof {
                lemma_trues_all(ranked@, n as int);
                let h = numbers(order@);
                assert forall|i: int| 0 <= i < h.len() implies {
                    &&& (#[trigger] g.nodes@[i]).children[0] >= 0
                        ==> h[g.nodes@[i].children[0] as int] < h[i]
                    &&& g.nodes@[i].children[1] >= 0 ==> h[g.nodes@[i].children[1] as int] < h[i]
                } by {
                    assert(ranked@[i]);
                    assert(node_ok(*g, g.nodes@[i]));
                }
                assert(orders(*g, h));
                assert forall|path: Seq<int>| #[trigger] descends(*g, path) implies path.last()
                    != path[0] by {
                    lemma_no_way_back(*g, h, path);
                }
            }
            return Some(order);
        }
        let ghost start = ranked@;
        let ghost start_count = count;
        let mut progress: bool = false;
        let mut i: usize = n;
        while i > 0
            invariant
                i <= n,
                n == g.nodes@.len(),
                nodes_ok(*g),
                count == trues(ranked@, n as int),
                count <= n,
                start_count <= count,
                progress ==> start_count < count,
                ranked_ok(*g, ranked@, order@, count as int),
                !progress ==> ranked@ == start,
                !progress ==> forall|j: int|
                    i <= j < n && !ranked@[j] ==> stuck(*g, ranked@, j),
            decreases i,
        {
            i = i - 1;
            if !ranked[i] {
                let node: &Node = &g.nodes[i];
                assert(node_ok(*g, *node));
                if child_ready(&ranked, node.children[0]) && child_ready(
                    &ranked,
                    node.children[1],
                ) {
                    proof {
                        lemma_trues_false(ranked@, n as int, i as int);
                        lemma_trues_set(ranked@, n as int, i as int);
                    }
                    ranked.set(i, true);
                    order.set(i, count);
                    count = count + 1;
                    progress = true;
                }
            }
        }
        if !progress {
            proof {
                let i = lemma_trues_some_false(ranked@, n as int);
                lemma_stuck_is_cycle(*g, ranked@, i);
            }
            return None;
        }
    }
}

proof fn lemma_trues_zero(s: Seq<bool>, n: int)
    requires
        0 <= n <= s.len(),
        forall|i: int| 0 <= i < n ==> !s[i],
    ensures
        trues(s, n) == 0,
    decreases n,
{
    if n > 0 {
        lemma_trues_zero(s, n - 1);
    }
}

/// The steps that a leaf can cause: one for each of its brushes, and one.
pub open spec fn leaf_weight(g: Geometry, leaf: int) -> nat {
    if 0 <= leaf < g.leafs@.len() && g.leafs@[leaf].num_leaf_brushes > 0 {
        (1 + g.leafs@[leaf].num_leaf_brushes) as nat
    } else {
        1
    }
}

/// A bound on the steps that a part of the segment can cause once it
/// waits for the child `c` of a node: those of a leaf, or for a node two
/// steps and twice what the heavier of its children can cause, since
/// both parts of a cut segment go to the same child.
pub open spec fn weight(g: Geometry, order: Seq<int>, c: int) -> nat
    decreases
            (if 0 <= c < order.len() && order[c] >= 0 {
                order[c] + 1
            } else {
                0
            }),
{
    if c < 0 {
        leaf_weight(g, -(c + 1))
    } else if c >= order.len() || c >= g.nodes@.len() || order[c] < 0 {
        0
    } else {
        let c0 = g.nodes@[c].children[0] as int;
        let c1 = g.nodes@[c].children[1] as int;
        let w0 = if c0 < 0 || (c0 < order.len() && 0 <= order[c0] < order[c]) {
            weight(g, order, c0)
        } else {
            0
        };
        let w1 = if c1 < 0 || (c1 < order.len() && 0 <= order[c1] < order[c]) {
            weight(g, order, c1)
        } else {
            0
        };
        if w0 >= w1 {
            2 + 2 * w0
        } else {
            2 + 2 * w1
        }
    }
}

/// A node weighs more than twice what either of its children weighs.
pub proof fn lemma_child_weight(g: Geometry, order: Seq<int>, n: int, side: int)
    requires
        nodes_ok(g),
        orders(g, order),
        0 <= n < g.nodes@.len(),
        0 <= side < 2,
    ensures
        2 * weight(g, order, g.nodes@[n].children[side] as int) + 2 <= weight(g, order, n),
{
    assert(node_ok(g, g.nodes@[n]));
}

} // verus!
