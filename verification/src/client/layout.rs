//! The layout tree as mathematics: its shape, how it tiles the screen, and
//! what inserting and removing a module make of it.
//!
//! The tree lies in a sequence, the root first; the children of node `k` are
//! the nodes `2k + 1` and `2k + 2`. A node is a leaf or has both children,
//! and the children's rectangles are the two halves of the node's own.

use crate::client::{Container, LayoutError, LayoutNode};
use vstd::prelude::*;

verus! {

/// 2 to the power of `n`.
pub open spec fn two_to(n: nat) -> nat
    decreases n,
{
    if n == 0 {
        1
    } else {
        2 * two_to((n - 1) as nat)
    }
}

/// The half of `parent` that its first child gets: the left half where the
/// cut is vertical, the upper half where it is horizontal. Where the size is
/// odd, this is the smaller half.
pub open spec fn first_half(parent: Container, vertical: bool) -> Container {
    if vertical {
        Container { right: (parent.left + parent.width() / 2) as u32, ..parent }
    } else {
        Container { bottom: (parent.top + parent.height() / 2) as u32, ..parent }
    }
}

/// The half of `parent` that its second child gets.
pub open spec fn second_half(parent: Container, vertical: bool) -> Container {
    if vertical {
        Container { left: (parent.left + parent.width() / 2) as u32, ..parent }
    } else {
        Container { top: (parent.top + parent.height() / 2) as u32, ..parent }
    }
}

/// Whether node `k` is cut vertically: the root is cut horizontally, and
/// each level below is cut the other way than the level above.
pub open spec fn cut_vertically(k: int) -> bool
    decreases k,
{
    if k <= 0 {
        false
    } else {
        !cut_vertically((k - 1) / 2)
    }
}

/// The number of nodes that are cut when the tree is set up with `expoent`:
/// one less than 2 to the power of `expoent`, but at least the root.
pub open spec fn cuts(expoent: nat) -> int {
    if two_to(expoent) >= 2 {
        two_to(expoent) - 1
    } else {
        1
    }
}

/// Node `k` of `t` has its two children where they belong, and their
/// rectangles are the halves of its own, cut the way that its level is cut.
pub open spec fn cut_at(t: Seq<LayoutNode>, k: int) -> bool {
    &&& t[k].left == Some((2 * k + 1) as usize)
    &&& t[k].right == Some((2 * k + 2) as usize)
    &&& t[2 * k + 1].container == first_half(t[k].container, cut_vertically(k))
    &&& t[2 * k + 2].container == second_half(t[k].container, cut_vertically(k))
}

/// Node `k` of `t` is not occupied.
pub open spec fn vacant(t: Seq<LayoutNode>, k: int) -> bool {
    t[k].module_id is None && !t[k].has_child
}

/// Node `k` of `t` is a leaf.
pub open spec fn is_leaf(t: Seq<LayoutNode>, k: int) -> bool {
    t[k].left is None && t[k].right is None
}

/// Node `k` of `t` has its two children where they belong, and their
/// rectangles are the halves of its own, cut one way or the other.
pub open spec fn has_halves(t: Seq<LayoutNode>, k: int) -> bool {
    &&& t[k].left == Some((2 * k + 1) as usize)
    &&& t[k].right == Some((2 * k + 2) as usize)
    &&& 2 * k + 2 < t.len()
    &&& exists|vertical: bool|
        {
            &&& t[2 * k + 1].container == first_half(t[k].container, vertical)
            &&& t[2 * k + 2].container == second_half(t[k].container, vertical)
        }
}

/// Node `k` of `t` is the root or a half of its parent.
pub open spec fn linked(t: Seq<LayoutNode>, k: int) -> bool {
    k == 0 || has_halves(t, (k - 1) / 2)
}

/// Every node of `t` is a leaf or has its two halves, and every node but the
/// root is a half of its parent.
pub open spec fn well_formed(t: Seq<LayoutNode>) -> bool {
    &&& forall|k: int| 0 <= k < t.len() ==> #[trigger] is_leaf(t, k) || has_halves(t, k)
    &&& forall|k: int| 0 <= k < t.len() ==> #[trigger] linked(t, k)
}

/// `t` is the tree that setting up gives for a screen of `screen_w` columns
/// and `screen_h` rows: the root is the screen, the first `cuts(expoent)`
/// nodes are cut, the rest are leaves, and no node is occupied.
pub open spec fn is_bsp(t: Seq<LayoutNode>, expoent: nat, screen_w: u32, screen_h: u32) -> bool {
    &&& t.len() == 2 * cuts(expoent) + 1
    &&& t[0].container == (Container { top: 0, right: screen_w, bottom: screen_h, left: 0 })
    &&& forall|k: int| 0 <= k < t.len() ==> #[trigger] vacant(t, k)
    &&& forall|k: int|
        0 <= k < cuts(expoent) ==> #[trigger] cut_at(t, k)
    &&& forall|k: int| cuts(expoent) <= k < t.len() ==> #[trigger] is_leaf(t, k)
}

/// A node that is not occupied and has no children.
pub open spec fn free_leaf_at(container: Container) -> LayoutNode {
    LayoutNode { container, module_id: None, has_child: false, left: None, right: None }
}

/// `t` is a tree under construction: its first `done` nodes are cut, the
/// rest are leaves, no node is occupied, and the root is `root`.
pub open spec fn cut_upto(t: Seq<LayoutNode>, done: int, root: Container) -> bool {
    &&& t.len() == 2 * done + 1
    &&& t[0].container == root
    &&& forall|k: int| 0 <= k < t.len() ==> #[trigger] vacant(t, k)
    &&& forall|k: int|
        0 <= k < done ==> #[trigger] cut_at(t, k)
    &&& forall|k: int| done <= k < t.len() ==> #[trigger] is_leaf(t, k)
}

/// `t` with its first leaf cut: the two halves are added as leaves, and the
/// node gets them as its children.
pub open spec fn cut_next(t: Seq<LayoutNode>, done: int) -> Seq<LayoutNode> {
    let vertical = cut_vertically(done);
    t.push(free_leaf_at(first_half(t[done].container, vertical))).push(
        free_leaf_at(second_half(t[done].container, vertical)),
    ).update(
        done,
        LayoutNode {
            left: Some((2 * done + 1) as usize),
            right: Some((2 * done + 2) as usize),
            ..t[done]
        },
    )
}

/// Cutting the first leaf of a tree under construction gives a tree under
/// construction with one more node cut.
pub proof fn lemma_cut_next(t: Seq<LayoutNode>, done: int, root: Container)
    requires
        0 <= done,
        cut_upto(t, done, root),
    ensures
        cut_upto(cut_next(t, done), done + 1, root),
{
    let t2 = cut_next(t, done);
    assert(t2.len() == 2 * (done + 1) + 1);
    assert forall|k: int| 0 <= k < t2.len() implies #[trigger] vacant(t2, k) by {
        if k < t.len() {
            assert(vacant(t, k));
        }
    }
    assert forall|k: int| 0 <= k < done + 1 implies #[trigger] cut_at(t2, k) by {
        if k < done {
            assert(cut_at(t, k));
        }
    }
    assert forall|k: int| done + 1 <= k < t2.len() implies #[trigger] is_leaf(t2, k) by {
        if k < t.len() {
            assert(is_leaf(t, k));
        }
    }
}

/// A tree under construction in which as many nodes are cut as setting up
/// asks for is the tree that setting up gives.
pub proof fn lemma_cut_all(t: Seq<LayoutNode>, expoent: nat, screen_w: u32, screen_h: u32)
    requires
        cut_upto(
            t,
            cuts(expoent),
            Container { top: 0, right: screen_w, bottom: screen_h, left: 0 },
        ),
    ensures
        is_bsp(t, expoent, screen_w, screen_h),
{
}

/// The search for a place passes through a node that is occupied without
/// holding a module itself.
pub open spec fn passes(n: LayoutNode) -> bool {
    n.has_child && n.module_id is None
}

/// The search for a place reaches node `k`: the root, and every child of a
/// node that it reaches and passes through.
pub open spec fn reached(t: Seq<LayoutNode>, k: int) -> bool
    decreases k,
{
    if k <= 0 {
        k == 0
    } else {
        let parent = (k - 1) / 2;
        reached(t, parent) && passes(t[parent]) && !is_leaf(t, parent)
    }
}

/// The first node at or behind `from` at which the search stops: one that it
/// reaches and that is free or holds a module.
pub open spec fn first_stop_from(t: Seq<LayoutNode>, from: int) -> Option<int>
    decreases t.len() - from,
{
    if from < 0 || from >= t.len() {
        None
    } else if reached(t, from) && !passes(t[from]) {
        Some(from)
    } else {
        first_stop_from(t, from + 1)
    }
}

/// The node at which the search for a place stops. The search goes through
/// the tree level by level, which in this tree is by rising index.
pub open spec fn first_stop(t: Seq<LayoutNode>) -> Option<int> {
    first_stop_from(t, 0)
}

/// Node `n` with the module `held` in it.
pub open spec fn occupied_by(n: LayoutNode, held: Option<usize>) -> LayoutNode {
    LayoutNode { module_id: held, has_child: true, ..n }
}

/// The tree after the module `id` is given a place, and the place. A free
/// node takes the module. A node that holds a module hands it to its first
/// child and gives the second child to the new module, whose place that is.
/// There is no place where the search stops nowhere, or at a node that holds
/// a module and cannot be cut.
pub open spec fn place(t: Seq<LayoutNode>, id: usize) -> (
    Seq<LayoutNode>,
    Result<Container, LayoutError>,
) {
    match first_stop(t) {
        None => (t, Err(LayoutError::Full)),
        Some(k) => {
            if !t[k].has_child {
                (t.update(k, occupied_by(t[k], Some(id))), Ok(t[k].container))
            } else if is_leaf(t, k) {
                (t, Err(LayoutError::Full))
            } else {
                (
                    t.update(2 * k + 1, occupied_by(t[2 * k + 1], t[k].module_id)).update(
                        2 * k + 2,
                        occupied_by(t[2 * k + 2], Some(id)),
                    ).update(k, LayoutNode { module_id: None, ..t[k] }),
                    Ok(t[2 * k + 2].container),
                )
            }
        },
    }
}

/// Node `k` waits to be looked at once every node before `lo` has been: it
/// is the root, or its parent lies before `lo`.
pub open spec fn waits(k: int, lo: int) -> bool {
    k == 0 || (k - 1) / 2 < lo
}

/// The state of the search: every node before `lo` that the search reaches
/// is passed through, and `queue` holds, in rising order, the nodes from `lo`
/// on that the search reaches and whose parent lies before `lo`.
pub open spec fn frontier(t: Seq<LayoutNode>, queue: Seq<usize>, lo: int) -> bool {
    &&& 0 <= lo <= t.len()
    &&& forall|i: int, j: int| 0 <= i < j < queue.len() ==> queue[i] < queue[j]
    &&& forall|i: int|
        0 <= i < queue.len() ==> lo <= #[trigger] queue[i] < t.len() && reached(
            t,
            queue[i] as int,
        ) && waits(queue[i] as int, lo)
    &&& forall|k: int|
        lo <= k < t.len() && #[trigger] reached(t, k) && waits(k, lo) ==> queue.contains(
            k as usize,
        )
    &&& forall|k: int| 0 <= k < lo && #[trigger] reached(t, k) ==> passes(t[k])
}

/// The search reaches no node between `lo` and the head of the queue, or,
/// where the queue is empty, no node from `lo` on.
pub proof fn lemma_gap(t: Seq<LayoutNode>, queue: Seq<usize>, lo: int, k: int)
    requires
        frontier(t, queue, lo),
        lo <= k < t.len(),
        queue.len() > 0 ==> k < queue[0],
    ensures
        !reached(t, k),
    decreases k,
{
    if reached(t, k) {
        if waits(k, lo) {
            assert(queue.contains(k as usize));
            let i = choose|i: int| 0 <= i < queue.len() && queue[i] == k as usize;
            if i > 0 {
                assert(queue[0] < queue[i]);
            }
        } else {
            lemma_gap(t, queue, lo, (k - 1) / 2);
        }
    }
}

/// Where the search passes through every node that it reaches before `k`,
/// the first stop is the first one from `k` on.
pub proof fn lemma_first_stop_skips(t: Seq<LayoutNode>, from: int, k: int)
    requires
        0 <= from <= k <= t.len(),
        forall|j: int| from <= j < k && #[trigger] reached(t, j) ==> passes(t[j]),
    ensures
        first_stop_from(t, from) == first_stop_from(t, k),
    decreases k - from,
{
    if from < k {
        lemma_first_stop_skips(t, from + 1, k);
    }
}

/// The search goes on behind a node that it passes through: the node leaves
/// the queue, and its children, if it has any, join it at the end.
pub proof fn lemma_search_on(t: Seq<LayoutNode>, queue: Seq<usize>, lo: int)
    requires
        well_formed(t),
        frontier(t, queue, lo),
        queue.len() > 0,
        passes(t[queue[0] as int]),
        t.len() <= usize::MAX,
    ensures
        ({
            let q = queue[0] as int;
            let rest = queue.subrange(1, queue.len() as int);
            let next = if is_leaf(t, q) {
                rest
            } else {
                rest.push((2 * q + 1) as usize).push((2 * q + 2) as usize)
            };
            frontier(t, next, q + 1)
        }),
{
    let q = queue[0] as int;
    let rest = queue.subrange(1, queue.len() as int);
    let next = if is_leaf(t, q) {
        rest
    } else {
        rest.push((2 * q + 1) as usize).push((2 * q + 2) as usize)
    };
    assert(is_leaf(t, q) || has_halves(t, q));
    assert forall|k: int| 0 <= k < q + 1 && #[trigger] reached(t, k) implies passes(t[k]) by {
        if lo <= k < q {
            lemma_gap(t, queue, lo, k);
        }
    }
    assert forall|i: int| 0 <= i < next.len() implies q + 1 <= #[trigger] next[i] < t.len()
        && reached(t, next[i] as int) && waits(next[i] as int, q + 1) by {
        if i < rest.len() {
            assert(next[i] == queue[i + 1]);
            assert(queue[0] < queue[i + 1]);
        }
    }
    assert forall|i: int, j: int| 0 <= i < j < next.len() implies next[i] < next[j] by {
        if j < rest.len() {
            assert(next[i] == queue[i + 1] && next[j] == queue[j + 1]);
        } else if i < rest.len() {
            assert(next[i] == queue[i + 1]);
            assert(waits(queue[i + 1] as int, lo));
        }
    }
    assert forall|k: int|
        q + 1 <= k < t.len() && #[trigger] reached(t, k) && waits(k, q + 1) implies next.contains(
        k as usize,
    ) by {
        let parent = (k - 1) / 2;
        if parent < lo {
            assert(queue.contains(k as usize));
            let i = choose|i: int| 0 <= i < queue.len() && queue[i] == k as usize;
            assert(next[i - 1] == k as usize);
        } else if parent < q {
            lemma_gap(t, queue, lo, parent);
        } else {
            if k == 2 * q + 1 {
                assert(next[rest.len() as int] == k as usize);
            } else {
                assert(next[rest.len() as int + 1] == k as usize);
            }
        }
    }
}

/// Two trees have the same shape: as many nodes, with the same links and the
/// same rectangles.
pub open spec fn same_shape(t: Seq<LayoutNode>, u: Seq<LayoutNode>) -> bool {
    &&& t.len() == u.len()
    &&& forall|k: int|
        0 <= k < t.len() ==> (#[trigger] u[k]).container == t[k].container && u[k].left
            == t[k].left && u[k].right == t[k].right
}

/// A tree of the shape of a well-formed tree is well formed.
pub proof fn lemma_same_shape(t: Seq<LayoutNode>, u: Seq<LayoutNode>)
    requires
        well_formed(t),
        same_shape(t, u),
    ensures
        well_formed(u),
{
    assert forall|k: int| 0 <= k < u.len() implies #[trigger] is_leaf(u, k) || has_halves(
        u,
        k,
    ) by {
        assert(is_leaf(t, k) || has_halves(t, k));
        if has_halves(t, k) {
            let vertical = choose|vertical: bool|
                {
                    &&& t[2 * k + 1].container == first_half(t[k].container, vertical)
                    &&& t[2 * k + 2].container == second_half(t[k].container, vertical)
                };
            assert(u[2 * k + 1].container == first_half(u[k].container, vertical));
            assert(u[2 * k + 2].container == second_half(u[k].container, vertical));
        }
    }
    assert forall|k: int| 0 <= k < u.len() implies #[trigger] linked(u, k) by {
        assert(linked(t, k));
        if k > 0 {
            let parent = (k - 1) / 2;
            let vertical = choose|vertical: bool|
                {
                    &&& t[2 * parent + 1].container == first_half(t[parent].container, vertical)
                    &&& t[2 * parent + 2].container == second_half(t[parent].container, vertical)
                };
            assert(u[2 * parent + 1].container == first_half(u[parent].container, vertical));
            assert(u[2 * parent + 2].container == second_half(u[parent].container, vertical));
        }
    }
}

/// Node `n` without a module, not occupied.
pub open spec fn emptied(n: LayoutNode) -> LayoutNode {
    LayoutNode { module_id: None, has_child: false, ..n }
}

/// The tree after the module of the child `c` of node `k` has moved up into
/// `k`, and `c` is left empty.
pub open spec fn promoted(t: Seq<LayoutNode>, k: int, c: int) -> Seq<LayoutNode> {
    t.update(k, LayoutNode { module_id: t[c].module_id, ..t[k] }).update(c, emptied(t[c]))
}

/// Node `k` has exactly one occupied child, which is `c` and holds a module.
pub open spec fn only_child(t: Seq<LayoutNode>, k: int, c: int) -> bool {
    let other = if c == 2 * k + 1 {
        2 * k + 2
    } else {
        2 * k + 1
    };
    t[c].has_child && !t[other].has_child && t[c].module_id is Some
}

/// Node `k` is one that collapsing looks into: it is occupied, holds no
/// module itself and has children.
pub open spec fn hollow(t: Seq<LayoutNode>, k: int) -> bool {
    passes(t[k]) && !is_leaf(t, k)
}

/// What collapsing makes of the tree at node `k`. Where the node is hollow
/// and only one of its children is occupied, and by a module, the module
/// moves up into the node. Where none of its children is occupied, the node
/// is no longer occupied either.
pub open spec fn collapse_at(t: Seq<LayoutNode>, k: int) -> Seq<LayoutNode> {
    if !hollow(t, k) {
        t
    } else if only_child(t, k, 2 * k + 1) {
        promoted(t, k, 2 * k + 1)
    } else if only_child(t, k, 2 * k + 2) {
        promoted(t, k, 2 * k + 2)
    } else if !t[2 * k + 1].has_child && !t[2 * k + 2].has_child {
        t.update(k, LayoutNode { has_child: false, ..t[k] })
    } else {
        t
    }
}

/// The tree collapsed at node `k` and then at every node before it, the
/// last one first.
pub open spec fn collapse_down(t: Seq<LayoutNode>, k: int) -> Seq<LayoutNode>
    decreases k + 1,
{
    if k < 0 {
        t
    } else {
        collapse_down(collapse_at(t, k), k - 1)
    }
}

/// The tree collapsed at every node, from the last one to the root.
pub open spec fn collapsed(t: Seq<LayoutNode>) -> Seq<LayoutNode> {
    collapse_down(t, t.len() - 1)
}

/// The tree after the module `id` is taken off, and whether there was such
/// a module: the first node that holds it is emptied, and the tree is
/// collapsed.
pub open spec fn unplace(t: Seq<LayoutNode>, id: usize) -> (
    Seq<LayoutNode>,
    Result<(), LayoutError>,
) {
    match holder(t, id) {
        None => (t, Err(LayoutError::Missing)),
        Some(k) => (collapsed(t.update(k, emptied(t[k]))), Ok(())),
    }
}

/// Collapsing at node `k` changes nothing.
pub open spec fn settled_at(t: Seq<LayoutNode>, k: int) -> bool {
    hollow(t, k) ==> !only_child(t, k, 2 * k + 1) && !only_child(t, k, 2 * k + 2) && (t[2 * k
        + 1].has_child || t[2 * k + 2].has_child)
}

/// Collapsing changes nothing at any node from `from` on.
pub open spec fn settled_from(t: Seq<LayoutNode>, from: int) -> bool {
    forall|j: int| from <= j < t.len() ==> #[trigger] settled_at(t, j)
}

/// Collapsing keeps the shape of the tree, and leaves every node settled
/// that was settled and lies behind the node at which it is done, and that
/// node too.
pub proof fn lemma_collapse_at(t: Seq<LayoutNode>, k: int)
    requires
        well_formed(t),
        0 <= k < t.len(),
        settled_from(t, k + 1),
    ensures
        same_shape(t, collapse_at(t, k)),
        well_formed(collapse_at(t, k)),
        settled_from(collapse_at(t, k), k),
{
    let u = collapse_at(t, k);
    assert(is_leaf(t, k) || has_halves(t, k));
    lemma_same_shape(t, u);
    assert forall|j: int| k <= j < u.len() implies #[trigger] settled_at(u, j) by {
        if j > k {
            assert(settled_at(t, j));
            assert(is_leaf(t, j) || has_halves(t, j));
        }
    }
}

/// Collapsing from a node down changes nothing where every node up to it is
/// settled already from some node on.
pub proof fn lemma_collapse_settled(t: Seq<LayoutNode>, k: int, from: int)
    requires
        0 <= from,
        from - 1 <= k < t.len(),
        settled_from(t, from),
    ensures
        collapse_down(t, k) == collapse_down(t, from - 1),
    decreases k + 1,
{
    if k >= from {
        assert(settled_at(t, k));
        assert(collapse_at(t, k) == t);
        lemma_collapse_settled(t, k - 1, from);
    }
}

/// The first node at or behind `from` that holds the module `id`.
pub open spec fn holder_from(t: Seq<LayoutNode>, id: usize, from: int) -> Option<int>
    decreases t.len() - from,
{
    if from < 0 || from >= t.len() {
        None
    } else if t[from].module_id == Some(id) {
        Some(from)
    } else {
        holder_from(t, id, from + 1)
    }
}

/// The first node that holds the module `id`.
pub open spec fn holder(t: Seq<LayoutNode>, id: usize) -> Option<int> {
    holder_from(t, id, 0)
}

/// The first holder holds the module, and no node before it does; where there
/// is none, no node holds the module.
pub proof fn lemma_holder_from(t: Seq<LayoutNode>, id: usize, from: int)
    requires
        0 <= from,
    ensures
        match holder_from(t, id, from) {
            Some(k) => from <= k < t.len() && t[k].module_id == Some(id) && forall|j: int|
                from <= j < k ==> (#[trigger] t[j]).module_id != Some(id),
            None => forall|j: int| from <= j < t.len() ==> (#[trigger] t[j]).module_id != Some(id),
        },
    decreases t.len() - from,
{
    if from < t.len() && t[from].module_id != Some(id) {
        lemma_holder_from(t, id, from + 1);
    }
}

/// A tree that was just set up is well formed.
pub proof fn lemma_bsp_well_formed(t: Seq<LayoutNode>, expoent: nat, screen_w: u32, screen_h: u32)
    requires
        is_bsp(t, expoent, screen_w, screen_h),
    ensures
        well_formed(t),
{
    assert forall|k: int| 0 <= k < t.len() implies #[trigger] is_leaf(t, k) || has_halves(
        t,
        k,
    ) by {
        if k < cuts(expoent) {
            assert(cut_at(t, k));
            let vertical = cut_vertically(k);
            assert(t[2 * k + 1].container == first_half(t[k].container, vertical));
            assert(t[2 * k + 2].container == second_half(t[k].container, vertical));
        } else {
            assert(is_leaf(t, k));
        }
    }
    assert forall|k: int| 0 <= k < t.len() implies #[trigger] linked(t, k) by {
        if k > 0 {
            let parent = (k - 1) / 2;
            assert(cut_at(t, parent));
            let vertical = cut_vertically(parent);
            assert(t[2 * parent + 1].container == first_half(t[parent].container, vertical));
            assert(t[2 * parent + 2].container == second_half(t[parent].container, vertical));
        }
    }
}

/// The rectangle `c` holds the cell in column `x` and row `y`.
pub open spec fn covers(c: Container, x: int, y: int) -> bool {
    c.left <= x < c.right && c.top <= y < c.bottom
}

/// The rectangle `c` lies inside the rectangle `outer`.
pub open spec fn inside(c: Container, outer: Container) -> bool {
    &&& outer.left <= c.left <= c.right <= outer.right
    &&& outer.top <= c.top <= c.bottom <= outer.bottom
}

/// The leaf below node `k` that holds the cell (`x`, `y`), found by going
/// down from `k` into the half that holds the cell.
pub open spec fn leaf_at(t: Seq<LayoutNode>, k: int, x: int, y: int) -> int
    decreases t.len() - k,
{
    if k < 0 || 2 * k + 2 >= t.len() || is_leaf(t, k) {
        k
    } else if covers(t[2 * k + 1].container, x, y) {
        leaf_at(t, 2 * k + 1, x, y)
    } else {
        leaf_at(t, 2 * k + 2, x, y)
    }
}

/// Every cell of a rectangle lies in exactly one of its halves, and the
/// halves hold no other cells.
pub proof fn lemma_halves(parent: Container, vertical: bool, x: int, y: int)
    ensures
        covers(parent, x, y) <==> covers(first_half(parent, vertical), x, y) || covers(
            second_half(parent, vertical),
            x,
            y,
        ),
        !(covers(first_half(parent, vertical), x, y) && covers(
            second_half(parent, vertical),
            x,
            y,
        )),
        parent.left <= parent.right && parent.top <= parent.bottom ==> inside(
            first_half(parent, vertical),
            parent,
        ) && inside(second_half(parent, vertical), parent),
{
}

/// Going down from a node that holds a cell ends in a leaf that holds it.
pub proof fn lemma_leaf_below(t: Seq<LayoutNode>, k: int, x: int, y: int)
    requires
        well_formed(t),
        0 <= k < t.len(),
        covers(t[k].container, x, y),
    ensures
        k <= leaf_at(t, k, x, y) < t.len(),
        is_leaf(t, leaf_at(t, k, x, y)),
        covers(t[leaf_at(t, k, x, y)].container, x, y),
    decreases t.len() - k,
{
    assert(is_leaf(t, k) || has_halves(t, k));
    if !is_leaf(t, k) {
        let vertical = choose|vertical: bool|
            {
                &&& t[2 * k + 1].container == first_half(t[k].container, vertical)
                &&& t[2 * k + 2].container == second_half(t[k].container, vertical)
            };
        lemma_halves(t[k].container, vertical, x, y);
        if covers(t[2 * k + 1].container, x, y) {
            lemma_leaf_below(t, 2 * k + 1, x, y);
        } else {
            lemma_leaf_below(t, 2 * k + 2, x, y);
        }
    }
}

/// A node that holds a cell lies on the way down from the root to the
/// cell's leaf.
pub proof fn lemma_leaf_above(t: Seq<LayoutNode>, k: int, x: int, y: int)
    requires
        well_formed(t),
        0 <= k < t.len(),
        covers(t[k].container, x, y),
    ensures
        covers(t[0].container, x, y),
        leaf_at(t, 0, x, y) == leaf_at(t, k, x, y),
    decreases k,
{
    if k > 0 {
        let parent = (k - 1) / 2;
        assert(linked(t, k));
        let vertical = choose|vertical: bool|
            {
                &&& t[2 * parent + 1].container == first_half(t[parent].container, vertical)
                &&& t[2 * parent + 2].container == second_half(t[parent].container, vertical)
            };
        lemma_halves(t[parent].container, vertical, x, y);
        assert(k == 2 * parent + 1 || k == 2 * parent + 2);
        lemma_leaf_above(t, parent, x, y);
    }
}

/// The leaves tile the root's rectangle: every cell of the root lies in
/// exactly one leaf, and the leaves hold no cell outside the root.
pub proof fn lemma_leaves_tile(t: Seq<LayoutNode>, x: int, y: int)
    requires
        well_formed(t),
        t.len() > 0,
    ensures
        covers(t[0].container, x, y) ==> 0 <= leaf_at(t, 0, x, y) < t.len() && is_leaf(
            t,
            leaf_at(t, 0, x, y),
        ) && covers(t[leaf_at(t, 0, x, y)].container, x, y),
        forall|k: int|
            0 <= k < t.len() && is_leaf(t, k) && covers((#[trigger] t[k]).container, x, y)
                ==> covers(t[0].container, x, y) && k == leaf_at(t, 0, x, y),
{
    if covers(t[0].container, x, y) {
        lemma_leaf_below(t, 0, x, y);
    }
    assert forall|k: int|
        0 <= k < t.len() && is_leaf(t, k) && covers(
            (#[trigger] t[k]).container,
            x,
            y,
        ) implies covers(t[0].container, x, y) && k == leaf_at(t, 0, x, y) by {
        lemma_leaf_above(t, k, x, y);
    }
}

/// After the tree is set up for a screen, its leaves tile the screen.
pub proof fn lemma_setup_tiles(
    t: Seq<LayoutNode>,
    expoent: nat,
    screen_w: u32,
    screen_h: u32,
    x: int,
    y: int,
)
    requires
        is_bsp(t, expoent, screen_w, screen_h),
    ensures
        (0 <= x < screen_w && 0 <= y < screen_h) ==> exists|k: int|
            0 <= k < t.len() && is_leaf(t, k) && covers((#[trigger] t[k]).container, x, y),
        forall|j: int, k: int|
            0 <= j < t.len() && 0 <= k < t.len() && is_leaf(t, j) && is_leaf(t, k) && covers(
                (#[trigger] t[j]).container,
                x,
                y,
            ) && covers((#[trigger] t[k]).container, x, y) ==> j == k,
        forall|k: int|
            0 <= k < t.len() && is_leaf(t, k) && covers((#[trigger] t[k]).container, x, y) ==> 0
                <= x < screen_w && 0 <= y < screen_h,
{
    lemma_bsp_well_formed(t, expoent, screen_w, screen_h);
    lemma_leaves_tile(t, x, y);
    if 0 <= x < screen_w && 0 <= y < screen_h {
        let k = leaf_at(t, 0, x, y);
        assert(is_leaf(t, k) && covers(t[k].container, x, y));
    }
}

/// In a tree whose root has its edges in order, every node's rectangle lies
/// inside the root's.
pub proof fn lemma_inside_root(t: Seq<LayoutNode>, k: int)
    requires
        well_formed(t),
        0 <= k < t.len(),
        t[0].container.left <= t[0].container.right,
        t[0].container.top <= t[0].container.bottom,
    ensures
        inside(t[k].container, t[0].container),
    decreases k,
{
    if k > 0 {
        let parent = (k - 1) / 2;
        assert(linked(t, k));
        let vertical = choose|vertical: bool|
            {
                &&& t[2 * parent + 1].container == first_half(t[parent].container, vertical)
                &&& t[2 * parent + 2].container == second_half(t[parent].container, vertical)
            };
        lemma_inside_root(t, parent);
        lemma_halves(t[parent].container, vertical, 0, 0);
        assert(k == 2 * parent + 1 || k == 2 * parent + 2);
    }
}

/// Where the search stops, it stops at a node of the tree that it reaches
/// and does not pass through.
pub proof fn lemma_first_stop(t: Seq<LayoutNode>, from: int)
    requires
        0 <= from,
    ensures
        first_stop_from(t, from) matches Some(k) ==> from <= k < t.len() && reached(t, k)
            && !passes(t[k]),
    decreases t.len() - from,
{
    if from < t.len() && !(reached(t, from) && !passes(t[from])) {
        lemma_first_stop(t, from + 1);
    }
}

/// After a module was given a place, looking it up gives a rectangle inside
/// the root's; and the very place it was given, if the tree did not hold the
/// module before.
pub proof fn lemma_place_then_get(t: Seq<LayoutNode>, id: usize)
    requires
        well_formed(t),
        t.len() > 0,
        t[0].container.left <= t[0].container.right,
        t[0].container.top <= t[0].container.bottom,
        place(t, id).1 is Ok,
    ensures
        well_formed(place(t, id).0),
        holder(place(t, id).0, id) matches Some(j) && inside(
            place(t, id).0[j].container,
            t[0].container,
        ) && (holder(t, id) is None ==> place(t, id).1 == Ok::<Container, LayoutError>(
            place(t, id).0[j].container,
        )),
{
    let u = place(t, id).0;
    lemma_first_stop(t, 0);
    let k = first_stop(t).unwrap();
    assert(is_leaf(t, k) || has_halves(t, k));
    lemma_same_shape(t, u);
    let m = if !t[k].has_child {
        k
    } else {
        2 * k + 2
    };
    assert(u[m].module_id == Some(id));
    lemma_holder_from(u, id, 0);
    lemma_holder_from(t, id, 0);
    let j = holder(u, id).unwrap();
    lemma_inside_root(u, j);
    if holder(t, id) is None {
        assert(t[j].module_id != Some(id));
        if t[k].has_child {
            assert(t[k].module_id != Some(id));
        }
    }
}

/// No node of `t` holds the module `id`.
pub open spec fn absent(t: Seq<LayoutNode>, id: usize) -> bool {
    forall|j: int| 0 <= j < t.len() ==> (#[trigger] t[j]).module_id != Some(id)
}

/// Collapsing brings no module into the tree that it did not hold.
pub proof fn lemma_collapse_absent(t: Seq<LayoutNode>, k: int, id: usize)
    requires
        well_formed(t),
        -1 <= k < t.len(),
        settled_from(t, k + 1),
        absent(t, id),
    ensures
        absent(collapse_down(t, k), id),
        well_formed(collapse_down(t, k)),
        same_shape(t, collapse_down(t, k)),
    decreases k + 1,
{
    if k >= 0 {
        let u = collapse_at(t, k);
        lemma_collapse_at(t, k);
        assert(is_leaf(t, k) || has_halves(t, k));
        assert(absent(u, id)) by {
            assert forall|j: int| 0 <= j < u.len() implies (#[trigger] u[j]).module_id != Some(
                id,
            ) by {
                assert(t[j].module_id != Some(id));
                if hollow(t, k) {
                    assert(t[2 * k + 1].module_id != Some(id));
                    assert(t[2 * k + 2].module_id != Some(id));
                }
            }
        }
        lemma_collapse_absent(u, k - 1, id);
    }
}

/// After a module was taken off, it cannot be looked up any more, if at most
/// one node held it.
pub proof fn lemma_unplace_then_get(t: Seq<LayoutNode>, id: usize)
    requires
        well_formed(t),
        forall|i: int, j: int|
            0 <= i < t.len() && 0 <= j < t.len() && (#[trigger] t[i]).module_id == Some(id) && (
            #[trigger] t[j]).module_id == Some(id) ==> i == j,
    ensures
        holder(unplace(t, id).0, id) is None,
        well_formed(unplace(t, id).0),
        same_shape(t, unplace(t, id).0),
{
    lemma_holder_from(t, id, 0);
    match holder(t, id) {
        None => {},
        Some(k) => {
            let c = t.update(k, emptied(t[k]));
            lemma_same_shape(t, c);
            assert(absent(c, id)) by {
                assert forall|j: int| 0 <= j < c.len() implies (#[trigger] c[j]).module_id
                    != Some(id) by {
                    if j != k {
                        assert(t[j].module_id == c[j].module_id);
                        assert(t[k].module_id == Some(id));
                    }
                }
            }
            lemma_collapse_absent(c, c.len() - 1, id);
            lemma_holder_from(collapsed(c), id, 0);
        },
    }
}

/// What node `k` says of being occupied agrees with what lies below it: it
/// is occupied exactly if it holds a module or one of its children is
/// occupied, and it holds a module only if none of its children is occupied.
pub open spec fn agrees_at(t: Seq<LayoutNode>, k: int) -> bool {
    let below = !is_leaf(t, k) && (t[2 * k + 1].has_child || t[2 * k + 2].has_child);
    &&& t[k].has_child <==> (t[k].module_id is Some || below)
    &&& t[k].module_id is Some ==> !below
}

/// What every node says of being occupied agrees with what lies below it.
pub open spec fn agrees(t: Seq<LayoutNode>) -> bool {
    forall|k: int| 0 <= k < t.len() ==> #[trigger] agrees_at(t, k)
}

/// In a tree that was just set up no node is occupied, which agrees.
pub proof fn lemma_bsp_agrees(t: Seq<LayoutNode>, expoent: nat, screen_w: u32, screen_h: u32)
    requires
        is_bsp(t, expoent, screen_w, screen_h),
    ensures
        agrees(t),
{
    lemma_bsp_well_formed(t, expoent, screen_w, screen_h);
    assert forall|k: int| 0 <= k < t.len() implies #[trigger] agrees_at(t, k) by {
        assert(vacant(t, k));
        assert(is_leaf(t, k) || has_halves(t, k));
        if !is_leaf(t, k) {
            assert(vacant(t, 2 * k + 1));
            assert(vacant(t, 2 * k + 2));
        }
    }
}

/// Giving a module a place keeps the tree in agreement.
pub proof fn lemma_place_agrees(t: Seq<LayoutNode>, id: usize)
    requires
        well_formed(t),
        agrees(t),
    ensures
        agrees(place(t, id).0),
{
    let u = place(t, id).0;
    lemma_first_stop(t, 0);
    if first_stop(t) is Some {
        let k = first_stop(t).unwrap();
        assert(is_leaf(t, k) || has_halves(t, k));
        assert(agrees_at(t, k));
        if !is_leaf(t, k) {
            assert(agrees_at(t, 2 * k + 1));
            assert(agrees_at(t, 2 * k + 2));
            assert(is_leaf(t, 2 * k + 1) || has_halves(t, 2 * k + 1));
            assert(is_leaf(t, 2 * k + 2) || has_halves(t, 2 * k + 2));
        }
        assert forall|j: int| 0 <= j < u.len() implies #[trigger] agrees_at(u, j) by {
            assert(agrees_at(t, j));
            assert(is_leaf(t, j) || has_halves(t, j));
            if k > 0 && j == (k - 1) / 2 {
                assert(reached(t, k));
                assert(passes(t[j]));
            }
        }
    }
}

/// Collapsing from node `idx` down brings a tree into agreement that agrees
/// everywhere but at one node `bad` at or before `idx`, which is occupied
/// though nothing is in it or below it.
pub proof fn lemma_collapse_agrees(t: Seq<LayoutNode>, idx: int, bad: int)
    requires
        well_formed(t),
        -1 <= idx < t.len(),
        settled_from(t, idx + 1),
        forall|j: int| 0 <= j < t.len() && j != bad ==> #[trigger] agrees_at(t, j),
        bad == -1 || (0 <= bad <= idx && hollow(t, bad) && !t[2 * bad + 1].has_child && !t[2
            * bad + 2].has_child),
    ensures
        agrees(collapse_down(t, idx)),
    decreases idx + 1,
{
    if idx >= 0 {
        let u = collapse_at(t, idx);
        lemma_collapse_at(t, idx);
        assert(is_leaf(t, idx) || has_halves(t, idx));
        assert(linked(t, idx));
        let parent = (idx - 1) / 2;
        let next = if idx == bad && idx > 0 && !(t[2 * parent + 1].has_child && 2 * parent + 1
            != idx) && !(t[2 * parent + 2].has_child && 2 * parent + 2 != idx) {
            parent
        } else {
            -1
        };
        if idx != bad {
            assert(agrees_at(t, idx));
            if hollow(t, idx) {
                assert(agrees_at(t, 2 * idx + 1));
                assert(agrees_at(t, 2 * idx + 2));
                assert(is_leaf(t, 2 * idx + 1) || has_halves(t, 2 * idx + 1));
                assert(is_leaf(t, 2 * idx + 2) || has_halves(t, 2 * idx + 2));
            }
        } else if idx > 0 {
            assert(agrees_at(t, parent));
            assert(has_halves(t, parent));
        }
        let rest_bad = if idx == bad {
            next
        } else {
            bad
        };
        assert forall|j: int| 0 <= j < u.len() && j != rest_bad implies #[trigger] agrees_at(
            u,
            j,
        ) by {
            assert(is_leaf(t, j) || has_halves(t, j));
            if j != bad {
                assert(agrees_at(t, j));
            }
        }
        lemma_collapse_agrees(u, idx - 1, rest_bad);
    } else {
        assert forall|j: int| 0 <= j < t.len() implies #[trigger] agrees_at(t, j) by {}
    }
}

/// Taking a module off keeps the tree in agreement.
pub proof fn lemma_unplace_agrees(t: Seq<LayoutNode>, id: usize)
    requires
        well_formed(t),
        agrees(t),
    ensures
        agrees(unplace(t, id).0),
{
    lemma_holder_from(t, id, 0);
    match holder(t, id) {
        None => {},
        Some(k) => {
            let c = t.update(k, emptied(t[k]));
            lemma_same_shape(t, c);
            assert(agrees_at(t, k));
            assert(linked(t, k));
            assert(is_leaf(t, k) || has_halves(t, k));
            let parent = (k - 1) / 2;
            let bad = if k > 0 && !(t[2 * parent + 1].has_child && 2 * parent + 1 != k) && !(t[2
                * parent + 2].has_child && 2 * parent + 2 != k) {
                parent
            } else {
                -1
            };
            if k > 0 {
                assert(agrees_at(t, parent));
                assert(has_halves(t, parent));
            }
            assert forall|j: int| 0 <= j < c.len() && j != bad implies #[trigger] agrees_at(
                c,
                j,
            ) by {
                assert(agrees_at(t, j));
                assert(is_leaf(t, j) || has_halves(t, j));
            }
            lemma_collapse_agrees(c, c.len() - 1, bad);
        },
    }
}

/// Node `d` is node `a` or lies below it.
pub open spec fn under(a: int, d: int) -> bool
    decreases d,
{
    d == a || (d > 0 && d > a && under(a, (d - 1) / 2))
}

/// Two rectangles lie apart: one ends where the other begins, or before,
/// from side to side or from top to bottom.
pub open spec fn apart(a: Container, b: Container) -> bool {
    a.right <= b.left || b.right <= a.left || a.bottom <= b.top || b.bottom <= a.top
}

/// The edges of a rectangle are in order.
pub open spec fn proper(c: Container) -> bool {
    c.left <= c.right && c.top <= c.bottom
}

/// The two halves of a rectangle whose edges are in order lie apart.
pub proof fn lemma_halves_apart(parent: Container, vertical: bool)
    requires
        proper(parent),
    ensures
        apart(first_half(parent, vertical), second_half(parent, vertical)),
{
}

/// A node lies inside every node that it lies below.
pub proof fn lemma_under_inside(t: Seq<LayoutNode>, a: int, d: int)
    requires
        well_formed(t),
        t.len() > 0,
        proper(t[0].container),
        0 <= a < t.len(),
        0 <= d < t.len(),
        under(a, d),
    ensures
        inside(t[d].container, t[a].container),
    decreases d,
{
    lemma_inside_root(t, a);
    if d != a {
        let parent = (d - 1) / 2;
        lemma_under_inside(t, a, parent);
        lemma_inside_root(t, parent);
        assert(linked(t, d));
        let vertical = choose|vertical: bool|
            {
                &&& t[2 * parent + 1].container == first_half(t[parent].container, vertical)
                &&& t[2 * parent + 2].container == second_half(t[parent].container, vertical)
            };
        lemma_halves(t[parent].container, vertical, 0, 0);
        assert(d == 2 * parent + 1 || d == 2 * parent + 2);
    }
}

/// A node that lies below another lies in or below one of its children.
pub proof fn lemma_under_child(a: int, d: int)
    requires
        0 <= a,
        under(a, d),
        d != a,
    ensures
        under(2 * a + 1, d) || under(2 * a + 2, d),
    decreases d,
{
    let parent = (d - 1) / 2;
    if parent != a {
        lemma_under_child(a, parent);
    }
}

/// Two nodes of which none lies below the other lie apart.
pub proof fn lemma_nodes_apart(t: Seq<LayoutNode>, j: int, k: int)
    requires
        well_formed(t),
        t.len() > 0,
        proper(t[0].container),
        0 <= j < t.len(),
        0 <= k < t.len(),
        !under(j, k),
        !under(k, j),
    ensures
        apart(t[j].container, t[k].container),
    decreases j + k,
{
    let lo = if j < k {
        j
    } else {
        k
    };
    let hi = if j < k {
        k
    } else {
        j
    };
    let parent = (hi - 1) / 2;
    assert(linked(t, hi));
    let vertical = choose|vertical: bool|
        {
            &&& t[2 * parent + 1].container == first_half(t[parent].container, vertical)
            &&& t[2 * parent + 2].container == second_half(t[parent].container, vertical)
        };
    lemma_inside_root(t, parent);
    lemma_halves(t[parent].container, vertical, 0, 0);
    lemma_halves_apart(t[parent].container, vertical);
    assert(hi == 2 * parent + 1 || hi == 2 * parent + 2);
    if under(parent, lo) {
        lemma_under_child(parent, lo);
        let other = if hi == 2 * parent + 1 {
            2 * parent + 2
        } else {
            2 * parent + 1
        };
        assert(under(other, lo));
        lemma_under_inside(t, other, lo);
    } else {
        lemma_nodes_apart(t, lo, parent);
    }
}

/// A node that another node lies below is no leaf.
pub proof fn lemma_leaf_not_above(t: Seq<LayoutNode>, j: int, k: int)
    requires
        well_formed(t),
        0 <= j < t.len(),
        0 <= k < t.len(),
        under(j, k),
        k != j,
    ensures
        !is_leaf(t, j),
    decreases k,
{
    let parent = (k - 1) / 2;
    assert(linked(t, k));
    if parent != j {
        lemma_leaf_not_above(t, j, parent);
    }
}

/// Two leaves of a tree whose root has its edges in order lie apart.
pub proof fn lemma_leaves_apart(t: Seq<LayoutNode>, j: int, k: int)
    requires
        well_formed(t),
        t.len() > 0,
        proper(t[0].container),
        0 <= j < t.len(),
        0 <= k < t.len(),
        j != k,
        is_leaf(t, j),
        is_leaf(t, k),
    ensures
        apart(t[j].container, t[k].container),
{
    if under(j, k) {
        lemma_leaf_not_above(t, j, k);
    }
    if under(k, j) {
        lemma_leaf_not_above(t, k, j);
    }
    lemma_nodes_apart(t, j, k);
}

/// After the tree is set up for a screen, any two of its leaves lie apart.
pub proof fn lemma_setup_leaves_apart(
    t: Seq<LayoutNode>,
    expoent: nat,
    screen_w: u32,
    screen_h: u32,
    j: int,
    k: int,
)
    requires
        is_bsp(t, expoent, screen_w, screen_h),
        0 <= j < t.len(),
        0 <= k < t.len(),
        j != k,
        is_leaf(t, j),
        is_leaf(t, k),
    ensures
        apart(t[j].container, t[k].container),
{
    lemma_bsp_well_formed(t, expoent, screen_w, screen_h);
    lemma_leaves_apart(t, j, k);
}

/// Each module sits in one node at most.
pub open spec fn distinct(t: Seq<LayoutNode>) -> bool {
    forall|i: int, j: int|
        0 <= i < t.len() && 0 <= j < t.len() && (#[trigger] t[i]).module_id is Some
            && t[i].module_id == (#[trigger] t[j]).module_id ==> i == j
}

/// Giving a place to a module that the tree does not hold leaves each module
/// in one node.
pub proof fn lemma_place_distinct(t: Seq<LayoutNode>, id: usize)
    requires
        well_formed(t),
        agrees(t),
        distinct(t),
        holder(t, id) is None,
    ensures
        distinct(place(t, id).0),
{
    let u = place(t, id).0;
    lemma_first_stop(t, 0);
    lemma_holder_from(t, id, 0);
    if first_stop(t) is Some {
        let k = first_stop(t).unwrap();
        assert(is_leaf(t, k) || has_halves(t, k));
        assert(agrees_at(t, k));
        if !is_leaf(t, k) {
            assert(agrees_at(t, 2 * k + 1));
            assert(agrees_at(t, 2 * k + 2));
        }
        assert forall|i: int, j: int|
            0 <= i < u.len() && 0 <= j < u.len() && (#[trigger] u[i]).module_id is Some
                && u[i].module_id == (#[trigger] u[j]).module_id implies i == j by {
            assert(t[i].module_id != Some(id));
            assert(t[j].module_id != Some(id));
            if t[i].module_id is Some && t[i].module_id == t[j].module_id {
                assert(i == j);
            }
            if t[k].module_id is Some {
                if t[i].module_id == t[k].module_id {
                    assert(i == k);
                }
                if t[j].module_id == t[k].module_id {
                    assert(j == k);
                }
            }
        }
    }
}

/// No node holds a module above a node that is occupied.
pub proof fn lemma_holder_not_above(t: Seq<LayoutNode>, i: int, j: int)
    requires
        well_formed(t),
        agrees(t),
        0 <= i < t.len(),
        0 <= j < t.len(),
        under(i, j),
        j != i,
        t[j].has_child,
    ensures
        t[i].module_id is None,
    decreases j,
{
    let parent = (j - 1) / 2;
    assert(linked(t, j));
    assert(agrees_at(t, parent));
    assert(j == 2 * parent + 1 || j == 2 * parent + 2);
    if parent != i {
        lemma_holder_not_above(t, i, parent);
    }
}

/// In a tree that agrees, two nodes that hold modules lie apart.
pub proof fn lemma_places_apart(t: Seq<LayoutNode>, i: int, j: int)
    requires
        well_formed(t),
        t.len() > 0,
        proper(t[0].container),
        agrees(t),
        0 <= i < t.len(),
        0 <= j < t.len(),
        i != j,
        t[i].module_id is Some,
        t[j].module_id is Some,
    ensures
        apart(t[i].container, t[j].container),
{
    assert(agrees_at(t, i));
    assert(agrees_at(t, j));
    if under(i, j) {
        lemma_holder_not_above(t, i, j);
    }
    if under(j, i) {
        lemma_holder_not_above(t, j, i);
    }
    lemma_nodes_apart(t, i, j);
}

/// After a module was given a place, any two nodes that hold modules lie
/// apart.
pub proof fn lemma_place_keeps_apart(t: Seq<LayoutNode>, id: usize, i: int, j: int)
    requires
        well_formed(t),
        t.len() > 0,
        proper(t[0].container),
        agrees(t),
        0 <= i < t.len(),
        0 <= j < t.len(),
        i != j,
        place(t, id).0[i].module_id is Some,
        place(t, id).0[j].module_id is Some,
    ensures
        apart(place(t, id).0[i].container, place(t, id).0[j].container),
{
    let u = place(t, id).0;
    lemma_first_stop(t, 0);
    if first_stop(t) is Some {
        assert(is_leaf(t, first_stop(t).unwrap()) || has_halves(t, first_stop(t).unwrap()));
    }
    lemma_same_shape(t, u);
    lemma_place_agrees(t, id);
    lemma_places_apart(u, i, j);
}

} // verus!
