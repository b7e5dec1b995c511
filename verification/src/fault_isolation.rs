//! What the descent through an aggregation tree reports: only signatures that
//! fail on their own, each once, and all of them where the aggregates add up.

use vstd::prelude::*;
use crate::bls::{bls_verifies, DOMAIN_TAG, SETTLEMENT_ROOT};
use crate::signature_tree::{build, leaves_of, pair_round, Shape};

verus! {

impl Shape {
    /// Whether the leaf at position `i` stands below.
    pub open spec fn has_index(self, i: int) -> bool
        decreases self,
    {
        match self {
            Shape::Leaf { index, .. } => index == i,
            Shape::Node { left, right } => left.has_index(i) || right.has_index(i),
        }
    }

    /// Whether the leaf at position `i` stands below and does not verify on
    /// its own.
    pub open spec fn has_failing(self, i: int) -> bool
        decreases self,
    {
        match self {
            Shape::Leaf { index, .. } => index == i && !self.verifies(),
            Shape::Node { left, right } => left.has_failing(i) || right.has_failing(i),
        }
    }

    /// No position stands below twice.
    pub open spec fn separate(self) -> bool
        decreases self,
    {
        match self {
            Shape::Leaf { .. } => true,
            Shape::Node { left, right } => {
                &&& left.separate()
                &&& right.separate()
                &&& forall|i: int| !(left.has_index(i) && right.has_index(i))
            },
        }
    }

    /// The aggregates add up: every inner node below verifies exactly when
    /// both its children do. This is what the scheme is meant to give for
    /// signatures on one message, and what the descent relies on when it
    /// leaves a verifying node alone. It does not hold of every tree: two
    /// signatures that stand under each other's key fail on their own, yet
    /// their sums are those of the matched pairs.
    pub open spec fn additive(self) -> bool
        decreases self,
    {
        match self {
            Shape::Leaf { .. } => true,
            Shape::Node { left, right } => {
                &&& self.verifies() <==> left.verifies() && right.verifies()
                &&& left.additive()
                &&& right.additive()
            },
        }
    }
}

proof fn lemma_concat_contains(a: Seq<int>, b: Seq<int>, i: int)
    ensures
        (a + b).contains(i) <==> a.contains(i) || b.contains(i),
{
    if a.contains(i) {
        let k = choose|k: int| 0 <= k < a.len() && a[k] == i;
        assert((a + b)[k] == i);
    }
    if b.contains(i) {
        let k = choose|k: int| 0 <= k < b.len() && b[k] == i;
        assert((a + b)[a.len() + k] == i);
    }
    if (a + b).contains(i) {
        let k = choose|k: int| 0 <= k < (a + b).len() && (a + b)[k] == i;
        if k >= a.len() {
            assert(b[k - a.len()] == i);
        }
    }
}

/// A position that is reported belongs to a leaf that does not verify on its
/// own.
pub proof fn lemma_reported_fails(shape: Shape, i: int)
    requires
        shape.invalid_leaves().contains(i),
    ensures
        shape.has_failing(i),
    decreases shape,
{
    match shape {
        Shape::Leaf { index, .. } => {},
        Shape::Node { left, right } => {
            lemma_concat_contains(left.invalid_leaves(), right.invalid_leaves(), i);
            if left.invalid_leaves().contains(i) {
                lemma_reported_fails(*left, i);
            } else {
                lemma_reported_fails(*right, i);
            }
        },
    }
}

proof fn lemma_failing_has_index(shape: Shape, i: int)
    requires
        shape.has_failing(i),
    ensures
        shape.has_index(i),
    decreases shape,
{
    match shape {
        Shape::Leaf { .. } => {},
        Shape::Node { left, right } => {
            if left.has_failing(i) {
                lemma_failing_has_index(*left, i);
            } else {
                lemma_failing_has_index(*right, i);
            }
        },
    }
}

/// Below a node that verifies, in a tree whose aggregates add up, every leaf
/// verifies on its own.
pub proof fn lemma_verified_node_has_no_failing_leaf(shape: Shape, i: int)
    requires
        shape.additive(),
        shape.verifies(),
    ensures
        !shape.has_failing(i),
    decreases shape,
{
    match shape {
        Shape::Leaf { .. } => {},
        Shape::Node { left, right } => {
            lemma_verified_node_has_no_failing_leaf(*left, i);
            lemma_verified_node_has_no_failing_leaf(*right, i);
        },
    }
}

/// In a tree whose aggregates add up, every leaf that does not verify on its
/// own is reported.
pub proof fn lemma_failing_is_reported(shape: Shape, i: int)
    requires
        shape.additive(),
        shape.has_failing(i),
    ensures
        shape.invalid_leaves().contains(i),
    decreases shape,
{
    if shape.verifies() {
        lemma_verified_node_has_no_failing_leaf(shape, i);
    }
    match shape {
        Shape::Leaf { index, .. } => {
            assert(shape.invalid_leaves()[0] == i);
        },
        Shape::Node { left, right } => {
            lemma_concat_contains(left.invalid_leaves(), right.invalid_leaves(), i);
            if left.has_failing(i) {
                lemma_failing_is_reported(*left, i);
            } else {
                lemma_failing_is_reported(*right, i);
            }
        },
    }
}

/// Where no position stands in the tree twice, none is reported twice.
pub proof fn lemma_reported_once(shape: Shape)
    requires
        shape.separate(),
    ensures
        shape.invalid_leaves().no_duplicates(),
    decreases shape,
{
    if !shape.verifies() {
        match shape {
            Shape::Leaf { .. } => {},
            Shape::Node { left, right } => {
                lemma_reported_once(*left);
                lemma_reported_once(*right);
                let a = left.invalid_leaves();
                let b = right.invalid_leaves();
                assert forall|x: int, y: int|
                    0 <= x < (a + b).len() && 0 <= y < (a + b).len() && x != y implies (a + b)[x]
                    != (a + b)[y] by {
                    if x < a.len() && y >= a.len() {
                        lemma_no_common(*left, *right, a[x], x, y - a.len());
                    } else if y < a.len() && x >= a.len() {
                        lemma_no_common(*left, *right, a[y], y, x - a.len());
                    }
                }
            },
        }
    }
}

proof fn lemma_no_common(left: Shape, right: Shape, v: int, x: int, y: int)
    requires
        forall|i: int| !(left.has_index(i) && right.has_index(i)),
        0 <= x < left.invalid_leaves().len(),
        0 <= y < right.invalid_leaves().len(),
        left.invalid_leaves()[x] == v,
    ensures
        right.invalid_leaves()[y] != v,
{
    if right.invalid_leaves()[y] == v {
        lemma_reported_fails(left, v);
        lemma_reported_fails(right, v);
        lemma_failing_has_index(left, v);
        lemma_failing_has_index(right, v);
    }
}

/// Whether a node of the queue holds a failing leaf at position `i`.
pub open spec fn queue_has_failing(queue: Seq<Shape>, i: int) -> bool {
    exists|k: int| 0 <= k < queue.len() && (#[trigger] queue[k]).has_failing(i)
}

/// No position stands in the queue twice, neither below one node nor below
/// two.
pub open spec fn queue_separate(queue: Seq<Shape>) -> bool {
    &&& forall|k: int| 0 <= k < queue.len() ==> (#[trigger] queue[k]).separate()
    &&& forall|k: int, m: int, i: int|
        0 <= k < m < queue.len() ==> !(#[trigger] queue[k].has_index(i) && #[trigger] queue[m].has_index(
            i,
        ))
}

/// The node at place `t` of the queue after a round.
proof fn lemma_round_entry(queue: Seq<Shape>, t: int)
    requires
        0 <= t < pair_round(queue).len(),
    ensures
        pair_round(queue).len() == queue.len() - queue.len() / 2,
        t < queue.len() - 2 * (queue.len() / 2) ==> pair_round(queue)[t] == queue[2 * (queue.len()
            / 2) + t],
        t >= queue.len() - 2 * (queue.len() / 2) ==> {
            let p = t - (queue.len() - 2 * (queue.len() / 2));
            &&& 0 <= 2 * p
            &&& 2 * p + 1 < queue.len()
            &&& pair_round(queue)[t] == (Shape::Node {
                left: Box::new(queue[2 * p]),
                right: Box::new(queue[2 * p + 1]),
            })
        },
{
}

/// A round keeps the failing leaves.
pub proof fn lemma_round_keeps_failing(queue: Seq<Shape>, i: int)
    ensures
        queue_has_failing(pair_round(queue), i) <==> queue_has_failing(queue, i),
{
    let after = pair_round(queue);
    let pairs = (queue.len() / 2) as int;
    let odd = queue.len() - 2 * pairs;
    if queue_has_failing(queue, i) {
        let k = choose|k: int| 0 <= k < queue.len() && (#[trigger] queue[k]).has_failing(i);
        if k >= 2 * pairs {
            lemma_round_entry(queue, k - 2 * pairs);
        } else {
            lemma_round_entry(queue, odd + k / 2);
        }
    }
    if queue_has_failing(after, i) {
        let t = choose|t: int| 0 <= t < after.len() && (#[trigger] after[t]).has_failing(i);
        lemma_round_entry(queue, t);
    }
}

/// A round keeps the positions apart.
pub proof fn lemma_round_keeps_separate(queue: Seq<Shape>)
    requires
        queue_separate(queue),
    ensures
        queue_separate(pair_round(queue)),
{
    let after = pair_round(queue);
    let pairs = (queue.len() / 2) as int;
    let odd = queue.len() - 2 * pairs;
    assert forall|t: int| 0 <= t < after.len() implies (#[trigger] after[t]).separate() by {
        lemma_round_entry(queue, t);
        if t >= odd {
            let l = queue[2 * (t - odd)];
            let r = queue[2 * (t - odd) + 1];
            assert(forall|i: int| !(#[trigger] l.has_index(i) && r.has_index(i)));
        }
    }
    assert forall|t: int, u: int, i: int| 0 <= t < u < after.len() implies !(
    #[trigger] after[t].has_index(i) && #[trigger] after[u].has_index(i)) by {
        lemma_round_entry(queue, t);
        lemma_round_entry(queue, u);
        if after[t].has_index(i) && after[u].has_index(i) {
            let a = if t < odd {
                2 * pairs + t
            } else if queue[2 * (t - odd)].has_index(i) {
                2 * (t - odd)
            } else {
                2 * (t - odd) + 1
            };
            let b = if u < odd {
                2 * pairs + u
            } else if queue[2 * (u - odd)].has_index(i) {
                2 * (u - odd)
            } else {
                2 * (u - odd) + 1
            };
            if a < b {
                assert(!(queue[a].has_index(i) && queue[b].has_index(i)));
            } else {
                assert(!(queue[b].has_index(i) && queue[a].has_index(i)));
            }
        }
    }
}

/// The tree built from a queue holds the failing leaves of the queue.
pub proof fn lemma_build_keeps_failing(queue: Seq<Shape>, i: int)
    requires
        queue.len() > 0,
    ensures
        build(queue).has_failing(i) <==> queue_has_failing(queue, i),
    decreases queue.len(),
{
    if queue.len() > 1 {
        lemma_round_keeps_failing(queue, i);
        lemma_build_keeps_failing(pair_round(queue), i);
    } else if queue[0].has_failing(i) {
        assert(queue_has_failing(queue, i));
    }
}

/// The tree built from a queue whose positions are apart holds no position
/// twice.
pub proof fn lemma_build_keeps_separate(queue: Seq<Shape>)
    requires
        queue.len() > 0,
        queue_separate(queue),
    ensures
        build(queue).separate(),
    decreases queue.len(),
{
    if queue.len() > 1 {
        lemma_round_keeps_separate(queue);
        lemma_build_keeps_separate(pair_round(queue));
    }
}

/// Whether the signature at position `i` verifies on its own against the key
/// at that position.
pub open spec fn valid_at(sigs: Seq<[u8; 96]>, pks: Seq<[u8; 48]>, i: int) -> bool {
    bls_verifies(sigs[i]@, pks[i]@, SETTLEMENT_ROOT@, DOMAIN_TAG@)
}

/// The tree over a list of signatures reports only positions of the list whose
/// signature does not verify on its own, and none of them twice.
pub proof fn lemma_check_reports_only_invalid(sigs: Seq<[u8; 96]>, pks: Seq<[u8; 48]>)
    requires
        sigs.len() == pks.len(),
        sigs.len() > 0,
    ensures
        build(leaves_of(sigs, pks)).invalid_leaves().no_duplicates(),
        forall|i: int| #[trigger]
            build(leaves_of(sigs, pks)).invalid_leaves().contains(i) ==> 0 <= i < sigs.len()
                && !valid_at(sigs, pks, i),
{
    let leaves = leaves_of(sigs, pks);
    let tree = build(leaves);
    lemma_build_keeps_separate(leaves);
    lemma_reported_once(tree);
    assert forall|i: int| #[trigger] tree.invalid_leaves().contains(i) implies 0 <= i < sigs.len()
        && !valid_at(sigs, pks, i) by {
        lemma_reported_fails(tree, i);
        lemma_build_keeps_failing(leaves, i);
    }
}

/// Where the aggregates of the tree over a list of signatures add up, the tree
/// reports exactly the positions whose signature does not verify on its own.
pub proof fn lemma_check_reports_exactly_the_invalid(
    sigs: Seq<[u8; 96]>,
    pks: Seq<[u8; 48]>,
    i: int,
)
    requires
        sigs.len() == pks.len(),
        sigs.len() > 0,
        build(leaves_of(sigs, pks)).additive(),
    ensures
        build(leaves_of(sigs, pks)).invalid_leaves().contains(i) <==> 0 <= i < sigs.len()
            && !valid_at(sigs, pks, i),
{
    let leaves = leaves_of(sigs, pks);
    let tree = build(leaves);
    lemma_check_reports_only_invalid(sigs, pks);
    if 0 <= i < sigs.len() && !valid_at(sigs, pks, i) {
        assert(leaves[i].has_failing(i));
        lemma_build_keeps_failing(leaves, i);
        lemma_failing_is_reported(tree, i);
    }
}

} // verus!
