//! A binary tree of aggregate signatures that finds the invalid ones among
//! many without verifying each on its own.

use vstd::prelude::*;
use std::collections::VecDeque;
use crate::bls::{
    add_public_keys, add_signatures, bls_public_key_sum, bls_signature_sum, bls_verifies,
    verify_signature, DOMAIN_TAG, SETTLEMENT_ROOT,
};

verus! {

/// A signature with the public key it is checked against, both as compressed
/// encodings.
pub type Pair = (Seq<u8>, Seq<u8>);

/// The shape of an aggregation tree: which leaf stands where.
pub enum Shape {
    /// The signature and key at position `index` of the lists the tree was
    /// built from.
    Leaf { index: int, sig: Seq<u8>, pk: Seq<u8> },
    /// Two subtrees whose aggregates are added.
    Node { left: Box<Shape>, right: Box<Shape> },
}

/// The sum of two aggregates, or `None` where one of them is missing or
/// cannot be decoded.
pub open spec fn sum_of(a: Option<Pair>, b: Option<Pair>) -> Option<Pair> {
    match (a, b) {
        (Some(x), Some(y)) => match (bls_signature_sum(x.0, y.0), bls_public_key_sum(x.1, y.1)) {
            (Some(sig), Some(pk)) => Some((sig, pk)),
            _ => None,
        },
        _ => None,
    }
}

impl Shape {
    /// The aggregate signature and key of all leaves below.
    pub open spec fn aggregate(self) -> Option<Pair>
        decreases self,
    {
        match self {
            Shape::Leaf { sig, pk, .. } => Some((sig, pk)),
            Shape::Node { left, right } => sum_of(left.aggregate(), right.aggregate()),
        }
    }

    /// Whether the aggregate below is a valid signature of the settlement
    /// root. A missing aggregate counts as invalid.
    pub open spec fn verifies(self) -> bool {
        match self.aggregate() {
            Some(pair) => bls_verifies(pair.0, pair.1, SETTLEMENT_ROOT@, DOMAIN_TAG@),
            None => false,
        }
    }

    /// The positions found invalid by descending from this node: none where
    /// the aggregate verifies; the leaf itself where it is a leaf; otherwise
    /// what is found on the left, then what is found on the right.
    pub open spec fn invalid_leaves(self) -> Seq<int>
        decreases self,
    {
        if self.verifies() {
            Seq::empty()
        } else {
            match self {
                Shape::Leaf { index, .. } => seq![index],
                Shape::Node { left, right } => left.invalid_leaves() + right.invalid_leaves(),
            }
        }
    }

    /// Number of nodes, leaves included.
    pub open spec fn size(self) -> nat
        decreases self,
    {
        match self {
            Shape::Leaf { .. } => 1,
            Shape::Node { left, right } => 1 + left.size() + right.size(),
        }
    }
}

/// The leaves for two lists of equal length, in order.
pub open spec fn leaves_of(sigs: Seq<[u8; 96]>, pks: Seq<[u8; 48]>) -> Seq<Shape> {
    Seq::new(sigs.len(), |i: int| Shape::Leaf { index: i, sig: sigs[i]@, pk: pks[i]@ })
}

/// One round over the working queue: the first two entries, then the next
/// two, and so on are joined, and each joined node goes to the back. With an
/// odd number of entries the last one is left at the front.
pub open spec fn pair_round(queue: Seq<Shape>) -> Seq<Shape> {
    let pairs = queue.len() / 2;
    queue.skip(2 * pairs as int) + Seq::new(
        pairs,
        |i: int| Shape::Node { left: Box::new(queue[2 * i]), right: Box::new(queue[2 * i + 1]) },
    )
}

/// The tree that the rounds end with, for a non-empty queue.
pub open spec fn build(queue: Seq<Shape>) -> Shape
    decreases queue.len(),
{
    if queue.len() <= 1 {
        queue[0]
    } else {
        build(pair_round(queue))
    }
}

/// A node of the aggregation tree. A leaf has a position and no children; any
/// other node has no position and two children, and holds the sum of their
/// aggregates.
#[derive(Debug)]
pub struct NodeT {
    pub tuple: Option<([u8; 96], [u8; 48])>,
    pub index: Option<usize>,
    pub left_child: Option<Box<NodeT>>,
    pub right_child: Option<Box<NodeT>>,
}

/// What a stored aggregate holds.
pub open spec fn pair_of(tuple: Option<([u8; 96], [u8; 48])>) -> Option<Pair> {
    match tuple {
        Some(pair) => Some((pair.0@, pair.1@)),
        None => None,
    }
}

impl NodeT {
    /// The shape of the tree below this node.
    pub open spec fn shape(self) -> Shape
        decreases self,
    {
        match (self.left_child, self.right_child) {
            (Some(left), Some(right)) => Shape::Node {
                left: Box::new(left.shape()),
                right: Box::new(right.shape()),
            },
            _ => Shape::Leaf {
                index: match self.index {
                    Some(i) => i as int,
                    None => 0,
                },
                sig: match self.tuple {
                    Some(pair) => pair.0@,
                    None => Seq::empty(),
                },
                pk: match self.tuple {
                    Some(pair) => pair.1@,
                    None => Seq::empty(),
                },
            },
        }
    }

    /// Leaves and inner nodes are told apart as described, and every node
    /// holds the aggregate of its shape.
    pub open spec fn wf(self) -> bool
        decreases self,
    {
        &&& pair_of(self.tuple) == self.shape().aggregate()
        &&& match (self.left_child, self.right_child) {
            (Some(left), Some(right)) => self.index is None && left.wf() && right.wf(),
            (None, None) => self.index is Some && self.tuple is Some,
            _ => false,
        }
    }

    /// A node with these parts.
    pub fn new(
        tuple: Option<([u8; 96], [u8; 48])>,
        index: Option<usize>,
        left_child: Option<NodeT>,
        right_child: Option<NodeT>,
    ) -> (node: Self)
        ensures
            node.tuple == tuple,
            node.index == index,
            match left_child {
                Some(child) => node.left_child == Some(Box::new(child)),
                None => node.left_child is None,
            },
            match right_child {
                Some(child) => node.right_child == Some(Box::new(child)),
                None => node.right_child is None,
            },
    {
        Self {
            tuple,
            index,
            left_child: match left_child {
                Some(child) => Some(Box::new(child)),
                None => None,
            },
            right_child: match right_child {
                Some(child) => Some(Box::new(child)),
                None => None,
            },
        }
    }

    /// The leaf for the signature and key at position `index`.
    pub fn leaf(sig: [u8; 96], pk: [u8; 48], index: usize) -> (node: Self)
        ensures
            node.wf(),
            node.shape() == (Shape::Leaf { index: index as int, sig: sig@, pk: pk@ }),
    {
        NodeT::new(Some((sig, pk)), Some(index), None, None)
    }

    /// The node above `left` and `right`, holding the sum of their aggregates.
    pub fn join(left: NodeT, right: NodeT) -> (node: Self)
        requires
            left.wf(),
            right.wf(),
        ensures
            node.wf(),
            node.shape() == (Shape::Node {
                left: Box::new(left.shape()),
                right: Box::new(right.shape()),
            }),
    {
        let tuple = match (&left.tuple, &right.tuple) {
            (Some(a), Some(b)) => {
                match (add_signatures(&a.0, &b.0), add_public_keys(&a.1, &b.1)) {
                    (Some(sig), Some(pk)) => Some((sig, pk)),
                    _ => None,
                }
            },
            _ => None,
        };
        NodeT::new(tuple, None, Some(left), Some(right))
    }
}

/// The shapes of the nodes of a queue.
pub open spec fn shapes(queue: Seq<NodeT>) -> Seq<Shape> {
    Seq::new(queue.len(), |i: int| queue[i].shape())
}

/// Every node of the queue is well formed.
pub open spec fn all_wf(queue: Seq<NodeT>) -> bool {
    forall|i: int| 0 <= i < queue.len() ==> (#[trigger] queue[i]).wf()
}

/// What is still to be found below the nodes of a stack, the top (last) node
/// first.
pub open spec fn pending(stack: Seq<Shape>) -> Seq<int>
    decreases stack.len(),
{
    if stack.len() == 0 {
        Seq::empty()
    } else {
        stack.last().invalid_leaves() + pending(stack.drop_last())
    }
}

/// Number of nodes below the nodes of a stack.
pub open spec fn pending_size(stack: Seq<Shape>) -> nat
    decreases stack.len(),
{
    if stack.len() == 0 {
        0
    } else {
        stack.last().size() + pending_size(stack.drop_last())
    }
}

/// The shapes of the nodes that a stack refers to.
pub open spec fn stack_shapes(stack: Seq<&NodeT>) -> Seq<Shape> {
    Seq::new(stack.len(), |i: int| stack[i].shape())
}

/// Positions as integers.
pub open spec fn positions(found: Seq<usize>) -> Seq<int> {
    Seq::new(found.len(), |i: int| found[i] as int)
}

/// The aggregation tree over the signatures of a batch. It has no root where
/// there were no signatures.
#[derive(Debug)]
pub struct SignatureTree {
    pub root: Option<NodeT>,
}

impl SignatureTree {
    /// Every node holds the aggregate of the leaves below it.
    pub open spec fn wf(&self) -> bool {
        match self.root {
            Some(root) => root.wf(),
            None => true,
        }
    }

    /// Builds the tree over the signatures and their keys: one leaf for each
    /// position, then rounds in which the nodes at the front of the queue are
    /// joined two by two, until one node is left. Without signatures the tree
    /// has no root.
    pub fn new(list_sigs: Vec<[u8; 96]>, list_pks: Vec<[u8; 48]>) -> (tree: Self)
        requires
            list_sigs@.len() == list_pks@.len(),
        ensures
            tree.wf(),
            tree.root is Some <==> list_sigs@.len() > 0,
            tree.root is Some ==> tree.root->Some_0.shape() == build(
                leaves_of(list_sigs@, list_pks@),
            ),
    {
        let ghost leaves = leaves_of(list_sigs@, list_pks@);
        let mut tmp_sigs: VecDeque<NodeT> = VecDeque::new();
        let mut i: usize = 0;
        while i < list_sigs.len()
            invariant
                i <= list_sigs@.len(),
                list_sigs@.len() == list_pks@.len(),
                leaves == leaves_of(list_sigs@, list_pks@),
                tmp_sigs@.len() == i,
                all_wf(tmp_sigs@),
                shapes(tmp_sigs@) == leaves.take(i as int),
            decreases list_sigs@.len() - i,
        {
            let ghost prev = tmp_sigs@;
            let node = NodeT::leaf(list_sigs[i], list_pks[i], i);
            tmp_sigs.push_back(node);
            i += 1;
            assert forall|k: int| 0 <= k < i implies shapes(tmp_sigs@)[k] == leaves[k] by {
                if k < i - 1 {
                    assert(shapes(prev)[k] == leaves.take(i - 1)[k]);
                }
            }
        }
        assert(leaves.take(i as int) =~= leaves);
        while tmp_sigs.len() > 1
            invariant
                tmp_sigs@.len() > 0 <==> leaves.len() > 0,
                all_wf(tmp_sigs@),
                build(shapes(tmp_sigs@)) == build(leaves),
            decreases tmp_sigs@.len(),
        {
            let len = tmp_sigs.len() / 2;
            let ghost start = shapes(tmp_sigs@);
            let mut k: usize = 0;
            while k < len
                invariant
                    k <= len,
                    len == start.len() / 2,
                    tmp_sigs@.len() == start.len() - k,
                    all_wf(tmp_sigs@),
                    shapes(tmp_sigs@) == start.skip(2 * k) + Seq::new(
                        k as nat,
                        |i: int|
                            Shape::Node {
                                left: Box::new(start[2 * i]),
                                right: Box::new(start[2 * i + 1]),
                            },
                    ),
                decreases len - k,
            {
                let ghost before = tmp_sigs@;
                let ghost before_shapes = shapes(tmp_sigs@);
                let l1 = tmp_sigs.pop_front().unwrap();
                let l2 = tmp_sigs.pop_front().unwrap();
                proof {
                    assert(before_shapes[0] == start[2 * k]);
                    assert(before_shapes[1] == start[2 * k + 1]);
                }
                let joined = NodeT::join(l1, l2);
                tmp_sigs.push_back(joined);
                k += 1;
                proof {
                    let now = shapes(tmp_sigs@);
                    let want = start.skip(2 * k) + Seq::new(
                        k as nat,
                        |i: int|
                            Shape::Node {
                                left: Box::new(start[2 * i]),
                                right: Box::new(start[2 * i + 1]),
                            },
                    );
                    assert forall|m: int| 0 <= m < now.len() implies now[m] == want[m] by {
                        if m < now.len() - 1 {
                            assert(before_shapes[m + 2] == before[m + 2].shape());
                        }
                    }
                }
            }
        }
        let root = tmp_sigs.pop_back();
        Self { root }
    }

    /// The positions of the invalid signatures, found by descending from the
    /// root with an explicit stack: a node whose aggregate verifies is left
    /// alone, a failing leaf is reported, and below a failing inner node both
    /// children are visited, the left one first. A tree without a root
    /// reports nothing.
    pub fn check(&self) -> (invalid: Vec<usize>)
        requires
            self.wf(),
        ensures
            match self.root {
                Some(root) => positions(invalid@) == root.shape().invalid_leaves(),
                None => invalid@.len() == 0,
            },
    {
        let mut fake_index: Vec<usize> = Vec::new();
        let mut stack: Vec<&NodeT> = Vec::new();
        let ghost goal: Seq<int>;
        match &self.root {
            None => {
                return fake_index;
            },
            Some(root) => {
                stack.push(root);
                proof {
                    goal = root.shape().invalid_leaves();
                    assert(pending(stack_shapes(stack@).drop_last()) =~= Seq::<int>::empty());
                }
            },
        }
        while stack.len() > 0
            invariant
                forall|i: int| 0 <= i < stack@.len() ==> (#[trigger] stack@[i]).wf(),
                positions(fake_index@) + pending(stack_shapes(stack@)) == goal,
            decreases pending_size(stack_shapes(stack@)),
        {
            let ghost before_shapes = stack_shapes(stack@);
            let curr = stack.pop().unwrap();
            let ghost rest = stack@;
            assert(before_shapes.drop_last() =~= stack_shapes(rest));
            let ok = match &curr.tuple {
                Some(pair) => verify_signature(
                    &pair.0,
                    &pair.1,
                    SETTLEMENT_ROOT.as_slice(),
                    DOMAIN_TAG.as_slice(),
                ),
                None => false,
            };
            if !ok {
                match (&curr.left_child, &curr.right_child) {
                    (Some(left), Some(right)) => {
                        stack.push(&**right);
                        stack.push(&**left);
                        proof {
                            let now = stack_shapes(stack@);
                            let mid = stack_shapes(rest).push(right.shape());
                            assert(now.drop_last() =~= mid);
                            assert(mid.drop_last() =~= stack_shapes(rest));
                            assert(pending(now) == left.shape().invalid_leaves() + pending(
                                now.drop_last(),
                            ));
                            assert(pending_size(now) == left.shape().size() + pending_size(
                                now.drop_last(),
                            ));
                        }
                    },
                    _ => {
                        if let Some(position) = curr.index {
                            fake_index.push(position);
                        }
                    },
                }
            }
        }
        fake_index
    }
}

} // verus!
