//! The pairing heap itself: nodes linked into a forest-as-binary-tree,
//! a constant-time merge primitive, and the two-pass consolidation that
//! rebuilds the heap after the root is removed.

use vstd::multiset::Multiset;
use vstd::prelude::*;

verus! {

broadcast use vstd::multiset::group_multiset_axioms;

pub type BoxedNode = Box<Node>;

/// One element of the heap. `left` is the node's first child (the head of
/// its children's sibling chain); `next` is the node's next sibling within
/// its parent's child chain.
#[derive(Debug)]
pub struct Node {
    value: i64,
    left: Option<BoxedNode>,
    next: Option<BoxedNode>,
}

/// The multiset of values stored in an optional tree (or sibling chain).
pub closed spec fn opt_ms(o: Option<BoxedNode>) -> Multiset<i64>
    decreases o,
{
    match o {
        None => Multiset::empty(),
        Some(n) => n.ms(),
    }
}

/// `a` ranks no worse than `b` under the configured ordering: `a <= b` for
/// a min-heap, `a >= b` for a max-heap.
pub open spec fn ranks_before(min_heap: bool, a: i64, b: i64) -> bool {
    if min_heap {
        a <= b
    } else {
        a >= b
    }
}

/// Every node in the optional tree (or sibling chain) satisfies the heap
/// property for the given ordering.
pub closed spec fn opt_heap_ordered(o: Option<BoxedNode>, min_heap: bool) -> bool
    decreases o,
{
    match o {
        None => true,
        Some(n) => n.heap_ordered(min_heap),
    }
}

/// An optional node is a single tree (not a longer sibling chain): its root,
/// if present, has no sibling.
pub closed spec fn is_tree(o: Option<BoxedNode>) -> bool {
    match o {
        None => true,
        Some(n) => n.spec_next() is None,
    }
}

/// `r` is `winner` with `loser` prepended as its new first child: the root
/// keeps `winner`'s value and sibling, the first child carries `loser`'s
/// value and subtree, and its sibling link holds `winner`'s old first child.
spec fn prepends(winner: Node, loser: Node, r: Node) -> bool {
    &&& r.spec_value() == winner.spec_value()
    &&& r.spec_next() == winner.spec_next()
    &&& r.spec_left() is Some
    &&& r.spec_left().unwrap().spec_value() == loser.spec_value()
    &&& r.spec_left().unwrap().spec_left() == loser.spec_left()
    &&& r.spec_left().unwrap().spec_next() == winner.spec_left()
}

impl Node {
    /// The value stored at this node.
    pub closed spec fn spec_value(self) -> i64 {
        self.value
    }

    /// This node's first child, if any.
    pub closed spec fn spec_left(self) -> Option<BoxedNode> {
        self.left
    }

    /// This node's next sibling, if any.
    pub closed spec fn spec_next(self) -> Option<BoxedNode> {
        self.next
    }

    /// The multiset of values stored in this node, its descendants, and its
    /// following siblings (with their descendants).
    pub closed spec fn ms(self) -> Multiset<i64>
        decreases self,
    {
        opt_ms(self.left).add(opt_ms(self.next)).insert(self.value)
    }

    /// The heap property: every value below this node (anywhere in its child
    /// chain) ranks no better than this node's own value, and the same holds
    /// recursively for every child and every following sibling. Siblings are
    /// not ordered relative to one another.
    pub closed spec fn heap_ordered(self, min_heap: bool) -> bool
        decreases self,
    {
        &&& (forall|u: i64|
            opt_ms(self.left).contains(u) ==> ranks_before(min_heap, self.value, u))
        &&& opt_heap_ordered(self.left, min_heap)
        &&& opt_heap_ordered(self.next, min_heap)
    }

    pub fn new(value: i64) -> (n: Self)
        ensures
            n.spec_value() == value,
            n.spec_left() is None,
            n.spec_next() is None,
    {
        Node { value, left: None, next: None }
    }

    pub fn value(&self) -> (v: i64)
        ensures
            v == self.spec_value(),
    {
        self.value
    }

    pub fn set_left(&mut self, node: Option<BoxedNode>)
        ensures
            final(self).spec_left() == node,
            final(self).spec_value() == old(self).spec_value(),
            final(self).spec_next() == old(self).spec_next(),
    {
        self.left = node;
    }

    pub fn set_next(&mut self, node: Option<BoxedNode>)
        ensures
            final(self).spec_next() == node,
            final(self).spec_value() == old(self).spec_value(),
            final(self).spec_left() == old(self).spec_left(),
    {
        self.next = node;
    }

    pub fn left(self) -> (r: Option<BoxedNode>)
        ensures
            r == self.spec_left(),
    {
        self.left
    }

    pub fn next(self) -> (r: Option<BoxedNode>)
        ensures
            r == self.spec_next(),
    {
        self.next
    }
}

#[derive(Debug)]
enum HeapType {
    Max,
    Min,
}

/// A pairing heap: one heap-ordered tree whose root carries the extremal
/// value, together with the ordering fixed at construction and the count
/// of stored elements.
#[derive(Debug)]
pub struct PairingHeap {
    root: Option<BoxedNode>,
    heap_type: HeapType,
    size: usize,
}

impl PairingHeap {
    /// The multiset of values currently stored.
    pub closed spec fn ms(self) -> Multiset<i64> {
        opt_ms(self.root)
    }

    /// Whether the heap was created as a min-heap (smallest value on top).
    pub closed spec fn is_min(self) -> bool {
        self.heap_type is Min
    }

    /// Well-formedness: the root, if present, is a single heap-ordered tree,
    /// and the stored size matches the number of reachable values.
    pub closed spec fn wf(self) -> bool {
        &&& opt_heap_ordered(self.root, self.is_min())
        &&& is_tree(self.root)
        &&& self.size == self.ms().len()
    }

    /// `v` ranks no worse than every stored value under the heap's ordering.
    pub open spec fn is_best(self, v: i64) -> bool {
        forall|u: i64| self.ms().contains(u) ==> ranks_before(self.is_min(), v, u)
    }

    pub fn min() -> (h: Self)
        ensures
            h.wf(),
            h.ms() == Multiset::<i64>::empty(),
            h.is_min(),
    {
        Self::new(HeapType::Min)
    }

    pub fn max() -> (h: Self)
        ensures
            h.wf(),
            h.ms() == Multiset::<i64>::empty(),
            !h.is_min(),
    {
        Self::new(HeapType::Max)
    }

    pub fn len(&self) -> (n: usize)
        requires
            self.wf(),
        ensures
            n == self.ms().len(),
    {
        self.size
    }

    pub fn top(&self) -> (r: Option<i64>)
        requires
            self.wf(),
        ensures
            match r {
                Some(v) => self.ms().contains(v) && self.is_best(v) && self.ms().len() > 0,
                None => self.ms().len() == 0,
            },
    {
        match &self.root {
            None => None,
            Some(node) => {
                proof {
                    lemma_tree_root_best(**node, self.is_min());
                    assert(self.ms() == (**node).ms());
                    assert(self.ms().count(node.value) >= 1);
                }
                Some(node.value)
            },
        }
    }

    /// Whether `a` strictly wins against `b` under this heap's ordering:
    /// strictly smaller for a min-heap, strictly larger for a max-heap.
    spec fn wins(self, a: i64, b: i64) -> bool {
        match self.heap_type {
            HeapType::Max => a > b,
            HeapType::Min => a < b,
        }
    }

    fn compare(&self, a: &BoxedNode, b: &BoxedNode) -> (r: bool)
        ensures
            r == self.wins(a.spec_value(), b.spec_value()),
    {
        match self.heap_type {
            HeapType::Max => a.value > b.value,
            HeapType::Min => a.value < b.value,
        }
    }

    /// Links `child` in front of `parent`'s existing child chain, making it
    /// the new first child. Prepending keeps this a constant-time step.
    fn add_child(&self, parent: BoxedNode, child: BoxedNode) -> (r: BoxedNode)
        requires
            parent.heap_ordered(self.is_min()),
            child.heap_ordered(self.is_min()),
            child.spec_next() is None,
            ranks_before(self.is_min(), parent.spec_value(), child.spec_value()),
        ensures
            r.heap_ordered(self.is_min()),
            r.ms() == parent.ms().add(child.ms()),
            prepends(*parent, *child, *r),
    {
        let mut parent = parent;
        let mut child = child;
        let ghost parent0 = *parent;
        let ghost child0 = *child;
        if parent.left.is_some() {
            child.set_next(parent.left.take());
        }
        parent.set_left(Some(child));
        proof {
            let m = self.is_min();
            assert(opt_ms(child0.spec_next()) == Multiset::<i64>::empty());
            let childp = parent.spec_left().unwrap();
            assert(childp.ms() =~= child0.ms().add(opt_ms(parent0.spec_left())));
            assert forall|u: i64| opt_ms(parent.spec_left()).contains(u) implies ranks_before(
                m,
                parent.spec_value(),
                u,
            ) by {
                if !opt_ms(child0.spec_left()).contains(u) && !opt_ms(
                    parent0.spec_left(),
                ).contains(u) {
                    assert(u == child0.spec_value());
                }
            }
            assert(childp.heap_ordered(m));
            assert(parent.heap_ordered(m));
            assert(parent.ms() =~= parent0.ms().add(child0.ms()));
        }
        parent
    }

    /// Combines two independent heap-ordered trees into one in constant
    /// time: the tree whose root wins becomes the parent, the other becomes
    /// its new first child; a missing side leaves the other unchanged.
    fn merge(&self, node_a: Option<BoxedNode>, node_b: Option<BoxedNode>) -> (r: Option<
        BoxedNode,
    >)
        requires
            opt_heap_ordered(node_a, self.is_min()),
            opt_heap_ordered(node_b, self.is_min()),
            is_tree(node_a),
            is_tree(node_b),
        ensures
            opt_heap_ordered(r, self.is_min()),
            is_tree(r),
            opt_ms(r) == opt_ms(node_a).add(opt_ms(node_b)),
            r is None <==> (node_a is None && node_b is None),
            match (node_a, node_b) {
                (Some(a), Some(b)) => {
                    // The root strictly winning the comparison becomes the
                    // parent and the other root its new first child; which
                    // side wins on equal values is not part of the contract.
                    &&& self.wins(a.spec_value(), b.spec_value()) ==> r is Some && prepends(
                        *a,
                        *b,
                        *r.unwrap(),
                    )
                    &&& self.wins(b.spec_value(), a.spec_value()) ==> r is Some && prepends(
                        *b,
                        *a,
                        *r.unwrap(),
                    )
                },
                (Some(_), None) => r == node_a,
                (None, Some(_)) => r == node_b,
                (None, None) => r is None,
            },
    {
        match (node_a, node_b) {
            (Some(a), Some(b)) => Some(
                if self.compare(&a, &b) {
                    self.add_child(a, b)
                } else {
                    proof {
                        assert(ranks_before(self.is_min(), b.spec_value(), a.spec_value()));
                    }
                    self.add_child(b, a)
                },
            ),
            (Some(a), None) => {
                proof {
                    assert(a.ms().add(opt_ms(None::<BoxedNode>)) =~= a.ms());
                }
                Some(a)
            },
            (None, Some(b)) => {
                proof {
                    assert(opt_ms(None::<BoxedNode>).add(b.ms()) =~= b.ms());
                }
                Some(b)
            },
            (None, None) => None,
        }
    }

    pub fn push(&mut self, value: i64)
        requires
            old(self).wf(),
            old(self).ms().len() < usize::MAX,
        ensures
            final(self).wf(),
            final(self).is_min() == old(self).is_min(),
            final(self).ms() == old(self).ms().insert(value),
    {
        let node = Box::new(Node::new(value));
        proof {
            assert(node.ms() =~= Multiset::<i64>::empty().insert(value));
            assert(node.heap_ordered(self.is_min()));
        }
        if self.root.is_some() {
            let root = self.root.take();
            let merged = self.merge(root, Some(node));
            proof {
                assert(opt_ms(merged) =~= old(self).ms().insert(value));
            }
            self.root = merged;
        } else {
            proof {
                assert(old(self).ms() =~= Multiset::<i64>::empty());
                assert(opt_ms(Some(node)) =~= old(self).ms().insert(value));
            }
            self.root = Some(node);
        }
        self.size = self.size + 1;
    }

    pub fn pop(&mut self) -> (r: Option<i64>)
        requires
            old(self).wf(),
        ensures
            final(self).wf(),
            final(self).is_min() == old(self).is_min(),
            match r {
                Some(v) => {
                    &&& old(self).ms().contains(v)
                    &&& old(self).is_best(v)
                    &&& final(self).ms() == old(self).ms().remove(v)
                    &&& final(self).ms().len() == old(self).ms().len() - 1
                },
                None => {
                    &&& old(self).ms().len() == 0
                    &&& *final(self) == *old(self)
                },
            },
    {
        match self.root.take() {
            None => None,
            Some(mut node) => {
                proof {
                    lemma_tree_root_best(*node, self.is_min());
                    assert(old(self).ms() == node.ms());
                    assert(old(self).ms().count(node.spec_value()) >= 1);
                }
                self.size = self.size - 1;
                let first_child = node.left.take();
                let rest = self.two_pass_merge(first_child);
                proof {
                    assert(opt_ms(rest) =~= old(self).ms().remove(node.spec_value()));
                }
                self.root = rest;
                Some(node.value())
            },
        }
    }

    /// Consolidates a sibling chain of independent heap-ordered trees into
    /// one tree: walks the chain once, merging neighbors two at a time and
    /// folding each pair into a running accumulator.
    fn two_pass_merge(&self, node: Option<BoxedNode>) -> (r: Option<BoxedNode>)
        requires
            opt_heap_ordered(node, self.is_min()),
        ensures
            opt_heap_ordered(r, self.is_min()),
            is_tree(r),
            opt_ms(r) == opt_ms(node),
    {
        let mut root = node;
        let mut merged: Option<BoxedNode> = None;

        while root.is_some()
            invariant
                opt_heap_ordered(root, self.is_min()),
                opt_heap_ordered(merged, self.is_min()),
                is_tree(merged),
                opt_ms(merged).add(opt_ms(root)) == opt_ms(node),
            decreases opt_ms(root).len(),
        {
            let ghost chain0 = opt_ms(root);
            let ghost merged0 = opt_ms(merged);
            let mut parent = root.unwrap();
            let ghost parent0 = *parent;
            match parent.next.take() {
                Some(mut child) => {
                    let ghost child0 = *child;
                    root = child.next.take();
                    proof {
                        let m = self.is_min();
                        assert(parent0.heap_ordered(m));
                        assert(parent.heap_ordered(m));
                        assert(opt_heap_ordered(parent0.spec_next(), m));
                        assert(child0.heap_ordered(m));
                        assert(child.heap_ordered(m));
                        assert(chain0 == parent0.ms());
                        assert(child0.ms() =~= child.ms().add(opt_ms(root)));
                        assert(parent0.ms() =~= parent.ms().add(child0.ms()));
                        assert(chain0 =~= parent.ms().add(child.ms()).add(opt_ms(root)));
                        assert(parent.ms().count(parent.spec_value()) >= 1);
                    }
                    let children = self.merge(Some(parent), Some(child));
                    merged = self.merge(merged, children);
                    proof {
                        assert(opt_ms(merged).add(opt_ms(root)) =~= merged0.add(chain0));
                    }
                },
                None => {
                    proof {
                        assert(parent.ms().count(parent.spec_value()) >= 1);
                    }
                    merged = self.merge(merged, Some(parent));
                    root = None;
                    proof {
                        assert(opt_ms(merged).add(opt_ms(root)) =~= merged0.add(chain0));
                    }
                },
            }
        }
        merged
    }

    fn new(heap_type: HeapType) -> (h: Self)
        ensures
            h.wf(),
            h.ms() == Multiset::<i64>::empty(),
            h.is_min() == (heap_type is Min),
    {
        PairingHeap { root: None, heap_type, size: 0 }
    }
}

/// The root of a single heap-ordered tree ranks no worse than every value
/// stored in it.
proof fn lemma_tree_root_best(n: Node, min_heap: bool)
    requires
        n.heap_ordered(min_heap),
        n.spec_next() is None,
    ensures
        forall|u: i64| n.ms().contains(u) ==> ranks_before(min_heap, n.spec_value(), u),
{
    assert forall|u: i64| n.ms().contains(u) implies ranks_before(
        min_heap,
        n.spec_value(),
        u,
    ) by {
        if !opt_ms(n.spec_left()).contains(u) {
            assert(opt_ms(n.spec_next()) == Multiset::<i64>::empty());
            assert(u == n.spec_value());
        }
    }
}

} // verus!
