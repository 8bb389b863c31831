use vstd::prelude::*;

use core::cmp::Ordering;

use crate::errors::BSTError;

verus! {

/// An ordered binary search tree over `u64` values.
///
/// A tree is either `Empty` or a `Node` holding one value and two exclusively
/// owned child subtrees. A well-formed tree (see [`BST::inv`]) keeps every
/// value in a node's left subtree strictly below the node's value and every
/// value in its right subtree strictly above it, so no value occurs twice.
#[derive(Debug)]
pub enum BST {
    Node { data: u64, left: Box<BST>, right: Box<BST> },
    Empty,
}

impl Clone for BST {
    /// Cloning yields a tree equal to the original, subtree for subtree.
    fn clone(&self) -> (r: BST)
        ensures
            r == *self,
        decreases self,
    {
        match self {
            BST::Empty => BST::Empty,
            BST::Node { data, left, right } => BST::Node {
                data: *data,
                left: Box::new((&**left).clone()),
                right: Box::new((&**right).clone()),
            },
        }
    }
}

impl BST {
    /// The set of values stored in the tree, as a membership predicate.
    pub open spec fn contains_spec(self, v: u64) -> bool
        decreases self,
    {
        match self {
            BST::Empty => false,
            BST::Node { data, left, right } => v == data || left.contains_spec(v)
                || right.contains_spec(v),
        }
    }

    /// The binary-search-tree invariant: in every node, the left subtree holds
    /// only strictly smaller values and the right subtree only strictly larger
    /// ones.
    pub open spec fn inv(self) -> bool
        decreases self,
    {
        match self {
            BST::Empty => true,
            BST::Node { data, left, right } => {
                &&& left.inv()
                &&& right.inv()
                &&& forall|v: u64| left.contains_spec(v) ==> v < data
                &&& forall|v: u64| right.contains_spec(v) ==> data < v
            },
        }
    }

    /// The tree that inserting `value` yields: the search path is followed by
    /// comparison and an empty slot is replaced by a single-node tree; a value
    /// that is already present leaves the tree unchanged.
    pub open spec fn inserted_spec(self, value: u64) -> BST
        decreases self,
    {
        match self {
            BST::Empty => BST::Node {
                data: value,
                left: Box::new(BST::Empty),
                right: Box::new(BST::Empty),
            },
            BST::Node { data, left, right } => if value < data {
                BST::Node { data, left: Box::new(left.inserted_spec(value)), right }
            } else if value > data {
                BST::Node { data, left, right: Box::new(right.inserted_spec(value)) }
            } else {
                self
            },
        }
    }

    /// The smallest value of a non-empty tree: the leftmost node's value.
    /// On an empty tree the result is arbitrary.
    pub open spec fn min_spec(self) -> u64
        decreases self,
    {
        match self {
            BST::Empty => 0,
            BST::Node { data, left, .. } => if left.is_empty_spec() {
                data
            } else {
                left.min_spec()
            },
        }
    }

    /// The tree that detaching the leftmost node of a non-empty tree leaves
    /// behind.
    pub open spec fn removed_min_spec(self) -> BST
        decreases self,
    {
        match self {
            BST::Empty => BST::Empty,
            BST::Node { data, left, right } => if left.is_empty_spec() {
                *right
            } else {
                BST::Node { data, left: Box::new(left.removed_min_spec()), right }
            },
        }
    }

    /// The tree that removing `value` yields. A missing value leaves the tree
    /// unchanged; a node with one non-empty child is replaced by that child;
    /// a node with two children takes the smallest value of its right subtree
    /// (its in-order successor) as its new value, and that value is detached
    /// from the right subtree.
    pub open spec fn removed_spec(self, value: u64) -> BST
        decreases self,
    {
        match self {
            BST::Empty => BST::Empty,
            BST::Node { data, left, right } => if value < data {
                BST::Node { data, left: Box::new(left.removed_spec(value)), right }
            } else if value > data {
                BST::Node { data, left, right: Box::new(right.removed_spec(value)) }
            } else if left.is_empty_spec() {
                *right
            } else if right.is_empty_spec() {
                *left
            } else {
                BST::Node {
                    data: right.min_spec(),
                    left,
                    right: Box::new(right.removed_min_spec()),
                }
            },
        }
    }

    /// Creates an empty tree.
    pub fn new() -> (r: BST)
        ensures
            r == BST::Empty,
            r.inv(),
    {
        BST::Empty
    }

    /// Reports whether `value` is stored somewhere in the tree.
    pub fn has_value(&self, value: u64) -> (r: bool)
        requires
            self.inv(),
        ensures
            r == self.contains_spec(value),
        decreases self,
    {
        match self {
            BST::Empty => false,
            BST::Node { data, left, right } => {
                if value < *data {
                    proof {
                        assert(!right.contains_spec(value));
                    }
                    left.has_value(value)
                } else if value > *data {
                    proof {
                        assert(!left.contains_spec(value));
                    }
                    right.has_value(value)
                } else {
                    true
                }
            },
        }
    }

    /// Looks up `value` and returns a reference to the stored value equal to
    /// it, or `None` when the tree does not contain it.
    pub fn get_value(&self, value: u64) -> (r: Option<&u64>)
        requires
            self.inv(),
        ensures
            r matches Some(p) ==> *p == value && self.contains_spec(value),
            r is None ==> !self.contains_spec(value),
        decreases self,
    {
        match self {
            BST::Empty => None,
            BST::Node { data, left, right } => {
                if value < *data {
                    proof {
                        assert(!right.contains_spec(value));
                    }
                    left.get_value(value)
                } else if value > *data {
                    proof {
                        assert(!left.contains_spec(value));
                    }
                    right.get_value(value)
                } else {
                    Some(data)
                }
            },
        }
    }

    /// Inserts `value`, keeping the search-tree invariant; inserting a value
    /// that is already present leaves the tree exactly as it was.
    fn inserted(self, value: u64) -> (r: BST)
        requires
            self.inv(),
        ensures
            r == self.inserted_spec(value),
            r.inv(),
            forall|v: u64| r.contains_spec(v) <==> (self.contains_spec(v) || v == value),
            self.contains_spec(value) ==> r == self,
        decreases self,
    {
        match self {
            BST::Empty => BST::Node {
                data: value,
                left: Box::new(BST::Empty),
                right: Box::new(BST::Empty),
            },
            BST::Node { data, left, right } => {
                if value < data {
                    proof {
                        assert(!right.contains_spec(value));
                    }
                    let ghost old_left: BST = *left;
                    let ghost old_right: BST = *right;
                    let new_left = (*left).inserted(value);
                    let ghost nl: BST = new_left;
                    let res = BST::Node { data, left: Box::new(new_left), right };
                    proof {
                        assert(res == self.inserted_spec(value));
                        assert forall|v: u64|
                            res.contains_spec(v) <==> (self.contains_spec(v) || v == value) by {
                            assert(res.contains_spec(v) == (v == data || nl.contains_spec(v)
                                || old_right.contains_spec(v)));
                            assert(self.contains_spec(v) == (v == data || old_left.contains_spec(v)
                                || old_right.contains_spec(v)));
                            assert(nl.contains_spec(v) == (old_left.contains_spec(v) || v
                                == value));
                        }
                    }
                    res
                } else if value > data {
                    proof {
                        assert(!left.contains_spec(value));
                    }
                    let ghost old_left: BST = *left;
                    let ghost old_right: BST = *right;
                    let new_right = (*right).inserted(value);
                    let ghost nr: BST = new_right;
                    let res = BST::Node { data, left, right: Box::new(new_right) };
                    proof {
                        assert(res == self.inserted_spec(value));
                        assert forall|v: u64|
                            res.contains_spec(v) <==> (self.contains_spec(v) || v == value) by {
                            assert(res.contains_spec(v) == (v == data || old_left.contains_spec(v)
                                || nr.contains_spec(v)));
                            assert(self.contains_spec(v) == (v == data || old_left.contains_spec(v)
                                || old_right.contains_spec(v)));
                            assert(nr.contains_spec(v) == (old_right.contains_spec(v) || v
                                == value));
                        }
                    }
                    res
                } else {
                    BST::Node { data, left, right }
                }
            },
        }
    }

    /// Inserts `value` in place. The tree afterwards holds exactly the old
    /// values plus `value`; when `value` was already present the insertion is
    /// a no-op, so inserting twice is the same as inserting once.
    pub fn insert(&mut self, value: u64)
        requires
            old(self).inv(),
        ensures
            *final(self) == old(self).inserted_spec(value),
            final(self).inv(),
            forall|v: u64|
                final(self).contains_spec(v) <==> (old(self).contains_spec(v) || v == value),
            final(self).contains_spec(value),
            old(self).contains_spec(value) ==> *final(self) == *old(self),
    {
        let mut tree = BST::Empty;
        core::mem::swap(self, &mut tree);
        *self = tree.inserted(value);
    }

    /// Detaches the smallest value of a non-empty tree and returns it together
    /// with the remaining tree.
    fn removed_min(self) -> (res: (u64, BST))
        requires
            self.inv(),
            self is Node,
        ensures
            res.0 == self.min_spec(),
            res.1 == self.removed_min_spec(),
            res.1.inv(),
            self.contains_spec(res.0),
            forall|v: u64| res.1.contains_spec(v) <==> (self.contains_spec(v) && v != res.0),
            forall|v: u64| self.contains_spec(v) ==> res.0 <= v,
        decreases self,
    {
        match self {
            BST::Empty => (0, BST::Empty),
            BST::Node { data, left, right } => {
                let ghost old_left: BST = *left;
                let ghost old_right: BST = *right;
                if left.is_empty() {
                    proof {
                        assert(self.min_spec() == data);
                        assert(self.removed_min_spec() == old_right);
                        assert forall|v: u64|
                            old_right.contains_spec(v) <==> (self.contains_spec(v) && v
                            != data) by {
                            assert(self.contains_spec(v) == (v == data || old_left.contains_spec(v)
                                || old_right.contains_spec(v)));
                            assert(!old_left.contains_spec(v));
                        }
                        assert forall|v: u64| self.contains_spec(v) implies data <= v by {
                            assert(self.contains_spec(v) == (v == data || old_left.contains_spec(v)
                                || old_right.contains_spec(v)));
                        }
                    }
                    (data, *right)
                } else {
                    let (m, new_left) = (*left).removed_min();
                    let ghost nl: BST = new_left;
                    let res = BST::Node { data, left: Box::new(new_left), right };
                    proof {
                        assert(m == self.min_spec());
                        assert(res == self.removed_min_spec());
                        assert(old_left.contains_spec(m));
                        assert(m < data);
                        assert forall|v: u64| nl.contains_spec(v) implies v < data by {
                            assert(old_left.contains_spec(v));
                        }
                        assert(res.inv());
                        assert forall|v: u64|
                            res.contains_spec(v) <==> (self.contains_spec(v) && v != m) by {
                            assert(res.contains_spec(v) == (v == data || nl.contains_spec(v)
                                || old_right.contains_spec(v)));
                            assert(self.contains_spec(v) == (v == data || old_left.contains_spec(v)
                                || old_right.contains_spec(v)));
                            assert(nl.contains_spec(v) == (old_left.contains_spec(v) && v != m));
                        }
                        assert forall|v: u64| self.contains_spec(v) implies m <= v by {
                            assert(self.contains_spec(v) == (v == data || old_left.contains_spec(v)
                                || old_right.contains_spec(v)));
                            if old_left.contains_spec(v) {
                            } else {
                                assert(m < data);
                            }
                        }
                    }
                    (m, res)
                }
            },
        }
    }

    /// Removes `value` when present and reports whether a node was removed;
    /// when `value` is absent the tree comes back unchanged.
    fn removed(self, value: u64) -> (res: (BST, bool))
        requires
            self.inv(),
        ensures
            res.0 == self.removed_spec(value),
            res.0.inv(),
            res.1 == self.contains_spec(value),
            forall|v: u64| res.0.contains_spec(v) <==> (self.contains_spec(v) && v != value),
            !self.contains_spec(value) ==> res.0 == self,
        decreases self,
    {
        match self {
            BST::Empty => (BST::Empty, false),
            BST::Node { data, left, right } => {
                let ghost old_left: BST = *left;
                let ghost old_right: BST = *right;
                if value < data {
                    proof {
                        assert(!old_right.contains_spec(value));
                    }
                    let (new_left, was_removed) = (*left).removed(value);
                    let ghost nl: BST = new_left;
                    let res = BST::Node { data, left: Box::new(new_left), right };
                    proof {
                        assert(res == self.removed_spec(value));
                        assert forall|v: u64| nl.contains_spec(v) implies v < data by {
                            assert(old_left.contains_spec(v));
                        }
                        assert(res.inv());
                        assert forall|v: u64|
                            res.contains_spec(v) <==> (self.contains_spec(v) && v != value) by {
                            assert(res.contains_spec(v) == (v == data || nl.contains_spec(v)
                                || old_right.contains_spec(v)));
                            assert(self.contains_spec(v) == (v == data || old_left.contains_spec(v)
                                || old_right.contains_spec(v)));
                            assert(nl.contains_spec(v) == (old_left.contains_spec(v) && v
                                != value));
                        }
                    }
                    (res, was_removed)
                } else if value > data {
                    proof {
                        assert(!old_left.contains_spec(value));
                    }
                    let (new_right, was_removed) = (*right).removed(value);
                    let ghost nr: BST = new_right;
                    let res = BST::Node { data, left, right: Box::new(new_right) };
                    proof {
                        assert(res == self.removed_spec(value));
                        assert forall|v: u64| nr.contains_spec(v) implies data < v by {
                            assert(old_right.contains_spec(v));
                        }
                        assert(res.inv());
                        assert forall|v: u64|
                            res.contains_spec(v) <==> (self.contains_spec(v) && v != value) by {
                            assert(res.contains_spec(v) == (v == data || old_left.contains_spec(v)
                                || nr.contains_spec(v)));
                            assert(self.contains_spec(v) == (v == data || old_left.contains_spec(v)
                                || old_right.contains_spec(v)));
                            assert(nr.contains_spec(v) == (old_right.contains_spec(v) && v
                                != value));
                        }
                    }
                    (res, was_removed)
                } else {
                    proof {
                        assert(!old_left.contains_spec(value));
                        assert(!old_right.contains_spec(value));
                    }
                    if left.is_empty() {
                        proof {
                            assert(old_right == self.removed_spec(value));
                            assert forall|v: u64|
                                old_right.contains_spec(v) <==> (self.contains_spec(v) && v
                                != value) by {
                                assert(self.contains_spec(v) == (v == data
                                    || old_left.contains_spec(v) || old_right.contains_spec(v)));
                                assert(!old_left.contains_spec(v));
                            }
                        }
                        (*right, true)
                    } else if right.is_empty() {
                        proof {
                            assert(old_left == self.removed_spec(value));
                            assert forall|v: u64|
                                old_left.contains_spec(v) <==> (self.contains_spec(v) && v
                                != value) by {
                                assert(self.contains_spec(v) == (v == data
                                    || old_left.contains_spec(v) || old_right.contains_spec(v)));
                                assert(!old_right.contains_spec(v));
                            }
                        }
                        (*left, true)
                    } else {
                        let (m, new_right) = (*right).removed_min();
                        let ghost nr: BST = new_right;
                        let res = BST::Node { data: m, left, right: Box::new(new_right) };
                        proof {
                            assert(res == self.removed_spec(value));
                            assert(old_right.contains_spec(m));
                            assert(data < m);
                            assert forall|v: u64| nr.contains_spec(v) implies m < v by {
                                assert(old_right.contains_spec(v) && v != m);
                            }
                            assert forall|v: u64| old_left.contains_spec(v) implies v < m by {
                                assert(v < data);
                            }
                            assert(res.inv());
                            assert forall|v: u64|
                                res.contains_spec(v) <==> (self.contains_spec(v) && v != value) by {
                                assert(res.contains_spec(v) == (v == m || old_left.contains_spec(v)
                                    || nr.contains_spec(v)));
                                assert(self.contains_spec(v) == (v == data
                                    || old_left.contains_spec(v) || old_right.contains_spec(v)));
                                assert(nr.contains_spec(v) == (old_right.contains_spec(v) && v
                                    != m));
                            }
                        }
                        (res, true)
                    }
                }
            },
        }
    }

    /// Removes `value` from the tree. On success the tree afterwards holds
    /// exactly the old values except `value` and still satisfies the
    /// search-tree invariant. Removing from an empty tree fails with
    /// `EmptyTree`; removing a value that is not present fails with
    /// `UnfoundValue` and leaves the tree unchanged. The root is removed like
    /// any other node.
    pub fn delete(&mut self, value: u64) -> (r: Result<(), BSTError>)
        requires
            old(self).inv(),
        ensures
            *final(self) == old(self).removed_spec(value),
            final(self).inv(),
            forall|v: u64|
                final(self).contains_spec(v) <==> (old(self).contains_spec(v) && v != value),
            r is Ok <==> old(self).contains_spec(value),
            !old(self).contains_spec(value) ==> *final(self) == *old(self),
            (*old(self)) is Empty ==> r == Result::<(), BSTError>::Err(BSTError::EmptyTree),
            !((*old(self)) is Empty) && !old(self).contains_spec(value) ==> (r matches Err(e)
                && e is UnfoundValue),
    {
        if self.is_empty() {
            return Err(BSTError::EmptyTree);
        }
        let mut tree = BST::Empty;
        core::mem::swap(self, &mut tree);
        let (new_tree, was_removed) = tree.removed(value);
        *self = new_tree;
        if was_removed {
            Ok(())
        } else {
            Err(BSTError::UnfoundValue("the value to delete is not in the tree"))
        }
    }

    /// Reports whether the tree is empty.
    pub fn is_empty(&self) -> (r: bool)
        ensures
            r == (self is Empty),
    {
        match self {
            BST::Empty => true,
            _ => false,
        }
    }

    /// Whether the tree is a node whose two children are both empty. An empty
    /// tree is not a leaf.
    pub open spec fn is_leaf_spec(self) -> bool {
        match self {
            BST::Empty => false,
            BST::Node { left, right, .. } => left.is_empty_spec() && right.is_empty_spec(),
        }
    }

    /// Whether the tree is empty, as a spec-level predicate.
    pub open spec fn is_empty_spec(self) -> bool {
        self is Empty
    }

    /// The shallow, root-only comparison of two trees: empty sorts below any
    /// node, and nodes compare by their root values, ignoring the subtrees.
    pub open spec fn root_cmp_spec(self, other: BST) -> Option<Ordering> {
        match (self, other) {
            (BST::Empty, BST::Empty) => Some(Ordering::Equal),
            (BST::Empty, BST::Node { .. }) => Some(Ordering::Less),
            (BST::Node { .. }, BST::Empty) => Some(Ordering::Greater),
            (BST::Node { data, .. }, BST::Node { data: other_data, .. }) => if data < other_data {
                Some(Ordering::Less)
            } else if data == other_data {
                Some(Ordering::Equal)
            } else {
                Some(Ordering::Greater)
            },
        }
    }

    /// Reports whether the tree is a single node with two empty children.
    pub fn is_leaf(&self) -> (r: bool)
        ensures
            r == self.is_leaf_spec(),
    {
        match self {
            BST::Empty => false,
            BST::Node { left, right, .. } => left.is_empty() && right.is_empty(),
        }
    }

    /// Returns a reference to this node's value, or `None` on an empty tree.
    pub fn get_data(&self) -> (r: Option<&u64>)
        ensures
            self is Empty ==> r is None,
            self matches BST::Node { data, .. } ==> (r matches Some(p) && *p == data),
    {
        match self {
            BST::Empty => None,
            BST::Node { data, .. } => Some(data),
        }
    }

    /// Returns a reference to the left subtree, or `None` on an empty tree.
    pub fn get_left(&self) -> (r: Option<&Box<BST>>)
        ensures
            self is Empty ==> r is None,
            self matches BST::Node { left, .. } ==> (r matches Some(p) && *p == left),
    {
        match self {
            BST::Empty => None,
            BST::Node { left, .. } => Some(left),
        }
    }

    /// Returns a reference to the right subtree, or `None` on an empty tree.
    pub fn get_right(&self) -> (r: Option<&Box<BST>>)
        ensures
            self is Empty ==> r is None,
            self matches BST::Node { right, .. } ==> (r matches Some(p) && *p == right),
    {
        match self {
            BST::Empty => None,
            BST::Node { right, .. } => Some(right),
        }
    }

    /// Reports whether the tree is a node with a non-empty left subtree.
    pub fn has_left(&self) -> (r: bool)
        ensures
            r == (self matches BST::Node { left, .. } && !left.is_empty_spec()),
    {
        match self {
            BST::Empty => false,
            BST::Node { left, .. } => !left.is_empty(),
        }
    }

    /// Reports whether the tree is a node with a non-empty right subtree.
    pub fn has_right(&self) -> (r: bool)
        ensures
            r == (self matches BST::Node { right, .. } && !right.is_empty_spec()),
    {
        match self {
            BST::Empty => false,
            BST::Node { right, .. } => !right.is_empty(),
        }
    }

    /// Returns the smallest value in the tree, or fails with `EmptyTree` when
    /// the tree is empty.
    pub fn get_min(&self) -> (r: Result<u64, BSTError>)
        requires
            self.inv(),
        ensures
            self is Empty ==> r == Result::<u64, BSTError>::Err(BSTError::EmptyTree),
            self is Node ==> r == Result::<u64, BSTError>::Ok(self.min_spec()),
            self is Node ==> (r matches Ok(m) && self.contains_spec(m) && forall|v: u64|
                self.contains_spec(v) ==> m <= v),
        decreases self,
    {
        match self {
            BST::Empty => Err(BSTError::EmptyTree),
            BST::Node { data, left, right } => {
                if left.is_empty() {
                    proof {
                        assert(self.min_spec() == *data);
                        assert forall|v: u64| self.contains_spec(v) implies *data <= v by {
                            assert(self.contains_spec(v) == (v == *data || left.contains_spec(v)
                                || right.contains_spec(v)));
                            assert(!left.contains_spec(v));
                        }
                    }
                    Ok(*data)
                } else {
                    let sub = left.get_min();
                    match sub {
                        Ok(m) => {
                            proof {
                                assert(m == self.min_spec());
                                assert(left.contains_spec(m));
                                assert(m < *data);
                                assert forall|v: u64| self.contains_spec(v) implies m <= v by {
                                    assert(self.contains_spec(v) == (v == *data
                                        || left.contains_spec(v) || right.contains_spec(v)));
                                    if right.contains_spec(v) {
                                        assert(*data < v);
                                    }
                                }
                            }
                            Ok(m)
                        },
                        Err(_) => Err(BSTError::EmptyTree),
                    }
                }
            },
        }
    }

    /// The in-order (left, root, right) sequence of the tree's values.
    pub open spec fn in_order_spec(self) -> Seq<u64>
        decreases self,
    {
        match self {
            BST::Empty => Seq::empty(),
            BST::Node { data, left, right } => left.in_order_spec() + seq![data]
                + right.in_order_spec(),
        }
    }

    /// The pre-order (root, left, right) sequence of the tree's values.
    pub open spec fn pre_order_spec(self) -> Seq<u64>
        decreases self,
    {
        match self {
            BST::Empty => Seq::empty(),
            BST::Node { data, left, right } => seq![data] + left.pre_order_spec()
                + right.pre_order_spec(),
        }
    }

    /// The post-order (left, right, root) sequence of the tree's values.
    pub open spec fn post_order_spec(self) -> Seq<u64>
        decreases self,
    {
        match self {
            BST::Empty => Seq::empty(),
            BST::Node { data, left, right } => left.post_order_spec() + right.post_order_spec()
                + seq![data],
        }
    }

    /// Collects the values of an in-order (left, root, right) depth-first
    /// traversal.
    pub fn in_order(&self) -> (r: Vec<u64>)
        ensures
            r@ == self.in_order_spec(),
        decreases self,
    {
        match self {
            BST::Empty => Vec::new(),
            BST::Node { data, left, right } => {
                let mut out = left.in_order();
                out.push(*data);
                let mut tail = right.in_order();
                out.append(&mut tail);
                proof {
                    assert(out@ =~= self.in_order_spec());
                }
                out
            },
        }
    }

    /// Collects the values of a pre-order (root, left, right) depth-first
    /// traversal.
    pub fn pre_order(&self) -> (r: Vec<u64>)
        ensures
            r@ == self.pre_order_spec(),
        decreases self,
    {
        match self {
            BST::Empty => Vec::new(),
            BST::Node { data, left, right } => {
                let mut out = Vec::new();
                out.push(*data);
                let mut mid = left.pre_order();
                out.append(&mut mid);
                let mut tail = right.pre_order();
                out.append(&mut tail);
                proof {
                    assert(out@ =~= self.pre_order_spec());
                }
                out
            },
        }
    }

    /// Collects the values of a post-order (left, right, root) depth-first
    /// traversal.
    pub fn post_order(&self) -> (r: Vec<u64>)
        ensures
            r@ == self.post_order_spec(),
        decreases self,
    {
        match self {
            BST::Empty => Vec::new(),
            BST::Node { data, left, right } => {
                let mut out = left.post_order();
                let mut mid = right.post_order();
                out.append(&mut mid);
                out.push(*data);
                proof {
                    assert(out@ =~= self.post_order_spec());
                }
                out
            },
        }
    }
}

/// Whether a sequence of values is in strictly increasing order, which also
/// rules out duplicates.
pub open spec fn seq_strictly_increasing(s: Seq<u64>) -> bool {
    forall|i: int, j: int| 0 <= i < j < s.len() ==> s[i] < s[j]
}

/// Law: the in-order traversal of a tree lists a value exactly when the tree
/// contains it.
pub proof fn lemma_in_order_contains(t: BST, v: u64)
    ensures
        t.in_order_spec().contains(v) <==> t.contains_spec(v),
    decreases t,
{
    match t {
        BST::Empty => {
            assert(t.in_order_spec().len() == 0);
        },
        BST::Node { data, left, right } => {
            lemma_in_order_contains(*left, v);
            lemma_in_order_contains(*right, v);
            let ls = left.in_order_spec();
            let rs = right.in_order_spec();
            let s = t.in_order_spec();
            assert(s == ls + seq![data] + rs);
            assert(t.contains_spec(v) == (v == data || left.contains_spec(v)
                || right.contains_spec(v)));
            if t.contains_spec(v) {
                if left.contains_spec(v) {
                    let i = choose|i: int| 0 <= i < ls.len() && ls[i] == v;
                    assert(s[i] == v);
                } else if v == data {
                    assert(s[ls.len() as int] == v);
                } else {
                    let i = choose|i: int| 0 <= i < rs.len() && rs[i] == v;
                    assert(s[ls.len() + 1 + i] == v);
                }
                assert(s.contains(v));
            }
            if s.contains(v) {
                let i = choose|i: int| 0 <= i < s.len() && s[i] == v;
                if i < ls.len() {
                    assert(ls[i] == v);
                    assert(ls.contains(v));
                } else if i == ls.len() {
                    assert(v == data);
                } else {
                    assert(rs[i - ls.len() - 1] == v);
                    assert(rs.contains(v));
                }
                assert(t.contains_spec(v));
            }
        },
    }
}

/// Law: an in-order traversal of a well-formed tree yields its values in
/// strictly increasing order, so the output is sorted and holds no value
/// twice. Since every sequence of insertions starting from the empty tree
/// keeps the invariant, this holds for every tree such insertions build.
pub proof fn lemma_in_order_sorted(t: BST)
    requires
        t.inv(),
    ensures
        seq_strictly_increasing(t.in_order_spec()),
    decreases t,
{
    match t {
        BST::Empty => {},
        BST::Node { data, left, right } => {
            assert(left.inv() && right.inv() && (forall|v: u64|
                left.contains_spec(v) ==> v < data) && (forall|v: u64|
                right.contains_spec(v) ==> data < v));
            lemma_in_order_sorted(*left);
            lemma_in_order_sorted(*right);
            let ls = left.in_order_spec();
            let rs = right.in_order_spec();
            let s = t.in_order_spec();
            assert(s == ls + seq![data] + rs);
            let llen = ls.len() as int;
            assert forall|i: int, j: int| 0 <= i < j < s.len() implies s[i] < s[j] by {
                if i < llen {
                    assert(s[i] == ls[i]);
                    assert(ls.contains(ls[i]));
                    lemma_in_order_contains(*left, ls[i]);
                    assert(ls[i] < data);
                } else if i > llen {
                    assert(s[i] == rs[i - llen - 1]);
                }
                if j < llen {
                    assert(s[j] == ls[j]);
                } else if j > llen {
                    assert(s[j] == rs[j - llen - 1]);
                    assert(rs.contains(rs[j - llen - 1]));
                    lemma_in_order_contains(*right, rs[j - llen - 1]);
                    assert(data < rs[j - llen - 1]);
                }
            }
        },
    }
}

/// What insertion yields, at the level of the tree model: the result is
/// well-formed, holds exactly the old values plus the inserted one, and is
/// unchanged when the value was already present.
pub proof fn lemma_inserted_spec(t: BST, value: u64)
    requires
        t.inv(),
    ensures
        t.inserted_spec(value).inv(),
        forall|v: u64|
            t.inserted_spec(value).contains_spec(v) <==> (t.contains_spec(v) || v == value),
        t.contains_spec(value) ==> t.inserted_spec(value) == t,
    decreases t,
{
    let r = t.inserted_spec(value);
    match t {
        BST::Empty => {
            assert forall|v: u64| r.contains_spec(v) <==> (t.contains_spec(v) || v == value) by {
                assert(r.contains_spec(v) == (v == value || BST::Empty.contains_spec(v)
                    || BST::Empty.contains_spec(v)));
            }
            assert forall|v: u64| !BST::Empty.contains_spec(v) by {}
            assert(r.inv());
        },
        BST::Node { data, left, right } => {
            assert(left.inv() && right.inv() && (forall|v: u64|
                left.contains_spec(v) ==> v < data) && (forall|v: u64|
                right.contains_spec(v) ==> data < v));
            if value < data {
                lemma_inserted_spec(*left, value);
                let nl = left.inserted_spec(value);
                assert(r == BST::Node { data, left: Box::new(nl), right });
                assert forall|v: u64|
                    r.contains_spec(v) <==> (t.contains_spec(v) || v == value) by {
                    assert(r.contains_spec(v) == (v == data || nl.contains_spec(v)
                        || right.contains_spec(v)));
                    assert(t.contains_spec(v) == (v == data || left.contains_spec(v)
                        || right.contains_spec(v)));
                }
                assert forall|v: u64| nl.contains_spec(v) implies v < data by {
                    assert(nl.contains_spec(v) <==> (left.contains_spec(v) || v == value));
                }
                assert(r.inv());
                assert(!right.contains_spec(value));
                assert(t.contains_spec(value) ==> left.contains_spec(value));
            } else if value > data {
                lemma_inserted_spec(*right, value);
                let nr = right.inserted_spec(value);
                assert(r == BST::Node { data, left, right: Box::new(nr) });
                assert forall|v: u64|
                    r.contains_spec(v) <==> (t.contains_spec(v) || v == value) by {
                    assert(r.contains_spec(v) == (v == data || left.contains_spec(v)
                        || nr.contains_spec(v)));
                    assert(t.contains_spec(v) == (v == data || left.contains_spec(v)
                        || right.contains_spec(v)));
                }
                assert forall|v: u64| nr.contains_spec(v) implies data < v by {
                    assert(nr.contains_spec(v) <==> (right.contains_spec(v) || v == value));
                }
                assert(r.inv());
                assert(!left.contains_spec(value));
                assert(t.contains_spec(value) ==> right.contains_spec(value));
            } else {
                assert(r == t);
                assert forall|v: u64|
                    r.contains_spec(v) <==> (t.contains_spec(v) || v == value) by {
                    assert(t.contains_spec(v) == (v == data || left.contains_spec(v)
                        || right.contains_spec(v)));
                }
            }
        },
    }
}

/// Law: inserting a value and then asking for it always succeeds: the tree
/// that `insert(value)` leaves behind contains `value`, so `has_value(value)`
/// returns true on it.
pub proof fn lemma_insert_then_has_value(t: BST, value: u64)
    requires
        t.inv(),
    ensures
        t.inserted_spec(value).contains_spec(value),
{
    lemma_inserted_spec(t, value);
}

/// Law: insertion is idempotent. Inserting the same value twice yields
/// exactly the tree that inserting it once yields, so lookups and traversals
/// are unchanged by the second insertion.
pub proof fn lemma_insert_idempotent(t: BST, value: u64)
    requires
        t.inv(),
    ensures
        t.inserted_spec(value).inserted_spec(value) == t.inserted_spec(value),
{
    lemma_inserted_spec(t, value);
    lemma_inserted_spec(t.inserted_spec(value), value);
}

impl From<u64> for BST {
    /// Builds a single-node tree holding `value`, with two empty children.
    fn from(value: u64) -> (r: BST) {
        BST::Node { data: value, left: Box::new(BST::Empty), right: Box::new(BST::Empty) }
    }
}

impl vstd::std_specs::convert::FromSpecImpl<u64> for BST {
    open spec fn obeys_from_spec() -> bool {
        true
    }

    open spec fn from_spec(value: u64) -> BST {
        BST::Node { data: value, left: Box::new(BST::Empty), right: Box::new(BST::Empty) }
    }
}

impl PartialEq for BST {
    /// Trees compare by their root values alone: two empty trees are equal,
    /// and two nodes are equal exactly when their root values are, whatever
    /// their subtrees hold. This shallow comparison is deliberate; it is not
    /// deep structural equality.
    fn eq(&self, other: &Self) -> (r: bool) {
        match (self, other) {
            (BST::Empty, BST::Empty) => true,
            (BST::Node { data, .. }, BST::Node { data: other_data, .. }) => *data == *other_data,
            _ => false,
        }
    }
}

impl Eq for BST {}

impl vstd::std_specs::cmp::PartialEqSpecImpl for BST {
    open spec fn obeys_eq_spec() -> bool {
        true
    }

    open spec fn eq_spec(&self, other: &Self) -> bool {
        self.root_cmp_spec(*other) == Some(Ordering::Equal)
    }
}

impl PartialOrd for BST {
    /// Trees order by their root values alone: an empty tree sorts below any
    /// node, and two nodes order as their root values do.
    fn partial_cmp(&self, other: &Self) -> (r: Option<Ordering>) {
        match (self, other) {
            (BST::Empty, BST::Empty) => Some(Ordering::Equal),
            (BST::Empty, BST::Node { .. }) => Some(Ordering::Less),
            (BST::Node { .. }, BST::Empty) => Some(Ordering::Greater),
            (BST::Node { data, .. }, BST::Node { data: other_data, .. }) => {
                if *data < *other_data {
                    Some(Ordering::Less)
                } else if *data == *other_data {
                    Some(Ordering::Equal)
                } else {
                    Some(Ordering::Greater)
                }
            },
        }
    }
}

impl vstd::std_specs::cmp::PartialOrdSpecImpl for BST {
    open spec fn obeys_partial_cmp_spec() -> bool {
        true
    }

    open spec fn partial_cmp_spec(&self, other: &Self) -> Option<Ordering> {
        self.root_cmp_spec(*other)
    }
}

} // verus!
