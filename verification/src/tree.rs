//! A generic binary tree with exclusively owned children: guarded and
//! unguarded attachment, detachment, and the three classic traversal orders.

use vstd::multiset::Multiset;
use vstd::prelude::*;

verus! {

broadcast use {vstd::function::group_function_axioms, vstd::seq_lib::group_to_multiset_ensures};

/// The order in which a traversal visits a node relative to its children.
#[derive(Debug, Clone, Copy, PartialEq, Eq)]
pub enum SearchOrder {
    /// Node, then left subtree, then right subtree.
    PreOrder,
    /// Left subtree, then node, then right subtree.
    InOrder,
    /// Left subtree, then right subtree, then node.
    PostOrder,
}

/// Attaching a child into a slot that already holds one is refused.
#[derive(Debug, Clone, Copy, PartialEq, Eq, Structural)]
pub enum NodeError {
    /// The target child slot already holds a node.
    SlotOccupied,
}

/// A node that owns its payload and up to two child subtrees.
#[derive(Debug)]
pub struct Node<T> {
    /// The node's own payload.
    pub data: T,
    /// The left child, owned exclusively by this node.
    pub left: Option<Box<Node<T>>>,
    /// The right child, owned exclusively by this node.
    pub right: Option<Box<Node<T>>>,
}

impl<T> Node<T> {
    /// The payloads of an optional subtree in the given order, empty for `None`.
    pub open spec fn flatten_opt(node: Option<Box<Node<T>>>, order: SearchOrder) -> Seq<T>
        decreases node,
    {
        match node {
            None => Seq::empty(),
            Some(n) => n.flatten(order),
        }
    }

    /// The payloads of this subtree in the given traversal order.
    pub open spec fn flatten(self, order: SearchOrder) -> Seq<T>
        decreases self,
    {
        let l = Self::flatten_opt(self.left, order);
        let r = Self::flatten_opt(self.right, order);
        match order {
            SearchOrder::PreOrder => seq![self.data] + l + r,
            SearchOrder::InOrder => l + seq![self.data] + r,
            SearchOrder::PostOrder => l + r + seq![self.data],
        }
    }

    /// A leaf node holding `data`, with both child slots empty.
    pub fn new(data: T) -> (r: Self)
        ensures
            r.data == data,
            r.left is None,
            r.right is None,
    {
        Node { data, left: None, right: None }
    }

    /// A shared borrow of the left child, if there is one.
    pub fn left(&self) -> (r: Option<&Node<T>>)
        ensures
            match self.left {
                Some(b) => r matches Some(n) && *n == *b,
                None => r is None,
            },
    {
        match &self.left {
            Some(t) => Some(&**t),
            None => None,
        }
    }

    /// A shared borrow of the right child, if there is one.
    pub fn right(&self) -> (r: Option<&Node<T>>)
        ensures
            match self.right {
                Some(b) => r matches Some(n) && *n == *b,
                None => r is None,
            },
    {
        match &self.right {
            Some(t) => Some(&**t),
            None => None,
        }
    }

    /// A mutable borrow of the left child, if there is one; payload and
    /// right child are untouched, and the left slot follows the borrow.
    pub fn left_mut(&mut self) -> (r: Option<&mut Node<T>>)
        ensures
            final(self).data == old(self).data,
            final(self).right == old(self).right,
            match old(self).left {
                None => r is None && final(self).left is None,
                Some(b) => {
                    &&& r is Some
                    &&& *r.unwrap() == *b
                    &&& final(self).left matches Some(nb) && *nb == *final(r.unwrap())
                },
            },
    {
        match &mut self.left {
            Some(t) => Some(&mut **t),
            None => None,
        }
    }

    /// A mutable borrow of the right child, if there is one; payload and
    /// left child are untouched, and the right slot follows the borrow.
    pub fn right_mut(&mut self) -> (r: Option<&mut Node<T>>)
        ensures
            final(self).data == old(self).data,
            final(self).left == old(self).left,
            match old(self).right {
                None => r is None && final(self).right is None,
                Some(b) => {
                    &&& r is Some
                    &&& *r.unwrap() == *b
                    &&& final(self).right matches Some(nb) && *nb == *final(r.unwrap())
                },
            },
    {
        match &mut self.right {
            Some(t) => Some(&mut **t),
            None => None,
        }
    }

    /// Detaches the left child and hands its ownership to the caller.
    pub fn take_left(&mut self) -> (r: Option<Node<T>>)
        ensures
            final(self).data == old(self).data,
            final(self).right == old(self).right,
            final(self).left is None,
            match old(self).left {
                Some(b) => r matches Some(n) && n == *b,
                None => r is None,
            },
    {
        match self.left.take() {
            Some(t) => Some(*t),
            None => None,
        }
    }

    /// Detaches the right child and hands its ownership to the caller.
    pub fn take_right(&mut self) -> (r: Option<Node<T>>)
        ensures
            final(self).data == old(self).data,
            final(self).left == old(self).left,
            final(self).right is None,
            match old(self).right {
                Some(b) => r matches Some(n) && n == *b,
                None => r is None,
            },
    {
        match self.right.take() {
            Some(t) => Some(*t),
            None => None,
        }
    }

    /// Installs `tree` as the left child, discarding any previous occupant.
    pub fn replace_left(&mut self, tree: Node<T>)
        ensures
            final(self).data == old(self).data,
            final(self).right == old(self).right,
            final(self).left matches Some(b) && *b == tree,
    {
        self.left = Some(Box::new(tree));
    }

    /// Installs `tree` as the right child, discarding any previous occupant.
    pub fn replace_right(&mut self, tree: Node<T>)
        ensures
            final(self).data == old(self).data,
            final(self).left == old(self).left,
            final(self).right matches Some(b) && *b == tree,
    {
        self.right = Some(Box::new(tree));
    }

    /// Attaches `tree` as the left child and returns a mutable borrow of it,
    /// or refuses with `SlotOccupied` if the slot is already filled.
    pub fn add_node_left(&mut self, tree: Node<T>) -> (r: Result<&mut Node<T>, NodeError>)
        ensures
            final(self).data == old(self).data,
            final(self).right == old(self).right,
            match old(self).left {
                Some(_) => {
                    &&& r matches Err(NodeError::SlotOccupied)
                    &&& final(self).left == old(self).left
                },
                None => {
                    &&& r is Ok
                    &&& *r.unwrap() == tree
                    &&& final(self).left matches Some(nb) && *nb == *final(r.unwrap())
                },
            },
    {
        match &self.left {
            None => {
                self.left = Some(Box::new(tree));
                match &mut self.left {
                    Some(t) => Ok(&mut **t),
                    None => unreached(),
                }
            },
            Some(_) => Err(NodeError::SlotOccupied),
        }
    }

    /// Attaches `tree` as the right child and returns a mutable borrow of it,
    /// or refuses with `SlotOccupied` if the slot is already filled.
    pub fn add_node_right(&mut self, tree: Node<T>) -> (r: Result<&mut Node<T>, NodeError>)
        ensures
            final(self).data == old(self).data,
            final(self).left == old(self).left,
            match old(self).right {
                Some(_) => {
                    &&& r matches Err(NodeError::SlotOccupied)
                    &&& final(self).right == old(self).right
                },
                None => {
                    &&& r is Ok
                    &&& *r.unwrap() == tree
                    &&& final(self).right matches Some(nb) && *nb == *final(r.unwrap())
                },
            },
    {
        match &self.right {
            None => {
                self.right = Some(Box::new(tree));
                match &mut self.right {
                    Some(t) => Ok(&mut **t),
                    None => unreached(),
                }
            },
            Some(_) => Err(NodeError::SlotOccupied),
        }
    }

    /// Creates a leaf from `value` and attaches it as the left child, or
    /// refuses with `SlotOccupied` if the slot is already filled.
    pub fn create_left_node(&mut self, value: T) -> (r: Result<&mut Node<T>, NodeError>)
        ensures
            final(self).data == old(self).data,
            final(self).right == old(self).right,
            match old(self).left {
                Some(_) => {
                    &&& r matches Err(NodeError::SlotOccupied)
                    &&& final(self).left == old(self).left
                },
                None => {
                    &&& r is Ok
                    &&& r.unwrap().data == value
                    &&& r.unwrap().left is None
                    &&& r.unwrap().right is None
                    &&& final(self).left matches Some(nb) && *nb == *final(r.unwrap())
                },
            },
    {
        match &self.left {
            None => {
                let node = Node::new(value);
                self.left = Some(Box::new(node));
                match &mut self.left {
                    Some(t) => Ok(&mut **t),
                    None => unreached(),
                }
            },
            Some(_) => Err(NodeError::SlotOccupied),
        }
    }

    /// Creates a leaf from `value` and attaches it as the right child, or
    /// refuses with `SlotOccupied` if the slot is already filled.
    pub fn create_right_node(&mut self, value: T) -> (r: Result<&mut Node<T>, NodeError>)
        ensures
            final(self).data == old(self).data,
            final(self).left == old(self).left,
            match old(self).right {
                Some(_) => {
                    &&& r matches Err(NodeError::SlotOccupied)
                    &&& final(self).right == old(self).right
                },
                None => {
                    &&& r is Ok
                    &&& r.unwrap().data == value
                    &&& r.unwrap().left is None
                    &&& r.unwrap().right is None
                    &&& final(self).right matches Some(nb) && *nb == *final(r.unwrap())
                },
            },
    {
        match &self.right {
            None => {
                let node = Node::new(value);
                self.right = Some(Box::new(node));
                match &mut self.right {
                    Some(t) => Ok(&mut **t),
                    None => unreached(),
                }
            },
            Some(_) => Err(NodeError::SlotOccupied),
        }
    }
}

} // verus!

verus! {

impl<T> Node<T> {
    /// Both trees have exactly the same branching structure.
    pub open spec fn same_shape(a: Node<T>, b: Node<T>) -> bool
        decreases a,
    {
        &&& match (a.left, b.left) {
            (Some(x), Some(y)) => Self::same_shape(*x, *y),
            (None, None) => true,
            _ => false,
        }
        &&& match (a.right, b.right) {
            (Some(x), Some(y)) => Self::same_shape(*x, *y),
            (None, None) => true,
            _ => false,
        }
    }

    /// Applies `func` to a shared borrow of every payload, visiting the
    /// nodes in the given traversal order: every entry of
    /// `flatten(order)` — each node's payload, exactly one entry per
    /// node — is passed to a call of the callback, and the callback's
    /// state is what it was. In which order the calls happen the
    /// callback's state would have to tell, which it cannot here; the
    /// order is pinned on `iter`, whose result is proved to lay out
    /// exactly `flatten(order)`.
    pub fn foreach<'r, F>(&'r self, order: &SearchOrder, func: &mut F) where F: FnMut(&'r T)
        requires
            forall|x: &'r T| #[trigger] call_requires(*old(func), (x,)),
        ensures
            *final(func) == *old(func),
            forall|i: int|
                #![trigger self.flatten(*order)[i]]
                0 <= i < self.flatten(*order).len() ==> exists|x: &'r T|
                    *x == self.flatten(*order)[i] && #[trigger] call_ensures(
                        *old(func),
                        (x,),
                        (),
                    ),
        decreases *self,
    {
        let ghost lf = Self::flatten_opt(self.left, *order);
        let ghost rf = Self::flatten_opt(self.right, *order);
        match order {
            SearchOrder::PreOrder => {
                func(&self.data);
                if let Some(l) = &self.left {
                    l.foreach(order, func);
                }
                if let Some(r) = &self.right {
                    r.foreach(order, func);
                }
                proof {
                    assert forall|i: int|
                        #![trigger self.flatten(*order)[i]]
                        0 <= i < self.flatten(*order).len() implies exists|x: &'r T|
                        *x == self.flatten(*order)[i] && #[trigger] call_ensures(
                            *old(func),
                            (x,),
                            (),
                        ) by {
                        if i == 0 {
                            assert(self.flatten(*order)[i] == self.data);
                        } else if i < 1 + lf.len() {
                            assert(self.flatten(*order)[i] == lf[i - 1]);
                            match self.left {
                                Some(b) => {
                                    assert(lf == b.flatten(*order));
                                    assert(b.flatten(*order)[i - 1] == lf[i - 1]);
                                },
                                None => {},
                            }
                        } else {
                            assert(self.flatten(*order)[i] == rf[i - 1 - lf.len()]);
                            match self.right {
                                Some(b) => {
                                    assert(rf == b.flatten(*order));
                                    assert(b.flatten(*order)[i - 1 - lf.len()] == rf[i - 1
                                        - lf.len()]);
                                },
                                None => {},
                            }
                        }
                    }
                }
            },
            SearchOrder::InOrder => {
                if let Some(l) = &self.left {
                    l.foreach(order, func);
                }
                func(&self.data);
                if let Some(r) = &self.right {
                    r.foreach(order, func);
                }
                proof {
                    assert forall|i: int|
                        #![trigger self.flatten(*order)[i]]
                        0 <= i < self.flatten(*order).len() implies exists|x: &'r T|
                        *x == self.flatten(*order)[i] && #[trigger] call_ensures(
                            *old(func),
                            (x,),
                            (),
                        ) by {
                        if i < lf.len() {
                            assert(self.flatten(*order)[i] == lf[i]);
                            match self.left {
                                Some(b) => {
                                    assert(lf == b.flatten(*order));
                                    assert(b.flatten(*order)[i] == lf[i]);
                                },
                                None => {},
                            }
                        } else if i == lf.len() {
                            assert(self.flatten(*order)[i] == self.data);
                        } else {
                            assert(self.flatten(*order)[i] == rf[i - 1 - lf.len()]);
                            match self.right {
                                Some(b) => {
                                    assert(rf == b.flatten(*order));
                                    assert(b.flatten(*order)[i - 1 - lf.len()] == rf[i - 1
                                        - lf.len()]);
                                },
                                None => {},
                            }
                        }
                    }
                }
            },
            SearchOrder::PostOrder => {
                if let Some(l) = &self.left {
                    l.foreach(order, func);
                }
                if let Some(r) = &self.right {
                    r.foreach(order, func);
                }
                func(&self.data);
                proof {
                    assert forall|i: int|
                        #![trigger self.flatten(*order)[i]]
                        0 <= i < self.flatten(*order).len() implies exists|x: &'r T|
                        *x == self.flatten(*order)[i] && #[trigger] call_ensures(
                            *old(func),
                            (x,),
                            (),
                        ) by {
                        if i < lf.len() {
                            assert(self.flatten(*order)[i] == lf[i]);
                            match self.left {
                                Some(b) => {
                                    assert(lf == b.flatten(*order));
                                    assert(b.flatten(*order)[i] == lf[i]);
                                },
                                None => {},
                            }
                        } else if i < lf.len() + rf.len() {
                            assert(self.flatten(*order)[i] == rf[i - lf.len()]);
                            match self.right {
                                Some(b) => {
                                    assert(rf == b.flatten(*order));
                                    assert(b.flatten(*order)[i - lf.len()] == rf[i - lf.len()]);
                                },
                                None => {},
                            }
                        } else {
                            assert(self.flatten(*order)[i] == self.data);
                        }
                    }
                }
            },
        }
    }

    /// Applies `func` to a mutable borrow of every payload, visiting the
    /// nodes in the given traversal order: the branching structure is
    /// left exactly as it was, and each payload's new value came out of
    /// a call of the callback on its old value — position by position
    /// in `flatten(order)`, exactly one per node.
    pub fn foreach_mut<F>(&mut self, order: &SearchOrder, func: &mut F) where F: FnMut(&mut T)
        requires
            forall|x: &mut T| #[trigger] call_requires(*old(func), (x,)),
        ensures
            *final(func) == *old(func),
            Self::same_shape(*old(self), *final(self)),
            final(self).flatten(*order).len() == old(self).flatten(*order).len(),
            forall|i: int|
                #![trigger old(self).flatten(*order)[i]]
                0 <= i < old(self).flatten(*order).len() ==> exists|m: &mut T|
                    mut_ref_current(m) == old(self).flatten(*order)[i] && mut_ref_future(m)
                        == final(self).flatten(*order)[i] && #[trigger] call_ensures(
                        *old(func),
                        (m,),
                        (),
                    ),
        decreases *old(self),
    {
        let ghost lf0 = Self::flatten_opt(old(self).left, *order);
        let ghost rf0 = Self::flatten_opt(old(self).right, *order);
        match order {
            SearchOrder::PreOrder => {
                func(&mut self.data);
                if let Some(l) = &mut self.left {
                    (&mut **l).foreach_mut(order, func);
                }
                if let Some(r) = &mut self.right {
                    (&mut **r).foreach_mut(order, func);
                }
                proof {
                    let of = old(self).flatten(*order);
                    assert forall|i: int|
                        #![trigger old(self).flatten(*order)[i]]
                        0 <= i < of.len() implies exists|m: &mut T|
                        mut_ref_current(m) == old(self).flatten(*order)[i] && mut_ref_future(m)
                            == self.flatten(*order)[i] && #[trigger] call_ensures(
                            *old(func),
                            (m,),
                            (),
                        ) by {
                        match (old(self).left, self.left) {
                            (Some(b0), Some(b1)) => {
                                assert(lf0 == b0.flatten(*order));
                                assert(Self::flatten_opt(self.left, *order) == b1.flatten(
                                    *order,
                                ));
                                if 1 <= i < 1 + lf0.len() {
                                    assert(b0.flatten(*order)[i - 1] == lf0[i - 1]);
                                    assert(old(self).flatten(*order)[i] == lf0[i - 1]);
                                    assert(self.flatten(*order)[i] == b1.flatten(*order)[i
                                        - 1]);
                                }
                            },
                            _ => {},
                        }
                        match (old(self).right, self.right) {
                            (Some(b0), Some(b1)) => {
                                assert(rf0 == b0.flatten(*order));
                                assert(Self::flatten_opt(self.right, *order) == b1.flatten(
                                    *order,
                                ));
                                if 1 + lf0.len() <= i < of.len() {
                                    assert(b0.flatten(*order)[i - (1 + lf0.len())] == rf0[i - (1 + lf0.len())]);
                                    assert(old(self).flatten(*order)[i] == rf0[i - (1 + lf0.len())]);
                                    assert(self.flatten(*order)[i] == b1.flatten(*order)[i - (1
                                        + lf0.len())]);
                                }
                            },
                            _ => {},
                        }
                        if i == 0 {
                            assert(old(self).flatten(*order)[i] == old(self).data);
                            assert(self.flatten(*order)[i] == self.data);
                        }
                    }
                }
            },
            SearchOrder::InOrder => {
                if let Some(l) = &mut self.left {
                    (&mut **l).foreach_mut(order, func);
                }
                func(&mut self.data);
                if let Some(r) = &mut self.right {
                    (&mut **r).foreach_mut(order, func);
                }
                proof {
                    let of = old(self).flatten(*order);
                    assert forall|i: int|
                        #![trigger old(self).flatten(*order)[i]]
                        0 <= i < of.len() implies exists|m: &mut T|
                        mut_ref_current(m) == old(self).flatten(*order)[i] && mut_ref_future(m)
                            == self.flatten(*order)[i] && #[trigger] call_ensures(
                            *old(func),
                            (m,),
                            (),
                        ) by {
                        match (old(self).left, self.left) {
                            (Some(b0), Some(b1)) => {
                                assert(lf0 == b0.flatten(*order));
                                assert(Self::flatten_opt(self.left, *order) == b1.flatten(
                                    *order,
                                ));
                                if 0 <= i < lf0.len() {
                                    assert(b0.flatten(*order)[i - 0] == lf0[i - 0]);
                                    assert(old(self).flatten(*order)[i] == lf0[i - 0]);
                                    assert(self.flatten(*order)[i] == b1.flatten(*order)[i
                                        - 0]);
                                }
                            },
                            _ => {},
                        }
                        match (old(self).right, self.right) {
                            (Some(b0), Some(b1)) => {
                                assert(rf0 == b0.flatten(*order));
                                assert(Self::flatten_opt(self.right, *order) == b1.flatten(
                                    *order,
                                ));
                                if lf0.len() + 1 <= i < of.len() {
                                    assert(b0.flatten(*order)[i - (lf0.len() + 1)] == rf0[i - (lf0.len() + 1)]);
                                    assert(old(self).flatten(*order)[i] == rf0[i - (lf0.len() + 1)]);
                                    assert(self.flatten(*order)[i] == b1.flatten(*order)[i - (
                                    lf0.len() + 1)]);
                                }
                            },
                            _ => {},
                        }
                        if i == lf0.len() {
                            assert(old(self).flatten(*order)[i] == old(self).data);
                            assert(self.flatten(*order)[i] == self.data);
                        }
                    }
                }
            },
            SearchOrder::PostOrder => {
                if let Some(l) = &mut self.left {
                    (&mut **l).foreach_mut(order, func);
                }
                if let Some(r) = &mut self.right {
                    (&mut **r).foreach_mut(order, func);
                }
                func(&mut self.data);
                proof {
                    let of = old(self).flatten(*order);
                    assert forall|i: int|
                        #![trigger old(self).flatten(*order)[i]]
                        0 <= i < of.len() implies exists|m: &mut T|
                        mut_ref_current(m) == old(self).flatten(*order)[i] && mut_ref_future(m)
                            == self.flatten(*order)[i] && #[trigger] call_ensures(
                            *old(func),
                            (m,),
                            (),
                        ) by {
                        match (old(self).left, self.left) {
                            (Some(b0), Some(b1)) => {
                                assert(lf0 == b0.flatten(*order));
                                assert(Self::flatten_opt(self.left, *order) == b1.flatten(
                                    *order,
                                ));
                                if 0 <= i < lf0.len() {
                                    assert(b0.flatten(*order)[i - 0] == lf0[i - 0]);
                                    assert(old(self).flatten(*order)[i] == lf0[i - 0]);
                                    assert(self.flatten(*order)[i] == b1.flatten(*order)[i
                                        - 0]);
                                }
                            },
                            _ => {},
                        }
                        match (old(self).right, self.right) {
                            (Some(b0), Some(b1)) => {
                                assert(rf0 == b0.flatten(*order));
                                assert(Self::flatten_opt(self.right, *order) == b1.flatten(
                                    *order,
                                ));
                                if lf0.len() <= i < lf0.len() + rf0.len() {
                                    assert(b0.flatten(*order)[i - lf0.len()] == rf0[i - lf0.len()]);
                                    assert(old(self).flatten(*order)[i] == rf0[i - lf0.len()]);
                                    assert(self.flatten(*order)[i] == b1.flatten(*order)[i
                                        - lf0.len()]);
                                }
                            },
                            _ => {},
                        }
                        if i == lf0.len() + rf0.len() {
                            assert(old(self).flatten(*order)[i] == old(self).data);
                            assert(self.flatten(*order)[i] == self.data);
                        }
                    }
                }
            },
        }
    }

    /// Collects borrows of all payloads in the given order at the end of `out`.
    fn collect_refs<'r>(&'r self, order: &SearchOrder, out: &mut Vec<&'r T>)
        ensures
            final(out)@.len() == old(out)@.len() + self.flatten(*order).len(),
            forall|i: int|
                0 <= i < old(out)@.len() ==> final(out)@[i] == old(out)@[i],
            forall|i: int|
                0 <= i < self.flatten(*order).len() ==> *final(out)@[old(out)@.len() + i]
                    == self.flatten(*order)[i],
        decreases *self,
    {
        match order {
            SearchOrder::PreOrder => {
                out.push(&self.data);
                if let Some(l) = &self.left {
                    l.collect_refs(order, out);
                }
                if let Some(r) = &self.right {
                    r.collect_refs(order, out);
                }
            },
            SearchOrder::InOrder => {
                if let Some(l) = &self.left {
                    l.collect_refs(order, out);
                }
                out.push(&self.data);
                if let Some(r) = &self.right {
                    r.collect_refs(order, out);
                }
            },
            SearchOrder::PostOrder => {
                if let Some(l) = &self.left {
                    l.collect_refs(order, out);
                }
                if let Some(r) = &self.right {
                    r.collect_refs(order, out);
                }
                out.push(&self.data);
            },
        }
    }

    /// A cursor over borrows of all payloads, laid out in the given
    /// order: exactly the sequence `flatten(order)` — the same payloads,
    /// entry for entry, that `foreach` passes to its callback.
    pub fn iter<'r>(&'r self, order: &SearchOrder) -> (r: NodeIter<'r, T>)
        ensures
            r.wf(),
            r.idx == 0,
            r.elements@.len() == self.flatten(*order).len(),
            forall|i: int|
                0 <= i < self.flatten(*order).len() ==> *r.elements@[i] == self.flatten(
                    *order,
                )[i],
    {
        let mut elems: Vec<&'r T> = Vec::new();
        self.collect_refs(order, &mut elems);
        let length = elems.len();
        NodeIter { elements: elems, len: length, idx: 0 }
    }
}

/// Hands out the payload borrows that `Node::iter` collected, first to last.
pub struct NodeIter<'r, T> {
    /// The collected payload borrows, in traversal order.
    pub elements: Vec<&'r T>,
    /// How many borrows were collected.
    pub len: usize,
    /// The position of the next borrow to hand out.
    pub idx: usize,
}

impl<'r, T> NodeIter<'r, T> {
    /// The recorded length matches the collection and the cursor is in range.
    pub open spec fn wf(self) -> bool {
        self.len == self.elements@.len() && self.idx <= self.len
    }

    /// The next payload borrow in traversal order, or `None` past the end.
    pub fn next(&mut self) -> (r: Option<&'r T>)
        requires
            old(self).wf(),
        ensures
            final(self).wf(),
            final(self).elements == old(self).elements,
            final(self).len == old(self).len,
            if old(self).idx < old(self).len {
                &&& r matches Some(x) && x == old(self).elements@[old(self).idx as int]
                &&& final(self).idx == old(self).idx + 1
            } else {
                r is None && final(self).idx == old(self).idx
            },
    {
        if self.idx < self.len {
            let ret = Some(self.elements[self.idx]);
            self.idx = self.idx + 1;
            ret
        } else {
            None
        }
    }
}

} // verus!

verus! {

impl<T> Node<T> {
    /// How many nodes an optional subtree has.
    pub open spec fn count_opt(node: Option<Box<Node<T>>>) -> nat
        decreases node,
    {
        match node {
            None => 0,
            Some(n) => n.count(),
        }
    }

    /// How many nodes the tree has.
    pub open spec fn count(self) -> nat
        decreases self,
    {
        1 + Self::count_opt(self.left) + Self::count_opt(self.right)
    }

    /// The payloads of an optional subtree, as a bag.
    pub open spec fn payloads_opt(node: Option<Box<Node<T>>>) -> Multiset<T>
        decreases node,
    {
        match node {
            None => Multiset::empty(),
            Some(n) => n.payloads(),
        }
    }

    /// The payloads of the tree, as a bag: what any traversal must hand
    /// out, independent of the order.
    pub open spec fn payloads(self) -> Multiset<T>
        decreases self,
    {
        Multiset::singleton(self.data).add(Self::payloads_opt(self.left)).add(
            Self::payloads_opt(self.right),
        )
    }

    /// A traversal in any order visits every node exactly once: it lays
    /// out as many payloads as the tree has nodes, and those payloads
    /// are exactly the tree's bag of payloads, whatever the order.
    pub proof fn lemma_traversal_visits_each_node_once(self, order: SearchOrder)
        ensures
            self.flatten(order).len() == self.count(),
            self.flatten(order).to_multiset() == self.payloads(),
        decreases self,
    {
        broadcast use vstd::seq_lib::lemma_multiset_commutative;
        broadcast use vstd::multiset::group_multiset_axioms;

        let l = Self::flatten_opt(self.left, order);
        let r = Self::flatten_opt(self.right, order);
        match self.left {
            Some(b) => b.lemma_traversal_visits_each_node_once(order),
            None => {},
        }
        match self.right {
            Some(b) => b.lemma_traversal_visits_each_node_once(order),
            None => {},
        }
        assert(seq![self.data].to_multiset() =~= Multiset::singleton(self.data)) by {
            assert(seq![self.data] =~= Seq::empty().push(self.data));
        }
        match order {
            SearchOrder::PreOrder => {
                assert(self.flatten(order) == (seq![self.data] + l) + r);
                assert((seq![self.data] + l).to_multiset() =~= Multiset::singleton(
                    self.data,
                ).add(l.to_multiset()));
                assert(self.flatten(order).to_multiset() =~= self.payloads());
            },
            SearchOrder::InOrder => {
                assert(self.flatten(order) == (l + seq![self.data]) + r);
                assert((l + seq![self.data]).to_multiset() =~= Multiset::singleton(
                    self.data,
                ).add(l.to_multiset()));
                assert(self.flatten(order).to_multiset() =~= self.payloads());
            },
            SearchOrder::PostOrder => {
                assert(self.flatten(order) == (l + r) + seq![self.data]);
                assert((l + r).to_multiset() =~= l.to_multiset().add(r.to_multiset()));
                assert(self.flatten(order).to_multiset() =~= self.payloads());
            },
        }
    }

    /// Any two traversal orders hand out permutations of one another.
    pub proof fn lemma_traversal_orders_agree(self, first: SearchOrder, second: SearchOrder)
        ensures
            self.flatten(first).to_multiset() == self.flatten(second).to_multiset(),
    {
        self.lemma_traversal_visits_each_node_once(first);
        self.lemma_traversal_visits_each_node_once(second);
    }
}

} // verus!
