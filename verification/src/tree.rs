//! The tree and its nodes.
//!
//! A [`BinaryTree`] owns an optional root [`Node`]; a node owns up to two
//! children. Both are specified by their view as a [`Shape`]. Every tree is a
//! search tree, whatever was inserted and in whatever order: that is the
//! type's invariant, and each method of the tree states it again for its
//! callers.
//!
//! The methods compare values with `<` and `>`. What these operators do is
//! known of a value type `T` as far as `T::obeys_partial_cmp_spec()` holds,
//! so the clauses on the shape of a tree are stated under it. The clauses on
//! what a tree holds need the order to be total and are stated under
//! `obeys_cmp::<T>()`. No method has a precondition.

use crate::order::{lemma_total_order_is_faithful, tied};
use crate::shape::Shape;
use vstd::laws_cmp::obeys_cmp;
use vstd::prelude::*;
use vstd::std_specs::cmp::PartialOrdSpec;

verus! {

/// One node of a tree: a value, and the subtrees that the node owns.
pub struct Node<T: Ord> {
    /// The value that the node holds.
    pub value: T,
    left: Option<Box<Node<T>>>,
    right: Option<Box<Node<T>>>,
}

/// An unbalanced binary search tree.
pub struct BinaryTree<T: Ord> {
    root: Option<Box<Node<T>>>,
}

impl<T: Ord> View for Node<T> {
    type V = Shape<T>;

    /// The shape of the subtree that starts at this node. It is never `Empty`.
    open spec fn view(&self) -> Shape<T> {
        Shape::fork(self.left_shape(), self.stored(), self.right_shape())
    }
}

impl<T: Ord> View for BinaryTree<T> {
    type V = Shape<T>;

    /// The shape of the whole tree; `Empty` where it has no root.
    closed spec fn view(&self) -> Shape<T> {
        Node::shape_of(self.root)
    }
}

impl<T: Ord> Node<T> {
    /// The shape behind an owning link: `Empty` for a missing child.
    spec fn shape_of(link: Option<Box<Node<T>>>) -> Shape<T>
        decreases link,
    {
        match link {
            None => Shape::Empty,
            Some(node) => Shape::fork(
                Node::shape_of(node.left),
                node.value,
                Node::shape_of(node.right),
            ),
        }
    }

    /// The value that this node holds.
    pub closed spec fn stored(&self) -> T {
        self.value
    }

    /// The shape of the subtree that this node owns on its left.
    pub closed spec fn left_shape(&self) -> Shape<T> {
        Node::shape_of(self.left)
    }

    /// The shape of the subtree that this node owns on its right.
    pub closed spec fn right_shape(&self) -> Shape<T> {
        Node::shape_of(self.right)
    }

    /// A node without children that holds `value`.
    fn new(value: T) -> (node: Node<T>)
        ensures
            node@ == Shape::leaf(value),
    {
        Node::<T> { value, left: None, right: None }
    }

    /// Puts `value` into the subtree that starts at this node: into the left
    /// subtree where it is below this node's value, into the right one where
    /// it is above, and nowhere where it is neither.
    fn insert(&mut self, value: T)
        ensures
            T::obeys_partial_cmp_spec() ==> final(self)@ == old(self)@.insert(value),
        decreases *old(self),
    {
        if value < self.value {
            if let Some(node) = &mut self.left {
                node.insert(value)
            } else {
                self.left = Some(Box::new(Node::new(value)))
            }
            proof {
                assert(Shape::<T>::Empty.insert(value) == Shape::leaf(value));
                assert(T::obeys_partial_cmp_spec() ==> self.left_shape() == old(
                    self,
                ).left_shape().insert(value));
            }
        } else if value > self.value {
            if let Some(node) = &mut self.right {
                node.insert(value)
            } else {
                self.right = Some(Box::new(Node::new(value)))
            }
            proof {
                assert(Shape::<T>::Empty.insert(value) == Shape::leaf(value));
                assert(T::obeys_partial_cmp_spec() ==> self.right_shape() == old(
                    self,
                ).right_shape().insert(value));
            }
        }
    }

    /// The value that this node holds.
    pub fn value(&self) -> (r: &T)
        ensures
            *r == self@->value,
    {
        &self.value
    }

    /// Whether this node has a left child.
    pub fn has_left(&self) -> (b: bool)
        ensures
            b == (self@.left() is Fork),
    {
        self.left.is_some()
    }

    /// Whether this node has a right child.
    pub fn has_right(&self) -> (b: bool)
        ensures
            b == (self@.right() is Fork),
    {
        self.right.is_some()
    }
}

impl<T: Ord> BinaryTree<T> {
    /// Every tree is a search tree, as far as the comparison operators of `T`
    /// compute `partial_cmp_spec`.
    #[verifier::type_invariant]
    spec fn ordered(self) -> bool {
        T::obeys_partial_cmp_spec() ==> self@.is_bst()
    }

    /// The empty tree, or the tree whose only node holds the given value.
    pub fn new(root: Option<T>) -> (tree: BinaryTree<T>)
        ensures
            tree@ == match root {
                Some(value) => Shape::leaf(value),
                None => Shape::Empty,
            },
            tree@.is_bst(),
            forall|w: T| #[trigger]
                tree@.holds(w) <==> (root matches Some(value) && tied(w, value)),
    {
        proof {
            reveal_with_fuel(Shape::values, 2);
        }
        match root {
            Some(value) => {
                proof {
                    Shape::<T>::Empty.lemma_insert_is_bst(value);
                    assert(Shape::leaf(value).values().contains(value));
                }
                BinaryTree::<T> { root: Some(Box::new(Node::new(value))) }
            },
            None => BinaryTree::<T> { root: None },
        }
    }

    /// The root node; `None` for the empty tree.
    pub fn root(&self) -> (r: Option<&Box<Node<T>>>)
        ensures
            match r {
                Some(node) => node@ == self@,
                None => self@ is Empty,
            },
            T::obeys_partial_cmp_spec() ==> self@.is_bst(),
    {
        proof {
            use_type_invariant(self);
        }
        self.root.as_ref()
    }

    /// Inserts `value`. It becomes a new leaf at the place where the descent
    /// from the root runs out of nodes; a tree that holds a value tied with
    /// it already stays as it is.
    pub fn insert(&mut self, value: T)
        ensures
            old(self)@ is Empty ==> final(self)@ == Shape::leaf(value),
            T::obeys_partial_cmp_spec() ==> final(self)@ == old(self)@.insert(value),
            T::obeys_partial_cmp_spec() ==> final(self)@.is_bst(),
            obeys_cmp::<T>() ==> final(self)@.holds(value),
            obeys_cmp::<T>() ==> forall|w: T|
                #[trigger] final(self)@.holds(w) <==> old(self)@.holds(w) || tied(w, value),
            obeys_cmp::<T>() && old(self)@.holds(value) ==> final(self)@ == old(self)@,
    {
        proof {
            use_type_invariant(&*self);
        }
        let mut detached: Option<Box<Node<T>>> = None;
        core::mem::swap(&mut self.root, &mut detached);
        match &mut detached {
            Some(root_value) => root_value.insert(value),
            None => detached = Some(Box::new(Node::new(value))),
        }
        proof {
            let before = old(self)@;
            if T::obeys_partial_cmp_spec() {
                assert(Node::shape_of(detached) == before.insert(value));
                before.lemma_insert_is_bst(value);
            }
            if obeys_cmp::<T>() {
                lemma_total_order_is_faithful::<T>();
                before.lemma_insert_holds(value, value);
                assert forall|w: T|
                    #[trigger] before.insert(value).holds(w) <==> before.holds(w) || tied(
                        w,
                        value,
                    ) by {
                    before.lemma_insert_holds(value, w);
                }
                if before.holds(value) {
                    before.lemma_insert_held(value);
                }
            }
        }
        self.root = detached;
    }

    /// Looks for the node that holds `value`: the node at which the descent
    /// from the root meets a value that `value` is neither below nor above.
    pub fn search(&self, value: T) -> (r: Option<&Box<Node<T>>>)
        ensures
            self@ is Empty ==> r is None,
            T::obeys_partial_cmp_spec() ==> match r {
                Some(node) => node@ == self@.find(value),
                None => self@.find(value) is Empty,
            },
            T::obeys_partial_cmp_spec() ==> self@.is_bst(),
            T::obeys_partial_cmp_spec() ==> (r matches Some(node) ==> node@.is_bst()),
            obeys_cmp::<T>() ==> (r is Some <==> self@.holds(value)),
            obeys_cmp::<T>() ==> (r matches Some(node) ==> tied(value, node@->value)),
    {
        proof {
            use_type_invariant(self);
            if T::obeys_partial_cmp_spec() {
                self@.lemma_find_is_bst(value);
            }
            if obeys_cmp::<T>() {
                lemma_total_order_is_faithful::<T>();
                self@.lemma_find_iff_holds(value);
            }
        }
        match &self.root {
            Some(ref root_value) => self.search_node(value, root_value),
            None => None,
        }
    }

    /// The search below `leaf`: left where `value` is below the node's value,
    /// right where it is above, and the node itself where it is neither.
    fn search_node<'a>(&self, value: T, leaf: &'a Box<Node<T>>) -> (r: Option<&'a Box<Node<T>>>)
        ensures
            T::obeys_partial_cmp_spec() ==> match r {
                Some(node) => node@ == leaf@.find(value),
                None => leaf@.find(value) is Empty,
            },
        decreases leaf,
    {
        proof {
            assert(Shape::<T>::Empty.find(value) is Empty);
            assert(leaf.left matches Some(node) ==> leaf.left_shape() == node@);
            assert(leaf.right matches Some(node) ==> leaf.right_shape() == node@);
        }
        if value < leaf.value {
            match &leaf.left {
                Some(node) => self.search_node(value, node),
                None => None,
            }
        } else if value > leaf.value {
            match &leaf.right {
                Some(node) => self.search_node(value, node),
                None => None,
            }
        } else {
            Some(leaf)
        }
    }
}

} // verus!
