//! The mathematical model of a tree, and the laws of insertion and search.
//!
//! A [`Shape`] is what a tree of the library looks like with ownership and
//! boxes set aside: nothing at all, or a value between a left and a right
//! shape. The executable types are specified by their view as a `Shape`, so
//! that everything proved here of shapes holds of the trees themselves.
//!
//! The functions of a shape are defined by recursion over it. A proof about a
//! tree that is written out in full unfolds them once for each level of the
//! tree, for which it asks by `reveal_with_fuel`: three levels of `insert`
//! are `reveal_with_fuel(Shape::insert, 3)`. The laws below hold of every
//! tree and need no unfolding by their callers.

use crate::order::{
    above, below, lemma_tied_reflexive, lemma_tied_same_side, lemma_tied_symmetric,
    lemma_trichotomy, tied,
};
use vstd::laws_cmp::obeys_cmp;
use vstd::prelude::*;

verus! {

/// A binary tree as a mathematical value.
pub enum Shape<T> {
    /// The tree without nodes.
    Empty,
    /// A node holding `value`, with the shapes of its two subtrees.
    Fork { left: Box<Shape<T>>, value: T, right: Box<Shape<T>> },
}

impl<T: Ord> Shape<T> {
    /// The shape of a node holding `value` between `left` and `right`.
    pub open spec fn fork(left: Shape<T>, value: T, right: Shape<T>) -> Shape<T> {
        Shape::Fork { left: Box::new(left), value, right: Box::new(right) }
    }

    /// The shape of a single node without children.
    pub open spec fn leaf(value: T) -> Shape<T> {
        Shape::fork(Shape::Empty, value, Shape::Empty)
    }

    /// The left subtree; `Empty` where there is none.
    pub open spec fn left(self) -> Shape<T> {
        match self {
            Shape::Empty => Shape::Empty,
            Shape::Fork { left, .. } => *left,
        }
    }

    /// The right subtree; `Empty` where there is none.
    pub open spec fn right(self) -> Shape<T> {
        match self {
            Shape::Empty => Shape::Empty,
            Shape::Fork { right, .. } => *right,
        }
    }

    /// The values stored at the nodes of the tree.
    pub open spec fn values(self) -> Set<T>
        decreases self,
    {
        match self {
            Shape::Empty => Set::empty(),
            Shape::Fork { left, value, right } => left.values().union(right.values()).insert(
                value,
            ),
        }
    }

    /// Whether some node stores a value tied with `v`.
    pub open spec fn holds(self, v: T) -> bool {
        exists|x: T| #[trigger] self.values().contains(x) && tied(v, x)
    }

    /// The number of nodes that store a value tied with `v`.
    pub open spec fn occurrences(self, v: T) -> nat
        decreases self,
    {
        match self {
            Shape::Empty => 0,
            Shape::Fork { left, value, right } => {
                let here: nat = if tied(v, value) { 1 } else { 0 };
                left.occurrences(v) + here + right.occurrences(v)
            },
        }
    }

    /// The search-tree order: at every node, each value of the left subtree is
    /// below the node's value and each value of the right subtree is above it.
    pub open spec fn is_bst(self) -> bool
        decreases self,
    {
        match self {
            Shape::Empty => true,
            Shape::Fork { left, value, right } => {
                &&& left.is_bst()
                &&& right.is_bst()
                &&& forall|x: T| #[trigger] left.values().contains(x) ==> below(x, value)
                &&& forall|x: T| #[trigger] right.values().contains(x) ==> above(x, value)
            },
        }
    }

    /// The tree after `v` is inserted: `v` descends left where it is below a
    /// node's value and right where it is above, becomes a new leaf at the
    /// first missing child, and changes nothing where it meets a value that it
    /// is neither below nor above.
    pub open spec fn insert(self, v: T) -> Shape<T>
        decreases self,
    {
        match self {
            Shape::Empty => Shape::leaf(v),
            Shape::Fork { left, value, right } => {
                if below(v, value) {
                    Shape::fork(left.insert(v), value, *right)
                } else if above(v, value) {
                    Shape::fork(*left, value, right.insert(v))
                } else {
                    self
                }
            },
        }
    }

    /// The tree after the values of `vs` are inserted one after the other,
    /// `vs[0]` first.
    pub open spec fn insert_all(self, vs: Seq<T>) -> Shape<T>
        decreases vs.len(),
    {
        if vs.len() == 0 {
            self
        } else {
            self.insert_all(vs.drop_last()).insert(vs.last())
        }
    }

    /// The subtree that a search for `v` ends at: the descent of `insert`,
    /// stopped at the first node whose value `v` is neither below nor above;
    /// `Empty` where the descent runs out of nodes.
    pub open spec fn find(self, v: T) -> Shape<T>
        decreases self,
    {
        match self {
            Shape::Empty => Shape::Empty,
            Shape::Fork { left, value, right } => {
                if below(v, value) {
                    left.find(v)
                } else if above(v, value) {
                    right.find(v)
                } else {
                    self
                }
            },
        }
    }

    /// A search ends at a node of the tree, and at one whose value the sought
    /// value is neither below nor above.
    pub proof fn lemma_find_is_stored(self, v: T)
        ensures
            self.find(v) matches Shape::Fork { value, .. } ==> self.values().contains(value)
                && !below(v, value) && !above(v, value),
        decreases self,
    {
        match self {
            Shape::Empty => {},
            Shape::Fork { left, value, right } => {
                left.lemma_find_is_stored(v);
                right.lemma_find_is_stored(v);
            },
        }
    }

    /// The node that a search in a search tree ends at starts a search tree of
    /// its own: the order holds at every node, not at the root alone.
    pub proof fn lemma_find_is_bst(self, v: T)
        requires
            self.is_bst(),
        ensures
            self.find(v).is_bst(),
        decreases self,
    {
        match self {
            Shape::Empty => {},
            Shape::Fork { left, value, right } => {
                left.lemma_find_is_bst(v);
                right.lemma_find_is_bst(v);
            },
        }
    }

    /// Insertion adds the value to the stored ones where a search for it finds
    /// nothing, and leaves the stored values as they are where it finds a node.
    pub proof fn lemma_insert_values(self, v: T)
        ensures
            self.insert(v).values() == if self.find(v) is Fork {
                self.values()
            } else {
                self.values().insert(v)
            },
        decreases self,
    {
        match self {
            Shape::Empty => {},
            Shape::Fork { left, value, right } => {
                left.lemma_insert_values(v);
                right.lemma_insert_values(v);
            },
        }
    }

    /// Inserting a value that a search finds leaves the whole tree as it is.
    pub proof fn lemma_insert_found(self, v: T)
        requires
            self.find(v) is Fork,
        ensures
            self.insert(v) == self,
        decreases self,
    {
        match self {
            Shape::Empty => {},
            Shape::Fork { left, value, right } => {
                if below(v, value) {
                    left.lemma_insert_found(v);
                } else if above(v, value) {
                    right.lemma_insert_found(v);
                }
            },
        }
    }

    /// Insertion keeps the search-tree order.
    pub proof fn lemma_insert_is_bst(self, v: T)
        requires
            self.is_bst(),
        ensures
            self.insert(v).is_bst(),
        decreases self,
    {
        match self {
            Shape::Empty => {},
            Shape::Fork { left, value, right } => {
                if below(v, value) {
                    left.lemma_insert_is_bst(v);
                    left.lemma_insert_values(v);
                } else if above(v, value) {
                    right.lemma_insert_is_bst(v);
                    right.lemma_insert_values(v);
                }
            },
        }
    }

    /// In a search tree a value is held on one side of a node at most: on the
    /// side that it compares to, or at the node itself.
    pub proof fn lemma_holds_by_side(self, v: T)
        requires
            obeys_cmp::<T>(),
            self.is_bst(),
            self is Fork,
        ensures
            below(v, self->value) ==> !self.right().holds(v) && (self.holds(v)
                <==> self.left().holds(v)),
            above(v, self->value) ==> !self.left().holds(v) && (self.holds(v)
                <==> self.right().holds(v)),
            tied(v, self->value) ==> !self.left().holds(v) && !self.right().holds(v)
                && self.holds(v),
    {
        let value = self->value;
        let (left, right) = (self.left(), self.right());
        lemma_trichotomy(v, value);
        assert(self.values().contains(value));
        assert forall|x: T| #[trigger] left.values().contains(x) && tied(v, x) implies below(
            v,
            value,
        ) && self.values().contains(x) by {
            lemma_tied_same_side(v, x, value);
        }
        assert forall|x: T| #[trigger] right.values().contains(x) && tied(v, x) implies above(
            v,
            value,
        ) && self.values().contains(x) by {
            lemma_tied_same_side(v, x, value);
        }
        if self.holds(v) {
            let x = choose|x: T| #[trigger] self.values().contains(x) && tied(v, x);
            assert(x == value || left.values().contains(x) || right.values().contains(x));
        }
    }

    /// In a search tree a search finds a node exactly when the tree holds the
    /// sought value, and the node that it finds stores a value tied with it.
    pub proof fn lemma_find_iff_holds(self, v: T)
        requires
            obeys_cmp::<T>(),
            self.is_bst(),
        ensures
            self.find(v) is Fork <==> self.holds(v),
            self.find(v) is Fork ==> tied(v, self.find(v)->value),
        decreases self,
    {
        match self {
            Shape::Empty => {},
            Shape::Fork { left, value, right } => {
                lemma_trichotomy(v, value);
                self.lemma_holds_by_side(v);
                left.lemma_find_iff_holds(v);
                right.lemma_find_iff_holds(v);
            },
        }
    }

    /// A search tree stores a value that it holds once, and no value twice.
    pub proof fn lemma_stored_once(self, v: T)
        requires
            obeys_cmp::<T>(),
            self.is_bst(),
        ensures
            self.occurrences(v) == if self.holds(v) { 1nat } else { 0nat },
        decreases self,
    {
        match self {
            Shape::Empty => {},
            Shape::Fork { left, value, right } => {
                lemma_trichotomy(v, value);
                self.lemma_holds_by_side(v);
                left.lemma_stored_once(v);
                right.lemma_stored_once(v);
            },
        }
    }

    /// After `v` is inserted the tree holds `v`, what it held before, and
    /// nothing else.
    pub proof fn lemma_insert_holds(self, v: T, w: T)
        requires
            obeys_cmp::<T>(),
        ensures
            self.insert(v).holds(v),
            self.insert(v).holds(w) <==> self.holds(w) || tied(w, v),
    {
        lemma_tied_reflexive(v);
        self.lemma_insert_holds_one(v, v);
        self.lemma_insert_holds_one(v, w);
    }

    /// Whether the tree holds `w` after `v` is inserted.
    proof fn lemma_insert_holds_one(self, v: T, w: T)
        requires
            obeys_cmp::<T>(),
        ensures
            self.insert(v).holds(w) <==> self.holds(w) || tied(w, v),
    {
        self.lemma_insert_values(v);
        self.lemma_find_is_stored(v);
        if self.find(v) is Fork {
            let x = self.find(v)->value;
            lemma_trichotomy(v, x);
            if tied(w, v) {
                lemma_tied_symmetric(w, v);
                lemma_tied_same_side(v, w, x);
                lemma_tied_symmetric(w, x);
                assert(self.values().contains(x) && tied(w, x));
            }
        } else {
            if tied(w, v) {
                assert(self.insert(v).values().contains(v));
            }
            if self.holds(w) {
                let x = choose|x: T| #[trigger] self.values().contains(x) && tied(w, x);
                assert(self.insert(v).values().contains(x));
            }
        }
    }

    /// Inserting a value that a search tree holds already leaves the whole
    /// tree as it is: no node gains or loses a child.
    pub proof fn lemma_insert_held(self, v: T)
        requires
            obeys_cmp::<T>(),
            self.is_bst(),
            self.holds(v),
        ensures
            self.insert(v) == self,
    {
        self.lemma_find_iff_holds(v);
        self.lemma_insert_found(v);
    }

    /// Whatever is inserted into a search tree, and in whatever order, the
    /// result is a search tree.
    pub proof fn lemma_insert_all_is_bst(self, vs: Seq<T>)
        requires
            self.is_bst(),
        ensures
            self.insert_all(vs).is_bst(),
        decreases vs.len(),
    {
        if vs.len() > 0 {
            self.lemma_insert_all_is_bst(vs.drop_last());
            self.insert_all(vs.drop_last()).lemma_insert_is_bst(vs.last());
        }
    }

    /// After the values of `vs` are inserted into a search tree, a search for
    /// `w` finds a node exactly when the tree held `w` before or `w` is tied
    /// with one of the inserted values. The node found stores a value tied
    /// with `w`, and it is the only node that does: values inserted more than
    /// once are stored once.
    pub proof fn lemma_search_after_inserts(self, vs: Seq<T>, w: T)
        requires
            obeys_cmp::<T>(),
            self.is_bst(),
        ensures
            self.insert_all(vs).find(w) is Fork <==> self.holds(w) || exists|i: int|
                0 <= i < vs.len() && tied(w, #[trigger] vs[i]),
            self.insert_all(vs).find(w) is Fork ==> tied(w, self.insert_all(vs).find(w)->value),
            self.insert_all(vs).occurrences(w) == if self.insert_all(vs).find(w) is Fork {
                1nat
            } else {
                0nat
            },
        decreases vs.len(),
    {
        let after = self.insert_all(vs);
        self.lemma_insert_all_is_bst(vs);
        after.lemma_find_iff_holds(w);
        after.lemma_stored_once(w);
        if vs.len() > 0 {
            let before = self.insert_all(vs.drop_last());
            self.lemma_insert_all_is_bst(vs.drop_last());
            self.lemma_search_after_inserts(vs.drop_last(), w);
            before.lemma_find_iff_holds(w);
            before.lemma_insert_holds(vs.last(), w);
            if before.holds(w) && !self.holds(w) {
                let earlier = vs.drop_last();
                let i = choose|i: int| 0 <= i < earlier.len() && tied(w, #[trigger] earlier[i]);
                assert(vs[i] == earlier[i]);
            }
            if tied(w, vs.last()) {
                assert(vs[vs.len() - 1] == vs.last());
            }
            if exists|i: int| 0 <= i < vs.len() && tied(w, #[trigger] vs[i]) {
                let i = choose|i: int| 0 <= i < vs.len() && tied(w, #[trigger] vs[i]);
                if i < vs.len() - 1 {
                    assert(vs.drop_last()[i] == vs[i]);
                }
            }
        }
    }

    /// After the values of `vs` are inserted into the empty tree, a search
    /// for `w` finds a node exactly when `w` is tied with one of them; that
    /// node stores a value tied with `w` and is the only one that does.
    pub proof fn lemma_search_finds_what_was_inserted(vs: Seq<T>, w: T)
        requires
            obeys_cmp::<T>(),
        ensures
            Shape::<T>::Empty.insert_all(vs).is_bst(),
            Shape::<T>::Empty.insert_all(vs).find(w) is Fork <==> exists|i: int|
                0 <= i < vs.len() && tied(w, #[trigger] vs[i]),
            Shape::<T>::Empty.insert_all(vs).find(w) is Fork ==> tied(
                w,
                Shape::<T>::Empty.insert_all(vs).find(w)->value,
            ),
            Shape::<T>::Empty.insert_all(vs).occurrences(w) == if Shape::<T>::Empty.insert_all(
                vs,
            ).find(w) is Fork {
                1nat
            } else {
                0nat
            },
    {
        Shape::<T>::Empty.lemma_insert_all_is_bst(vs);
        Shape::<T>::Empty.lemma_search_after_inserts(vs, w);
    }
}

} // verus!
