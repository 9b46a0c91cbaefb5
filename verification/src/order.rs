//! The vocabulary of comparisons that the tree's contracts are written in,
//! and the consequences of a total order that its proofs draw on.
//!
//! A value type enters the library through `Ord` alone. In contracts and
//! proofs its comparison is `partial_cmp_spec`. That the operators `<` and
//! `>` compute it is `T::obeys_partial_cmp_spec()`; that it is a total order
//! is `vstd::laws_cmp::obeys_cmp::<T>()`. Both hold of the integer types, of
//! which the first is known without further ado and the second through
//! `vstd::laws_cmp::group_laws_cmp`; for them `tied` is equality.

use core::cmp::Ordering;
use vstd::laws_cmp::{
    obeys_cmp, obeys_cmp_ord, obeys_cmp_partial_ord, obeys_partial_cmp_spec_properties,
};
use vstd::laws_eq::obeys_eq_spec_properties;
use vstd::prelude::*;
use vstd::std_specs::cmp::{OrdSpec, PartialEqSpec, PartialOrdSpec};

verus! {

/// `a` comes strictly before `b`.
pub open spec fn below<T: Ord>(a: T, b: T) -> bool {
    a.partial_cmp_spec(&b) == Some(Ordering::Less)
}

/// `a` comes strictly after `b`.
pub open spec fn above<T: Ord>(a: T, b: T) -> bool {
    a.partial_cmp_spec(&b) == Some(Ordering::Greater)
}

/// `a` and `b` take the same place in the order.
pub open spec fn tied<T: Ord>(a: T, b: T) -> bool {
    a.partial_cmp_spec(&b) == Some(Ordering::Equal)
}

/// A total order makes the executable comparison operators agree with
/// `partial_cmp_spec`.
pub proof fn lemma_total_order_is_faithful<T: Ord>()
    requires
        obeys_cmp::<T>(),
    ensures
        T::obeys_partial_cmp_spec(),
{
    reveal(obeys_cmp_partial_ord);
}

/// In a total order any two values compare: exactly one of `below`, `tied`
/// and `above` holds of them.
pub proof fn lemma_trichotomy<T: Ord>(a: T, b: T)
    requires
        obeys_cmp::<T>(),
    ensures
        below(a, b) || tied(a, b) || above(a, b),
        !(below(a, b) && tied(a, b)),
        !(below(a, b) && above(a, b)),
        !(tied(a, b) && above(a, b)),
{
    reveal(obeys_cmp_ord);
    assert(a.partial_cmp_spec(&b) == Some(a.cmp_spec(&b)));
}

/// `a` is below `b` exactly when `b` is above `a`.
pub proof fn lemma_mirror<T: Ord>(a: T, b: T)
    requires
        obeys_cmp::<T>(),
    ensures
        below(a, b) <==> above(b, a),
{
    reveal(obeys_partial_cmp_spec_properties);
}

/// `below` is transitive.
pub proof fn lemma_below_transitive<T: Ord>(a: T, b: T, c: T)
    requires
        obeys_cmp::<T>(),
        below(a, b),
        below(b, c),
    ensures
        below(a, c),
{
    reveal(obeys_partial_cmp_spec_properties);
}

/// `tied` is symmetric.
pub proof fn lemma_tied_symmetric<T: Ord>(a: T, b: T)
    requires
        obeys_cmp::<T>(),
    ensures
        tied(a, b) <==> tied(b, a),
{
    reveal(obeys_partial_cmp_spec_properties);
    reveal(obeys_eq_spec_properties);
    assert(tied(a, b) <==> a.eq_spec(&b));
    assert(tied(b, a) <==> b.eq_spec(&a));
}

/// `tied` is transitive.
pub proof fn lemma_tied_transitive<T: Ord>(a: T, b: T, c: T)
    requires
        obeys_cmp::<T>(),
        tied(a, b),
        tied(b, c),
    ensures
        tied(a, c),
{
    reveal(obeys_partial_cmp_spec_properties);
    reveal(obeys_eq_spec_properties);
    assert(a.eq_spec(&b));
    assert(b.eq_spec(&c));
    assert(a.eq_spec(&c));
}

/// Every value is tied with itself.
pub proof fn lemma_tied_reflexive<T: Ord>(a: T)
    requires
        obeys_cmp::<T>(),
    ensures
        tied(a, a),
{
    lemma_trichotomy(a, a);
    lemma_mirror(a, a);
}

/// Tied values take the same side of every third value.
pub proof fn lemma_tied_same_side<T: Ord>(a: T, b: T, c: T)
    requires
        obeys_cmp::<T>(),
        tied(a, b),
    ensures
        below(a, c) <==> below(b, c),
        above(a, c) <==> above(b, c),
        tied(a, c) <==> tied(b, c),
{
    lemma_trichotomy(a, c);
    lemma_trichotomy(b, c);
    lemma_tied_symmetric(a, b);
    if tied(a, c) {
        lemma_tied_transitive(b, a, c);
    }
    if tied(b, c) {
        lemma_tied_transitive(a, b, c);
    }
    if below(a, c) && above(b, c) {
        // Then a is below c and c is below b, though a and b are tied.
        lemma_mirror(c, b);
        lemma_below_transitive(a, c, b);
        lemma_trichotomy(a, b);
    }
    if above(a, c) && below(b, c) {
        // Then b is below c and c is below a, though b and a are tied.
        lemma_mirror(c, a);
        lemma_below_transitive(b, c, a);
        lemma_trichotomy(b, a);
    }
}

} // verus!
