use vstd::prelude::*;

use crate::and_then::AndThen;

verus! {

/// An observer of nodes of type `T`.
///
/// The relation `visits` says what one call of `visit` may do to the observer.
/// Unless an implementation states a rule of its own, it is the node type's
/// structural rule (`VisitWith::visits_children`): visit every child. The node
/// itself is not visited again. An implementation that keeps that rule has
/// `visit` call `node.visit_children(self)`.
pub trait Visit<T: VisitWith<Self>>: Sized {
    /// Visiting `node` from state `self` may leave state `next`.
    open spec fn visits(self, node: T, next: Self) -> bool {
        node.visits_children(self, next)
    }

    /// Observes `node`.
    fn visit(&mut self, node: &T)
        ensures
            old(self).visits(*node, *final(self)),
    ;

    /// An observer that applies `self`, then `visitor`, each to the same node.
    fn and_then<G>(self, visitor: G) -> (r: AndThen<Self, G>)
        ensures
            r.first == self,
            r.second == visitor,
    {
        AndThen { first: self, second: visitor }
    }
}

/// A node type that knows its children, and how to visit them with `F`.
pub trait VisitWith<F>: Sized {
    /// Visiting each child of `self` with `f` may leave `f` in state `next`.
    spec fn visits_children(self, f: F, next: F) -> bool;

    /// Visits each child with `f`.
    fn visit_children(&self, f: &mut F)
        ensures
            self.visits_children(*old(f), *final(f)),
    ;
}

/// A boxed observer visits as the observer inside it does.
impl<T: VisitWith<Box<F>> + VisitWith<F>, F: Visit<T>> Visit<T> for Box<F> {
    open spec fn visits(self, node: T, next: Self) -> bool {
        (*self).visits(node, *next)
    }

    fn visit(&mut self, node: &T) {
        (**self).visit(node)
    }
}

/// An observer reached through an exclusive borrow visits as the observer itself does.
impl<'a, T: VisitWith<&'a mut F> + VisitWith<F>, F: Visit<T>> Visit<T> for &'a mut F {
    open spec fn visits(self, node: T, next: Self) -> bool {
        (*self).visits(node, *next)
    }

    fn visit(&mut self, node: &T) {
        (**self).visit(node)
    }
}

} // verus!
