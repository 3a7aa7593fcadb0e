use vstd::prelude::*;

use crate::and_then::AndThen;

verus! {

/// A transformer of nodes of type `T`.
///
/// The relation `folds` says what one call of `fold` may do. Unless an
/// implementation states a rule of its own, it is the node type's structural
/// rule (`FoldWith::folds_children`): fold every child, rebuild the node. An
/// implementation that keeps that rule has `fold` return
/// `node.fold_children(self)`.
///
/// A transformer implements `Fold` once for each node type it meets, so for
/// each pair of transformer and node type exactly one rule applies.
pub trait Fold<T: FoldWith<Self>>: Sized {
    /// Folding `node` from state `self` may yield `out` and leave state `next`.
    open spec fn folds(self, node: T, next: Self, out: T) -> bool {
        node.folds_children(self, next, out)
    }

    /// Transforms `node` into a new node of the same type.
    fn fold(&mut self, node: T) -> (out: T)
        ensures
            old(self).folds(node, *final(self), out),
    ;

    /// A transformer that applies `self`, then `folder` to what `self` returned.
    fn and_then<G>(self, folder: G) -> (r: AndThen<Self, G>)
        ensures
            r.first == self,
            r.second == folder,
    {
        AndThen { first: self, second: folder }
    }
}

/// A node type that knows its children, and how to fold them with `F`.
pub trait FoldWith<F>: Sized {
    /// Folding each child of `self` with `f` may yield `out` and leave `f` in `next`.
    spec fn folds_children(self, f: F, next: F, out: Self) -> bool;

    /// Folds each child with `f` and rebuilds the node from the results.
    fn fold_children(self, f: &mut F) -> (out: Self)
        ensures
            self.folds_children(*old(f), *final(f), out),
    ;

}

/// A boxed transformer folds as the transformer inside it does.
impl<T: FoldWith<Box<F>> + FoldWith<F>, F: Fold<T>> Fold<T> for Box<F> {
    open spec fn folds(self, node: T, next: Self, out: T) -> bool {
        (*self).folds(node, *next, out)
    }

    fn fold(&mut self, node: T) -> (out: T) {
        (**self).fold(node)
    }
}

/// A transformer reached through an exclusive borrow folds as the transformer itself does.
impl<'a, T: FoldWith<&'a mut F> + FoldWith<F>, F: Fold<T>> Fold<T> for &'a mut F {
    open spec fn folds(self, node: T, next: Self, out: T) -> bool {
        (*self).folds(node, *next, out)
    }

    fn fold(&mut self, node: T) -> (out: T) {
        (**self).fold(node)
    }
}

} // verus!
