use vstd::prelude::*;

use crate::fold::{Fold, FoldWith};
use crate::visit::{Visit, VisitWith};

verus! {

/// Two transformers or observers run one after the other: `first`, then `second`.
///
/// Longer chains are built by pairing again (`a.and_then(b).and_then(c)`); the
/// grouping does not change the order in which the parts run.
#[derive(Debug, Clone, PartialEq, Eq, Hash)]
pub struct AndThen<F1, F2> {
    pub first: F1,
    pub second: F2,
}

/// `second` transforms what `first` returned; there is no short cut.
impl<T, F1, F2> Fold<T> for AndThen<F1, F2> where
    T: FoldWith<AndThen<F1, F2>> + FoldWith<F1> + FoldWith<F2>,
    F1: Fold<T>,
    F2: Fold<T>,
 {
    open spec fn folds(self, node: T, next: Self, out: T) -> bool {
        exists|mid: T|
            #[trigger] self.first.folds(node, next.first, mid) && self.second.folds(
                mid,
                next.second,
                out,
            )
    }

    fn fold(&mut self, node: T) -> (out: T) {
        let ghost start = *self;
        let ghost node0 = node;
        let mid = self.first.fold(node);
        let ghost mid0 = mid;
        let out = self.second.fold(mid);
        assert(start.first.folds(node0, self.first, mid0));
        out
    }
}

/// `first` and then `second` observe the same node.
impl<T, F1, F2> Visit<T> for AndThen<F1, F2> where
    T: VisitWith<AndThen<F1, F2>> + VisitWith<F1> + VisitWith<F2>,
    F1: Visit<T>,
    F2: Visit<T>,
 {
    open spec fn visits(self, node: T, next: Self) -> bool {
        self.first.visits(node, next.first) && self.second.visits(node, next.second)
    }

    fn visit(&mut self, node: &T) {
        self.first.visit(node);
        self.second.visit(node);
    }
}

} // verus!
