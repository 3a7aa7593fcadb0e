use vstd::prelude::*;

use core::convert::Infallible;

use either::Either;
use string_cache::Atom;

use crate::fold::{Fold, FoldWith};
use crate::visit::{Visit, VisitWith};

verus! {

/// Relies on either::Either being the enum `Left(L) | Right(R)` with public
/// variants: the sum-of-two shape matches on it directly.
#[verifier::external_type_specification]
#[verifier::reject_recursive_types(L)]
#[verifier::reject_recursive_types(R)]
pub struct ExEither<L, R>(Either<L, R>);

/// Relies on string_cache::Atom only as an opaque value: an interned symbol is a
/// leaf, carried through unchanged, and nothing inside it is read.
#[verifier::external_type_specification]
#[verifier::external_body]
#[verifier::reject_recursive_types(S)]
pub struct ExAtom<S>(Atom<S>);

/// Folding the elements of `s` in order, from state `f`, may yield `out` and
/// leave state `next`: each element is folded from the state the one before it left.
pub open spec fn folds_seq<T: FoldWith<F>, F: Fold<T>>(f: F, s: Seq<T>, next: F, out: Seq<T>) -> bool
    decreases s.len(),
{
    if s.len() == 0 {
        next == f && out.len() == 0
    } else {
        &&& out.len() == s.len()
        &&& exists|mid: F|
            folds_seq(f, s.drop_last(), mid, out.drop_last()) && #[trigger] mid.folds(
                s.last(),
                next,
                out.last(),
            )
    }
}

/// An indirection has one child, the value it owns; the result owns the folded value.
impl<T: FoldWith<F>, F: Fold<T>> FoldWith<F> for Box<T> {
    open spec fn folds_children(self, f: F, next: F, out: Self) -> bool {
        f.folds(*self, next, *out)
    }

    fn fold_children(self, f: &mut F) -> (out: Self) {
        Box::new(f.fold(*self))
    }
}

/// A sequence's children are its elements, folded in order; the result keeps that order.
impl<T: FoldWith<F>, F: Fold<T>> FoldWith<F> for Vec<T> {
    open spec fn folds_children(self, f: F, next: F, out: Self) -> bool {
        folds_seq(f, self@, next, out@)
    }

    fn fold_children(self, f: &mut F) -> (out: Self) {
        let ghost f0 = *f;
        let ghost s = self@;
        let mut out: Vec<T> = Vec::new();
        for x in it: self.into_iter()
            invariant
                it.seq() == s,
                folds_seq(f0, s.take(it.index() as int), *f, out@),
        {
            let ghost mid = *f;
            let ghost i = it.index() as int;
            let ghost prev = out@;
            let y = f.fold(x);
            out.push(y);
            assert(s.take(i + 1).drop_last() =~= s.take(i));
            assert(out@.drop_last() =~= prev);
            assert(mid.folds(s.take(i + 1).last(), *f, out@.last()));
        }
        assert(s.take(s.len() as int) =~= s);
        out
    }
}

/// An optional value has its content as its one child, or no child at all.
/// Absence stays absence; a present value is folded and stays present.
impl<T: FoldWith<F>, F: Fold<T>> FoldWith<F> for Option<T> {
    open spec fn folds_children(self, f: F, next: F, out: Self) -> bool {
        match (self, out) {
            (None, None) => next == f,
            (Some(a), Some(b)) => f.folds(a, next, b),
            _ => false,
        }
    }

    fn fold_children(self, f: &mut F) -> (out: Self) {
        match self {
            Some(a) => Some(f.fold(a)),
            None => None,
        }
    }
}

/// A sum of two has the value of its active alternative as its one child; the
/// result holds the folded value under the same alternative.
impl<A: FoldWith<F>, B: FoldWith<F>, F: Fold<A> + Fold<B>> FoldWith<F> for Either<A, B> {
    open spec fn folds_children(self, f: F, next: F, out: Self) -> bool {
        match (self, out) {
            (Either::Left(a), Either::Left(b)) => Fold::<A>::folds(f, a, next, b),
            (Either::Right(a), Either::Right(b)) => Fold::<B>::folds(f, a, next, b),
            _ => false,
        }
    }

    fn fold_children(self, f: &mut F) -> (out: Self) {
        match self {
            Either::Left(a) => Either::Left(Fold::<A>::fold(f, a)),
            Either::Right(b) => Either::Right(Fold::<B>::fold(f, b)),
        }
    }
}

/// Raw text is an opaque leaf: it has no children and folds to itself.
impl<F> FoldWith<F> for String {
    open spec fn folds_children(self, f: F, next: F, out: Self) -> bool {
        next == f && out == self
    }

    fn fold_children(self, f: &mut F) -> (out: Self) {
        self
    }
}

/// An interned symbol is an opaque leaf: it has no children and folds to itself.
impl<F, S> FoldWith<F> for Atom<S> {
    open spec fn folds_children(self, f: F, next: F, out: Self) -> bool {
        next == f && out == self
    }

    fn fold_children(self, f: &mut F) -> (out: Self) {
        self
    }
}

/// Visiting the elements of `s` in order, from state `f`, may leave state
/// `next`: each element is visited from the state the one before it left.
pub open spec fn visits_seq<T: VisitWith<F>, F: Visit<T>>(f: F, s: Seq<T>, next: F) -> bool
    decreases s.len(),
{
    if s.len() == 0 {
        next == f
    } else {
        exists|mid: F| visits_seq(f, s.drop_last(), mid) && #[trigger] mid.visits(s.last(), next)
    }
}

/// The child of an indirection is the value it owns.
impl<T: VisitWith<F>, F: Visit<T>> VisitWith<F> for Box<T> {
    open spec fn visits_children(self, f: F, next: F) -> bool {
        f.visits(*self, next)
    }

    fn visit_children(&self, f: &mut F) {
        f.visit(&**self)
    }
}

/// The children of a sequence are its elements, visited strictly in order.
impl<T: VisitWith<F>, F: Visit<T>> VisitWith<F> for Vec<T> {
    open spec fn visits_children(self, f: F, next: F) -> bool {
        visits_seq(f, self@, next)
    }

    fn visit_children(&self, f: &mut F) {
        let ghost f0 = *f;
        let ghost s = self@;
        let mut i: usize = 0;
        while i < self.len()
            invariant
                s == self@,
                i <= s.len(),
                visits_seq(f0, s.take(i as int), *f),
            decreases s.len() - i,
        {
            let ghost mid = *f;
            f.visit(&self[i]);
            assert(s.take(i + 1).drop_last() =~= s.take(i as int));
            assert(mid.visits(s.take(i + 1).last(), *f));
            i = i + 1;
        }
        assert(s.take(s.len() as int) =~= s);
    }
}

/// An optional value is visited through its content, if there is one.
impl<T: VisitWith<F>, F: Visit<T>> VisitWith<F> for Option<T> {
    open spec fn visits_children(self, f: F, next: F) -> bool {
        match self {
            None => next == f,
            Some(a) => f.visits(a, next),
        }
    }

    fn visit_children(&self, f: &mut F) {
        if let Some(node) = self {
            f.visit(node)
        }
    }
}

/// A sum of two is visited through the value of its active alternative.
impl<A: VisitWith<F>, B: VisitWith<F>, F: Visit<A> + Visit<B>> VisitWith<F> for Either<A, B> {
    open spec fn visits_children(self, f: F, next: F) -> bool {
        match self {
            Either::Left(a) => Visit::<A>::visits(f, a, next),
            Either::Right(b) => Visit::<B>::visits(f, b, next),
        }
    }

    fn visit_children(&self, f: &mut F) {
        match self {
            Either::Left(a) => Visit::<A>::visit(f, a),
            Either::Right(b) => Visit::<B>::visit(f, b),
        }
    }
}

/// Raw text has no children: visiting them leaves the observer as it was.
impl<F> VisitWith<F> for String {
    open spec fn visits_children(self, f: F, next: F) -> bool {
        next == f
    }

    fn visit_children(&self, f: &mut F) {
    }
}

/// An interned symbol has no children: visiting them leaves the observer as it was.
impl<F, S> VisitWith<F> for Atom<S> {
    open spec fn visits_children(self, f: F, next: F) -> bool {
        next == f
    }

    fn visit_children(&self, f: &mut F) {
    }
}

/// An uninhabited type has no values, so there is nothing to fold.
impl<F> FoldWith<F> for Infallible {
    open spec fn folds_children(self, f: F, next: F, out: Self) -> bool {
        next == f && out == self
    }

    fn fold_children(self, f: &mut F) -> (out: Self) {
        self
    }
}

/// An uninhabited type has no values, so there is nothing to visit.
impl<F> VisitWith<F> for Infallible {
    open spec fn visits_children(self, f: F, next: F) -> bool {
        next == f
    }

    fn visit_children(&self, f: &mut F) {
    }
}

} // verus!
