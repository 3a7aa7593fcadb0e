use vstd::prelude::*;

use either::Either;
use string_cache::Atom;

use crate::and_then::AndThen;
use crate::fold::{Fold, FoldWith};
use crate::shapes::{folds_seq, visits_seq};
use crate::visit::{Visit, VisitWith};

verus! {

/// Every fold of a `T` node by an `F` folder, from any state, returns the node unchanged.
pub open spec fn folds_unchanged<T: FoldWith<F>, F: Fold<T>>() -> bool {
    forall|f: F, node: T, next: F, out: T| #[trigger] f.folds(node, next, out) ==> out == node
}

/// Structural recursion invents nothing: where the folder leaves every element
/// unchanged, folding the children of a sequence returns the same elements.
pub proof fn vec_fold_unchanged<T: FoldWith<F>, F: Fold<T>>(v: Vec<T>, f: F, next: F, out: Vec<T>)
    requires
        folds_unchanged::<T, F>(),
        v.folds_children(f, next, out),
    ensures
        out@ == v@,
{
    seq_fold_unchanged(f, v@, next, out@);
}

proof fn seq_fold_unchanged<T: FoldWith<F>, F: Fold<T>>(f: F, s: Seq<T>, next: F, out: Seq<T>)
    requires
        folds_unchanged::<T, F>(),
        folds_seq(f, s, next, out),
    ensures
        out == s,
    decreases s.len(),
{
    if s.len() > 0 {
        let mid = choose|mid: F|
            folds_seq(f, s.drop_last(), mid, out.drop_last()) && #[trigger] mid.folds(
                s.last(),
                next,
                out.last(),
            );
        seq_fold_unchanged(f, s.drop_last(), mid, out.drop_last());
        assert(out =~= out.drop_last().push(out.last()));
        assert(s =~= s.drop_last().push(s.last()));
    } else {
        assert(out =~= s);
    }
}

/// Where the folder leaves the content unchanged, folding the children of an
/// optional value returns it unchanged.
pub proof fn option_fold_unchanged<T: FoldWith<F>, F: Fold<T>>(o: Option<T>, f: F, next: F, out: Option<T>)
    requires
        folds_unchanged::<T, F>(),
        o.folds_children(f, next, out),
    ensures
        out == o,
{
}

/// Where the folder leaves the owned value unchanged, folding the children of an
/// indirection returns it unchanged.
pub proof fn box_fold_unchanged<T: FoldWith<F>, F: Fold<T>>(b: Box<T>, f: F, next: F, out: Box<T>)
    requires
        folds_unchanged::<T, F>(),
        b.folds_children(f, next, out),
    ensures
        out == b,
{
}

/// Where the folder leaves both alternatives unchanged, folding the children of a
/// sum of two returns it unchanged.
pub proof fn either_fold_unchanged<A: FoldWith<F>, B: FoldWith<F>, F: Fold<A> + Fold<B>>(
    e: Either<A, B>,
    f: F,
    next: F,
    out: Either<A, B>,
)
    requires
        folds_unchanged::<A, F>(),
        folds_unchanged::<B, F>(),
        e.folds_children(f, next, out),
    ensures
        out == e,
{
}

/// Observing a sequence with one more element at its end visits the elements
/// before it, then that element, from the state they left.
pub proof fn visit_seq_push<T: VisitWith<F>, F: Visit<T>>(f: F, s: Seq<T>, x: T, next: F)
    ensures
        visits_seq(f, s.push(x), next) <==> exists|mid: F|
            visits_seq(f, s, mid) && #[trigger] mid.visits(x, next),
{
    let t = s.push(x);
    assert(t.drop_last() =~= s);
    assert(t.last() == x);
    if visits_seq(f, t, next) {
        let mid = choose|mid: F| visits_seq(f, t.drop_last(), mid) && #[trigger] mid.visits(t.last(), next);
        assert(visits_seq(f, s, mid) && mid.visits(x, next));
    }
    if exists|mid: F| visits_seq(f, s, mid) && #[trigger] mid.visits(x, next) {
        let mid = choose|mid: F| visits_seq(f, s, mid) && #[trigger] mid.visits(x, next);
        assert(visits_seq(f, t.drop_last(), mid) && mid.visits(t.last(), next));
    }
}

/// Observing a sequence `[a, b, c]` visits `a`, then `b`, then `c`, each from the
/// state the one before it left.
pub proof fn visit_three_in_order<T: VisitWith<F>, F: Visit<T>>(a: T, b: T, c: T, f: F, next: F)
    ensures
        visits_seq(f, seq![a, b, c], next) <==> exists|m1: F, m2: F|
            #[trigger] f.visits(a, m1) && #[trigger] m1.visits(b, m2) && m2.visits(c, next),
{
    let e = Seq::<T>::empty();
    assert(e.push(a) =~= seq![a]);
    assert(seq![a].push(b) =~= seq![a, b]);
    assert(seq![a, b].push(c) =~= seq![a, b, c]);
    assert forall|m1: F| visits_seq(f, seq![a], m1) <==> f.visits(a, m1) by {
        visit_seq_push(f, e, a, m1);
        assert(e.len() == 0);
    }
    visit_seq_push(f, seq![a, b], c, next);
    if visits_seq(f, seq![a, b, c], next) {
        let m2 = choose|m2: F| visits_seq(f, seq![a, b], m2) && #[trigger] m2.visits(c, next);
        visit_seq_push(f, seq![a], b, m2);
        let m1 = choose|m1: F| visits_seq(f, seq![a], m1) && #[trigger] m1.visits(b, m2);
        assert(f.visits(a, m1) && m1.visits(b, m2) && m2.visits(c, next));
    }
    if exists|m1: F, m2: F| #[trigger] f.visits(a, m1) && #[trigger] m1.visits(b, m2) && m2.visits(c, next) {
        let (m1, m2) = choose|m1: F, m2: F|
            #[trigger] f.visits(a, m1) && #[trigger] m1.visits(b, m2) && m2.visits(c, next);
        visit_seq_push(f, seq![a], b, m2);
        assert(visits_seq(f, seq![a], m1));
        assert(visits_seq(f, seq![a, b], m2));
    }
}

/// Folding a sequence with one more element at its end folds the elements before
/// it, then that element from the state they left; the results keep their places.
pub proof fn fold_seq_push<T: FoldWith<F>, F: Fold<T>>(f: F, s: Seq<T>, x: T, next: F, out: Seq<T>)
    ensures
        folds_seq(f, s.push(x), next, out) <==> out.len() == s.len() + 1 && exists|mid: F|
            folds_seq(f, s, mid, out.drop_last()) && #[trigger] mid.folds(x, next, out.last()),
{
    let t = s.push(x);
    assert(t.drop_last() =~= s);
    assert(t.last() == x);
    if folds_seq(f, t, next, out) {
        let mid = choose|mid: F|
            folds_seq(f, t.drop_last(), mid, out.drop_last()) && #[trigger] mid.folds(
                t.last(),
                next,
                out.last(),
            );
        assert(folds_seq(f, s, mid, out.drop_last()) && mid.folds(x, next, out.last()));
    }
    if out.len() == s.len() + 1 && exists|mid: F|
        folds_seq(f, s, mid, out.drop_last()) && #[trigger] mid.folds(x, next, out.last()) {
        let mid = choose|mid: F|
            folds_seq(f, s, mid, out.drop_last()) && #[trigger] mid.folds(x, next, out.last());
        assert(folds_seq(f, t.drop_last(), mid, out.drop_last()) && mid.folds(
            t.last(),
            next,
            out.last(),
        ));
    }
}

/// Folding a sequence `[a, b, c]` folds `a`, then `b`, then `c`, each from the
/// state the one before it left, and the results stand in the same order.
pub proof fn fold_three_in_order<T: FoldWith<F>, F: Fold<T>>(a: T, b: T, c: T, f: F, next: F, out: Seq<T>)
    ensures
        folds_seq(f, seq![a, b, c], next, out) <==> out.len() == 3 && exists|m1: F, m2: F|
            #[trigger] f.folds(a, m1, out[0]) && #[trigger] m1.folds(b, m2, out[1]) && m2.folds(
                c,
                next,
                out[2],
            ),
{
    let e = Seq::<T>::empty();
    assert(e.push(a) =~= seq![a]);
    assert(seq![a].push(b) =~= seq![a, b]);
    assert(seq![a, b].push(c) =~= seq![a, b, c]);
    fold_seq_push(f, seq![a, b], c, next, out);
    if out.len() == 3 {
        let o2 = out.drop_last();
        let o1 = o2.drop_last();
        assert(o1.drop_last() =~= Seq::<T>::empty());
        assert(o1.last() == out[0]);
        assert(o2.last() == out[1]);
        assert(out.last() == out[2]);
        if folds_seq(f, seq![a, b, c], next, out) {
            let m2 = choose|m2: F| folds_seq(f, seq![a, b], m2, o2) && #[trigger] m2.folds(c, next, out.last());
            fold_seq_push(f, seq![a], b, m2, o2);
            let m1 = choose|m1: F| folds_seq(f, seq![a], m1, o1) && #[trigger] m1.folds(b, m2, o2.last());
            fold_seq_push(f, e, a, m1, o1);
            let m0 = choose|m0: F| folds_seq(f, e, m0, o1.drop_last()) && #[trigger] m0.folds(a, m1, o1.last());
            assert(f.folds(a, m1, out[0]) && m1.folds(b, m2, out[1]) && m2.folds(c, next, out[2]));
        }
        if exists|m1: F, m2: F|
            #[trigger] f.folds(a, m1, out[0]) && #[trigger] m1.folds(b, m2, out[1]) && m2.folds(c, next, out[2]) {
            let (m1, m2) = choose|m1: F, m2: F|
                #[trigger] f.folds(a, m1, out[0]) && #[trigger] m1.folds(b, m2, out[1]) && m2.folds(c, next, out[2]);
            fold_seq_push(f, e, a, m1, o1);
            assert(folds_seq(f, e, f, o1.drop_last()));
            assert(folds_seq(f, seq![a], m1, o1));
            fold_seq_push(f, seq![a], b, m2, o2);
            assert(folds_seq(f, seq![a, b], m2, o2));
        }
    }
}

/// A chained transformer's result is the second's transform of the first's result.
pub proof fn fold_and_then<T, F1, F2>(f1: F1, f2: F2, node: T, next: AndThen<F1, F2>, out: T)
    where
        T: FoldWith<AndThen<F1, F2>> + FoldWith<F1> + FoldWith<F2>,
        F1: Fold<T>,
        F2: Fold<T>,
    ensures
        (AndThen { first: f1, second: f2 }).folds(node, next, out) <==> exists|mid: T|
            #[trigger] f1.folds(node, next.first, mid) && f2.folds(mid, next.second, out),
{
    let both = AndThen { first: f1, second: f2 };
    if exists|mid: T| #[trigger] f1.folds(node, next.first, mid) && f2.folds(mid, next.second, out) {
        let mid = choose|mid: T| #[trigger] f1.folds(node, next.first, mid) && f2.folds(mid, next.second, out);
        assert(both.first.folds(node, next.first, mid));
    }
}

/// Chaining is associative: `(f1 then f2) then f3` and `f1 then (f2 then f3)` allow
/// the same results, with the parts ending in the same states.
pub proof fn fold_and_then_associative<T, F1, F2, F3>(
    f1: F1,
    f2: F2,
    f3: F3,
    g1: F1,
    g2: F2,
    g3: F3,
    node: T,
    out: T,
)
    where
        T: FoldWith<F1> + FoldWith<F2> + FoldWith<F3> + FoldWith<AndThen<F1, F2>> + FoldWith<
            AndThen<F2, F3>,
        > + FoldWith<AndThen<AndThen<F1, F2>, F3>> + FoldWith<AndThen<F1, AndThen<F2, F3>>>,
        F1: Fold<T>,
        F2: Fold<T>,
        F3: Fold<T>,
    ensures
        (AndThen { first: AndThen { first: f1, second: f2 }, second: f3 }).folds(
            node,
            AndThen { first: AndThen { first: g1, second: g2 }, second: g3 },
            out,
        ) <==> (AndThen { first: f1, second: AndThen { first: f2, second: f3 } }).folds(
            node,
            AndThen { first: g1, second: AndThen { first: g2, second: g3 } },
            out,
        ),
{
    let left = AndThen { first: AndThen { first: f1, second: f2 }, second: f3 };
    let right = AndThen { first: f1, second: AndThen { first: f2, second: f3 } };
    let lnext = AndThen { first: AndThen { first: g1, second: g2 }, second: g3 };
    let rnext = AndThen { first: g1, second: AndThen { first: g2, second: g3 } };
    if left.folds(node, lnext, out) {
        let m2 = choose|m2: T| #[trigger] left.first.folds(node, lnext.first, m2) && f3.folds(m2, g3, out);
        let m1 = choose|m1: T| #[trigger] f1.folds(node, g1, m1) && f2.folds(m1, g2, m2);
        assert(right.second.first.folds(m1, rnext.second.first, m2));
        assert(right.second.folds(m1, rnext.second, out));
        assert(right.first.folds(node, rnext.first, m1));
    }
    if right.folds(node, rnext, out) {
        let m1 = choose|m1: T| #[trigger] f1.folds(node, g1, m1) && right.second.folds(m1, rnext.second, out);
        let m2 = choose|m2: T| #[trigger] f2.folds(m1, g2, m2) && f3.folds(m2, g3, out);
        assert(left.first.first.folds(node, lnext.first.first, m1));
        assert(left.first.folds(node, lnext.first, m2));
        assert(left.second.folds(m2, lnext.second, out));
    }
}

/// A chained observer: the first and the second each observe the node as it was given,
/// and each ends as its own visit of that node leaves it.
pub proof fn visit_and_then<T, F1, F2>(f1: F1, f2: F2, node: T, next: AndThen<F1, F2>)
    where
        T: VisitWith<AndThen<F1, F2>> + VisitWith<F1> + VisitWith<F2>,
        F1: Visit<T>,
        F2: Visit<T>,
    ensures
        (AndThen { first: f1, second: f2 }).visits(node, next) <==> f1.visits(node, next.first)
            && f2.visits(node, next.second),
{
}

/// An absent optional child stays absent, and the folder is left as it was; a
/// present one is folded and stays present.
pub proof fn option_fold_keeps_presence<T: FoldWith<F>, F: Fold<T>>(o: Option<T>, f: F, next: F, out: Option<T>)
    requires
        o.folds_children(f, next, out),
    ensures
        o is None ==> out is None && next == f,
        o is Some ==> out is Some && f.folds(o->Some_0, next, out->Some_0),
{
}

/// Folding a sum of two keeps its active alternative, and folds the value there.
pub proof fn either_fold_keeps_alternative<A: FoldWith<F>, B: FoldWith<F>, F: Fold<A> + Fold<B>>(
    e: Either<A, B>,
    f: F,
    next: F,
    out: Either<A, B>,
)
    requires
        e.folds_children(f, next, out),
    ensures
        match (e, out) {
            (Either::Left(a), Either::Left(b)) => Fold::<A>::folds(f, a, next, b),
            (Either::Right(a), Either::Right(b)) => Fold::<B>::folds(f, a, next, b),
            _ => false,
        },
{
}

/// Raw text is left as it is by structural folding, and neither folding nor
/// visiting its children changes the folder or observer.
pub proof fn string_leaf_inert<F>(s: String, f: F, next: F, out: String)
    ensures
        s.folds_children(f, next, out) ==> out == s && next == f,
        s.visits_children(f, next) ==> next == f,
{
}

/// An interned symbol is left as it is by structural folding, and neither folding
/// nor visiting its children changes the folder or observer.
pub proof fn atom_leaf_inert<F, S>(a: Atom<S>, f: F, next: F, out: Atom<S>)
    ensures
        a.folds_children(f, next, out) ==> out == a && next == f,
        a.visits_children(f, next) ==> next == f,
{
}

/// Folding an indirection folds the value it owns, and the result owns the
/// folded value.
pub proof fn box_fold_rewraps<T: FoldWith<F>, F: Fold<T>>(b: Box<T>, f: F, next: F, out: Box<T>)
    ensures
        b.folds_children(f, next, out) <==> f.folds(*b, next, *out),
{
}

/// A boxed transformer allows exactly the results, and the end states, of the
/// transformer inside it.
pub proof fn boxed_folder_forwards<T: FoldWith<Box<F>> + FoldWith<F>, F: Fold<T>>(f: F, node: T, next: F, out: T)
    ensures
        Box::new(f).folds(node, Box::new(next), out) <==> f.folds(node, next, out),
{
}

/// A boxed observer allows exactly the end states of the observer inside it.
pub proof fn boxed_observer_forwards<T: VisitWith<Box<F>> + VisitWith<F>, F: Visit<T>>(f: F, node: T, next: F)
    ensures
        Box::new(f).visits(node, Box::new(next)) <==> f.visits(node, next),
{
}

} // verus!
