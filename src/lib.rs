//! Type-directed tree traversal.
//!
//! A transformer (`Fold`) rewrites a node into a new node of the same type; an
//! observer (`Visit`) inspects a node without replacing it. Each node type says
//! how it decomposes into children (`FoldWith`, `VisitWith`); the built-in shapes
//! (indirection, sequence, optional, sum of two, opaque leaves) are provided here.
//! A transformer or observer either gives a rule of its own for a node type or
//! uses that node type's structural rule, which recurses into the children.
//! `AndThen` runs two transformers or observers one after the other.
//!
//! Every contract is a relation: `f.folds(node, next, out)` holds when a fold of
//! `node` by `f` may produce `out` and leave the folder in state `next`, and
//! `f.visits(node, next)` when a visit of `node` by `f` may leave it in `next`.

pub mod fold;
pub mod visit;
pub mod and_then;
pub mod shapes;
pub mod laws;

pub use and_then::AndThen;
pub use fold::{Fold, FoldWith};
pub use visit::{Visit, VisitWith};
