//! Properties that relate several calls of the library.
use vstd::prelude::*;
use crate::token::{Real, Operator, Function};
use crate::expression::Term;
use crate::evaluation::{EvalFault, evaluation};
use crate::rewrite::{optimization, is_optimized, lemma_identity_shape};

verus! {

/// Whatever optimization returns is optimized.
pub proof fn lemma_optimization_is_optimized(
    t: Term,
    env: Map<Seq<char>, Real>,
    f: spec_fn(Operator, Real, Real) -> Real,
    g: spec_fn(Function, Real) -> Option<Real>,
)
    ensures
        optimization(t, env, f, g) matches Ok(u) ==> is_optimized(u, env),
    decreases t,
{
    match t {
        Term::Bin(op, l, r) => {
            lemma_optimization_is_optimized(*l, env, f, g);
            lemma_optimization_is_optimized(*r, env, f, g);
            if let (Ok(l2), Ok(r2)) = (optimization(*l, env, f, g), optimization(*r, env, f, g)) {
                lemma_identity_shape(op, l2, r2);
            }
        },
        Term::Call(_, a) => {
            lemma_optimization_is_optimized(*a, env, f, g);
        },
        _ => {},
    }
}

/// Optimization leaves an optimized tree as it is.
pub proof fn lemma_optimized_is_fixed(
    t: Term,
    env: Map<Seq<char>, Real>,
    f: spec_fn(Operator, Real, Real) -> Real,
    g: spec_fn(Function, Real) -> Option<Real>,
)
    requires
        is_optimized(t, env),
    ensures
        optimization(t, env, f, g) == Ok::<Term, EvalFault>(t),
    decreases t,
{
    match t {
        Term::Bin(op, l, r) => {
            lemma_optimized_is_fixed(*l, env, f, g);
            lemma_optimized_is_fixed(*r, env, f, g);
        },
        Term::Call(_, a) => {
            lemma_optimized_is_fixed(*a, env, f, g);
        },
        _ => {},
    }
}

/// Optimization is idempotent: optimizing the optimized tree again, against
/// the same environment and backend, gives that same tree back. The
/// executable `optimize` states the same for any backend at all, deterministic
/// or not: what it returns is optimized, and an optimized tree comes back
/// unchanged (no backend call is made for it).
pub proof fn optimize_is_idempotent(
    t: Term,
    env: Map<Seq<char>, Real>,
    f: spec_fn(Operator, Real, Real) -> Real,
    g: spec_fn(Function, Real) -> Option<Real>,
)
    ensures
        optimization(t, env, f, g) matches Ok(u) ==> optimization(u, env, f, g) == Ok::<Term, EvalFault>(u),
{
    lemma_optimization_is_optimized(t, env, f, g);
    if let Ok(u) = optimization(t, env, f, g) {
        lemma_optimized_is_fixed(u, env, f, g);
    }
}

/// Evaluation reports the failure of the left operand before anything that
/// the right operand or the operator itself would cause.
pub proof fn left_failure_comes_first(
    op: Operator,
    l: Term,
    r: Term,
    env: Map<Seq<char>, Real>,
    f: spec_fn(Operator, Real, Real) -> Real,
    g: spec_fn(Function, Real) -> Option<Real>,
)
    requires
        evaluation(l, env, f, g) is Err,
    ensures
        evaluation(Term::Bin(op, Box::new(l), Box::new(r)), env, f, g) == evaluation(l, env, f, g),
{
}

} // verus!
