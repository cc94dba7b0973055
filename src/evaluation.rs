//! Evaluation and rendering of expression trees against a numeric backend.
//!
//! The backend is a set of closures: `arith` applies a binary operator,
//! `func` applies a scientific function (answering `None` where the function
//! is undefined), `show` prints a value. A contract quantifies over the spec
//! functions that the closures compute, so it pins the result down for every
//! deterministic backend.
use vstd::prelude::*;
use crate::token::{Real, Operator, Function, precedence_of, symbol_of, function_name};
use crate::expression::{Term, Expression, term_precedence};
use crate::environment::Environment;

verus! {

/// `b` accepts every operator and pair of operands.
pub open spec fn accepts_binary<B: Fn(Operator, Real, Real) -> Real>(b: B) -> bool {
    forall|op: Operator, x: Real, y: Real| #[trigger] b.requires((op, x, y))
}

/// Every result of `b` is the one that `f` gives.
pub open spec fn computes_binary<B: Fn(Operator, Real, Real) -> Real>(
    b: B,
    f: spec_fn(Operator, Real, Real) -> Real,
) -> bool {
    forall|op: Operator, x: Real, y: Real, r: Real| #[trigger] b.ensures((op, x, y), r) ==> r == f(op, x, y)
}

pub open spec fn accepts_unary<U: Fn(Function, Real) -> Option<Real>>(u: U) -> bool {
    forall|fun: Function, x: Real| #[trigger] u.requires((fun, x))
}

pub open spec fn computes_unary<U: Fn(Function, Real) -> Option<Real>>(
    u: U,
    g: spec_fn(Function, Real) -> Option<Real>,
) -> bool {
    forall|fun: Function, x: Real, r: Option<Real>| #[trigger] u.ensures((fun, x), r) ==> r == g(fun, x)
}

pub open spec fn accepts_show<S: Fn(Real) -> String>(s: S) -> bool {
    forall|x: Real| #[trigger] s.requires((x,))
}

pub open spec fn computes_show<S: Fn(Real) -> String>(s: S, h: spec_fn(Real) -> Seq<char>) -> bool {
    forall|x: Real, r: String| #[trigger] s.ensures((x,), r) ==> r@ == h(x)
}

#[derive(Debug, Clone)]
pub enum EvalError {
    DivisionByZero,
    DomainError(Function),
    UndefinedVariable(String),
}

pub enum EvalFault {
    DivisionByZero,
    DomainError(Function),
    UndefinedVariable(Seq<char>),
}

impl View for EvalError {
    type V = EvalFault;

    open spec fn view(&self) -> EvalFault {
        match self {
            EvalError::DivisionByZero => EvalFault::DivisionByZero,
            EvalError::DomainError(f) => EvalFault::DomainError(*f),
            EvalError::UndefinedVariable(name) => EvalFault::UndefinedVariable(name@),
        }
    }
}

pub open spec fn outcome<E: View>(r: Result<Real, E>) -> Result<Real, E::V> {
    match r {
        Ok(v) => Ok(v),
        Err(e) => Err(e@),
    }
}

/// An operator applied to two values: dividing by a zero fails, anything
/// else is the backend's result.
pub open spec fn apply_binary(
    op: Operator,
    x: Real,
    y: Real,
    f: spec_fn(Operator, Real, Real) -> Real,
) -> Result<Real, EvalFault> {
    if op == Operator::Divide && y.spec_is_zero() {
        Err(EvalFault::DivisionByZero)
    } else {
        Ok(f(op, x, y))
    }
}

/// A function applied to a value: the square root of a negative value
/// fails, and so does any point where the backend finds the function
/// undefined.
pub open spec fn apply_function(
    fun: Function,
    x: Real,
    g: spec_fn(Function, Real) -> Option<Real>,
) -> Result<Real, EvalFault> {
    if fun == Function::Sqrt && x.spec_is_negative() {
        Err(EvalFault::DomainError(fun))
    } else {
        match g(fun, x) {
            Some(v) => Ok(v),
            None => Err(EvalFault::DomainError(fun)),
        }
    }
}

/// The value of a tree: children first, left before right, stopping at the
/// first failure.
pub open spec fn evaluation(
    t: Term,
    env: Map<Seq<char>, Real>,
    f: spec_fn(Operator, Real, Real) -> Real,
    g: spec_fn(Function, Real) -> Option<Real>,
) -> Result<Real, EvalFault>
    decreases t,
{
    match t {
        Term::Num(v) => Ok(v),
        Term::Var(x) => if env.contains_key(x) {
            Ok(env[x])
        } else {
            Err(EvalFault::UndefinedVariable(x))
        },
        Term::Bin(op, l, r) => match evaluation(*l, env, f, g) {
            Err(e) => Err(e),
            Ok(a) => match evaluation(*r, env, f, g) {
                Err(e) => Err(e),
                Ok(b) => apply_binary(op, a, b, f),
            },
        },
        Term::Call(fun, a) => match evaluation(*a, env, f, g) {
            Err(e) => Err(e),
            Ok(x) => apply_function(fun, x, g),
        },
    }
}

pub open spec fn parenthesized(s: Seq<char>) -> Seq<char> {
    seq!['('] + s + seq![')']
}

/// The text of a tree with minimal parentheses: a left operand is wrapped
/// when it binds more loosely than its operator, a right operand also when
/// it binds equally (operators associate to the left).
pub open spec fn rendering(t: Term, h: spec_fn(Real) -> Seq<char>) -> Seq<char>
    decreases t,
{
    match t {
        Term::Num(v) => h(v),
        Term::Var(x) => x,
        Term::Bin(op, l, r) => {
            let p = precedence_of(op);
            let ls = if term_precedence(*l) < p {
                parenthesized(rendering(*l, h))
            } else {
                rendering(*l, h)
            };
            let rs = if term_precedence(*r) <= p {
                parenthesized(rendering(*r, h))
            } else {
                rendering(*r, h)
            };
            ls + seq![' '] + symbol_of(op) + seq![' '] + rs
        },
        Term::Call(fun, a) => function_name(fun) + parenthesized(rendering(*a, h)),
    }
}

/// A backend computation of `op` on two values, with the division check.
pub fn combine<B: Fn(Operator, Real, Real) -> Real>(op: Operator, x: Real, y: Real, arith: &B) -> (r: Result<Real, EvalError>)
    requires
        accepts_binary(*arith),
    ensures
        forall|f: spec_fn(Operator, Real, Real) -> Real| #[trigger] computes_binary(*arith, f)
            ==> outcome(r) == apply_binary(op, x, y, f),
{
    if op == Operator::Divide && y.is_zero() {
        return Err(EvalError::DivisionByZero);
    }
    let v = arith(op, x, y);
    Ok(v)
}

/// A backend computation of `fun` on a value, with the domain checks.
pub fn call_function<U: Fn(Function, Real) -> Option<Real>>(fun: Function, x: Real, func: &U) -> (r: Result<Real, EvalError>)
    requires
        accepts_unary(*func),
    ensures
        forall|g: spec_fn(Function, Real) -> Option<Real>| #[trigger] computes_unary(*func, g)
            ==> outcome(r) == apply_function(fun, x, g),
{
    if fun == Function::Sqrt && x.is_negative() {
        return Err(EvalError::DomainError(fun));
    }
    match func(fun, x) {
        Some(v) => Ok(v),
        None => Err(EvalError::DomainError(fun)),
    }
}

impl Expression {
    /// Evaluates the tree against `env`.
    pub fn evaluate<B, U>(&self, env: &Environment, arith: &B, func: &U) -> (r: Result<Real, EvalError>)
        where
            B: Fn(Operator, Real, Real) -> Real,
            U: Fn(Function, Real) -> Option<Real>,
        requires
            accepts_binary(*arith),
            accepts_unary(*func),
        ensures
            forall|f: spec_fn(Operator, Real, Real) -> Real, g: spec_fn(Function, Real) -> Option<Real>|
                computes_binary(*arith, f) && computes_unary(*func, g)
                    ==> outcome(r) == #[trigger] evaluation(self@, env@, f, g),
        decreases self,
    {
        match self {
            Expression::Number(n) => Ok(n.value),
            Expression::Variable(v) => match env.get(&v.name) {
                Some(x) => Ok(x),
                None => Err(EvalError::UndefinedVariable(v.name.clone())),
            },
            Expression::Binary(b) => {
                let lr = b.left.evaluate(env, arith, func);
                let ghost lo = outcome(lr);
                let x = match lr {
                    Ok(x) => x,
                    Err(e) => {
                        proof {
                            assert forall|f: spec_fn(Operator, Real, Real) -> Real, g: spec_fn(Function, Real) -> Option<Real>|
                                computes_binary(*arith, f) && computes_unary(*func, g)
                                implies Err::<Real, EvalFault>(e@) == #[trigger] evaluation(self@, env@, f, g) by {
                                assert(lo == evaluation(b.left@, env@, f, g));
                            }
                        }
                        return Err(e);
                    },
                };
                let rr = b.right.evaluate(env, arith, func);
                let ghost ro = outcome(rr);
                let y = match rr {
                    Ok(y) => y,
                    Err(e) => {
                        proof {
                            assert forall|f: spec_fn(Operator, Real, Real) -> Real, g: spec_fn(Function, Real) -> Option<Real>|
                                computes_binary(*arith, f) && computes_unary(*func, g)
                                implies Err::<Real, EvalFault>(e@) == #[trigger] evaluation(self@, env@, f, g) by {
                                assert(lo == evaluation(b.left@, env@, f, g));
                                assert(ro == evaluation(b.right@, env@, f, g));
                            }
                        }
                        return Err(e);
                    },
                };
                let r = combine(b.operator, x, y, arith);
                proof {
                    assert forall|f: spec_fn(Operator, Real, Real) -> Real, g: spec_fn(Function, Real) -> Option<Real>|
                        computes_binary(*arith, f) && computes_unary(*func, g)
                        implies outcome(r) == #[trigger] evaluation(self@, env@, f, g) by {
                        assert(lo == evaluation(b.left@, env@, f, g));
                        assert(ro == evaluation(b.right@, env@, f, g));
                        assert(outcome(r) == apply_binary(b.operator, x, y, f));
                    }
                }
                r
            },
            Expression::Function(c) => {
                let ar = c.argument.evaluate(env, arith, func);
                let ghost ao = outcome(ar);
                let x = match ar {
                    Ok(x) => x,
                    Err(e) => {
                        proof {
                            assert forall|f: spec_fn(Operator, Real, Real) -> Real, g: spec_fn(Function, Real) -> Option<Real>|
                                computes_binary(*arith, f) && computes_unary(*func, g)
                                implies Err::<Real, EvalFault>(e@) == #[trigger] evaluation(self@, env@, f, g) by {
                                assert(ao == evaluation(c.argument@, env@, f, g));
                            }
                        }
                        return Err(e);
                    },
                };
                let r = call_function(c.function, x, func);
                proof {
                    assert forall|f: spec_fn(Operator, Real, Real) -> Real, g: spec_fn(Function, Real) -> Option<Real>|
                        computes_binary(*arith, f) && computes_unary(*func, g)
                        implies outcome(r) == #[trigger] evaluation(self@, env@, f, g) by {
                        assert(ao == evaluation(c.argument@, env@, f, g));
                        assert(outcome(r) == apply_function(c.function, x, g));
                    }
                }
                r
            },
        }
    }

    /// The text of the tree with minimal parentheses.
    pub fn render<S: Fn(Real) -> String>(&self, show: &S) -> (r: String)
        requires
            accepts_show(*show),
        ensures
            forall|h: spec_fn(Real) -> Seq<char>| computes_show(*show, h)
                ==> r@ == #[trigger] rendering(self@, h),
        decreases self,
    {
        match self {
            Expression::Number(n) => {
                let r = show(n.value);
                proof {
                    assert forall|h: spec_fn(Real) -> Seq<char>| computes_show(*show, h)
                        implies r@ == #[trigger] rendering(self@, h) by {
                        assert(show.ensures((n.value,), r));
                    }
                }
                r
            },
            Expression::Variable(v) => v.name.clone(),
            Expression::Binary(b) => {
                let p = b.operator.precedence();
                let left = b.left.render(show);
                let left = if b.left.precedence() < p { wrap(left) } else { left };
                let right = b.right.render(show);
                let right = if b.right.precedence() <= p { wrap(right) } else { right };
                let mut s = left;
                s.append(" ");
                let sym = b.operator.symbol();
                s.append(sym.as_str());
                s.append(" ");
                s.append(right.as_str());
                proof {
                    reveal_strlit(" ");
                    assert forall|h: spec_fn(Real) -> Seq<char>| computes_show(*show, h)
                        implies s@ == #[trigger] rendering(self@, h) by {
                        assert(left@ == if term_precedence(b.left@) < p {
                            parenthesized(rendering(b.left@, h))
                        } else {
                            rendering(b.left@, h)
                        });
                        assert(right@ == if term_precedence(b.right@) <= p {
                            parenthesized(rendering(b.right@, h))
                        } else {
                            rendering(b.right@, h)
                        });
                        assert(s@ =~= rendering(self@, h));
                    }
                }
                s
            },
            Expression::Function(c) => {
                let mut s = c.function.name();
                let inner = c.argument.render(show);
                let wrapped = wrap(inner);
                s.append(wrapped.as_str());
                proof {
                    assert forall|h: spec_fn(Real) -> Seq<char>| computes_show(*show, h)
                        implies s@ == #[trigger] rendering(self@, h) by {
                        assert(inner@ == rendering(c.argument@, h));
                        assert(s@ =~= rendering(self@, h));
                    }
                }
                s
            },
        }
    }
}

fn wrap(s: String) -> (r: String)
    ensures
        r@ == parenthesized(s@),
{
    let mut r = String::from_str("(");
    r.append(s.as_str());
    r.append(")");
    proof {
        reveal_strlit("(");
        reveal_strlit(")");
        assert(r@ =~= parenthesized(s@));
    }
    r
}

} // verus!
