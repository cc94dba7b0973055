//! Tree-to-tree rewriting: constant propagation and folding with algebraic
//! simplification, and static validation.
use vstd::prelude::*;
use crate::token::{Real, Operator, Function, ONE_BITS};
use crate::expression::{Term, Expression, constant_of};
use crate::environment::Environment;
use crate::evaluation::{
    EvalError, EvalFault, apply_binary, apply_function, combine, call_function,
    accepts_binary, accepts_unary, computes_binary, computes_unary,
};

verus! {

pub open spec fn is_zero_constant(t: Term) -> bool {
    t matches Term::Num(v) && v.spec_is_zero()
}

pub open spec fn is_one_constant(t: Term) -> bool {
    t matches Term::Num(v) && v.spec_is_one()
}

pub open spec fn zero_term() -> Term {
    Term::Num(Real { bits: 0 })
}

pub open spec fn one_term() -> Term {
    Term::Num(Real { bits: ONE_BITS })
}

/// The algebraic identities, tried in order; a node that none of them
/// matches is rebuilt as it is.
pub open spec fn identity(op: Operator, l: Term, r: Term) -> Term {
    if op == Operator::Multiply && is_zero_constant(r) {
        zero_term()
    } else if op == Operator::Multiply && is_zero_constant(l) {
        zero_term()
    } else if op == Operator::Multiply && is_one_constant(r) {
        l
    } else if op == Operator::Multiply && is_one_constant(l) {
        r
    } else if op == Operator::Add && is_zero_constant(r) {
        l
    } else if op == Operator::Add && is_zero_constant(l) {
        r
    } else if op == Operator::Subtract && is_zero_constant(r) {
        l
    } else if op == Operator::Divide && is_one_constant(r) {
        l
    } else if op == Operator::Divide && is_zero_constant(l) {
        zero_term()
    } else if op == Operator::Power && is_zero_constant(r) {
        one_term()
    } else if op == Operator::Power && is_one_constant(r) {
        l
    } else if op == Operator::Power && is_one_constant(l) {
        one_term()
    } else {
        Term::Bin(op, Box::new(l), Box::new(r))
    }
}

/// Folds a node whose operands are both constants, else simplifies it.
pub open spec fn simplify(
    op: Operator,
    l: Term,
    r: Term,
    f: spec_fn(Operator, Real, Real) -> Real,
) -> Result<Term, EvalFault> {
    match (l, r) {
        (Term::Num(x), Term::Num(y)) => match apply_binary(op, x, y, f) {
            Ok(v) => Ok(Term::Num(v)),
            Err(e) => Err(e),
        },
        _ => Ok(identity(op, l, r)),
    }
}

/// The optimized tree: children first; bound variables become constants,
/// constant operands are folded, identities are applied.
pub open spec fn optimization(
    t: Term,
    env: Map<Seq<char>, Real>,
    f: spec_fn(Operator, Real, Real) -> Real,
    g: spec_fn(Function, Real) -> Option<Real>,
) -> Result<Term, EvalFault>
    decreases t,
{
    match t {
        Term::Num(v) => Ok(Term::Num(v)),
        Term::Var(x) => if env.contains_key(x) {
            Ok(Term::Num(env[x]))
        } else {
            Ok(Term::Var(x))
        },
        Term::Bin(op, l, r) => match optimization(*l, env, f, g) {
            Err(e) => Err(e),
            Ok(l2) => match optimization(*r, env, f, g) {
                Err(e) => Err(e),
                Ok(r2) => simplify(op, l2, r2, f),
            },
        },
        Term::Call(fun, a) => match optimization(*a, env, f, g) {
            Err(e) => Err(e),
            Ok(Term::Num(x)) => match apply_function(fun, x, g) {
                Ok(v) => Ok(Term::Num(v)),
                Err(e) => Err(e),
            },
            Ok(a2) => Ok(Term::Call(fun, Box::new(a2))),
        },
    }
}

/// A tree that optimization leaves as it is: no bound variable, no operator
/// node with two constant operands or matching an identity, no function
/// node with a constant argument.
pub open spec fn is_optimized(t: Term, env: Map<Seq<char>, Real>) -> bool
    decreases t,
{
    match t {
        Term::Num(_) => true,
        Term::Var(x) => !env.contains_key(x),
        Term::Bin(op, l, r) => {
            &&& is_optimized(*l, env)
            &&& is_optimized(*r, env)
            &&& !(constant_of(*l) is Some && constant_of(*r) is Some)
            &&& identity(op, *l, *r) == t
        },
        Term::Call(_, a) => is_optimized(*a, env) && constant_of(*a) is None,
    }
}

pub proof fn lemma_identity_shape(op: Operator, l: Term, r: Term)
    ensures
        ({
            let t = identity(op, l, r);
            t == l || t == r || t == zero_term() || t == one_term()
                || t == Term::Bin(op, Box::new(l), Box::new(r))
        }),
{
}

/// A failure met while folding constants.
#[derive(Debug, Clone)]
pub struct RewriteError {
    pub error: EvalError,
}

pub open spec fn rewrite_outcome(r: Result<Expression, RewriteError>) -> Result<Term, EvalFault> {
    match r {
        Ok(e) => Ok(e@),
        Err(e) => Err(e.error@),
    }
}

fn apply_identity(op: Operator, l: Expression, r: Expression) -> (e: Expression)
    ensures
        e@ == identity(op, l@, r@),
{
    let lz = match l.constant() { Some(v) => v.is_zero(), None => false };
    let lo = match l.constant() { Some(v) => v.is_one(), None => false };
    let rz = match r.constant() { Some(v) => v.is_zero(), None => false };
    let ro = match r.constant() { Some(v) => v.is_one(), None => false };
    assert(lz == is_zero_constant(l@) && lo == is_one_constant(l@));
    assert(rz == is_zero_constant(r@) && ro == is_one_constant(r@));
    match op {
        Operator::Multiply => if rz || lz {
            Expression::number(Real::zero())
        } else if ro {
            l
        } else if lo {
            r
        } else {
            Expression::binary(op, l, r)
        },
        Operator::Add => if rz {
            l
        } else if lz {
            r
        } else {
            Expression::binary(op, l, r)
        },
        Operator::Subtract => if rz {
            l
        } else {
            Expression::binary(op, l, r)
        },
        Operator::Divide => if ro {
            l
        } else if lz {
            Expression::number(Real::zero())
        } else {
            Expression::binary(op, l, r)
        },
        Operator::Power => if rz {
            Expression::number(Real::one())
        } else if ro {
            l
        } else if lo {
            Expression::number(Real::one())
        } else {
            Expression::binary(op, l, r)
        },
    }
}

impl Expression {
    /// A new tree with constants propagated and folded and identities
    /// applied; the tree itself is left as it is.
    pub fn optimize<B, U>(&self, env: &Environment, arith: &B, func: &U) -> (r: Result<Expression, RewriteError>)
        where
            B: Fn(Operator, Real, Real) -> Real,
            U: Fn(Function, Real) -> Option<Real>,
        requires
            accepts_binary(*arith),
            accepts_unary(*func),
        ensures
            forall|f: spec_fn(Operator, Real, Real) -> Real, g: spec_fn(Function, Real) -> Option<Real>|
                computes_binary(*arith, f) && computes_unary(*func, g)
                    ==> rewrite_outcome(r) == #[trigger] optimization(self@, env@, f, g),
            r matches Ok(o) ==> is_optimized(o@, env@),
            is_optimized(self@, env@) ==> (r matches Ok(o) && o@ == self@),
        decreases self,
    {
        match self {
            Expression::Number(n) => Ok(Expression::number(n.value)),
            Expression::Variable(v) => match env.get(&v.name) {
                Some(x) => Ok(Expression::number(x)),
                None => Ok(Expression::variable(v.name.clone())),
            },
            Expression::Binary(b) => {
                let lr = b.left.optimize(env, arith, func);
                let ghost lo = rewrite_outcome(lr);
                let l = match lr {
                    Ok(l) => l,
                    Err(e) => {
                        proof {
                            assert forall|f: spec_fn(Operator, Real, Real) -> Real, g: spec_fn(Function, Real) -> Option<Real>|
                                computes_binary(*arith, f) && computes_unary(*func, g)
                                implies Err::<Term, EvalFault>(e.error@) == #[trigger] optimization(self@, env@, f, g) by {
                                assert(lo == optimization(b.left@, env@, f, g));
                            }
                        }
                        return Err(e);
                    },
                };
                let rr = b.right.optimize(env, arith, func);
                let ghost ro = rewrite_outcome(rr);
                let r = match rr {
                    Ok(r) => r,
                    Err(e) => {
                        proof {
                            assert forall|f: spec_fn(Operator, Real, Real) -> Real, g: spec_fn(Function, Real) -> Option<Real>|
                                computes_binary(*arith, f) && computes_unary(*func, g)
                                implies Err::<Term, EvalFault>(e.error@) == #[trigger] optimization(self@, env@, f, g) by {
                                assert(lo == optimization(b.left@, env@, f, g));
                                assert(ro == optimization(b.right@, env@, f, g));
                            }
                        }
                        return Err(e);
                    },
                };
                let ghost lm = l@;
                let ghost rm = r@;
                let result = match (l.constant(), r.constant()) {
                    (Some(x), Some(y)) => match combine(b.operator, x, y, arith) {
                        Ok(v) => Ok(Expression::number(v)),
                        Err(e) => Err(RewriteError { error: e }),
                    },
                    _ => Ok(apply_identity(b.operator, l, r)),
                };
                proof {
                    lemma_identity_shape(b.operator, lm, rm);
                    assert forall|f: spec_fn(Operator, Real, Real) -> Real, g: spec_fn(Function, Real) -> Option<Real>|
                        computes_binary(*arith, f) && computes_unary(*func, g)
                        implies rewrite_outcome(result) == #[trigger] optimization(self@, env@, f, g) by {
                        assert(lo == optimization(b.left@, env@, f, g));
                        assert(ro == optimization(b.right@, env@, f, g));
                    }
                }
                result
            },
            Expression::Function(c) => {
                let ar = c.argument.optimize(env, arith, func);
                let ghost ao = rewrite_outcome(ar);
                let a = match ar {
                    Ok(a) => a,
                    Err(e) => {
                        proof {
                            assert forall|f: spec_fn(Operator, Real, Real) -> Real, g: spec_fn(Function, Real) -> Option<Real>|
                                computes_binary(*arith, f) && computes_unary(*func, g)
                                implies Err::<Term, EvalFault>(e.error@) == #[trigger] optimization(self@, env@, f, g) by {
                                assert(ao == optimization(c.argument@, env@, f, g));
                            }
                        }
                        return Err(e);
                    },
                };
                let result = match a.constant() {
                    Some(x) => match call_function(c.function, x, func) {
                        Ok(v) => Ok(Expression::number(v)),
                        Err(e) => Err(RewriteError { error: e }),
                    },
                    None => Ok(Expression::call(c.function, a)),
                };
                proof {
                    assert forall|f: spec_fn(Operator, Real, Real) -> Real, g: spec_fn(Function, Real) -> Option<Real>|
                        computes_binary(*arith, f) && computes_unary(*func, g)
                        implies rewrite_outcome(result) == #[trigger] optimization(self@, env@, f, g) by {
                        assert(ao == optimization(c.argument@, env@, f, g));
                    }
                }
                result
            },
        }
    }
}

/// A fault that validation finds in a tree without evaluating it.
#[derive(Debug, Clone, Copy, PartialEq, Eq, Structural)]
pub enum Issue {
    /// A division whose right operand is the constant zero.
    DivisionByZero,
    /// A square root of a negative constant.
    NegativeSquareRoot,
    /// A tangent of a constant at which it is undefined.
    TangentUndefined,
}

pub open spec fn issue_text(i: Issue) -> Seq<char> {
    match i {
        Issue::DivisionByZero => "Division by zero"@,
        Issue::NegativeSquareRoot => "Cannot take square root of negative number"@,
        Issue::TangentUndefined => "Tangent undefined at this value"@,
    }
}

impl Issue {
    pub fn message(&self) -> (r: String)
        ensures
            r@ == issue_text(*self),
    {
        match self {
            Issue::DivisionByZero => String::from_str("Division by zero"),
            Issue::NegativeSquareRoot => String::from_str("Cannot take square root of negative number"),
            Issue::TangentUndefined => String::from_str("Tangent undefined at this value"),
        }
    }
}

/// The faults a node itself shows, from its operator and constant operands.
pub open spec fn node_issues(t: Term, g: spec_fn(Function, Real) -> Option<Real>) -> Seq<Issue> {
    match t {
        Term::Bin(Operator::Divide, _, r) => if is_zero_constant(*r) {
            seq![Issue::DivisionByZero]
        } else {
            seq![]
        },
        Term::Call(Function::Sqrt, a) => match *a {
            Term::Num(x) => if x.spec_is_negative() { seq![Issue::NegativeSquareRoot] } else { seq![] },
            _ => seq![],
        },
        Term::Call(Function::Tan, a) => match *a {
            Term::Num(x) => if g(Function::Tan, x) is None { seq![Issue::TangentUndefined] } else { seq![] },
            _ => seq![],
        },
        _ => seq![],
    }
}

/// Every fault of the tree, in order: an operator node after its left
/// subtree and before its right one, a function node after its argument.
pub open spec fn issues(t: Term, g: spec_fn(Function, Real) -> Option<Real>) -> Seq<Issue>
    decreases t,
{
    match t {
        Term::Num(_) | Term::Var(_) => seq![],
        Term::Bin(_, l, r) => issues(*l, g) + node_issues(t, g) + issues(*r, g),
        Term::Call(_, a) => issues(*a, g) + node_issues(t, g),
    }
}

/// The faults found by validation; never empty.
#[derive(Debug, Clone)]
pub struct ValidationError {
    pub issues: Vec<Issue>,
}

impl ValidationError {
    /// The descriptions of the faults, joined by `"; "`.
    pub fn message(&self) -> (r: String)
        ensures
            r@ == joined_text(self.issues@),
    {
        let mut r = String::new();
        let mut i: usize = 0;
        while i < self.issues.len()
            invariant
                i <= self.issues.len(),
                r@ == joined_text(self.issues@.take(i as int)),
            decreases self.issues.len() - i,
        {
            if i > 0 {
                r.append("; ");
            }
            let m = self.issues[i].message();
            r.append(m.as_str());
            proof {
                reveal_strlit("; ");
                let s = self.issues@.take(i as int + 1);
                assert(s.drop_last() =~= self.issues@.take(i as int));
                assert(s.last() == self.issues@[i as int]);
            }
            i += 1;
        }
        proof {
            assert(self.issues@.take(self.issues.len() as int) =~= self.issues@);
        }
        r
    }
}

/// The descriptions of `s` joined by `"; "`.
pub open spec fn joined_text(s: Seq<Issue>) -> Seq<char>
    decreases s.len(),
{
    if s.len() == 0 {
        seq![]
    } else if s.len() == 1 {
        issue_text(s[0])
    } else {
        joined_text(s.drop_last()) + "; "@ + issue_text(s.last())
    }
}

/// Collects the faults of trees into its list, one tree after another.
pub struct ValidationVisitor {
    pub issues: Vec<Issue>,
}

impl ValidationVisitor {
    pub fn new() -> (r: ValidationVisitor)
        ensures
            r.issues@ == Seq::<Issue>::empty(),
    {
        ValidationVisitor { issues: Vec::new() }
    }

    /// Appends the faults of `expr` to the list.
    pub fn visit<U: Fn(Function, Real) -> Option<Real>>(&mut self, expr: &Expression, func: &U)
        requires
            accepts_unary(*func),
        ensures
            forall|g: spec_fn(Function, Real) -> Option<Real>| computes_unary(*func, g)
                ==> final(self).issues@ == old(self).issues@ + #[trigger] issues(expr@, g),
        decreases expr,
    {
        let ghost start = self.issues@;
        match expr {
            Expression::Number(_) | Expression::Variable(_) => {
                proof {
                    assert(self.issues@ =~= start + Seq::<Issue>::empty());
                }
            },
            Expression::Binary(b) => {
                self.visit(&b.left, func);
                let ghost mid = self.issues@;
                let divides_by_zero = match b.operator {
                    Operator::Divide => match b.right.constant() {
                        Some(v) => v.is_zero(),
                        None => false,
                    },
                    _ => false,
                };
                if divides_by_zero {
                    self.issues.push(Issue::DivisionByZero);
                }
                let ghost mid2 = self.issues@;
                self.visit(&b.right, func);
                proof {
                    assert forall|g: spec_fn(Function, Real) -> Option<Real>| computes_unary(*func, g)
                        implies self.issues@ == start + #[trigger] issues(expr@, g) by {
                        assert(mid2 =~= mid + node_issues(expr@, g));
                        assert(self.issues@ =~= start + (issues(b.left@, g) + node_issues(expr@, g) + issues(b.right@, g)));
                    }
                }
            },
            Expression::Function(c) => {
                self.visit(&c.argument, func);
                let ghost mid = self.issues@;
                match c.function {
                    Function::Sqrt => match c.argument.constant() {
                        Some(v) => if v.is_negative() {
                            self.issues.push(Issue::NegativeSquareRoot);
                        },
                        None => {},
                    },
                    Function::Tan => match c.argument.constant() {
                        Some(v) => if func(Function::Tan, v).is_none() {
                            self.issues.push(Issue::TangentUndefined);
                        },
                        None => {},
                    },
                    _ => {},
                }
                proof {
                    assert forall|g: spec_fn(Function, Real) -> Option<Real>| computes_unary(*func, g)
                        implies self.issues@ == start + #[trigger] issues(expr@, g) by {
                        assert(self.issues@ =~= mid + node_issues(expr@, g));
                        assert(self.issues@ =~= start + (issues(c.argument@, g) + node_issues(expr@, g)));
                    }
                }
            },
        }
    }

    /// Validates `expr`: succeeds when the list, with the faults of `expr`
    /// added, is empty, else fails with the whole list.
    pub fn validate<U: Fn(Function, Real) -> Option<Real>>(&mut self, expr: &Expression, func: &U) -> (r: Result<(), ValidationError>)
        requires
            accepts_unary(*func),
        ensures
            forall|g: spec_fn(Function, Real) -> Option<Real>| computes_unary(*func, g)
                ==> final(self).issues@ == old(self).issues@ + #[trigger] issues(expr@, g),
            r is Ok <==> final(self).issues@.len() == 0,
            r matches Err(e) ==> e.issues@ == final(self).issues@,
    {
        self.visit(expr, func);
        if self.issues.len() == 0 {
            Ok(())
        } else {
            Err(ValidationError { issues: self.issues.clone() })
        }
    }
}

/// Validates a tree on its own: the error lists every fault that its
/// constants show, and there is one exactly when the list is not empty.
pub fn validate_expression<U: Fn(Function, Real) -> Option<Real>>(expr: &Expression, func: &U) -> (r: Result<(), ValidationError>)
    requires
        accepts_unary(*func),
    ensures
        forall|g: spec_fn(Function, Real) -> Option<Real>| computes_unary(*func, g)
            ==> (match r {
                Ok(()) => issues(expr@, g).len() == 0,
                Err(e) => e.issues@ == issues(expr@, g) && e.issues@.len() > 0,
            }),
{
    let mut visitor = ValidationVisitor::new();
    let r = visitor.validate(expr, func);
    proof {
        assert forall|g: spec_fn(Function, Real) -> Option<Real>| computes_unary(*func, g)
            implies visitor.issues@ =~= #[trigger] issues(expr@, g) by {
            assert(visitor.issues@ == Seq::<Issue>::empty() + issues(expr@, g));
        }
    }
    r
}

/// Optimizes trees against fixed bindings, keeping the last result.
pub struct OptimizationVisitor {
    pub variables: Environment,
    pub optimized_expression: Option<Expression>,
}

impl OptimizationVisitor {
    pub fn new(variables: Environment) -> (r: OptimizationVisitor)
        ensures
            r.variables@ == variables@,
            r.optimized_expression is None,
    {
        OptimizationVisitor { variables, optimized_expression: None }
    }

    /// Optimizes `expr` against the bindings; a result is also kept in
    /// `optimized_expression`, a failure leaves the last one there.
    pub fn optimize<B, U>(&mut self, expr: &Expression, arith: &B, func: &U) -> (r: Result<Expression, RewriteError>)
        where
            B: Fn(Operator, Real, Real) -> Real,
            U: Fn(Function, Real) -> Option<Real>,
        requires
            accepts_binary(*arith),
            accepts_unary(*func),
        ensures
            final(self).variables@ == old(self).variables@,
            forall|f: spec_fn(Operator, Real, Real) -> Real, g: spec_fn(Function, Real) -> Option<Real>|
                computes_binary(*arith, f) && computes_unary(*func, g)
                    ==> rewrite_outcome(r) == #[trigger] optimization(expr@, old(self).variables@, f, g),
            r matches Ok(o) ==> is_optimized(o@, old(self).variables@),
            is_optimized(expr@, old(self).variables@) ==> (r matches Ok(o) && o@ == expr@),
            match r {
                Ok(e) => final(self).optimized_expression matches Some(kept) && kept@ == e@,
                Err(_) => final(self).optimized_expression == old(self).optimized_expression,
            },
    {
        let r = expr.optimize(&self.variables, arith, func);
        match r {
            Ok(e) => {
                self.optimized_expression = Some(e.duplicate());
                Ok(e)
            },
            Err(e) => Err(e),
        }
    }
}

/// Optimizes a tree against `env`.
pub fn optimize_expression<B, U>(expr: &Expression, env: &Environment, arith: &B, func: &U) -> (r: Result<Expression, RewriteError>)
    where
        B: Fn(Operator, Real, Real) -> Real,
        U: Fn(Function, Real) -> Option<Real>,
    requires
        accepts_binary(*arith),
        accepts_unary(*func),
    ensures
        forall|f: spec_fn(Operator, Real, Real) -> Real, g: spec_fn(Function, Real) -> Option<Real>|
            computes_binary(*arith, f) && computes_unary(*func, g)
                ==> rewrite_outcome(r) == #[trigger] optimization(expr@, env@, f, g),
        r matches Ok(o) ==> is_optimized(o@, env@),
        is_optimized(expr@, env@) ==> (r matches Ok(o) && o@ == expr@),
{
    expr.optimize(env, arith, func)
}

} // verus!
