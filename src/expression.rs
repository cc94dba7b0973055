//! The expression tree, its mathematical model, the variable environment,
//! evaluation and rendering.
use vstd::prelude::*;
use crate::token::{Real, Operator, Function, precedence_of, FUNCTION_PRECEDENCE};

verus! {

/// The model of an expression tree.
pub enum Term {
    Num(Real),
    Var(Seq<char>),
    Bin(Operator, Box<Term>, Box<Term>),
    Call(Function, Box<Term>),
}

/// Leaf node holding a constant.
#[derive(Debug, Clone, Copy)]
pub struct NumberExpression {
    pub value: Real,
}

/// Leaf node naming a variable, resolved against an environment.
#[derive(Debug, Clone)]
pub struct VariableExpression {
    pub name: String,
}

/// An operator applied to two subtrees, each owned by this node.
#[derive(Debug)]
pub struct BinaryOperation {
    pub left: Box<Expression>,
    pub right: Box<Expression>,
    pub operator: Operator,
}

/// A function applied to one subtree, owned by this node.
#[derive(Debug)]
pub struct FunctionCall {
    pub function: Function,
    pub argument: Box<Expression>,
}

/// An expression tree: every interior node owns its children.
#[derive(Debug)]
pub enum Expression {
    Number(NumberExpression),
    Variable(VariableExpression),
    Binary(BinaryOperation),
    Function(FunctionCall),
}

impl Expression {
    pub open spec fn model(&self) -> Term
        decreases self,
    {
        match self {
            Expression::Number(n) => Term::Num(n.value),
            Expression::Variable(v) => Term::Var(v.name@),
            Expression::Binary(b) => Term::Bin(b.operator, Box::new(b.left.model()), Box::new(b.right.model())),
            Expression::Function(c) => Term::Call(c.function, Box::new(c.argument.model())),
        }
    }
}

impl View for Expression {
    type V = Term;

    open spec fn view(&self) -> Term {
        self.model()
    }
}

impl NumberExpression {
    pub fn new(value: Real) -> (r: NumberExpression)
        ensures
            r.value == value,
    {
        NumberExpression { value }
    }
}

impl VariableExpression {
    pub fn new(name: String) -> (r: VariableExpression)
        ensures
            r.name@ == name@,
    {
        VariableExpression { name }
    }
}

impl BinaryOperation {
    pub fn new(left: Box<Expression>, right: Box<Expression>, operator: Operator) -> (r: BinaryOperation)
        ensures
            r.left@ == left@,
            r.right@ == right@,
            r.operator == operator,
    {
        BinaryOperation { left, right, operator }
    }
}

impl FunctionCall {
    pub fn new(function: Function, argument: Box<Expression>) -> (r: FunctionCall)
        ensures
            r.function == function,
            r.argument@ == argument@,
    {
        FunctionCall { function, argument }
    }
}

/// Binding strength of the root of a tree; leaves and function calls are
/// atoms and bind at least as tightly as any operator.
pub open spec fn term_precedence(t: Term) -> u8 {
    match t {
        Term::Bin(op, _, _) => precedence_of(op),
        _ => FUNCTION_PRECEDENCE,
    }
}

impl Expression {
    pub fn number(value: Real) -> (r: Expression)
        ensures
            r@ == Term::Num(value),
    {
        Expression::Number(NumberExpression::new(value))
    }

    pub fn variable(name: String) -> (r: Expression)
        ensures
            r@ == Term::Var(name@),
    {
        Expression::Variable(VariableExpression::new(name))
    }

    pub fn binary(operator: Operator, left: Expression, right: Expression) -> (r: Expression)
        ensures
            r@ == Term::Bin(operator, Box::new(left@), Box::new(right@)),
    {
        Expression::Binary(BinaryOperation::new(Box::new(left), Box::new(right), operator))
    }

    pub fn call(function: Function, argument: Expression) -> (r: Expression)
        ensures
            r@ == Term::Call(function, Box::new(argument@)),
    {
        Expression::Function(FunctionCall::new(function, Box::new(argument)))
    }

    pub fn precedence(&self) -> (r: u8)
        ensures
            r == term_precedence(self@),
    {
        match self {
            Expression::Binary(b) => b.operator.precedence(),
            _ => FUNCTION_PRECEDENCE,
        }
    }

    /// A deep copy.
    pub fn duplicate(&self) -> (r: Expression)
        ensures
            r@ == self@,
        decreases self,
    {
        match self {
            Expression::Number(n) => Expression::Number(NumberExpression { value: n.value }),
            Expression::Variable(v) => Expression::Variable(VariableExpression { name: v.name.clone() }),
            Expression::Binary(b) => {
                let left = b.left.duplicate();
                let right = b.right.duplicate();
                Expression::binary(b.operator, left, right)
            },
            Expression::Function(c) => {
                let argument = c.argument.duplicate();
                Expression::call(c.function, argument)
            },
        }
    }

    /// The constant held by a number node.
    pub fn constant(&self) -> (r: Option<Real>)
        ensures
            r == constant_of(self@),
    {
        match self {
            Expression::Number(n) => Some(n.value),
            _ => None,
        }
    }
}

pub open spec fn constant_of(t: Term) -> Option<Real> {
    match t {
        Term::Num(v) => Some(v),
        _ => None,
    }
}

} // verus!
