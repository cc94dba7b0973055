//! The whole pipeline, text to value: lexing, one of the two parsers, then
//! evaluation.
use vstd::prelude::*;
use crate::token::{Real, Operator, Function, Token, Lexeme};
use crate::expression::{Term, Expression};
use crate::environment::Environment;
use crate::lexer::{LexError, tokenize, lexing, lex_outcome, accepts_read, computes_read};
use crate::parser::{
    ParseError, ParseFault, RecursiveDescentEvaluator, ShuntingYardEvaluator, rd_parse, sy_parse,
    parse_outcome,
};
use crate::evaluation::{
    EvalError, EvalFault, evaluation, outcome, accepts_binary, accepts_unary, computes_binary,
    computes_unary,
};

verus! {

/// A failure at any stage of the pipeline.
#[derive(Debug, Clone)]
pub enum CalcError {
    Lex(LexError),
    Parse(ParseError),
    Eval(EvalError),
}

pub enum CalcFault {
    Lex(Seq<char>),
    Parse(ParseFault),
    Eval(EvalFault),
}

impl View for CalcError {
    type V = CalcFault;

    open spec fn view(&self) -> CalcFault {
        match self {
            CalcError::Lex(LexError::InvalidToken(u)) => CalcFault::Lex(u@),
            CalcError::Parse(e) => CalcFault::Parse(e@),
            CalcError::Eval(e) => CalcFault::Eval(e@),
        }
    }
}

pub open spec fn calc_outcome<T: View>(r: Result<T, CalcError>) -> Result<T::V, CalcFault> {
    match r {
        Ok(v) => Ok(v@),
        Err(e) => Err(e@),
    }
}

/// Text to tree, with the given parser.
pub open spec fn text_to_tree(
    s: Seq<char>,
    p: spec_fn(Seq<char>) -> Option<Real>,
    parse: spec_fn(Seq<Lexeme>) -> Result<Term, ParseFault>,
) -> Result<Term, CalcFault> {
    match lexing(s, p) {
        Err(u) => Err(CalcFault::Lex(u)),
        Ok(ts) => match parse(ts) {
            Err(e) => Err(CalcFault::Parse(e)),
            Ok(t) => Ok(t),
        },
    }
}

/// Text to value, with the given parser.
pub open spec fn text_value(
    s: Seq<char>,
    env: Map<Seq<char>, Real>,
    p: spec_fn(Seq<char>) -> Option<Real>,
    parse: spec_fn(Seq<Lexeme>) -> Result<Term, ParseFault>,
    f: spec_fn(Operator, Real, Real) -> Real,
    g: spec_fn(Function, Real) -> Option<Real>,
) -> Result<Real, CalcFault> {
    match text_to_tree(s, p, parse) {
        Err(e) => Err(e),
        Ok(t) => match evaluation(t, env, f, g) {
            Err(e) => Err(CalcFault::Eval(e)),
            Ok(v) => Ok(v),
        },
    }
}

pub open spec fn rd_spec() -> spec_fn(Seq<Lexeme>) -> Result<Term, ParseFault> {
    |ts: Seq<Lexeme>| rd_parse(ts)
}

pub open spec fn sy_spec() -> spec_fn(Seq<Lexeme>) -> Result<Term, ParseFault> {
    |ts: Seq<Lexeme>| sy_parse(ts)
}

/// Splits text into tokens.
pub struct SimpleTokenizer;

impl SimpleTokenizer {
    pub fn new() -> (r: SimpleTokenizer) {
        SimpleTokenizer
    }

    pub fn tokenize<R: Fn(String) -> Option<Real>>(&self, input: &str, read: &R) -> (r: Result<Vec<Token>, LexError>)
        requires
            accepts_read(*read),
        ensures
            forall|p: spec_fn(Seq<char>) -> Option<Real>| #[trigger] computes_read(*read, p)
                ==> lex_outcome(r) == lexing(input@, p),
    {
        tokenize(input, read)
    }
}

/// Evaluates a tree as it stands.
pub struct StandardEvaluator;

impl StandardEvaluator {
    pub fn new() -> (r: StandardEvaluator) {
        StandardEvaluator
    }

    pub fn evaluate<B, U>(&self, expression: &Expression, env: &Environment, arith: &B, func: &U) -> (r: Result<Real, EvalError>)
        where
            B: Fn(Operator, Real, Real) -> Real,
            U: Fn(Function, Real) -> Option<Real>,
        requires
            accepts_binary(*arith),
            accepts_unary(*func),
        ensures
            forall|f: spec_fn(Operator, Real, Real) -> Real, g: spec_fn(Function, Real) -> Option<Real>|
                computes_binary(*arith, f) && computes_unary(*func, g)
                    ==> outcome(r) == #[trigger] evaluation(expression@, env@, f, g),
    {
        expression.evaluate(env, arith, func)
    }
}

/// Text to tree with the shunting-yard parser.
pub struct ExpressionParser;

impl ExpressionParser {
    pub fn new() -> (r: ExpressionParser) {
        ExpressionParser
    }

    pub fn parse<R: Fn(String) -> Option<Real>>(&self, expression: &str, read: &R) -> (r: Result<Expression, CalcError>)
        requires
            accepts_read(*read),
        ensures
            forall|p: spec_fn(Seq<char>) -> Option<Real>| #[trigger] computes_read(*read, p)
                ==> calc_outcome(r) == text_to_tree(expression@, p, sy_spec()),
    {
        let tokens = match tokenize(expression, read) {
            Ok(ts) => ts,
            Err(e) => return Err(CalcError::Lex(e)),
        };
        match ShuntingYardEvaluator::new().parse(&tokens) {
            Ok(t) => Ok(t),
            Err(e) => Err(CalcError::Parse(e)),
        }
    }
}

/// The last stage, shared by both evaluators: a parse outcome evaluated.
fn finish_evaluation<B, U>(parsed: Result<Expression, ParseError>, env: &Environment, arith: &B, func: &U) -> (r: Result<Real, CalcError>)
    where
        B: Fn(Operator, Real, Real) -> Real,
        U: Fn(Function, Real) -> Option<Real>,
    requires
        accepts_binary(*arith),
        accepts_unary(*func),
    ensures
        forall|f: spec_fn(Operator, Real, Real) -> Real, g: spec_fn(Function, Real) -> Option<Real>|
            computes_binary(*arith, f) && computes_unary(*func, g)
                ==> #[trigger] calc_real(r) == match parse_outcome(parsed) {
                    Err(e) => Err(CalcFault::Parse(e)),
                    Ok(t) => match evaluation(t, env@, f, g) {
                        Err(e) => Err(CalcFault::Eval(e)),
                        Ok(v) => Ok(v),
                    },
                },
{
    match parsed {
        Err(e) => Err(CalcError::Parse(e)),
        Ok(t) => match t.evaluate(env, arith, func) {
            Ok(v) => Ok(v),
            Err(e) => Err(CalcError::Eval(e)),
        },
    }
}

pub open spec fn calc_real(r: Result<Real, CalcError>) -> Result<Real, CalcFault> {
    match r {
        Ok(v) => Ok(v),
        Err(e) => Err(e@),
    }
}

impl RecursiveDescentEvaluator {
    /// Lexes, parses with recursive descent, and evaluates.
    pub fn evaluate<R, B, U>(&self, expression: &str, env: &Environment, read: &R, arith: &B, func: &U) -> (r: Result<Real, CalcError>)
        where
            R: Fn(String) -> Option<Real>,
            B: Fn(Operator, Real, Real) -> Real,
            U: Fn(Function, Real) -> Option<Real>,
        requires
            accepts_read(*read),
            accepts_binary(*arith),
            accepts_unary(*func),
        ensures
            forall|p: spec_fn(Seq<char>) -> Option<Real>, f: spec_fn(Operator, Real, Real) -> Real, g: spec_fn(Function, Real) -> Option<Real>|
                computes_read(*read, p) && computes_binary(*arith, f) && computes_unary(*func, g)
                    ==> calc_real(r) == #[trigger] text_value(expression@, env@, p, rd_spec(), f, g),
    {
        let tokens = match tokenize(expression, read) {
            Ok(ts) => ts,
            Err(e) => return Err(CalcError::Lex(e)),
        };
        let parsed = self.parse(&tokens);
        finish_evaluation(parsed, env, arith, func)
    }
}

impl ShuntingYardEvaluator {
    /// Lexes, parses with the shunting-yard algorithm, and evaluates.
    pub fn evaluate<R, B, U>(&self, expression: &str, env: &Environment, read: &R, arith: &B, func: &U) -> (r: Result<Real, CalcError>)
        where
            R: Fn(String) -> Option<Real>,
            B: Fn(Operator, Real, Real) -> Real,
            U: Fn(Function, Real) -> Option<Real>,
        requires
            accepts_read(*read),
            accepts_binary(*arith),
            accepts_unary(*func),
        ensures
            forall|p: spec_fn(Seq<char>) -> Option<Real>, f: spec_fn(Operator, Real, Real) -> Real, g: spec_fn(Function, Real) -> Option<Real>|
                computes_read(*read, p) && computes_binary(*arith, f) && computes_unary(*func, g)
                    ==> calc_real(r) == #[trigger] text_value(expression@, env@, p, sy_spec(), f, g),
    {
        let tokens = match tokenize(expression, read) {
            Ok(ts) => ts,
            Err(e) => return Err(CalcError::Lex(e)),
        };
        let parsed = self.parse(&tokens);
        finish_evaluation(parsed, env, arith, func)
    }
}

} // verus!
