//! Parsing: the recursive-descent parser and the shunting-yard parser.
use vstd::prelude::*;
use crate::token::{Operator, Function, Token, Lexeme, precedence_of};
use crate::expression::{Term, Expression};

verus! {

#[derive(Debug, Clone)]
pub enum ParseError {
    UnmatchedParen,
    InsufficientOperands,
    TrailingValues,
    UnexpectedEndOfInput,
    UnexpectedToken(Token),
}

pub enum ParseFault {
    UnmatchedParen,
    InsufficientOperands,
    TrailingValues,
    UnexpectedEndOfInput,
    UnexpectedToken(Lexeme),
}

impl View for ParseError {
    type V = ParseFault;

    open spec fn view(&self) -> ParseFault {
        match self {
            ParseError::UnmatchedParen => ParseFault::UnmatchedParen,
            ParseError::InsufficientOperands => ParseFault::InsufficientOperands,
            ParseError::TrailingValues => ParseFault::TrailingValues,
            ParseError::UnexpectedEndOfInput => ParseFault::UnexpectedEndOfInput,
            ParseError::UnexpectedToken(t) => ParseFault::UnexpectedToken(t@),
        }
    }
}

pub open spec fn parse_outcome(r: Result<Expression, ParseError>) -> Result<Term, ParseFault> {
    match r {
        Ok(e) => Ok(e@),
        Err(e) => Err(e@),
    }
}

pub open spec fn step_outcome(r: Result<(Expression, usize), ParseError>) -> Result<(Term, int), ParseFault> {
    match r {
        Ok((e, p)) => Ok((e@, p as int)),
        Err(e) => Err(e@),
    }
}

pub open spec fn views(ts: Seq<Token>) -> Seq<Lexeme> {
    ts.map_values(|t: Token| t@)
}

/// `Expr := Term (('+' | '-') Term)*`, from position `pos`; the result is
/// the tree and the position after it.
pub open spec fn rd_expr(ts: Seq<Lexeme>, pos: int) -> Result<(Term, int), ParseFault>
    decreases ts.len() - pos, 4int,
{
    if pos < 0 || pos > ts.len() {
        Err(ParseFault::UnexpectedEndOfInput)
    } else {
        match rd_term(ts, pos) {
            Err(e) => Err(e),
            Ok((t, q)) => if pos < q <= ts.len() {
                rd_expr_tail(ts, t, q)
            } else {
                Err(ParseFault::UnexpectedEndOfInput)
            },
        }
    }
}

pub open spec fn is_additive(l: Lexeme) -> bool {
    l matches Lexeme::Operator(op) && precedence_of(op) == 1
}

pub open spec fn is_multiplicative(l: Lexeme) -> bool {
    l matches Lexeme::Operator(op) && precedence_of(op) == 2
}

pub open spec fn is_power(l: Lexeme) -> bool {
    l == Lexeme::Operator(Operator::Power)
}

pub open spec fn rd_expr_tail(ts: Seq<Lexeme>, left: Term, pos: int) -> Result<(Term, int), ParseFault>
    decreases ts.len() - pos, 1int,
{
    if 0 <= pos < ts.len() && is_additive(ts[pos]) {
        let op = ts[pos]->Operator_0;
        match rd_term(ts, pos + 1) {
            Err(e) => Err(e),
            Ok((r, q)) => if pos < q <= ts.len() {
                rd_expr_tail(ts, Term::Bin(op, Box::new(left), Box::new(r)), q)
            } else {
                Err(ParseFault::UnexpectedEndOfInput)
            },
        }
    } else {
        Ok((left, pos))
    }
}

/// `Term := Power (('*' | '/') Power)*`.
pub open spec fn rd_term(ts: Seq<Lexeme>, pos: int) -> Result<(Term, int), ParseFault>
    decreases ts.len() - pos, 3int,
{
    if pos < 0 || pos > ts.len() {
        Err(ParseFault::UnexpectedEndOfInput)
    } else {
        match rd_power(ts, pos) {
            Err(e) => Err(e),
            Ok((t, q)) => if pos < q <= ts.len() {
                rd_term_tail(ts, t, q)
            } else {
                Err(ParseFault::UnexpectedEndOfInput)
            },
        }
    }
}

pub open spec fn rd_term_tail(ts: Seq<Lexeme>, left: Term, pos: int) -> Result<(Term, int), ParseFault>
    decreases ts.len() - pos, 1int,
{
    if 0 <= pos < ts.len() && is_multiplicative(ts[pos]) {
        let op = ts[pos]->Operator_0;
        match rd_power(ts, pos + 1) {
            Err(e) => Err(e),
            Ok((r, q)) => if pos < q <= ts.len() {
                rd_term_tail(ts, Term::Bin(op, Box::new(left), Box::new(r)), q)
            } else {
                Err(ParseFault::UnexpectedEndOfInput)
            },
        }
    } else {
        Ok((left, pos))
    }
}

/// `Power := Factor ('^' Factor)*`, grouped to the left.
pub open spec fn rd_power(ts: Seq<Lexeme>, pos: int) -> Result<(Term, int), ParseFault>
    decreases ts.len() - pos, 2int,
{
    if pos < 0 || pos > ts.len() {
        Err(ParseFault::UnexpectedEndOfInput)
    } else {
        match rd_factor(ts, pos) {
            Err(e) => Err(e),
            Ok((t, q)) => if pos < q <= ts.len() {
                rd_power_tail(ts, t, q)
            } else {
                Err(ParseFault::UnexpectedEndOfInput)
            },
        }
    }
}

pub open spec fn rd_power_tail(ts: Seq<Lexeme>, left: Term, pos: int) -> Result<(Term, int), ParseFault>
    decreases ts.len() - pos, 1int,
{
    if 0 <= pos < ts.len() && is_power(ts[pos]) {
        match rd_factor(ts, pos + 1) {
            Err(e) => Err(e),
            Ok((r, q)) => if pos < q <= ts.len() {
                rd_power_tail(ts, Term::Bin(Operator::Power, Box::new(left), Box::new(r)), q)
            } else {
                Err(ParseFault::UnexpectedEndOfInput)
            },
        }
    } else {
        Ok((left, pos))
    }
}

/// The closing parenthesis expected at `pos`.
pub open spec fn rd_close(ts: Seq<Lexeme>, pos: int) -> Option<ParseFault> {
    if pos >= ts.len() {
        Some(ParseFault::UnmatchedParen)
    } else if ts[pos] is CloseParen {
        None
    } else {
        Some(ParseFault::UnexpectedToken(ts[pos]))
    }
}

/// `Factor := Number | Variable | Function '(' Expr ')' | '(' Expr ')'`.
pub open spec fn rd_factor(ts: Seq<Lexeme>, pos: int) -> Result<(Term, int), ParseFault>
    decreases ts.len() - pos, 0int,
{
    if pos < 0 || pos >= ts.len() {
        Err(ParseFault::UnexpectedEndOfInput)
    } else {
        match ts[pos] {
            Lexeme::Number(n) => Ok((Term::Num(n.value), pos + 1)),
            Lexeme::Variable(x) => Ok((Term::Var(x), pos + 1)),
            Lexeme::Function(f) => if pos + 1 >= ts.len() {
                Err(ParseFault::UnexpectedEndOfInput)
            } else if !(ts[pos + 1] is OpenParen) {
                Err(ParseFault::UnexpectedToken(ts[pos + 1]))
            } else {
                match rd_expr(ts, pos + 2) {
                    Err(e) => Err(e),
                    Ok((a, q)) => match rd_close(ts, q) {
                        Some(e) => Err(e),
                        None => Ok((Term::Call(f, Box::new(a)), q + 1)),
                    },
                }
            },
            Lexeme::OpenParen => match rd_expr(ts, pos + 1) {
                Err(e) => Err(e),
                Ok((a, q)) => match rd_close(ts, q) {
                    Some(e) => Err(e),
                    None => Ok((a, q + 1)),
                },
            },
            other => Err(ParseFault::UnexpectedToken(other)),
        }
    }
}

/// The whole sequence as one expression.
pub open spec fn rd_parse(ts: Seq<Lexeme>) -> Result<Term, ParseFault> {
    match rd_expr(ts, 0) {
        Err(e) => Err(e),
        Ok((t, q)) => if q == ts.len() {
            Ok(t)
        } else {
            Err(ParseFault::UnexpectedToken(ts[q]))
        },
    }
}

/// The precedence-climbing parser.
pub struct RecursiveDescentEvaluator;

impl RecursiveDescentEvaluator {
    pub fn new() -> (r: RecursiveDescentEvaluator) {
        RecursiveDescentEvaluator
    }

    pub fn parse(&self, tokens: &Vec<Token>) -> (r: Result<Expression, ParseError>)
        ensures
            parse_outcome(r) == rd_parse(views(tokens@)),
    {
        let ghost ts = views(tokens@);
        match self.expr(tokens, 0) {
            Err(e) => Err(e),
            Ok((t, q)) => if q == tokens.len() {
                Ok(t)
            } else {
                Err(ParseError::UnexpectedToken(tokens[q].duplicate()))
            },
        }
    }

    fn expr(&self, tokens: &Vec<Token>, pos: usize) -> (r: Result<(Expression, usize), ParseError>)
        requires
            pos <= tokens.len(),
        ensures
            step_outcome(r) == rd_expr(views(tokens@), pos as int),
            r matches Ok((_, q)) ==> pos < q <= tokens.len(),
        decreases tokens.len() - pos, 4int,
    {
        let ghost ts = views(tokens@);
        let (mut left, mut p) = match self.term(tokens, pos) {
            Ok(x) => x,
            Err(e) => return Err(e),
        };
        while p < tokens.len() && is_additive_token(&tokens[p])
            invariant
                pos < p <= tokens.len(),
                ts == views(tokens@),
                rd_expr(ts, pos as int) == rd_expr_tail(ts, left@, p as int),
            decreases tokens.len() - p,
        {
            let op = operator_at(tokens, p);
            let (right, q) = match self.term(tokens, p + 1) {
                Ok(x) => x,
                Err(e) => return Err(e),
            };
            left = Expression::binary(op, left, right);
            p = q;
        }
        Ok((left, p))
    }

    fn term(&self, tokens: &Vec<Token>, pos: usize) -> (r: Result<(Expression, usize), ParseError>)
        requires
            pos <= tokens.len(),
        ensures
            step_outcome(r) == rd_term(views(tokens@), pos as int),
            r matches Ok((_, q)) ==> pos < q <= tokens.len(),
        decreases tokens.len() - pos, 3int,
    {
        let ghost ts = views(tokens@);
        let (mut left, mut p) = match self.power(tokens, pos) {
            Ok(x) => x,
            Err(e) => return Err(e),
        };
        while p < tokens.len() && is_multiplicative_token(&tokens[p])
            invariant
                pos < p <= tokens.len(),
                ts == views(tokens@),
                rd_term(ts, pos as int) == rd_term_tail(ts, left@, p as int),
            decreases tokens.len() - p,
        {
            let op = operator_at(tokens, p);
            let (right, q) = match self.power(tokens, p + 1) {
                Ok(x) => x,
                Err(e) => return Err(e),
            };
            left = Expression::binary(op, left, right);
            p = q;
        }
        Ok((left, p))
    }

    fn power(&self, tokens: &Vec<Token>, pos: usize) -> (r: Result<(Expression, usize), ParseError>)
        requires
            pos <= tokens.len(),
        ensures
            step_outcome(r) == rd_power(views(tokens@), pos as int),
            r matches Ok((_, q)) ==> pos < q <= tokens.len(),
        decreases tokens.len() - pos, 2int,
    {
        let ghost ts = views(tokens@);
        let (mut left, mut p) = match self.factor(tokens, pos) {
            Ok(x) => x,
            Err(e) => return Err(e),
        };
        while p < tokens.len() && is_power_token(&tokens[p])
            invariant
                pos < p <= tokens.len(),
                ts == views(tokens@),
                rd_power(ts, pos as int) == rd_power_tail(ts, left@, p as int),
            decreases tokens.len() - p,
        {
            proof {
                assert(ts[p as int] == tokens@[p as int]@);
            }
            let (right, q) = match self.factor(tokens, p + 1) {
                Ok(x) => x,
                Err(e) => return Err(e),
            };
            left = Expression::binary(Operator::Power, left, right);
            p = q;
        }
        Ok((left, p))
    }

    fn factor(&self, tokens: &Vec<Token>, pos: usize) -> (r: Result<(Expression, usize), ParseError>)
        requires
            pos <= tokens.len(),
        ensures
            step_outcome(r) == rd_factor(views(tokens@), pos as int),
            r matches Ok((_, q)) ==> pos < q <= tokens.len(),
        decreases tokens.len() - pos, 0int,
    {
        let ghost ts = views(tokens@);
        if pos >= tokens.len() {
            return Err(ParseError::UnexpectedEndOfInput);
        }
        assert(ts[pos as int] == tokens@[pos as int]@);
        match &tokens[pos] {
            Token::Number(n) => Ok((Expression::number(n.value), pos + 1)),
            Token::Variable(x) => Ok((Expression::variable(x.clone()), pos + 1)),
            Token::Function(f) => {
                if pos + 1 >= tokens.len() {
                    return Err(ParseError::UnexpectedEndOfInput);
                }
                assert(ts[pos + 1] == tokens@[pos + 1]@);
                match &tokens[pos + 1] {
                    Token::OpenParen => {},
                    other => return Err(ParseError::UnexpectedToken(other.duplicate())),
                }
                let (a, q) = match self.expr(tokens, pos + 2) {
                    Ok(x) => x,
                    Err(e) => return Err(e),
                };
                match self.close(tokens, q) {
                    Some(e) => Err(e),
                    None => Ok((Expression::call(*f, a), q + 1)),
                }
            },
            Token::OpenParen => {
                let (a, q) = match self.expr(tokens, pos + 1) {
                    Ok(x) => x,
                    Err(e) => return Err(e),
                };
                match self.close(tokens, q) {
                    Some(e) => Err(e),
                    None => Ok((a, q + 1)),
                }
            },
            other => Err(ParseError::UnexpectedToken(other.duplicate())),
        }
    }

    fn close(&self, tokens: &Vec<Token>, pos: usize) -> (r: Option<ParseError>)
        ensures
            match r {
                Some(e) => rd_close(views(tokens@), pos as int) == Some(e@),
                None => rd_close(views(tokens@), pos as int) is None && pos < tokens.len(),
            },
    {
        if pos >= tokens.len() {
            return Some(ParseError::UnmatchedParen);
        }
        assert(views(tokens@)[pos as int] == tokens@[pos as int]@);
        match &tokens[pos] {
            Token::CloseParen => None,
            other => Some(ParseError::UnexpectedToken(other.duplicate())),
        }
    }
}

fn is_additive_token(t: &Token) -> (r: bool)
    ensures
        r == is_additive(t@),
{
    match t {
        Token::Operator(op) => op.precedence() == 1,
        _ => false,
    }
}

fn is_multiplicative_token(t: &Token) -> (r: bool)
    ensures
        r == is_multiplicative(t@),
{
    match t {
        Token::Operator(op) => op.precedence() == 2,
        _ => false,
    }
}

fn is_power_token(t: &Token) -> (r: bool)
    ensures
        r == is_power(t@),
{
    match t {
        Token::Operator(Operator::Power) => true,
        _ => false,
    }
}

fn operator_at(tokens: &Vec<Token>, p: usize) -> (op: Operator)
    requires
        p < tokens.len(),
        tokens@[p as int]@ is Operator,
    ensures
        views(tokens@)[p as int] == Lexeme::Operator(op),
{
    match &tokens[p] {
        Token::Operator(op) => *op,
        _ => Operator::Add,
    }
}

/// What waits on the shunting-yard stack.
#[derive(Debug, Clone, Copy, PartialEq, Eq, Structural)]
pub enum Pending {
    Operator(Operator),
    Function(Function),
    OpenParen,
}

pub open spec fn terms(es: Seq<Expression>) -> Seq<Term> {
    es.map_values(|e: Expression| e@)
}

/// The top two values combined by `op`.
pub open spec fn sy_reduce(out: Seq<Term>, op: Operator) -> Result<Seq<Term>, ParseFault> {
    if out.len() < 2 {
        Err(ParseFault::InsufficientOperands)
    } else {
        Ok(out.take(out.len() - 2).push(Term::Bin(op, Box::new(out[out.len() - 2]), Box::new(out.last()))))
    }
}

/// Before `op` is pushed, every operator on top of the stack that binds at
/// least as tightly is applied.
pub open spec fn sy_pop_higher(out: Seq<Term>, stack: Seq<Pending>, op: Operator) -> Result<(Seq<Term>, Seq<Pending>), ParseFault>
    decreases stack.len(),
{
    if stack.len() == 0 {
        Ok((out, stack))
    } else {
        match stack.last() {
            Pending::Operator(top) => if precedence_of(top) >= precedence_of(op) {
                match sy_reduce(out, top) {
                    Err(e) => Err(e),
                    Ok(o) => sy_pop_higher(o, stack.drop_last(), op),
                }
            } else {
                Ok((out, stack))
            },
            _ => Ok((out, stack)),
        }
    }
}

/// A closing parenthesis: operators are applied down to the matching open
/// one, and a function waiting under it is applied to the value.
pub open spec fn sy_close(out: Seq<Term>, stack: Seq<Pending>) -> Result<(Seq<Term>, Seq<Pending>), ParseFault>
    decreases stack.len(),
{
    if stack.len() == 0 {
        Err(ParseFault::UnmatchedParen)
    } else {
        let rest = stack.drop_last();
        match stack.last() {
            Pending::OpenParen => if rest.len() > 0 && rest.last() is Function {
                if out.len() == 0 {
                    Err(ParseFault::InsufficientOperands)
                } else {
                    Ok((out.drop_last().push(Term::Call(rest.last()->Function_0, Box::new(out.last()))), rest.drop_last()))
                }
            } else {
                Ok((out, rest))
            },
            Pending::Operator(op) => match sy_reduce(out, op) {
                Err(e) => Err(e),
                Ok(o) => sy_close(o, rest),
            },
            Pending::Function(f) => Err(ParseFault::UnexpectedToken(Lexeme::Function(f))),
        }
    }
}

pub open spec fn sy_token(out: Seq<Term>, stack: Seq<Pending>, t: Lexeme) -> Result<(Seq<Term>, Seq<Pending>), ParseFault> {
    match t {
        Lexeme::Number(n) => Ok((out.push(Term::Num(n.value)), stack)),
        Lexeme::Variable(x) => Ok((out.push(Term::Var(x)), stack)),
        Lexeme::Operator(op) => match sy_pop_higher(out, stack, op) {
            Err(e) => Err(e),
            Ok((o, s)) => Ok((o, s.push(Pending::Operator(op)))),
        },
        Lexeme::Function(f) => Ok((out, stack.push(Pending::Function(f)))),
        Lexeme::OpenParen => Ok((out, stack.push(Pending::OpenParen))),
        Lexeme::CloseParen => sy_close(out, stack),
    }
}

/// The state after reading every token.
pub open spec fn sy_run(ts: Seq<Lexeme>) -> Result<(Seq<Term>, Seq<Pending>), ParseFault>
    decreases ts.len(),
{
    if ts.len() == 0 {
        Ok((seq![], seq![]))
    } else {
        match sy_run(ts.drop_last()) {
            Err(e) => Err(e),
            Ok((o, s)) => sy_token(o, s, ts.last()),
        }
    }
}

/// The end of input: the operators left are applied last-in first-out; a
/// parenthesis or function left over is an error.
pub open spec fn sy_finish(out: Seq<Term>, stack: Seq<Pending>) -> Result<Seq<Term>, ParseFault>
    decreases stack.len(),
{
    if stack.len() == 0 {
        Ok(out)
    } else {
        match stack.last() {
            Pending::Operator(op) => match sy_reduce(out, op) {
                Err(e) => Err(e),
                Ok(o) => sy_finish(o, stack.drop_last()),
            },
            Pending::OpenParen => Err(ParseFault::UnmatchedParen),
            Pending::Function(f) => Err(ParseFault::UnexpectedToken(Lexeme::Function(f))),
        }
    }
}

/// Exactly one value must be left.
pub open spec fn sy_single(out: Seq<Term>) -> Result<Term, ParseFault> {
    if out.len() == 1 {
        Ok(out[0])
    } else if out.len() == 0 {
        Err(ParseFault::UnexpectedEndOfInput)
    } else {
        Err(ParseFault::TrailingValues)
    }
}

pub open spec fn sy_parse(ts: Seq<Lexeme>) -> Result<Term, ParseFault> {
    match sy_run(ts) {
        Err(e) => Err(e),
        Ok((o, s)) => match sy_finish(o, s) {
            Err(e) => Err(e),
            Ok(o2) => sy_single(o2),
        },
    }
}

fn reduce(out: &mut Vec<Expression>, op: Operator) -> (r: Result<(), ParseError>)
    ensures
        sy_reduce(terms(old(out)@), op) == match r {
            Ok(_) => Ok(terms(final(out)@)),
            Err(e) => Err::<Seq<Term>, ParseFault>(e@),
        },
{
    if out.len() < 2 {
        return Err(ParseError::InsufficientOperands);
    }
    let ghost before = terms(out@);
    let right = out.pop().unwrap();
    let left = out.pop().unwrap();
    out.push(Expression::binary(op, left, right));
    proof {
        assert(terms(out@) =~= before.take(before.len() - 2).push(
            Term::Bin(op, Box::new(before[before.len() - 2]), Box::new(before.last())),
        ));
    }
    Ok(())
}

fn pop_higher(out: &mut Vec<Expression>, stack: &mut Vec<Pending>, op: Operator) -> (r: Result<(), ParseError>)
    ensures
        sy_pop_higher(terms(old(out)@), old(stack)@, op) == match r {
            Ok(_) => Ok((terms(final(out)@), final(stack)@)),
            Err(e) => Err::<(Seq<Term>, Seq<Pending>), ParseFault>(e@),
        },
{
    let ghost goal = sy_pop_higher(terms(out@), stack@, op);
    loop
        invariant
            goal == sy_pop_higher(terms(out@), stack@, op),
            goal == sy_pop_higher(terms(old(out)@), old(stack)@, op),
        decreases stack.len(),
    {
        if stack.len() == 0 {
            return Ok(());
        }
        let top = stack[stack.len() - 1];
        match top {
            Pending::Operator(t) => {
                if t.precedence() < op.precedence() {
                    return Ok(());
                }
                stack.pop();
                match reduce(out, t) {
                    Ok(_) => {},
                    Err(e) => return Err(e),
                }
            },
            _ => return Ok(()),
        }
    }
}

fn close(out: &mut Vec<Expression>, stack: &mut Vec<Pending>) -> (r: Result<(), ParseError>)
    ensures
        sy_close(terms(old(out)@), old(stack)@) == match r {
            Ok(_) => Ok((terms(final(out)@), final(stack)@)),
            Err(e) => Err::<(Seq<Term>, Seq<Pending>), ParseFault>(e@),
        },
{
    let ghost goal = sy_close(terms(out@), stack@);
    loop
        invariant
            goal == sy_close(terms(out@), stack@),
            goal == sy_close(terms(old(out)@), old(stack)@),
        decreases stack.len(),
    {
        let top = match stack.pop() {
            Some(t) => t,
            None => return Err(ParseError::UnmatchedParen),
        };
        match top {
            Pending::OpenParen => {
                if stack.len() > 0 {
                    if let Pending::Function(f) = stack[stack.len() - 1] {
                        stack.pop();
                        let ghost before = terms(out@);
                        let arg = match out.pop() {
                            Some(a) => a,
                            None => return Err(ParseError::InsufficientOperands),
                        };
                        out.push(Expression::call(f, arg));
                        proof {
                            assert(terms(out@) =~= before.drop_last().push(Term::Call(f, Box::new(before.last()))));
                        }
                    }
                }
                return Ok(());
            },
            Pending::Operator(op) => {
                match reduce(out, op) {
                    Ok(_) => {},
                    Err(e) => return Err(e),
                }
            },
            Pending::Function(f) => return Err(ParseError::UnexpectedToken(Token::Function(f))),
        }
    }
}

fn finish(out: &mut Vec<Expression>, stack: &mut Vec<Pending>) -> (r: Result<(), ParseError>)
    ensures
        sy_finish(terms(old(out)@), old(stack)@) == match r {
            Ok(_) => Ok(terms(final(out)@)),
            Err(e) => Err::<Seq<Term>, ParseFault>(e@),
        },
{
    let ghost goal = sy_finish(terms(out@), stack@);
    loop
        invariant
            goal == sy_finish(terms(out@), stack@),
            goal == sy_finish(terms(old(out)@), old(stack)@),
        decreases stack.len(),
    {
        let top = match stack.pop() {
            Some(t) => t,
            None => return Ok(()),
        };
        match top {
            Pending::Operator(op) => {
                match reduce(out, op) {
                    Ok(_) => {},
                    Err(e) => return Err(e),
                }
            },
            Pending::OpenParen => return Err(ParseError::UnmatchedParen),
            Pending::Function(f) => return Err(ParseError::UnexpectedToken(Token::Function(f))),
        }
    }
}

/// The operator-precedence parser.
pub struct ShuntingYardEvaluator;

impl ShuntingYardEvaluator {
    pub fn new() -> (r: ShuntingYardEvaluator) {
        ShuntingYardEvaluator
    }

    pub fn parse(&self, tokens: &Vec<Token>) -> (r: Result<Expression, ParseError>)
        ensures
            parse_outcome(r) == sy_parse(views(tokens@)),
    {
        let ghost ts = views(tokens@);
        let mut out: Vec<Expression> = Vec::new();
        let mut stack: Vec<Pending> = Vec::new();
        let mut i: usize = 0;
        proof {
            assert(ts.take(0) =~= Seq::<Lexeme>::empty());
            assert(terms(out@) =~= Seq::<Term>::empty());
        }
        while i < tokens.len()
            invariant
                i <= tokens.len(),
                ts == views(tokens@),
                sy_run(ts.take(i as int)) == Ok::<(Seq<Term>, Seq<Pending>), ParseFault>((terms(out@), stack@)),
            decreases tokens.len() - i,
        {
            proof {
                assert(ts.take(i as int + 1).drop_last() =~= ts.take(i as int));
                assert(ts.take(i as int + 1).last() == tokens@[i as int]@);
            }
            let ghost before = terms(out@);
            let step = match &tokens[i] {
                Token::Number(n) => {
                    out.push(Expression::number(n.value));
                    proof {
                        assert(terms(out@) =~= before.push(Term::Num(n.value)));
                    }
                    Ok(())
                },
                Token::Variable(x) => {
                    out.push(Expression::variable(x.clone()));
                    proof {
                        assert(terms(out@) =~= before.push(Term::Var(x@)));
                    }
                    Ok(())
                },
                Token::Operator(op) => {
                    match pop_higher(&mut out, &mut stack, *op) {
                        Ok(_) => {
                            stack.push(Pending::Operator(*op));
                            Ok(())
                        },
                        Err(e) => Err(e),
                    }
                },
                Token::Function(f) => {
                    stack.push(Pending::Function(*f));
                    Ok(())
                },
                Token::OpenParen => {
                    stack.push(Pending::OpenParen);
                    Ok(())
                },
                Token::CloseParen => close(&mut out, &mut stack),
            };
            match step {
                Ok(_) => {},
                Err(e) => {
                    proof {
                        lemma_sy_run_stops(ts, i as int);
                    }
                    return Err(e);
                },
            }
            i += 1;
        }
        proof {
            assert(ts.take(tokens.len() as int) =~= ts);
        }
        match finish(&mut out, &mut stack) {
            Ok(_) => {},
            Err(e) => return Err(e),
        }
        if out.len() == 1 {
            let e = out.pop().unwrap();
            proof {
                assert(terms(out@.push(e))[0] == e@);
            }
            Ok(e)
        } else if out.len() == 0 {
            Err(ParseError::UnexpectedEndOfInput)
        } else {
            Err(ParseError::TrailingValues)
        }
    }
}

/// A failure while reading a token is the failure of the whole run.
proof fn lemma_sy_run_stops(ts: Seq<Lexeme>, i: int)
    requires
        0 <= i < ts.len(),
        sy_run(ts.take(i + 1)) is Err,
    ensures
        sy_run(ts) == sy_run(ts.take(i + 1)),
    decreases ts.len() - i,
{
    if i + 1 == ts.len() {
        assert(ts.take(i + 1) =~= ts);
    } else {
        assert(ts.take(i + 2).drop_last() =~= ts.take(i + 1));
        lemma_sy_run_stops(ts, i + 1);
    }
}

} // verus!
