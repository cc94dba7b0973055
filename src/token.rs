//! Tokens and the scalar they carry.
use vstd::prelude::*;

verus! {

/// The sign bit of a binary64 encoding.
pub const SIGN_BIT: u64 = 0x8000_0000_0000_0000;

/// The encoding of positive infinity; larger magnitudes are NaN.
pub const INFINITY_BITS: u64 = 0x7ff0_0000_0000_0000;

/// The encoding of `1.0`.
pub const ONE_BITS: u64 = 0x3ff0_0000_0000_0000;

/// An IEEE-754 binary64 value, held as its bit pattern.
#[derive(Debug, Clone, Copy, PartialEq, Eq, Structural)]
pub struct Real {
    pub bits: u64,
}

impl Real {
    /// The bits without the sign.
    pub open spec fn magnitude(self) -> int {
        if self.bits >= SIGN_BIT {
            self.bits - SIGN_BIT
        } else {
            self.bits as int
        }
    }

    /// Equal to `0.0` under floating-point comparison (both zeros).
    pub open spec fn spec_is_zero(self) -> bool {
        self.magnitude() == 0
    }

    /// Exactly `1.0`.
    pub open spec fn spec_is_one(self) -> bool {
        self.bits == ONE_BITS
    }

    pub open spec fn spec_is_nan(self) -> bool {
        self.magnitude() > INFINITY_BITS
    }

    /// Less than `0.0` under floating-point comparison: the sign is set and
    /// the value is neither a zero nor a NaN.
    pub open spec fn spec_is_negative(self) -> bool {
        self.bits >= SIGN_BIT && 0 < self.magnitude() <= INFINITY_BITS
    }

    pub fn zero() -> (r: Real)
        ensures
            r.bits == 0,
            r.spec_is_zero(),
    {
        Real { bits: 0 }
    }

    pub fn one() -> (r: Real)
        ensures
            r.bits == ONE_BITS,
            r.spec_is_one(),
    {
        Real { bits: ONE_BITS }
    }

    pub fn from_bits(bits: u64) -> (r: Real)
        ensures
            r.bits == bits,
    {
        Real { bits }
    }

    pub fn is_zero(&self) -> (r: bool)
        ensures
            r == self.spec_is_zero(),
    {
        self.bits == 0 || self.bits == SIGN_BIT
    }

    pub fn is_one(&self) -> (r: bool)
        ensures
            r == self.spec_is_one(),
    {
        self.bits == ONE_BITS
    }

    pub fn is_negative(&self) -> (r: bool)
        ensures
            r == self.spec_is_negative(),
    {
        self.bits > SIGN_BIT && self.bits - SIGN_BIT <= INFINITY_BITS
    }
}

/// How a number literal was written.
#[derive(Debug, Clone, Copy, PartialEq, Eq, Structural)]
pub enum NumberFormat {
    Decimal,
    Scientific,
    Engineering,
}

#[derive(Debug, Clone, Copy, PartialEq, Eq, Structural)]
pub enum Operator {
    Add,
    Subtract,
    Multiply,
    Divide,
    Power,
}

#[derive(Debug, Clone, Copy, PartialEq, Eq, Structural)]
pub enum Function {
    Sin,
    Cos,
    Tan,
    Sqrt,
}

/// The payload of a number token: its value and the way it was written.
#[derive(Debug, Clone, Copy, PartialEq, Eq, Structural)]
pub struct Number {
    pub value: Real,
    pub format: NumberFormat,
}

impl Number {
    pub fn new(value: Real) -> (r: Number)
        ensures
            r == (Number { value, format: NumberFormat::Decimal }),
    {
        Number { value, format: NumberFormat::Decimal }
    }

    pub fn with_format(value: Real, format: NumberFormat) -> (r: Number)
        ensures
            r == (Number { value, format }),
    {
        Number { value, format }
    }
}

/// Binding strength of a binary operator; function application binds at
/// `FUNCTION_PRECEDENCE`, above every operator.
pub open spec fn precedence_of(op: Operator) -> u8 {
    match op {
        Operator::Add | Operator::Subtract => 1,
        Operator::Multiply | Operator::Divide => 2,
        Operator::Power => 3,
    }
}

pub const FUNCTION_PRECEDENCE: u8 = 4;

pub open spec fn symbol_of(op: Operator) -> Seq<char> {
    match op {
        Operator::Add => seq!['+'],
        Operator::Subtract => seq!['-'],
        Operator::Multiply => seq!['*'],
        Operator::Divide => seq!['/'],
        Operator::Power => seq!['^'],
    }
}

pub open spec fn function_name(f: Function) -> Seq<char> {
    match f {
        Function::Sin => seq!['s', 'i', 'n'],
        Function::Cos => seq!['c', 'o', 's'],
        Function::Tan => seq!['t', 'a', 'n'],
        Function::Sqrt => seq!['s', 'q', 'r', 't'],
    }
}

impl Operator {
    pub fn precedence(&self) -> (r: u8)
        ensures
            r == precedence_of(*self),
    {
        match self {
            Operator::Add | Operator::Subtract => 1,
            Operator::Multiply | Operator::Divide => 2,
            Operator::Power => 3,
        }
    }

    pub fn symbol(&self) -> (r: String)
        ensures
            r@ == symbol_of(*self),
    {
        let s = match self {
            Operator::Add => "+",
            Operator::Subtract => "-",
            Operator::Multiply => "*",
            Operator::Divide => "/",
            Operator::Power => "^",
        };
        proof {
            reveal_strlit("+");
            reveal_strlit("-");
            reveal_strlit("*");
            reveal_strlit("/");
            reveal_strlit("^");
        }
        String::from_str(s)
    }
}

impl Function {
    pub fn name(&self) -> (r: String)
        ensures
            r@ == function_name(*self),
    {
        let s = match self {
            Function::Sin => "sin",
            Function::Cos => "cos",
            Function::Tan => "tan",
            Function::Sqrt => "sqrt",
        };
        proof {
            reveal_strlit("sin");
            reveal_strlit("cos");
            reveal_strlit("tan");
            reveal_strlit("sqrt");
        }
        String::from_str(s)
    }
}

/// A lexical unit.
#[derive(Debug, Clone)]
pub enum Token {
    Number(Number),
    Operator(Operator),
    Function(Function),
    Variable(String),
    OpenParen,
    CloseParen,
}

/// What a token is, with the variable's name as characters.
pub enum Lexeme {
    Number(Number),
    Operator(Operator),
    Function(Function),
    Variable(Seq<char>),
    OpenParen,
    CloseParen,
}

impl View for Token {
    type V = Lexeme;

    open spec fn view(&self) -> Lexeme {
        match self {
            Token::Number(n) => Lexeme::Number(*n),
            Token::Operator(op) => Lexeme::Operator(*op),
            Token::Function(f) => Lexeme::Function(*f),
            Token::Variable(name) => Lexeme::Variable(name@),
            Token::OpenParen => Lexeme::OpenParen,
            Token::CloseParen => Lexeme::CloseParen,
        }
    }
}

impl Token {
    pub fn number(value: Real) -> (r: Token)
        ensures
            r@ == Lexeme::Number(Number { value, format: NumberFormat::Decimal }),
    {
        Token::Number(Number::new(value))
    }

    pub fn scientific_number(value: Real) -> (r: Token)
        ensures
            r@ == Lexeme::Number(Number { value, format: NumberFormat::Scientific }),
    {
        Token::Number(Number::with_format(value, NumberFormat::Scientific))
    }

    pub fn operator(op: Operator) -> (r: Token)
        ensures
            r@ == Lexeme::Operator(op),
    {
        Token::Operator(op)
    }

    pub fn function(func: Function) -> (r: Token)
        ensures
            r@ == Lexeme::Function(func),
    {
        Token::Function(func)
    }

    pub fn variable(name: String) -> (r: Token)
        ensures
            r@ == Lexeme::Variable(name@),
    {
        Token::Variable(name)
    }

    /// A copy with the same view.
    pub fn duplicate(&self) -> (r: Token)
        ensures
            r@ == self@,
    {
        match self {
            Token::Number(n) => Token::Number(*n),
            Token::Operator(op) => Token::Operator(*op),
            Token::Function(f) => Token::Function(*f),
            Token::Variable(name) => Token::Variable(name.clone()),
            Token::OpenParen => Token::OpenParen,
            Token::CloseParen => Token::CloseParen,
        }
    }
}

} // verus!
