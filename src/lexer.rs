//! The lexer: splits a line on whitespace and classifies each unit.
use vstd::prelude::*;
use crate::token::{
    Real, Number, NumberFormat, Operator, Function, Token, Lexeme, symbol_of, function_name,
};

verus! {

/// The characters with the Unicode `White_Space` property.
pub open spec fn is_white(c: char) -> bool {
    let n = c as u32;
    (0x09 <= n <= 0x0d) || n == 0x20 || n == 0x85 || n == 0xa0 || n == 0x1680
        || (0x2000 <= n <= 0x200a) || n == 0x2028 || n == 0x2029 || n == 0x202f
        || n == 0x205f || n == 0x3000
}

fn is_white_char(c: char) -> (r: bool)
    ensures
        r == is_white(c),
{
    let n = c as u32;
    (0x09 <= n && n <= 0x0d) || n == 0x20 || n == 0x85 || n == 0xa0 || n == 0x1680
        || (0x2000 <= n && n <= 0x200a) || n == 0x2028 || n == 0x2029 || n == 0x202f
        || n == 0x205f || n == 0x3000
}

/// The maximal runs of non-whitespace characters of `s`, in order.
pub open spec fn units(s: Seq<char>) -> Seq<Seq<char>>
    decreases s.len(),
{
    if s.len() == 0 {
        seq![]
    } else {
        let init = s.drop_last();
        let c = s.last();
        let us = units(init);
        if is_white(c) {
            us
        } else if init.len() == 0 || is_white(init.last()) {
            us.push(seq![c])
        } else {
            us.drop_last().push(us.last().push(c))
        }
    }
}

/// Is `c` alphanumeric in the sense of Unicode (`Alphabetic` or `Numeric`).
pub uninterp spec fn alphanumeric(c: char) -> bool;

/// Relies on `char::is_alphanumeric`: whether the character has the Unicode
/// Alphabetic or Numeric property, a function of the character alone.
#[verifier::external_body]
fn is_alphanumeric(c: char) -> (r: bool)
    ensures
        r == alphanumeric(c),
{
    c.is_alphanumeric()
}

/// Which characters of `u` are alphanumeric.
pub open spec fn letters_of(u: Seq<char>) -> Seq<bool> {
    Seq::new(u.len(), |i: int| alphanumeric(u[i]))
}

/// Every character is alphanumeric (as `letters` tells) or `_`.
pub open spec fn is_name(u: Seq<char>, letters: Seq<bool>) -> bool {
    forall|i: int| 0 <= i < u.len() ==> #[trigger] letters[i] || u[i] == '_'
}

/// The unit is a fixed symbol: an operator, a function name or a
/// parenthesis.
pub open spec fn keyword(u: Seq<char>) -> Option<Lexeme> {
    if u == symbol_of(Operator::Add) {
        Some(Lexeme::Operator(Operator::Add))
    } else if u == symbol_of(Operator::Subtract) {
        Some(Lexeme::Operator(Operator::Subtract))
    } else if u == symbol_of(Operator::Multiply) {
        Some(Lexeme::Operator(Operator::Multiply))
    } else if u == symbol_of(Operator::Divide) {
        Some(Lexeme::Operator(Operator::Divide))
    } else if u == symbol_of(Operator::Power) {
        Some(Lexeme::Operator(Operator::Power))
    } else if u == function_name(Function::Sin) {
        Some(Lexeme::Function(Function::Sin))
    } else if u == function_name(Function::Cos) {
        Some(Lexeme::Function(Function::Cos))
    } else if u == function_name(Function::Tan) {
        Some(Lexeme::Function(Function::Tan))
    } else if u == function_name(Function::Sqrt) {
        Some(Lexeme::Function(Function::Sqrt))
    } else if u == seq!['('] {
        Some(Lexeme::OpenParen)
    } else if u == seq![')'] {
        Some(Lexeme::CloseParen)
    } else {
        None
    }
}

pub open spec fn literal_format(u: Seq<char>) -> NumberFormat {
    if u.contains('e') || u.contains('E') {
        NumberFormat::Scientific
    } else {
        NumberFormat::Decimal
    }
}

/// One unit's token, given what the backend read from it and which of its
/// characters are alphanumeric: a number where a value was read, else a
/// symbol, else a variable name; `None` for a unit that is none of these.
pub open spec fn classify_from(u: Seq<char>, reading: Option<Real>, letters: Seq<bool>) -> Option<Lexeme> {
    match reading {
        Some(v) => Some(Lexeme::Number(Number { value: v, format: literal_format(u) })),
        None => match keyword(u) {
            Some(k) => Some(k),
            None => if is_name(u, letters) {
                Some(Lexeme::Variable(u))
            } else {
                None
            },
        },
    }
}

/// One unit's token, with the backend reading numbers.
pub open spec fn classify(u: Seq<char>, p: spec_fn(Seq<char>) -> Option<Real>) -> Option<Lexeme> {
    classify_from(u, p(u), letters_of(u))
}

/// The tokens of a sequence of units, or the first unit that has none.
pub open spec fn lex_units(us: Seq<Seq<char>>, p: spec_fn(Seq<char>) -> Option<Real>) -> Result<Seq<Lexeme>, Seq<char>>
    decreases us.len(),
{
    if us.len() == 0 {
        Ok(seq![])
    } else {
        match lex_units(us.drop_last(), p) {
            Err(u) => Err(u),
            Ok(ts) => match classify(us.last(), p) {
                Some(t) => Ok(ts.push(t)),
                None => Err(us.last()),
            },
        }
    }
}

pub open spec fn lexing(s: Seq<char>, p: spec_fn(Seq<char>) -> Option<Real>) -> Result<Seq<Lexeme>, Seq<char>> {
    lex_units(units(s), p)
}

pub open spec fn accepts_read<R: Fn(String) -> Option<Real>>(read: R) -> bool {
    forall|s: String| #[trigger] read.requires((s,))
}

/// Every result of `read` is the one that `p` gives on the text.
pub open spec fn computes_read<R: Fn(String) -> Option<Real>>(read: R, p: spec_fn(Seq<char>) -> Option<Real>) -> bool {
    forall|s: String, r: Option<Real>| #[trigger] read.ensures((s,), r) ==> r == p(s@)
}

/// A unit that is no token.
#[derive(Debug, Clone)]
pub enum LexError {
    InvalidToken(String),
}

pub open spec fn lex_outcome(r: Result<Vec<Token>, LexError>) -> Result<Seq<Lexeme>, Seq<char>> {
    match r {
        Ok(ts) => Ok(ts@.map_values(|t: Token| t@)),
        Err(LexError::InvalidToken(u)) => Err(u@),
    }
}

fn same_text(u: &String, lit: &str) -> (r: bool)
    ensures
        r == (u@ == lit@),
{
    *u == String::from_str(lit)
}

fn keyword_of(u: &String) -> (r: Option<Token>)
    ensures
        match r {
            Some(t) => keyword(u@) == Some(t@),
            None => keyword(u@) is None,
        },
{
    proof {
        reveal_strlit("+");
        reveal_strlit("-");
        reveal_strlit("*");
        reveal_strlit("/");
        reveal_strlit("^");
        reveal_strlit("sin");
        reveal_strlit("cos");
        reveal_strlit("tan");
        reveal_strlit("sqrt");
        reveal_strlit("(");
        reveal_strlit(")");
        assert("+"@ =~= symbol_of(Operator::Add));
        assert("-"@ =~= symbol_of(Operator::Subtract));
        assert("*"@ =~= symbol_of(Operator::Multiply));
        assert("/"@ =~= symbol_of(Operator::Divide));
        assert("^"@ =~= symbol_of(Operator::Power));
        assert("sin"@ =~= function_name(Function::Sin));
        assert("cos"@ =~= function_name(Function::Cos));
        assert("tan"@ =~= function_name(Function::Tan));
        assert("sqrt"@ =~= function_name(Function::Sqrt));
        assert("("@ =~= seq!['(']);
        assert(")"@ =~= seq![')']);
    }
    if same_text(u, "+") {
        Some(Token::Operator(Operator::Add))
    } else if same_text(u, "-") {
        Some(Token::Operator(Operator::Subtract))
    } else if same_text(u, "*") {
        Some(Token::Operator(Operator::Multiply))
    } else if same_text(u, "/") {
        Some(Token::Operator(Operator::Divide))
    } else if same_text(u, "^") {
        Some(Token::Operator(Operator::Power))
    } else if same_text(u, "sin") {
        Some(Token::Function(Function::Sin))
    } else if same_text(u, "cos") {
        Some(Token::Function(Function::Cos))
    } else if same_text(u, "tan") {
        Some(Token::Function(Function::Tan))
    } else if same_text(u, "sqrt") {
        Some(Token::Function(Function::Sqrt))
    } else if same_text(u, "(") {
        Some(Token::OpenParen)
    } else if same_text(u, ")") {
        Some(Token::CloseParen)
    } else {
        None
    }
}

fn format_of(u: &String) -> (r: NumberFormat)
    ensures
        r == literal_format(u@),
{
    let s = u.as_str();
    let n = s.unicode_len();
    let mut i: usize = 0;
    while i < n
        invariant
            n == u@.len(),
            s@ == u@,
            i <= n,
            forall|j: int| 0 <= j < i ==> u@[j] != 'e' && u@[j] != 'E',
        decreases n - i,
    {
        let c = s.get_char(i);
        if c == 'e' || c == 'E' {
            return NumberFormat::Scientific;
        }
        i += 1;
    }
    NumberFormat::Decimal
}

fn name_check(u: &String, letters: &Vec<bool>) -> (r: bool)
    requires
        letters@.len() == u@.len(),
    ensures
        r == is_name(u@, letters@),
{
    let s = u.as_str();
    let n = s.unicode_len();
    let mut i: usize = 0;
    while i < n
        invariant
            n == u@.len(),
            letters@.len() == n,
            s@ == u@,
            i <= n,
            forall|j: int| 0 <= j < i ==> #[trigger] letters@[j] || u@[j] == '_',
        decreases n - i,
    {
        let c = s.get_char(i);
        if !(letters[i] || c == '_') {
            return false;
        }
        i += 1;
    }
    true
}

/// Which characters of `u` are alphanumeric, one flag each.
fn alphanumeric_flags(u: &String) -> (r: Vec<bool>)
    ensures
        r@ == letters_of(u@),
{
    let s = u.as_str();
    let n = s.unicode_len();
    let mut flags: Vec<bool> = Vec::new();
    let mut i: usize = 0;
    while i < n
        invariant
            n == u@.len(),
            s@ == u@,
            i <= n,
            flags@ == letters_of(u@).take(i as int),
        decreases n - i,
    {
        let c = s.get_char(i);
        let a = is_alphanumeric(c);
        flags.push(a);
        proof {
            assert(letters_of(u@).take(i as int + 1) =~= letters_of(u@).take(i as int).push(a));
        }
        i += 1;
    }
    proof {
        assert(letters_of(u@).take(n as int) =~= letters_of(u@));
    }
    flags
}

impl Token {
    /// The token of one whitespace-free unit, given what the backend read
    /// from it and, for each character, whether it is alphanumeric.
    pub fn classify(unit: &str, reading: Option<Real>, letters: &Vec<bool>) -> (r: Result<Token, LexError>)
        requires
            letters@.len() == unit@.len(),
        ensures
            match r {
                Ok(t) => classify_from(unit@, reading, letters@) == Some(t@),
                Err(LexError::InvalidToken(v)) => classify_from(unit@, reading, letters@) is None && v@ == unit@,
            },
    {
        let u = String::from_str(unit);
        match reading {
            Some(v) => {
                let format = format_of(&u);
                Ok(Token::Number(Number { value: v, format }))
            },
            None => match keyword_of(&u) {
                Some(t) => Ok(t),
                None => if name_check(&u, letters) {
                    Ok(Token::Variable(u))
                } else {
                    Err(LexError::InvalidToken(u))
                },
            },
        }
    }

    /// The token of one whitespace-free unit: a number where `read` reads
    /// one, else a symbol, else a variable name.
    pub fn from_str<R: Fn(String) -> Option<Real>>(s: &str, read: &R) -> (r: Result<Token, LexError>)
        requires
            accepts_read(*read),
        ensures
            forall|p: spec_fn(Seq<char>) -> Option<Real>| #[trigger] computes_read(*read, p) ==> (match r {
                Ok(t) => classify(s@, p) == Some(t@),
                Err(LexError::InvalidToken(v)) => classify(s@, p) is None && v@ == s@,
            }),
    {
        let u = String::from_str(s);
        let reading = read(u.clone());
        let letters = alphanumeric_flags(&u);
        Token::classify(s, reading, &letters)
    }
}

/// Splits `input` into its whitespace-separated units.
pub fn split_units(input: &str) -> (r: Vec<String>)
    ensures
        r@.map_values(|u: String| u@) == units(input@),
{
    let n = input.unicode_len();
    let mut out: Vec<String> = Vec::new();
    let mut start: usize = 0;
    let mut inside = false;
    let mut i: usize = 0;
    while i < n
        invariant
            n == input@.len(),
            i <= n,
            start <= i,
            inside ==> start < i && !is_white(input@[i - 1]),
            !inside ==> (i == 0 || is_white(input@[i - 1])),
            inside ==> forall|j: int| start <= j < i ==> !is_white(#[trigger] input@[j]),
            inside ==> (start == 0 || is_white(input@[start - 1])),
            units(input@.take(i as int)) == if inside {
                out@.map_values(|u: String| u@).push(input@.subrange(start as int, i as int))
            } else {
                out@.map_values(|u: String| u@)
            },
        decreases n - i,
    {
        let c = input.get_char(i);
        let ghost s = input@.take(i as int + 1);
        proof {
            assert(s.drop_last() =~= input@.take(i as int));
            assert(s.last() == c);
        }
        if is_white_char(c) {
            if inside {
                let ghost before = out@.map_values(|u: String| u@);
                let piece = String::from_str(input.substring_char(start, i));
                out.push(piece);
                proof {
                    assert(out@.map_values(|u: String| u@) =~= before.push(input@.subrange(start as int, i as int)));
                }
                inside = false;
            }
        } else {
            if !inside {
                start = i;
                inside = true;
                proof {
                    assert(input@.subrange(start as int, i as int + 1) =~= seq![c]);
                }
            } else {
                proof {
                    let m = out@.map_values(|u: String| u@);
                    let us = m.push(input@.subrange(start as int, i as int));
                    assert(input@.subrange(start as int, i as int + 1) =~= input@.subrange(start as int, i as int).push(c));
                    assert(i > 0 && s.drop_last().last() == input@[i - 1]);
                    assert(us.drop_last() =~= m);
                    assert(us.last() == input@.subrange(start as int, i as int));
                }
            }
        }
        i += 1;
    }
    if inside {
        let ghost before = out@.map_values(|u: String| u@);
        let piece = String::from_str(input.substring_char(start, n));
        out.push(piece);
        proof {
            assert(out@.map_values(|u: String| u@) =~= before.push(input@.subrange(start as int, n as int)));
        }
    }
    proof {
        assert(input@.take(n as int) =~= input@);
    }
    out
}

/// The tokens of `input`, or the first unit that is no token.
pub fn tokenize<R: Fn(String) -> Option<Real>>(input: &str, read: &R) -> (r: Result<Vec<Token>, LexError>)
    requires
        accepts_read(*read),
    ensures
        forall|p: spec_fn(Seq<char>) -> Option<Real>| #[trigger] computes_read(*read, p)
            ==> lex_outcome(r) == lexing(input@, p),
{
    let pieces = split_units(input);
    let ghost us = units(input@);
    let mut tokens: Vec<Token> = Vec::new();
    let mut i: usize = 0;
    proof {
        assert(us.take(0) =~= Seq::<Seq<char>>::empty());
        assert(tokens@.map_values(|t: Token| t@) =~= Seq::<Lexeme>::empty());
    }
    while i < pieces.len()
        invariant
            accepts_read(*read),
            i <= pieces.len(),
            pieces@.map_values(|u: String| u@) == us,
            us == units(input@),
            forall|p: spec_fn(Seq<char>) -> Option<Real>| #[trigger] computes_read(*read, p)
                ==> lex_units(us.take(i as int), p) == Ok::<Seq<Lexeme>, Seq<char>>(tokens@.map_values(|t: Token| t@)),
        decreases pieces.len() - i,
    {
        let ghost tv = tokens@.map_values(|t: Token| t@);
        proof {
            assert(us[i as int] == pieces@[i as int]@);
            assert(us.take(i as int + 1).drop_last() =~= us.take(i as int));
            assert(us.take(i as int + 1).last() == us[i as int]);
        }
        match Token::from_str(pieces[i].as_str(), read) {
            Ok(t) => {
                tokens.push(t);
                proof {
                    assert(tokens@.map_values(|t: Token| t@) =~= tv.push(t@));
                }
            },
            Err(e) => {
                proof {
                    assert forall|p: spec_fn(Seq<char>) -> Option<Real>| #[trigger] computes_read(*read, p)
                        implies lex_outcome(Err::<Vec<Token>, LexError>(e)) == lexing(input@, p) by {
                        lemma_lex_units_stops(us, i as int, p);
                    }
                }
                return Err(e);
            },
        }
        i += 1;
    }
    proof {
        assert(us.take(pieces.len() as int) =~= us);
    }
    Ok(tokens)
}

/// Once a prefix of the units fails, every longer prefix fails the same way.
proof fn lemma_lex_units_stops(us: Seq<Seq<char>>, i: int, p: spec_fn(Seq<char>) -> Option<Real>)
    requires
        0 <= i < us.len(),
        lex_units(us.take(i + 1), p) is Err,
    ensures
        lex_units(us, p) == lex_units(us.take(i + 1), p),
    decreases us.len() - i,
{
    if i + 1 == us.len() {
        assert(us.take(i + 1) =~= us);
    } else {
        assert(us.take(i + 2).drop_last() =~= us.take(i + 1));
        lemma_lex_units_stops(us, i + 1, p);
    }
}

} // verus!
