//! The two parsers agree: on every sequence that the recursive-descent
//! grammar accepts, the shunting-yard parser builds the same tree.
use vstd::prelude::*;
use crate::token::{Real, Operator, Function, Lexeme, precedence_of};
use crate::expression::Term;
use crate::parser::{
    Pending, ParseFault, rd_parse, rd_expr, rd_expr_tail, rd_term, rd_term_tail, rd_power, rd_power_tail, rd_factor, rd_close,
    sy_parse, sy_run, sy_token, sy_pop_higher, sy_close, sy_finish, sy_reduce,
    is_additive, is_multiplicative, is_power,
};
use crate::evaluation::evaluation;

verus! {

pub type SyState = (Seq<Term>, Seq<Pending>);

/// The shunting-yard state after tokens `i..j` of `ts`, from `st`.
pub open spec fn sy_steps(st: Result<SyState, ParseFault>, ts: Seq<Lexeme>, i: int, j: int) -> Result<SyState, ParseFault>
    decreases j - i,
{
    if j <= i {
        st
    } else {
        match sy_steps(st, ts, i, j - 1) {
            Err(e) => Err(e),
            Ok((o, s)) => sy_token(o, s, ts[j - 1]),
        }
    }
}

proof fn lemma_run_is_steps(ts: Seq<Lexeme>, j: int)
    requires
        0 <= j <= ts.len(),
    ensures
        sy_run(ts.take(j)) == sy_steps(Ok((seq![], seq![])), ts, 0, j),
    decreases j,
{
    if j > 0 {
        assert(ts.take(j).drop_last() =~= ts.take(j - 1));
        assert(ts.take(j).last() == ts[j - 1]);
        lemma_run_is_steps(ts, j - 1);
    } else {
        assert(ts.take(0).len() == 0);
    }
}

proof fn lemma_steps_compose(st: Result<SyState, ParseFault>, ts: Seq<Lexeme>, i: int, j: int, k: int)
    requires
        i <= j <= k,
    ensures
        sy_steps(st, ts, i, k) == sy_steps(sy_steps(st, ts, i, j), ts, j, k),
    decreases k - j,
{
    if k > j {
        lemma_steps_compose(st, ts, i, j, k - 1);
    }
}

proof fn lemma_steps_one(st: Result<SyState, ParseFault>, ts: Seq<Lexeme>, i: int)
    ensures
        sy_steps(st, ts, i, i + 1) == match st {
            Err(e) => Err(e),
            Ok((o, s)) => sy_token(o, s, ts[i]),
        },
{
    assert(sy_steps(st, ts, i, i) == st);
}

/// The top of the stack lets no operator of precedence `p` pop past it, and
/// is no function waiting for its argument.
pub open spec fn lowered(s: Seq<Pending>, p: u8) -> bool {
    s.len() == 0 || s.last() is OpenParen || (s.last() matches Pending::Operator(o) && precedence_of(o) < p)
}

/// `st` stands for the tree `t` pushed on `(o, s)`: whatever closes it (an
/// operator of precedence at most `level`, a closing parenthesis, the end of
/// input) acts on `st` as on `(o.push(t), s)`.
pub open spec fn settles(st: SyState, o: Seq<Term>, s: Seq<Pending>, t: Term, level: u8) -> bool {
    &&& forall|m: Operator| precedence_of(m) <= level ==> #[trigger] sy_pop_higher(st.0, st.1, m) == sy_pop_higher(o.push(t), s, m)
    &&& sy_close(st.0, st.1) == sy_close(o.push(t), s)
    &&& sy_finish(st.0, st.1) == sy_finish(o.push(t), s)
}

proof fn lemma_pop_stops(o: Seq<Term>, s: Seq<Pending>, m: Operator)
    requires
        lowered(s, precedence_of(m)),
    ensures
        sy_pop_higher(o, s, m) == Ok::<SyState, ParseFault>((o, s)),
{
}

/// A pending operator over two values settles as the tree it builds.
proof fn lemma_settles_pending(o: Seq<Term>, s: Seq<Pending>, m: Operator, a: Term, b: Term, level: u8)
    requires
        level <= precedence_of(m),
    ensures
        settles((o.push(a).push(b), s.push(Pending::Operator(m))), o, s, Term::Bin(m, Box::new(a), Box::new(b)), level),
{
    let out = o.push(a).push(b);
    let st = s.push(Pending::Operator(m));
    let t = Term::Bin(m, Box::new(a), Box::new(b));
    assert(sy_reduce(out, m) == Ok::<Seq<Term>, ParseFault>(o.push(t))) by {
        assert(out.take(out.len() - 2) =~= o);
    }
    assert(st.drop_last() =~= s);
    assert forall|n: Operator| precedence_of(n) <= level implies #[trigger] sy_pop_higher(out, st, n) == sy_pop_higher(o.push(t), s, n) by {
    }
}

/// Settling at a level settles at every lower one.
proof fn lemma_settles_lower(st: SyState, o: Seq<Term>, s: Seq<Pending>, t: Term, level: u8, lower: u8)
    requires
        settles(st, o, s, t, level),
        lower <= level,
    ensures
        settles(st, o, s, t, lower),
{
    assert forall|m: Operator| precedence_of(m) <= lower implies #[trigger] sy_pop_higher(st.0, st.1, m) == sy_pop_higher(o.push(t), s, m) by {
        assert(precedence_of(m) <= level);
    }
}

/// A factor pushes its tree and leaves the stack as it was.
proof fn lemma_factor(ts: Seq<Lexeme>, pos: int, o: Seq<Term>, s: Seq<Pending>)
    requires
        rd_factor(ts, pos) is Ok,
        s.len() == 0 || !(s.last() is Function),
    ensures
        ({
            let (t, q) = rd_factor(ts, pos)->Ok_0;
            &&& pos < q <= ts.len()
            &&& sy_steps(Ok((o, s)), ts, pos, q) == Ok::<SyState, ParseFault>((o.push(t), s))
        }),
    decreases ts.len() - pos, 0int,
{
    let (t, q) = rd_factor(ts, pos)->Ok_0;
    lemma_steps_one(Ok((o, s)), ts, pos);
    match ts[pos] {
        Lexeme::Number(n) => {},
        Lexeme::Variable(x) => {},
        Lexeme::Function(f) => {
            let s1 = s.push(Pending::Function(f));
            let s2 = s1.push(Pending::OpenParen);
            lemma_steps_one(Ok((o, s1)), ts, pos + 1);
            lemma_steps_compose(Ok((o, s)), ts, pos, pos + 1, pos + 2);
            let (a, r) = rd_expr(ts, pos + 2)->Ok_0;
            lemma_expr(ts, pos + 2, o, s2);
            let st = sy_steps(Ok((o, s2)), ts, pos + 2, r)->Ok_0;
            lemma_steps_compose(Ok((o, s)), ts, pos, pos + 2, r);
            lemma_steps_one(Ok(st), ts, r);
            lemma_steps_compose(Ok((o, s)), ts, pos, r, r + 1);
            assert(rd_close(ts, r) is None);
            let out = o.push(a);
            assert(s2.drop_last() == s1);
            assert(s1.drop_last() =~= s);
            assert(out.drop_last().push(Term::Call(f, Box::new(out.last()))) =~= o.push(Term::Call(f, Box::new(a))));
        },
        Lexeme::OpenParen => {
            let s1 = s.push(Pending::OpenParen);
            let (a, r) = rd_expr(ts, pos + 1)->Ok_0;
            lemma_expr(ts, pos + 1, o, s1);
            let st = sy_steps(Ok((o, s1)), ts, pos + 1, r)->Ok_0;
            lemma_steps_compose(Ok((o, s)), ts, pos, pos + 1, r);
            lemma_steps_one(Ok(st), ts, r);
            lemma_steps_compose(Ok((o, s)), ts, pos, r, r + 1);
            assert(rd_close(ts, r) is None);
            assert(s1.drop_last() =~= s);
        },
        _ => {},
    }
}

/// A chain closed by an operator `m`: what the chain left settles, one level
/// down, as the tree `m` builds over `left`.
proof fn lemma_settles_stacked(
    st: SyState,
    o: Seq<Term>,
    s: Seq<Pending>,
    m: Operator,
    left: Term,
    u: Term,
    inner: u8,
    level: u8,
)
    requires
        settles(st, o.push(left), s.push(Pending::Operator(m)), u, inner),
        level <= inner,
        level <= precedence_of(m),
    ensures
        settles(st, o, s, Term::Bin(m, Box::new(left), Box::new(u)), level),
{
    let next = Term::Bin(m, Box::new(left), Box::new(u));
    lemma_settles_pending(o, s, m, left, u, level);
    assert forall|n: Operator| precedence_of(n) <= level implies #[trigger] sy_pop_higher(st.0, st.1, n)
        == sy_pop_higher(o.push(next), s, n) by {
        assert(sy_pop_higher(st.0, st.1, n) == sy_pop_higher(o.push(left).push(u), s.push(Pending::Operator(m)), n));
    }
}

/// The rest of a power chain, with `left` pending over `(o, s)`.
proof fn lemma_power_tail(ts: Seq<Lexeme>, left: Term, p: int, o: Seq<Term>, s: Seq<Pending>, st: SyState)
    requires
        0 <= p <= ts.len(),
        rd_power_tail(ts, left, p) is Ok,
        lowered(s, 3),
        settles(st, o, s, left, 3),
    ensures
        ({
            let (t, q) = rd_power_tail(ts, left, p)->Ok_0;
            &&& p <= q <= ts.len()
            &&& sy_steps(Ok(st), ts, p, q) matches Ok(st2) && settles(st2, o, s, t, 3)
        }),
    decreases ts.len() - p, 1int,
{
    if 0 <= p < ts.len() && is_power(ts[p]) {
        let m = Operator::Power;
        let (f, q) = rd_factor(ts, p + 1)->Ok_0;
        // `^` reduces what was pending, then waits on the stack.
        assert(sy_pop_higher(st.0, st.1, m) == sy_pop_higher(o.push(left), s, m));
        lemma_pop_stops(o.push(left), s, m);
        lemma_steps_one(Ok(st), ts, p);
        let s1 = s.push(Pending::Operator(m));
        lemma_factor(ts, p + 1, o.push(left), s1);
        lemma_steps_compose(Ok(st), ts, p, p + 1, q);
        let next = Term::Bin(m, Box::new(left), Box::new(f));
        lemma_settles_pending(o, s, m, left, f, 3);
        lemma_power_tail(ts, next, q, o, s, (o.push(left).push(f), s1));
        lemma_steps_compose(Ok(st), ts, p, q, rd_power_tail(ts, left, p)->Ok_0.1);
    } else {
        assert(sy_steps(Ok(st), ts, p, p) == Ok::<SyState, ParseFault>(st));
    }
}

/// A power chain leaves a state that settles as its tree.
proof fn lemma_power(ts: Seq<Lexeme>, pos: int, o: Seq<Term>, s: Seq<Pending>)
    requires
        0 <= pos <= ts.len(),
        rd_power(ts, pos) is Ok,
        lowered(s, 3),
    ensures
        ({
            let (t, q) = rd_power(ts, pos)->Ok_0;
            &&& pos < q <= ts.len()
            &&& sy_steps(Ok((o, s)), ts, pos, q) matches Ok(st) && settles(st, o, s, t, 3)
        }),
    decreases ts.len() - pos, 2int,
{
    let (f, q) = rd_factor(ts, pos)->Ok_0;
    lemma_factor(ts, pos, o, s);
    let st = (o.push(f), s);
    assert(settles(st, o, s, f, 3));
    lemma_power_tail(ts, f, q, o, s, st);
    lemma_steps_compose(Ok((o, s)), ts, pos, q, rd_power(ts, pos)->Ok_0.1);
}

/// The rest of a product chain, with `left` pending over `(o, s)`.
proof fn lemma_term_tail(ts: Seq<Lexeme>, left: Term, p: int, o: Seq<Term>, s: Seq<Pending>, st: SyState)
    requires
        0 <= p <= ts.len(),
        rd_term_tail(ts, left, p) is Ok,
        lowered(s, 2),
        settles(st, o, s, left, 2),
    ensures
        ({
            let (t, q) = rd_term_tail(ts, left, p)->Ok_0;
            &&& p <= q <= ts.len()
            &&& sy_steps(Ok(st), ts, p, q) matches Ok(st2) && settles(st2, o, s, t, 2)
        }),
    decreases ts.len() - p, 1int,
{
    if 0 <= p < ts.len() && is_multiplicative(ts[p]) {
        let m = ts[p]->Operator_0;
        assert(precedence_of(m) == 2);
        let (u, q) = rd_power(ts, p + 1)->Ok_0;
        assert(sy_pop_higher(st.0, st.1, m) == sy_pop_higher(o.push(left), s, m));
        lemma_pop_stops(o.push(left), s, m);
        lemma_steps_one(Ok(st), ts, p);
        let s1 = s.push(Pending::Operator(m));
        lemma_power(ts, p + 1, o.push(left), s1);
        let st1 = sy_steps(Ok((o.push(left), s1)), ts, p + 1, q)->Ok_0;
        lemma_steps_compose(Ok(st), ts, p, p + 1, q);
        let next = Term::Bin(m, Box::new(left), Box::new(u));
        lemma_settles_stacked(st1, o, s, m, left, u, 3, 2);
        lemma_term_tail(ts, next, q, o, s, st1);
        lemma_steps_compose(Ok(st), ts, p, q, rd_term_tail(ts, left, p)->Ok_0.1);
    } else {
        assert(sy_steps(Ok(st), ts, p, p) == Ok::<SyState, ParseFault>(st));
    }
}

/// A product chain leaves a state that settles as its tree.
proof fn lemma_term(ts: Seq<Lexeme>, pos: int, o: Seq<Term>, s: Seq<Pending>)
    requires
        0 <= pos <= ts.len(),
        rd_term(ts, pos) is Ok,
        lowered(s, 2),
    ensures
        ({
            let (t, q) = rd_term(ts, pos)->Ok_0;
            &&& pos < q <= ts.len()
            &&& sy_steps(Ok((o, s)), ts, pos, q) matches Ok(st) && settles(st, o, s, t, 2)
        }),
    decreases ts.len() - pos, 3int,
{
    let (u, q) = rd_power(ts, pos)->Ok_0;
    lemma_power(ts, pos, o, s);
    let st = sy_steps(Ok((o, s)), ts, pos, q)->Ok_0;
    lemma_settles_lower(st, o, s, u, 3, 2);
    lemma_term_tail(ts, u, q, o, s, st);
    lemma_steps_compose(Ok((o, s)), ts, pos, q, rd_term(ts, pos)->Ok_0.1);
}

/// The rest of a sum chain, with `left` pending over `(o, s)`.
proof fn lemma_expr_tail(ts: Seq<Lexeme>, left: Term, p: int, o: Seq<Term>, s: Seq<Pending>, st: SyState)
    requires
        0 <= p <= ts.len(),
        rd_expr_tail(ts, left, p) is Ok,
        s.len() == 0 || s.last() is OpenParen,
        settles(st, o, s, left, 1),
    ensures
        ({
            let (t, q) = rd_expr_tail(ts, left, p)->Ok_0;
            &&& p <= q <= ts.len()
            &&& sy_steps(Ok(st), ts, p, q) matches Ok(st2) && settles(st2, o, s, t, 1)
        }),
    decreases ts.len() - p, 1int,
{
    if 0 <= p < ts.len() && is_additive(ts[p]) {
        let n = ts[p]->Operator_0;
        assert(precedence_of(n) == 1);
        let (u, q) = rd_term(ts, p + 1)->Ok_0;
        assert(sy_pop_higher(st.0, st.1, n) == sy_pop_higher(o.push(left), s, n));
        lemma_pop_stops(o.push(left), s, n);
        lemma_steps_one(Ok(st), ts, p);
        let s1 = s.push(Pending::Operator(n));
        lemma_term(ts, p + 1, o.push(left), s1);
        let st1 = sy_steps(Ok((o.push(left), s1)), ts, p + 1, q)->Ok_0;
        lemma_steps_compose(Ok(st), ts, p, p + 1, q);
        let next = Term::Bin(n, Box::new(left), Box::new(u));
        lemma_settles_stacked(st1, o, s, n, left, u, 2, 1);
        lemma_expr_tail(ts, next, q, o, s, st1);
        lemma_steps_compose(Ok(st), ts, p, q, rd_expr_tail(ts, left, p)->Ok_0.1);
    } else {
        assert(sy_steps(Ok(st), ts, p, p) == Ok::<SyState, ParseFault>(st));
    }
}

/// An expression leaves a state that settles as its tree.
proof fn lemma_expr(ts: Seq<Lexeme>, pos: int, o: Seq<Term>, s: Seq<Pending>)
    requires
        rd_expr(ts, pos) is Ok,
        s.len() == 0 || s.last() is OpenParen,
    ensures
        ({
            let (t, q) = rd_expr(ts, pos)->Ok_0;
            &&& pos < q <= ts.len()
            &&& sy_steps(Ok((o, s)), ts, pos, q) matches Ok(st) && settles(st, o, s, t, 1)
        }),
    decreases ts.len() - pos, 4int,
{
    let (u, q) = rd_term(ts, pos)->Ok_0;
    lemma_term(ts, pos, o, s);
    let st = sy_steps(Ok((o, s)), ts, pos, q)->Ok_0;
    lemma_settles_lower(st, o, s, u, 2, 1);
    lemma_expr_tail(ts, u, q, o, s, st);
    lemma_steps_compose(Ok((o, s)), ts, pos, q, rd_expr(ts, pos)->Ok_0.1);
}

/// On every sequence that the recursive-descent parser accepts, the
/// shunting-yard parser returns the same tree.
pub proof fn parsers_agree(ts: Seq<Lexeme>)
    requires
        rd_parse(ts) is Ok,
    ensures
        sy_parse(ts) == rd_parse(ts),
{
    let (t, q) = rd_expr(ts, 0)->Ok_0;
    lemma_expr(ts, 0, seq![], seq![]);
    lemma_run_is_steps(ts, ts.len() as int);
    assert(ts.take(ts.len() as int) =~= ts);
    assert(seq![].push(t) =~= seq![t]);
}

/// So the two parsers' trees have the same value in every environment and
/// with every backend.
pub proof fn parsers_evaluate_alike(
    ts: Seq<Lexeme>,
    env: Map<Seq<char>, Real>,
    f: spec_fn(Operator, Real, Real) -> Real,
    g: spec_fn(Function, Real) -> Option<Real>,
)
    requires
        rd_parse(ts) is Ok,
    ensures
        sy_parse(ts) is Ok,
        evaluation(sy_parse(ts)->Ok_0, env, f, g) == evaluation(rd_parse(ts)->Ok_0, env, f, g),
{
    parsers_agree(ts);
}

} // verus!
