//! Properties of the evaluator that relate whole expressions to their value.
use vstd::prelude::*;
use crate::token::TokenView;
use crate::lexer::{
    is_base_letter,
    is_digit,
    is_hex_digit,
    hex_run_end,
    lex_from,
    lex_spec,
    lex_step,
    lemma_lex_step_advances,
};
use crate::number::literal_value;
use crate::ops::{
    BinOp,
    UnOp,
    bin_op_text,
    un_op_text,
    bin_value,
    un_value,
    bin_rank,
    lemma_bin_op_of,
    lemma_un_op_of,
};
use crate::eval::{
    Frame,
    ParseError,
    ParseErrorView,
    allows_operator,
    apply_spec,
    close_spec,
    drain_spec,
    queue_spec,
    bracket_rank,
    eval_tokens,
    evaluate,
    result_view,
    run_spec,
    step_spec,
};

verus! {

/// An expression in which every operator application stands in its own pair
/// of brackets.
pub ghost enum Expr {
    /// A literal, by its text.
    Literal(Seq<char>),
    /// `( op e )`
    Unary(UnOp, Box<Expr>),
    /// `( l op r )`
    Binary(Box<Expr>, BinOp, Box<Expr>),
}

/// The tokens of a fully bracketed expression.
pub open spec fn expr_tokens(e: Expr) -> Seq<TokenView>
    decreases e,
{
    match e {
        Expr::Literal(t) => seq![TokenView::Number(t)],
        Expr::Unary(op, x) => seq![TokenView::OpenParen, TokenView::UnaryOperator(un_op_text(op))]
            + expr_tokens(*x) + seq![TokenView::CloseParen],
        Expr::Binary(l, op, r) => seq![TokenView::OpenParen] + expr_tokens(*l) + seq![
            TokenView::Operator(bin_op_text(op)),
        ] + expr_tokens(*r) + seq![TokenView::CloseParen],
    }
}

/// The value of an expression as its brackets group it: innermost first,
/// the left operand before the right.
pub open spec fn expr_value(e: Expr) -> Result<u64, ParseErrorView>
    decreases e,
{
    match e {
        Expr::Literal(t) => match literal_value(t) {
            Some(v) => Ok(v),
            None => Err(ParseErrorView::UnrecognisedNumber(t)),
        },
        Expr::Unary(op, x) => match expr_value(*x) {
            Ok(v) => Ok(un_value(op, v)),
            Err(err) => Err(err),
        },
        Expr::Binary(l, op, r) => match expr_value(*l) {
            Ok(a) => match expr_value(*r) {
                Ok(b) => match bin_value(op, a, b) {
                    Some(v) => Ok(v),
                    None => Err(ParseErrorView::DivideByZero(a)),
                },
                Err(err) => Err(err),
            },
            Err(err) => Err(err),
        },
    }
}

proof fn lemma_run_cons(
    ops: Seq<Frame>,
    vals: Seq<u64>,
    prev: Option<TokenView>,
    t: TokenView,
    rest: Seq<TokenView>,
)
    ensures
        run_spec(ops, vals, prev, seq![t] + rest) == match step_spec(ops, vals, prev, t) {
            Ok((ops2, vals2)) => run_spec(ops2, vals2, Some(t), rest),
            Err(err) => Err(err),
        },
{
    let s = seq![t] + rest;
    assert(s[0] == t);
    assert(s.drop_first() =~= rest);
}

/// What `lemma_expr_run` states of `e`, from the given stacks and with
/// `rest` after it.
pub open spec fn runs_as_value(
    e: Expr,
    ops: Seq<Frame>,
    vals: Seq<u64>,
    prev: Option<TokenView>,
    rest: Seq<TokenView>,
) -> bool {
    &&& expr_tokens(e).len() > 0
    &&& allows_operator(Some(expr_tokens(e).last()))
    &&& run_spec(ops, vals, prev, expr_tokens(e) + rest) == match expr_value(e) {
        Ok(v) => run_spec(ops, vals.push(v), Some(expr_tokens(e).last()), rest),
        Err(err) => Err(err),
    }
}

proof fn lemma_literal_run(
    t: Seq<char>,
    ops: Seq<Frame>,
    vals: Seq<u64>,
    prev: Option<TokenView>,
    rest: Seq<TokenView>,
)
    ensures
        runs_as_value(Expr::Literal(t), ops, vals, prev, rest),
{
    let e = Expr::Literal(t);
    assert(expr_tokens(e) =~= seq![TokenView::Number(t)]);
    lemma_run_cons(ops, vals, prev, TokenView::Number(t), rest);
}

proof fn lemma_unary_run(
    op: UnOp,
    x: Expr,
    ops: Seq<Frame>,
    vals: Seq<u64>,
    prev: Option<TokenView>,
    rest: Seq<TokenView>,
)
    requires
        runs_as_value(
            x,
            ops.push((TokenView::OpenParen, bracket_rank())).push(
                (TokenView::UnaryOperator(un_op_text(op)), 1int),
            ),
            vals,
            Some(TokenView::UnaryOperator(un_op_text(op))),
            seq![TokenView::CloseParen] + rest,
        ),
    ensures
        runs_as_value(Expr::Unary(op, Box::new(x)), ops, vals, prev, rest),
{
    let e = Expr::Unary(op, Box::new(x));
    let open = TokenView::OpenParen;
    let close = TokenView::CloseParen;
    let u = TokenView::UnaryOperator(un_op_text(op));
    let xs = expr_tokens(x);
    let tail = seq![close] + rest;
    assert(expr_tokens(e) + rest =~= seq![open] + (seq![u] + (xs + tail)));
    let ops1 = ops.push((open, bracket_rank()));
    let ops2 = ops1.push((u, 1int));
    lemma_run_cons(ops, vals, prev, open, seq![u] + (xs + tail));
    lemma_run_cons(ops1, vals, Some(open), u, xs + tail);
    assert(ops2.drop_last() =~= ops1);
    assert(ops1.drop_last() =~= ops);
    lemma_un_op_of(op);
    match expr_value(x) {
        Ok(v) => {
            lemma_run_cons(ops2, vals.push(v), Some(xs.last()), close, rest);
            assert(vals.push(v).drop_last().push(un_value(op, v)) =~= vals.push(un_value(op, v)));
            assert(apply_spec(u, vals.push(v)) == Ok::<Seq<u64>, ParseErrorView>(
                vals.push(un_value(op, v)),
            ));
            assert(close_spec(ops1, vals.push(un_value(op, v))) == Ok::<
                (Seq<Frame>, Seq<u64>),
                ParseErrorView,
            >((ops, vals.push(un_value(op, v)))));
            assert(close_spec(ops2, vals.push(v)) == Ok::<(Seq<Frame>, Seq<u64>), ParseErrorView>(
                (ops, vals.push(un_value(op, v))),
            ));
        },
        Err(err) => {},
    }
    assert(expr_tokens(e).last() == close);
}

proof fn lemma_binary_run(
    l: Expr,
    op: BinOp,
    r: Expr,
    ops: Seq<Frame>,
    vals: Seq<u64>,
    prev: Option<TokenView>,
    rest: Seq<TokenView>,
)
    requires
        runs_as_value(
            l,
            ops.push((TokenView::OpenParen, bracket_rank())),
            vals,
            Some(TokenView::OpenParen),
            seq![TokenView::Operator(bin_op_text(op))] + (expr_tokens(r) + (seq![
                TokenView::CloseParen,
            ] + rest)),
        ),
        forall|a: u64|
            runs_as_value(
                r,
                ops.push((TokenView::OpenParen, bracket_rank())).push(
                    (TokenView::Operator(bin_op_text(op)), bin_rank(op)),
                ),
                #[trigger] vals.push(a),
                Some(TokenView::Operator(bin_op_text(op))),
                seq![TokenView::CloseParen] + rest,
            ),
    ensures
        runs_as_value(Expr::Binary(Box::new(l), op, Box::new(r)), ops, vals, prev, rest),
{
    let e = Expr::Binary(Box::new(l), op, Box::new(r));
    let open = TokenView::OpenParen;
    let close = TokenView::CloseParen;
    let b = TokenView::Operator(bin_op_text(op));
    let ls = expr_tokens(l);
    let rs = expr_tokens(r);
    let tail = seq![close] + rest;
    assert(expr_tokens(e) + rest =~= seq![open] + (ls + (seq![b] + (rs + tail))));
    let ops1 = ops.push((open, bracket_rank()));
    let ops2 = ops1.push((b, bin_rank(op)));
    lemma_run_cons(ops, vals, prev, open, ls + (seq![b] + (rs + tail)));
    lemma_bin_op_of(op);
    assert(ops2.drop_last() =~= ops1);
    assert(ops1.drop_last() =~= ops);
    match expr_value(l) {
        Ok(a) => {
            lemma_run_cons(ops1, vals.push(a), Some(ls.last()), b, rs + tail);
            match expr_value(r) {
                Ok(bv) => {
                    let vs = vals.push(a).push(bv);
                    lemma_run_cons(ops2, vs, Some(rs.last()), close, rest);
                    assert(vs[vs.len() - 2] == a);
                    match bin_value(op, a, bv) {
                        Some(v) => {
                            assert(vs.drop_last().drop_last().push(v) =~= vals.push(v));
                            assert(apply_spec(b, vs) == Ok::<Seq<u64>, ParseErrorView>(
                                vals.push(v),
                            ));
                            assert(close_spec(ops1, vals.push(v)) == Ok::<
                                (Seq<Frame>, Seq<u64>),
                                ParseErrorView,
                            >((ops, vals.push(v))));
                            assert(close_spec(ops2, vs) == Ok::<
                                (Seq<Frame>, Seq<u64>),
                                ParseErrorView,
                            >((ops, vals.push(v))));
                        },
                        None => {},
                    }
                },
                Err(err) => {},
            }
        },
        Err(err) => {},
    }
    assert(expr_tokens(e).last() == close);
}

/// Running the tokens of `e` pushes its value and leaves the operator stack
/// as it was, whatever stands below and whatever follows.
proof fn lemma_expr_run(
    e: Expr,
    ops: Seq<Frame>,
    vals: Seq<u64>,
    prev: Option<TokenView>,
    rest: Seq<TokenView>,
)
    ensures
        runs_as_value(e, ops, vals, prev, rest),
    decreases e,
{
    let open = TokenView::OpenParen;
    let close = TokenView::CloseParen;
    match e {
        Expr::Literal(t) => {
            lemma_literal_run(t, ops, vals, prev, rest);
        },
        Expr::Unary(op, x) => {
            let u = TokenView::UnaryOperator(un_op_text(op));
            lemma_expr_run(
                *x,
                ops.push((open, bracket_rank())).push((u, 1int)),
                vals,
                Some(u),
                seq![close] + rest,
            );
            lemma_unary_run(op, *x, ops, vals, prev, rest);
        },
        Expr::Binary(l, op, r) => {
            let b = TokenView::Operator(bin_op_text(op));
            let ops1 = ops.push((open, bracket_rank()));
            lemma_expr_run(
                *l,
                ops1,
                vals,
                Some(open),
                seq![b] + (expr_tokens(*r) + (seq![close] + rest)),
            );
            assert forall|a: u64|
                runs_as_value(
                    *r,
                    ops1.push((b, bin_rank(op))),
                    #[trigger] vals.push(a),
                    Some(b),
                    seq![close] + rest,
                ) by {
                lemma_expr_run(*r, ops1.push((b, bin_rank(op))), vals.push(a), Some(b), seq![close] + rest);
            }
            lemma_binary_run(*l, op, *r, ops, vals, prev, rest);
        },
    }
}

/// A fully bracketed expression evaluates as its brackets group it, whatever
/// the ranks of its operators.
pub proof fn lemma_bracketed_evaluation(e: Expr)
    ensures
        eval_tokens(expr_tokens(e)) == expr_value(e),
{
    let empty = Seq::<TokenView>::empty();
    assert(expr_tokens(e) + empty =~= expr_tokens(e));
    lemma_expr_run(e, Seq::empty(), Seq::empty(), None, empty);
    match expr_value(e) {
        Ok(v) => {
            assert(Seq::<u64>::empty().push(v).last() == v);
        },
        Err(err) => {},
    }
}

/// The outermost brackets may be left out: `l op r` evaluates as `(l op r)`.
pub proof fn lemma_outer_brackets_optional(l: Expr, op: BinOp, r: Expr)
    ensures
        eval_tokens(expr_tokens(l) + seq![TokenView::Operator(bin_op_text(op))] + expr_tokens(r))
            == expr_value(Expr::Binary(Box::new(l), op, Box::new(r))),
{
    let b = TokenView::Operator(bin_op_text(op));
    let e0 = Seq::<Frame>::empty();
    let v0 = Seq::<u64>::empty();
    let none = Seq::<TokenView>::empty();
    let rs = expr_tokens(r);
    assert(expr_tokens(l) + seq![b] + rs =~= expr_tokens(l) + (seq![b] + rs));
    assert(rs + none =~= rs);
    lemma_expr_run(l, e0, v0, None, seq![b] + rs);
    lemma_bin_op_of(op);
    let ops1 = e0.push((b, bin_rank(op)));
    assert(ops1.drop_last() =~= e0);
    match expr_value(l) {
        Ok(a) => {
            lemma_run_cons(e0, v0.push(a), Some(expr_tokens(l).last()), b, rs);
            lemma_expr_run(r, ops1, v0.push(a), Some(b), none);
            match expr_value(r) {
                Ok(bv) => {
                    let vs = v0.push(a).push(bv);
                    assert(vs[vs.len() - 2] == a);
                    match bin_value(op, a, bv) {
                        Some(v) => {
                            assert(vs.drop_last().drop_last().push(v) =~= v0.push(v));
                            assert(drain_spec(e0, v0.push(v)) == Ok::<Seq<u64>, ParseErrorView>(
                                v0.push(v),
                            ));
                        },
                        None => {},
                    }
                },
                Err(err) => {},
            }
        },
        Err(err) => {},
    }
}

/// How `a op1 b op2 c` groups without brackets: the operator of tighter rank
/// applies first, and of two operators of one rank the left one does.
pub open spec fn chain_grouping(
    t1: Seq<char>,
    op1: BinOp,
    t2: Seq<char>,
    op2: BinOp,
    t3: Seq<char>,
) -> Expr {
    let a = Expr::Literal(t1);
    let b = Expr::Literal(t2);
    let c = Expr::Literal(t3);
    if bin_rank(op1) <= bin_rank(op2) {
        Expr::Binary(Box::new(Expr::Binary(Box::new(a), op1, Box::new(b))), op2, Box::new(c))
    } else {
        Expr::Binary(Box::new(a), op1, Box::new(Expr::Binary(Box::new(b), op2, Box::new(c))))
    }
}

/// Two binary operators between three literals evaluate as `chain_grouping`
/// brackets them: tighter rank first, and left to right within one rank.
#[verifier::rlimit(60)]
pub proof fn lemma_chain_grouping(t1: Seq<char>, op1: BinOp, t2: Seq<char>, op2: BinOp, t3: Seq<char>)
    ensures
        eval_tokens(
            seq![
                TokenView::Number(t1),
                TokenView::Operator(bin_op_text(op1)),
                TokenView::Number(t2),
                TokenView::Operator(bin_op_text(op2)),
                TokenView::Number(t3),
            ],
        ) == expr_value(chain_grouping(t1, op1, t2, op2, t3)),
{
    let n1 = TokenView::Number(t1);
    let n2 = TokenView::Number(t2);
    let n3 = TokenView::Number(t3);
    let o1 = TokenView::Operator(bin_op_text(op1));
    let o2 = TokenView::Operator(bin_op_text(op2));
    let e0 = Seq::<Frame>::empty();
    let v0 = Seq::<u64>::empty();
    let none = Seq::<TokenView>::empty();
    let ts = seq![n1, o1, n2, o2, n3];
    reveal_with_fuel(expr_value, 3);
    assert(ts =~= seq![n1] + (seq![o1] + (seq![n2] + (seq![o2] + (seq![n3] + none)))));
    lemma_bin_op_of(op1);
    lemma_bin_op_of(op2);
    let f1 = (o1, bin_rank(op1));
    let f2 = (o2, bin_rank(op2));
    assert(e0.push(f1).drop_last() =~= e0);
    assert(e0.push(f1).push(f2).drop_last() =~= e0.push(f1));
    lemma_run_cons(e0, v0, None, n1, seq![o1] + (seq![n2] + (seq![o2] + (seq![n3] + none))));
    match literal_value(t1) {
        Some(a) => {
            let va = v0.push(a);
            lemma_run_cons(e0, va, Some(n1), o1, seq![n2] + (seq![o2] + (seq![n3] + none)));
            lemma_run_cons(e0.push(f1), va, Some(o1), n2, seq![o2] + (seq![n3] + none));
            match literal_value(t2) {
                Some(b) => {
                    let vab = va.push(b);
                    assert(vab[vab.len() - 2] == a);
                    lemma_run_cons(e0.push(f1), vab, Some(n2), o2, seq![n3] + none);
                    if bin_rank(op1) <= bin_rank(op2) {
                        match bin_value(op1, a, b) {
                            Some(x) => {
                                let vx = v0.push(x);
                                assert(vab.drop_last().drop_last().push(x) =~= vx);
                                assert(apply_spec(o1, vab) == Ok::<Seq<u64>, ParseErrorView>(vx));
                                assert(queue_spec(e0, vx, o2, bin_rank(op2)) == Ok::<
                                    (Seq<Frame>, Seq<u64>),
                                    ParseErrorView,
                                >((e0.push(f2), vx)));
                                assert(queue_spec(e0.push(f1), vab, o2, bin_rank(op2)) == Ok::<
                                    (Seq<Frame>, Seq<u64>),
                                    ParseErrorView,
                                >((e0.push(f2), vx)));
                                assert(e0.push(f2).drop_last() =~= e0);
                                lemma_run_cons(e0.push(f2), vx, Some(o2), n3, none);
                                match literal_value(t3) {
                                    Some(c) => {
                                        let vxc = vx.push(c);
                                        assert(vxc[vxc.len() - 2] == x);
                                        match bin_value(op2, x, c) {
                                            Some(y) => {
                                                assert(vxc.drop_last().drop_last().push(y)
                                                    =~= v0.push(y));
                                                assert(drain_spec(e0, v0.push(y)) == Ok::<
                                                    Seq<u64>,
                                                    ParseErrorView,
                                                >(v0.push(y)));
                                            },
                                            None => {},
                                        }
                                    },
                                    None => {},
                                }
                            },
                            None => {
                                assert(queue_spec(e0.push(f1), vab, o2, bin_rank(op2)) == Err::<
                                    (Seq<Frame>, Seq<u64>),
                                    ParseErrorView,
                                >(ParseErrorView::DivideByZero(a)));
                            },
                        }
                    } else {
                        let ops2 = e0.push(f1).push(f2);
                        assert(queue_spec(e0.push(f1), vab, o2, bin_rank(op2)) == Ok::<
                            (Seq<Frame>, Seq<u64>),
                            ParseErrorView,
                        >((ops2, vab)));
                        lemma_run_cons(ops2, vab, Some(o2), n3, none);
                        match literal_value(t3) {
                            Some(c) => {
                                let vabc = vab.push(c);
                                assert(vabc[vabc.len() - 2] == b);
                                match bin_value(op2, b, c) {
                                    Some(x) => {
                                        let vax = va.push(x);
                                        assert(vabc.drop_last().drop_last().push(x) =~= vax);
                                        assert(vax[vax.len() - 2] == a);
                                        assert(apply_spec(o2, vabc) == Ok::<Seq<u64>, ParseErrorView>(vax));
                                        match bin_value(op1, a, x) {
                                            Some(y) => {
                                                assert(vax.drop_last().drop_last().push(y)
                                                    =~= v0.push(y));
                                                assert(apply_spec(o1, vax) == Ok::<
                                                    Seq<u64>,
                                                    ParseErrorView,
                                                >(v0.push(y)));
                                                assert(drain_spec(e0, v0.push(y)) == Ok::<
                                                    Seq<u64>,
                                                    ParseErrorView,
                                                >(v0.push(y)));
                                                assert(drain_spec(e0.push(f1), vax) == Ok::<
                                                    Seq<u64>,
                                                    ParseErrorView,
                                                >(v0.push(y)));
                                            },
                                            None => {
                                                assert(drain_spec(e0.push(f1), vax) == Err::<
                                                    Seq<u64>,
                                                    ParseErrorView,
                                                >(ParseErrorView::DivideByZero(a)));
                                            },
                                        }
                                        assert(drain_spec(ops2, vabc) == drain_spec(
                                            e0.push(f1),
                                            vax,
                                        ));
                                    },
                                    None => {},
                                }
                            },
                            None => {},
                        }
                    }
                },
                None => {},
            }
        },
        None => {},
    }
}

/// Whether `t` reads as one literal token: a digit, then hexadecimal digits,
/// where a leading `0` may be followed by a base letter.
pub open spec fn literal_text_ok(t: Seq<char>) -> bool {
    &&& t.len() > 0
    &&& is_digit(t[0])
    &&& forall|k: int|
        1 <= k < t.len() ==> #[trigger] is_hex_digit(t[k]) || (k == 1 && t[0] == '0'
            && is_base_letter(t[1]))
}

/// Whether every literal of `e` reads as one token.
pub open spec fn literals_ok(e: Expr) -> bool
    decreases e,
{
    match e {
        Expr::Literal(t) => literal_text_ok(t),
        Expr::Unary(_, x) => literals_ok(*x),
        Expr::Binary(l, _, r) => literals_ok(*l) && literals_ok(*r),
    }
}

/// The text of a fully bracketed expression, without blanks.
pub open spec fn expr_text(e: Expr) -> Seq<char>
    decreases e,
{
    match e {
        Expr::Literal(t) => t,
        Expr::Unary(op, x) => seq!['('] + un_op_text(op) + expr_text(*x) + seq![')'],
        Expr::Binary(l, op, r) => seq!['('] + expr_text(*l) + bin_op_text(op) + expr_text(*r)
            + seq![')'],
    }
}

proof fn lemma_lex_from_unfold(s: Seq<char>, i: int)
    requires
        0 <= i < s.len(),
    ensures
        lex_from(s, i) == match lex_step(s, i).0 {
            Some(t) => seq![t] + lex_from(s, lex_step(s, i).1),
            None => lex_from(s, lex_step(s, i).1),
        },
{
    lemma_lex_step_advances(s, i);
}

proof fn lemma_hex_run_to(s: Seq<char>, k: int, m: int)
    requires
        0 <= k <= m <= s.len(),
        forall|j: int| k <= j < m ==> is_hex_digit(#[trigger] s[j]),
        m == s.len() || !is_hex_digit(s[m]),
    ensures
        hex_run_end(s, k) == m,
    decreases m - k,
{
    if k < m {
        lemma_hex_run_to(s, k + 1, m);
    }
}

/// Where `t` stands in `s` at `i`.
pub open spec fn stands_at(s: Seq<char>, i: int, t: Seq<char>) -> bool {
    0 <= i && i + t.len() <= s.len() && s.subrange(i, i + t.len()) == t
}

proof fn lemma_stands_at_char(s: Seq<char>, i: int, t: Seq<char>, k: int)
    requires
        stands_at(s, i, t),
        0 <= k < t.len(),
    ensures
        s[i + k] == t[k],
{
    assert(s.subrange(i, i + t.len())[k] == s[i + k]);
}

proof fn lemma_stands_at_part(s: Seq<char>, i: int, t: Seq<char>, a: int, b: int)
    requires
        stands_at(s, i, t),
        0 <= a <= b <= t.len(),
    ensures
        stands_at(s, i + a, t.subrange(a, b)),
{
    assert(s.subrange(i + a, i + b) =~= t.subrange(a, b));
}

/// Whether the text of `e` stands in `s` at `i`, its literals read as single
/// tokens, and what follows cannot extend its last token.
pub open spec fn placed(e: Expr, s: Seq<char>, i: int) -> bool {
    &&& literals_ok(e)
    &&& stands_at(s, i, expr_text(e))
    &&& (i + expr_text(e).len() == s.len() || (!is_hex_digit(s[i + expr_text(e).len()])
        && !is_base_letter(s[i + expr_text(e).len()])))
}

/// Whether lexing `s` from `i` gives the tokens of `e` and goes on after its
/// text.
pub open spec fn lexes_as(e: Expr, s: Seq<char>, i: int) -> bool {
    lex_from(s, i) == expr_tokens(e) + lex_from(s, i + expr_text(e).len())
}

proof fn lemma_literal_lex(lit: Seq<char>, s: Seq<char>, i: int)
    requires
        placed(Expr::Literal(lit), s, i),
    ensures
        lexes_as(Expr::Literal(lit), s, i),
{
    let e = Expr::Literal(lit);
    let t = expr_text(e);
    let n = t.len() as int;
    lemma_stands_at_char(s, i, t, 0);
    lemma_lex_from_unfold(s, i);
    assert forall|j: int| i + 1 <= j < i + n implies is_hex_digit(#[trigger] s[j])
        || (j == i + 1 && s[i] == '0' && is_base_letter(s[i + 1])) by {
        lemma_stands_at_char(s, i, t, j - i);
        assert(is_hex_digit(t[j - i]) || (j - i == 1 && t[0] == '0' && is_base_letter(
            t[1],
        )));
        if j == i + 1 {
            lemma_stands_at_char(s, i, t, 1);
        }
    }
    if s[i] == '0' && i + 1 < s.len() && is_base_letter(s[i + 1]) {
        if n >= 2 {
            lemma_hex_run_to(s, i + 2, i + n);
        }
    } else {
        assert forall|j: int| i + 1 <= j < i + n implies is_hex_digit(#[trigger] s[j]) by {
            lemma_stands_at_char(s, i, t, j - i);
            if j == i + 1 {
                lemma_stands_at_char(s, i, t, 1);
            }
        }
        lemma_hex_run_to(s, i + 1, i + n);
    }
    assert(expr_tokens(e) =~= seq![TokenView::Number(lit)]);
}

#[verifier::rlimit(40)]
proof fn lemma_unary_lex(op: UnOp, x: Expr, s: Seq<char>, i: int)
    requires
        placed(Expr::Unary(op, Box::new(x)), s, i),
        placed(x, s, i + 2) ==> lexes_as(x, s, i + 2),
    ensures
        lexes_as(Expr::Unary(op, Box::new(x)), s, i),
{
    let e = Expr::Unary(op, Box::new(x));
    let t = expr_text(e);
    let n = t.len() as int;
    let xt = expr_text(x);
    let ot = un_op_text(op);
    let xn = xt.len() as int;
    assert(t =~= seq!['('] + ot + xt + seq![')']);
    lemma_stands_at_char(s, i, t, 0);
    lemma_stands_at_char(s, i, t, 1);
    lemma_stands_at_part(s, i, t, 2, 2 + xn);
    assert(t.subrange(2, 2 + xn) =~= xt);
    lemma_stands_at_char(s, i, t, n - 1);
    lemma_lex_from_unfold(s, i);
    lemma_lex_from_unfold(s, i + 1);
    assert(s.subrange(i + 1, i + 2) =~= ot);
    assert(placed(x, s, i + 2));
    lemma_lex_from_unfold(s, i + 2 + xn);
    let close = seq![TokenView::CloseParen];
    assert(expr_tokens(e) + lex_from(s, i + n) =~= seq![TokenView::OpenParen] + (seq![
        TokenView::UnaryOperator(ot),
    ] + (expr_tokens(x) + (close + lex_from(s, i + n)))));
}

#[verifier::rlimit(40)]
proof fn lemma_binary_lex(l: Expr, op: BinOp, r: Expr, s: Seq<char>, i: int)
    requires
        placed(Expr::Binary(Box::new(l), op, Box::new(r)), s, i),
        placed(l, s, i + 1) ==> lexes_as(l, s, i + 1),
        forall|q: int| placed(r, s, q) ==> #[trigger] lexes_as(r, s, q),
    ensures
        lexes_as(Expr::Binary(Box::new(l), op, Box::new(r)), s, i),
{
    let e = Expr::Binary(Box::new(l), op, Box::new(r));
    let t = expr_text(e);
    let n = t.len() as int;
    let lt = expr_text(l);
    let rt = expr_text(r);
    let ot = bin_op_text(op);
    let ln = lt.len() as int;
    let rn = rt.len() as int;
    let on = ot.len() as int;
    let p = i + 1 + ln;
    let q = p + on;
    assert(t =~= seq!['('] + lt + ot + rt + seq![')']);
    lemma_stands_at_char(s, i, t, 0);
    lemma_stands_at_part(s, i, t, 1, 1 + ln);
    assert(t.subrange(1, 1 + ln) =~= lt);
    lemma_stands_at_part(s, i, t, 1 + ln + on, 1 + ln + on + rn);
    assert(t.subrange(1 + ln + on, 1 + ln + on + rn) =~= rt);
    lemma_stands_at_part(s, i, t, 1 + ln, 1 + ln + on);
    assert(t.subrange(1 + ln, 1 + ln + on) =~= ot);
    lemma_stands_at_char(s, i, t, 1 + ln);
    lemma_stands_at_char(s, i, t, n - 1);
    assert(s[p] == ot[0]);
    if on == 2 {
        lemma_stands_at_char(s, i, t, 2 + ln);
        assert(s[p + 1] == ot[1]);
    }
    lemma_lex_from_unfold(s, i);
    assert(placed(l, s, i + 1));
    lemma_lex_from_unfold(s, p);
    assert(s.subrange(p, q) == ot);
    assert(placed(r, s, q));
    assert(lexes_as(r, s, q));
    lemma_lex_from_unfold(s, q + rn);
    let close = seq![TokenView::CloseParen];
    assert(expr_tokens(e) + lex_from(s, i + n) =~= seq![TokenView::OpenParen] + (expr_tokens(l)
        + (seq![TokenView::Operator(ot)] + (expr_tokens(r) + (close + lex_from(s, i + n))))));
}

/// Lexing the text of `e` where it stands in `s` gives the tokens of `e`,
/// when what follows cannot extend its last token.
proof fn lemma_expr_lex(e: Expr, s: Seq<char>, i: int)
    requires
        placed(e, s, i),
    ensures
        lexes_as(e, s, i),
    decreases e,
{
    match e {
        Expr::Literal(lit) => {
            lemma_literal_lex(lit, s, i);
        },
        Expr::Unary(op, x) => {
            if placed(*x, s, i + 2) {
                lemma_expr_lex(*x, s, i + 2);
            }
            lemma_unary_lex(op, *x, s, i);
        },
        Expr::Binary(l, op, r) => {
            if placed(*l, s, i + 1) {
                lemma_expr_lex(*l, s, i + 1);
            }
            assert forall|q: int| placed(*r, s, q) implies #[trigger] lexes_as(*r, s, q) by {
                lemma_expr_lex(*r, s, q);
            }
            lemma_binary_lex(*l, op, *r, s, i);
        },
    }
}

/// The text of a fully bracketed expression evaluates as its brackets group
/// it, whatever the ranks of its operators.
pub proof fn lemma_bracketed_text_evaluation(e: Expr)
    requires
        literals_ok(e),
    ensures
        evaluate(expr_text(e)) == expr_value(e),
{
    let s = expr_text(e);
    assert(s.subrange(0, s.len() as int) =~= s);
    lemma_expr_lex(e, s, 0);
    assert(lex_spec(s) =~= expr_tokens(e));
    lemma_bracketed_evaluation(e);
}

/// The text `l op r`, without outer brackets, evaluates as `(l op r)`.
#[verifier::rlimit(40)]
pub proof fn lemma_outer_brackets_optional_text(l: Expr, op: BinOp, r: Expr)
    requires
        literals_ok(l),
        literals_ok(r),
    ensures
        evaluate(expr_text(l) + bin_op_text(op) + expr_text(r)) == expr_value(
            Expr::Binary(Box::new(l), op, Box::new(r)),
        ),
{
    let lt = expr_text(l);
    let rt = expr_text(r);
    let ot = bin_op_text(op);
    let s = lt + ot + rt;
    let ln = lt.len() as int;
    let rn = rt.len() as int;
    let on = ot.len() as int;
    let p = ln;
    let q = p + on;
    assert(s.subrange(0, ln) =~= lt);
    assert(s.subrange(q, q + rn) =~= rt);
    assert(s.subrange(p, q) =~= ot);
    assert(s[p] == ot[0]);
    if on == 2 {
        assert(s[p + 1] == ot[1]);
    }
    assert(placed(l, s, 0));
    lemma_expr_lex(l, s, 0);
    lemma_lex_from_unfold(s, p);
    assert(placed(r, s, q));
    lemma_expr_lex(r, s, q);
    assert(lex_from(s, q + rn) =~= Seq::<TokenView>::empty());
    assert(lex_spec(s) =~= expr_tokens(l) + seq![TokenView::Operator(ot)] + expr_tokens(r));
    lemma_outer_brackets_optional(l, op, r);
}

/// Evaluating the same text twice gives the same result, error included: two
/// results that both meet the contract of `parse` for one input agree.
pub proof fn lemma_parse_repeatable(
    input: Seq<char>,
    r1: Result<u64, ParseError>,
    r2: Result<u64, ParseError>,
)
    requires
        result_view(r1) == evaluate(input),
        result_view(r2) == evaluate(input),
    ensures
        result_view(r1) == result_view(r2),
{
}

} // verus!
