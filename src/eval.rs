//! The evaluator: one pass over the tokens with an operator stack and an
//! operand stack, reducing eagerly by rank.
use vstd::prelude::*;
use vstd::string::*;
use crate::token::{Token, TokenView, tokens_view};
use crate::lexer::{lex, lex_spec};
use crate::number::{literal_value, parse_number};
use crate::ops::{bin_op_of, bin_value, un_op_of, un_value, rank_of, unary_rank, classify_binary, classify_unary, apply_binary, apply_unary, operator_precedence};

verus! {

/// Why an expression has no value.
#[derive(Clone, Debug, PartialEq, Eq)]
pub enum ParseError {
    /// A character that no token accepts.
    UnrecognisedToken(char),
    /// A literal that does not read in its radix, or does not fit in 64 bits.
    UnrecognisedNumber(String),
    /// A binary operator where a value was expected.
    SyntaxError(String),
    /// A `)` with no `(` before it.
    MissingOpenBracket,
    /// A `(` that is never closed.
    UnexpectedOpenBracket,
    /// An operator with too few operands.
    NotEnoughOperands,
    /// A `/` or `%` whose right operand is zero; the left operand is kept.
    DivideByZero(u64),
    /// An operator frame whose text is no operator.
    UnsupportedOperator,
    /// Nothing to evaluate.
    NoInput,
}

/// The view of an error, with text as a sequence of characters.
pub ghost enum ParseErrorView {
    UnrecognisedToken(char),
    UnrecognisedNumber(Seq<char>),
    SyntaxError(Seq<char>),
    MissingOpenBracket,
    UnexpectedOpenBracket,
    NotEnoughOperands,
    DivideByZero(u64),
    UnsupportedOperator,
    NoInput,
}

impl View for ParseError {
    type V = ParseErrorView;

    open spec fn view(&self) -> ParseErrorView {
        match self {
            ParseError::UnrecognisedToken(c) => ParseErrorView::UnrecognisedToken(*c),
            ParseError::UnrecognisedNumber(s) => ParseErrorView::UnrecognisedNumber(s@),
            ParseError::SyntaxError(s) => ParseErrorView::SyntaxError(s@),
            ParseError::MissingOpenBracket => ParseErrorView::MissingOpenBracket,
            ParseError::UnexpectedOpenBracket => ParseErrorView::UnexpectedOpenBracket,
            ParseError::NotEnoughOperands => ParseErrorView::NotEnoughOperands,
            ParseError::DivideByZero(a) => ParseErrorView::DivideByZero(*a),
            ParseError::UnsupportedOperator => ParseErrorView::UnsupportedOperator,
            ParseError::NoInput => ParseErrorView::NoInput,
        }
    }
}

/// The decimal digit that `d < 10` stands for.
pub open spec fn digit_char(d: nat) -> char {
    seq!['0', '1', '2', '3', '4', '5', '6', '7', '8', '9'][d as int % 10]
}

/// The decimal digits of `n`, most significant first, without leading zeros.
pub open spec fn decimal_digits(n: nat) -> Seq<char>
    decreases n,
{
    if n < 10 {
        seq![digit_char(n)]
    } else {
        decimal_digits(n / 10) + seq![digit_char(n % 10)]
    }
}

/// The one-character text of a decimal digit.
fn digit_text(d: u64) -> (r: &'static str)
    requires
        d < 10,
    ensures
        r@ == seq![digit_char(d as nat)],
{
    let r = match d {
        0 => "0",
        1 => "1",
        2 => "2",
        3 => "3",
        4 => "4",
        5 => "5",
        6 => "6",
        7 => "7",
        8 => "8",
        _ => "9",
    };
    proof {
        reveal_strlit("0");
        reveal_strlit("1");
        reveal_strlit("2");
        reveal_strlit("3");
        reveal_strlit("4");
        reveal_strlit("5");
        reveal_strlit("6");
        reveal_strlit("7");
        reveal_strlit("8");
        reveal_strlit("9");
        assert(r@ =~= seq![digit_char(d as nat)]);
    }
    r
}

/// Appends the decimal digits of `n` to `m`.
fn append_decimal(m: &mut String, n: u64)
    ensures
        final(m)@ == old(m)@ + decimal_digits(n as nat),
    decreases n,
{
    if n >= 10 {
        append_decimal(m, n / 10);
    }
    m.append(digit_text(n % 10));
    proof {
        if n >= 10 {
            assert(old(m)@ + decimal_digits(n as nat) =~= old(m)@ + decimal_digits((n / 10) as nat)
                + seq![digit_char((n % 10) as nat)]);
        }
    }
}

/// Relies on `char`'s `ToString` (through `Display`): the string of that one
/// character.
#[verifier::external_body]
fn char_text(c: char) -> (r: String)
    ensures
        r@ == seq![c],
{
    c.to_string()
}

/// The message that describes an error.
pub open spec fn error_message(e: ParseErrorView) -> Seq<char> {
    match e {
        ParseErrorView::UnrecognisedToken(c) => "Unrecognised token "@ + seq![c],
        ParseErrorView::UnrecognisedNumber(s) => "Unrecognised number "@ + s,
        ParseErrorView::SyntaxError(s) => "Syntax error at token "@ + s,
        ParseErrorView::MissingOpenBracket => "Missing open bracket"@,
        ParseErrorView::UnexpectedOpenBracket => "Unexpected open bracket"@,
        ParseErrorView::NotEnoughOperands => "Not enough operands"@,
        ParseErrorView::DivideByZero(a) => "Divide by zero '"@ + decimal_digits(a as nat)
            + " / 0'"@,
        ParseErrorView::UnsupportedOperator => "Unsupported operator"@,
        ParseErrorView::NoInput => "No input"@,
    }
}

impl ParseError {
    /// A message that describes the error.
    pub fn message(&self) -> (r: String)
        ensures
            r@ == error_message(self@),
    {
        match self {
            ParseError::UnrecognisedToken(c) => {
                let mut m = String::from_str("Unrecognised token ");
                m.append(char_text(*c).as_str());
                m
            },
            ParseError::UnrecognisedNumber(t) => {
                let mut m = String::from_str("Unrecognised number ");
                m.append(t.as_str());
                m
            },
            ParseError::SyntaxError(t) => {
                let mut m = String::from_str("Syntax error at token ");
                m.append(t.as_str());
                m
            },
            ParseError::MissingOpenBracket => String::from_str("Missing open bracket"),
            ParseError::UnexpectedOpenBracket => String::from_str("Unexpected open bracket"),
            ParseError::NotEnoughOperands => String::from_str("Not enough operands"),
            ParseError::DivideByZero(a) => {
                let mut m = String::from_str("Divide by zero '");
                append_decimal(&mut m, *a);
                m.append(" / 0'");
                m
            },
            ParseError::UnsupportedOperator => String::from_str("Unsupported operator"),
            ParseError::NoInput => String::from_str("No input"),
        }
    }
}

/// The view of a result of the library.
pub open spec fn result_view<T>(r: Result<T, ParseError>) -> Result<T, ParseErrorView> {
    match r {
        Ok(v) => Ok(v),
        Err(e) => Err(e@),
    }
}

/// A pending operator: an open bracket, a unary or a binary operator, with its
/// rank.
pub struct Operator {
    pub token: Token,
    pub precedence: i32,
}

/// The view of an operator frame.
pub type Frame = (TokenView, int);

pub open spec fn frames_view(ops: Seq<Operator>) -> Seq<Frame> {
    ops.map_values(|o: Operator| (o.token@, o.precedence as int))
}

/// The rank of an open bracket: no operator ever pops it by rank.
pub open spec fn bracket_rank() -> int {
    100
}

/// Applies the operator of a frame to the top of the operand stack.
pub open spec fn apply_spec(op: TokenView, vals: Seq<u64>) -> Result<Seq<u64>, ParseErrorView> {
    match op {
        TokenView::UnaryOperator(s) => match un_op_of(s) {
            Some(u) => if vals.len() == 0 {
                Err(ParseErrorView::NotEnoughOperands)
            } else {
                Ok(vals.drop_last().push(un_value(u, vals.last())))
            },
            None => if vals.len() == 0 {
                Err(ParseErrorView::NotEnoughOperands)
            } else {
                Err(ParseErrorView::UnsupportedOperator)
            },
        },
        TokenView::Operator(s) => if vals.len() < 2 {
            Err(ParseErrorView::NotEnoughOperands)
        } else {
            let a = vals[vals.len() - 2];
            let b = vals.last();
            match bin_op_of(s) {
                Some(op) => match bin_value(op, a, b) {
                    Some(v) => Ok(vals.drop_last().drop_last().push(v)),
                    None => Err(ParseErrorView::DivideByZero(a)),
                },
                None => Err(ParseErrorView::UnsupportedOperator),
            }
        },
        _ => if vals.len() == 0 {
            Err(ParseErrorView::NotEnoughOperands)
        } else {
            Err(ParseErrorView::UnsupportedOperator)
        },
    }
}

/// Whether a frame of rank `top` is applied before an operator `t` of rank
/// `p` is pushed: a `(` displaces nothing; a binary operator waits for every
/// frame of its rank or tighter, so that operators of one rank group from the
/// left; a unary operator waits only for strictly tighter frames, so that
/// `~~x` nests.
pub open spec fn reduces_before(top: int, t: TokenView, p: int) -> bool {
    if t is OpenParen {
        false
    } else if t is UnaryOperator {
        top < p
    } else {
        top <= p
    }
}

/// Pushes an operator of rank `p`, first applying the frames on top that
/// `reduces_before` selects, down to the nearest `(`.
pub open spec fn queue_spec(ops: Seq<Frame>, vals: Seq<u64>, t: TokenView, p: int) -> Result<
    (Seq<Frame>, Seq<u64>),
    ParseErrorView,
>
    decreases ops.len(),
{
    if ops.len() > 0 && !(ops.last().0 is OpenParen) && reduces_before(ops.last().1, t, p) {
        match apply_spec(ops.last().0, vals) {
            Ok(vals2) => queue_spec(ops.drop_last(), vals2, t, p),
            Err(e) => Err(e),
        }
    } else {
        Ok((ops.push((t, p)), vals))
    }
}

/// On a `)`: applies frames down to the nearest `(`, which is dropped.
pub open spec fn close_spec(ops: Seq<Frame>, vals: Seq<u64>) -> Result<
    (Seq<Frame>, Seq<u64>),
    ParseErrorView,
>
    decreases ops.len(),
{
    if ops.len() == 0 {
        Err(ParseErrorView::MissingOpenBracket)
    } else if ops.last().0 is OpenParen {
        Ok((ops.drop_last(), vals))
    } else {
        match apply_spec(ops.last().0, vals) {
            Ok(vals2) => close_spec(ops.drop_last(), vals2),
            Err(e) => Err(e),
        }
    }
}

/// At the end of the input: applies every frame left, top first.
pub open spec fn drain_spec(ops: Seq<Frame>, vals: Seq<u64>) -> Result<Seq<u64>, ParseErrorView>
    decreases ops.len(),
{
    if ops.len() == 0 {
        Ok(vals)
    } else if ops.last().0 is OpenParen {
        Err(ParseErrorView::UnexpectedOpenBracket)
    } else {
        match apply_spec(ops.last().0, vals) {
            Ok(vals2) => drain_spec(ops.drop_last(), vals2),
            Err(e) => Err(e),
        }
    }
}

/// A binary operator may follow only a token that produces a value.
pub open spec fn allows_operator(prev: Option<TokenView>) -> bool {
    match prev {
        Some(TokenView::Number(_)) | Some(TokenView::Identifier(_)) | Some(TokenView::CloseParen) => true,
        _ => false,
    }
}

/// What one token does to the two stacks.
pub open spec fn step_spec(ops: Seq<Frame>, vals: Seq<u64>, prev: Option<TokenView>, t: TokenView) -> Result<
    (Seq<Frame>, Seq<u64>),
    ParseErrorView,
> {
    match t {
        TokenView::OpenParen => queue_spec(ops, vals, t, bracket_rank()),
        TokenView::CloseParen => close_spec(ops, vals),
        TokenView::UnaryOperator(_) => queue_spec(ops, vals, t, unary_rank()),
        TokenView::Operator(s) => if allows_operator(prev) {
            queue_spec(ops, vals, t, rank_of(s))
        } else {
            Err(ParseErrorView::SyntaxError(s))
        },
        TokenView::Number(s) => match literal_value(s) {
            Some(v) => Ok((ops, vals.push(v))),
            None => Err(ParseErrorView::UnrecognisedNumber(s)),
        },
        TokenView::Identifier(_) => Ok((ops, vals)),
        TokenView::Unknown(c) => Err(ParseErrorView::UnrecognisedToken(c)),
    }
}

/// The stacks after the tokens `ts`, from the given stacks and previous token.
pub open spec fn run_spec(ops: Seq<Frame>, vals: Seq<u64>, prev: Option<TokenView>, ts: Seq<TokenView>) -> Result<
    (Seq<Frame>, Seq<u64>),
    ParseErrorView,
>
    decreases ts.len(),
{
    if ts.len() == 0 {
        Ok((ops, vals))
    } else {
        match step_spec(ops, vals, prev, ts[0]) {
            Ok((ops2, vals2)) => run_spec(ops2, vals2, Some(ts[0]), ts.drop_first()),
            Err(e) => Err(e),
        }
    }
}

/// The value of a token sequence: run it from empty stacks, apply what is
/// left, and take the top operand.
pub open spec fn eval_tokens(ts: Seq<TokenView>) -> Result<u64, ParseErrorView> {
    match run_spec(Seq::empty(), Seq::empty(), None, ts) {
        Ok((ops, vals)) => match drain_spec(ops, vals) {
            Ok(vals2) => if vals2.len() == 0 {
                Err(ParseErrorView::NoInput)
            } else {
                Ok(vals2.last())
            },
            Err(e) => Err(e),
        },
        Err(e) => Err(e),
    }
}

/// The value of an expression's text.
pub open spec fn evaluate(s: Seq<char>) -> Result<u64, ParseErrorView> {
    eval_tokens(lex_spec(s))
}

/// The view of the previous token, if any.
pub open spec fn prev_view(p: Option<&Token>) -> Option<TokenView> {
    match p {
        Some(t) => Some(t@),
        None => None,
    }
}

/// A copy of a token.
fn copy_token(t: &Token) -> (r: Token)
    ensures
        r@ == t@,
{
    match t {
        Token::Unknown(c) => Token::Unknown(*c),
        Token::OpenParen => Token::OpenParen,
        Token::CloseParen => Token::CloseParen,
        Token::UnaryOperator(s) => Token::UnaryOperator(s.clone()),
        Token::Operator(s) => Token::Operator(s.clone()),
        Token::Number(s) => Token::Number(s.clone()),
        Token::Identifier(s) => Token::Identifier(s.clone()),
    }
}

/// Applies the operator of `op` to the top of `operands`.
pub fn apply_operator(op: &Operator, operands: &mut Vec<u64>) -> (r: Result<(), ParseError>)
    ensures
        match apply_spec(op.token@, old(operands)@) {
            Ok(vals) => r is Ok && final(operands)@ == vals,
            Err(e) => r is Err && r->Err_0@ == e,
        },
{
    let b = match operands.pop() {
        Some(b) => b,
        None => {
            return Err(ParseError::NotEnoughOperands);
        },
    };
    match &op.token {
        Token::UnaryOperator(s) => match classify_unary(s.as_str()) {
            Some(u) => {
                operands.push(apply_unary(u, b));
                Ok(())
            },
            None => Err(ParseError::UnsupportedOperator),
        },
        Token::Operator(s) => {
            let a = match operands.pop() {
                Some(a) => a,
                None => {
                    return Err(ParseError::NotEnoughOperands);
                },
            };
            match classify_binary(s.as_str()) {
                Some(bop) => match apply_binary(bop, a, b) {
                    Some(v) => {
                        operands.push(v);
                        Ok(())
                    },
                    None => Err(ParseError::DivideByZero(a)),
                },
                None => Err(ParseError::UnsupportedOperator),
            }
        },
        _ => Err(ParseError::UnsupportedOperator),
    }
}

proof fn lemma_frames_pop(ops: Seq<Operator>)
    requires
        ops.len() > 0,
    ensures
        frames_view(ops.drop_last()) == frames_view(ops).drop_last(),
        frames_view(ops).last() == (ops.last().token@, ops.last().precedence as int),
{
    assert(frames_view(ops.drop_last()) =~= frames_view(ops).drop_last());
}

proof fn lemma_frames_push(ops: Seq<Operator>, o: Operator)
    ensures
        frames_view(ops.push(o)) == frames_view(ops).push((o.token@, o.precedence as int)),
{
    assert(frames_view(ops.push(o)) =~= frames_view(ops).push((o.token@, o.precedence as int)));
}

/// Pushes `token` with rank `precedence`, first applying the frames on top
/// of the stack that `reduces_before` selects, down to the nearest `(`; a
/// `(` frame is never applied or removed here, and queuing a `(` applies
/// nothing. On an error no frame is pushed and the stack is what was left
/// after the frames applied so far.
pub fn queue_operator(
    token: &Token,
    precedence: i32,
    operators: &mut Vec<Operator>,
    operands: &mut Vec<u64>,
) -> (r: Result<(), ParseError>)
    ensures
        match queue_spec(
            frames_view(old(operators)@),
            old(operands)@,
            token@,
            precedence as int,
        ) {
            Ok((ops, vals)) => r is Ok && frames_view(final(operators)@) == ops && final(operands)@
                == vals,
            Err(e) => r is Err && r->Err_0@ == e,
        },
        r is Err ==> final(operators).len() <= old(operators).len() && final(operators)@
            == old(operators)@.subrange(0, final(operators).len() as int),
        r is Err ==> forall|j: int|
            final(operators).len() <= j < old(operators).len() ==> !(#[trigger] old(
                operators,
            )@[j].token is OpenParen),
{
    let ghost goal = queue_spec(frames_view(operators@), operands@, token@, precedence as int);
    let ghost start = operators@;
    let unary = matches!(token, Token::UnaryOperator(_));
    let bracket = matches!(token, Token::OpenParen);
    while !bracket && operators.len() > 0 && !matches!(operators[operators.len() - 1].token, Token::OpenParen)
        && (operators[operators.len() - 1].precedence < precedence || (!unary
        && operators[operators.len() - 1].precedence == precedence))
        invariant
            start == old(operators)@,
            unary == (token@ is UnaryOperator),
            bracket == (token@ is OpenParen),
            operators.len() <= start.len(),
            operators@ == start.subrange(0, operators.len() as int),
            forall|j: int| operators.len() <= j < start.len() ==> !(#[trigger] start[j].token is OpenParen),
            goal == queue_spec(frames_view(operators@), operands@, token@, precedence as int),
            goal == queue_spec(
                frames_view(old(operators)@),
                old(operands)@,
                token@,
                precedence as int,
            ),
        decreases operators.len(),
    {
        proof {
            lemma_frames_pop(operators@);
        }
        let ghost before = operators@;
        let top = operators.pop().unwrap();
        proof {
            assert(operators@ =~= start.subrange(0, operators.len() as int));
            assert(before[before.len() - 1] == start[operators.len() as int]);
        }
        match apply_operator(&top, operands) {
            Ok(()) => {},
            Err(e) => {
                return Err(e);
            },
        }
    }
    let frame = Operator { token: copy_token(token), precedence };
    proof {
        lemma_frames_push(operators@, frame);
    }
    operators.push(frame);
    Ok(())
}

/// On a `)`: applies frames down to the nearest `(` and drops it.
fn close_bracket(operators: &mut Vec<Operator>, operands: &mut Vec<u64>) -> (r: Result<(), ParseError>)
    ensures
        match close_spec(frames_view(old(operators)@), old(operands)@) {
            Ok((ops, vals)) => r is Ok && frames_view(final(operators)@) == ops && final(operands)@
                == vals,
            Err(e) => r is Err && r->Err_0@ == e,
        },
{
    let ghost goal = close_spec(frames_view(operators@), operands@);
    loop
        invariant
            goal == close_spec(frames_view(operators@), operands@),
            goal == close_spec(frames_view(old(operators)@), old(operands)@),
        decreases operators.len(),
    {
        if operators.len() == 0 {
            return Err(ParseError::MissingOpenBracket);
        }
        proof {
            lemma_frames_pop(operators@);
        }
        let top = operators.pop().unwrap();
        if let Token::OpenParen = top.token {
            return Ok(());
        }
        match apply_operator(&top, operands) {
            Ok(()) => {},
            Err(e) => {
                return Err(e);
            },
        }
    }
}

/// At the end of the input: applies every frame left, top first.
fn drain_operators(operators: &mut Vec<Operator>, operands: &mut Vec<u64>) -> (r: Result<(), ParseError>)
    ensures
        match drain_spec(frames_view(old(operators)@), old(operands)@) {
            Ok(vals) => r is Ok && final(operands)@ == vals,
            Err(e) => r is Err && r->Err_0@ == e,
        },
{
    let ghost goal = drain_spec(frames_view(operators@), operands@);
    loop
        invariant
            goal == drain_spec(frames_view(operators@), operands@),
            goal == drain_spec(frames_view(old(operators)@), old(operands)@),
        decreases operators.len(),
    {
        if operators.len() == 0 {
            return Ok(());
        }
        proof {
            lemma_frames_pop(operators@);
        }
        let top = operators.pop().unwrap();
        if let Token::OpenParen = top.token {
            return Err(ParseError::UnexpectedOpenBracket);
        }
        match apply_operator(&top, operands) {
            Ok(()) => {},
            Err(e) => {
                return Err(e);
            },
        }
    }
}

/// Whether a binary operator may follow `prev_token`: only a number, an
/// identifier or a `)` produce a value.
fn is_prev_compatible(prev_token: Option<&Token>) -> (r: bool)
    ensures
        r == allows_operator(prev_view(prev_token)),
{
    match prev_token {
        Some(Token::Number(_)) | Some(Token::Identifier(_)) | Some(Token::CloseParen) => true,
        _ => false,
    }
}

/// Evaluates an expression over unsigned 64-bit integers.
///
/// Brackets group; `~` and `!` bind tightest, then `* / %`, `+ -`,
/// `<< >>`, `& ^` and `|`. Operators of one rank group from the left.
/// Addition, subtraction and multiplication wrap; a shift by 64 or more
/// gives 0; `/` and `%` by zero fail.
pub fn parse(input: &str) -> (r: Result<u64, ParseError>)
    ensures
        result_view(r) == evaluate(input@),
{
    let tokens = lex(input);
    let ghost ts = tokens_view(tokens@);
    let mut operators: Vec<Operator> = Vec::new();
    let mut operands: Vec<u64> = Vec::new();
    let mut prev: Option<&Token> = None;
    let n = tokens.len();
    let mut i: usize = 0;
    proof {
        assert(ts.subrange(0, n as int) =~= ts);
        assert(frames_view(operators@) =~= Seq::<Frame>::empty());
    }
    while i < n
        invariant
            n == tokens.len(),
            i <= n,
            ts == tokens_view(tokens@),
            ts == lex_spec(input@),
            run_spec(Seq::empty(), Seq::empty(), None, ts) == run_spec(
                frames_view(operators@),
                operands@,
                prev_view(prev),
                ts.subrange(i as int, n as int),
            ),
        decreases n - i,
    {
        let token = &tokens[i];
        proof {
            assert(ts.subrange(i as int, n as int)[0] == token@);
            assert(ts.subrange(i as int, n as int).drop_first() =~= ts.subrange(
                i + 1,
                n as int,
            ));
        }
        match token {
            Token::OpenParen => match queue_operator(token, 100, &mut operators, &mut operands) {
                Ok(()) => {},
                Err(e) => {
                    return Err(e);
                },
            },
            Token::CloseParen => match close_bracket(&mut operators, &mut operands) {
                Ok(()) => {},
                Err(e) => {
                    return Err(e);
                },
            },
            Token::UnaryOperator(_) => match queue_operator(
                token,
                1,
                &mut operators,
                &mut operands,
            ) {
                Ok(()) => {},
                Err(e) => {
                    return Err(e);
                },
            },
            Token::Operator(op) => {
                if is_prev_compatible(prev) {
                    let p = operator_precedence(op.as_str());
                    match queue_operator(token, p, &mut operators, &mut operands) {
                        Ok(()) => {},
                        Err(e) => {
                            return Err(e);
                        },
                    }
                } else {
                    return Err(ParseError::SyntaxError(op.clone()));
                }
            },
            Token::Number(num_str) => match parse_number(num_str.as_str()) {
                Some(v) => operands.push(v),
                None => {
                    return Err(ParseError::UnrecognisedNumber(num_str.clone()));
                },
            },
            Token::Identifier(_) => {},
            Token::Unknown(c) => {
                return Err(ParseError::UnrecognisedToken(*c));
            },
        }
        prev = Some(token);
        i = i + 1;
    }
    match drain_operators(&mut operators, &mut operands) {
        Ok(()) => {},
        Err(e) => {
            return Err(e);
        },
    }
    match operands.pop() {
        Some(v) => Ok(v),
        None => Err(ParseError::NoInput),
    }
}

} // verus!
