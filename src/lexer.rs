//! Splitting an expression into tokens.
use vstd::prelude::*;
use vstd::string::*;
use crate::token::{Token, TokenView, tokens_view};

verus! {

pub open spec fn is_digit(c: char) -> bool {
    '0' <= c && c <= '9'
}

pub open spec fn is_hex_digit(c: char) -> bool {
    is_digit(c) || ('A' <= c && c <= 'F') || ('a' <= c && c <= 'f')
}

pub open spec fn is_letter(c: char) -> bool {
    ('A' <= c && c <= 'Z') || ('a' <= c && c <= 'z')
}

pub open spec fn is_base_letter(c: char) -> bool {
    c == 'b' || c == 'o' || c == 'x'
}

pub open spec fn is_blank(c: char) -> bool {
    c == ' ' || c == '\t' || c == '\n' || c == '\r'
}

pub open spec fn is_binary_op_char(c: char) -> bool {
    c == '^' || c == '*' || c == '/' || c == '%' || c == '+' || c == '-' || c == '|' || c == '&'
}

/// The end of the longest run of hexadecimal digits of `s` that starts at `k`.
pub open spec fn hex_run_end(s: Seq<char>, k: int) -> int
    decreases s.len() - k,
{
    if 0 <= k < s.len() && is_hex_digit(s[k]) {
        hex_run_end(s, k + 1)
    } else {
        k
    }
}

/// The end of the longest run of letters of `s` that starts at `k`.
pub open spec fn letter_run_end(s: Seq<char>, k: int) -> int
    decreases s.len() - k,
{
    if 0 <= k < s.len() && is_letter(s[k]) {
        letter_run_end(s, k + 1)
    } else {
        k
    }
}

/// Where a literal that starts at `i` with a digit ends: a leading `0` may be
/// followed by one base letter, then every hexadecimal digit is taken.
pub open spec fn number_end(s: Seq<char>, i: int) -> int {
    if s[i] == '0' && i + 1 < s.len() && is_base_letter(s[i + 1]) {
        hex_run_end(s, i + 2)
    } else {
        hex_run_end(s, i + 1)
    }
}

/// What the lexer does at position `i < s.len()`: the token it emits, if any,
/// and where it goes on.
pub open spec fn lex_step(s: Seq<char>, i: int) -> (Option<TokenView>, int) {
    let c = s[i];
    if c == '(' {
        (Some(TokenView::OpenParen), i + 1)
    } else if c == ')' {
        (Some(TokenView::CloseParen), i + 1)
    } else if c == '<' || c == '>' {
        if i + 1 < s.len() && s[i + 1] == c {
            (Some(TokenView::Operator(s.subrange(i, i + 2))), i + 2)
        } else {
            (None, i + 1)
        }
    } else if c == '~' || c == '!' {
        (Some(TokenView::UnaryOperator(s.subrange(i, i + 1))), i + 1)
    } else if is_binary_op_char(c) {
        (Some(TokenView::Operator(s.subrange(i, i + 1))), i + 1)
    } else if is_base_letter(c) || is_blank(c) {
        (None, i + 1)
    } else if is_digit(c) {
        (Some(TokenView::Number(s.subrange(i, number_end(s, i)))), number_end(s, i))
    } else if is_letter(c) {
        (Some(TokenView::Identifier(s.subrange(i, letter_run_end(s, i + 1)))), letter_run_end(s, i + 1))
    } else {
        (Some(TokenView::Unknown(c)), i + 1)
    }
}

proof fn lemma_hex_run_end(s: Seq<char>, k: int)
    requires
        0 <= k <= s.len(),
    ensures
        k <= hex_run_end(s, k) <= s.len(),
    decreases s.len() - k,
{
    if k < s.len() && is_hex_digit(s[k]) {
        lemma_hex_run_end(s, k + 1);
    }
}

proof fn lemma_letter_run_end(s: Seq<char>, k: int)
    requires
        0 <= k <= s.len(),
    ensures
        k <= letter_run_end(s, k) <= s.len(),
    decreases s.len() - k,
{
    if k < s.len() && is_letter(s[k]) {
        lemma_letter_run_end(s, k + 1);
    }
}

/// Every step of the lexer moves forward and stays within the input.
pub proof fn lemma_lex_step_advances(s: Seq<char>, i: int)
    requires
        0 <= i < s.len(),
    ensures
        i < lex_step(s, i).1 <= s.len(),
{
    lemma_hex_run_end(s, i + 1);
    if i + 2 <= s.len() {
        lemma_hex_run_end(s, i + 2);
    }
    lemma_letter_run_end(s, i + 1);
}

/// The tokens of `s` from position `i` on.
pub open spec fn lex_from(s: Seq<char>, i: int) -> Seq<TokenView>
    decreases s.len() - i,
{
    if 0 <= i < s.len() {
        let (t, j) = lex_step(s, i);
        if i < j <= s.len() {
            match t {
                Some(t) => seq![t] + lex_from(s, j),
                None => lex_from(s, j),
            }
        } else {
            Seq::empty()
        }
    } else {
        Seq::empty()
    }
}

/// The tokens of `s`, left to right.
pub open spec fn lex_spec(s: Seq<char>) -> Seq<TokenView> {
    lex_from(s, 0)
}

fn digit(c: char) -> (b: bool)
    ensures
        b == is_digit(c),
{
    '0' <= c && c <= '9'
}

fn hex_digit(c: char) -> (b: bool)
    ensures
        b == is_hex_digit(c),
{
    digit(c) || ('A' <= c && c <= 'F') || ('a' <= c && c <= 'f')
}

fn letter(c: char) -> (b: bool)
    ensures
        b == is_letter(c),
{
    ('A' <= c && c <= 'Z') || ('a' <= c && c <= 'z')
}

fn hex_run(cs: &Vec<char>, k: usize) -> (e: usize)
    requires
        k <= cs.len(),
    ensures
        e == hex_run_end(cs@, k as int),
{
    let mut e: usize = k;
    while e < cs.len() && hex_digit(cs[e])
        invariant
            k <= e <= cs.len(),
            hex_run_end(cs@, e as int) == hex_run_end(cs@, k as int),
        decreases cs.len() - e,
    {
        e = e + 1;
    }
    e
}

fn letter_run(cs: &Vec<char>, k: usize) -> (e: usize)
    requires
        k <= cs.len(),
    ensures
        e == letter_run_end(cs@, k as int),
{
    let mut e: usize = k;
    while e < cs.len() && letter(cs[e])
        invariant
            k <= e <= cs.len(),
            letter_run_end(cs@, e as int) == letter_run_end(cs@, k as int),
        decreases cs.len() - e,
    {
        e = e + 1;
    }
    e
}

/// The characters of `input`, in order.
pub(crate) fn chars_of(input: &str) -> (cs: Vec<char>)
    ensures
        cs@ == input@,
{
    let mut cs: Vec<char> = Vec::new();
    for c in it: input.chars()
        invariant
            cs@ == it.seq().take(it.index() as int),
    {
        cs.push(c);
    }
    cs
}

/// The view of an optional token.
pub open spec fn opt_token_view(t: Option<Token>) -> Option<TokenView> {
    match t {
        Some(t) => Some(t@),
        None => None,
    }
}

/// The token of `input` text from `i` to `j`.
fn text(input: &str, i: usize, j: usize) -> (r: String)
    requires
        i <= j <= input@.len(),
    ensures
        r@ == input@.subrange(i as int, j as int),
{
    String::from_str(input.substring_char(i, j))
}

/// One step of the lexer at position `i`.
fn next_token(input: &str, cs: &Vec<char>, i: usize) -> (r: (Option<Token>, usize))
    requires
        cs@ == input@,
        i < cs.len(),
    ensures
        opt_token_view(r.0) == lex_step(input@, i as int).0,
        r.1 == lex_step(input@, i as int).1,
{
    let n = cs.len();
    let c = cs[i];
    if c == '(' {
        (Some(Token::OpenParen), i + 1)
    } else if c == ')' {
        (Some(Token::CloseParen), i + 1)
    } else if c == '<' || c == '>' {
        if i + 1 < n && cs[i + 1] == c {
            (Some(Token::Operator(text(input, i, i + 2))), i + 2)
        } else {
            (None, i + 1)
        }
    } else if c == '~' || c == '!' {
        (Some(Token::UnaryOperator(text(input, i, i + 1))), i + 1)
    } else if c == '^' || c == '*' || c == '/' || c == '%' || c == '+' || c == '-' || c == '|'
        || c == '&' {
        (Some(Token::Operator(text(input, i, i + 1))), i + 1)
    } else if c == 'b' || c == 'o' || c == 'x' || c == ' ' || c == '\t' || c == '\n' || c
        == '\r' {
        (None, i + 1)
    } else if digit(c) {
        let start = if c == '0' && i + 1 < n && (cs[i + 1] == 'b' || cs[i + 1] == 'o' || cs[i
            + 1] == 'x') {
            i + 2
        } else {
            i + 1
        };
        let j = hex_run(cs, start);
        proof {
            lemma_hex_run_end(cs@, start as int);
        }
        (Some(Token::Number(text(input, i, j))), j)
    } else if letter(c) {
        let j = letter_run(cs, i + 1);
        proof {
            lemma_letter_run_end(cs@, i + 1);
        }
        (Some(Token::Identifier(text(input, i, j))), j)
    } else {
        (Some(Token::Unknown(c)), i + 1)
    }
}

/// Splits `input` into tokens, left to right. Lexing never fails: characters
/// that no token accepts become `Token::Unknown`, and a lone `<` or `>`, a
/// base letter outside a literal and blanks are skipped.
pub fn lex(input: &str) -> (tokens: Vec<Token>)
    ensures
        tokens_view(tokens@) == lex_spec(input@),
{
    let cs = chars_of(input);
    let n = cs.len();
    let mut tokens: Vec<Token> = Vec::new();
    let mut i: usize = 0;
    while i < n
        invariant
            cs@ == input@,
            n == cs.len(),
            i <= n,
            tokens_view(tokens@) + lex_from(input@, i as int) == lex_spec(input@),
        decreases n - i,
    {
        let (t, j) = next_token(input, &cs, i);
        proof {
            lemma_lex_step_advances(input@, i as int);
        }
        match t {
            Some(t) => {
                proof {
                    assert(tokens_view(tokens@.push(t)) =~= tokens_view(tokens@).push(t@));
                    assert(tokens_view(tokens@.push(t)) + lex_from(input@, j as int) =~= tokens_view(
                        tokens@,
                    ) + lex_from(input@, i as int));
                }
                tokens.push(t);
            },
            None => {},
        }
        i = j;
    }
    proof {
        assert(tokens_view(tokens@) =~= tokens_view(tokens@) + lex_from(input@, n as int));
    }
    tokens
}

} // verus!
