//! The operators of the expression language: what their text is, how tightly
//! they bind, and what they compute.
use vstd::prelude::*;
use crate::lexer::chars_of;

verus! {

/// The modulus of 64-bit arithmetic.
pub open spec fn modulus() -> int {
    0x1_0000_0000_0000_0000
}

/// A binary operator.
#[derive(Clone, Copy, Debug, PartialEq, Eq)]
pub enum BinOp {
    Mul,
    Div,
    Rem,
    Add,
    Sub,
    Shl,
    Shr,
    Or,
    And,
    Xor,
}

/// A unary operator: `~` is bitwise complement, `!` is the zero test.
#[derive(Clone, Copy, Debug, PartialEq, Eq)]
pub enum UnOp {
    Complement,
    IsZero,
}

/// The text of a binary operator.
pub open spec fn bin_op_text(op: BinOp) -> Seq<char> {
    match op {
        BinOp::Mul => seq!['*'],
        BinOp::Div => seq!['/'],
        BinOp::Rem => seq!['%'],
        BinOp::Add => seq!['+'],
        BinOp::Sub => seq!['-'],
        BinOp::Shl => seq!['<', '<'],
        BinOp::Shr => seq!['>', '>'],
        BinOp::Or => seq!['|'],
        BinOp::And => seq!['&'],
        BinOp::Xor => seq!['^'],
    }
}

/// The text of a unary operator.
pub open spec fn un_op_text(op: UnOp) -> Seq<char> {
    match op {
        UnOp::Complement => seq!['~'],
        UnOp::IsZero => seq!['!'],
    }
}

/// The binary operator that `s` writes, if any.
pub open spec fn bin_op_of(s: Seq<char>) -> Option<BinOp> {
    if exists|op: BinOp| bin_op_text(op) == s {
        Some(choose|op: BinOp| bin_op_text(op) == s)
    } else {
        None
    }
}

/// The unary operator that `s` writes, if any.
pub open spec fn un_op_of(s: Seq<char>) -> Option<UnOp> {
    if s == seq!['~'] {
        Some(UnOp::Complement)
    } else if s == seq!['!'] {
        Some(UnOp::IsZero)
    } else {
        None
    }
}

/// The rank of a binary operator: a lower rank binds tighter.
pub open spec fn bin_rank(op: BinOp) -> int {
    match op {
        BinOp::Mul | BinOp::Div | BinOp::Rem => 2,
        BinOp::Add | BinOp::Sub => 3,
        BinOp::Shl | BinOp::Shr => 4,
        BinOp::And | BinOp::Xor => 5,
        BinOp::Or => 6,
    }
}

/// The rank of a unary operator, tighter than every binary one.
pub open spec fn unary_rank() -> int {
    1
}

/// The rank of an operator's text; text that is no binary operator ranks
/// below all of them.
pub open spec fn rank_of(s: Seq<char>) -> int {
    match bin_op_of(s) {
        Some(op) => bin_rank(op),
        None => 7,
    }
}

/// A shift by 64 places or more moves every bit out.
pub open spec fn shl_value(a: u64, b: u64) -> u64 {
    if b >= 64 {
        0
    } else {
        a << b
    }
}

pub open spec fn shr_value(a: u64, b: u64) -> u64 {
    if b >= 64 {
        0
    } else {
        a >> b
    }
}

/// What a binary operator computes: `None` where the right operand of `/` or
/// `%` is zero. Addition, subtraction and multiplication wrap modulo 2^64.
pub open spec fn bin_value(op: BinOp, a: u64, b: u64) -> Option<u64> {
    match op {
        BinOp::Mul => Some(((a as int * b as int) % modulus()) as u64),
        BinOp::Div => if b == 0 {
            None
        } else {
            Some((a / b) as u64)
        },
        BinOp::Rem => if b == 0 {
            None
        } else {
            Some((a % b) as u64)
        },
        BinOp::Add => Some(((a as int + b as int) % modulus()) as u64),
        BinOp::Sub => Some(((a as int - b as int) % modulus()) as u64),
        BinOp::Shl => Some(shl_value(a, b)),
        BinOp::Shr => Some(shr_value(a, b)),
        BinOp::Or => Some(a | b),
        BinOp::And => Some(a & b),
        BinOp::Xor => Some(a ^ b),
    }
}

/// What a unary operator computes.
pub open spec fn un_value(op: UnOp, b: u64) -> u64 {
    match op {
        UnOp::Complement => !b,
        UnOp::IsZero => if b == 0 {
            1
        } else {
            0
        },
    }
}

/// Reading back the text of a binary operator gives the operator.
pub proof fn lemma_bin_op_of(op: BinOp)
    ensures
        bin_op_of(bin_op_text(op)) == Some(op),
{
    let s = bin_op_text(op);
    assert(exists|o: BinOp| bin_op_text(o) == s);
    let c = choose|o: BinOp| bin_op_text(o) == s;
    assert(bin_op_text(c) == s);
    if c != op {
        assert(bin_op_text(c).len() != s.len() || bin_op_text(c)[0] != s[0] || bin_op_text(c)[1]
            != s[1]);
    }
}

/// Reading back the text of a unary operator gives the operator.
pub proof fn lemma_un_op_of(op: UnOp)
    ensures
        un_op_of(un_op_text(op)) == Some(op),
{
    assert(seq!['!'][0] != seq!['~'][0]);
}

/// Recognises the text of a binary operator.
pub fn classify_binary(s: &str) -> (r: Option<BinOp>)
    ensures
        r == bin_op_of(s@),
{
    let cs = chars_of(s);
    let r = if cs.len() == 1 {
        let c = cs[0];
        if c == '*' {
            Some(BinOp::Mul)
        } else if c == '/' {
            Some(BinOp::Div)
        } else if c == '%' {
            Some(BinOp::Rem)
        } else if c == '+' {
            Some(BinOp::Add)
        } else if c == '-' {
            Some(BinOp::Sub)
        } else if c == '|' {
            Some(BinOp::Or)
        } else if c == '&' {
            Some(BinOp::And)
        } else if c == '^' {
            Some(BinOp::Xor)
        } else {
            None
        }
    } else if cs.len() == 2 && cs[0] == '<' && cs[1] == '<' {
        Some(BinOp::Shl)
    } else if cs.len() == 2 && cs[0] == '>' && cs[1] == '>' {
        Some(BinOp::Shr)
    } else {
        None
    };
    proof {
        match r {
            Some(op) => {
                assert(bin_op_text(op) =~= s@);
                lemma_bin_op_of(op);
            },
            None => {
                if exists|op: BinOp| bin_op_text(op) == s@ {
                    let op = choose|op: BinOp| bin_op_text(op) == s@;
                    assert(bin_op_text(op)[0] == s@[0]);
                }
            },
        }
    }
    r
}

/// Recognises the text of a unary operator.
pub fn classify_unary(s: &str) -> (r: Option<UnOp>)
    ensures
        r == un_op_of(s@),
{
    let cs = chars_of(s);
    if cs.len() == 1 && cs[0] == '~' {
        assert(cs@ =~= seq!['~']);
        Some(UnOp::Complement)
    } else if cs.len() == 1 && cs[0] == '!' {
        assert(cs@ =~= seq!['!']);
        Some(UnOp::IsZero)
    } else {
        None
    }
}

/// The rank of an operator's text, as `rank_of` gives it.
pub fn operator_precedence(op_str: &str) -> (r: i32)
    ensures
        r == rank_of(op_str@),
{
    match classify_binary(op_str) {
        Some(op) => match op {
            BinOp::Mul | BinOp::Div | BinOp::Rem => 2,
            BinOp::Add | BinOp::Sub => 3,
            BinOp::Shl | BinOp::Shr => 4,
            BinOp::And | BinOp::Xor => 5,
            BinOp::Or => 6,
        },
        None => 7,
    }
}

/// Applies a binary operator; `None` on division or remainder by zero.
pub fn apply_binary(op: BinOp, a: u64, b: u64) -> (r: Option<u64>)
    ensures
        r == bin_value(op, a, b),
{
    match op {
        BinOp::Mul => Some(a.wrapping_mul(b)),
        BinOp::Div => if b == 0 {
            None
        } else {
            Some(a / b)
        },
        BinOp::Rem => if b == 0 {
            None
        } else {
            Some(a % b)
        },
        BinOp::Add => Some(a.wrapping_add(b)),
        BinOp::Sub => Some(a.wrapping_sub(b)),
        BinOp::Shl => if b >= 64 {
            Some(0)
        } else {
            Some(a << b)
        },
        BinOp::Shr => if b >= 64 {
            Some(0)
        } else {
            Some(a >> b)
        },
        BinOp::Or => Some(a | b),
        BinOp::And => Some(a & b),
        BinOp::Xor => Some(a ^ b),
    }
}

/// Applies a unary operator.
pub fn apply_unary(op: UnOp, b: u64) -> (r: u64)
    ensures
        r == un_value(op, b),
{
    match op {
        UnOp::Complement => !b,
        UnOp::IsZero => if b == 0 {
            1
        } else {
            0
        },
    }
}

} // verus!
