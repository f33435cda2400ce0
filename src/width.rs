//! Choosing the display width of a value: 8, 16, 32 or 64 bits.
use vstd::prelude::*;
use crate::lexer::chars_of;

verus! {

/// The smallest display width that holds `bits` bits; 64 where none does,
/// and for zero.
pub open spec fn width_for_bits(bits: int) -> u32 {
    if 1 <= bits <= 8 {
        8
    } else if 9 <= bits <= 16 {
        16
    } else if 17 <= bits <= 32 {
        32
    } else {
        64
    }
}

/// Rounds a bit count up to a display width.
pub fn adjust_width(width: usize) -> (r: u32)
    ensures
        r == width_for_bits(width as int),
{
    if 1 <= width && width <= 8 {
        8
    } else if 9 <= width && width <= 16 {
        16
    } else if 17 <= width && width <= 32 {
        32
    } else {
        64
    }
}

/// The narrowest display width that shows `value` in full.
pub open spec fn value_width(value: u64) -> u32 {
    if value > u32::MAX {
        64
    } else if value > u16::MAX {
        32
    } else if value > u8::MAX {
        16
    } else {
        8
    }
}

/// The narrowest display width that shows `value` in full.
pub fn default_width(value: u64) -> (r: u32)
    ensures
        r == value_width(value),
{
    if value > u32::MAX as u64 {
        64
    } else if value > u16::MAX as u64 {
        32
    } else if value > u8::MAX as u64 {
        16
    } else {
        8
    }
}

/// The width that a width letter names: `b` byte, `w` word, `d` double word,
/// `q` quad word.
pub open spec fn letter_width(s: Seq<char>) -> Option<u32> {
    if s == seq!['b'] {
        Some(8)
    } else if s == seq!['w'] {
        Some(16)
    } else if s == seq!['d'] {
        Some(32)
    } else if s == seq!['q'] {
        Some(64)
    } else {
        None
    }
}

/// Reads a width letter.
pub fn width_from_letter(s: &str) -> (r: Option<u32>)
    ensures
        r == letter_width(s@),
{
    let cs = chars_of(s);
    if cs.len() != 1 {
        return None;
    }
    let c = cs[0];
    proof {
        assert(cs@ =~= seq![c]);
    }
    if c == 'b' {
        Some(8)
    } else if c == 'w' {
        Some(16)
    } else if c == 'd' {
        Some(32)
    } else if c == 'q' {
        Some(64)
    } else {
        None
    }
}

/// The width that the digits of a literal call for: a hexadecimal digit is
/// half a byte and a binary digit an eighth of one, rounded up to whole bytes.
/// Decimal and octal literals call for none.
pub open spec fn digits_width(t: Seq<char>) -> Option<u32> {
    let n = t.len() - 2;
    if t.len() >= 2 && t[0] == '0' && t[1] == 'x' {
        Some(width_for_bits((n + 1) / 2 * 8))
    } else if t.len() >= 2 && t[0] == '0' && t[1] == 'b' {
        Some(width_for_bits((n + 7) / 8 * 8))
    } else {
        None
    }
}

/// The width that the digits of a literal call for, as `digits_width` says.
pub fn literal_width(text: &str) -> (r: Option<u32>)
    ensures
        r == digits_width(text@),
{
    let cs = chars_of(text);
    if cs.len() < 2 || cs[0] != '0' {
        return None;
    }
    let n = cs.len() - 2;
    if cs[1] == 'x' {
        if n > 16 {
            Some(64)
        } else {
            Some(adjust_width((n + 1) / 2 * 8))
        }
    } else if cs[1] == 'b' {
        if n > 64 {
            Some(64)
        } else {
            Some(adjust_width((n + 7) / 8 * 8))
        }
    } else {
        None
    }
}

/// The display width of a value read from `text`: the forced width if there
/// is one, else the width its digits call for, else the narrowest that shows
/// the value.
pub fn choose_width(forced: Option<u32>, text: &str, value: u64) -> (r: u32)
    ensures
        r == match forced {
            Some(w) => w,
            None => match digits_width(text@) {
                Some(w) => w,
                None => value_width(value),
            },
        },
{
    match forced {
        Some(w) => w,
        None => match literal_width(text) {
            Some(w) => w,
            None => default_width(value),
        },
    }
}

} // verus!
