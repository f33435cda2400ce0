//! Reading literals: decimal, or hexadecimal, octal and binary behind the
//! prefixes `0x`, `0o` and `0b`.
use vstd::prelude::*;
use crate::lexer::chars_of;

verus! {

/// The value of a digit character, as `char::to_digit` reads it in radix 36.
pub open spec fn digit_value(c: char) -> int {
    if '0' <= c && c <= '9' {
        c as int - '0' as int
    } else if 'a' <= c && c <= 'z' {
        c as int - 'a' as int + 10
    } else if 'A' <= c && c <= 'Z' {
        c as int - 'A' as int + 10
    } else {
        36
    }
}

/// Whether every character of `d` is a digit of radix `radix`.
pub open spec fn all_digits(d: Seq<char>, radix: int) -> bool {
    forall|k: int| 0 <= k < d.len() ==> #[trigger] digit_value(d[k]) < radix
}

/// The number that the digits `d` write in radix `radix`, most significant first.
pub open spec fn digits_value(d: Seq<char>, radix: int) -> int
    decreases d.len(),
{
    if d.len() == 0 {
        0
    } else {
        digits_value(d.drop_last(), radix) * radix + digit_value(d.last())
    }
}

/// The radix that a literal's text declares by its prefix, and where its
/// digits start.
pub open spec fn literal_radix(t: Seq<char>) -> (int, int) {
    if t.len() >= 2 && t[0] == '0' && t[1] == 'x' {
        (16, 2)
    } else if t.len() >= 2 && t[0] == '0' && t[1] == 'o' {
        (8, 2)
    } else if t.len() >= 2 && t[0] == '0' && t[1] == 'b' {
        (2, 2)
    } else {
        (10, 0)
    }
}

/// The value of a literal: its prefix picks the radix, and what follows must be
/// one or more digits of that radix whose value fits in 64 bits.
pub open spec fn literal_value(t: Seq<char>) -> Option<u64> {
    let (radix, start) = literal_radix(t);
    let d = t.subrange(start, t.len() as int);
    if d.len() > 0 && all_digits(d, radix) && digits_value(d, radix) <= u64::MAX {
        Some(digits_value(d, radix) as u64)
    } else {
        None
    }
}

proof fn lemma_digits_value_nonneg(d: Seq<char>, radix: int)
    requires
        radix >= 2,
        all_digits(d, radix),
    ensures
        digits_value(d, radix) >= 0,
    decreases d.len(),
{
    if d.len() > 0 {
        assert(all_digits(d.drop_last(), radix)) by {
            assert forall|k: int| 0 <= k < d.drop_last().len() implies #[trigger] digit_value(
                d.drop_last()[k],
            ) < radix by {
                assert(d.drop_last()[k] == d[k]);
            }
        }
        lemma_digits_value_nonneg(d.drop_last(), radix);
        let v = digits_value(d.drop_last(), radix);
        assert(v * radix >= 0) by (nonlinear_arith)
            requires
                v >= 0,
                radix >= 2,
        ;
        assert(digit_value(d[d.len() - 1]) >= 0);
    }
}

/// A longer run of valid digits is worth at least as much as its prefix.
proof fn lemma_digits_value_grows(d: Seq<char>, k: int, radix: int)
    requires
        radix >= 2,
        0 <= k <= d.len(),
        all_digits(d, radix),
    ensures
        digits_value(d.take(k), radix) <= digits_value(d, radix),
    decreases d.len() - k,
{
    if k < d.len() {
        lemma_digits_value_grows(d, k + 1, radix);
        let p = d.take(k + 1);
        assert(p.drop_last() =~= d.take(k));
        assert(all_digits(d.take(k), radix)) by {
            assert forall|j: int| 0 <= j < d.take(k).len() implies #[trigger] digit_value(
                d.take(k)[j],
            ) < radix by {
                assert(d.take(k)[j] == d[j]);
            }
        }
        lemma_digits_value_nonneg(d.take(k), radix);
        let v = digits_value(d.take(k), radix);
        assert(v * radix >= v) by (nonlinear_arith)
            requires
                v >= 0,
                radix >= 2,
        ;
        assert(digit_value(p.last()) >= 0);
    } else {
        assert(d.take(k) =~= d);
    }
}

/// The lower-case digit character of a value below 16.
pub open spec fn digit_char_of(d: nat) -> char {
    seq!['0', '1', '2', '3', '4', '5', '6', '7', '8', '9', 'a', 'b', 'c', 'd', 'e', 'f'][d as int
        % 16]
}

/// The digits of `n` in radix `radix`, most significant first, without
/// leading zeros, taking at most `fuel` divisions.
pub open spec fn digits_within(n: nat, radix: nat, fuel: nat) -> Seq<char>
    decreases fuel,
{
    if n < radix || radix < 2 || fuel == 0 {
        seq![digit_char_of(n)]
    } else {
        digits_within(n / radix, radix, (fuel - 1) as nat) + seq![digit_char_of(n % radix)]
    }
}

/// The digits of `n` in radix `radix`, most significant first, without
/// leading zeros (`n` divisions are always enough).
pub open spec fn radix_digits(n: nat, radix: nat) -> Seq<char> {
    digits_within(n, radix, n)
}

proof fn lemma_digit_char_of(d: nat)
    requires
        d < 16,
    ensures
        digit_value(digit_char_of(d)) == d,
{
    let cs = seq!['0', '1', '2', '3', '4', '5', '6', '7', '8', '9', 'a', 'b', 'c', 'd', 'e', 'f'];
    assert(digit_char_of(d) == cs[d as int]);
    if d < 10 {
        assert(cs[d as int] as int == '0' as int + d);
    } else {
        assert(cs[d as int] as int == 'a' as int + d - 10);
    }
}

proof fn lemma_digits_within(n: nat, radix: nat, fuel: nat)
    requires
        2 <= radix <= 16,
        fuel >= n,
    ensures
        digits_within(n, radix, fuel).len() > 0,
        all_digits(digits_within(n, radix, fuel), radix as int),
        digits_value(digits_within(n, radix, fuel), radix as int) == n,
    decreases fuel,
{
    let d = digits_within(n, radix, fuel);
    if n < radix {
        lemma_digit_char_of(n);
        assert(d.drop_last() =~= Seq::<char>::empty());
        assert(digits_value(d.drop_last(), radix as int) == 0);
        assert(0 * (radix as int) == 0);
    } else {
        assert(n / radix < n) by (nonlinear_arith)
            requires
                radix >= 2,
                n >= radix,
        ;
        let p = digits_within(n / radix, radix, (fuel - 1) as nat);
        lemma_digits_within(n / radix, radix, (fuel - 1) as nat);
        lemma_digit_char_of(n % radix);
        assert(d.drop_last() =~= p);
        assert forall|k: int| 0 <= k < d.len() implies #[trigger] digit_value(d[k]) < radix as int by {
            if k < p.len() {
                assert(d[k] == p[k]);
            }
        }
        assert(n == (n / radix) * radix + n % radix) by (nonlinear_arith)
            requires
                radix > 0,
        ;
    }
}

proof fn lemma_radix_digits(n: nat, radix: nat)
    requires
        2 <= radix <= 16,
    ensures
        radix_digits(n, radix).len() > 0,
        all_digits(radix_digits(n, radix), radix as int),
        digits_value(radix_digits(n, radix), radix as int) == n,
{
    lemma_digits_within(n, radix, n);
}

/// Every value reads back from its digits: hexadecimal behind `0x`, octal
/// behind `0o`, binary behind `0b`, and decimal with no prefix.
pub proof fn lemma_literal_round_trip(n: u64)
    ensures
        literal_value(seq!['0', 'x'] + radix_digits(n as nat, 16)) == Some(n),
        literal_value(seq!['0', 'o'] + radix_digits(n as nat, 8)) == Some(n),
        literal_value(seq!['0', 'b'] + radix_digits(n as nat, 2)) == Some(n),
        literal_value(radix_digits(n as nat, 10)) == Some(n),
{
    lemma_radix_digits(n as nat, 16);
    lemma_radix_digits(n as nat, 8);
    lemma_radix_digits(n as nat, 2);
    lemma_radix_digits(n as nat, 10);
    let h = seq!['0', 'x'] + radix_digits(n as nat, 16);
    let o = seq!['0', 'o'] + radix_digits(n as nat, 8);
    let b = seq!['0', 'b'] + radix_digits(n as nat, 2);
    let d = radix_digits(n as nat, 10);
    assert(h.subrange(2, h.len() as int) =~= radix_digits(n as nat, 16));
    assert(o.subrange(2, o.len() as int) =~= radix_digits(n as nat, 8));
    assert(b.subrange(2, b.len() as int) =~= radix_digits(n as nat, 2));
    assert(d.subrange(0, d.len() as int) =~= d);
    if d.len() >= 2 {
        assert(digit_value(d[1]) < 10);
    }
}

/// The value of one digit character, if it is a digit of radix 36.
fn digit_of(c: char) -> (r: u64)
    ensures
        r == digit_value(c),
{
    if '0' <= c && c <= '9' {
        (c as u32 - '0' as u32) as u64
    } else if 'a' <= c && c <= 'z' {
        (c as u32 - 'a' as u32 + 10) as u64
    } else if 'A' <= c && c <= 'Z' {
        (c as u32 - 'A' as u32 + 10) as u64
    } else {
        36
    }
}

/// Reads a literal: `0x`, `0o` or `0b` selects radix 16, 8 or 2, anything
/// else is decimal. `None` where no digit follows the prefix, a digit is not
/// one of the radix, or the value does not fit in 64 bits.
pub fn parse_number(input: &str) -> (r: Option<u64>)
    ensures
        r == literal_value(input@),
{
    let cs = chars_of(input);
    let n = cs.len();
    let (radix, start) = if n >= 2 && cs[0] == '0' && cs[1] == 'x' {
        (16u64, 2usize)
    } else if n >= 2 && cs[0] == '0' && cs[1] == 'o' {
        (8u64, 2usize)
    } else if n >= 2 && cs[0] == '0' && cs[1] == 'b' {
        (2u64, 2usize)
    } else {
        (10u64, 0usize)
    };
    let ghost d = cs@.subrange(start as int, n as int);
    if start >= n {
        return None;
    }
    let mut k: usize = start;
    let mut v: u64 = 0;
    while k < n
        invariant
            cs@ == input@,
            n == cs.len(),
            start <= k <= n,
            2 <= radix <= 16,
            (radix as int, start as int) == literal_radix(input@),
            d == cs@.subrange(start as int, n as int),
            all_digits(d.take(k - start), radix as int),
            v == digits_value(d.take(k - start), radix as int),
        decreases n - k,
    {
        let dv = digit_of(cs[k]);
        let ghost p = d.take(k - start + 1);
        proof {
            assert(p.drop_last() =~= d.take(k - start));
            assert(p.last() == cs@[k as int]);
        }
        if dv >= radix {
            proof {
                assert(!all_digits(d, radix as int)) by {
                    assert(d[k - start] == cs@[k as int]);
                }
            }
            return None;
        }
        proof {
            assert forall|j: int| 0 <= j < p.len() implies #[trigger] digit_value(p[j])
                < radix as int by {
                if j < p.len() - 1 {
                    assert(p[j] == d.take(k - start)[j]);
                }
            }
        }
        let m = v.checked_mul(radix);
        let s = match m {
            Some(m) => m.checked_add(dv),
            None => None,
        };
        match s {
            Some(s) => {
                v = s;
            },
            None => {
                proof {
                    if all_digits(d, radix as int) {
                        lemma_digits_value_grows(d, k - start + 1, radix as int);
                        lemma_digits_value_nonneg(d.take(k - start), radix as int);
                    }
                }
                return None;
            },
        }
        k = k + 1;
    }
    proof {
        assert(d.take(n - start) =~= d);
    }
    Some(v)
}

} // verus!
