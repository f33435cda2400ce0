//! Splitting a value into bit fields at given offsets.
use vstd::prelude::*;
use vstd::arithmetic::power2::{pow2, lemma2_to64, lemma2_to64_rest, lemma_pow2_strictly_increases};
use vstd::arithmetic::div_mod::lemma_small_mod;
use vstd::bits::{lemma_u64_shr_is_div, lemma_u64_shl_is_mul, lemma_u64_pow2_no_overflow};

verus! {

/// The `w` bits of `value` that start at bit `start`.
pub open spec fn bits_field(value: u64, start: nat, w: nat) -> int {
    (value as int / pow2(start) as int) % (pow2(w) as int)
}

/// The bits of `value` from bit `start`, `w` of them; a field that reaches
/// past the top bit holds what is there.
pub fn field_value(value: u64, start: u32, w: u32) -> (r: u64)
    requires
        start < 64,
    ensures
        r as int == bits_field(value, start as nat, w as nat),
{
    let shifted = value >> (start as u64);
    proof {
        lemma_u64_shr_is_div(value, start as u64);
    }
    if w >= 64 {
        proof {
            lemma2_to64_rest();
            if w > 64 {
                lemma_pow2_strictly_increases(64, w as nat);
            }
            lemma_small_mod(shifted as nat, pow2(w as nat));
        }
        shifted
    } else {
        proof {
            lemma_u64_pow2_no_overflow(w as nat);
            lemma_u64_shl_is_mul(1, w as u64);
        }
        let m = 1u64 << (w as u64);
        shifted % m
    }
}

/// A field of a value: bits `start` up to, not including, `end`.
#[derive(Clone, Copy, Debug, PartialEq, Eq)]
pub struct Field {
    pub start: u32,
    pub end: u32,
    pub value: u64,
}

/// Whether `offs` never decreases.
pub open spec fn sorted(offs: Seq<u32>) -> bool {
    forall|i: int| 0 <= i < offs.len() - 1 ==> #[trigger] offs[i] <= offs[i + 1]
}

/// Whether `f` is the field of `value` between the offsets at `k` and `k + 1`.
pub open spec fn is_field_at(f: Field, value: u64, offs: Seq<u32>, k: int) -> bool {
    &&& f.start == offs[k]
    &&& f.end == offs[k + 1]
    &&& f.value as int == bits_field(value, offs[k] as nat, (offs[k + 1] - offs[k]) as nat)
}

/// The fields of `value` between consecutive offsets, from the lowest offset
/// up, as long as a field starts below `width`. The last offset only ends the
/// field before it.
pub fn unpack_fields(value: u64, width: u32, offsets: &Vec<u32>) -> (r: Vec<Field>)
    requires
        width <= 64,
        sorted(offsets@),
    ensures
        offsets.len() == 0 ==> r.len() == 0,
        offsets.len() > 0 ==> r.len() <= offsets.len() - 1,
        forall|k: int| 0 <= k < r.len() ==> offsets@[k] < width,
        forall|k: int| 0 <= k < r.len() ==> is_field_at(#[trigger] r@[k], value, offsets@, k),
        offsets.len() > 0 && r.len() < offsets.len() - 1 ==> offsets@[r.len() as int] >= width,
{
    let mut fields: Vec<Field> = Vec::new();
    if offsets.len() == 0 {
        return fields;
    }
    let last = offsets.len() - 1;
    let mut i: usize = 0;
    while i < last && offsets[i] < width
        invariant
            last == offsets.len() - 1,
            i <= last,
            fields.len() == i,
            width <= 64,
            sorted(offsets@),
            forall|k: int| 0 <= k < i ==> offsets@[k] < width,
            forall|k: int| 0 <= k < i ==> is_field_at(#[trigger] fields@[k], value, offsets@, k),
        decreases last - i,
    {
        let start = offsets[i];
        let end = offsets[i + 1];
        assert(offsets@[i as int] <= offsets@[i + 1]);
        let f = Field { start, end, value: field_value(value, start, end - start) };
        fields.push(f);
        i = i + 1;
    }
    fields
}

} // verus!
