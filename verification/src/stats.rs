use crate::error::ArithmeticError;
use crate::float::{
    float_bits_from_int, float_bits_of, floor_log2, lemma_floor_log2_bounds, lemma_significand,
    SIGN_BIT,
};
use crate::matrix::{is_number, number_bits, vector_bits};
use crate::matrix_functions::{list_form, number_list, number_list_fault};
use crate::value::{Node, Value};
use vstd::arithmetic::power2::{lemma2_to64, lemma2_to64_rest, lemma_pow2_strictly_increases, pow2};
use vstd::prelude::*;

verus! {

/// The bit pattern of positive infinity; a greater magnitude is no number.
pub const INFINITY_BITS: u64 = 0x7FF0_0000_0000_0000;

/// The magnitude of a double: its bit pattern without the sign bit.
pub open spec fn float_magnitude(bits: u64) -> int {
    bits as int % 0x8000_0000_0000_0000
}

/// Whether a bit pattern is a double that is no number.
pub open spec fn float_is_nan(bits: u64) -> bool {
    float_magnitude(bits) > 0x7FF0_0000_0000_0000
}

/// The place of a double in the order of doubles: its magnitude, taken
/// negative under the sign bit. Both zeros have the place 0.
pub open spec fn float_rank(bits: u64) -> int {
    if bits >= 0x8000_0000_0000_0000 {
        -float_magnitude(bits)
    } else {
        float_magnitude(bits)
    }
}

/// Whether the double `a` is less than the double `b`: neither is no number,
/// and `a` comes before `b` in the order of doubles.
pub open spec fn float_less(a: u64, b: u64) -> bool {
    !float_is_nan(a) && !float_is_nan(b) && float_rank(a) < float_rank(b)
}

/// The place of the first greatest among the first `k` doubles: each later
/// double takes the place only where the one that holds it is less.
pub open spec fn first_greatest(bits: Seq<u64>, k: nat) -> int
    decreases k,
{
    if k <= 1 {
        0
    } else {
        let held = first_greatest(bits, (k - 1) as nat);
        if float_less(bits[held], bits[k - 1]) {
            k - 1
        } else {
            held
        }
    }
}

/// Why a nested array has no greatest item: it is no list of numbers, however
/// oriented, else it holds no item.
pub open spec fn argmax_fault(a: Seq<Node>) -> Option<ArithmeticError> {
    if number_list_fault(a) is Some {
        number_list_fault(a)
    } else if list_form(a)->Some_0.len() == 0 {
        Some(ArithmeticError::EmptyList)
    } else {
        None
    }
}

/// Among doubles that are all numbers, the first greatest is a place in the
/// list, no double is greater than the one there, and every double before it
/// is less.
pub proof fn lemma_first_greatest(bits: Seq<u64>, k: nat)
    requires
        0 < k <= bits.len(),
        forall|i: int| 0 <= i < bits.len() ==> !float_is_nan(#[trigger] bits[i]),
    ensures
        0 <= first_greatest(bits, k) < k,
        forall|j: int|
            0 <= j < k ==> !float_less(bits[first_greatest(bits, k)], #[trigger] bits[j]),
        forall|j: int|
            0 <= j < first_greatest(bits, k) ==> float_less(
                #[trigger] bits[j],
                bits[first_greatest(bits, k)],
            ),
    decreases k,
{
    if k > 1 {
        lemma_first_greatest(bits, (k - 1) as nat);
    }
}

/// The double nearest to a machine integer is a number, and is negative
/// exactly when the integer is.
pub proof fn lemma_widened_is_number(i: int)
    requires
        i64::MIN <= i <= i64::MAX,
    ensures
        0 <= float_bits_of(i) <= u64::MAX,
        !float_is_nan(float_bits_of(i) as u64),
        float_bits_of(i) >= 0x8000_0000_0000_0000 <==> i < 0,
{
    lemma2_to64();
    lemma2_to64_rest();
    if i != 0 {
        let m = (if i < 0 { -i } else { i }) as nat;
        let e = floor_log2(m);
        lemma_floor_log2_bounds(m);
        lemma_significand(m);
        if e >= 64 {
            if e > 64 {
                lemma_pow2_strictly_increases(64, e);
            }
            assert(false);
        }
        assert((e + 1023) * pow2(52) <= 1086 * pow2(52)) by (nonlinear_arith)
            requires
                e <= 63,
        ;
        assert((e + 1023) * pow2(52) >= 1023 * pow2(52)) by (nonlinear_arith)
            requires
                e >= 0,
        ;
    }
}

/// Whether the double `a` is less than the double `b`.
pub fn float_lt(a: u64, b: u64) -> (answer: bool)
    ensures
        answer == float_less(a, b),
{
    let a_magnitude = a % SIGN_BIT;
    let b_magnitude = b % SIGN_BIT;
    if a_magnitude > INFINITY_BITS || b_magnitude > INFINITY_BITS {
        return false;
    }
    let a_negative = a >= SIGN_BIT;
    let b_negative = b >= SIGN_BIT;
    if a_negative {
        if b_negative {
            a_magnitude > b_magnitude
        } else {
            a_magnitude > 0 || b_magnitude > 0
        }
    } else {
        if b_negative {
            false
        } else {
            a_magnitude < b_magnitude
        }
    }
}

/// The place of the first greatest item of a list, a row vector or a column
/// vector of numbers; integers are compared as the doubles nearest to them.
pub fn argmax(arr: &Vec<Value>) -> (result: Result<usize, ArithmeticError>)
    ensures
        match result {
            Ok(place) => {
                let items = list_form(arr.deep_view())->Some_0;
                &&& argmax_fault(arr.deep_view()) is None
                &&& place < items.len()
                &&& place == first_greatest(vector_bits(items), items.len())
            },
            Err(e) => argmax_fault(arr.deep_view()) == Some(e),
        },
{
    let items = match number_list(arr) {
        Ok(items) => items,
        Err(e) => {
            return Err(e);
        },
    };
    if items.len() == 0 {
        return Err(ArithmeticError::EmptyList);
    }
    let ghost bits = vector_bits(items.deep_view());
    let mut held: usize = 0;
    assert(is_number(items.deep_view()[0]));
    let mut held_bits = bits_of(&items[0]);
    let mut k: usize = 1;
    while k < items.len()
        invariant
            bits == vector_bits(items.deep_view()),
            forall|i: int| 0 <= i < items.len() ==> is_number(#[trigger] items.deep_view()[i]),
            1 <= k <= items.len(),
            held < k,
            held == first_greatest(bits, k as nat),
            held_bits == bits[held as int],
        decreases items.len() - k,
    {
        assert(is_number(items.deep_view()[k as int]));
        let next = bits_of(&items[k]);
        if float_lt(held_bits, next) {
            held = k;
            held_bits = next;
        }
        k += 1;
    }
    Ok(held)
}

/// The double that stands for a number.
fn bits_of(item: &Value) -> (bits: u64)
    requires
        is_number(item.deep_view()),
    ensures
        bits == number_bits(item.deep_view()),
{
    match item {
        Value::Float(bits) => *bits,
        Value::Int(i) => float_bits_from_int(*i),
        _ => 0,
    }
}

} // verus!
