use crate::error::ArithmeticError;
use vstd::prelude::*;

verus! {

/// The first and the last place of the window of `k` items about place `i`
/// of a list of `len` items: `k / 2` places before `i` and `(k - 1) / 2`
/// places after it, cut off at both ends of the list. For an odd `k` the
/// window is centred on `i`; for an even `k` it is centred between `i` and the
/// place before it.
pub open spec fn window_of(len: int, k: int, i: int) -> (int, int) {
    let lo = if i >= k / 2 {
        i - k / 2
    } else {
        0
    };
    let hi = if i + (k - 1) / 2 <= len - 1 {
        i + (k - 1) / 2
    } else {
        len - 1
    };
    (lo, hi)
}

/// The places that a moving statistic with a window of `k` items reads for
/// place `i` of a list of `len` items, first and last; `None` where the list
/// has no place `i` or the window is empty.
pub fn moving_window(len: usize, k: usize, i: usize) -> (window: Option<(usize, usize)>)
    ensures
        window is Some <==> i < len && k > 0,
        window matches Some(w) ==> (w.0 as int, w.1 as int) == window_of(
            len as int,
            k as int,
            i as int,
        ) && w.0 <= i <= w.1 < len,
{
    if i >= len || k == 0 {
        return None;
    }
    let before = k / 2;
    let after = (k - 1) / 2;
    let lo = if i >= before {
        i - before
    } else {
        0
    };
    let hi = if after <= len - 1 - i {
        i + after
    } else {
        len - 1
    };
    Some((lo, hi))
}

/// The windows of `k` items about every place of a list of `len` items, in
/// order. A window of no items is refused.
pub fn moving_windows(len: usize, k: usize) -> (result: Result<
    Vec<(usize, usize)>,
    ArithmeticError,
>)
    ensures
        match result {
            Ok(windows) => {
                &&& k > 0
                &&& windows@.len() == len
                &&& forall|i: int|
                    0 <= i < len ==> ((#[trigger] windows@[i]).0 as int, windows@[i].1 as int)
                        == window_of(len as int, k as int, i) && windows@[i].0 <= i <= windows@[i].1
                        < len
            },
            Err(e) => k == 0 && e == ArithmeticError::EmptyWindow,
        },
{
    if k == 0 {
        return Err(ArithmeticError::EmptyWindow);
    }
    let mut windows: Vec<(usize, usize)> = Vec::new();
    let mut i: usize = 0;
    while i < len
        invariant
            k > 0,
            i <= len,
            windows@.len() == i,
            forall|j: int|
                0 <= j < i ==> ((#[trigger] windows@[j]).0 as int, windows@[j].1 as int)
                    == window_of(len as int, k as int, j) && windows@[j].0 <= j <= windows@[j].1
                    < len,
        decreases len - i,
    {
        match moving_window(len, k, i) {
            Some(window) => {
                windows.push(window);
            },
            None => {
                assert(false);
            },
        }
        i += 1;
    }
    Ok(windows)
}

/// The count that a script's integer stands for. A negative integer, or one
/// beyond what the machine can count, is refused.
pub fn count_from_int(n: i64) -> (result: Result<usize, ArithmeticError>)
    ensures
        match result {
            Ok(count) => count == n,
            Err(e) => e == ArithmeticError::InvalidCount && !(0 <= n <= usize::MAX),
        },
{
    if n < 0 {
        return Err(ArithmeticError::InvalidCount);
    }
    let wide = n as u64;
    if wide > usize::MAX as u64 {
        return Err(ArithmeticError::InvalidCount);
    }
    Ok(wide as usize)
}

} // verus!
