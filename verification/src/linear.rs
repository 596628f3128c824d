//! A one-weight linear fit on (input, expected) pairs: the cost of a weight
//! and the derivative of that cost, both by hand.

use vstd::prelude::*;
use crate::scalar::Scalar;
use crate::scalar::F_ZERO;
use crate::scalar::F_TWO;
use crate::scalar::add_bits;
use crate::scalar::sub_bits;
use crate::scalar::mul_bits;
use crate::scalar::div_bits;
use crate::scalar::from_uint_bits;
use crate::scalar::scalar_add;
use crate::scalar::scalar_sub;
use crate::scalar::scalar_mul;
use crate::scalar::scalar_div;
use crate::scalar::scalar_of_uint;

verus! {

/// The cost derivative summed over the first `k` pairs:
/// each pair `(x, y)` contributes `2 * x * (x*w - y)`, accumulated left to
/// right, each step rounded as single-precision arithmetic rounds it.
pub open spec fn dcost_acc_bits(w: u32, data: Seq<(u32, u32)>, k: nat) -> u32
    decreases k,
{
    if k == 0 {
        F_ZERO
    } else {
        add_bits(
            dcost_acc_bits(w, data, (k - 1) as nat),
            mul_bits(
                mul_bits(F_TWO, data[k - 1].0),
                sub_bits(mul_bits(data[k - 1].0, w), data[k - 1].1),
            ),
        )
    }
}

/// The mean cost derivative over all pairs.
pub open spec fn dcost_bits(w: u32, data: Seq<(u32, u32)>) -> u32 {
    div_bits(dcost_acc_bits(w, data, data.len()), from_uint_bits(data.len() as u64))
}

/// The squared error of the last pair alone (each pair's error overwrites
/// the one before it), divided by the number of pairs.
pub open spec fn calc_cost_bits(w: u32, data: Seq<(u32, u32)>) -> u32 {
    let last = if data.len() == 0 {
        F_ZERO
    } else {
        let d = sub_bits(mul_bits(data[data.len() - 1].0, w), data[data.len() - 1].1);
        mul_bits(d, d)
    };
    div_bits(last, from_uint_bits(data.len() as u64))
}

/// The derivative of the squared-error cost with respect to the single
/// weight `w`, as the mean of `2 * x * (x*w - y)` over the pairs.
pub fn dcost(w: Scalar, data_frame: &[(Scalar, Scalar)]) -> (r: Scalar)
    ensures
        r == dcost_bits(w, data_frame@),
{
    let n = data_frame.len();
    let mut result: Scalar = F_ZERO;
    let mut i: usize = 0;
    while i < n
        invariant
            n == data_frame@.len(),
            i <= n,
            result == dcost_acc_bits(w, data_frame@, i as nat),
        decreases n - i,
    {
        let pair = *vstd::slice::slice_index_get(data_frame, i);
        let x = pair.0;
        let y = pair.1;
        result = scalar_add(result, scalar_mul(scalar_mul(F_TWO, x), scalar_sub(scalar_mul(x, w), y)));
        i += 1;
    }
    scalar_div(result, scalar_of_uint(n as u64))
}

/// The squared-error cost of the single weight `w`; each pair's error
/// overwrites the last, so only the final pair reaches the result.
pub fn calc_cost(w: Scalar, data_frame: &[(Scalar, Scalar)]) -> (r: Scalar)
    ensures
        r == calc_cost_bits(w, data_frame@),
{
    let n = data_frame.len();
    let mut result: Scalar = F_ZERO;
    let mut i: usize = 0;
    while i < n
        invariant
            n == data_frame@.len(),
            i <= n,
            result == (if i == 0 {
                F_ZERO
            } else {
                mul_bits(
                    sub_bits(mul_bits(data_frame@[i - 1].0, w), data_frame@[i - 1].1),
                    sub_bits(mul_bits(data_frame@[i - 1].0, w), data_frame@[i - 1].1),
                )
            }),
        decreases n - i,
    {
        let pair = *vstd::slice::slice_index_get(data_frame, i);
        let x = pair.0;
        let y = scalar_mul(x, w);
        let d = scalar_sub(y, pair.1);
        result = scalar_mul(d, d);
        i += 1;
    }
    scalar_div(result, scalar_of_uint(n as u64))
}

} // verus!
