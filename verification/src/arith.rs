//! Arithmetic facts shared by the index computations of the crate.
use vstd::prelude::*;

verus! {

/// The least `k` with `k * step >= value`, for a positive `step`.
pub open spec fn ceil_div(value: int, step: int) -> int {
    if value % step == 0 {
        value / step
    } else {
        value / step + 1
    }
}

/// Rounds the quotient `value / step` up.
pub fn div_ceil(value: usize, step: usize) -> (result: usize)
    requires
        step > 0,
    ensures
        result == ceil_div(value as int, step as int),
{
    proof {
        lemma_ceil_div(value as int, step as int);
    }
    if value % step == 0 {
        value / step
    } else {
        value / step + 1
    }
}

/// `ceil_div` covers the value, and one step less does not.
pub proof fn lemma_ceil_div(value: int, step: int)
    requires
        value >= 0,
        step > 0,
    ensures
        ceil_div(value, step) * step >= value,
        value > 0 ==> (ceil_div(value, step) - 1) * step < value,
        0 <= ceil_div(value, step) <= value,
        value > 0 ==> ceil_div(value, step) >= 1,
        forall|i: int| 0 <= i < value ==> #[trigger] (i / step) < ceil_div(value, step),
{
    vstd::arithmetic::div_mod::lemma_fundamental_div_mod(value, step);
    let q = value / step;
    let r = value % step;
    assert(value == step * q + r);
    assert(0 <= r < step);
    assert(q >= 0) by (nonlinear_arith)
        requires
            value >= 0,
            step > 0,
            value == step * q + r,
            0 <= r < step,
    ;
    assert(q * step == step * q) by (nonlinear_arith);
    assert((q + 1) * step == step * q + step) by (nonlinear_arith);
    assert((q - 1) * step == step * q - step) by (nonlinear_arith);
    assert(q <= value) by (nonlinear_arith)
        requires
            value == step * q + r,
            0 <= r,
            step >= 1,
            q >= 0,
    ;
    if r > 0 {
        assert(q < value) by (nonlinear_arith)
            requires
                value == step * q + r,
                0 < r,
                step >= 1,
                q >= 0,
        ;
    } else if value > 0 {
        assert(q >= 1) by (nonlinear_arith)
            requires
                value == step * q,
                value > 0,
                step >= 1,
        ;
    }
    assert forall|i: int| 0 <= i < value implies #[trigger] (i / step) < ceil_div(value, step) by {
        vstd::arithmetic::div_mod::lemma_fundamental_div_mod(i, step);
        let qi = i / step;
        assert(qi < ceil_div(value, step)) by (nonlinear_arith)
            requires
                i == step * qi + i % step,
                0 <= i % step,
                i < value,
                ceil_div(value, step) * step >= value,
                step > 0,
        ;
    }
}

/// `result` is the least power of two that is not below `value`.
pub open spec fn is_next_power_of_two(value: int, result: int) -> bool {
    &&& exists|k: nat| result == #[trigger] vstd::arithmetic::power2::pow2(k)
    &&& result >= value
    &&& result == 1 || result < 2 * value
}

/// The least power of two that is not below `value`.
pub fn next_power_of_two(value: usize) -> (result: usize)
    requires
        value <= usize::MAX / 2 + 1,
    ensures
        is_next_power_of_two(value as int, result as int),
{
    let mut result: usize = 1;
    let ghost mut k: nat = 0;
    proof {
        vstd::arithmetic::power2::lemma2_to64();
    }
    while result < value
        invariant
            value <= usize::MAX / 2 + 1,
            result == vstd::arithmetic::power2::pow2(k),
            result >= 1,
            result == 1 || result < 2 * value,
        decreases 2 * value - result,
    {
        proof {
            vstd::arithmetic::power2::lemma_pow2_unfold(k + 1);
            k = k + 1;
        }
        result = result * 2;
    }
    result
}

/// There is only one next power of two.
pub proof fn lemma_next_power_of_two_unique(value: int, a: int, b: int)
    requires
        value >= 0,
        is_next_power_of_two(value, a),
        is_next_power_of_two(value, b),
    ensures
        a == b,
{
    let i = choose|k: nat| a == #[trigger] vstd::arithmetic::power2::pow2(k);
    let j = choose|k: nat| b == #[trigger] vstd::arithmetic::power2::pow2(k);
    vstd::arithmetic::power2::lemma_pow2_pos(i);
    vstd::arithmetic::power2::lemma_pow2_pos(j);
    if i < j {
        vstd::arithmetic::power2::lemma_pow2_unfold(j);
        if i < (j - 1) as nat {
            vstd::arithmetic::power2::lemma_pow2_strictly_increases(i, (j - 1) as nat);
        }
    } else if j < i {
        vstd::arithmetic::power2::lemma_pow2_unfold(i);
        if j < (i - 1) as nat {
            vstd::arithmetic::power2::lemma_pow2_strictly_increases(j, (i - 1) as nat);
        }
    }
}

/// The two digits of a mixed-radix number are determined by its value.
pub proof fn lemma_radix(a: int, b: int, a2: int, b2: int, n: int)
    requires
        0 <= b < n,
        0 <= b2 < n,
        a * n + b == a2 * n + b2,
    ensures
        a == a2,
        b == b2,
{
    if a < a2 {
        assert(a * n + n <= a2 * n) by (nonlinear_arith)
            requires
                a + 1 <= a2,
                n > 0,
        ;
    } else if a2 < a {
        assert(a2 * n + n <= a * n) by (nonlinear_arith)
            requires
                a2 + 1 <= a,
                n > 0,
        ;
    }
}

/// A leading digit below `m` and a trailing digit below `n` stay below `m * n`.
pub proof fn lemma_radix_bound(a: int, b: int, m: int, n: int)
    requires
        0 <= a < m,
        0 <= b < n,
    ensures
        0 <= a * n + b < m * n,
        a * n + n <= m * n,
{
    assert(a * n + n <= m * n) by (nonlinear_arith)
        requires
            a + 1 <= m,
            n > 0,
    ;
    assert(0 <= a * n) by (nonlinear_arith)
        requires
            0 <= a,
            n > 0,
    ;
}

/// No smaller power of two would do.
pub proof fn law_next_power_is_the_least(value: int, result: int, k: nat)
    requires
        value >= 0,
        is_next_power_of_two(value, result),
        vstd::arithmetic::power2::pow2(k) >= value,
    ensures
        vstd::arithmetic::power2::pow2(k) >= result,
{
    let j = choose|k: nat| result == #[trigger] vstd::arithmetic::power2::pow2(k);
    vstd::arithmetic::power2::lemma_pow2_pos(k);
    vstd::arithmetic::power2::lemma_pow2_pos(j);
    if k < j {
        vstd::arithmetic::power2::lemma_pow2_unfold(j);
        vstd::arithmetic::power2::lemma_pow2_pos((j - 1) as nat);
        if k < (j - 1) as nat {
            vstd::arithmetic::power2::lemma_pow2_strictly_increases(k, (j - 1) as nat);
        }
    } else if j < k {
        vstd::arithmetic::power2::lemma_pow2_strictly_increases(j, k);
    }
}

} // verus!
