//! Laws of FLAC sample restoration: what the fixed predictors do to a signal, independently of
//! how their coefficients are written down.

use vstd::prelude::*;
use vstd::arithmetic::power2::{pow2, lemma2_to64, lemma_pow2_pos};
use vstd::arithmetic::div_mod::{
    lemma_fundamental_div_mod, lemma_mod_multiples_vanish, lemma_small_mod, lemma_div_multiples_vanish,
};
use crate::flac::arith::{wrap_i32, lemma_wrap_i32};
use crate::flac::subframe::{lpc_restore, fixed_coeffs, prediction_sum};

verus! {

/// The `k`-th finite difference of the samples `s` at index `i`: the sample itself for `k` 0,
/// else the difference of the `k - 1`-th differences at `i` and `i - 1`.
pub open spec fn finite_diff(s: Seq<i32>, k: nat, i: int) -> int
    decreases k,
{
    if k == 0 {
        s[i] as int
    } else {
        finite_diff(s, (k - 1) as nat, i) - finite_diff(s, (k - 1) as nat, i - 1)
    }
}

/// Restoring fewer samples restores the first of them alike.
proof fn lemma_lpc_restore_prefix(coeffs: Seq<i32>, shift: nat, res: Seq<i32>, m: nat, n: nat)
    requires
        m <= n,
    ensures
        lpc_restore(coeffs, shift, res, n).len() == n,
        lpc_restore(coeffs, shift, res, n).take(m as int) == lpc_restore(coeffs, shift, res, m),
    decreases n,
{
    reveal_with_fuel(lpc_restore, 1);
    if n > 0 {
        lemma_lpc_restore_prefix(coeffs, shift, res, if m < n { m } else { (n - 1) as nat }, (n - 1) as nat);
        if m < n {
            assert(lpc_restore(coeffs, shift, res, n).take(m as int) =~= lpc_restore(
                coeffs,
                shift,
                res,
                (n - 1) as nat,
            ).take(m as int));
        } else {
            assert(lpc_restore(coeffs, shift, res, n).take(m as int) =~= lpc_restore(coeffs, shift, res, n));
        }
    } else {
        assert(lpc_restore(coeffs, shift, res, n).take(m as int) =~= lpc_restore(coeffs, shift, res, m));
    }
}

/// Taking a sum back out of its 32-bit wrap leaves what was added to it, modulo 2^32.
pub proof fn lemma_unwrap(r: int, x: int)
    requires
        i32::MIN <= r <= i32::MAX,
    ensures
        wrap_i32(wrap_i32(r + x) - x) == r,
{
    let m: int = 0x1_0000_0000;
    let y = r + x + 0x8000_0000;
    lemma_fundamental_div_mod(y, m);
    let q = y / m;
    assert(wrap_i32(r + x) - x == r - m * q);
    lemma_mod_multiples_vanish(-q, r + 0x8000_0000, m);
    assert(r - m * q + 0x8000_0000 == m * (-q) + (r + 0x8000_0000)) by (nonlinear_arith);
    lemma_small_mod((r + 0x8000_0000) as nat, m as nat);
}

/// The finite differences of orders 0 to 4, written out.
proof fn lemma_finite_diff_expanded(s: Seq<i32>, i: int)
    ensures
        finite_diff(s, 0, i) == s[i],
        finite_diff(s, 1, i) == s[i] - s[i - 1],
        finite_diff(s, 2, i) == s[i] - 2 * s[i - 1] + s[i - 2],
        finite_diff(s, 3, i) == s[i] - 3 * s[i - 1] + 3 * s[i - 2] - s[i - 3],
        finite_diff(s, 4, i) == s[i] - 4 * s[i - 1] + 6 * s[i - 2] - 4 * s[i - 3] + s[i - 4],
{
    assert(finite_diff(s, 0, i) == s[i]);
    assert(finite_diff(s, 0, i - 1) == s[i - 1]);
    assert(finite_diff(s, 0, i - 2) == s[i - 2]);
    assert(finite_diff(s, 0, i - 3) == s[i - 3]);
    assert(finite_diff(s, 0, i - 4) == s[i - 4]);
    assert(finite_diff(s, 1, i) == s[i] - s[i - 1]);
    assert(finite_diff(s, 1, i - 1) == s[i - 1] - s[i - 2]);
    assert(finite_diff(s, 1, i - 2) == s[i - 2] - s[i - 3]);
    assert(finite_diff(s, 1, i - 3) == s[i - 3] - s[i - 4]);
    assert(finite_diff(s, 2, i) == finite_diff(s, 1, i) - finite_diff(s, 1, i - 1));
    assert(finite_diff(s, 2, i - 1) == finite_diff(s, 1, i - 1) - finite_diff(s, 1, i - 2));
    assert(finite_diff(s, 2, i - 2) == finite_diff(s, 1, i - 2) - finite_diff(s, 1, i - 3));
    assert(finite_diff(s, 3, i) == finite_diff(s, 2, i) - finite_diff(s, 2, i - 1));
    assert(finite_diff(s, 3, i - 1) == finite_diff(s, 2, i - 1) - finite_diff(s, 2, i - 2));
    assert(finite_diff(s, 4, i) == finite_diff(s, 3, i) - finite_diff(s, 3, i - 1));
}

/// The predictions of the fixed predictors of orders 0 to 4, written out.
proof fn lemma_fixed_prediction(order: nat, s: Seq<i32>, i: int)
    requires
        order <= 4,
    ensures
        ({
            let p = prediction_sum(fixed_coeffs(order), s, i, fixed_coeffs(order).len());
            &&& fixed_coeffs(order).len() == order
            &&& order == 0 ==> p == 0
            &&& order == 1 ==> p == s[i - 1]
            &&& order == 2 ==> p == 2 * s[i - 1] - s[i - 2]
            &&& order == 3 ==> p == 3 * s[i - 1] - 3 * s[i - 2] + s[i - 3]
            &&& order == 4 ==> p == 4 * s[i - 1] - 6 * s[i - 2] + 4 * s[i - 3] - s[i - 4]
        }),
{
    let c = fixed_coeffs(order);
    let (a, b, e, f) = (s[i - 1] as int, s[i - 2] as int, s[i - 3] as int, s[i - 4] as int);
    assert(prediction_sum(c, s, i, 0) == 0);
    if order >= 1 {
        assert(prediction_sum(c, s, i, 1) == c[0] * a);
    }
    if order >= 2 {
        assert(prediction_sum(c, s, i, 2) == c[0] * a + c[1] * b);
    }
    if order >= 3 {
        assert(prediction_sum(c, s, i, 3) == c[0] * a + c[1] * b + c[2] * e);
    }
    if order >= 4 {
        assert(prediction_sum(c, s, i, 4) == c[0] * a + c[1] * b + c[2] * e + c[3] * f);
    }
    if order == 1 {
        assert(c[0] == 1);
        assert(c[0] * a == a);
    } else if order == 2 {
        assert(c[0] == 2 && c[1] == -1);
        assert(c[0] * a == 2 * a && c[1] * b == -b);
    } else if order == 3 {
        assert(c[0] == 3 && c[1] == -3 && c[2] == 1);
        assert(c[0] * a == 3 * a && c[1] * b == -3 * b && c[2] * e == e) by (nonlinear_arith)
            requires
                c[0] == 3,
                c[1] == -3,
                c[2] == 1,
        ;
    } else if order == 4 {
        assert(c[0] == 4 && c[1] == -6 && c[2] == 4 && c[3] == -1);
        assert(c[0] * a == 4 * a && c[1] * b == -6 * b && c[2] * e == 4 * e && c[3] * f == -f);
    }
}

/// The fixed predictor of order `order` (0 to 4) extrapolates a signal by a polynomial of degree
/// `order - 1`: the first `order` samples are the warm-up samples, kept as they are, and at
/// every later sample the `order`-th finite difference of the restored signal is the residual,
/// modulo 2^32. So order 1 adds the residual to the previous sample, order 2 to twice the
/// previous sample less the one before, and so on.
pub proof fn lemma_fixed_predictor(order: nat, res: Seq<i32>, i: int)
    requires
        order <= 4,
        0 <= i < res.len(),
    ensures
        ({
            let out = lpc_restore(fixed_coeffs(order), 0, res, res.len());
            &&& out.len() == res.len()
            &&& i < order ==> out[i] == res[i]
            &&& order <= i ==> wrap_i32(finite_diff(out, order, i)) == res[i]
        }),
{
    let c = fixed_coeffs(order);
    let n = res.len();
    let out = lpc_restore(c, 0, res, n);
    lemma_lpc_restore_prefix(c, 0, res, (i + 1) as nat, n);
    lemma_lpc_restore_prefix(c, 0, res, i as nat, (i + 1) as nat);
    let prev = lpc_restore(c, 0, res, i as nat);
    let cur = lpc_restore(c, 0, res, (i + 1) as nat);
    assert(out[i] == cur[i]);
    assert(forall|j: int| 0 <= j < i ==> prev[j] == out[j]) by {
        assert forall|j: int| 0 <= j < i implies prev[j] == out[j] by {
            assert(out.take(i + 1)[j] == cur[j]);
            assert(cur.take(i)[j] == prev[j]);
        }
    }
    reveal_with_fuel(lpc_restore, 1);
    if i >= order {
        lemma2_to64();
        lemma_fixed_prediction(order, prev, i);
        lemma_finite_diff_expanded(out, i);
        let p = prediction_sum(c, prev, i, c.len());
        assert(order >= 1 ==> prev[i - 1] == out[i - 1]);
        assert(order >= 2 ==> prev[i - 2] == out[i - 2]);
        assert(order >= 3 ==> prev[i - 3] == out[i - 3]);
        assert(order >= 4 ==> prev[i - 4] == out[i - 4]);
        assert(p / (pow2(0) as int) == p);
        let x = res[i] + p;
        lemma_wrap_i32(x);
        assert(out[i] == wrap_i32(x));
        assert(finite_diff(out, order, i) == out[i] - p);
        lemma_unwrap(res[i] as int, p);
    }
}

/// Scaling every coefficient by `m` scales the prediction by `m`.
proof fn lemma_prediction_scaled(coeffs: Seq<i32>, scaled: Seq<i32>, m: int, s: Seq<i32>, i: int, n: nat)
    requires
        n <= coeffs.len(),
        scaled.len() == coeffs.len(),
        forall|j: int| 0 <= j < coeffs.len() ==> #[trigger] scaled[j] == m * coeffs[j],
    ensures
        prediction_sum(scaled, s, i, n) == m * prediction_sum(coeffs, s, i, n),
    decreases n,
{
    if n > 0 {
        lemma_prediction_scaled(coeffs, scaled, m, s, i, (n - 1) as nat);
        let a = prediction_sum(coeffs, s, i, (n - 1) as nat);
        let c = coeffs[n - 1] as int;
        let x = s[i - n] as int;
        assert(scaled[n - 1] == m * c);
        assert(m * a + (m * c) * x == m * (a + c * x)) by (nonlinear_arith);
    }
}

/// The right shift of a linear predictor divides its prediction by a power of two, rounding
/// down: coefficients scaled by `2^k` with a shift of `k` restore the same signal as the
/// unscaled coefficients with no shift.
pub proof fn lemma_lpc_shift(coeffs: Seq<i32>, k: nat, scaled: Seq<i32>, res: Seq<i32>, n: nat)
    requires
        scaled.len() == coeffs.len(),
        forall|j: int| 0 <= j < coeffs.len() ==> #[trigger] scaled[j] == pow2(k) * coeffs[j],
    ensures
        lpc_restore(scaled, k, res, n) == lpc_restore(coeffs, 0, res, n),
    decreases n,
{
    reveal_with_fuel(lpc_restore, 1);
    if n > 0 {
        lemma_lpc_shift(coeffs, k, scaled, res, (n - 1) as nat);
        let prev = lpc_restore(coeffs, 0, res, (n - 1) as nat);
        let i = n - 1;
        if i >= coeffs.len() {
            let d = pow2(k) as int;
            lemma_prediction_scaled(coeffs, scaled, d, prev, i, coeffs.len());
            let p = prediction_sum(coeffs, prev, i, coeffs.len());
            lemma_pow2_pos(k);
            lemma_div_multiples_vanish(p, d);
            lemma2_to64();
            assert(p / (pow2(0) as int) == p);
        }
    }
}

} // verus!
