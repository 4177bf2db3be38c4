use vstd::arithmetic::power::{lemma_pow_positive, pow};
use vstd::prelude::*;

verus! {

/// Division that rounds toward zero, as integer division on machine
/// integers does.
pub open spec fn trunc_div(a: int, d: int) -> int {
    if a >= 0 {
        a / d
    } else {
        -((-a) / d)
    }
}

/// `a * num / den`, rounded toward zero.
pub open spec fn scale_spec(a: int, num: int, den: int) -> int {
    trunc_div(a * num, den)
}

pub open spec fn clamp_spec(v: int, lo: int, hi: int) -> int {
    if v < lo {
        lo
    } else if v > hi {
        hi
    } else {
        v
    }
}

pub open spec fn abs(v: int) -> int {
    if v < 0 {
        -v
    } else {
        v
    }
}

/// Clamps `val` into `[lower, upper]`.
pub fn clamp(val: i64, lower: i64, upper: i64) -> (r: i64)
    requires
        lower <= upper,
    ensures
        r == clamp_spec(val as int, lower as int, upper as int),
        lower <= r <= upper,
{
    if val < lower {
        lower
    } else if val > upper {
        upper
    } else {
        val
    }
}

proof fn lemma_scale_shrinks(a: int, num: int, den: int)
    requires
        0 < den,
        0 <= num <= den,
        a >= 0,
    ensures
        0 <= (a * num) / den <= a,
{
    assert(0 <= a * num <= a * den) by (nonlinear_arith)
        requires
            a >= 0,
            0 <= num <= den,
    ;
    assert(0 <= (a * num) / den <= a) by (nonlinear_arith)
        requires
            0 <= a * num <= a * den,
            0 < den,
            a >= 0,
    ;
}

/// Scaling by `num / den` shrinks a bound `b` on `a` to `b * num / den`.
pub proof fn lemma_scale_bound(a: int, num: int, den: int, b: int)
    requires
        0 < den,
        0 <= num <= den,
        abs(a) <= b,
    ensures
        abs(scale_spec(a, num, den)) <= (b * num) / den,
{
    let m = abs(a);
    assert(m * num <= b * num) by (nonlinear_arith)
        requires
            0 <= m <= b,
            0 <= num,
    ;
    assert(0 <= m * num) by (nonlinear_arith)
        requires
            0 <= m,
            0 <= num,
    ;
    assert((m * num) / den <= (b * num) / den) by (nonlinear_arith)
        requires
            m * num <= b * num,
            0 < den,
    ;
    if a < 0 {
        assert(a * num == -(m * num)) by (nonlinear_arith)
            requires
                m == -a,
        ;
    }
}

/// Keeping `num` percent of a value (`num < 100`), rounded toward zero,
/// keeps its sign, shrinks it by at least that fraction, and shrinks it
/// strictly unless it is zero.
pub proof fn lemma_shrink_toward_zero(a: int, num: int)
    requires
        0 <= num <= 99,
    ensures
        abs(scale_spec(a, num, 100)) * 100 <= abs(a) * num,
        abs(scale_spec(a, num, 100)) <= abs(a),
        a != 0 ==> abs(scale_spec(a, num, 100)) < abs(a),
        a >= 0 ==> scale_spec(a, num, 100) >= 0,
        a <= 0 ==> scale_spec(a, num, 100) <= 0,
{
    let m = abs(a);
    assert(0 <= m * num <= m * 100) by (nonlinear_arith)
        requires
            m >= 0,
            0 <= num <= 99,
    ;
    assert(m != 0 ==> m * num < m * 100) by (nonlinear_arith)
        requires
            m >= 0,
            0 <= num <= 99,
    ;
    assert(((m * num) / 100) * 100 <= m * num) by (nonlinear_arith)
        requires
            0 <= m * num,
    ;
    assert((m * num) / 100 <= m) by (nonlinear_arith)
        requires
            0 <= m * num <= m * 100,
    ;
    assert(m != 0 ==> (m * num) / 100 < m) by (nonlinear_arith)
        requires
            m != 0 ==> m * num < m * 100,
            0 <= m * num,
    ;
    if a < 0 {
        assert(a * num == -(m * num)) by (nonlinear_arith)
            requires
                m == -a,
        ;
    }
}

/// `a` scaled by `num / 100`, rounded toward zero, `n` times over.
pub open spec fn shrunk(a: int, num: int, n: nat) -> int
    decreases n,
{
    if n == 0 {
        a
    } else {
        scale_spec(shrunk(a, num, (n - 1) as nat), num, 100)
    }
}

/// After `n` scalings by `num / 100` a value is at most `(num / 100)^n` of
/// what it was, has lost at least `n` in magnitude or reached zero, and
/// has kept its sign.
pub proof fn lemma_shrunk_bounds(a: int, num: int, n: nat)
    requires
        0 <= num <= 99,
    ensures
        abs(shrunk(a, num, n)) * pow(100, n) <= abs(a) * pow(num, n),
        abs(shrunk(a, num, n)) <= if abs(a) >= n {
            abs(a) - n
        } else {
            0
        },
        a >= 0 ==> shrunk(a, num, n) >= 0,
        a <= 0 ==> shrunk(a, num, n) <= 0,
    decreases n,
{
    reveal(pow);
    if n > 0 {
        let k = (n - 1) as nat;
        lemma_shrunk_bounds(a, num, k);
        let s = shrunk(a, num, k);
        lemma_shrink_toward_zero(s, num);
        let r = abs(shrunk(a, num, n));
        let sa = abs(s);
        let p = pow(100, k);
        let q = pow(num, k);
        lemma_pow_positive(100, k);
        assert(r * (100 * p) <= abs(a) * (num * q)) by (nonlinear_arith)
            requires
                r * 100 <= sa * num,
                sa * p <= abs(a) * q,
                p > 0,
                0 <= num,
                0 <= r,
        ;
    }
}

/// Multiplies `a` by the fraction `num / den`, rounding toward zero.
/// With `num <= den` the result never exceeds `a` in magnitude.
pub fn scale(a: i64, num: i64, den: i64) -> (r: i64)
    requires
        0 < den,
        0 <= num <= den,
        a > i64::MIN,
        abs(a as int) * num <= i64::MAX,
    ensures
        r == scale_spec(a as int, num as int, den as int),
        abs(r as int) <= abs(a as int),
        a >= 0 ==> r >= 0,
        a <= 0 ==> r <= 0,
{
    if a >= 0 {
        proof {
            lemma_scale_shrinks(a as int, num as int, den as int);
        }
        (a * num) / den
    } else {
        let m: i64 = -a;
        proof {
            lemma_scale_shrinks(m as int, num as int, den as int);
            assert(a * num == -(m * num)) by (nonlinear_arith)
                requires
                    m == -a,
            ;
        }
        -((m * num) / den)
    }
}

} // verus!
