//! Fixed-point scalar arithmetic.
//!
//! A `Fx` holds a value as `raw / SCALE` with `raw: i128` and
//! `SCALE = 10^9`.  Every operation that could overflow is guarded and
//! returns `None` when an operand lies outside the working range `FXLIM`;
//! within the range the result is stated exactly, including the truncating
//! rounding of multiplication and division.

use vstd::prelude::*;

verus! {

/// Number of raw units per unit value.
pub const SCALE: i128 = 1_000_000_000;

/// Working range for operands of the guarded operations: 2^62 raw units.
pub const FXLIM: i128 = 0x4000_0000_0000_0000;

/// Magnitude bound, 2^126, under which negation and widening products
/// with `SCALE` stay inside `i128`.
pub const FXBIG: i128 = 0x4000_0000_0000_0000_0000_0000_0000_0000;

/// Truncating (round toward zero) division by a positive divisor.
pub open spec fn tdiv(a: int, d: int) -> int
    recommends
        d > 0,
{
    if a >= 0 {
        a / d
    } else {
        -((-a) / d)
    }
}

/// Truncating division by any nonzero divisor.
pub open spec fn tdivs(a: int, d: int) -> int
    recommends
        d != 0,
{
    if d > 0 {
        tdiv(a, d)
    } else {
        tdiv(-a, -d)
    }
}

/// Operand range of the guarded arithmetic operations.
pub open spec fn in_lim(x: int) -> bool {
    -FXLIM <= x <= FXLIM
}

/// Range under which a value can be safely negated and scaled by `SCALE`.
pub open spec fn in_big(x: int) -> bool {
    -FXBIG <= x <= FXBIG
}

/// A fixed-point number worth `raw / SCALE`.
#[derive(Clone, Copy, Debug, PartialEq, Eq, Structural)]
pub struct Fx {
    pub raw: i128,
}

impl Fx {
    /// Build a value from its raw representation.
    pub fn from_raw(raw: i128) -> (r: Fx)
        ensures
            r.raw == raw,
    {
        Fx { raw }
    }
}

/// Truncating division of `a` by a nonzero `d`, computed on magnitudes so
/// that only unsigned division is executed.
pub fn div_trunc(a: i128, d: i128) -> (r: i128)
    requires
        d != 0,
        in_big(a as int),
        in_big(d as int),
    ensures
        r == tdivs(a as int, d as int),
{
    let ua: u128 = if a >= 0 {
        a as u128
    } else {
        (-a) as u128
    };
    let ud: u128 = if d >= 0 {
        d as u128
    } else {
        (-d) as u128
    };
    let uq: u128 = ua / ud;
    proof {
        assert(ua == if a >= 0 { a as int } else { -(a as int) });
        assert(ud == if d >= 0 { d as int } else { -(d as int) });
        assert(uq == ua as int / ud as int);
    }
    if (a >= 0) == (d >= 0) {
        proof {
            assert(uq as int == tdivs(a as int, d as int));
        }
        uq as i128
    } else {
        proof {
            assert(-(uq as int) == tdivs(a as int, d as int));
        }
        -(uq as i128)
    }
}

/// Guarded addition: exact when both operands are in range.
pub fn fx_add(a: Fx, b: Fx) -> (r: Option<Fx>)
    ensures
        r is Some <==> in_lim(a.raw as int) && in_lim(b.raw as int),
        r is Some ==> r->Some_0.raw == a.raw + b.raw,
{
    if -FXLIM <= a.raw && a.raw <= FXLIM && -FXLIM <= b.raw && b.raw <= FXLIM {
        Some(Fx { raw: a.raw + b.raw })
    } else {
        None
    }
}

/// Guarded subtraction: exact when both operands are in range.
pub fn fx_sub(a: Fx, b: Fx) -> (r: Option<Fx>)
    ensures
        r is Some <==> in_lim(a.raw as int) && in_lim(b.raw as int),
        r is Some ==> r->Some_0.raw == a.raw - b.raw,
{
    if -FXLIM <= a.raw && a.raw <= FXLIM && -FXLIM <= b.raw && b.raw <= FXLIM {
        Some(Fx { raw: a.raw - b.raw })
    } else {
        None
    }
}

/// Guarded product, rounded toward zero to the nearest raw unit.
pub fn fx_mul(a: Fx, b: Fx) -> (r: Option<Fx>)
    ensures
        r is Some <==> in_lim(a.raw as int) && in_lim(b.raw as int),
        r is Some ==> r->Some_0.raw == tdiv(a.raw * b.raw, SCALE as int),
{
    if -FXLIM <= a.raw && a.raw <= FXLIM && -FXLIM <= b.raw && b.raw <= FXLIM {
        proof {
            assert(-FXBIG <= a.raw * b.raw <= FXBIG) by (nonlinear_arith)
                requires
                    -FXLIM <= a.raw <= FXLIM,
                    -FXLIM <= b.raw <= FXLIM,
                    FXLIM == 0x4000_0000_0000_0000,
                    FXBIG == 0x4000_0000_0000_0000_0000_0000_0000_0000,
            ;
        }
        let p: i128 = a.raw * b.raw;
        Some(Fx { raw: div_trunc(p, SCALE) })
    } else {
        None
    }
}

/// Guarded scaling by the exact rational `num / den`, rounded toward zero.
pub fn fx_scale(a: Fx, num: i64, den: i64) -> (r: Option<Fx>)
    requires
        den > 0,
    ensures
        r is Some <==> in_lim(a.raw as int),
        r is Some ==> r->Some_0.raw == tdiv(a.raw * num, den as int),
{
    if -FXLIM <= a.raw && a.raw <= FXLIM {
        proof {
            assert(-FXBIG <= a.raw * num <= FXBIG) by (nonlinear_arith)
                requires
                    -FXLIM <= a.raw <= FXLIM,
                    -0x8000_0000_0000_0000 <= num < 0x8000_0000_0000_0000,
                    FXLIM == 0x4000_0000_0000_0000,
                    FXBIG == 0x4000_0000_0000_0000_0000_0000_0000_0000,
            ;
        }
        let p: i128 = a.raw * (num as i128);
        Some(Fx { raw: div_trunc(p, den as i128) })
    } else {
        None
    }
}

/// Guarded quotient `a / b` in fixed point, rounded toward zero.
pub fn fx_div(a: Fx, b: Fx) -> (r: Option<Fx>)
    ensures
        r is Some <==> in_lim(a.raw as int) && in_big(b.raw as int) && b.raw != 0,
        r is Some ==> r->Some_0.raw == tdivs(a.raw * SCALE, b.raw as int),
{
    if -FXLIM <= a.raw && a.raw <= FXLIM && -FXBIG <= b.raw && b.raw <= FXBIG && b.raw != 0 {
        proof {
            assert(-FXBIG <= a.raw * SCALE <= FXBIG) by (nonlinear_arith)
                requires
                    -FXLIM <= a.raw <= FXLIM,
                    SCALE == 1_000_000_000,
                    FXLIM == 0x4000_0000_0000_0000,
                    FXBIG == 0x4000_0000_0000_0000_0000_0000_0000_0000,
            ;
        }
        let p: i128 = a.raw * SCALE;
        Some(Fx { raw: div_trunc(p, b.raw) })
    } else {
        None
    }
}

/// Magnitude of a value (total: every guarded result stays below `FXBIG`).
pub fn fx_abs(a: Fx) -> (r: Option<Fx>)
    ensures
        r is Some <==> in_big(a.raw as int),
        r is Some ==> r->Some_0.raw == if a.raw < 0 { -(a.raw as int) } else { a.raw as int },
{
    if -FXBIG <= a.raw && a.raw <= FXBIG {
        if a.raw < 0 {
            Some(Fx { raw: -a.raw })
        } else {
            Some(Fx { raw: a.raw })
        }
    } else {
        None
    }
}

/// Guarded negation.
pub fn fx_neg(a: Fx) -> (r: Option<Fx>)
    ensures
        r is Some <==> in_big(a.raw as int),
        r is Some ==> r->Some_0.raw == -(a.raw as int),
{
    if -FXBIG <= a.raw && a.raw <= FXBIG {
        Some(Fx { raw: -a.raw })
    } else {
        None
    }
}

/// An element-for-element copy of a vector of values.
pub fn fx_vec_copy(v: &Vec<Fx>) -> (r: Vec<Fx>)
    ensures
        r@ == v@,
{
    let mut out: Vec<Fx> = Vec::new();
    let mut i: usize = 0;
    while i < v.len()
        invariant
            i <= v@.len(),
            out@ == v@.subrange(0, i as int),
        decreases v@.len() - i,
    {
        out.push(v[i]);
        proof {
            assert(out@ =~= v@.subrange(0, i + 1));
        }
        i += 1;
    }
    proof {
        assert(out@ =~= v@);
    }
    out
}

/// The larger of two values.
pub fn fx_max(a: Fx, b: Fx) -> (r: Fx)
    ensures
        r.raw == if a.raw >= b.raw { a.raw } else { b.raw },
{
    if a.raw >= b.raw {
        a
    } else {
        b
    }
}

/// Raw views of a vector of fixed-point values.
pub open spec fn raws(s: Seq<Fx>) -> Seq<int> {
    s.map_values(|x: Fx| x.raw as int)
}

/// Raw views of a sequence of vectors of fixed-point values.
pub open spec fn raws2(s: Seq<Vec<Fx>>) -> Seq<Seq<int>> {
    s.map_values(|v: Vec<Fx>| raws(v@))
}

/// The all-zero sequence of a given length.
pub open spec fn zero_seq(n: nat) -> Seq<int> {
    Seq::new(n, |i: int| 0int)
}

/// An all-zero vector of fixed-point values.
pub fn fx_zeros(n: usize) -> (r: Vec<Fx>)
    ensures
        r@.len() == n,
        raws(r@) == zero_seq(n as nat),
{
    let mut v: Vec<Fx> = Vec::new();
    let mut i: usize = 0;
    while i < n
        invariant
            i <= n,
            v@.len() == i,
            forall|k: int| 0 <= k < i ==> v@[k].raw == 0,
        decreases n - i,
    {
        v.push(Fx { raw: 0 });
        i += 1;
    }
    proof {
        assert(raws(v@) =~= zero_seq(n as nat));
    }
    v
}

/// The remainder of truncating division is below the divisor in magnitude,
/// and the quotient never exceeds the exact quotient in magnitude.
pub proof fn lemma_tdiv_bound(a: int, d: int)
    requires
        d > 0,
    ensures
        d * tdiv(a, d) <= a + d - 1,
        a - d + 1 <= d * tdiv(a, d),
        a >= 0 ==> d * tdiv(a, d) <= a,
        a <= 0 ==> a <= d * tdiv(a, d),
        a >= 0 ==> 0 <= tdiv(a, d) <= a,
        a <= 0 ==> a <= tdiv(a, d) <= 0,
{
    if a >= 0 {
        assert(a == d * (a / d) + a % d && 0 <= a % d < d) by (nonlinear_arith)
            requires
                a >= 0,
                d > 0,
        ;
        assert(a / d <= a) by (nonlinear_arith)
            requires
                a >= 0,
                d > 0,
        ;
        assert(a / d >= 0) by (nonlinear_arith)
            requires
                a >= 0,
                d > 0,
        ;
    } else {
        let m = -a;
        assert(m == d * (m / d) + m % d && 0 <= m % d < d) by (nonlinear_arith)
            requires
                m >= 0,
                d > 0,
        ;
        assert(m / d <= m) by (nonlinear_arith)
            requires
                m >= 0,
                d > 0,
        ;
        assert(m / d >= 0) by (nonlinear_arith)
            requires
                m >= 0,
                d > 0,
        ;
        assert(d * tdiv(a, d) == -(d * (m / d))) by (nonlinear_arith)
            requires
                tdiv(a, d) == -(m / d),
        ;
    }
}

} // verus!
