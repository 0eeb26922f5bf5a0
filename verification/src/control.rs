//! Adaptive step-size control.
//!
//! The controller drives the stepper in a loop: it clamps the trial step
//! so the target time is never overshot, accepts a step when the scaled
//! error norm is at most one, rejects it otherwise, and rescales the step
//! with a clamped proportional factor.  Fatal conditions (step-size
//! underflow, too many steps, arithmetic leaving the working range) abort
//! the call with the statistics gathered so far.

use vstd::prelude::*;
use crate::fx::{
    Fx, fx_abs, fx_add, fx_max, fx_mul, fx_div, fx_neg, fx_scale, fx_sub, fx_vec_copy, div_trunc, in_lim,
    in_big, raws, raws2, tdiv, tdivs, lemma_tdiv_bound, FXLIM, SCALE,
};
use crate::tableau::Tableau;
use crate::ode::OdeSystem;
use crate::stepper::{combine, combine_ok, spec_combine, spec_stages, spec_step_err, spec_step_y, step};

verus! {

/// Raw units of the square of one value unit.
pub const SCALE2: i128 = 1_000_000_000_000_000_000;

/// Cap on a single scaled error ratio.
pub const QCAP: i128 = 1_000_000_000_000_000;

/// `10^10`, the scaling of the tolerance-to-error ratio.
pub const TEN10: i128 = 10_000_000_000;

/// Cap on the tolerance-to-error ratio.
pub const RQCAP: i128 = 1_000_000_000_000_000_000;

/// The tenth power of the safety factor `0.9`, scaled by `10^10`.
pub const SAFE10: i128 = 3_486_784_401;

/// Magnitude of an integer.
pub open spec fn iabs(x: int) -> int {
    if x < 0 {
        -x
    } else {
        x
    }
}

/// The error scale of one component: `atol + rtol * max(|a|, |b|)`.
pub open spec fn spec_scale_denom(atol: int, rtol: int, a: int, b: int) -> int {
    atol + tdiv(rtol * (if iabs(a) >= iabs(b) { iabs(a) } else { iabs(b) }), SCALE as int)
}

/// Whether one component of the scaled error norm can be computed inside
/// the working range with a positive scale: the exact condition under
/// which `error_sq` can process it.
pub open spec fn err_term_ok(e: int, a: int, b: int, atol: int, rtol: int) -> bool {
    let mx = if iabs(a) >= iabs(b) {
        iabs(a)
    } else {
        iabs(b)
    };
    let p = tdiv(rtol * mx, SCALE as int);
    &&& in_big(a)
    &&& in_big(b)
    &&& in_lim(rtol)
    &&& in_lim(mx)
    &&& in_lim(atol)
    &&& in_lim(p)
    &&& atol + p > 0
    &&& in_lim(e)
    &&& in_big(atol + p)
}

/// Whether the whole scaled error norm can be computed: the exact
/// condition under which `error_sq` succeeds.
pub open spec fn err_sq_ok(err: Seq<int>, y: Seq<int>, yn: Seq<int>, atol: int, rtol: int, n: nat) -> bool {
    forall|i: int| 0 <= i < n ==> #[trigger] err_term_ok(err[i], y[i], yn[i], atol, rtol)
}

/// Sum over the first `n` components of the squared scaled error ratios,
/// each ratio clamped to `QCAP` in magnitude.
pub open spec fn spec_err_sq(err: Seq<int>, y: Seq<int>, yn: Seq<int>, atol: int, rtol: int, n: nat) -> int
    decreases n,
{
    if n == 0 {
        0
    } else {
        let sc = spec_scale_denom(atol, rtol, y[n - 1], yn[n - 1]);
        let q0 = tdivs(err[n - 1] * SCALE, sc);
        let q: int = if q0 > QCAP {
            QCAP as int
        } else if q0 < -QCAP {
            -(QCAP as int)
        } else {
            q0
        };
        spec_err_sq(err, y, yn, atol, rtol, (n - 1) as nat) + q * q
    }
}

/// Compute the sum of squared scaled error ratios.  `None` when a scale
/// is not positive or the arithmetic leaves the working range.
fn error_sq(err: &Vec<Fx>, y: &Vec<Fx>, yn: &Vec<Fx>, atol: Fx, rtol: Fx) -> (r: Option<i128>)
    requires
        y@.len() == err@.len(),
        yn@.len() == err@.len(),
        err@.len() <= 1000,
    ensures
        r is Some <==> err_sq_ok(
            raws(err@), raws(y@), raws(yn@), atol.raw as int, rtol.raw as int, err@.len()),
        r is Some ==> r->Some_0 == spec_err_sq(
            raws(err@), raws(y@), raws(yn@), atol.raw as int, rtol.raw as int, err@.len()),
        r is Some ==> 0 <= r->Some_0 <= err@.len() * QCAP * QCAP,
{
    let ghost ea = raws(err@);
    let ghost ya0 = raws(y@);
    let ghost yn0 = raws(yn@);
    let n = err.len();
    let mut acc: i128 = 0;
    let mut i: usize = 0;
    while i < n
        invariant
            i <= n,
            n == err@.len(),
            y@.len() == n,
            yn@.len() == n,
            n <= 1000,
            ea == raws(err@),
            ya0 == raws(y@),
            yn0 == raws(yn@),
            acc == spec_err_sq(raws(err@), raws(y@), raws(yn@), atol.raw as int, rtol.raw as int, i as nat),
            0 <= acc <= i * QCAP * QCAP,
            forall|j: int|
                0 <= j < i ==> #[trigger] err_term_ok(
                    ea[j], ya0[j], yn0[j], atol.raw as int, rtol.raw as int),
        decreases n - i,
    {
        let ya = match fx_abs(y[i]) {
            Some(v) => v,
            None => {
                proof {
                    assert(!err_term_ok(
                        ea[i as int], ya0[i as int], yn0[i as int], atol.raw as int,
                        rtol.raw as int));
                }
                return None;
            },
        };
        let na = match fx_abs(yn[i]) {
            Some(v) => v,
            None => {
                proof {
                    assert(!err_term_ok(
                        ea[i as int], ya0[i as int], yn0[i as int], atol.raw as int,
                        rtol.raw as int));
                }
                return None;
            },
        };
        let mx = fx_max(ya, na);
        let p = match fx_mul(rtol, mx) {
            Some(v) => v,
            None => {
                proof {
                    assert(!err_term_ok(
                        ea[i as int], ya0[i as int], yn0[i as int], atol.raw as int,
                        rtol.raw as int));
                }
                return None;
            },
        };
        let sc = match fx_add(atol, p) {
            Some(v) => v,
            None => {
                proof {
                    assert(!err_term_ok(
                        ea[i as int], ya0[i as int], yn0[i as int], atol.raw as int,
                        rtol.raw as int));
                }
                return None;
            },
        };
        if sc.raw <= 0 {
            proof {
                assert(!err_term_ok(
                    ea[i as int], ya0[i as int], yn0[i as int], atol.raw as int,
                    rtol.raw as int));
            }
            return None;
        }
        let q0 = match fx_div(err[i], sc) {
            Some(v) => v,
            None => {
                proof {
                    assert(!err_term_ok(
                        ea[i as int], ya0[i as int], yn0[i as int], atol.raw as int,
                        rtol.raw as int));
                }
                return None;
            },
        };
        proof {
            assert(err_term_ok(
                ea[i as int], ya0[i as int], yn0[i as int], atol.raw as int, rtol.raw as int));
        }
        let q: i128 = if q0.raw > QCAP {
            QCAP
        } else if q0.raw < -QCAP {
            -QCAP
        } else {
            q0.raw
        };
        proof {
            assert(-QCAP <= q <= QCAP);
            assert(q * q <= QCAP * QCAP && 0 <= q * q) by (nonlinear_arith)
                requires
                    -QCAP <= q <= QCAP,
            ;
            assert((i + 1) * QCAP * QCAP == i * QCAP * QCAP + QCAP * QCAP) by (nonlinear_arith);
        }
        acc = acc + q * q;
        i += 1;
    }
    Some(acc)
}

/// The tenth power.
pub open spec fn pow10(m: int) -> int {
    m * m * m * m * m * m * m * m * m * m
}

/// The capped tolerance-to-error ratio, scaled by `10^10`.
pub open spec fn spec_rq(e2: int, t: int) -> int
    recommends
        e2 > 0,
{
    if tdiv(t * TEN10, e2) > RQCAP {
        RQCAP as int
    } else {
        tdiv(t * TEN10, e2)
    }
}

/// Whether a step-scale factor of `m` hundredths keeps the controller
/// inequality `(m/100)^10 <= 0.9^10 * t / e2`.
pub open spec fn fpred(m: int, e2: int, t: int) -> bool {
    pow10(m) <= SAFE10 * spec_rq(e2, t)
}

/// The step-scale factor in hundredths: the largest `m` in `[20, 500]`
/// with `(m/100)^10 <= 0.9^10 * t / e2`, clamped to the bounds.
fn factor_centi(e2: i128, t: i128) -> (r: u32)
    requires
        0 <= e2,
        in_big(e2 as int),
        0 < t <= 1_000_000_000_000_000_000_000,
    ensures
        20 <= r <= 500,
        e2 == 0 ==> r == 500,
        e2 > 0 ==> (r == 20 || fpred(r as int, e2 as int, t as int)),
        e2 > 0 ==> forall|mm: int| r < mm <= 500 ==> !fpred(mm, e2 as int, t as int),
{
    if e2 == 0 {
        return 500;
    }
    proof {
        assert(in_big(t * TEN10)) by (nonlinear_arith)
            requires
                0 < t <= 1_000_000_000_000_000_000_000,
                TEN10 == 10_000_000_000,
                crate::fx::FXBIG == 0x4000_0000_0000_0000_0000_0000_0000_0000,
        ;
        lemma_tdiv_bound(t * TEN10, e2 as int);
        assert(t * TEN10 >= 0) by (nonlinear_arith)
            requires
                t > 0,
                TEN10 > 0,
        ;
    }
    let raw_rq = div_trunc(t * TEN10, e2);
    let rq: i128 = if raw_rq > RQCAP {
        RQCAP
    } else {
        raw_rq
    };
    proof {
        assert(rq == spec_rq(e2 as int, t as int));
        assert(0 <= rq <= RQCAP);
    }
    let mut m: u32 = 500;
    while m > 20
        invariant
            e2 > 0,
            20 <= m <= 500,
            0 <= rq <= RQCAP,
            rq == spec_rq(e2 as int, t as int),
            forall|mm: int| m < mm <= 500 ==> !fpred(mm, e2 as int, t as int),
        decreases m,
    {
        let mu = m as u128;
        proof {
            assert(mu * mu <= 250000) by (nonlinear_arith)
                requires
                    mu <= 500,
            ;
            assert(mu * mu * (mu * mu) <= 62_500_000_000u128) by (nonlinear_arith)
                requires
                    mu * mu <= 250000,
            ;
        }
        let m2 = mu * mu;
        let m4 = m2 * m2;
        proof {
            assert(m4 * mu <= 31_250_000_000_000u128) by (nonlinear_arith)
                requires
                    m4 <= 62_500_000_000u128,
                    mu <= 500,
            ;
        }
        let m5 = m4 * mu;
        proof {
            assert(m5 * m5 <= 976_562_500_000_000_000_000_000_000u128) by (nonlinear_arith)
                requires
                    m5 <= 31_250_000_000_000u128,
            ;
        }
        let m10 = m5 * m5;
        proof {
            assert(m10 == pow10(m as int)) by (nonlinear_arith)
                requires
                    m2 == mu * mu,
                    m4 == m2 * m2,
                    m5 == m4 * mu,
                    m10 == m5 * m5,
                    mu == m as int,
                    m10 <= 976_562_500_000_000_000_000_000_000u128,
            ;
        }
        let rhs = 3_486_784_401u128 * (rq as u128);
        proof {
            assert(rhs == SAFE10 * rq) by (nonlinear_arith)
                requires
                    rhs == 3_486_784_401u128 * (rq as u128),
                    rq as u128 == rq,
                    0 <= rq <= RQCAP,
                    SAFE10 == 3_486_784_401,
                    RQCAP == 1_000_000_000_000_000_000,
            ;
        }
        if m10 <= rhs {
            return m;
        }
        m -= 1;
    }
    20
}

/// A rejected step always shrinks: when the error exceeds the tolerance
/// (`e2 > t`), any factor the controller can return is below one, so the
/// rescaled step is strictly smaller in magnitude.
pub proof fn lemma_rejection_shrinks(e2: int, t: int, m: int, h: int)
    requires
        0 < t,
        t < e2,
        20 <= m <= 500,
        m == 20 || fpred(m, e2, t),
        h != 0,
    ensures
        m < 100,
        iabs(tdiv(h * m, 100)) < iabs(h),
{
    assert(t * TEN10 >= 0) by (nonlinear_arith)
        requires
            t > 0,
            TEN10 > 0,
    ;
    lemma_tdiv_bound(t * TEN10, e2);
    // spec_rq(e2, t) < TEN10 because t < e2.
    assert(tdiv(t * TEN10, e2) < TEN10) by (nonlinear_arith)
        requires
            0 < t < e2,
            TEN10 == 10_000_000_000,
            t * TEN10 >= 0,
            e2 * tdiv(t * TEN10, e2) <= t * TEN10,
            tdiv(t * TEN10, e2) >= 0,
    ;
    if m >= 100 {
        assert(pow10(m) >= 100_000_000_000_000_000_000) by (nonlinear_arith)
            requires
                100 <= m <= 500,
        ;
        assert(SAFE10 * spec_rq(e2, t) < 100_000_000_000_000_000_000) by (nonlinear_arith)
            requires
                0 <= spec_rq(e2, t) < TEN10,
                TEN10 == 10_000_000_000,
                SAFE10 == 3_486_784_401,
        ;
        assert(!fpred(m, e2, t));
        assert(false);
    }
    let a = h * m;
    let v = tdiv(a, 100);
    lemma_tdiv_bound(a, 100);
    if h > 0 {
        assert(0 < a <= 99 * h) by (nonlinear_arith)
            requires
                h > 0,
                20 <= m < 100,
                a == h * m,
        ;
        assert(100 * v <= a);
        assert(v < h) by (nonlinear_arith)
            requires
                100 * v <= 99 * h,
                h >= 1,
        ;
        assert(v >= 0);
    } else {
        assert(99 * h <= a < 0) by (nonlinear_arith)
            requires
                h < 0,
                20 <= m < 100,
                a == h * m,
        ;
        assert(a <= 100 * v);
        assert(v > h) by (nonlinear_arith)
            requires
                99 * h <= 100 * v,
                h <= -1,
        ;
        assert(v <= 0);
    }
}

/// The ghost model of one accepted step.
pub struct SegModel {
    /// Start time of the step.
    pub t0: int,
    /// Signed step span.
    pub h: int,
    /// State at the start of the step.
    pub y0: Seq<int>,
    /// Stage derivatives of the step.
    pub ks: Seq<Seq<int>>,
}

/// A sequence of accepted steps leading from `(t0, y0)` to `(t1, y1)`:
/// each step starts where the previous one ended, its span respects the
/// configured clamp, its stages follow the stepper recurrence, its scaled
/// error passed the acceptance test against the given tolerances, and its
/// end state is the stepper's combination.
pub open spec fn chain<S: OdeSystem>(
    sys: S,
    tab: Tableau,
    atol: int,
    rtol: int,
    maxh: int,
    segs: Seq<SegModel>,
    t0: int,
    y0: Seq<int>,
    t1: int,
    y1: Seq<int>,
) -> bool
    decreases segs.len(),
{
    if segs.len() == 0 {
        t1 == t0 && y1 == y0
    } else {
        let sg = segs[0];
        &&& sg.t0 == t0
        &&& sg.y0 == y0
        &&& sg.h != 0
        &&& iabs(sg.h) <= maxh
        &&& sg.ks == spec_stages(sys, tab, t0, y0, sg.h, tab.s as nat)
        &&& spec_err_sq(
            spec_step_err(sys, tab, t0, y0, sg.h),
            y0,
            spec_step_y(sys, tab, t0, y0, sg.h),
            atol,
            rtol,
            y0.len(),
        ) <= y0.len() * SCALE2
        &&& chain(
            sys,
            tab,
            atol,
            rtol,
            maxh,
            segs.subrange(1, segs.len() as int),
            t0 + sg.h,
            spec_step_y(sys, tab, t0, y0, sg.h),
            t1,
            y1,
        )
    }
}

/// Extending a chain by one consistent accepted step keeps it a chain.
pub proof fn lemma_chain_push<S: OdeSystem>(
    sys: S,
    tab: Tableau,
    atol: int,
    rtol: int,
    maxh: int,
    segs: Seq<SegModel>,
    t0: int,
    y0: Seq<int>,
    t: int,
    y: Seq<int>,
    sg: SegModel,
)
    requires
        chain(sys, tab, atol, rtol, maxh, segs, t0, y0, t, y),
        sg.t0 == t,
        sg.y0 == y,
        sg.h != 0,
        iabs(sg.h) <= maxh,
        sg.ks == spec_stages(sys, tab, t, y, sg.h, tab.s as nat),
        spec_err_sq(
            spec_step_err(sys, tab, t, y, sg.h),
            y,
            spec_step_y(sys, tab, t, y, sg.h),
            atol,
            rtol,
            y.len(),
        ) <= y.len() * SCALE2,
    ensures
        chain(
            sys,
            tab,
            atol,
            rtol,
            maxh,
            segs.push(sg),
            t0,
            y0,
            t + sg.h,
            spec_step_y(sys, tab, t, y, sg.h),
        ),
    decreases segs.len(),
{
    if segs.len() == 0 {
        assert(segs.push(sg)[0] == sg);
        assert(segs.push(sg).subrange(1, 1) =~= Seq::<SegModel>::empty());
        assert(chain(
            sys,
            tab,
            atol,
            rtol,
            maxh,
            segs.push(sg).subrange(1, 1),
            t + sg.h,
            spec_step_y(sys, tab, t, y, sg.h),
            t + sg.h,
            spec_step_y(sys, tab, t, y, sg.h),
        ));
    } else {
        lemma_chain_push(
            sys,
            tab,
            atol,
            rtol,
            maxh,
            segs.subrange(1, segs.len() as int),
            t0 + segs[0].h,
            spec_step_y(sys, tab, t0, y0, segs[0].h),
            t,
            y,
            sg,
        );
        assert(segs.push(sg).subrange(1, segs.len() as int + 1) =~= segs.subrange(
            1,
            segs.len() as int,
        ).push(sg));
        assert(segs.push(sg)[0] == segs[0]);
    }
}

/// The failure kinds of the engine.
#[derive(Clone, Copy, Debug, PartialEq, Eq, Structural)]
pub enum ErrorKind {
    /// The step size shrank to the configured minimum without progress.
    StepSizeUnderflow,
    /// The configured maximum number of steps was exhausted.
    MaxStepsExceeded,
    /// A value left the representable working range.
    NonFiniteState,
    /// An interpolation time outside the integrated span.
    OutOfRangeInterpolation,
}

/// A failure, carrying the statistics accumulated so far.
#[derive(Clone, Copy, Debug)]
pub struct PropError {
    /// What went wrong.
    pub kind: ErrorKind,
    /// Right-hand-side evaluations performed before the failure.
    pub num_eval: u64,
    /// Steps accepted before the failure.
    pub accepted_steps: u64,
    /// Steps rejected before the failure.
    pub rejected_steps: u64,
}

/// Configuration of one propagation call.
#[derive(Clone, Copy, Debug)]
pub struct PropSettings {
    /// Per-component floor of the error scale.
    pub abs_tol: Fx,
    /// Relative weight of the state magnitude in the error scale.
    pub rel_tol: Fx,
    /// Magnitude of the first trial step, in seconds.
    pub init_step: Fx,
    /// Smallest admissible step magnitude.
    pub min_step: Fx,
    /// Largest admissible step magnitude.
    pub max_step: Fx,
    /// Bound on accepted plus rejected steps.
    pub max_steps: u32,
    /// Whether to retain dense output for later interpolation.
    pub dense_output: bool,
}

impl PropSettings {
    /// Well-formed settings: positive tolerance floor, ordered positive
    /// step bounds inside the working range, at least one allowed step.
    pub open spec fn wf(self) -> bool {
        &&& 0 < self.abs_tol.raw <= FXLIM
        &&& 0 <= self.rel_tol.raw <= FXLIM
        &&& in_lim(self.init_step.raw as int)
        &&& 0 < self.min_step.raw <= self.max_step.raw
        &&& self.max_step.raw <= FXLIM
        &&& 1 <= self.max_steps
    }
}

impl Default for PropSettings {
    /// Tolerances of `10^-6`, steps between a microsecond and an hour
    /// starting at a minute, at most ten thousand steps, no dense output.
    fn default() -> (r: PropSettings)
        ensures
            r.wf(),
            !r.dense_output,
    {
        PropSettings {
            abs_tol: Fx { raw: 1000 },
            rel_tol: Fx { raw: 1000 },
            init_step: Fx { raw: 60_000_000_000 },
            min_step: Fx { raw: 1000 },
            max_step: Fx { raw: 3_600_000_000_000 },
            max_steps: 10000,
            dense_output: false,
        }
    }
}

/// One retained step of dense output.
#[derive(Clone, Debug)]
pub struct DenseStep {
    /// Start time of the step.
    pub t0: Fx,
    /// Signed step span.
    pub h: Fx,
    /// State at the start of the step.
    pub y0: Vec<Fx>,
    /// Stage derivatives of the step.
    pub stages: Vec<Vec<Fx>>,
}

/// The ghost model of a retained step.
pub open spec fn seg_model(s: DenseStep) -> SegModel {
    SegModel { t0: s.t0.raw as int, h: s.h.raw as int, y0: raws(s.y0@), ks: raws2(s.stages@) }
}

/// The ghost models of a retained step sequence.
pub open spec fn seg_models(s: Seq<DenseStep>) -> Seq<SegModel> {
    s.map_values(|d: DenseStep| seg_model(d))
}

/// The outcome of one propagation call.
#[derive(Debug)]
pub struct PropagationResult {
    /// Time the propagation started from.
    pub time_start: Fx,
    /// Time the propagation reached.
    pub time_end: Fx,
    /// State at the start time.
    pub state_start: Vec<Fx>,
    /// State at the end time.
    pub state_end: Vec<Fx>,
    /// Number of right-hand-side evaluations.
    pub num_eval: u64,
    /// Number of accepted steps.
    pub accepted_steps: u64,
    /// Number of rejected steps.
    pub rejected_steps: u64,
    /// Retained dense-output steps, ordered by time, covering exactly the
    /// integrated span.
    pub odesol: Option<Vec<DenseStep>>,
}

/// Structural well-formedness of one retained step.
pub open spec fn seg_shape_wf(sg: DenseStep, tab: Tableau, n: nat, forward: bool) -> bool {
    &&& sg.stages@.len() == tab.s
    &&& forall|k: int| 0 <= k < tab.s ==> (#[trigger] sg.stages@[k])@.len() == n
    &&& sg.y0@.len() == n
    &&& sg.h.raw != 0
    &&& in_lim(sg.t0.raw as int)
    &&& in_lim(sg.h.raw as int)
    &&& (forward <==> sg.h.raw > 0)
}

/// Structural well-formedness of a retained step sequence from `t0` to
/// `tcur`: contiguous in time, all steps in one direction.
pub open spec fn segs_wf(
    segs: Seq<DenseStep>,
    tab: Tableau,
    n: nat,
    t0: int,
    y0: Seq<int>,
    tcur: int,
    forward: bool,
) -> bool {
    &&& forall|i: int| 0 <= i < segs.len() ==> seg_shape_wf(#[trigger] segs[i], tab, n, forward)
    &&& if segs.len() == 0 {
        tcur == t0
    } else {
        &&& segs[0].t0.raw == t0
        &&& raws(segs[0].y0@) == y0
        &&& forall|i: int|
            0 <= i < segs.len() - 1 ==> (#[trigger] segs[i + 1]).t0.raw == segs[i].t0.raw
                + segs[i].h.raw
        &&& segs[segs.len() - 1].t0.raw + segs[segs.len() - 1].h.raw == tcur
    }
}

impl PropagationResult {
    /// Whether the result retains dense output.
    pub fn can_interp(&self) -> (r: bool)
        ensures
            r == (self.odesol is Some),
    {
        self.odesol.is_some()
    }

    /// Structural well-formedness of a dense result with respect to the
    /// tableau it was produced with.
    pub open spec fn dense_wf(self, tab: Tableau) -> bool {
        &&& self.odesol is Some
        &&& tab.wf()
        &&& in_lim(self.time_start.raw as int)
        &&& in_lim(self.time_end.raw as int)
        &&& self.state_start@.len() == self.state_end@.len()
        &&& segs_wf(
            self.odesol->Some_0@,
            tab,
            self.state_end@.len(),
            self.time_start.raw as int,
            raws(self.state_start@),
            self.time_end.raw as int,
            self.time_end.raw > self.time_start.raw,
        )
        &&& self.odesol->Some_0@.len() == 0 ==> raws(self.state_start@) == raws(self.state_end@)
        &&& self.time_start.raw == self.time_end.raw ==> self.odesol->Some_0@.len() == 0
    }
}

/// Whether `x` lies between `a` and `b`, whichever way they are ordered.
pub open spec fn between(a: int, x: int, b: int) -> bool {
    (a <= x <= b) || (b <= x <= a)
}

/// Whether a retained step's time bracket contains `x`.
pub open spec fn seg_covers(sg: DenseStep, x: int) -> bool {
    between(sg.t0.raw as int, x, sg.t0.raw + sg.h.raw)
}

/// The effective span of a dense evaluation at time `x`: the step span
/// rescaled by the normalized offset `theta = (x - t0) / h`.
pub open spec fn seg_eval_h(sg: DenseStep, x: int) -> int {
    tdiv(sg.h.raw * tdivs((x - sg.t0.raw) * (SCALE as int), sg.h.raw as int), SCALE as int)
}

/// The dense-output evaluation of one retained step at time `x`: the
/// step's own linear combination is evaluated with the rescaled span, so
/// that offsets zero and one reproduce the step's endpoint states
/// exactly.
pub open spec fn seg_eval(tab: Tableau, sg: DenseStep, x: int) -> Seq<int> {
    spec_combine(raws(sg.y0@), seg_eval_h(sg, x), raws2(sg.stages@), tab.b@, tab.s as nat)
}

impl PropagationResult {
    /// Evaluate the retained dense output at a time inside the
    /// integrated span.  At the recorded start or end time the recorded
    /// state is returned exactly; outside the span the call fails with
    /// `OutOfRangeInterpolation`, and only then; inside, the bracketing
    /// step's interpolation is evaluated at the normalized offset, with
    /// `NonFiniteState` when that arithmetic leaves the working range.
    pub fn interp(&self, tab: &Tableau, time: Fx) -> (r: Result<Vec<Fx>, PropError>)
        requires
            self.dense_wf(*tab),
            in_lim(time.raw as int),
        ensures
            (r is Err && r->Err_0.kind == ErrorKind::OutOfRangeInterpolation) <==> !between(
                self.time_start.raw as int,
                time.raw as int,
                self.time_end.raw as int,
            ),
            r is Err ==> r->Err_0.kind == ErrorKind::OutOfRangeInterpolation || r->Err_0.kind
                == ErrorKind::NonFiniteState,
            time.raw == self.time_start.raw ==> r is Ok && raws(r->Ok_0@) == raws(
                self.state_start@),
            time.raw == self.time_end.raw ==> r is Ok && raws(r->Ok_0@) == raws(self.state_end@),
            r is Ok && time.raw != self.time_start.raw && time.raw != self.time_end.raw
                ==> exists|idx: int|
                0 <= idx < self.odesol->Some_0@.len() && seg_covers(
                    #[trigger] self.odesol->Some_0@[idx],
                    time.raw as int,
                ) && raws(r->Ok_0@) == seg_eval(*tab, self.odesol->Some_0@[idx], time.raw as int),
            r is Err && r->Err_0.kind == ErrorKind::NonFiniteState ==> exists|idx: int|
                0 <= idx < self.odesol->Some_0@.len() && seg_covers(
                    #[trigger] self.odesol->Some_0@[idx],
                    time.raw as int,
                ) && !combine_ok(
                    raws(self.odesol->Some_0@[idx].y0@),
                    seg_eval_h(self.odesol->Some_0@[idx], time.raw as int),
                    raws2(self.odesol->Some_0@[idx].stages@),
                    tab.b@,
                    tab.s as nat,
                ),
    {
        let fwd = self.time_end.raw >= self.time_start.raw;
        let inr = if fwd {
            self.time_start.raw <= time.raw && time.raw <= self.time_end.raw
        } else {
            self.time_end.raw <= time.raw && time.raw <= self.time_start.raw
        };
        if !inr {
            return Err(fail(
                ErrorKind::OutOfRangeInterpolation,
                self.num_eval,
                self.accepted_steps,
                self.rejected_steps,
            ));
        }
        if time.raw == self.time_start.raw {
            return Ok(fx_vec_copy(&self.state_start));
        }
        if time.raw == self.time_end.raw {
            return Ok(fx_vec_copy(&self.state_end));
        }
        let segs = match &self.odesol {
            Some(s) => s,
            None => {
                proof {
                    assert(false);
                }
                return Err(fail(ErrorKind::NonFiniteState, 0, 0, 0));
            },
        };
        let ghost fw = self.time_end.raw > self.time_start.raw;
        proof {
            assert(self.time_start.raw != self.time_end.raw);
            assert(segs@.len() > 0);
            assert(fw == fwd);
        }
        let n = segs.len();
        let mut idx: usize = 0;
        while idx < n
            invariant
                self.dense_wf(*tab),
                in_lim(time.raw as int),
                self.odesol matches Some(s) && s@ == segs@,
                n == segs@.len(),
                n > 0,
                idx <= n,
                fw == (self.time_end.raw > self.time_start.raw),
                fwd == fw,
                fw ==> self.time_start.raw < time.raw < self.time_end.raw,
                !fw ==> self.time_end.raw < time.raw < self.time_start.raw,
                idx > 0 && fw ==> time.raw > segs@[idx - 1].t0.raw + segs@[idx - 1].h.raw,
                idx > 0 && !fw ==> time.raw < segs@[idx - 1].t0.raw + segs@[idx - 1].h.raw,
            decreases n - idx,
        {
            let sg = &segs[idx];
            proof {
                assert(seg_shape_wf(segs@[idx as int], *tab, self.state_end@.len() as nat, fw));
                if idx == 0 {
                    assert(sg.t0.raw == self.time_start.raw);
                } else {
                    let i0 = idx as int - 1;
                    assert(segs@[i0 + 1].t0.raw == segs@[i0].t0.raw + segs@[i0].h.raw);
                }
                assert(fw ==> sg.t0.raw < time.raw);
                assert(!fw ==> sg.t0.raw > time.raw);
            }
            let end_i: i128 = sg.t0.raw + sg.h.raw;
            let found = if fwd {
                time.raw <= end_i
            } else {
                time.raw >= end_i
            };
            if found {
                let dt = match fx_sub(time, sg.t0) {
                    Some(v) => v,
                    None => {
                        proof {
                            assert(false);
                        }
                        return Err(fail(ErrorKind::NonFiniteState, 0, 0, 0));
                    },
                };
                proof {
                    assert(in_big(dt.raw * SCALE)) by (nonlinear_arith)
                        requires
                            -0x1_0000_0000_0000_0000i128 <= dt.raw
                                <= 0x1_0000_0000_0000_0000i128,
                            SCALE == 1_000_000_000,
                            crate::fx::FXBIG == 0x4000_0000_0000_0000_0000_0000_0000_0000,
                    ;
                    if fw {
                        lemma_tdiv_bound(dt.raw * SCALE, sg.h.raw as int);
                        assert(0 < dt.raw <= sg.h.raw);
                        assert(0 <= tdivs(dt.raw * SCALE, sg.h.raw as int) <= SCALE)
                            by (nonlinear_arith)
                            requires
                                0 < dt.raw <= sg.h.raw,
                                SCALE > 0,
                                tdivs(dt.raw * SCALE, sg.h.raw as int) == tdiv(
                                    dt.raw * SCALE,
                                    sg.h.raw as int,
                                ),
                                dt.raw * SCALE >= 0,
                                sg.h.raw * tdiv(dt.raw * SCALE, sg.h.raw as int) <= dt.raw
                                    * SCALE,
                                tdiv(dt.raw * SCALE, sg.h.raw as int) >= 0,
                        ;
                    } else {
                        assert(sg.h.raw <= dt.raw < 0);
                        lemma_tdiv_bound(-(dt.raw as int) * SCALE, -(sg.h.raw as int));
                        assert(0 <= tdivs(dt.raw * SCALE, sg.h.raw as int) <= SCALE)
                            by (nonlinear_arith)
                            requires
                                sg.h.raw <= dt.raw < 0,
                                SCALE > 0,
                                tdivs(dt.raw * SCALE, sg.h.raw as int) == tdiv(
                                    -(dt.raw as int) * SCALE,
                                    -(sg.h.raw as int),
                                ),
                                -(dt.raw as int) * SCALE >= 0,
                                -(sg.h.raw as int) * tdiv(
                                    -(dt.raw as int) * SCALE,
                                    -(sg.h.raw as int),
                                ) <= -(dt.raw as int) * SCALE,
                                tdiv(-(dt.raw as int) * SCALE, -(sg.h.raw as int)) >= 0,
                        ;
                    }
                }
                let th = crate::fx::div_trunc(dt.raw * SCALE, sg.h.raw);
                let hh = match fx_mul(sg.h, Fx { raw: th }) {
                    Some(v) => v,
                    None => {
                        proof {
                            assert(false);
                        }
                        return Err(fail(ErrorKind::NonFiniteState, 0, 0, 0));
                    },
                };
                let val = match combine(&sg.y0, hh, &sg.stages, &tab.b, tab.s) {
                    Some(v) => v,
                    None => {
                        proof {
                            assert(hh.raw == seg_eval_h(segs@[idx as int], time.raw as int));
                            assert(!combine_ok(
                                raws(segs@[idx as int].y0@),
                                seg_eval_h(segs@[idx as int], time.raw as int),
                                raws2(segs@[idx as int].stages@),
                                tab.b@,
                                tab.s as nat,
                            ));
                            assert(seg_covers(segs@[idx as int], time.raw as int));
                        }
                        return Err(fail(
                            ErrorKind::NonFiniteState,
                            self.num_eval,
                            self.accepted_steps,
                            self.rejected_steps,
                        ));
                    },
                };
                proof {
                    assert(seg_covers(segs@[idx as int], time.raw as int));
                    assert(raws(val@) == seg_eval(*tab, segs@[idx as int], time.raw as int));
                }
                return Ok(val);
            }
            idx += 1;
        }
        proof {
            assert(segs@[n as int - 1].t0.raw + segs@[n as int - 1].h.raw == self.time_end.raw);
            assert(false);
        }
        Err(fail(ErrorKind::NonFiniteState, 0, 0, 0))
    }
}

/// Extending a well-formed retained sequence by one step that starts at
/// its current end keeps it well-formed.
proof fn lemma_segs_wf_push(
    segs: Seq<DenseStep>,
    tab: Tableau,
    n: nat,
    t0: int,
    y0: Seq<int>,
    tcur: int,
    forward: bool,
    sg: DenseStep,
)
    requires
        segs_wf(segs, tab, n, t0, y0, tcur, forward),
        seg_shape_wf(sg, tab, n, forward),
        sg.t0.raw == tcur,
        segs.len() == 0 ==> raws(sg.y0@) == y0,
    ensures
        segs_wf(segs.push(sg), tab, n, t0, y0, tcur + sg.h.raw, forward),
{
    let p = segs.push(sg);
    assert forall|i: int| 0 <= i < p.len() implies seg_shape_wf(#[trigger] p[i], tab, n, forward) by {
        if i < segs.len() {
            assert(p[i] == segs[i]);
        } else {
            assert(p[i] == sg);
        }
    }
    if segs.len() == 0 {
        assert(p[0] == sg);
    } else {
        assert(p[0] == segs[0]);
        assert forall|i: int| 0 <= i < p.len() - 1 implies (#[trigger] p[i + 1]).t0.raw == p[i].t0.raw
            + p[i].h.raw by {
            if i < segs.len() - 1 {
                assert(p[i] == segs[i] && p[i + 1] == segs[i + 1]);
            } else {
                assert(p[i] == segs[segs.len() - 1] && p[i + 1] == sg);
            }
        }
    }
}

/// Build a failure value.
fn fail(kind: ErrorKind, num_eval: u64, accepted_steps: u64, rejected_steps: u64) -> (r: PropError)
    ensures
        r.kind == kind,
        r.num_eval == num_eval,
        r.accepted_steps == accepted_steps,
        r.rejected_steps == rejected_steps,
{
    PropError { kind, num_eval, accepted_steps, rejected_steps }
}

/// Propagate `y0` from `t0` to `t1` under the given settings.
///
/// On success the result reaches exactly `t1`; its counters account for
/// every right-hand-side evaluation; and a sequence of accepted steps,
/// each following the stepper recurrence with fixed-point rounding, leads
/// from the initial state to the final state.  When dense output is
/// requested, that sequence is retained in the result, contiguous in time
/// and covering exactly the integrated span.  A zero-length span succeeds
/// with the state unchanged and no work done.  Failures carry the
/// statistics gathered so far: a too-many-steps failure has used exactly
/// the configured number of steps, and a step-size underflow exhibits the
/// accepted steps taken together with a rejected trial no longer than the
/// minimum step whose scaled error exceeded the tolerance.
pub fn propagate<S: OdeSystem>(
    sys: &S,
    tab: &Tableau,
    y0: &Vec<Fx>,
    t0: Fx,
    t1: Fx,
    settings: &PropSettings,
) -> (r: Result<PropagationResult, PropError>)
    requires
        tab.wf(),
        tab.s <= 1000,
        settings.wf(),
        y0@.len() == sys.sdim(),
        1 <= y0@.len() <= 1000,
        in_lim(t0.raw as int),
        in_lim(t1.raw as int),
        in_lim(t1.raw - t0.raw),
    ensures
        r is Ok ==> {
            let res = r->Ok_0;
            &&& res.time_start == t0
            &&& res.time_end == t1
            &&& res.state_start@.len() == y0@.len()
            &&& raws(res.state_start@) == raws(y0@)
            &&& res.state_end@.len() == y0@.len()
            &&& exists|tr: Seq<SegModel>|
                chain(
                    *sys,
                    *tab,
                    settings.abs_tol.raw as int,
                    settings.rel_tol.raw as int,
                    settings.max_step.raw as int,
                    tr,
                    t0.raw as int,
                    raws(y0@),
                    t1.raw as int,
                    raws(res.state_end@),
                )
            &&& (res.odesol is Some <==> settings.dense_output)
            &&& settings.dense_output ==> chain(
                *sys,
                *tab,
                settings.abs_tol.raw as int,
                settings.rel_tol.raw as int,
                settings.max_step.raw as int,
                seg_models(res.odesol->Some_0@),
                t0.raw as int,
                raws(y0@),
                t1.raw as int,
                raws(res.state_end@),
            ) && res.dense_wf(*tab)
            &&& res.num_eval == (res.accepted_steps + res.rejected_steps) * tab.s
            &&& res.accepted_steps + res.rejected_steps <= settings.max_steps
        },
        t0 == t1 ==> r is Ok && raws(r->Ok_0.state_end@) == raws(y0@) && r->Ok_0.accepted_steps == 0
            && r->Ok_0.rejected_steps == 0 && r->Ok_0.num_eval == 0,
        r is Err ==> {
            let e = r->Err_0;
            ||| e.kind == ErrorKind::StepSizeUnderflow
            ||| e.kind == ErrorKind::MaxStepsExceeded
            ||| e.kind == ErrorKind::NonFiniteState
        },
        r is Err ==> {
            let e = r->Err_0;
            &&& e.accepted_steps + e.rejected_steps <= settings.max_steps
            &&& (e.kind == ErrorKind::StepSizeUnderflow || e.kind == ErrorKind::MaxStepsExceeded)
                ==> e.num_eval == (e.accepted_steps + e.rejected_steps) * tab.s
            &&& e.kind == ErrorKind::NonFiniteState ==> (e.accepted_steps + e.rejected_steps)
                * tab.s <= e.num_eval <= (e.accepted_steps + e.rejected_steps) * tab.s + tab.s
        },
        r is Err && r->Err_0.kind == ErrorKind::MaxStepsExceeded ==> r->Err_0.accepted_steps
            + r->Err_0.rejected_steps == settings.max_steps,
        r is Err && r->Err_0.kind == ErrorKind::StepSizeUnderflow ==> exists|
            tr: Seq<SegModel>,
            tm: int,
            ym: Seq<int>,
            h: int,
        |
            #![trigger chain(*sys, *tab, settings.abs_tol.raw as int, settings.rel_tol.raw as int, settings.max_step.raw as int, tr, t0.raw as int, raws(y0@), tm, ym), spec_step_y(*sys, *tab, tm, ym, h)]
            chain(
                *sys,
                *tab,
                settings.abs_tol.raw as int,
                settings.rel_tol.raw as int,
                settings.max_step.raw as int,
                tr,
                t0.raw as int,
                raws(y0@),
                tm,
                ym,
            ) && h != 0
                && iabs(h) <= settings.min_step.raw && ym.len() == y0@.len() && spec_err_sq(
                spec_step_err(*sys, *tab, tm, ym, h),
                ym,
                spec_step_y(*sys, *tab, tm, ym, h),
                settings.abs_tol.raw as int,
                settings.rel_tol.raw as int,
                y0@.len(),
            ) > y0@.len() * SCALE2,
{
    let n = y0.len();
    if t0.raw == t1.raw {
        let state_start = fx_vec_copy(y0);
        let state_end = fx_vec_copy(y0);
        let odesol: Option<Vec<DenseStep>> = if settings.dense_output {
            Some(Vec::new())
        } else {
            None
        };
        let res = PropagationResult {
            time_start: t0,
            time_end: t1,
            state_start,
            state_end,
            num_eval: 0,
            accepted_steps: 0,
            rejected_steps: 0,
            odesol,
        };
        proof {
            let tr = Seq::<SegModel>::empty();
            assert(chain(
                *sys,
                *tab,
                settings.abs_tol.raw as int,
                settings.rel_tol.raw as int,
                settings.max_step.raw as int,
                tr,
                t0.raw as int,
                raws(y0@),
                t1.raw as int,
                raws(res.state_end@),
            ));
            if settings.dense_output {
                assert(seg_models(res.odesol->Some_0@) =~= tr);
            }
            assert(0int * tab.s == 0) by (nonlinear_arith);
        }
        return Ok(res);
    }
    let forward = t1.raw > t0.raw;
    let mut t = t0;
    let mut y = fx_vec_copy(y0);
    let mut acc_steps: u64 = 0;
    let mut rej_steps: u64 = 0;
    let mut nev: u64 = 0;
    let mut segs: Vec<DenseStep> = Vec::new();
    let ghost mut gtr: Seq<SegModel> = Seq::empty();
    let ia = match fx_abs(settings.init_step) {
        Some(v) => v,
        None => {
            proof {
                assert(false);
            }
            return Err(fail(ErrorKind::NonFiniteState, 0, 0, 0));
        },
    };
    let mut hmag: Fx = if ia.raw < settings.min_step.raw {
        settings.min_step
    } else if ia.raw > settings.max_step.raw {
        settings.max_step
    } else {
        ia
    };
    loop
        invariant
            tab.wf(),
            tab.s <= 1000,
            settings.wf(),
            y0@.len() == sys.sdim(),
            1 <= n <= 1000,
            n == y0@.len(),
            in_lim(t0.raw as int),
            in_lim(t1.raw as int),
            in_lim(t1.raw - t0.raw),
            t0.raw != t1.raw,
            forward == (t1.raw > t0.raw),
            y@.len() == n,
            forward ==> t0.raw <= t.raw < t1.raw,
            !forward ==> t1.raw < t.raw <= t0.raw,
            0 < settings.min_step.raw,
            settings.min_step.raw <= hmag.raw <= settings.max_step.raw,
            chain(
                *sys,
                *tab,
                settings.abs_tol.raw as int,
                settings.rel_tol.raw as int,
                settings.max_step.raw as int,
                gtr,
                t0.raw as int,
                raws(y0@),
                t.raw as int,
                raws(y@),
            ),
            settings.dense_output ==> seg_models(segs@) == gtr,
            settings.dense_output ==> segs_wf(
                segs@, *tab, n as nat, t0.raw as int, raws(y0@), t.raw as int, forward),
            nev == (acc_steps + rej_steps) * tab.s,
            acc_steps + rej_steps <= settings.max_steps,
        decreases settings.max_steps - (acc_steps + rej_steps),
    {
        if acc_steps + rej_steps >= settings.max_steps as u64 {
            return Err(fail(ErrorKind::MaxStepsExceeded, nev, acc_steps, rej_steps));
        }
        let rem = match fx_sub(t1, t) {
            Some(v) => v,
            None => {
                proof {
                    assert(false);
                }
                return Err(fail(ErrorKind::NonFiniteState, nev, acc_steps, rej_steps));
            },
        };
        let rmag = match fx_abs(rem) {
            Some(v) => v,
            None => {
                proof {
                    assert(false);
                }
                return Err(fail(ErrorKind::NonFiniteState, nev, acc_steps, rej_steps));
            },
        };
        let landing = rmag.raw <= hmag.raw;
        let huse: Fx = if landing {
            rem
        } else if forward {
            hmag
        } else {
            match fx_neg(hmag) {
                Some(v) => v,
                None => {
                    proof {
                        assert(false);
                    }
                    return Err(fail(ErrorKind::NonFiniteState, nev, acc_steps, rej_steps));
                },
            }
        };
        let humag = if landing {
            rmag
        } else {
            hmag
        };
        proof {
            assert(huse.raw != 0);
            assert(forward <==> huse.raw > 0);
            assert(in_lim(huse.raw as int));
            assert((acc_steps + rej_steps) * tab.s <= (settings.max_steps - 1) * tab.s)
                by (nonlinear_arith)
                requires
                    acc_steps + rej_steps <= settings.max_steps - 1,
                    tab.s >= 0,
            ;
            assert((settings.max_steps - 1) * tab.s + tab.s == settings.max_steps * tab.s)
                by (nonlinear_arith);
            assert(settings.max_steps * tab.s <= 0xffff_ffffu64 * 1000) by (nonlinear_arith)
                requires
                    settings.max_steps <= 0xffff_ffffu64,
                    tab.s <= 1000,
            ;
        }
        let (opt, ev) = step(sys, tab, t, &y, huse);
        let nev2 = nev + (ev as u64);
        let out = match opt {
            Some(o) => o,
            None => {
                return Err(fail(ErrorKind::NonFiniteState, nev2, acc_steps, rej_steps));
            },
        };
        nev = nev2;
        let e2 = match error_sq(&out.err, &y, &out.y_next, settings.abs_tol, settings.rel_tol) {
            Some(v) => v,
            None => {
                return Err(fail(ErrorKind::NonFiniteState, nev, acc_steps, rej_steps));
            },
        };
        proof {
            assert((n as i128) * SCALE2 <= 1_000_000_000_000_000_000_000i128) by (nonlinear_arith)
                requires
                    1 <= n <= 1000,
                    SCALE2 == 1_000_000_000_000_000_000,
            ;
            assert((n as i128) * SCALE2 >= SCALE2) by (nonlinear_arith)
                requires
                    1 <= n,
                    SCALE2 == 1_000_000_000_000_000_000,
            ;
            assert(e2 <= 1000 * QCAP * QCAP) by (nonlinear_arith)
                requires
                    e2 <= n * QCAP * QCAP,
                    1 <= n <= 1000,
                    QCAP > 0,
            ;
        }
        let tt: i128 = (n as i128) * SCALE2;
        if e2 <= tt {
            let ghost sgm = SegModel {
                t0: t.raw as int,
                h: huse.raw as int,
                y0: raws(y@),
                ks: raws2(out.stages@),
            };
            let ghost oldsegs = segs@;
            let ghost oldt = t;
            let ghost oldy = y@;
            if settings.dense_output {
                let yc = fx_vec_copy(&y);
                let ds = DenseStep { t0: t, h: huse, y0: yc, stages: out.stages };
                proof {
                    assert(seg_model(ds) == sgm);
                    if oldsegs.len() == 0 {
                        assert(seg_models(oldsegs) =~= Seq::<SegModel>::empty());
                        assert(raws(ds.y0@) == raws(y0@));
                    }
                    lemma_segs_wf_push(
                        oldsegs,
                        *tab,
                        n as nat,
                        t0.raw as int,
                        raws(y0@),
                        t.raw as int,
                        forward,
                        ds,
                    );
                }
                segs.push(ds);
                proof {
                    assert(seg_models(segs@) =~= seg_models(oldsegs).push(sgm));
                }
            }
            proof {
                assert(iabs(huse.raw as int) <= settings.max_step.raw);
                lemma_chain_push(
                    *sys,
                    *tab,
                    settings.abs_tol.raw as int,
                    settings.rel_tol.raw as int,
                    settings.max_step.raw as int,
                    gtr,
                    t0.raw as int,
                    raws(y0@),
                    t.raw as int,
                    raws(y@),
                    sgm,
                );
                gtr = gtr.push(sgm);
            }
            let tn = match fx_add(t, huse) {
                Some(v) => v,
                None => {
                    proof {
                        assert(false);
                    }
                    return Err(fail(ErrorKind::NonFiniteState, nev, acc_steps, rej_steps));
                },
            };
            acc_steps += 1;
            y = out.y_next;
            t = tn;
            proof {
                assert((acc_steps + rej_steps) * tab.s == (acc_steps + rej_steps - 1) * tab.s
                    + tab.s) by (nonlinear_arith)
                    requires
                        acc_steps >= 1,
                        tab.s >= 0,
                ;
                assert(nev == (acc_steps + rej_steps) * tab.s);
            }
            if t.raw == t1.raw {
                let state_start = fx_vec_copy(y0);
                let odesol: Option<Vec<DenseStep>> = if settings.dense_output {
                    Some(segs)
                } else {
                    None
                };
                let res = PropagationResult {
                    time_start: t0,
                    time_end: t1,
                    state_start,
                    state_end: y,
                    num_eval: nev,
                    accepted_steps: acc_steps,
                    rejected_steps: rej_steps,
                    odesol,
                };
                proof {
                    assert(chain(
                        *sys,
                        *tab,
                        settings.abs_tol.raw as int,
                        settings.rel_tol.raw as int,
                        settings.max_step.raw as int,
                        gtr,
                        t0.raw as int,
                        raws(y0@),
                        t1.raw as int,
                        raws(res.state_end@),
                    ));
                }
                return Ok(res);
            }
        } else {
            rej_steps += 1;
            proof {
                assert((acc_steps + rej_steps) * tab.s == (acc_steps + rej_steps - 1) * tab.s
                    + tab.s) by (nonlinear_arith)
                    requires
                        rej_steps >= 1,
                        tab.s >= 0,
                ;
            }
            if humag.raw <= settings.min_step.raw {
                proof {
                    assert(humag.raw == iabs(huse.raw as int));
                    assert(chain(
                        *sys,
                        *tab,
                        settings.abs_tol.raw as int,
                        settings.rel_tol.raw as int,
                        settings.max_step.raw as int,
                        gtr,
                        t0.raw as int,
                        raws(y0@),
                        t.raw as int,
                        raws(y@),
                    ));
                    assert(spec_err_sq(
                        spec_step_err(*sys, *tab, t.raw as int, raws(y@), huse.raw as int),
                        raws(y@),
                        spec_step_y(*sys, *tab, t.raw as int, raws(y@), huse.raw as int),
                        settings.abs_tol.raw as int,
                        settings.rel_tol.raw as int,
                        y0@.len(),
                    ) > y0@.len() * SCALE2);
                }
                return Err(fail(ErrorKind::StepSizeUnderflow, nev, acc_steps, rej_steps));
            }
        }
        let fac = factor_centi(e2, tt);
        let scaled = match fx_scale(humag, fac as i64, 100) {
            Some(v) => v,
            None => {
                proof {
                    assert(false);
                }
                return Err(fail(ErrorKind::NonFiniteState, nev, acc_steps, rej_steps));
            },
        };
        hmag = if scaled.raw < settings.min_step.raw {
            settings.min_step
        } else if scaled.raw > settings.max_step.raw {
            settings.max_step
        } else {
            scaled
        };
    }
}

} // verus!
