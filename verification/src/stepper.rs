//! One embedded Runge-Kutta step.
//!
//! For stage `i`, the stage derivative is `f(t + c[i]*h, y + h * sum_{j<i}
//! a[i][j] * k[j])`; the advanced state is `y + h * sum_i b[i] * k[i]` and
//! the error estimate is `h * sum_i berr[i] * k[i]`.  Every linear
//! combination is evaluated with the same fixed-point rounding, and the
//! step's outcome is proved equal to the spec-level recurrence.  Stage
//! derivatives are always evaluated afresh: a tableau's first-same-as-last
//! flag is a reuse hint that may save one evaluation per step but, by its
//! definition, never changes the results.

use vstd::prelude::*;
use crate::fx::{
    Fx, fx_add, fx_mul, fx_scale, fx_vec_copy, fx_zeros, in_lim, raws, raws2, tdiv, zero_seq,
    SCALE,
};
use crate::tableau::{Rat, Tableau, rat_scale};
use crate::ode::OdeSystem;

verus! {

/// Whether element `i` of one combination term stays inside the working
/// range: the exact condition under which `add_scaled` can process it.
pub open spec fn add_term_ok_at(v: Seq<int>, h: int, k: Seq<int>, c: Rat, i: int) -> bool {
    &&& in_lim(h)
    &&& in_lim(k[i])
    &&& in_lim(tdiv(h * k[i], SCALE as int))
    &&& in_lim(v[i])
    &&& in_lim(tdiv(tdiv(h * k[i], SCALE as int) * c.num, c.den as int))
}

/// Whether a whole combination term stays inside the working range.
pub open spec fn add_term_ok(v: Seq<int>, h: int, k: Seq<int>, c: Rat) -> bool {
    forall|i: int| 0 <= i < v.len() ==> #[trigger] add_term_ok_at(v, h, k, c, i)
}

/// Whether the first `n` terms of a combination stay inside the working
/// range: the exact condition under which `combine` succeeds.
pub open spec fn combine_ok(base: Seq<int>, h: int, ks: Seq<Seq<int>>, cs: Seq<Rat>, n: nat) -> bool
    decreases n,
{
    if n == 0 {
        true
    } else {
        combine_ok(base, h, ks, cs, (n - 1) as nat) && add_term_ok(
            spec_combine(base, h, ks, cs, (n - 1) as nat),
            h,
            ks[n - 1],
            cs[n - 1],
        )
    }
}

/// A combination that stays in range for `n` terms does so for any prefix.
pub proof fn lemma_combine_ok_prefix(base: Seq<int>, h: int, ks: Seq<Seq<int>>, cs: Seq<Rat>, m: nat, n: nat)
    requires
        m <= n,
        combine_ok(base, h, ks, cs, n),
    ensures
        combine_ok(base, h, ks, cs, m),
    decreases n,
{
    if m < n {
        lemma_combine_ok_prefix(base, h, ks, cs, m, (n - 1) as nat);
    }
}

/// One term of a linear combination: `v + (h*k)*c`, evaluated elementwise
/// with fixed-point rounding of the product and of the rational scaling.
pub open spec fn add_term(v: Seq<int>, h: int, k: Seq<int>, c: Rat) -> Seq<int> {
    Seq::new(v.len(), |i: int| v[i] + tdiv(tdiv(h * k[i], SCALE as int) * c.num, c.den as int))
}

/// The first `n` terms of the combination `base + h * sum_j cs[j] * ks[j]`.
pub open spec fn spec_combine(base: Seq<int>, h: int, ks: Seq<Seq<int>>, cs: Seq<Rat>, n: nat) -> Seq<int>
    decreases n,
{
    if n == 0 {
        base
    } else {
        add_term(spec_combine(base, h, ks, cs, (n - 1) as nat), h, ks[n - 1], cs[n - 1])
    }
}

/// A combination keeps the length of its base vector.
pub proof fn lemma_combine_len(base: Seq<int>, h: int, ks: Seq<Seq<int>>, cs: Seq<Rat>, n: nat)
    ensures
        spec_combine(base, h, ks, cs, n).len() == base.len(),
    decreases n,
{
    if n > 0 {
        lemma_combine_len(base, h, ks, cs, (n - 1) as nat);
    }
}

/// Add one scaled stage to an accumulator vector.
fn add_scaled(acc: &Vec<Fx>, h: Fx, k: &Vec<Fx>, c: Rat) -> (r: Option<Vec<Fx>>)
    requires
        c.den > 0,
        k@.len() == acc@.len(),
    ensures
        r is Some <==> add_term_ok(raws(acc@), h.raw as int, raws(k@), c),
        r is Some ==> r->Some_0@.len() == acc@.len(),
        r is Some ==> raws(r->Some_0@) == add_term(raws(acc@), h.raw as int, raws(k@), c),
{
    let ghost goal = add_term(raws(acc@), h.raw as int, raws(k@), c);
    let ghost va = raws(acc@);
    let ghost ka = raws(k@);
    let mut out: Vec<Fx> = Vec::new();
    let mut i: usize = 0;
    while i < acc.len()
        invariant
            i <= acc@.len(),
            k@.len() == acc@.len(),
            c.den > 0,
            goal == add_term(raws(acc@), h.raw as int, raws(k@), c),
            out@.len() == i,
            va == raws(acc@),
            ka == raws(k@),
            forall|j: int| 0 <= j < i ==> raws(out@)[j] == goal[j],
            forall|j: int| 0 <= j < i ==> #[trigger] add_term_ok_at(va, h.raw as int, ka, c, j),
        decreases acc@.len() - i,
    {
        let t1 = match fx_mul(h, k[i]) {
            Some(v) => v,
            None => {
                proof {
                    assert(!add_term_ok_at(va, h.raw as int, ka, c, i as int));
                }
                return None;
            },
        };
        let t2 = match fx_scale(t1, c.num, c.den) {
            Some(v) => v,
            None => {
                proof {
                    assert(!add_term_ok_at(va, h.raw as int, ka, c, i as int));
                }
                return None;
            },
        };
        let t3 = match fx_add(acc[i], t2) {
            Some(v) => v,
            None => {
                proof {
                    assert(!add_term_ok_at(va, h.raw as int, ka, c, i as int));
                }
                return None;
            },
        };
        proof {
            assert(add_term_ok_at(va, h.raw as int, ka, c, i as int));
        }
        out.push(t3);
        i += 1;
    }
    proof {
        assert(raws(out@) =~= goal);
    }
    Some(out)
}

/// Evaluate the combination `base + h * sum_{j<n} cs[j] * ks[j]`.
pub fn combine(base: &Vec<Fx>, h: Fx, ks: &Vec<Vec<Fx>>, cs: &Vec<Rat>, n: usize) -> (r: Option<
    Vec<Fx>>)
    requires
        n <= ks@.len(),
        n <= cs@.len(),
        forall|j: int| 0 <= j < n ==> (#[trigger] cs@[j]).den > 0,
        forall|j: int| 0 <= j < n ==> (#[trigger] ks@[j])@.len() == base@.len(),
    ensures
        r is Some <==> combine_ok(raws(base@), h.raw as int, raws2(ks@), cs@, n as nat),
        r is Some ==> r->Some_0@.len() == base@.len(),
        r is Some ==> raws(r->Some_0@) == spec_combine(
            raws(base@), h.raw as int, raws2(ks@), cs@, n as nat),
{
    let mut acc = fx_vec_copy(base);
    let mut j: usize = 0;
    while j < n
        invariant
            j <= n,
            n <= ks@.len(),
            n <= cs@.len(),
            forall|jj: int| 0 <= jj < n ==> (#[trigger] cs@[jj]).den > 0,
            forall|jj: int| 0 <= jj < n ==> (#[trigger] ks@[jj])@.len() == base@.len(),
            acc@.len() == base@.len(),
            raws(acc@) == spec_combine(raws(base@), h.raw as int, raws2(ks@), cs@, j as nat),
            combine_ok(raws(base@), h.raw as int, raws2(ks@), cs@, j as nat),
        decreases n - j,
    {
        let next = match add_scaled(&acc, h, &ks[j], cs[j]) {
            Some(v) => v,
            None => {
                proof {
                    if combine_ok(raws(base@), h.raw as int, raws2(ks@), cs@, n as nat) {
                        lemma_combine_ok_prefix(
                            raws(base@),
                            h.raw as int,
                            raws2(ks@),
                            cs@,
                            (j + 1) as nat,
                            n as nat,
                        );
                        assert(false);
                    }
                }
                return None;
            },
        };
        acc = next;
        j += 1;
    }
    Some(acc)
}

/// The stage derivatives of one step, as a prefix of length `n`: stage `i`
/// is the right-hand side at time `t + c[i]*h` and state `y + h *
/// sum_{j<i} a[i][j] * k[j]`.
pub open spec fn spec_stages<S: OdeSystem>(sys: S, tab: Tableau, t: int, y: Seq<int>, h: int, n: nat) -> Seq<
    Seq<int>>
    decreases n,
{
    if n == 0 {
        Seq::empty()
    } else {
        let prev = spec_stages(sys, tab, t, y, h, (n - 1) as nat);
        prev.push(sys.spec_rhs(
            t + tdiv(h * tab.c@[n - 1].num, tab.c@[n - 1].den as int),
            spec_combine(y, h, prev, tab.a@[n - 1]@, (n - 1) as nat),
        ))
    }
}

/// The advanced state of one step.
pub open spec fn spec_step_y<S: OdeSystem>(sys: S, tab: Tableau, t: int, y: Seq<int>, h: int) -> Seq<int> {
    spec_combine(y, h, spec_stages(sys, tab, t, y, h, tab.s as nat), tab.b@, tab.s as nat)
}

/// The error estimate of one step.
pub open spec fn spec_step_err<S: OdeSystem>(sys: S, tab: Tableau, t: int, y: Seq<int>, h: int) -> Seq<int> {
    spec_combine(
        zero_seq(y.len()), h, spec_stages(sys, tab, t, y, h, tab.s as nat), tab.berr@, tab.s as nat)
}

/// Rounding bound for a combination of identical stages: with every
/// stage equal to `k` and one common positive denominator `d`, the
/// combination applied to a zero base differs from the ideal value
/// `x * (sum of numerators) / d` by at most one rounding unit per term.
proof fn lemma_combine_const_bound(
    len: nat,
    h: int,
    k: Seq<int>,
    ks: Seq<Seq<int>>,
    cs: Seq<Rat>,
    n: nat,
    idx: int,
    d: int,
)
    requires
        0 <= idx < len,
        forall|j: int| 0 <= j < n ==> #[trigger] ks[j] == k,
        forall|j: int| 0 <= j < n ==> (#[trigger] cs[j]).den == d,
        d > 0,
        n <= cs.len(),
        n <= ks.len(),
    ensures
        -(n * (d - 1)) <= d * spec_combine(zero_seq(len), h, ks, cs, n)[idx] - tdiv(
            h * k[idx],
            SCALE as int,
        ) * crate::tableau::num_sum(cs.subrange(0, n as int)) <= n * (d - 1),
    decreases n,
{
    lemma_combine_len(zero_seq(len), h, ks, cs, n);
    if n == 0 {
        assert(crate::tableau::num_sum(cs.subrange(0, 0)) == 0);
        assert(tdiv(h * k[idx], SCALE as int) * 0 == 0) by (nonlinear_arith);
        let v = spec_combine(zero_seq(len), h, ks, cs, 0)[idx];
        assert(v == 0);
        assert(d * v == 0) by (nonlinear_arith)
            requires
                v == 0,
        ;
        assert(0int * (d - 1) == 0) by (nonlinear_arith);
    } else {
        lemma_combine_const_bound(len, h, k, ks, cs, (n - 1) as nat, idx, d);
        lemma_combine_len(zero_seq(len), h, ks, cs, (n - 1) as nat);
        let x = tdiv(h * k[idx], SCALE as int);
        let prev = spec_combine(zero_seq(len), h, ks, cs, (n - 1) as nat);
        let num = cs[n - 1].num as int;
        assert(spec_combine(zero_seq(len), h, ks, cs, n)[idx] == prev[idx] + tdiv(x * num, d));
        crate::fx::lemma_tdiv_bound(x * num, d);
        let pre = cs.subrange(0, n as int);
        assert(pre.drop_last() =~= cs.subrange(0, n as int - 1));
        assert(crate::tableau::num_sum(pre) == crate::tableau::num_sum(
            cs.subrange(0, n as int - 1)) + num);
        assert(d * (prev[idx] + tdiv(x * num, d)) == d * prev[idx] + d * tdiv(x * num, d))
            by (nonlinear_arith);
        assert(x * (crate::tableau::num_sum(cs.subrange(0, n as int - 1)) + num) == x
            * crate::tableau::num_sum(cs.subrange(0, n as int - 1)) + x * num)
            by (nonlinear_arith);
        assert((n as int) * (d - 1) == (n - 1) * (d - 1) + (d - 1)) by (nonlinear_arith);
        let sprev = crate::tableau::num_sum(cs.subrange(0, n as int - 1));
        let v = spec_combine(zero_seq(len), h, ks, cs, n)[idx];
        assert(((n - 1) as nat) * (d - 1) == (n - 1) * (d - 1));
        assert(d * v == d * prev[idx] + d * tdiv(x * num, d));
        assert(x * crate::tableau::num_sum(pre) == x * sprev + x * num);
        assert(x * num - d + 1 <= d * tdiv(x * num, d) <= x * num + d - 1);
        assert(-((n - 1) * (d - 1)) <= d * prev[idx] - x * sprev <= (n - 1) * (d - 1));
        assert(-((n as int) * (d - 1)) <= d * v - x * crate::tableau::num_sum(pre) <= (n as int)
            * (d - 1));
    }
}

/// A consistent embedded method reports no error on a problem whose
/// derivative is the same at every stage (a right-hand side constant in
/// time and state): because the error weights sum to zero exactly, every
/// component of the error estimate is below one rounding unit per stage.
pub proof fn lemma_constant_rhs_error_vanishes(
    len: nat,
    h: int,
    k: Seq<int>,
    ks: Seq<Seq<int>>,
    tab: Tableau,
    idx: int,
)
    requires
        tab.wf(),
        crate::tableau::weights_sum_to_zero(tab.berr@),
        ks.len() == tab.s,
        forall|j: int| 0 <= j < ks.len() ==> #[trigger] ks[j] == k,
        0 <= idx < len,
    ensures
        -(tab.s as int) < spec_combine(zero_seq(len), h, ks, tab.berr@, tab.s as nat)[idx]
            < tab.s as int,
{
    let d = tab.berr@[0].den as int;
    lemma_combine_const_bound(len, h, k, ks, tab.berr@, tab.s as nat, idx, d);
    assert(tab.berr@.subrange(0, tab.s as int) =~= tab.berr@);
    let x = tdiv(h * k[idx], SCALE as int);
    assert(x * 0 == 0) by (nonlinear_arith);
    let v = spec_combine(zero_seq(len), h, ks, tab.berr@, tab.s as nat)[idx];
    assert(-(tab.s as int) < v < tab.s as int) by (nonlinear_arith)
        requires
            d > 0,
            tab.s >= 1,
            -((tab.s as int) * (d - 1)) <= d * v <= (tab.s as int) * (d - 1),
    ;
}

/// The outcome of one accepted or attempted step.
pub struct StepOutcome {
    /// The advanced state.
    pub y_next: Vec<Fx>,
    /// The embedded error estimate.
    pub err: Vec<Fx>,
    /// The stage derivatives, retained for dense output.
    pub stages: Vec<Vec<Fx>>,
}

/// Compute one step.  The second component counts right-hand-side
/// evaluations; `None` means the arithmetic left the working range.
pub fn step<S: OdeSystem>(sys: &S, tab: &Tableau, t: Fx, y: &Vec<Fx>, h: Fx) -> (r: (Option<
    StepOutcome>, usize))
    requires
        tab.wf(),
        y@.len() == sys.sdim(),
    ensures
        r.1 <= tab.s,
        r.0 is Some ==> r.1 == tab.s,
        r.0 is Some ==> {
            let o = r.0->Some_0;
            &&& o.stages@.len() == tab.s
            &&& forall|j: int| 0 <= j < tab.s ==> (#[trigger] o.stages@[j])@.len() == y@.len()
            &&& raws2(o.stages@) == spec_stages(
                *sys, *tab, t.raw as int, raws(y@), h.raw as int, tab.s as nat)
            &&& o.y_next@.len() == y@.len()
            &&& raws(o.y_next@) == spec_step_y(*sys, *tab, t.raw as int, raws(y@), h.raw as int)
            &&& o.err@.len() == y@.len()
            &&& raws(o.err@) == spec_step_err(*sys, *tab, t.raw as int, raws(y@), h.raw as int)
        },
{
    let ghost yr = raws(y@);
    let mut stages: Vec<Vec<Fx>> = Vec::new();
    let mut evals: usize = 0;
    let mut i: usize = 0;
    while i < tab.s
        invariant
            i <= tab.s,
            tab.wf(),
            y@.len() == sys.sdim(),
            yr == raws(y@),
            evals == i,
            stages@.len() == i,
            forall|j: int| 0 <= j < i ==> (#[trigger] stages@[j])@.len() == y@.len(),
            raws2(stages@) == spec_stages(*sys, *tab, t.raw as int, yr, h.raw as int, i as nat),
        decreases tab.s - i,
    {
        let input = match combine(y, h, &stages, &tab.a[i], i) {
            Some(v) => v,
            None => { return (None, evals) },
        };
        let ts = match rat_scale(h, tab.c[i]) {
            Some(v) => v,
            None => { return (None, evals) },
        };
        let st = match fx_add(t, ts) {
            Some(v) => v,
            None => { return (None, evals) },
        };
        let k = match sys.rhs(&st, &input) {
            Some(v) => v,
            None => { return (None, evals + 1) },
        };
        proof {
            let prev = spec_stages(*sys, *tab, t.raw as int, yr, h.raw as int, i as nat);
            assert(raws(input@) == spec_combine(yr, h.raw as int, prev, tab.a@[i as int]@, i as nat));
            assert(raws2(stages@.push(k)) =~= prev.push(sys.spec_rhs(
                t.raw + tdiv(h.raw * tab.c@[i as int].num, tab.c@[i as int].den as int),
                spec_combine(yr, h.raw as int, prev, tab.a@[i as int]@, i as nat))));
        }
        stages.push(k);
        evals += 1;
        i += 1;
    }
    let y_next = match combine(y, h, &stages, &tab.b, tab.s) {
        Some(v) => v,
        None => { return (None, evals) },
    };
    let zv = fx_zeros(y.len());
    let err = match combine(&zv, h, &stages, &tab.berr, tab.s) {
        Some(v) => v,
        None => { return (None, evals) },
    };
    (Some(StepOutcome { y_next, err, stages }), evals)
}

} // verus!
