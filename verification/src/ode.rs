//! Systems of ordinary differential equations.
//!
//! An `OdeSystem` is a pure right-hand side `f(t, y) -> dy/dt` over a
//! fixed-size state vector, described exactly by a spec function that the
//! executable evaluation is proved to match.  A `Dynamics` is a physical
//! six-component force model that also exposes the Jacobian of its
//! derivative, which the `Augmented` adapter uses to evolve a 6x6
//! state-transition matrix alongside the physical state.

use vstd::prelude::*;
use vstd::arithmetic::div_mod::lemma_fundamental_div_mod_converse;
use crate::fx::{Fx, fx_add, fx_mul, fx_neg, raws, raws2, tdiv, SCALE};

verus! {

/// A right-hand-side function for the integrator.
pub trait OdeSystem: Sized {
    /// Number of state components.
    spec fn sdim(&self) -> nat;

    /// Exact value of the derivative, in raw fixed-point units.
    spec fn spec_rhs(&self, t: int, y: Seq<int>) -> Seq<int>;

    /// The derivative has one component per state component.
    proof fn lemma_rhs_len(&self, t: int, y: Seq<int>)
        requires
            y.len() == self.sdim(),
        ensures
            self.spec_rhs(t, y).len() == y.len(),
    ;

    /// Evaluate the derivative; `None` when the arithmetic leaves the
    /// working range.
    fn rhs(&self, t: &Fx, y: &Vec<Fx>) -> (r: Option<Vec<Fx>>)
        requires
            y@.len() == self.sdim(),
        ensures
            r is Some ==> raws(r->Some_0@) == self.spec_rhs(t.raw as int, raws(y@)),
            r is Some ==> r->Some_0@.len() == y@.len(),
    ;
}

/// A six-component physical force model with a Jacobian.
pub trait Dynamics: Sized {
    /// Exact derivative of the six physical components.
    spec fn spec_deriv(&self, t: int, y: Seq<int>) -> Seq<int>;

    /// Exact Jacobian of the derivative with respect to the state.
    spec fn spec_jac(&self, t: int, y: Seq<int>) -> Seq<Seq<int>>;

    /// The derivative has six components and the Jacobian is 6x6.
    proof fn lemma_shapes(&self, t: int, y: Seq<int>)
        requires
            y.len() == 6,
        ensures
            self.spec_deriv(t, y).len() == 6,
            self.spec_jac(t, y).len() == 6,
            forall|r: int| 0 <= r < 6 ==> (#[trigger] self.spec_jac(t, y)[r]).len() == 6,
    ;

    /// Evaluate the derivative.
    fn deriv(&self, t: &Fx, y: &Vec<Fx>) -> (r: Option<Vec<Fx>>)
        requires
            y@.len() == 6,
        ensures
            r is Some ==> raws(r->Some_0@) == self.spec_deriv(t.raw as int, raws(y@)),
            r is Some ==> r->Some_0@.len() == 6,
    ;

    /// Evaluate the Jacobian.
    fn jac(&self, t: &Fx, y: &Vec<Fx>) -> (r: Option<Vec<Vec<Fx>>>)
        requires
            y@.len() == 6,
        ensures
            r is Some ==> raws2(r->Some_0@) == self.spec_jac(t.raw as int, raws(y@)),
            r is Some ==> r->Some_0@.len() == 6,
            r is Some ==> forall|k: int|
                0 <= k < 6 ==> (#[trigger] r->Some_0@[k])@.len() == 6,
    ;
}

/// A three-dimensional harmonic oscillator: acceleration `-omega2 * x`.
/// A linear reference model with a closed-form solution, used to exercise
/// the integrator and the covariance propagation.
pub struct LinearOscillator {
    /// Square of the angular frequency, as a fixed-point value.
    pub omega2: Fx,
}

impl LinearOscillator {
    /// One acceleration component, `-(omega2 * x)` with fixed-point
    /// rounding.
    pub open spec fn spec_accel(&self, x: int) -> int {
        -tdiv(self.omega2.raw * x, SCALE as int)
    }
}

impl Dynamics for LinearOscillator {
    open spec fn spec_deriv(&self, t: int, y: Seq<int>) -> Seq<int> {
        seq![y[3], y[4], y[5], self.spec_accel(y[0]), self.spec_accel(y[1]), self.spec_accel(y[2])]
    }

    open spec fn spec_jac(&self, t: int, y: Seq<int>) -> Seq<Seq<int>> {
        Seq::new(6, |r: int| Seq::new(6, |c: int|
            if r < 3 {
                if c == r + 3 { SCALE as int } else { 0 }
            } else {
                if c == r - 3 { -(self.omega2.raw as int) } else { 0 }
            }))
    }

    proof fn lemma_shapes(&self, t: int, y: Seq<int>) {
    }

    fn deriv(&self, t: &Fx, y: &Vec<Fx>) -> (r: Option<Vec<Fx>>) {
        let a0 = match self.accel(y[0]) { Some(v) => v, None => { return None } };
        let a1 = match self.accel(y[1]) { Some(v) => v, None => { return None } };
        let a2 = match self.accel(y[2]) { Some(v) => v, None => { return None } };
        let out: Vec<Fx> = vec![y[3], y[4], y[5], a0, a1, a2];
        proof {
            assert(raws(out@) =~= self.spec_deriv(t.raw as int, raws(y@)));
        }
        Some(out)
    }

    fn jac(&self, t: &Fx, y: &Vec<Fx>) -> (r: Option<Vec<Vec<Fx>>>) {
        let w = match fx_neg(self.omega2) { Some(v) => v, None => { return None } };
        let z = Fx { raw: 0 };
        let one = Fx { raw: SCALE };
        let out: Vec<Vec<Fx>> = vec![
            vec![z, z, z, one, z, z],
            vec![z, z, z, z, one, z],
            vec![z, z, z, z, z, one],
            vec![w, z, z, z, z, z],
            vec![z, w, z, z, z, z],
            vec![z, z, w, z, z, z],
        ];
        proof {
            let m = self.spec_jac(t.raw as int, raws(y@));
            assert forall|r: int| 0 <= r < 6 implies raws2(out@)[r] =~= m[r] by {
            }
            assert(raws2(out@) =~= m);
        }
        Some(out)
    }
}

impl LinearOscillator {
    /// Evaluate one acceleration component.
    fn accel(&self, x: Fx) -> (r: Option<Fx>)
        ensures
            r is Some ==> r->Some_0.raw == self.spec_accel(x.raw as int),
    {
        let m = match fx_mul(self.omega2, x) { Some(v) => v, None => { return None } };
        proof {
            crate::fx::lemma_tdiv_bound(self.omega2.raw * x.raw, SCALE as int);
        }
        match fx_neg(m) {
            Some(v) => Some(v),
            None => None,
        }
    }
}

/// A physical model integrated as a plain six-component state.
pub struct Plain<D: Dynamics> {
    /// The underlying force model.
    pub force: D,
}

impl<D: Dynamics> OdeSystem for Plain<D> {
    open spec fn sdim(&self) -> nat {
        6
    }

    open spec fn spec_rhs(&self, t: int, y: Seq<int>) -> Seq<int> {
        self.force.spec_deriv(t, y)
    }

    proof fn lemma_rhs_len(&self, t: int, y: Seq<int>) {
        self.force.lemma_shapes(t, y);
    }

    fn rhs(&self, t: &Fx, y: &Vec<Fx>) -> (r: Option<Vec<Fx>>) {
        self.force.deriv(t, y)
    }
}

/// One entry of the product of the Jacobian with the transition block
/// stored in columns `6..42` of an augmented state, summed over the first
/// `n` terms with fixed-point rounding.
pub open spec fn jphi_sum(j: Seq<Seq<int>>, y: Seq<int>, r: int, c: int, n: nat) -> int
    decreases n,
{
    if n == 0 {
        0
    } else {
        jphi_sum(j, y, r, c, (n - 1) as nat) + tdiv(
            j[r][n - 1] * y[6 + 6 * c + (n - 1)],
            SCALE as int,
        )
    }
}

/// A physical model augmented with the variational equations: the state
/// holds the six physical components followed, column by column, by a 6x6
/// state-transition matrix whose time derivative is the Jacobian of the
/// dynamics times the matrix itself.
pub struct Augmented<D: Dynamics> {
    /// The underlying force model.
    pub force: D,
}

impl<D: Dynamics> OdeSystem for Augmented<D> {
    open spec fn sdim(&self) -> nat {
        42
    }

    open spec fn spec_rhs(&self, t: int, y: Seq<int>) -> Seq<int> {
        Seq::new(y.len(), |i: int|
            if i < 6 {
                self.force.spec_deriv(t, y.subrange(0, 6))[i]
            } else {
                jphi_sum(self.force.spec_jac(t, y.subrange(0, 6)), y, (i - 6) % 6, (i - 6) / 6, 6)
            })
    }

    proof fn lemma_rhs_len(&self, t: int, y: Seq<int>) {
    }

    fn rhs(&self, t: &Fx, y: &Vec<Fx>) -> (r: Option<Vec<Fx>>) {
        let ghost yr = raws(y@);
        let ghost rhsv = self.spec_rhs(t.raw as int, yr);
        let mut y6: Vec<Fx> = Vec::new();
        let mut i: usize = 0;
        while i < 6
            invariant
                i <= 6,
                y@.len() == 42,
                y6@ == y@.subrange(0, i as int),
            decreases 6 - i,
        {
            y6.push(y[i]);
            proof {
                assert(y6@ =~= y@.subrange(0, i + 1));
            }
            i += 1;
        }
        proof {
            assert(raws(y6@) =~= raws(y@).subrange(0, 6));
        }
        let d = match self.force.deriv(t, &y6) {
            Some(v) => v,
            None => { return None },
        };
        let jm = match self.force.jac(t, &y6) {
            Some(v) => v,
            None => { return None },
        };
        let ghost jr = self.force.spec_jac(t.raw as int, yr.subrange(0, 6));
        proof {
            self.force.lemma_shapes(t.raw as int, raws(y6@));
            assert forall|idx: int| 0 <= idx < 6 implies raws(d@)[idx] == rhsv[idx] by {
            }
        }
        let mut out = d;
        let mut c: usize = 0;
        while c < 6
            invariant
                c <= 6,
                y@.len() == 42,
                yr == raws(y@),
                jr == self.force.spec_jac(t.raw as int, yr.subrange(0, 6)),
                raws2(jm@) == jr,
                jm@.len() == 6,
                forall|k: int| 0 <= k < 6 ==> (#[trigger] jm@[k])@.len() == 6,
                rhsv == self.spec_rhs(t.raw as int, yr),
                rhsv.len() == 42,
                out@.len() == 6 + 6 * c,
                forall|idx: int| 0 <= idx < out@.len() ==> raws(out@)[idx] == rhsv[idx],
            decreases 6 - c,
        {
            let mut r: usize = 0;
            while r < 6
                invariant
                    c < 6,
                    r <= 6,
                    y@.len() == 42,
                    yr == raws(y@),
                    jr == self.force.spec_jac(t.raw as int, yr.subrange(0, 6)),
                    raws2(jm@) == jr,
                    jm@.len() == 6,
                    forall|k: int| 0 <= k < 6 ==> (#[trigger] jm@[k])@.len() == 6,
                    rhsv == self.spec_rhs(t.raw as int, yr),
                    rhsv.len() == 42,
                    out@.len() == 6 + 6 * c + r,
                    forall|idx: int| 0 <= idx < out@.len() ==> raws(out@)[idx] == rhsv[idx],
                decreases 6 - r,
            {
                let mut acc = Fx { raw: 0 };
                let mut k: usize = 0;
                while k < 6
                    invariant
                        c < 6,
                        r < 6,
                        k <= 6,
                        y@.len() == 42,
                        yr == raws(y@),
                        jr == self.force.spec_jac(t.raw as int, yr.subrange(0, 6)),
                        raws2(jm@) == jr,
                        jm@.len() == 6,
                        forall|kk: int| 0 <= kk < 6 ==> (#[trigger] jm@[kk])@.len() == 6,
                        acc.raw == jphi_sum(jr, yr, r as int, c as int, k as nat),
                    decreases 6 - k,
                {
                    let t1 = match fx_mul(jm[r][k], y[6 + 6 * c + k]) {
                        Some(v) => v,
                        None => { return None },
                    };
                    let acc2 = match fx_add(acc, t1) {
                        Some(v) => v,
                        None => { return None },
                    };
                    proof {
                        assert(jm@[r as int]@[k as int].raw == jr[r as int][k as int]);
                        assert(y@[6 + 6 * c + k].raw == yr[6 + 6 * (c as int) + (k as int)]);
                    }
                    acc = acc2;
                    k += 1;
                }
                proof {
                    lemma_fundamental_div_mod_converse(
                        6 * (c as int) + (r as int), 6, c as int, r as int);
                    assert(rhsv[6 + 6 * (c as int) + (r as int)] == jphi_sum(
                        jr, yr, r as int, c as int, 6));
                }
                out.push(acc);
                proof {
                    assert forall|idx: int| 0 <= idx < out@.len() implies raws(out@)[idx]
                        == rhsv[idx] by {
                    }
                }
                r += 1;
            }
            c += 1;
        }
        proof {
            assert(raws(out@) =~= rhsv);
        }
        Some(out)
    }
}

} // verus!
