//! Satellite states and covariance propagation.
//!
//! A `SatState` is a time, a six-component position/velocity vector and an
//! optional 6x6 covariance.  Propagation without a covariance integrates
//! the six physical components; with a covariance it integrates the
//! augmented 42-component state whose extra columns hold the
//! state-transition matrix, initialized to the identity, and evolves the
//! covariance as `phi * P * phi^T`.

use vstd::prelude::*;
use vstd::pervasive::VecAdditionalExecFns;
use crate::fx::{Fx, fx_mul, fx_vec_copy, fx_zeros, in_lim, in_big, raws, tdiv, SCALE};
use crate::tableau::{RKF45, Tableau};
use crate::ode::{Dynamics, Plain, Augmented};
use crate::control::{
    ErrorKind, PropError, PropSettings, SegModel, chain, propagate, SCALE2,
};

verus! {

/// Bound on the raw magnitude of covariance and transition entries for
/// which the exact triple-product accumulation stays in range.
pub const CBND: i128 = 0x100_0000_0000;

/// An optional position/velocity covariance, row-major 6x6.
#[derive(Clone, Debug)]
pub enum StateCov {
    /// No covariance attached.
    Absent,
    /// A 6x6 position/velocity covariance, 36 entries row-major.
    PVCov(Vec<Fx>),
}

/// The exact sum over `l < nl` of `phi[i][k] * p[k][l] * phi[j][l]`, with
/// `phi` stored column-major (`phi[6*col + row]`) and `p` row-major.
pub open spec fn cov_rowsum(phi: Seq<int>, p: Seq<int>, i: int, j: int, k: int, nl: nat) -> int
    decreases nl,
{
    if nl == 0 {
        0
    } else {
        cov_rowsum(phi, p, i, j, k, (nl - 1) as nat) + phi[6 * k + i] * p[6 * k + (nl - 1)] * phi[
            6 * (nl - 1) + j]
    }
}

/// The exact double sum over `k < nk`, `l < 6` of
/// `phi[i][k] * p[k][l] * phi[j][l]`.
pub open spec fn cov_sum(phi: Seq<int>, p: Seq<int>, i: int, j: int, nk: nat) -> int
    decreases nk,
{
    if nk == 0 {
        0
    } else {
        cov_sum(phi, p, i, j, (nk - 1) as nat) + cov_rowsum(phi, p, i, j, nk - 1, 6)
    }
}

/// One evolved covariance entry: the exact double sum, rounded once.
pub open spec fn cov_entry(phi: Seq<int>, p: Seq<int>, i: int, j: int) -> int {
    tdiv(cov_sum(phi, p, i, j, 6), SCALE2 as int)
}

/// The exact sum over `k < n` of `R[k][i] * s2[k] * R[k][j]`, with the
/// direction-cosine matrix `R` stored row-major (`dcm[3*row + col]`).
pub open spec fn lvlh_sum(dcm: Seq<int>, s2: Seq<int>, i: int, j: int, n: nat) -> int
    decreases n,
{
    if n == 0 {
        0
    } else {
        lvlh_sum(dcm, s2, i, j, (n - 1) as nat) + dcm[3 * (n - 1) + i] * s2[n - 1] * dcm[3 * (n
            - 1) + j]
    }
}

/// One rotated-uncertainty covariance entry: the exact sum of
/// `R^T * diag(sigma^2) * R`, each squared sigma rounded once, the entry
/// rounded once.
pub open spec fn lvlh_entry(dcm: Seq<int>, sigma: Seq<int>, i: int, j: int) -> int {
    let s2 = Seq::new(3, |k: int| tdiv(sigma[k] * sigma[k], SCALE as int));
    tdiv(lvlh_sum(dcm, s2, i, j, 3), SCALE2 as int)
}

/// Bound on a partial rotated-uncertainty accumulation.
proof fn lemma_lvlh_sum_bound(dcm: Seq<int>, s2: Seq<int>, i: int, j: int, n: nat)
    requires
        dcm.len() == 9,
        s2.len() == 3,
        forall|e: int| 0 <= e < 9 ==> -2_000_000_000 <= (#[trigger] dcm[e]) <= 2_000_000_000,
        forall|e: int| 0 <= e < 3 ==> in_lim(#[trigger] s2[e]),
        0 <= i < 3,
        0 <= j < 3,
        n <= 3,
    ensures
        -(n * 2_000_000_000 * crate::fx::FXLIM * 2_000_000_000) <= lvlh_sum(dcm, s2, i, j, n)
            <= n * 2_000_000_000 * crate::fx::FXLIM * 2_000_000_000,
    decreases n,
{
    if n > 0 {
        lemma_lvlh_sum_bound(dcm, s2, i, j, (n - 1) as nat);
        let a = dcm[3 * (n - 1) + i];
        let b = s2[n - 1];
        let c = dcm[3 * (n - 1) + j];
        assert(-(2_000_000_000 * crate::fx::FXLIM * 2_000_000_000) <= a * b * c <= 2_000_000_000
            * crate::fx::FXLIM * 2_000_000_000) by (nonlinear_arith)
            requires
                -2_000_000_000 <= a <= 2_000_000_000,
                -crate::fx::FXLIM <= b <= crate::fx::FXLIM,
                -2_000_000_000 <= c <= 2_000_000_000,
                crate::fx::FXLIM > 0,
        ;
        assert((n as int) * 2_000_000_000 * crate::fx::FXLIM * 2_000_000_000 == (n - 1)
            * 2_000_000_000 * crate::fx::FXLIM * 2_000_000_000 + 2_000_000_000 * crate::fx::FXLIM
            * 2_000_000_000) by (nonlinear_arith);
    }
}

/// A 36-entry matrix is symmetric.
pub open spec fn mat_symmetric(m: Seq<int>) -> bool {
    m.len() == 36 && forall|i: int, j: int|
        0 <= i < 6 && 0 <= j < 6 ==> #[trigger] m[6 * i + j] == m[6 * j + i]
}

/// All entries of a vector are bounded by `CBND` in raw magnitude.
pub open spec fn mat_bounded(m: Seq<int>) -> bool {
    forall|i: int| 0 <= i < m.len() ==> -CBND <= #[trigger] m[i] <= CBND
}

/// Bound on a partial covariance accumulation.
proof fn lemma_cov_sum_bound(phi: Seq<int>, p: Seq<int>, i: int, j: int, nk: nat)
    requires
        mat_bounded(phi),
        mat_bounded(p),
        phi.len() == 36,
        p.len() == 36,
        0 <= i < 6,
        0 <= j < 6,
        nk <= 6,
    ensures
        -(6 * nk * CBND * CBND * CBND) <= cov_sum(phi, p, i, j, nk) <= 6 * nk * CBND * CBND
            * CBND,
    decreases nk,
{
    if nk > 0 {
        lemma_cov_sum_bound(phi, p, i, j, (nk - 1) as nat);
        lemma_cov_rowsum_bound(phi, p, i, j, nk - 1, 6);
        assert(6 * (nk as int) * CBND * CBND * CBND == 6 * (nk - 1) * CBND * CBND * CBND + 6
            * CBND * CBND * CBND) by (nonlinear_arith);
    }
}

/// Bound on a partial covariance row accumulation.
proof fn lemma_cov_rowsum_bound(phi: Seq<int>, p: Seq<int>, i: int, j: int, k: int, nl: nat)
    requires
        mat_bounded(phi),
        mat_bounded(p),
        phi.len() == 36,
        p.len() == 36,
        0 <= i < 6,
        0 <= j < 6,
        0 <= k < 6,
        nl <= 6,
    ensures
        -(nl * CBND * CBND * CBND) <= cov_rowsum(phi, p, i, j, k, nl) <= nl * CBND * CBND * CBND,
    decreases nl,
{
    if nl > 0 {
        lemma_cov_rowsum_bound(phi, p, i, j, k, (nl - 1) as nat);
        let a = phi[6 * k + i];
        let b = p[6 * k + (nl - 1)];
        let c = phi[6 * (nl - 1) + j];
        assert(-(CBND * CBND * CBND) <= a * b * c <= CBND * CBND * CBND) by (nonlinear_arith)
            requires
                -CBND <= a <= CBND,
                -CBND <= b <= CBND,
                -CBND <= c <= CBND,
                CBND > 0,
        ;
        assert((nl as int) * CBND * CBND * CBND == (nl - 1) * CBND * CBND * CBND + CBND * CBND
            * CBND) by (nonlinear_arith);
    }
}

/// Evolve a covariance through a state-transition matrix: each entry of
/// `phi * P * phi^T` is the exact triple-product sum rounded once, the
/// lower triangle mirrors the upper, so the result is symmetric by
/// construction.
pub fn cov_evolve(phi: &Vec<Fx>, p: &Vec<Fx>) -> (r: Vec<Fx>)
    requires
        phi@.len() == 36,
        p@.len() == 36,
        mat_bounded(raws(phi@)),
        mat_bounded(raws(p@)),
    ensures
        r@.len() == 36,
        mat_symmetric(raws(r@)),
        forall|i: int, j: int|
            0 <= i < 6 && i <= j < 6 ==> raws(r@)[6 * i + j] == cov_entry(
                raws(phi@), raws(p@), i, j),
{
    let ghost phir = raws(phi@);
    let ghost pr = raws(p@);
    let mut m = fx_zeros(36);
    let mut i: usize = 0;
    while i < 6
        invariant
            i <= 6,
            phi@.len() == 36,
            p@.len() == 36,
            phir == raws(phi@),
            pr == raws(p@),
            mat_bounded(phir),
            mat_bounded(pr),
            m@.len() == 36,
            forall|a: int, b: int|
                0 <= a < i && a <= b < 6 ==> raws(m@)[6 * a + b] == cov_entry(phir, pr, a, b)
                    && raws(m@)[6 * b + a] == cov_entry(phir, pr, a, b),
        decreases 6 - i,
    {
        let mut j: usize = i;
        while j < 6
            invariant
                i < 6,
                i <= j <= 6,
                phi@.len() == 36,
                p@.len() == 36,
                phir == raws(phi@),
                pr == raws(p@),
                mat_bounded(phir),
                mat_bounded(pr),
                m@.len() == 36,
                forall|a: int, b: int|
                    0 <= a < i && a <= b < 6 ==> raws(m@)[6 * a + b] == cov_entry(phir, pr, a, b)
                        && raws(m@)[6 * b + a] == cov_entry(phir, pr, a, b),
                forall|b: int|
                    i <= b < j ==> raws(m@)[6 * i + b] == cov_entry(phir, pr, i as int, b)
                        && raws(m@)[6 * b + i] == cov_entry(phir, pr, i as int, b),
            decreases 6 - j,
        {
            let mut acc: i128 = 0;
            let mut k: usize = 0;
            while k < 6
                invariant
                    i < 6,
                    i <= j < 6,
                    k <= 6,
                    phi@.len() == 36,
                    p@.len() == 36,
                    phir == raws(phi@),
                    pr == raws(p@),
                    mat_bounded(phir),
                    mat_bounded(pr),
                    acc == cov_sum(phir, pr, i as int, j as int, k as nat),
                decreases 6 - k,
            {
                let mut l: usize = 0;
                let mut row: i128 = 0;
                while l < 6
                    invariant
                        i < 6,
                        i <= j < 6,
                        k < 6,
                        l <= 6,
                        phi@.len() == 36,
                        p@.len() == 36,
                        phir == raws(phi@),
                        pr == raws(p@),
                        mat_bounded(phir),
                        mat_bounded(pr),
                        row == cov_rowsum(phir, pr, i as int, j as int, k as int, l as nat),
                    decreases 6 - l,
                {
                    proof {
                        lemma_cov_rowsum_bound(phir, pr, i as int, j as int, k as int, l as nat);
                        assert(-CBND <= phir[6 * (k as int) + i] <= CBND);
                        assert(-CBND <= pr[6 * (k as int) + l] <= CBND);
                        assert(-CBND <= phir[6 * (l as int) + j] <= CBND);
                        assert(-(CBND * CBND) <= phir[6 * (k as int) + i] * pr[6 * (k as int) + l]
                            <= CBND * CBND) by (nonlinear_arith)
                            requires
                                -CBND <= phir[6 * (k as int) + i] <= CBND,
                                -CBND <= pr[6 * (k as int) + l] <= CBND,
                                CBND > 0,
                        ;
                    }
                    let t1: i128 = phi[6 * k + i].raw * p[6 * k + l].raw;
                    proof {
                        assert(-(CBND * CBND * CBND) <= t1 * phir[6 * (l as int) + j] <= CBND
                            * CBND * CBND) by (nonlinear_arith)
                            requires
                                -(CBND * CBND) <= t1 <= CBND * CBND,
                                -CBND <= phir[6 * (l as int) + j] <= CBND,
                                CBND > 0,
                        ;
                    }
                    let t2: i128 = t1 * phi[6 * l + j].raw;
                    row = row + t2;
                    l += 1;
                }
                proof {
                    lemma_cov_sum_bound(phir, pr, i as int, j as int, k as nat);
                    lemma_cov_rowsum_bound(phir, pr, i as int, j as int, k as int, 6);
                }
                acc = acc + row;
                k += 1;
            }
            proof {
                lemma_cov_sum_bound(phir, pr, i as int, j as int, 6);
                assert(in_big(acc as int));
            }
            let md = crate::fx::div_trunc(acc, SCALE2);
            let ghost oldm = m@;
            m.set(6 * i + j, Fx { raw: md });
            m.set(6 * j + i, Fx { raw: md });
            proof {
                assert forall|a: int, b: int|
                    0 <= a < i && a <= b < 6 implies raws(m@)[6 * a + b] == cov_entry(
                    phir, pr, a, b) && raws(m@)[6 * b + a] == cov_entry(phir, pr, a, b) by {
                    assert(6 * a + b != 6 * (i as int) + j && 6 * a + b != 6 * (j as int) + i)
                        by (nonlinear_arith)
                        requires
                            0 <= a < i,
                            a <= b < 6,
                            i <= j < 6,
                            i < 6,
                    ;
                    assert(6 * b + a != 6 * (i as int) + j && 6 * b + a != 6 * (j as int) + i)
                        by (nonlinear_arith)
                        requires
                            0 <= a < i,
                            a <= b < 6,
                            i <= j < 6,
                            i < 6,
                    ;
                }
                assert forall|b: int|
                    i <= b < j + 1 implies raws(m@)[6 * (i as int) + b] == cov_entry(
                    phir, pr, i as int, b) && raws(m@)[6 * b + i] == cov_entry(phir, pr, i as int, b) by {
                    if b < j {
                        assert(6 * (i as int) + b != 6 * (i as int) + j && 6 * (i as int) + b != 6
                            * (j as int) + i && 6 * b + i != 6 * (i as int) + j && 6 * b + i != 6
                            * (j as int) + i) by (nonlinear_arith)
                            requires
                                i <= b < j,
                                i < 6,
                                j < 6,
                        ;
                    }
                }
            }
            j += 1;
        }
        i += 1;
    }
    proof {
        assert forall|a: int, b: int| 0 <= a < 6 && 0 <= b < 6 implies #[trigger] raws(m@)[6 * a
            + b] == raws(m@)[6 * b + a] by {
            if a <= b {
                assert(raws(m@)[6 * a + b] == cov_entry(phir, pr, a, b));
                assert(raws(m@)[6 * b + a] == cov_entry(phir, pr, a, b));
            } else {
                assert(raws(m@)[6 * b + a] == cov_entry(phir, pr, b, a));
                assert(raws(m@)[6 * a + b] == cov_entry(phir, pr, b, a));
            }
        }
    }
    m
}

/// The initial augmented state for covariance propagation: the six
/// physical components followed, column by column, by the identity
/// transition matrix.
pub open spec fn aug_init(pv: Seq<int>) -> Seq<int> {
    Seq::new(42, |i: int|
        if i < 6 {
            pv[i]
        } else if (i - 6) % 6 == (i - 6) / 6 {
            SCALE as int
        } else {
            0
        })
}

/// Whether a zero-length propagation is owed success: always without a
/// covariance, and with one whenever its entries are in the range the
/// covariance evolution works in.
pub open spec fn zero_span_safe(cov: StateCov) -> bool {
    match cov {
        StateCov::Absent => true,
        StateCov::PVCov(c) => c@.len() == 36 && mat_bounded(raws(c@)),
    }
}

/// A satellite state: a time, a position/velocity vector and an optional
/// covariance.
#[derive(Clone, Debug)]
pub struct SatState {
    /// The epoch of the state, in fixed-point seconds.
    pub time: Fx,
    /// Position (meters) and velocity (meters per second), six components.
    pub pv: Vec<Fx>,
    /// Optional 6x6 covariance in the same Cartesian frame.
    pub cov: StateCov,
}

impl SatState {
    /// A state has six position/velocity components and, when present, a
    /// 36-entry covariance.
    pub open spec fn wf(self) -> bool {
        &&& self.pv@.len() == 6
        &&& self.cov matches StateCov::PVCov(c) ==> c@.len() == 36
    }

    /// Build a state from a position and a velocity, with no covariance.
    pub fn from_pv(time: Fx, pos: &Vec<Fx>, vel: &Vec<Fx>) -> (r: SatState)
        requires
            pos@.len() == 3,
            vel@.len() == 3,
        ensures
            r.wf(),
            r.time == time,
            raws(r.pv@) == raws(pos@) + raws(vel@),
            r.cov is Absent,
    {
        let mut pv = fx_vec_copy(pos);
        let mut vc = fx_vec_copy(vel);
        pv.append(&mut vc);
        proof {
            assert(raws(pv@) =~= raws(pos@) + raws(vel@));
        }
        SatState { time, pv, cov: StateCov::Absent }
    }

    /// The position components.
    pub fn pos(&self) -> (r: Vec<Fx>)
        requires
            self.wf(),
        ensures
            raws(r@) == raws(self.pv@).subrange(0, 3),
    {
        let r = vec![self.pv[0], self.pv[1], self.pv[2]];
        proof {
            assert(raws(r@) =~= raws(self.pv@).subrange(0, 3));
        }
        r
    }

    /// The velocity components.
    pub fn vel(&self) -> (r: Vec<Fx>)
        requires
            self.wf(),
        ensures
            raws(r@) == raws(self.pv@).subrange(3, 6),
    {
        let r = vec![self.pv[3], self.pv[4], self.pv[5]];
        proof {
            assert(raws(r@) =~= raws(self.pv@).subrange(3, 6));
        }
        r
    }

    /// Replace the covariance.
    pub fn set_cov(&mut self, cov: StateCov)
        ensures
            final(self).cov == cov,
            final(self).time == old(self).time,
            final(self).pv == old(self).pv,
    {
        self.cov = cov;
    }

    /// Set a diagonal position covariance from per-axis one-sigma
    /// uncertainties in the Cartesian frame: entry `(i, i)` becomes
    /// `sigma[i]^2` for the three position axes, all else zero.  The call
    /// succeeds exactly when every component is in the working range.
    pub fn set_gcrf_pos_uncertainty(&mut self, sigma: &Vec<Fx>) -> (ok: bool)
        requires
            sigma@.len() == 3,
        ensures
            final(self).time == old(self).time,
            final(self).pv == old(self).pv,
            ok <==> forall|k: int| 0 <= k < 3 ==> in_lim(#[trigger] raws(sigma@)[k]),
            !ok ==> final(self).cov == old(self).cov,
            ok ==> {
                &&& final(self).cov matches StateCov::PVCov(c)
                &&& final(self).cov matches StateCov::PVCov(c) ==> c@.len() == 36
                    && mat_symmetric(raws(c@)) && forall|i: int, j: int|
                    0 <= i < 6 && 0 <= j < 6 ==> #[trigger] raws(c@)[6 * i + j] == if i == j && i
                        < 3 {
                        tdiv(raws(sigma@)[i] * raws(sigma@)[i], SCALE as int)
                    } else {
                        0
                    }
            },
    {
        let mut m = fx_zeros(36);
        let mut i: usize = 0;
        while i < 3
            invariant
                i <= 3,
                sigma@.len() == 3,
                m@.len() == 36,
                forall|k: int| 0 <= k < i ==> in_lim(#[trigger] raws(sigma@)[k]),
                forall|a: int|
                    0 <= a < 36 ==> raws(m@)[a] == if a == 0 && 0 < i {
                        tdiv(raws(sigma@)[0] * raws(sigma@)[0], SCALE as int)
                    } else if a == 7 && 1 < i {
                        tdiv(raws(sigma@)[1] * raws(sigma@)[1], SCALE as int)
                    } else if a == 14 && 2 < i {
                        tdiv(raws(sigma@)[2] * raws(sigma@)[2], SCALE as int)
                    } else {
                        0
                    },
            decreases 3 - i,
        {
            let sq = match fx_mul(sigma[i], sigma[i]) {
                Some(v) => v,
                None => {
                    proof {
                        assert(!in_lim(raws(sigma@)[i as int]));
                    }
                    return false;
                },
            };
            let ghost oldm = m@;
            m.set(7 * i, sq);
            proof {
                assert forall|a: int|
                    0 <= a < 36 implies raws(m@)[a] == if a == 0 && 0 < i + 1 {
                        tdiv(raws(sigma@)[0] * raws(sigma@)[0], SCALE as int)
                    } else if a == 7 && 1 < i + 1 {
                        tdiv(raws(sigma@)[1] * raws(sigma@)[1], SCALE as int)
                    } else if a == 14 && 2 < i + 1 {
                        tdiv(raws(sigma@)[2] * raws(sigma@)[2], SCALE as int)
                    } else {
                        0
                    } by {
                    assert(m@ == oldm.update(7 * (i as int), sq));
                    assert(raws(sigma@)[i as int] == sigma@[i as int].raw);
                    if a == 7 * (i as int) {
                        assert(m@[a] == sq);
                        assert(raws(m@)[a] == sq.raw);
                        assert(sq.raw == tdiv(raws(sigma@)[i as int] * raws(sigma@)[i as int],
                            SCALE as int));
                    } else {
                        assert(m@[a] == oldm[a]);
                        assert(raws(m@)[a] == raws(oldm)[a]);
                    }
                }
            }
            i += 1;
        }
        self.cov = StateCov::PVCov(m);
        proof {
            assert forall|a: int, b: int|
                0 <= a < 6 && 0 <= b < 6 implies #[trigger] raws(m@)[6 * a + b] == raws(m@)[6 * b
                + a] by {
                assert(0 <= 6 * a + b < 36 && 0 <= 6 * b + a < 36) by (nonlinear_arith)
                    requires
                        0 <= a < 6,
                        0 <= b < 6,
                ;
            }
        }
        true
    }

    /// Set a position covariance from per-axis one-sigma uncertainties
    /// expressed in a rotated frame, given the frame's direction-cosine
    /// matrix `R` (row-major 3x3): the upper-left block becomes the
    /// rounded `R^T * diag(sigma^2) * R`, exact sums rounded once per
    /// entry and mirrored, the velocity rows and columns zero.  The call
    /// succeeds exactly when every sigma component and its square are in
    /// the working range.  What computes the rotation itself (a frame
    /// collaborator) hands the matrix in as plain values.
    pub fn set_lvlh_pos_uncertainty(&mut self, dcm: &Vec<Fx>, sigma_lvlh: &Vec<Fx>) -> (ok: bool)
        requires
            dcm@.len() == 9,
            sigma_lvlh@.len() == 3,
            forall|e: int| 0 <= e < 9 ==> -2_000_000_000 <= (#[trigger] raws(dcm@)[e]) <= 2_000_000_000,
        ensures
            final(self).time == old(self).time,
            final(self).pv == old(self).pv,
            ok <==> forall|k: int|
                0 <= k < 3 ==> in_lim(#[trigger] raws(sigma_lvlh@)[k]) && in_lim(
                    tdiv(raws(sigma_lvlh@)[k] * raws(sigma_lvlh@)[k], SCALE as int)),
            !ok ==> final(self).cov == old(self).cov,
            ok ==> {
                &&& final(self).cov matches StateCov::PVCov(c)
                &&& final(self).cov matches StateCov::PVCov(c) ==> c@.len() == 36
                    && mat_symmetric(raws(c@)) && (forall|i: int, j: int|
                    0 <= i < 3 && i <= j < 3 ==> #[trigger] raws(c@)[6 * i + j] == lvlh_entry(
                        raws(dcm@), raws(sigma_lvlh@), i, j)) && (forall|i: int, j: int|
                    0 <= i < 6 && 0 <= j < 6 && (i >= 3 || j >= 3) ==> #[trigger] raws(c@)[6 * i
                        + j] == 0)
            },
    {
        let ghost dr = raws(dcm@);
        let ghost sr = raws(sigma_lvlh@);
        let mut s2: Vec<Fx> = Vec::new();
        let mut k: usize = 0;
        while k < 3
            invariant
                k <= 3,
                dcm@.len() == 9,
                sigma_lvlh@.len() == 3,
                sr == raws(sigma_lvlh@),
                s2@.len() == k,
                forall|e: int|
                    0 <= e < k ==> in_lim(#[trigger] sr[e]) && in_lim(
                        tdiv(sr[e] * sr[e], SCALE as int)),
                forall|e: int|
                    0 <= e < k ==> #[trigger] raws(s2@)[e] == tdiv(sr[e] * sr[e], SCALE as int),
            decreases 3 - k,
        {
            let sq = match fx_mul(sigma_lvlh[k], sigma_lvlh[k]) {
                Some(v) => v,
                None => {
                    proof {
                        assert(!in_lim(sr[k as int]));
                    }
                    return false;
                },
            };
            if sq.raw > crate::fx::FXLIM || sq.raw < -crate::fx::FXLIM {
                proof {
                    assert(!in_lim(tdiv(sr[k as int] * sr[k as int], SCALE as int)));
                }
                return false;
            }
            let ghost olds2 = s2@;
            s2.push(sq);
            proof {
                assert(raws(s2@) =~= raws(olds2).push(sq.raw as int));
            }
            k += 1;
        }
        let mut m = fx_zeros(36);
        let mut i: usize = 0;
        while i < 3
            invariant
                i <= 3,
                dcm@.len() == 9,
                sigma_lvlh@.len() == 3,
                dr == raws(dcm@),
                sr == raws(sigma_lvlh@),
                forall|e: int| 0 <= e < 9 ==> -2_000_000_000 <= (#[trigger] dr[e]) <= 2_000_000_000,
                s2@.len() == 3,
                forall|e: int| 0 <= e < 3 ==> in_lim(#[trigger] raws(s2@)[e]),
                forall|e: int|
                    0 <= e < 3 ==> #[trigger] raws(s2@)[e] == tdiv(sr[e] * sr[e], SCALE as int),
                m@.len() == 36,
                forall|a: int, b: int|
                    0 <= a < i && a <= b < 3 ==> #[trigger] raws(m@)[6 * a + b] == lvlh_entry(
                        dr, sr, a, b) && raws(m@)[6 * b + a] == lvlh_entry(dr, sr, a, b),
                forall|ii: int, jj: int|
                    0 <= ii < 6 && 0 <= jj < 6 && (ii >= 3 || jj >= 3) ==> #[trigger] raws(m@)[6
                        * ii + jj] == 0,
            decreases 3 - i,
        {
            let mut j: usize = i;
            while j < 3
                invariant
                    i < 3,
                    i <= j <= 3,
                    dcm@.len() == 9,
                    sigma_lvlh@.len() == 3,
                    dr == raws(dcm@),
                    sr == raws(sigma_lvlh@),
                    forall|e: int|
                        0 <= e < 9 ==> -2_000_000_000 <= (#[trigger] dr[e]) <= 2_000_000_000,
                    s2@.len() == 3,
                    forall|e: int| 0 <= e < 3 ==> in_lim(#[trigger] raws(s2@)[e]),
                    forall|e: int|
                        0 <= e < 3 ==> #[trigger] raws(s2@)[e] == tdiv(sr[e] * sr[e], SCALE as int),
                    m@.len() == 36,
                    forall|a: int, b: int|
                        0 <= a < i && a <= b < 3 ==> #[trigger] raws(m@)[6 * a + b] == lvlh_entry(
                            dr, sr, a, b) && raws(m@)[6 * b + a] == lvlh_entry(dr, sr, a, b),
                    forall|b: int|
                        i <= b < j ==> #[trigger] raws(m@)[6 * i + b] == lvlh_entry(
                            dr, sr, i as int, b) && raws(m@)[6 * b + i] == lvlh_entry(
                            dr, sr, i as int, b),
                    forall|ii: int, jj: int|
                        0 <= ii < 6 && 0 <= jj < 6 && (ii >= 3 || jj >= 3) ==> #[trigger] raws(m@)[6
                            * ii + jj] == 0,
                decreases 3 - j,
            {
                let mut acc: i128 = 0;
                let mut kk: usize = 0;
                while kk < 3
                    invariant
                        i < 3,
                        i <= j < 3,
                        kk <= 3,
                        dcm@.len() == 9,
                        dr == raws(dcm@),
                        forall|e: int|
                            0 <= e < 9 ==> -2_000_000_000 <= (#[trigger] dr[e]) <= 2_000_000_000,
                        s2@.len() == 3,
                        forall|e: int| 0 <= e < 3 ==> in_lim(#[trigger] raws(s2@)[e]),
                        acc == lvlh_sum(dr, raws(s2@), i as int, j as int, kk as nat),
                    decreases 3 - kk,
                {
                    proof {
                        lemma_lvlh_sum_bound(dr, raws(s2@), i as int, j as int, kk as nat);
                        assert(-(2_000_000_000 * crate::fx::FXLIM) <= dr[3 * (kk as int) + i]
                            * raws(s2@)[kk as int] <= 2_000_000_000 * crate::fx::FXLIM)
                            by (nonlinear_arith)
                            requires
                                -2_000_000_000 <= dr[3 * (kk as int) + i] <= 2_000_000_000,
                                in_lim(raws(s2@)[kk as int]),
                                crate::fx::FXLIM == 0x4000_0000_0000_0000,
                        ;
                    }
                    let t1: i128 = dcm[3 * kk + i].raw * s2[kk].raw;
                    proof {
                        assert(-(2_000_000_000 * crate::fx::FXLIM * 2_000_000_000) <= t1 * dr[3 * (
                        kk as int) + j] <= 2_000_000_000 * crate::fx::FXLIM * 2_000_000_000)
                            by (nonlinear_arith)
                            requires
                                -(2_000_000_000 * crate::fx::FXLIM) <= t1 <= 2_000_000_000
                                    * crate::fx::FXLIM,
                                -2_000_000_000 <= dr[3 * (kk as int) + j] <= 2_000_000_000,
                                crate::fx::FXLIM == 0x4000_0000_0000_0000,
                        ;
                    }
                    let t2: i128 = t1 * dcm[3 * kk + j].raw;
                    acc = acc + t2;
                    kk += 1;
                }
                proof {
                    lemma_lvlh_sum_bound(dr, raws(s2@), i as int, j as int, 3);
                    assert(in_big(acc as int));
                }
                let md = crate::fx::div_trunc(acc, SCALE2);
                let ghost oldm = m@;
                m.set(6 * i + j, Fx { raw: md });
                m.set(6 * j + i, Fx { raw: md });
                proof {
                    assert(m@ == oldm.update(6 * (i as int) + j, (Fx { raw: md })).update(
                        6 * (j as int) + i,
                        (Fx { raw: md }),
                    ));
                    assert(raws(m@)[6 * (i as int) + j] == md);
                    assert(raws(m@)[6 * (j as int) + i] == md);
                    assert forall|idx: int|
                        0 <= idx < 36 && idx != 6 * (i as int) + j && idx != 6 * (j as int) + i
                        implies #[trigger] raws(m@)[idx] == raws(oldm)[idx] by {
                    }
                    assert forall|ii: int, jj: int|
                        0 <= ii < 6 && 0 <= jj < 6 && (ii >= 3 || jj >= 3) implies #[trigger] raws(
                        m@)[6 * ii + jj] == 0 by {
                        assert(0 <= 6 * ii + jj < 36 && 6 * ii + jj != 6 * (i as int) + j && 6
                            * ii + jj != 6 * (j as int) + i) by (nonlinear_arith)
                            requires
                                0 <= ii < 6,
                                0 <= jj < 6,
                                ii >= 3 || jj >= 3,
                                0 <= i < 3,
                                0 <= j < 3,
                        ;
                        assert(raws(m@)[6 * ii + jj] == raws(oldm)[6 * ii + jj]);
                    }
                    assert(raws(s2@) =~= Seq::new(3, |e: int| tdiv(sr[e] * sr[e], SCALE as int)));
                    assert(md == lvlh_entry(dr, sr, i as int, j as int));
                    assert forall|a: int, b: int|
                        0 <= a < i && a <= b < 3 implies #[trigger] raws(m@)[6 * a + b]
                        == lvlh_entry(dr, sr, a, b) && raws(m@)[6 * b + a] == lvlh_entry(
                        dr, sr, a, b) by {
                        assert(6 * a + b != 6 * (i as int) + j && 6 * a + b != 6 * (j as int) + i
                            && 6 * b + a != 6 * (i as int) + j && 6 * b + a != 6 * (j as int) + i)
                            by (nonlinear_arith)
                            requires
                                0 <= a < i,
                                a <= b < 3,
                                i <= j < 3,
                                i < 3,
                        ;
                    }
                    assert forall|b: int|
                        i <= b < j + 1 implies #[trigger] raws(m@)[6 * (i as int) + b]
                        == lvlh_entry(dr, sr, i as int, b) && raws(m@)[6 * b + i] == lvlh_entry(
                        dr, sr, i as int, b) by {
                        if b < j {
                            assert(6 * (i as int) + b != 6 * (i as int) + j && 6 * (i as int) + b
                                != 6 * (j as int) + i && 6 * b + i != 6 * (i as int) + j && 6 * b
                                + i != 6 * (j as int) + i) by (nonlinear_arith)
                                requires
                                    i <= b < j,
                                    i < 3,
                                    j < 3,
                            ;
                        }
                    }
                }
                j += 1;
            }
            proof {
                assert forall|a: int, b: int|
                    0 <= a < i + 1 && a <= b < 3 implies #[trigger] raws(m@)[6 * a + b]
                    == lvlh_entry(dr, sr, a, b) && raws(m@)[6 * b + a] == lvlh_entry(
                    dr, sr, a, b) by {
                    if a == i {
                        assert(raws(m@)[6 * (i as int) + b] == lvlh_entry(dr, sr, i as int, b));
                        assert(raws(m@)[6 * b + i] == lvlh_entry(dr, sr, i as int, b));
                    }
                }
            }
            i += 1;
        }
        self.cov = StateCov::PVCov(m);
        proof {
            assert forall|a: int, b: int|
                0 <= a < 6 && 0 <= b < 6 implies #[trigger] raws(m@)[6 * a + b] == raws(m@)[6 * b
                + a] by {
                assert(0 <= 6 * a + b < 36 && 0 <= 6 * b + a < 36) by (nonlinear_arith)
                    requires
                        0 <= a < 6,
                        0 <= b < 6,
                ;
                if a < 3 && b < 3 {
                    if a <= b {
                        assert(raws(m@)[6 * a + b] == lvlh_entry(dr, sr, a, b));
                        assert(raws(m@)[6 * b + a] == lvlh_entry(dr, sr, a, b));
                    } else {
                        assert(raws(m@)[6 * b + a] == lvlh_entry(dr, sr, b, a));
                        assert(raws(m@)[6 * a + b] == lvlh_entry(dr, sr, b, a));
                    }
                } else {
                    assert(raws(m@)[6 * a + b] == 0);
                    assert(raws(m@)[6 * b + a] == 0);
                }
            }
        }
        true
    }

    /// Propagate the state to a new time with the given force model and
    /// the Runge-Kutta-Fehlberg tableau.  Without a covariance only the
    /// six physical components are integrated, and the result follows a
    /// sequence of accepted stepper steps exactly.  With a covariance the
    /// augmented state carries a transition matrix initialized to the
    /// identity, and the new covariance is the evolved `phi * P * phi^T`,
    /// symmetric by construction.  A zero-length span succeeds with the
    /// position and velocity unchanged whenever the covariance, if any,
    /// is within the range the evolution works in.
    pub fn propagate<D: Dynamics>(&self, time: &Fx, settings: &PropSettings, force: D) -> (r:
        Result<SatState, PropError>)
        requires
            self.wf(),
            settings.wf(),
            in_lim(self.time.raw as int),
            in_lim(time.raw as int),
            in_lim(time.raw - self.time.raw),
        ensures
            r is Ok ==> {
                let st = r->Ok_0;
                &&& st.wf()
                &&& st.time == *time
                &&& st.pv@.len() == 6
                &&& (st.cov is PVCov <==> self.cov is PVCov)
                &&& st.cov matches StateCov::PVCov(c) ==> mat_symmetric(raws(c@))
                &&& self.cov is Absent ==> exists|tb: Tableau, tr: Seq<SegModel>|
                    (#[trigger] chain(
                        (Plain { force }),
                        tb,
                        settings.abs_tol.raw as int,
                        settings.rel_tol.raw as int,
                        settings.max_step.raw as int,
                        tr,
                        self.time.raw as int,
                        raws(self.pv@),
                        time.raw as int,
                        raws(st.pv@),
                    )) && crate::tableau::is_rkf45(tb)
                &&& self.cov matches StateCov::PVCov(p0) ==> exists|
                    tb: Tableau,
                    tr: Seq<SegModel>,
                    yend: Seq<int>,
                |
                    (#[trigger] chain(
                        (Augmented { force }),
                        tb,
                        settings.abs_tol.raw as int,
                        settings.rel_tol.raw as int,
                        settings.max_step.raw as int,
                        tr,
                        self.time.raw as int,
                        aug_init(raws(self.pv@)),
                        time.raw as int,
                        yend,
                    )) && crate::tableau::is_rkf45(tb) && raws(st.pv@) == yend.subrange(0, 6) && (
                    st.cov matches
                    StateCov::PVCov(c) ==> forall|i: int, j: int|
                        0 <= i < 6 && i <= j < 6 ==> raws(c@)[6 * i + j] == cov_entry(
                            yend.subrange(6, 42),
                            raws(p0@),
                            i,
                            j,
                        ))
            },
            *time == self.time && zero_span_safe(self.cov) ==> r is Ok && raws(r->Ok_0.pv@)
                == raws(self.pv@),
            r is Err ==> {
                let e = r->Err_0;
                ||| e.kind == ErrorKind::StepSizeUnderflow
                ||| e.kind == ErrorKind::MaxStepsExceeded
                ||| e.kind == ErrorKind::NonFiniteState
            },
            r is Err && (r->Err_0.kind == ErrorKind::StepSizeUnderflow || r->Err_0.kind
                == ErrorKind::MaxStepsExceeded) ==> r->Err_0.num_eval == (r->Err_0.accepted_steps
                + r->Err_0.rejected_steps) * 6 && r->Err_0.accepted_steps
                + r->Err_0.rejected_steps <= settings.max_steps,
            r is Err && r->Err_0.kind == ErrorKind::MaxStepsExceeded ==> r->Err_0.accepted_steps
                + r->Err_0.rejected_steps == settings.max_steps,
    {
        let tab = RKF45::tableau();
        match &self.cov {
            StateCov::Absent => {
                let sys = Plain { force };
                let res = match propagate(&sys, &tab, &self.pv, self.time, *time, settings) {
                    Ok(v) => v,
                    Err(e) => { return Err(e) },
                };
                let st = SatState { time: *time, pv: res.state_end, cov: StateCov::Absent };
                proof {
                    let tr0 = choose|tr: Seq<SegModel>|
                        chain(
                            sys,
                            tab,
                            settings.abs_tol.raw as int,
                            settings.rel_tol.raw as int,
                            settings.max_step.raw as int,
                            tr,
                            self.time.raw as int,
                            raws(self.pv@),
                            time.raw as int,
                            raws(st.pv@),
                        );
                    assert(chain(
                        (Plain { force }),
                        tab,
                        settings.abs_tol.raw as int,
                        settings.rel_tol.raw as int,
                        settings.max_step.raw as int,
                        tr0,
                        self.time.raw as int,
                        raws(self.pv@),
                        time.raw as int,
                        raws(st.pv@),
                    ));
                }
                Ok(st)
            },
            StateCov::PVCov(p) => {
                let mut idx: usize = 0;
                while idx < 36
                    invariant
                        idx <= 36,
                        self.cov matches StateCov::PVCov(pc) && pc@.len() == 36 && pc@ == p@,
                        forall|a: int| 0 <= a < idx ==> -CBND <= #[trigger] raws(p@)[a] <= CBND,
                    decreases 36 - idx,
                {
                    if p[idx].raw > CBND || p[idx].raw < -CBND {
                        proof {
                            assert(raws(p@)[idx as int] == p@[idx as int].raw);
                            assert(!mat_bounded(raws(p@)));
                        }
                        return Err(PropError {
                            kind: ErrorKind::NonFiniteState,
                            num_eval: 0,
                            accepted_steps: 0,
                            rejected_steps: 0,
                        });
                    }
                    idx += 1;
                }
                let ghost y0aug = aug_init(raws(self.pv@));
                let mut y42 = fx_vec_copy(&self.pv);
                let mut c: usize = 0;
                while c < 6
                    invariant
                        c <= 6,
                        self.cov is PVCov,
                        self.pv@.len() == 6,
                        y0aug == aug_init(raws(self.pv@)),
                        y42@.len() == 6 + 6 * c,
                        forall|a: int| 0 <= a < y42@.len() ==> #[trigger] raws(y42@)[a] == y0aug[a],
                    decreases 6 - c,
                {
                    let mut rr: usize = 0;
                    while rr < 6
                        invariant
                            c < 6,
                            rr <= 6,
                            self.cov is PVCov,
                            self.pv@.len() == 6,
                            y0aug == aug_init(raws(self.pv@)),
                            y42@.len() == 6 + 6 * c + rr,
                            forall|a: int|
                                0 <= a < y42@.len() ==> #[trigger] raws(y42@)[a] == y0aug[a],
                        decreases 6 - rr,
                    {
                        let ghost oldy = y42@;
                        if rr == c {
                            y42.push(Fx { raw: SCALE });
                        } else {
                            y42.push(Fx { raw: 0 });
                        }
                        proof {
                            vstd::arithmetic::div_mod::lemma_fundamental_div_mod_converse(
                                6 * (c as int) + (rr as int), 6, c as int, rr as int);
                            assert(raws(y42@) =~= raws(oldy).push(y42@.last().raw as int));
                            assert(y0aug[6 + 6 * (c as int) + (rr as int)] == if rr == c {
                                SCALE as int
                            } else {
                                0
                            });
                        }
                        rr += 1;
                    }
                    c += 1;
                }
                proof {
                    assert(raws(y42@) =~= y0aug);
                }
                let sys = Augmented { force };
                let res = match propagate(&sys, &tab, &y42, self.time, *time, settings) {
                    Ok(v) => v,
                    Err(e) => { return Err(e) },
                };
                let mut pv: Vec<Fx> = Vec::new();
                let mut i: usize = 0;
                while i < 6
                    invariant
                        i <= 6,
                        self.cov is PVCov,
                        res.state_end@.len() == 42,
                        pv@.len() == i,
                        forall|a: int|
                            0 <= a < i ==> #[trigger] raws(pv@)[a] == raws(res.state_end@)[a],
                    decreases 6 - i,
                {
                    let ghost oldpv = pv@;
                    pv.push(res.state_end[i]);
                    proof {
                        assert(raws(pv@) =~= raws(oldpv).push(res.state_end@[i as int].raw as int));
                    }
                    i += 1;
                }
                proof {
                    assert(raws(pv@) =~= raws(res.state_end@).subrange(0, 6));
                }
                let mut phi: Vec<Fx> = Vec::new();
                let mut i2: usize = 6;
                while i2 < 42
                    invariant
                        6 <= i2 <= 42,
                        self.cov is PVCov,
                        res.state_end@.len() == 42,
                        y0aug == aug_init(raws(self.pv@)),
                        self.pv@.len() == 6,
                        time.raw == self.time.raw ==> raws(res.state_end@) == y0aug,
                        phi@.len() == i2 - 6,
                        forall|a: int|
                            0 <= a < i2 - 6 ==> -CBND <= #[trigger] raws(phi@)[a] <= CBND,
                        forall|a: int|
                            0 <= a < i2 - 6 ==> #[trigger] raws(phi@)[a] == raws(res.state_end@)[
                                a + 6],
                    decreases 42 - i2,
                {
                    let v = res.state_end[i2];
                    if v.raw > CBND || v.raw < -CBND {
                        proof {
                            if time.raw == self.time.raw {
                                assert(raws(res.state_end@) == y0aug);
                                assert(v.raw as int == y0aug[i2 as int]);
                                assert(false);
                            }
                        }
                        return Err(PropError {
                            kind: ErrorKind::NonFiniteState,
                            num_eval: res.num_eval,
                            accepted_steps: res.accepted_steps,
                            rejected_steps: res.rejected_steps,
                        });
                    }
                    let ghost oldphi = phi@;
                    phi.push(v);
                    proof {
                        assert(raws(phi@) =~= raws(oldphi).push(v.raw as int));
                    }
                    i2 += 1;
                }
                proof {
                    assert(raws(phi@) =~= raws(res.state_end@).subrange(6, 42));
                }
                let cnew = cov_evolve(&phi, p);
                let st = SatState { time: *time, pv, cov: StateCov::PVCov(cnew) };
                proof {
                    if time.raw == self.time.raw {
                        assert(raws(res.state_end@) == raws(y42@));
                        assert(raws(st.pv@) =~= raws(self.pv@));
                    }
                }
                proof {
                    let tr0 = choose|tr: Seq<SegModel>|
                        chain(
                            sys,
                            tab,
                            settings.abs_tol.raw as int,
                            settings.rel_tol.raw as int,
                            settings.max_step.raw as int,
                            tr,
                            self.time.raw as int,
                            raws(y42@),
                            time.raw as int,
                            raws(res.state_end@),
                        );
                    assert(chain(
                        (Augmented { force }),
                        tab,
                        settings.abs_tol.raw as int,
                        settings.rel_tol.raw as int,
                        settings.max_step.raw as int,
                        tr0,
                        self.time.raw as int,
                        aug_init(raws(self.pv@)),
                        time.raw as int,
                        raws(res.state_end@),
                    ));
                }
                Ok(st)
            },
        }
    }
}

} // verus!
