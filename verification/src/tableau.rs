//! Butcher tableaus for embedded Runge-Kutta methods.
//!
//! Coefficients are exact rationals.  A tableau carries the stage-coupling
//! matrix `a`, the primary weights `b`, the embedded error weights `berr`
//! (embedded weights minus primary weights), the stage time fractions `c`,
//! the dense-output coefficient columns `bi`, the order of the primary
//! method and the first-same-as-last flag.

use vstd::prelude::*;
use crate::fx::Fx;

verus! {

/// An exact rational coefficient `num / den` with positive denominator.
#[derive(Clone, Copy, Debug, PartialEq, Eq, Structural)]
pub struct Rat {
    pub num: i64,
    pub den: i64,
}

/// Sum of the numerators of a coefficient vector.
pub open spec fn num_sum(s: Seq<Rat>) -> int
    decreases s.len(),
{
    if s.len() == 0 {
        0
    } else {
        num_sum(s.drop_last()) + s.last().num
    }
}

/// All entries share one positive denominator.
pub open spec fn uniform_den(s: Seq<Rat>) -> bool {
    s.len() > 0 && s[0].den > 0 && forall|i: int| 0 <= i < s.len() ==> (#[trigger] s[i]).den == s[0].den
}

/// The coefficients sum to one exactly.
pub open spec fn weights_sum_to_one(s: Seq<Rat>) -> bool {
    uniform_den(s) && num_sum(s) == s[0].den
}

/// The coefficients sum to zero exactly.
pub open spec fn weights_sum_to_zero(s: Seq<Rat>) -> bool {
    uniform_den(s) && num_sum(s) == 0
}

/// An embedded Runge-Kutta tableau.
#[derive(Clone, Debug)]
pub struct Tableau {
    /// Stage count.
    pub s: usize,
    /// Stage-coupling coefficients, strictly lower triangular.
    pub a: Vec<Vec<Rat>>,
    /// Primary solution weights.
    pub b: Vec<Rat>,
    /// Error estimate weights: embedded weights minus primary weights.
    pub berr: Vec<Rat>,
    /// Stage time fractions, `c[0] == 0`.
    pub c: Vec<Rat>,
    /// Dense-output coefficient columns, `bi[i][m]` weighting `theta^(m+1)`.
    pub bi: Vec<Vec<Rat>>,
    /// Width of the dense-output polynomial.
    pub m: usize,
    /// Order of the primary method.
    pub order: u32,
    /// Whether the last stage of a step equals the first of the next.
    pub fsal: bool,
}

impl Tableau {
    /// Structural well-formedness: consistent lengths, positive
    /// denominators, a strictly lower triangular coupling matrix and a
    /// zero first time fraction.
    pub open spec fn wf(self) -> bool {
        &&& 1 <= self.s
        &&& self.a@.len() == self.s
        &&& forall|i: int| 0 <= i < self.s ==> (#[trigger] self.a@[i])@.len() == self.s
        &&& forall|i: int, j: int|
            0 <= i < self.s && 0 <= j < self.s ==> (#[trigger] self.a@[i]@[j]).den > 0
        &&& forall|i: int, j: int|
            0 <= i <= j < self.s ==> (#[trigger] self.a@[i]@[j]).num == 0
        &&& self.b@.len() == self.s
        &&& forall|i: int| 0 <= i < self.s ==> (#[trigger] self.b@[i]).den > 0
        &&& self.berr@.len() == self.s
        &&& forall|i: int| 0 <= i < self.s ==> (#[trigger] self.berr@[i]).den > 0
        &&& self.c@.len() == self.s
        &&& forall|i: int| 0 <= i < self.s ==> (#[trigger] self.c@[i]).den > 0
        &&& self.c@[0].num == 0
        &&& self.bi@.len() == self.s
        &&& forall|i: int| 0 <= i < self.s ==> (#[trigger] self.bi@[i])@.len() == self.m
        &&& forall|i: int, j: int|
            0 <= i < self.s && 0 <= j < self.m ==> (#[trigger] self.bi@[i]@[j]).den > 0
        &&& 1 <= self.m
        &&& 1 <= self.order
    }

    /// Each coupling row sums to the matching time fraction: the method is
    /// consistent, `sum_j a[i][j] == c[i]` as exact rationals.
    pub open spec fn rows_match_c(self) -> bool {
        forall|i: int|
            0 <= i < self.s ==> num_sum(#[trigger] self.a@[i]@) * self.c@[i].den == self.c@[i].num
                * self.a@[i]@[0].den && uniform_den(self.a@[i]@)
    }

    /// The first dense-output column repeats the primary weights, so the
    /// dense polynomial reproduces the step's own endpoint at offset one.
    pub open spec fn bi_matches_b(self) -> bool {
        forall|i: int| 0 <= i < self.s ==> (#[trigger] self.bi@[i])@[0] == self.b@[i]
    }
}

/// Exactly the Runge-Kutta-Fehlberg 4(5) tableau, coefficient by
/// coefficient.  `RKF45::tableau()` ensures it, and contracts that
/// quantify over a tableau use it to pin the method down to its
/// exact rational entries.
pub open spec fn is_rkf45(t: Tableau) -> bool {
    &&& t.s == 6
    &&& t.m == 1
    &&& t.order == 4
    &&& !t.fsal
    &&& t.a@.len() == 6
    &&& t.a@[0]@ == seq![(Rat { num: 0i64, den: 1i64 }), (Rat { num: 0i64, den: 1i64 }), (Rat { num: 0i64, den: 1i64 }), (Rat { num: 0i64, den: 1i64 }), (Rat { num: 0i64, den: 1i64 }), (Rat { num: 0i64, den: 1i64 })]
    &&& t.a@[1]@ == seq![(Rat { num: 1i64, den: 4i64 }), (Rat { num: 0i64, den: 4i64 }), (Rat { num: 0i64, den: 4i64 }), (Rat { num: 0i64, den: 4i64 }), (Rat { num: 0i64, den: 4i64 }), (Rat { num: 0i64, den: 4i64 })]
    &&& t.a@[2]@ == seq![(Rat { num: 3i64, den: 32i64 }), (Rat { num: 9i64, den: 32i64 }), (Rat { num: 0i64, den: 32i64 }), (Rat { num: 0i64, den: 32i64 }), (Rat { num: 0i64, den: 32i64 }), (Rat { num: 0i64, den: 32i64 })]
    &&& t.a@[3]@ == seq![(Rat { num: 1932i64, den: 2197i64 }), (Rat { num: -7200i64, den: 2197i64 }), (Rat { num: 7296i64, den: 2197i64 }), (Rat { num: 0i64, den: 2197i64 }), (Rat { num: 0i64, den: 2197i64 }), (Rat { num: 0i64, den: 2197i64 })]
    &&& t.a@[4]@ == seq![(Rat { num: 8341i64, den: 4104i64 }), (Rat { num: -32832i64, den: 4104i64 }), (Rat { num: 29440i64, den: 4104i64 }), (Rat { num: -845i64, den: 4104i64 }), (Rat { num: 0i64, den: 4104i64 }), (Rat { num: 0i64, den: 4104i64 })]
    &&& t.a@[5]@ == seq![(Rat { num: -6080i64, den: 20520i64 }), (Rat { num: 41040i64, den: 20520i64 }), (Rat { num: -28352i64, den: 20520i64 }), (Rat { num: 9295i64, den: 20520i64 }), (Rat { num: -5643i64, den: 20520i64 }), (Rat { num: 0i64, den: 20520i64 })]
    &&& t.b@ == seq![(Rat { num: 33440i64, den: 282150i64 }), (Rat { num: 0i64, den: 282150i64 }), (Rat { num: 146432i64, den: 282150i64 }), (Rat { num: 142805i64, den: 282150i64 }), (Rat { num: -50787i64, den: 282150i64 }), (Rat { num: 10260i64, den: 282150i64 })]
    &&& t.berr@ == seq![(Rat { num: -3135i64, den: 1128600i64 }), (Rat { num: 0i64, den: 1128600i64 }), (Rat { num: 33792i64, den: 1128600i64 }), (Rat { num: 32955i64, den: 1128600i64 }), (Rat { num: -22572i64, den: 1128600i64 }), (Rat { num: -41040i64, den: 1128600i64 })]
    &&& t.c@ == seq![(Rat { num: 0i64, den: 104i64 }), (Rat { num: 26i64, den: 104i64 }), (Rat { num: 39i64, den: 104i64 }), (Rat { num: 96i64, den: 104i64 }), (Rat { num: 104i64, den: 104i64 }), (Rat { num: 52i64, den: 104i64 })]
    &&& t.bi@.len() == 6
    &&& t.bi@[0]@ == seq![(Rat { num: 33440i64, den: 282150i64 })]
    &&& t.bi@[1]@ == seq![(Rat { num: 0i64, den: 282150i64 })]
    &&& t.bi@[2]@ == seq![(Rat { num: 146432i64, den: 282150i64 })]
    &&& t.bi@[3]@ == seq![(Rat { num: 142805i64, den: 282150i64 })]
    &&& t.bi@[4]@ == seq![(Rat { num: -50787i64, den: 282150i64 })]
    &&& t.bi@[5]@ == seq![(Rat { num: 10260i64, den: 282150i64 })]
}

/// The Runge-Kutta-Fehlberg 4(5) method: six stages, fourth-order primary
/// solution with a fifth-order embedded error estimate, no FSAL reuse.
pub struct RKF45 {}

impl RKF45 {
    /// The concrete tableau, with every invariant of the method proved:
    /// well-formed, consistent rows, primary weights summing to one and
    /// error weights summing to zero.
    pub fn tableau() -> (t: Tableau)
        ensures
            t.wf(),
            is_rkf45(t),
            t.rows_match_c(),
            t.bi_matches_b(),
            weights_sum_to_one(t.b@),
            weights_sum_to_zero(t.berr@),
            t.s == 6,
            t.m == 1,
            t.order == 4,
            !t.fsal,
    {
        let a: Vec<Vec<Rat>> = vec![
            vec![
                Rat { num: 0, den: 1 },
                Rat { num: 0, den: 1 },
                Rat { num: 0, den: 1 },
                Rat { num: 0, den: 1 },
                Rat { num: 0, den: 1 },
                Rat { num: 0, den: 1 },
            ],
            vec![
                Rat { num: 1, den: 4 },
                Rat { num: 0, den: 4 },
                Rat { num: 0, den: 4 },
                Rat { num: 0, den: 4 },
                Rat { num: 0, den: 4 },
                Rat { num: 0, den: 4 },
            ],
            vec![
                Rat { num: 3, den: 32 },
                Rat { num: 9, den: 32 },
                Rat { num: 0, den: 32 },
                Rat { num: 0, den: 32 },
                Rat { num: 0, den: 32 },
                Rat { num: 0, den: 32 },
            ],
            vec![
                Rat { num: 1932, den: 2197 },
                Rat { num: -7200, den: 2197 },
                Rat { num: 7296, den: 2197 },
                Rat { num: 0, den: 2197 },
                Rat { num: 0, den: 2197 },
                Rat { num: 0, den: 2197 },
            ],
            vec![
                Rat { num: 8341, den: 4104 },
                Rat { num: -32832, den: 4104 },
                Rat { num: 29440, den: 4104 },
                Rat { num: -845, den: 4104 },
                Rat { num: 0, den: 4104 },
                Rat { num: 0, den: 4104 },
            ],
            vec![
                Rat { num: -6080, den: 20520 },
                Rat { num: 41040, den: 20520 },
                Rat { num: -28352, den: 20520 },
                Rat { num: 9295, den: 20520 },
                Rat { num: -5643, den: 20520 },
                Rat { num: 0, den: 20520 },
            ],
        ];
        let b: Vec<Rat> = vec![
            Rat { num: 33440, den: 282150 },
            Rat { num: 0, den: 282150 },
            Rat { num: 146432, den: 282150 },
            Rat { num: 142805, den: 282150 },
            Rat { num: -50787, den: 282150 },
            Rat { num: 10260, den: 282150 },
        ];
        let berr: Vec<Rat> = vec![
            Rat { num: -3135, den: 1128600 },
            Rat { num: 0, den: 1128600 },
            Rat { num: 33792, den: 1128600 },
            Rat { num: 32955, den: 1128600 },
            Rat { num: -22572, den: 1128600 },
            Rat { num: -41040, den: 1128600 },
        ];
        let c: Vec<Rat> = vec![
            Rat { num: 0, den: 104 },
            Rat { num: 26, den: 104 },
            Rat { num: 39, den: 104 },
            Rat { num: 96, den: 104 },
            Rat { num: 104, den: 104 },
            Rat { num: 52, den: 104 },
        ];
        let bi: Vec<Vec<Rat>> = vec![
            vec![Rat { num: 33440, den: 282150 }],
            vec![Rat { num: 0, den: 282150 }],
            vec![Rat { num: 146432, den: 282150 }],
            vec![Rat { num: 142805, den: 282150 }],
            vec![Rat { num: -50787, den: 282150 }],
            vec![Rat { num: 10260, den: 282150 }],
        ];
        let t = Tableau { s: 6, a, b, berr, c, bi, m: 1, order: 4, fsal: false };
        proof {
            assert(t.a@[0]@ =~= seq![(Rat { num: 0i64, den: 1i64 }), (Rat { num: 0i64, den: 1i64 }), (Rat { num: 0i64, den: 1i64 }), (Rat { num: 0i64, den: 1i64 }), (Rat { num: 0i64, den: 1i64 }), (Rat { num: 0i64, den: 1i64 })]);
            assert(t.a@[1]@ =~= seq![(Rat { num: 1i64, den: 4i64 }), (Rat { num: 0i64, den: 4i64 }), (Rat { num: 0i64, den: 4i64 }), (Rat { num: 0i64, den: 4i64 }), (Rat { num: 0i64, den: 4i64 }), (Rat { num: 0i64, den: 4i64 })]);
            assert(t.a@[2]@ =~= seq![(Rat { num: 3i64, den: 32i64 }), (Rat { num: 9i64, den: 32i64 }), (Rat { num: 0i64, den: 32i64 }), (Rat { num: 0i64, den: 32i64 }), (Rat { num: 0i64, den: 32i64 }), (Rat { num: 0i64, den: 32i64 })]);
            assert(t.a@[3]@ =~= seq![(Rat { num: 1932i64, den: 2197i64 }), (Rat { num: -7200i64, den: 2197i64 }), (Rat { num: 7296i64, den: 2197i64 }), (Rat { num: 0i64, den: 2197i64 }), (Rat { num: 0i64, den: 2197i64 }), (Rat { num: 0i64, den: 2197i64 })]);
            assert(t.a@[4]@ =~= seq![(Rat { num: 8341i64, den: 4104i64 }), (Rat { num: -32832i64, den: 4104i64 }), (Rat { num: 29440i64, den: 4104i64 }), (Rat { num: -845i64, den: 4104i64 }), (Rat { num: 0i64, den: 4104i64 }), (Rat { num: 0i64, den: 4104i64 })]);
            assert(t.a@[5]@ =~= seq![(Rat { num: -6080i64, den: 20520i64 }), (Rat { num: 41040i64, den: 20520i64 }), (Rat { num: -28352i64, den: 20520i64 }), (Rat { num: 9295i64, den: 20520i64 }), (Rat { num: -5643i64, den: 20520i64 }), (Rat { num: 0i64, den: 20520i64 })]);
            assert(t.b@ =~= seq![(Rat { num: 33440i64, den: 282150i64 }), (Rat { num: 0i64, den: 282150i64 }), (Rat { num: 146432i64, den: 282150i64 }), (Rat { num: 142805i64, den: 282150i64 }), (Rat { num: -50787i64, den: 282150i64 }), (Rat { num: 10260i64, den: 282150i64 })]);
            assert(t.berr@ =~= seq![(Rat { num: -3135i64, den: 1128600i64 }), (Rat { num: 0i64, den: 1128600i64 }), (Rat { num: 33792i64, den: 1128600i64 }), (Rat { num: 32955i64, den: 1128600i64 }), (Rat { num: -22572i64, den: 1128600i64 }), (Rat { num: -41040i64, den: 1128600i64 })]);
            assert(t.c@ =~= seq![(Rat { num: 0i64, den: 104i64 }), (Rat { num: 26i64, den: 104i64 }), (Rat { num: 39i64, den: 104i64 }), (Rat { num: 96i64, den: 104i64 }), (Rat { num: 104i64, den: 104i64 }), (Rat { num: 52i64, den: 104i64 })]);
            assert(t.bi@[0]@ =~= seq![(Rat { num: 33440i64, den: 282150i64 })]);
            assert(t.bi@[1]@ =~= seq![(Rat { num: 0i64, den: 282150i64 })]);
            assert(t.bi@[2]@ =~= seq![(Rat { num: 146432i64, den: 282150i64 })]);
            assert(t.bi@[3]@ =~= seq![(Rat { num: 142805i64, den: 282150i64 })]);
            assert(t.bi@[4]@ =~= seq![(Rat { num: -50787i64, den: 282150i64 })]);
            assert(t.bi@[5]@ =~= seq![(Rat { num: 10260i64, den: 282150i64 })]);
            reveal_with_fuel(num_sum, 8);
            assert(num_sum(t.b@) == 282150);
            assert(num_sum(t.berr@) == 0);
            assert(num_sum(t.a@[0]@) == 0);
            assert(num_sum(t.a@[1]@) == 1);
            assert(num_sum(t.a@[2]@) == 12);
            assert(num_sum(t.a@[3]@) == 2028);
            assert(num_sum(t.a@[4]@) == 4104);
            assert(num_sum(t.a@[5]@) == 10260);
            assert(uniform_den(t.a@[0]@));
            assert(uniform_den(t.a@[1]@));
            assert(uniform_den(t.a@[2]@));
            assert(uniform_den(t.a@[3]@));
            assert(uniform_den(t.a@[4]@));
            assert(uniform_den(t.a@[5]@));
            assert forall|i: int| 0 <= i < 6 implies num_sum(#[trigger] t.a@[i]@) * t.c@[i].den
                == t.c@[i].num * t.a@[i]@[0].den && uniform_den(t.a@[i]@) by {
                if i == 0 {
                } else if i == 1 {
                } else if i == 2 {
                } else if i == 3 {
                } else if i == 4 {
                } else {
                    assert(i == 5);
                }
            }
        }
        t
    }
}

/// Scale a fixed-point time span by a tableau fraction.
pub fn rat_scale(h: Fx, r: Rat) -> (out: Option<Fx>)
    requires
        r.den > 0,
    ensures
        out is Some <==> crate::fx::in_lim(h.raw as int),
        out is Some ==> out->Some_0.raw == crate::fx::tdiv(h.raw * r.num, r.den as int),
{
    crate::fx::fx_scale(h, r.num, r.den)
}

} // verus!
