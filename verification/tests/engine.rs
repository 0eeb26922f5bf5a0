use orbitprop::control::{propagate, ErrorKind, PropSettings};
use orbitprop::fx::{Fx, SCALE};
use orbitprop::ode::{LinearOscillator, Plain};
use orbitprop::tableau::RKF45;

fn fx(v: f64) -> Fx {
    Fx { raw: (v * 1e9_f64).round() as i128 }
}

fn val(x: Fx) -> f64 {
    x.raw as f64 / 1e9_f64
}

fn oscillator() -> Plain<LinearOscillator> {
    Plain { force: LinearOscillator { omega2: fx(1.0) } }
}

fn state(x: f64, v: f64) -> Vec<Fx> {
    vec![fx(x), fx(0.0), fx(0.0), fx(v), fx(0.0), fx(0.0)]
}

fn settings(abs_tol: f64, rel_tol: f64) -> PropSettings {
    PropSettings {
        abs_tol: fx(abs_tol),
        rel_tol: fx(rel_tol),
        init_step: fx(0.1),
        min_step: fx(1e-6),
        max_step: fx(10.0),
        max_steps: 100_000,
        dense_output: false,
    }
}

#[test]
fn tableau_weight_identities() {
    let t = RKF45::tableau();
    assert_eq!(t.s, 6);
    let bsum: i64 = t.b.iter().map(|r| r.num).sum();
    assert_eq!(bsum, t.b[0].den);
    let esum: i64 = t.berr.iter().map(|r| r.num).sum();
    assert_eq!(esum, 0);
    for i in 0..6 {
        let rowsum: i64 = t.a[i].iter().map(|r| r.num).sum();
        assert_eq!(rowsum as i128 * t.c[i].den as i128, t.c[i].num as i128 * t.a[i][0].den as i128);
    }
}

#[test]
fn order_accuracy_oscillator() {
    // x'' = -x with x(0) = 1, v(0) = 0 has the closed form x(t) = cos(t).
    let tab = RKF45::tableau();
    let sys = oscillator();
    let coarse = propagate(&sys, &tab, &state(1.0, 0.0), fx(0.0), fx(1.5), &settings(1e-3, 1e-3))
        .expect("coarse run");
    let fine = propagate(&sys, &tab, &state(1.0, 0.0), fx(0.0), fx(1.5), &settings(1e-7, 1e-7))
        .expect("fine run");
    let exact = 1.5_f64.cos();
    let coarse_err = (val(coarse.state_end[0]) - exact).abs();
    let fine_err = (val(fine.state_end[0]) - exact).abs();
    assert!(coarse_err < 5e-2, "coarse error {coarse_err}");
    assert!(fine_err < 2e-3, "fine error {fine_err}");
}

#[test]
fn linear_motion_is_exact_to_rounding() {
    // With a zero spring constant the derivative is constant in time, so
    // the embedded error estimate is zero up to per-stage rounding and
    // no step is ever rejected.
    let tab = RKF45::tableau();
    let sys = Plain { force: LinearOscillator { omega2: fx(0.0) } };
    let y0 = state(2.0, 0.25);
    let res = propagate(&sys, &tab, &y0, fx(0.0), fx(10.0), &settings(1e-6, 1e-6))
        .expect("linear run");
    assert_eq!(res.rejected_steps, 0);
    // velocity components are reproduced exactly
    assert_eq!(res.state_end[3].raw, fx(0.25).raw);
    assert_eq!(res.state_end[4].raw, 0);
    // position advances by v * t, up to a few rounding units per step
    let expect = 2.0 + 0.25 * 10.0;
    assert!((val(res.state_end[0]) - expect).abs() < 1e-5);
}

#[test]
fn zero_span_returns_state_unchanged() {
    let tab = RKF45::tableau();
    let sys = oscillator();
    let y0 = state(1.25, -0.5);
    let res = propagate(&sys, &tab, &y0, fx(7.0), fx(7.0), &settings(1e-6, 1e-6))
        .expect("zero span");
    assert_eq!(res.accepted_steps, 0);
    assert_eq!(res.rejected_steps, 0);
    assert_eq!(res.num_eval, 0);
    for k in 0..6 {
        assert_eq!(res.state_end[k].raw, y0[k].raw);
    }
}

#[test]
fn round_trip_recovers_state() {
    let tab = RKF45::tableau();
    let sys = oscillator();
    let y0 = state(1.0, 0.0);
    let fwd = propagate(&sys, &tab, &y0, fx(0.0), fx(1.0), &settings(1e-7, 1e-7))
        .expect("forward");
    let back = propagate(&sys, &tab, &fwd.state_end, fx(1.0), fx(0.0), &settings(1e-7, 1e-7))
        .expect("backward");
    for k in 0..6 {
        let diff = (val(back.state_end[k]) - val(y0[k])).abs();
        assert!(diff < 1e-4, "component {k} differs by {diff}");
    }
}

#[test]
fn dense_output_interpolation() {
    let tab = RKF45::tableau();
    let sys = oscillator();
    let mut s = settings(1e-6, 1e-6);
    s.dense_output = true;
    let y0 = state(1.0, 0.0);
    let res = propagate(&sys, &tab, &y0, fx(0.0), fx(2.0), &s).expect("dense run");
    assert!(res.can_interp());
    // the recorded endpoint states are reproduced exactly
    let at_start = res.interp(&tab, fx(0.0)).expect("start");
    let at_end = res.interp(&tab, fx(2.0)).expect("end");
    for k in 0..6 {
        assert_eq!(at_start[k].raw, res.state_start[k].raw);
        assert_eq!(at_end[k].raw, res.state_end[k].raw);
    }
    // an interior point matches the closed form to interpolation accuracy
    let mid = res.interp(&tab, fx(1.0)).expect("interior");
    assert!((val(mid[0]) - 1.0_f64.cos()).abs() < 1e-2);
    // outside the covered span the call fails with the range error
    let low = res.interp(&tab, fx(-0.5));
    let high = res.interp(&tab, fx(2.5));
    assert_eq!(low.unwrap_err().kind, ErrorKind::OutOfRangeInterpolation);
    assert_eq!(high.unwrap_err().kind, ErrorKind::OutOfRangeInterpolation);
}

#[test]
fn tight_tolerance_rejects_steps() {
    // A large first trial step on the oscillator cannot meet a tight
    // tolerance, so at least one rejection must be counted, and the
    // propagation still reaches the target.
    let tab = RKF45::tableau();
    let sys = oscillator();
    let mut s = settings(1e-6, 0.0);
    s.init_step = fx(1.0);
    let res = propagate(&sys, &tab, &state(1.0, 0.0), fx(0.0), fx(2.0), &s).expect("run");
    assert!(res.rejected_steps >= 1, "rejected {}", res.rejected_steps);
    assert!((val(res.state_end[0]) - 2.0_f64.cos()).abs() < 1e-3);
}

#[test]
fn max_steps_guard_trips() {
    let tab = RKF45::tableau();
    let sys = oscillator();
    let mut s = settings(1e-6, 1e-6);
    s.max_steps = 1;
    s.max_step = fx(0.5);
    let err = propagate(&sys, &tab, &state(1.0, 0.0), fx(0.0), fx(100.0), &s).unwrap_err();
    assert_eq!(err.kind, ErrorKind::MaxStepsExceeded);
}

#[test]
fn step_size_underflow_reported() {
    // With the smallest admissible step a whole second long and an
    // absolute tolerance of one rounding unit, every trial is rejected
    // and the controller reports underflow.
    let tab = RKF45::tableau();
    let sys = oscillator();
    let s = PropSettings {
        abs_tol: Fx { raw: 1 },
        rel_tol: fx(0.0),
        init_step: fx(10.0),
        min_step: fx(1.0),
        max_step: fx(10.0),
        max_steps: 100_000,
        dense_output: false,
    };
    let err = propagate(&sys, &tab, &state(1000.0, 0.0), fx(0.0), fx(100.0), &s).unwrap_err();
    assert_eq!(err.kind, ErrorKind::StepSizeUnderflow);
}

#[test]
fn out_of_range_state_reported() {
    // A state component beyond the working range of the fixed-point
    // arithmetic is a non-finite-state failure.
    let tab = RKF45::tableau();
    let sys = oscillator();
    let mut y0 = state(1.0, 0.0);
    y0[0] = Fx { raw: 0x5000_0000_0000_0000 };
    let err = propagate(&sys, &tab, &y0, fx(0.0), fx(1.0), &settings(1e-6, 1e-6)).unwrap_err();
    assert_eq!(err.kind, ErrorKind::NonFiniteState);
}

#[test]
fn fixed_point_rounding_is_truncation() {
    let p = orbitprop::fx::fx_mul(fx(2.5), fx(4.0)).unwrap();
    assert_eq!(p.raw, 10 * SCALE);
    let q = orbitprop::fx::fx_scale(Fx { raw: -5 }, 1, 2).unwrap();
    assert_eq!(q.raw, -2);
    let d = orbitprop::fx::fx_div(fx(1.0), fx(3.0)).unwrap();
    assert_eq!(d.raw, 333_333_333);
}
