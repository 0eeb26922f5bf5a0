use orbitprop::control::PropSettings;
use orbitprop::fx::Fx;
use orbitprop::ode::LinearOscillator;
use orbitprop::satstate::{SatState, StateCov};

fn fx(v: f64) -> Fx {
    Fx { raw: (v * 1e9_f64).round() as i128 }
}

fn val(x: Fx) -> f64 {
    x.raw as f64 / 1e9_f64
}

fn osc() -> LinearOscillator {
    LinearOscillator { omega2: fx(1.0) }
}

fn test_settings() -> PropSettings {
    PropSettings {
        abs_tol: fx(1e-7),
        rel_tol: fx(1e-7),
        init_step: fx(0.1),
        min_step: fx(1e-6),
        max_step: fx(10.0),
        max_steps: 100_000,
        dense_output: false,
    }
}

#[test]
fn test_satstate() {
    let satstate = SatState::from_pv(
        fx(0.0),
        &vec![fx(1.0), fx(0.0), fx(0.0)],
        &vec![fx(0.0), fx(1.0), fx(0.0)],
    );
    println!("state orig = {:?}", satstate);

    let state2 = satstate.propagate(&fx(1.0), &test_settings(), osc()).expect("forward");
    println!("state 2 = {:?}", state2);

    let state0 = state2.propagate(&satstate.time, &test_settings(), osc());
    println!("state 0 = {:?}", state0);
    let state0 = state0.expect("backward");
    for k in 0..6 {
        assert!((val(state0.pv[k]) - val(satstate.pv[k])).abs() < 1e-4);
    }
}

fn identity_dcm() -> Vec<Fx> {
    let mut d = vec![fx(0.0); 9];
    d[0] = fx(1.0);
    d[4] = fx(1.0);
    d[8] = fx(1.0);
    d
}

#[test]
fn test_satcov() {
    let mut satstate = SatState::from_pv(
        fx(0.0),
        &vec![fx(1.0), fx(0.0), fx(0.0)],
        &vec![fx(0.0), fx(1.0), fx(0.0)],
    );
    assert!(satstate.set_lvlh_pos_uncertainty(&identity_dcm(), &vec![fx(1.0), fx(1.0), fx(1.0)]));
    println!("state orig = {:?}", satstate.cov);

    let state2 = satstate.propagate(&fx(1.0), &test_settings(), osc()).expect("forward");
    println!("state 2 = {:?}", state2.cov);
    match &state2.cov {
        StateCov::PVCov(c) => assert_eq!(c.len(), 36),
        StateCov::Absent => panic!("covariance lost"),
    }
}

#[test]
fn covariance_stays_symmetric() {
    let mut st = SatState::from_pv(
        fx(0.0),
        &vec![fx(1.0), fx(0.5), fx(-0.25)],
        &vec![fx(0.0), fx(1.0), fx(0.5)],
    );
    assert!(st.set_gcrf_pos_uncertainty(&vec![fx(1.0), fx(2.0), fx(3.0)]));
    let out = st.propagate(&fx(1.5), &test_settings(), osc()).expect("propagate");
    match &out.cov {
        StateCov::PVCov(c) => {
            for i in 0..6 {
                for j in 0..6 {
                    assert_eq!(c[6 * i + j].raw, c[6 * j + i].raw);
                }
            }
        },
        StateCov::Absent => panic!("covariance lost"),
    }
}

#[test]
fn gcrf_uncertainty_sets_diagonal_squares() {
    let mut st = SatState::from_pv(
        fx(0.0),
        &vec![fx(1.0), fx(0.0), fx(0.0)],
        &vec![fx(0.0), fx(0.0), fx(0.0)],
    );
    assert!(st.set_gcrf_pos_uncertainty(&vec![fx(2.0), fx(3.0), fx(4.0)]));
    match &st.cov {
        StateCov::PVCov(c) => {
            assert_eq!(val(c[0]), 4.0);
            assert_eq!(val(c[7]), 9.0);
            assert_eq!(val(c[14]), 16.0);
            for idx in 0..36 {
                if idx != 0 && idx != 7 && idx != 14 {
                    assert_eq!(c[idx].raw, 0);
                }
            }
        },
        StateCov::Absent => panic!("no covariance"),
    }
}

#[test]
fn lvlh_uncertainty_rotates_sigma_squares() {
    // with the identity rotation the rotated covariance is the diagonal
    // of squared sigmas, exactly; off-block entries stay zero
    let mut st = SatState::from_pv(
        fx(0.0),
        &vec![fx(1.0), fx(0.0), fx(0.0)],
        &vec![fx(0.0), fx(0.0), fx(0.0)],
    );
    assert!(st.set_lvlh_pos_uncertainty(&identity_dcm(), &vec![fx(2.0), fx(3.0), fx(4.0)]));
    match &st.cov {
        StateCov::PVCov(c) => {
            assert_eq!(val(c[0]), 4.0);
            assert_eq!(val(c[7]), 9.0);
            assert_eq!(val(c[14]), 16.0);
            for i in 0..6 {
                for j in 0..6 {
                    if i != j || i >= 3 {
                        assert_eq!(c[6 * i + j].raw, 0);
                    }
                    assert_eq!(c[6 * i + j].raw, c[6 * j + i].raw);
                }
            }
        },
        StateCov::Absent => panic!("no covariance"),
    }
}

#[test]
fn zero_span_keeps_satstate() {
    let st = SatState::from_pv(
        fx(3.0),
        &vec![fx(1.0), fx(2.0), fx(3.0)],
        &vec![fx(-1.0), fx(0.5), fx(0.25)],
    );
    let out = st.propagate(&fx(3.0), &test_settings(), osc()).expect("zero span");
    for k in 0..6 {
        assert_eq!(out.pv[k].raw, st.pv[k].raw);
    }
}

#[test]
fn zero_span_keeps_covariance() {
    // Over a zero-length span the transition matrix is the identity, so
    // the evolved covariance reproduces the original entries exactly.
    let mut st = SatState::from_pv(
        fx(2.0),
        &vec![fx(1.0), fx(2.0), fx(3.0)],
        &vec![fx(-1.0), fx(0.5), fx(0.25)],
    );
    assert!(st.set_gcrf_pos_uncertainty(&vec![fx(1.5), fx(2.5), fx(3.5)]));
    let before = match &st.cov {
        StateCov::PVCov(c) => c.clone(),
        StateCov::Absent => panic!("no covariance"),
    };
    let out = st.propagate(&fx(2.0), &test_settings(), osc()).expect("zero span");
    match &out.cov {
        StateCov::PVCov(c) => {
            for idx in 0..36 {
                assert_eq!(c[idx].raw, before[idx].raw);
            }
        },
        StateCov::Absent => panic!("covariance lost"),
    }
}

#[test]
fn accessors_split_position_and_velocity() {
    let st = SatState::from_pv(
        fx(0.0),
        &vec![fx(1.0), fx(2.0), fx(3.0)],
        &vec![fx(4.0), fx(5.0), fx(6.0)],
    );
    let p = st.pos();
    let v = st.vel();
    assert_eq!(p.len(), 3);
    assert_eq!(v.len(), 3);
    for k in 0..3 {
        assert_eq!(p[k].raw, st.pv[k].raw);
        assert_eq!(v[k].raw, st.pv[k + 3].raw);
    }
    let mut st2 = st.clone();
    st2.set_cov(StateCov::Absent);
    assert!(matches!(st2.cov, StateCov::Absent));
}
