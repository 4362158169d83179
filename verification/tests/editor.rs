//! The basis editor: canonical resets, offset translation, and the
//! interactive rotation.

use quasigrid::multigrid::State;
use quasigrid::TilingError;

const S: f64 = 281474976710656.0;

fn fx(x: f64) -> i128 {
    (x * S).round() as i128
}

fn to_f(x: i128) -> f64 {
    (x as f64) / S
}

fn blank_state(dims: usize) -> State {
    let zeros: Vec<i128> = vec![0; dims];
    let mut ones: Vec<i128> = vec![0; dims];
    ones[0] = fx(1.0);
    let mut ones2: Vec<i128> = vec![0; dims];
    ones2[1] = fx(1.0);
    State::new(dims, ones, ones2, zeros).unwrap()
}

#[test]
fn reset_gives_regression_counts() {
    // The canonical five-fold plane with the canonical offset: the
    // exact face counts for two viewports.
    let mut st = blank_state(5);
    st.reset_basis();
    st.reset_offset();
    let wide = st.recompute(fx(16.0), fx(9.0));
    assert_eq!(552, wide.get_num_faces());
    let square = st.recompute(fx(10.0), fx(10.0));
    assert_eq!(406, square.get_num_faces());
}

#[test]
fn reset_offset_is_three_tenths_only_for_five() {
    let mut st5 = blank_state(5);
    st5.reset_offset();
    for &c in st5.get_offset().iter() {
        assert!((to_f(c) - 0.3).abs() < 1e-12);
    }
    let mut st4 = blank_state(4);
    st4.reset_offset();
    for &c in st4.get_offset().iter() {
        assert_eq!(c, 0);
    }
}

#[test]
fn reset_basis_is_orthonormal_for_every_dims() {
    // Unit norms and a zero dot product, within 1e-9, for a range of
    // dimension counts.
    for dims in 2usize..=12 {
        let mut st = blank_state(dims);
        st.reset_basis();
        let b0: Vec<f64> = st.get_basis(0).unwrap().iter().map(|&c| to_f(c)).collect();
        let b1: Vec<f64> = st.get_basis(1).unwrap().iter().map(|&c| to_f(c)).collect();
        let n0: f64 = b0.iter().map(|x| x * x).sum::<f64>().sqrt();
        let n1: f64 = b1.iter().map(|x| x * x).sum::<f64>().sqrt();
        let dot: f64 = b0.iter().zip(b1.iter()).map(|(x, y)| x * y).sum();
        assert!((n0 - 1.0).abs() < 1e-9, "norm of basis0 for dims={}: {}", dims, n0);
        assert!((n1 - 1.0).abs() < 1e-9, "norm of basis1 for dims={}: {}", dims, n1);
        assert!(dot.abs() < 1e-9, "dot for dims={}: {}", dims, dot);
    }
}

#[test]
fn reset_basis_matches_closed_form() {
    let mut st = blank_state(5);
    st.reset_basis();
    let f: f64 = (2.0f64 / 5.0).sqrt();
    let g: f64 = 2.0 * std::f64::consts::PI / 5.0;
    let b0 = st.get_basis(0).unwrap();
    let b1 = st.get_basis(1).unwrap();
    for i in 0..5usize {
        assert!((to_f(b0[i]) - f * (g * i as f64).cos()).abs() < 1e-12);
        assert!((to_f(b1[i]) - f * (g * i as f64).sin()).abs() < 1e-12);
    }
}

#[test]
fn translate_offset_round_trips_exactly() {
    let mut st = blank_state(5);
    st.reset_basis();
    st.reset_offset();
    let before = st.get_offset();
    st.translate_offset(fx(0.37), fx(-1.25));
    let moved = st.get_offset();
    assert!(moved != before);
    for &c in moved.iter() {
        assert!(0 <= c && c < fx(1.0));
    }
    st.translate_offset(fx(-0.37), fx(1.25));
    let after = st.get_offset();
    assert_eq!(before, after);
}

#[test]
fn setters_validate_and_overwrite() {
    let mut st = blank_state(3);
    assert_eq!(
        st.set_basis(2, vec![0, 0, 0]).err(),
        Some(TilingError::OutOfRange)
    );
    assert_eq!(
        st.set_basis(0, vec![0, 0]).err(),
        Some(TilingError::InvalidConfiguration)
    );
    let r: f64 = std::f64::consts::FRAC_1_SQRT_2;
    assert!(st.set_basis(0, vec![fx(r), fx(r), 0]).is_ok());
    assert_eq!(st.get_basis(0).unwrap(), vec![fx(r), fx(r), 0]);
    assert!(st.get_basis(2).is_err());
    assert_eq!(
        st.set_offset(vec![0, 0]).err(),
        Some(TilingError::InvalidConfiguration)
    );
    assert!(st.set_offset(vec![fx(0.1), fx(0.2), fx(0.3)]).is_ok());
    assert_eq!(
        st.set_offset_comp(3, 0).err(),
        Some(TilingError::OutOfRange)
    );
    assert!(st.set_offset_comp(1, fx(0.9)).is_ok());
    assert_eq!(st.get_offset(), vec![fx(0.1), fx(0.9), fx(0.3)]);
}

#[test]
fn exterior_products_are_antisymmetric() {
    let mut st = blank_state(5);
    st.reset_basis();
    for i in 0..5usize {
        for j in 0..5usize {
            assert_eq!(st.ext[i][j], -st.ext[j][i]);
        }
        assert_eq!(st.ext[i][i], 0);
    }
}

#[test]
fn move_axis_sets_projection_and_keeps_orthonormality() {
    let mut st = blank_state(5);
    st.reset_basis();
    assert!(st.move_axis(2, fx(0.5), fx(0.2)).is_ok());
    let b0: Vec<f64> = st.get_basis(0).unwrap().iter().map(|&c| to_f(c)).collect();
    let b1: Vec<f64> = st.get_basis(1).unwrap().iter().map(|&c| to_f(c)).collect();
    assert!((b0[2] - 0.5).abs() < 1e-6, "axis projection x: {}", b0[2]);
    assert!((b1[2] - 0.2).abs() < 1e-6, "axis projection y: {}", b1[2]);
    let n0: f64 = b0.iter().map(|x| x * x).sum::<f64>().sqrt();
    let n1: f64 = b1.iter().map(|x| x * x).sum::<f64>().sqrt();
    let dot: f64 = b0.iter().zip(b1.iter()).map(|(x, y)| x * y).sum();
    assert!((n0 - 1.0).abs() < 1e-6);
    assert!((n1 - 1.0).abs() < 1e-6);
    assert!(dot.abs() < 1e-6);
}

#[test]
fn move_axis_clamps_magnitude_to_unit() {
    let mut st = blank_state(4);
    st.reset_basis();
    assert!(st.move_axis(1, fx(3.0), 0).is_ok());
    let b0 = st.get_basis(0).unwrap();
    let b1 = st.get_basis(1).unwrap();
    assert!((to_f(b0[1]) - 1.0).abs() < 1e-6);
    assert!(to_f(b1[1]).abs() < 1e-6);
    assert_eq!(
        st.move_axis(9, 0, 0).err(),
        Some(TilingError::OutOfRange)
    );
}
