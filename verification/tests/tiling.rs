//! The tile enumerator on concrete planes: regression counts for the
//! five-fold tiling, the singular tie-break cases, and the error
//! paths.

use quasigrid::fixed::SCALE as SCALE_FX;
use quasigrid::multigrid::{generate, State};
use quasigrid::TilingError;

const S: f64 = 281474976710656.0;

fn fx(x: f64) -> i128 {
    (x * S).round() as i128
}

fn to_f(x: i128) -> f64 {
    (x as f64) / S
}

fn fx_vec(v: &[f64]) -> Vec<i128> {
    v.iter().map(|&x| fx(x)).collect()
}

fn penrose_basis(dims: usize) -> (Vec<f64>, Vec<f64>) {
    let f: f64 = (2.0 / dims as f64).sqrt();
    let g: f64 = (dims % 2 + 1) as f64 * std::f64::consts::PI / dims as f64;
    let basis0: Vec<f64> = (0..dims).map(|x| f * (g * x as f64).cos()).collect();
    let basis1: Vec<f64> = (0..dims).map(|x| f * (g * x as f64).sin()).collect();
    (basis0, basis1)
}

#[test]
fn generate_penrose() {
    let dims: usize = 5;
    let (basis0, basis1) = penrose_basis(dims);
    let offset: Vec<f64> = (0..dims).map(|_| 0.3).collect();
    let view_width: f64 = 10.0;
    let view_height: f64 = 10.0;
    let faces = generate(
        dims,
        fx_vec(&basis0),
        fx_vec(&basis1),
        fx_vec(&offset),
        fx(view_width),
        fx(view_height),
    )
    .unwrap();
    assert_eq!(406, faces.get_num_faces());
}

#[test]
fn generate_singular() {
    // Singular multigrid: every intersection lies on further grid
    // hyperplanes, so every cell takes the tie-break path.
    let dims: usize = 5;
    let (basis0, basis1) = penrose_basis(dims);
    let offset: Vec<f64> = (0..dims).map(|_| 0.5).collect();
    let view_width: f64 = 10.0;
    let view_height: f64 = 10.0;
    let faces = generate(
        dims,
        fx_vec(&basis0),
        fx_vec(&basis1),
        fx_vec(&offset),
        fx(view_width),
        fx(view_height),
    )
    .unwrap();
    assert_eq!(416, faces.get_num_faces());
}

fn state_of(dims: usize, basis0: &[f64], basis1: &[f64], offset: &[f64]) -> State {
    State::new(dims, fx_vec(basis0), fx_vec(basis1), fx_vec(offset)).unwrap()
}

#[test]
fn generate_singular_a() {
    // Singular case A -- the third axis is parallel to the first.
    let r: f64 = std::f64::consts::FRAC_1_SQRT_2;
    let basis0 = [0.0, 0.0, 1.0];
    let basis1 = [r, r, 0.0];
    let offset = [0.0; 3];
    let state = state_of(3, &basis0, &basis1, &offset);
    let face_vert = state.get_face_vertex(1, 2, 0, 0);
    assert_eq!(face_vert, vec![1, 0, 0]);
}

#[test]
fn generate_singular_b() {
    // Singular case B -- the third axis is parallel to the second.
    let r: f64 = std::f64::consts::FRAC_1_SQRT_2;
    let basis0 = [1.0, 0.0, 0.0];
    let basis1 = [0.0, r, r];
    let offset = [0.0; 3];
    let state = state_of(3, &basis0, &basis1, &offset);
    let face_vert = state.get_face_vertex(0, 2, 0, 0);
    assert_eq!(face_vert, vec![0, 1, 0]);
}

#[test]
fn generate_singular_c() {
    // Singular case C -- the third axis lies between two non-parallel
    // axes, so the singular coordinate is rounded up.
    let r: f64 = std::f64::consts::FRAC_1_SQRT_2;
    let f: f64 = (2.0f64 / 3.0).sqrt();
    let basis0 = [f, f / 2.0, f / 2.0];
    let basis1 = [0.0, r, -r];
    let offset = [0.5; 3];
    let state = state_of(3, &basis0, &basis1, &offset);
    let face_vert = state.get_face_vertex(1, 2, 0, 0);
    assert_eq!(face_vert, vec![1, 0, 0]);
}

#[test]
fn generate_singular_d() {
    // Singular case D -- the third axis does not lie between the
    // generating axes, so the singular coordinate is rounded down.
    let r: f64 = std::f64::consts::FRAC_1_SQRT_2;
    let f: f64 = (2.0f64 / 3.0).sqrt();
    let basis0 = [f, f / 2.0, f / 2.0];
    let basis1 = [0.0, r, -r];
    let offset = [0.5; 3];
    let state = state_of(3, &basis0, &basis1, &offset);
    let face_vert = state.get_face_vertex(0, 1, 0, 0);
    assert_eq!(face_vert, vec![0, 0, 0]);
}

#[test]
fn singular_faces_unique_and_covering() {
    // With the all-halves offset no two faces share an anchor vertex
    // and axis pair, and the tiles cover the nominal viewport.
    let dims: usize = 5;
    let (basis0, basis1) = penrose_basis(dims);
    let offset: Vec<f64> = (0..dims).map(|_| 0.5).collect();
    let faces = generate(
        dims,
        fx_vec(&basis0),
        fx_vec(&basis1),
        fx_vec(&offset),
        fx(10.0),
        fx(10.0),
    )
    .unwrap();
    let mut keys: Vec<(i128, i128, u16, u16)> = faces
        .faces
        .iter()
        .map(|f| (f.key_vert_x, f.key_vert_y, f.axis1, f.axis2))
        .collect();
    keys.sort();
    for w in keys.windows(2) {
        assert!(w[0] != w[1], "duplicate face {:?}", w[0]);
    }
    // Coverage of a coarse grid of sample points well inside the
    // viewport: every point must fall inside some rhombus.
    for gx in -3i32..=3 {
        for gy in -3i32..=3 {
            let px: f64 = gx as f64 * 1.3 + 0.05;
            let py: f64 = gy as f64 * 1.3 + 0.07;
            let mut hit = false;
            for f in faces.faces.iter() {
                let i: usize = f.axis1 as usize;
                let j: usize = f.axis2 as usize;
                let (eix, eiy) = (basis0[i], basis1[i]);
                let (ejx, ejy) = (basis0[j], basis1[j]);
                let det: f64 = eix * ejy - eiy * ejx;
                let dx: f64 = px - to_f(f.key_vert_x);
                let dy: f64 = py - to_f(f.key_vert_y);
                let s: f64 = (dx * ejy - dy * ejx) / det;
                let t: f64 = (eix * dy - eiy * dx) / det;
                if s >= -1e-7 && s <= 1.0 + 1e-7 && t >= -1e-7 && t <= 1.0 + 1e-7 {
                    hit = true;
                    break;
                }
            }
            assert!(hit, "no face covers sample point ({}, {})", px, py);
        }
    }
}

#[test]
fn parallel_pair_contributes_no_faces() {
    // Axes 0 and 1 project to the same direction, so no face may carry
    // that pair, nor its face type.
    let r: f64 = std::f64::consts::FRAC_1_SQRT_2;
    let basis0 = [0.0, 0.0, 1.0];
    let basis1 = [r, r, 0.0];
    let offset = [0.1; 3];
    let faces = generate(
        3,
        fx_vec(&basis0),
        fx_vec(&basis1),
        fx_vec(&offset),
        fx(6.0),
        fx(6.0),
    )
    .unwrap();
    assert!(faces.get_num_faces() > 0);
    for f in faces.faces.iter() {
        assert!(!(f.axis1 == 0 && f.axis2 == 1));
        assert!(f.face_type(3) != 0);
    }
}

#[test]
fn face_vertex_projects_to_intersection() {
    // The resolved vertex keeps the generating grid indices exactly,
    // and projects back onto the analytic intersection point.
    let dims: usize = 5;
    let (basis0, basis1) = penrose_basis(dims);
    let offset: Vec<f64> = (0..dims).map(|_| 0.3).collect();
    let state = state_of(dims, &basis0, &basis1, &offset);
    for &(a1, a2, k1, k2) in [(0usize, 1usize, 0i64, 0i64), (1, 3, 2, -1), (0, 4, -2, 1)].iter() {
        let vert = state.get_face_vertex(a1, a2, k1, k2);
        assert_eq!(vert[a1], k1);
        assert_eq!(vert[a2], k2);
        let raw: Vec<i128> = vert.iter().map(|&c| (c as i128) * SCALE_FX).collect();
        let p = state.project(&raw);
        // The analytic intersection of the two grid hyperplanes.
        let u: f64 = k1 as f64 + 0.5 - offset[a1];
        let v: f64 = k2 as f64 + 0.5 - offset[a2];
        let ext: f64 = basis0[a1] * basis1[a2] - basis1[a1] * basis0[a2];
        let a: f64 = (u * basis1[a2] - v * basis1[a1]) / ext;
        let b: f64 = (v * basis0[a1] - u * basis0[a2]) / ext;
        // The vertex coordinates a1 and a2 are k1 and k2, so the
        // projection of the vertex agrees with (a, b) on those axes'
        // hyperplanes; check the projection against the intersection
        // of the two known coordinates instead of the full point.
        let exp_a: f64 = (vert
            .iter()
            .enumerate()
            .map(|(ix, &c)| (c as f64 - offset[ix]) * basis0[ix])
            .sum::<f64>());
        let exp_b: f64 = (vert
            .iter()
            .enumerate()
            .map(|(ix, &c)| (c as f64 - offset[ix]) * basis1[ix])
            .sum::<f64>());
        assert!((to_f(p.0) - exp_a).abs() < 1e-9);
        assert!((to_f(p.1) - exp_b).abs() < 1e-9);
        // And the projected vertex lies on both generating
        // hyperplanes' intersection up to the lattice rounding: the
        // intersection point itself satisfies the linear system.
        let chk_u: f64 = a * basis0[a1] + b * basis1[a1] + offset[a1];
        let chk_v: f64 = a * basis0[a2] + b * basis1[a2] + offset[a2];
        assert!((chk_u - (k1 as f64 + 0.5)).abs() < 1e-9);
        assert!((chk_v - (k2 as f64 + 0.5)).abs() < 1e-9);
        // Projection and unprojection are mutually consistent on the
        // orthonormal plane: unprojecting the intersection and
        // projecting it back reproduces it to within 1e-9.
        let lifted = state.unproject(fx(a), fx(b));
        let back = state.project(&lifted);
        assert!((to_f(back.0) - a).abs() < 1e-9);
        assert!((to_f(back.1) - b).abs() < 1e-9);
    }
}

#[test]
fn square_lattice_face_count() {
    // The smallest dimension count: the identity plane in two
    // dimensions cuts the grid into unit squares. With offset 0.3 and
    // a 4 by 4 viewport the midpoint test keeps indices -2..=2 on
    // both axes: exactly 25 faces.
    let basis0 = [1.0, 0.0];
    let basis1 = [0.0, 1.0];
    let offset = [0.3, 0.3];
    let faces = generate(
        2,
        fx_vec(&basis0),
        fx_vec(&basis1),
        fx_vec(&offset),
        fx(4.0),
        fx(4.0),
    )
    .unwrap();
    assert_eq!(25, faces.get_num_faces());
    for f in faces.faces.iter() {
        assert_eq!((f.axis1, f.axis2), (0, 1));
        assert_eq!(f.face_type(2), 0);
    }
}

#[test]
fn invalid_configurations_are_rejected() {
    let r: f64 = std::f64::consts::FRAC_1_SQRT_2;
    // Too few dimensions.
    assert_eq!(
        State::new(1, vec![fx(1.0)], vec![fx(0.0)], vec![fx(0.0)]).err(),
        Some(TilingError::InvalidConfiguration)
    );
    // Mismatched lengths.
    assert_eq!(
        generate(
            3,
            vec![fx(1.0), fx(0.0)],
            vec![fx(0.0), fx(r), fx(r)],
            vec![0, 0, 0],
            fx(4.0),
            fx(4.0)
        )
        .err(),
        Some(TilingError::InvalidConfiguration)
    );
}

#[test]
fn face_access_is_bounds_checked() {
    let r: f64 = std::f64::consts::FRAC_1_SQRT_2;
    let basis0 = [1.0, 0.0, 0.0];
    let basis1 = [0.0, r, r];
    let offset = [0.1; 3];
    let faces = generate(
        3,
        fx_vec(&basis0),
        fx_vec(&basis1),
        fx_vec(&offset),
        fx(4.0),
        fx(4.0),
    )
    .unwrap();
    let n: usize = faces.get_num_faces();
    assert!(n > 0);
    assert!(faces.get_face(0).is_ok());
    assert_eq!(faces.get_face(n).err(), Some(TilingError::OutOfRange));
}

#[test]
fn face_type_enumerates_pairs_in_order() {
    let mut expected: usize = 0;
    let dims: usize = 4;
    for i in 0..dims - 1 {
        for j in i + 1..dims {
            let f = quasigrid::Face { key_vert_x: 0, key_vert_y: 0, axis1: i as u16, axis2: j as u16 };
            assert_eq!(f.face_type(dims), expected);
            expected += 1;
        }
    }
    assert_eq!(expected, dims * (dims - 1) / 2);
}
