use naso_compiler::ir::affine_domain::{AffineConstraint, AffineDomain, AffineExpr};
use naso_compiler::ir::affine_map::{AffineMap, AffineMapPiece, Matrix};

#[test]
fn test_universe_domain() {
    let d = AffineDomain::universe(2, 1);
    assert_eq!(d.dims, 3);
    assert_eq!(d.n_iter, 2);
    assert_eq!(d.n_param, 1);
    assert!(d.constraints.is_empty());
}

#[test]
fn test_domain_with_constraints() {
    // { [i, j] : 0 <= i < N, 0 <= j < M }
    let mut d = AffineDomain::universe(2, 2);
    d.add_constraint(AffineConstraint::inequality(vec![1, 0, 0, 0], 0));
    d.add_constraint(AffineConstraint::inequality(vec![-1, 0, 1, 0], 1));
    d.add_constraint(AffineConstraint::inequality(vec![0, 1, 0, 0], 0));
    d.add_constraint(AffineConstraint::inequality(vec![0, -1, 0, 1], 1));

    assert!(d.contains(&[0, 0, 10, 20]));
    assert!(d.contains(&[5, 10, 10, 20]));
    assert!(!d.contains(&[10, 0, 10, 20]));
    assert!(!d.contains(&[0, 20, 10, 20]));
}

#[test]
fn test_intersection() {
    let d1 = AffineDomain::new(1, 0, vec![
        AffineConstraint::inequality(vec![1], 0),
        AffineConstraint::inequality(vec![-1], -5),
    ]);
    let d2 = AffineDomain::new(1, 0, vec![
        AffineConstraint::inequality(vec![1], 3),
        AffineConstraint::inequality(vec![-1], -10),
    ]);
    let inter = d1.intersection(&d2);
    assert!(inter.contains(&[3]));
    assert!(inter.contains(&[5]));
    assert!(!inter.contains(&[2]));
    assert!(!inter.contains(&[6]));
}

#[test]
fn test_projection() {
    let mut d = AffineDomain::universe(2, 2);
    d.add_constraint(AffineConstraint::inequality(vec![1, 0, 0, 0], 0));
    d.add_constraint(AffineConstraint::inequality(vec![-1, 0, 1, 0], 1));
    d.add_constraint(AffineConstraint::inequality(vec![0, 1, 0, 0], 0));
    d.add_constraint(AffineConstraint::inequality(vec![0, -1, 0, 1], 1));

    let proj = d.project(&[1]);
    assert_eq!(proj.n_iter, 1);
    assert_eq!(proj.n_param, 2);
    assert!(proj.contains(&[0, 10, 20]));
    assert!(proj.contains(&[5, 10, 20]));
}

#[test]
fn test_contradiction_detection() {
    let mut d = AffineDomain::universe(1, 0);
    d.add_constraint(AffineConstraint::inequality(vec![1], 5));
    d.add_constraint(AffineConstraint::inequality(vec![-1], -3));
    assert!(d.is_empty());
}

#[test]
fn test_affine_expr() {
    let e = AffineExpr { coefficients: vec![2, 3], constant: 5 };
    assert_eq!(e.evaluate(&[1, 2]), 2 * 1 + 3 * 2 + 5);
    assert_eq!(e.evaluate(&[0, 0]), 5);
}

#[test]
fn test_matrix_identity() {
    let m = Matrix::identity(3);
    assert_eq!(m.apply(&[1, 2, 3]), vec![1, 2, 3]);
}

#[test]
fn test_matrix_apply() {
    let mut m = Matrix::new(2, 2);
    m.set(0, 0, 2);
    m.set(0, 1, 3);
    m.set(1, 0, 1);
    m.set(1, 1, -1);
    m.set_const(0, 5);
    m.set_const(1, -2);
    assert_eq!(m.apply(&[1, 2]), vec![2 * 1 + 3 * 2 + 5, 1 * 1 + (-1) * 2 - 2]);
}

#[test]
fn test_matrix_compose() {
    let mut m1 = Matrix::new(2, 2);
    m1.set(0, 0, 1);
    m1.set(0, 1, 2);
    m1.set(1, 0, 3);
    m1.set(1, 1, 4);

    let mut m2 = Matrix::new(2, 2);
    m2.set(0, 0, 2);
    m2.set(0, 1, 0);
    m2.set(1, 0, 0);
    m2.set(1, 1, 2);

    let composed = m1.compose(&m2);
    assert_eq!(composed.get(0, 0), 2);
    assert_eq!(composed.get(0, 1), 4);
    assert_eq!(composed.get(1, 0), 6);
    assert_eq!(composed.get(1, 1), 8);
}

#[test]
fn affine_map_test_matrix_inverse() {
    let mut m = Matrix::new(2, 2);
    m.set(0, 0, 2);
    m.set(0, 1, 0);
    m.set(1, 0, 0);
    m.set(1, 1, 3);

    let inv = m.inverse().unwrap();
    // integer division truncates 1/2 to 0
    assert_eq!(inv.get(0, 0), 0);
}

#[test]
fn test_affine_map_piece() {
    let domain = AffineDomain::universe(2, 0);
    let mut m = Matrix::new(2, 2);
    m.set(0, 0, 1);
    m.set(1, 1, 1);
    let piece = AffineMapPiece::new(domain, m);
    assert_eq!(piece.apply(&[5, 7]), Some(vec![5, 7]));
}

#[test]
fn test_affine_map_compose() {
    let dom1 = AffineDomain::universe(2, 0);
    let m1 = Matrix::identity(2);
    let map1 = AffineMap::total(dom1, m1);

    let dom2 = AffineDomain::universe(2, 0);
    let mut m2 = Matrix::identity(2);
    m2.set_const(0, 1);
    m2.set_const(1, 2);
    let map2 = AffineMap::total(dom2, m2);

    let composed = map1.compose(&map2);
    assert_eq!(composed.apply(&[3, 4]), Some(vec![4, 6]));
}

#[test]
fn test_affine_domain_operations() {
    let d1 = AffineDomain::new(1, 0, vec![
        AffineConstraint::inequality(vec![1], 0),
        AffineConstraint::inequality(vec![-1], -10),
    ]);
    let d2 = AffineDomain::new(1, 0, vec![
        AffineConstraint::inequality(vec![1], 5),
        AffineConstraint::inequality(vec![-1], -15),
    ]);
    let inter = d1.intersection(&d2);
    assert!(inter.contains(&[5]));
    assert!(inter.contains(&[10]));
    assert!(!inter.contains(&[4]));
    assert!(!inter.contains(&[11]));

    let d3 = AffineDomain::new(2, 1, vec![
        AffineConstraint::inequality(vec![1, 0, 0], 0),
        AffineConstraint::inequality(vec![-1, 0, 1], 1),
        AffineConstraint::inequality(vec![0, 1, 0], 0),
        AffineConstraint::inequality(vec![0, -1, 1], 1),
    ]);
    let proj = d3.project(&[1]);
    assert_eq!(proj.n_iter, 1);
    assert_eq!(proj.n_param, 1);
    assert!(proj.contains(&[5, 10]));
}

#[test]
fn test_affine_map_composition() {
    let dom1 = AffineDomain::universe(2, 0);
    let mut m1 = Matrix::new(1, 2);
    m1.set(0, 0, 1);
    let _map1 = AffineMap::total(dom1.clone(), m1);

    let dom2 = AffineDomain::universe(1, 0);
    let mut m2 = Matrix::new(1, 1);
    m2.set(0, 0, 2);
    let _map2 = AffineMap::total(dom2, m2);

    let mut m3 = Matrix::new(2, 2);
    m3.set(0, 0, 1);
    m3.set(1, 1, 1);
    let map3 = AffineMap::total(dom1.clone(), m3);

    let mut m4 = Matrix::new(2, 2);
    m4.set(0, 0, 2);
    m4.set(1, 1, 3);
    let map4 = AffineMap::total(dom1, m4);

    let composed = map3.compose(&map4);
    assert_eq!(composed.pieces.len(), 1);
    assert_eq!(composed.pieces[0].matrix.get(0, 0), 2);
    assert_eq!(composed.pieces[0].matrix.get(1, 1), 3);
}

#[test]
fn tests_test_matrix_inverse() {
    let mut m = Matrix::new(2, 2);
    m.set(0, 0, 1);
    m.set(0, 1, 1);
    m.set(1, 0, 0);
    m.set(1, 1, 1);

    let inv = m.inverse();
    assert!(inv.is_some());
    let inv_m = inv.unwrap();
    assert_eq!(inv_m.get(0, 0), 1);
    assert_eq!(inv_m.get(0, 1), -1);
    assert_eq!(inv_m.get(1, 0), 0);
    assert_eq!(inv_m.get(1, 1), 1);
}

#[test]
fn inverse_maps_image_back() {
    let mut m = Matrix::new(2, 2);
    m.set(0, 0, 1);
    m.set(0, 1, 1);
    m.set(1, 1, 1);
    m.set_const(0, 1);
    let inv = m.inverse().unwrap();
    assert_eq!(inv.constant, vec![-1, 0]);
    assert_eq!(inv.apply(&m.apply(&[0, 0])), vec![0, 0]);
    assert_eq!(inv.apply(&m.apply(&[3, -2])), vec![3, -2]);
}

#[test]
fn union_contains_both_operands() {
    let a = AffineDomain::new(
        1,
        0,
        vec![AffineConstraint::inequality(vec![1], 0), AffineConstraint::inequality(vec![-1], -5)],
    );
    let b = AffineDomain::new(
        1,
        0,
        vec![AffineConstraint::inequality(vec![1], 0), AffineConstraint::inequality(vec![-1], -10)],
    );
    let u = a.union(&b);
    assert!(u.contains(&[3]));
    assert!(u.contains(&[8]));
    assert!(!u.contains(&[-1]));
    assert_eq!(u.constraints.len(), 1);
    let i = a.intersection(&b);
    assert!(i.contains(&[3]));
    assert!(!i.contains(&[8]));
}

#[test]
fn iterator_bounds_of_a_box() {
    let d = AffineDomain::new(
        1,
        0,
        vec![AffineConstraint::inequality(vec![1], 0), AffineConstraint::inequality(vec![-1], -5)],
    );
    let (lo, hi) = d.iterator_bounds(0).unwrap();
    assert_eq!((lo.constant, hi.constant), (0, 5));
    assert!(lo.coefficients.is_empty() && hi.coefficients.is_empty());
    assert!(d.iterator_bounds(1).is_none());
    assert!(AffineDomain::universe(1, 0).iterator_bounds(0).is_none());
}

#[test]
fn composition_applies_in_turn() {
    let mut a = Matrix::new(2, 2);
    a.set(0, 0, 1);
    a.set(0, 1, 2);
    a.set(1, 0, 3);
    a.set(1, 1, 4);
    a.set_const(1, 5);
    let mut b = Matrix::new(2, 2);
    b.set(0, 0, 2);
    b.set(1, 1, 2);
    b.set_const(0, -1);
    let c = a.compose(&b);
    assert_eq!((c.get(0, 0), c.get(0, 1), c.get(1, 0), c.get(1, 1)), (2, 4, 6, 8));
    for x in [[0, 0], [1, 1], [-3, 7]] {
        assert_eq!(c.apply(&x), a.apply(&b.apply(&x)));
    }
}

#[test]
fn projection_keeps_points() {
    let d = AffineDomain::new(
        2,
        2,
        vec![
            AffineConstraint::inequality(vec![1, 0, 0, 0], 0),
            AffineConstraint::inequality(vec![-1, 0, 1, 0], 1),
            AffineConstraint::inequality(vec![0, 1, 0, 0], 0),
            AffineConstraint::inequality(vec![0, -1, 0, 1], 1),
        ],
    );
    assert!(d.contains(&[5, 3, 10, 20]));
    let p = d.project(&[1]);
    assert_eq!((p.dims, p.n_iter, p.n_param), (3, 1, 2));
    assert!(p.contains(&[5, 10, 20]));
    assert!(!p.contains(&[10, 10, 20]));
}
