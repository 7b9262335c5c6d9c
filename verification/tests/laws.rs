use std::collections::HashMap;
use std::cmp::Ordering;
use struqture_spins::decoherence_product::{anti_commutator_entries, lindblad_term_entry};
use struqture_spins::{DecoherenceProduct, PauliProduct, Phase, PlusMinusProduct, SinglePauliOperator};

#[test]
fn law_read_after_set() {
    let pp = PauliProduct::new().x(1).z(4);
    let set = pp.clone().set_pauli(2, SinglePauliOperator::Y);
    assert_eq!(set.get(&2), Some(&SinglePauliOperator::Y));
    assert_eq!(set.get(&1), pp.get(&1));
    assert_eq!(set.get(&4), pp.get(&4));
    assert_eq!(set.get(&3), None);
    let cleared = set.set_pauli(1, SinglePauliOperator::Identity);
    assert_eq!(cleared.get(&1), None);
}

#[test]
fn law_multiplication_unit_and_associativity() {
    let a = PauliProduct::new().x(0).y(1);
    let b = PauliProduct::new().y(0).z(2);
    let c = PauliProduct::new().z(0).x(1).x(2);
    assert_eq!(PauliProduct::multiply(PauliProduct::new(), a.clone()), (a.clone(), Phase::One));
    assert_eq!(PauliProduct::multiply(a.clone(), PauliProduct::new()), (a.clone(), Phase::One));
    let (ab, p_ab) = PauliProduct::multiply(a.clone(), b.clone());
    let (ab_c, p_ab_c) = PauliProduct::multiply(ab, c.clone());
    let (bc, p_bc) = PauliProduct::multiply(b, c);
    let (a_bc, p_a_bc) = PauliProduct::multiply(a, bc);
    assert_eq!(ab_c, a_bc);
    assert_eq!(p_ab.mul(p_ab_c), p_bc.mul(p_a_bc));
}

#[test]
fn law_decoherence_multiplication_associativity() {
    let a = DecoherenceProduct::new().iy(0).x(1);
    let b = DecoherenceProduct::new().z(0).iy(1);
    let c = DecoherenceProduct::new().iy(0).iy(1);
    let (ab, p_ab) = DecoherenceProduct::multiply(a.clone(), b.clone());
    let (ab_c, p_ab_c) = DecoherenceProduct::multiply(ab, c.clone());
    let (bc, p_bc) = DecoherenceProduct::multiply(b, c);
    let (a_bc, p_a_bc) = DecoherenceProduct::multiply(a, bc);
    assert_eq!(ab_c, a_bc);
    assert_eq!(p_ab.mul(p_ab_c), p_bc.mul(p_a_bc));
}

#[test]
fn law_hermitian_conjugate_involution() {
    let dp = DecoherenceProduct::new().iy(0).x(2).iy(5);
    let (once, s1) = dp.hermitian_conjugate();
    let (twice, s2) = once.hermitian_conjugate();
    assert_eq!(twice, dp);
    assert_eq!(s1 * s2, 1);
    let pm = PlusMinusProduct::new().plus(0).z(1).minus(2);
    assert_eq!(pm.hermitian_conjugate().0.hermitian_conjugate().0, pm);
}

#[test]
fn law_order_antisymmetric() {
    let products = [
        PauliProduct::new(),
        PauliProduct::new().x(0),
        PauliProduct::new().z(0),
        PauliProduct::new().x(0).y(3),
        PauliProduct::new().y(1).y(3),
    ];
    for a in products.iter() {
        for b in products.iter() {
            assert_eq!(a.compare(b), b.compare(a).reverse());
            assert_eq!(a.compare(b) == Ordering::Equal, a == b);
        }
    }
}

#[test]
fn law_concatenate_disjoint_is_product() {
    let a = PauliProduct::new().x(0).z(5);
    let b = PauliProduct::new().y(2).x(7);
    let joined = a.concatenate(b.clone()).unwrap();
    let (prod, phase) = PauliProduct::multiply(a.clone(), b.clone());
    assert_eq!(joined, prod);
    assert_eq!(phase, Phase::One);
    for k in 0..8 {
        let expected = if a.get(&k).is_some() { a.get(&k) } else { b.get(&k) };
        assert_eq!(joined.get(&k), expected);
    }
}

#[test]
fn law_remap_injective_moves_entries() {
    let pp = PauliProduct::new().x(0).y(1).z(2);
    let mut mapping: HashMap<usize, usize> = HashMap::new();
    mapping.insert(0, 9);
    mapping.insert(1, 0);
    let remapped = pp.remap_qubits(&mapping);
    assert_eq!(remapped.get(&9), Some(&SinglePauliOperator::X));
    assert_eq!(remapped.get(&0), Some(&SinglePauliOperator::Y));
    assert_eq!(remapped.get(&2), Some(&SinglePauliOperator::Z));
    assert_eq!(remapped.len(), 3);
    let mut fixed: HashMap<usize, usize> = HashMap::new();
    fixed.insert(1, 1);
    fixed.insert(8, 3);
    assert_eq!(pp.remap_qubits(&fixed), pp);
}

#[test]
fn law_matrix_rows_stay_in_range() {
    let pp = PauliProduct::new().x(0).y(1).z(2);
    let mut columns: Vec<usize> = Vec::new();
    for row in 0..8 {
        let (column, _) = pp.matrix_entry_on_row(row);
        assert!(column < 8);
        columns.push(column);
    }
    columns.sort();
    assert_eq!(columns, (0..8).collect::<Vec<usize>>());
}

#[test]
fn law_superoperator_rows_stay_in_range() {
    let pp = PauliProduct::new().x(0).y(1);
    let left = DecoherenceProduct::new().iy(0).z(1);
    let right = DecoherenceProduct::new().x(1);
    for row in 0..16 {
        for (column, _) in pp.superoperator_entries_on_row(row, 2) {
            assert!(column < 16);
        }
        let (column, _) = lindblad_term_entry(&left, &right, row, 2);
        assert!(column < 16);
    }
}

#[test]
fn law_order_transitive_and_operators() {
    let a = PauliProduct::new().x(4);
    let b = PauliProduct::new().y(0).x(1);
    let c = PauliProduct::new().y(0).z(1);
    assert!(a < b);
    assert!(b < c);
    assert!(a < c);
    assert!(c > a);
    assert!(b <= b.clone());
    assert_eq!(a.partial_cmp(&c), Some(Ordering::Less));
    let d1 = DecoherenceProduct::new().x(0);
    let d2 = DecoherenceProduct::new().z(0);
    assert!(d1 < d2);
    let p1 = PlusMinusProduct::new().plus(3);
    let p2 = PlusMinusProduct::new().minus(3);
    assert!(p1 < p2);
}

#[test]
fn law_multiplication_operator_matches_multiply() {
    let a = PauliProduct::new().x(0).y(1);
    let b = PauliProduct::new().y(0).z(2);
    assert_eq!(a.clone() * b.clone(), PauliProduct::multiply(a, b));
    let c = DecoherenceProduct::new().iy(0);
    let d = DecoherenceProduct::new().x(0).z(1);
    assert_eq!(c.clone() * d.clone(), DecoherenceProduct::multiply(c, d));
}

#[test]
fn law_entries_rebuild_the_product() {
    let pp = PauliProduct::new().x(0).y(4).z(9);
    assert_eq!(PauliProduct::from_iter(pp.as_slice().to_vec()), pp);
    let dp = DecoherenceProduct::new().iy(1).z(2);
    assert_eq!(DecoherenceProduct::from_iter(dp.as_slice().to_vec()), dp);
    let pm = PlusMinusProduct::new().minus(0).plus(8);
    assert_eq!(PlusMinusProduct::from_iter(pm.as_slice().to_vec()), pm);
}

#[test]
fn law_decoherence_multiplication_matches_pauli() {
    let a = DecoherenceProduct::new().x(0).iy(1);
    let b = DecoherenceProduct::new().iy(0).z(1).iy(3);
    let (pa, fa) = DecoherenceProduct::decoherence_to_spin(a.clone());
    let (pb, fb) = DecoherenceProduct::decoherence_to_spin(b.clone());
    let (pab, fab) = PauliProduct::multiply(pa, pb);
    let (d, sd) = DecoherenceProduct::multiply(a, b);
    let (pd, fd) = DecoherenceProduct::decoherence_to_spin(d);
    assert_eq!(pd, pab);
    assert_eq!(fa.mul(fb).mul(fab), sd.mul(fd));
    assert_eq!(pd.to_string(), "0Z1X3Y");
}

fn value(p: struqture_spins::Prefactor) -> (f64, f64) {
    let (re, im) = p.phase.parts();
    let scale = 0.5_f64.powi(p.halvings as i32);
    (re as f64 * scale, im as f64 * scale)
}

fn times(a: (f64, f64), b: (f64, f64)) -> (f64, f64) {
    (a.0 * b.0 - a.1 * b.1, a.0 * b.1 + a.1 * b.0)
}

#[test]
fn law_basis_changes_invert() {
    let pp = PauliProduct::new().x(0).y(1).z(3);
    let mut sums: HashMap<String, (f64, f64)> = HashMap::new();
    for (pm, c) in PlusMinusProduct::from_pauli_product(pp.clone()) {
        for (back, d) in pm.to_pauli_products() {
            let v = times(value(c), value(d));
            let entry = sums.entry(back.to_string()).or_insert((0.0, 0.0));
            entry.0 += v.0;
            entry.1 += v.1;
        }
    }
    for (key, v) in sums {
        if key == pp.to_string() {
            assert_eq!(v, (1.0, 0.0));
        } else {
            assert_eq!(v, (0.0, 0.0));
        }
    }
    let pm = PlusMinusProduct::new().plus(0).minus(2).z(3);
    let mut sums: HashMap<String, (f64, f64)> = HashMap::new();
    for (dp, c) in pm.clone().to_decoherence_products() {
        for (back, d) in PlusMinusProduct::from_decoherence_product(dp) {
            let v = times(value(c), value(d));
            let entry = sums.entry(back.to_string()).or_insert((0.0, 0.0));
            entry.0 += v.0;
            entry.1 += v.1;
        }
    }
    for (key, v) in sums {
        if key == pm.to_string() {
            assert_eq!(v, (1.0, 0.0));
        } else {
            assert_eq!(v, (0.0, 0.0));
        }
    }
}

#[test]
fn law_setting_two_spins_commutes() {
    let base = PauliProduct::new().x(1).z(4).y(7);
    let cases = [
        (2, SinglePauliOperator::Y, 5, SinglePauliOperator::X),
        (1, SinglePauliOperator::Z, 4, SinglePauliOperator::Identity),
        (0, SinglePauliOperator::X, 9, SinglePauliOperator::Z),
        (7, SinglePauliOperator::Identity, 1, SinglePauliOperator::Identity),
        (4, SinglePauliOperator::X, 5, SinglePauliOperator::Y),
    ];
    for (i, a, j, b) in cases {
        let ij = base.clone().set_pauli(i, a).set_pauli(j, b);
        let ji = base.clone().set_pauli(j, b).set_pauli(i, a);
        assert_eq!(ij, ji);
        assert_eq!(ij.get(&i), if a == SinglePauliOperator::Identity { None } else { Some(&a) });
        assert_eq!(ij.get(&j), if b == SinglePauliOperator::Identity { None } else { Some(&b) });
    }
    let dp = DecoherenceProduct::new().iy(3);
    let one = dp.clone().x(0).z(6);
    let other = dp.z(6).x(0);
    assert_eq!(one, other);
    assert_eq!(one.to_string(), "0X3iY6Z");
}

/// The dense matrix of a product of 2x2 matrices, spin `k` being bit `k` of
/// the basis index, entries as (real, imaginary) integer pairs.
fn kron_dense(factors: &[[[(i32, i32); 2]; 2]]) -> Vec<Vec<(i32, i32)>> {
    let dim = 1usize << factors.len();
    let mut m = vec![vec![(0, 0); dim]; dim];
    for row in 0..dim {
        for col in 0..dim {
            let mut acc = (1, 0);
            for (k, f) in factors.iter().enumerate() {
                let (a, b) = f[(row >> k) & 1][(col >> k) & 1];
                acc = (acc.0 * a - acc.1 * b, acc.0 * b + acc.1 * a);
            }
            m[row][col] = acc;
        }
    }
    m
}

#[test]
fn law_matrix_row_is_kronecker_row() {
    let id = [[(1, 0), (0, 0)], [(0, 0), (1, 0)]];
    let x = [[(0, 0), (1, 0)], [(1, 0), (0, 0)]];
    let y = [[(0, 0), (0, -1)], [(0, 1), (0, 0)]];
    let z = [[(1, 0), (0, 0)], [(0, 0), (-1, 0)]];
    let pp = PauliProduct::new().z(0).x(1).y(3);
    let dense = kron_dense(&[z, x, id, y]);
    for row in 0..16 {
        let (column, phase) = pp.matrix_entry_on_row(row);
        let (re, im) = phase.parts();
        for col in 0..16 {
            let expected = if col == column { (re as i32, im as i32) } else { (0, 0) };
            assert_eq!(dense[row][col], expected);
        }
    }
}

fn times_int(a: (i32, i32), b: (i32, i32)) -> (i32, i32) {
    (a.0 * b.0 - a.1 * b.1, a.0 * b.1 + a.1 * b.0)
}

fn transposed(m: [[(i32, i32); 2]; 2]) -> [[(i32, i32); 2]; 2] {
    [[m[0][0], m[1][0]], [m[0][1], m[1][1]]]
}

#[test]
fn law_superoperator_rows_are_kronecker_rows() {
    let id = [[(1, 0), (0, 0)], [(0, 0), (1, 0)]];
    let x = [[(0, 0), (1, 0)], [(1, 0), (0, 0)]];
    let y = [[(0, 0), (0, -1)], [(0, 1), (0, 0)]];
    let pp = PauliProduct::new().x(0).y(1);
    // H (x) 1: H on the high half of the index; 1 (x) H^T: H^T on the low half
    let left = kron_dense(&[id, id, x, y]);
    let right = kron_dense(&[transposed(x), transposed(y), id, id]);
    for row in 0..16 {
        let entries = pp.superoperator_entries_on_row(row, 2);
        assert_eq!(entries.len(), 2);
        let (c1, p1) = entries[0];
        let (c2, p2) = entries[1];
        let (r1, i1) = p1.parts();
        let (r2, i2) = p2.parts();
        for col in 0..16 {
            // the first entry is -i H (x) 1, the second i 1 (x) H^T
            let e1 = times_int(left[row][col], (0, -1));
            let e2 = times_int(right[row][col], (0, 1));
            assert_eq!(e1, if col == c1 { (r1 as i32, i1 as i32) } else { (0, 0) });
            assert_eq!(e2, if col == c2 { (r2 as i32, i2 as i32) } else { (0, 0) });
        }
    }
}

#[test]
fn law_lindblad_rows_are_kronecker_rows() {
    let id = [[(1, 0), (0, 0)], [(0, 0), (1, 0)]];
    let x = [[(0, 0), (1, 0)], [(1, 0), (0, 0)]];
    let iy = [[(0, 0), (1, 0)], [(-1, 0), (0, 0)]];
    let z = [[(1, 0), (0, 0)], [(0, 0), (-1, 0)]];
    let left = DecoherenceProduct::new().iy(0).z(1);
    let right = DecoherenceProduct::new().x(1);
    // left on the high half of the index, right on the low half
    let dense = kron_dense(&[id, x, iy, z]);
    for row in 0..16 {
        let (column, phase) = lindblad_term_entry(&left, &right, row, 2);
        let (re, im) = phase.parts();
        for col in 0..16 {
            let expected = if col == column { (re as i32, im as i32) } else { (0, 0) };
            assert_eq!(dense[row][col], expected);
        }
    }
}

#[test]
fn law_anti_commutator_rows_are_kronecker_rows() {
    let x = [[(0, 0), (1, 0)], [(1, 0), (0, 0)]];
    let iy = [[(0, 0), (1, 0)], [(-1, 0), (0, 0)]];
    let z = [[(1, 0), (0, 0)], [(0, 0), (-1, 0)]];
    let left = DecoherenceProduct::new().x(0).z(1);
    let right = DecoherenceProduct::new().iy(0).x(1);
    let l = kron_dense(&[x, z]);
    let r = kron_dense(&[iy, x]);
    // A = right^dagger left; the matrices are real, so the adjoint is the transpose
    let mut a = vec![vec![(0, 0); 4]; 4];
    for i in 0..4 {
        for j in 0..4 {
            let mut acc = (0, 0);
            for m in 0..4 {
                let p = times_int(r[m][i], l[m][j]);
                acc = (acc.0 + p.0, acc.1 + p.1);
            }
            a[i][j] = acc;
        }
    }
    for row in 0..16 {
        let entries = anti_commutator_entries(&left, &right, row, 2);
        assert_eq!(entries.len(), 2);
        let (hi, lo) = (row / 4, row % 4);
        for (k, (column, prefactor)) in entries.iter().enumerate() {
            assert_eq!(prefactor.halvings, 1);
            let (re, im) = prefactor.phase.parts();
            for col in 0..16 {
                let (chi, clo) = (col / 4, col % 4);
                // -1/2 (A (x) 1) and -1/2 (1 (x) A^T), as multiples of -1/2
                let element = if k == 0 {
                    if lo == clo { a[hi][chi] } else { (0, 0) }
                } else if hi == chi {
                    a[clo][lo]
                } else {
                    (0, 0)
                };
                let expected = if col == *column { (-(re as i32), -(im as i32)) } else { (0, 0) };
                assert_eq!(element, expected);
            }
        }
    }
}
