use nn::NNMatrix;
use rand::SeedableRng;

fn bits(v: &[f32]) -> Vec<u32> {
    v.iter().map(|x| x.to_bits()).collect()
}

fn mat(v: &[f32], rows: usize, cols: usize, stride: usize) -> NNMatrix {
    let b = bits(v);
    NNMatrix::new(Some(&b[..]), rows, cols, stride)
}

fn cell(m: &NNMatrix, r: usize, c: usize) -> f32 {
    f32::from_bits(m.get_at(r, c))
}

#[test]
fn empty_is_zero_filled() {
    let m = NNMatrix::empty(2, 3);
    assert_eq!(m.rows(), 2);
    assert_eq!(m.cols(), 3);
    for r in 0..2 {
        for c in 0..3 {
            assert_eq!(cell(&m, r, c), 0.0);
        }
    }
}

#[test]
fn new_reads_through_stride() {
    // rows of three entries; the matrix views only the first two columns
    let m = mat(&[1.0, 2.0, 9.0, 3.0, 4.0, 9.0], 2, 2, 3);
    assert_eq!(cell(&m, 0, 0), 1.0);
    assert_eq!(cell(&m, 0, 1), 2.0);
    assert_eq!(cell(&m, 1, 0), 3.0);
    assert_eq!(cell(&m, 1, 1), 4.0);
}

#[test]
fn set_and_get_round_trip() {
    let mut m = NNMatrix::empty(2, 2);
    m.set_at(1, 0, 7.25f32.to_bits());
    assert_eq!(cell(&m, 1, 0), 7.25);
    assert_eq!(cell(&m, 0, 0), 0.0);
    *m.get_mut_at(0, 1) = 3.5f32.to_bits();
    assert_eq!(cell(&m, 0, 1), 3.5);
}

#[test]
fn get_row_returns_the_row() {
    let m = mat(&[1.0, 2.0, 9.0, 3.0, 4.0, 9.0], 2, 2, 3);
    let r = m.get_row(1);
    assert_eq!(r.len(), 2);
    assert_eq!(f32::from_bits(r[0]), 3.0);
    assert_eq!(f32::from_bits(r[1]), 4.0);
}

#[test]
fn row_copy_read_round_trip() {
    // a dataset row staged into a row vector reads back exactly
    let df = mat(&[0.5, -1.25, 9.0, 2.0, 4.75, 9.0], 2, 2, 3);
    let mut dst = NNMatrix::empty(1, 2);
    dst.copy_row_from(&df, 1);
    let r = dst.get_row(0);
    assert_eq!(f32::from_bits(r[0]), 2.0);
    assert_eq!(f32::from_bits(r[1]), 4.75);
    let mut dst2 = NNMatrix::empty(1, 2);
    df.copy_row_to(&mut dst2, 0);
    assert_eq!(cell(&dst2, 0, 0), 0.5);
    assert_eq!(cell(&dst2, 0, 1), -1.25);
}

#[test]
fn scalar_ops_elementwise() {
    let m = mat(&[1.0, 2.0, 3.0, 4.0], 2, 2, 2);
    let p = m.mul_scalar(2.0f32.to_bits());
    assert_eq!(cell(&p, 0, 0), 2.0);
    assert_eq!(cell(&p, 1, 1), 8.0);
    let s = m.add_scalar(0.5f32.to_bits());
    assert_eq!(cell(&s, 0, 1), 2.5);
    let mut q = mat(&[1.0, 2.0, 3.0, 4.0], 2, 2, 2);
    q.mul_assign_scalar(3.0f32.to_bits());
    assert_eq!(cell(&q, 1, 0), 9.0);
    let mut a = mat(&[1.0, 2.0, 3.0, 4.0], 2, 2, 2);
    a.add_assign_scalar(1.0f32.to_bits());
    assert_eq!(cell(&a, 0, 0), 2.0);
}

#[test]
fn matrix_addition_commutative_and_shape_preserving() {
    let a = mat(&[1.0, 2.5, -3.0, 4.0], 2, 2, 2);
    let b = mat(&[0.125, -2.0, 10.0, 0.5], 2, 2, 2);
    let ab = a.add_mat(&b);
    let ba = b.add_mat(&a);
    assert_eq!(ab.rows(), 2);
    assert_eq!(ab.cols(), 2);
    for r in 0..2 {
        for c in 0..2 {
            assert_eq!(ab.get_at(r, c), ba.get_at(r, c));
        }
    }
    let mut acc = mat(&[1.0, 2.5, -3.0, 4.0], 2, 2, 2);
    acc.add_assign_mat(&b);
    for r in 0..2 {
        for c in 0..2 {
            assert_eq!(acc.get_at(r, c), ab.get_at(r, c));
        }
    }
}

#[test]
fn matrix_product_exact_small_case() {
    let a = mat(&[1.0, 2.0, 3.0, 4.0], 2, 2, 2);
    let b = mat(&[5.0, 6.0, 7.0, 8.0], 2, 2, 2);
    let c = a.mul_mat(&b);
    assert_eq!(cell(&c, 0, 0), 19.0);
    assert_eq!(cell(&c, 0, 1), 22.0);
    assert_eq!(cell(&c, 1, 0), 43.0);
    assert_eq!(cell(&c, 1, 1), 50.0);
    let mut d = mat(&[1.0, 2.0, 3.0, 4.0], 2, 2, 2);
    d.mul_assign_mat(&b);
    for r in 0..2 {
        for cidx in 0..2 {
            assert_eq!(d.get_at(r, cidx), c.get_at(r, cidx));
        }
    }
}

#[test]
fn matrix_product_identity() {
    let a = mat(&[1.5, -2.0, 0.25, 8.0, 3.5, -0.125], 2, 3, 3);
    let id = NNMatrix::identity(3, 3);
    let c = a.mul_mat(&id);
    for r in 0..2 {
        for cc in 0..3 {
            assert_eq!(c.get_at(r, cc), a.get_at(r, cc));
        }
    }
}

#[test]
fn matrix_product_associative_within_tolerance() {
    let a = mat(&[0.5, 1.25, -0.75, 2.0, 0.125, 1.0], 2, 3, 3);
    let b = mat(&[1.5, -0.5, 2.25, 0.75, -1.0, 0.25], 3, 2, 2);
    let c = mat(&[0.5, 2.0, -1.5, 0.125], 2, 2, 2);
    let left = a.mul_mat(&b).mul_mat(&c);
    let right = a.mul_mat(&b.mul_mat(&c));
    for r in 0..2 {
        for cc in 0..2 {
            let l = f32::from_bits(left.get_at(r, cc));
            let rr = f32::from_bits(right.get_at(r, cc));
            assert!((l - rr).abs() <= 1e-4 * (1.0 + l.abs().max(rr.abs())));
        }
    }
}

#[test]
fn sigmoid_in_place_matches_scalar_sigmoid() {
    let mut m = mat(&[0.0, 1.0, -1.0, 2.0], 2, 2, 2);
    m.sigmoid();
    assert_eq!(m.get_at(0, 0), nn::sigmoid(0.0f32.to_bits()));
    assert_eq!(m.get_at(0, 1), nn::sigmoid(1.0f32.to_bits()));
    assert_eq!(m.get_at(1, 0), nn::sigmoid((-1.0f32).to_bits()));
    assert_eq!(m.get_at(1, 1), nn::sigmoid(2.0f32.to_bits()));
}

#[test]
fn zeroed_resets_every_cell() {
    let mut m = mat(&[1.0, 2.0, 3.0, 4.0], 2, 2, 2);
    m.zeroed();
    for r in 0..2 {
        for c in 0..2 {
            assert_eq!(cell(&m, r, c), 0.0);
        }
    }
}

#[test]
fn identity_pattern() {
    let id = NNMatrix::identity(3, 3);
    for r in 0..3 {
        for c in 0..3 {
            assert_eq!(cell(&id, r, c), if r == c { 1.0 } else { 0.0 });
        }
    }
}

#[test]
fn rand_range_fills_within_range() {
    let mut rng = rand::rngs::StdRng::seed_from_u64(11);
    let mut m = NNMatrix::empty(4, 4);
    m.rand_range(&mut rng, 2.0f32.to_bits(), 4.0f32.to_bits());
    let mut distinct = std::collections::HashSet::new();
    for r in 0..4 {
        for c in 0..4 {
            let v = cell(&m, r, c);
            assert!(v >= 2.0 && v <= 4.0);
            distinct.insert(v.to_bits());
        }
    }
    // a constant fill would fail this: the draws actually vary
    assert!(distinct.len() > 1);
}
