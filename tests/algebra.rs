use wire3d::error::GeomError;
use wire3d::fixed::ONE;
use wire3d::matrix::{arr, Matrix};
use wire3d::vec3::Vec3;

fn v(x: i64, y: i64, z: i64) -> Vec3 {
    Vec3::new(x * ONE, y * ONE, z * ONE)
}

fn m(rows: &[&[i64]]) -> Matrix {
    arr(rows.iter().map(|r| r.iter().map(|x| x * ONE).collect()).collect()).unwrap()
}

#[test]
fn new_matrix_is_zero_filled() {
    let z = Matrix::new(vec![3, 2]);
    assert_eq!(z.cols(), 3);
    assert_eq!(z.rows(), 2);
    for r in 0..2 {
        for c in 0..3 {
            assert_eq!(z.get(&vec![c, r]), Ok(0));
        }
    }
}

#[test]
fn from_arr_rejects_ragged_rows() {
    let r = Matrix::from_arr(vec![vec![1, 2, 3], vec![4, 5]]);
    assert_eq!(r.unwrap_err(), GeomError::ShapeMismatch);
}

#[test]
fn from_arr_rejects_entry_out_of_range() {
    let r = Matrix::from_arr(vec![vec![1, i64::MAX]]);
    assert_eq!(r.unwrap_err(), GeomError::OutOfRange);
}

#[test]
fn get_and_set_are_bounds_checked() {
    let mut a = m(&[&[1, 2], &[3, 4], &[5, 6]]);
    assert_eq!(a.cols(), 2);
    assert_eq!(a.rows(), 3);
    assert_eq!(a.get(&vec![1, 2]), Ok(6 * ONE));
    assert_eq!(a.get(&vec![2, 0]), Err(GeomError::IndexOutOfBounds));
    assert_eq!(a.get(&vec![0, 3]), Err(GeomError::IndexOutOfBounds));
    assert_eq!(a.get(&vec![0]), Err(GeomError::IndexOutOfBounds));
    assert_eq!(a.set(&vec![0, 1], 9), Ok(()));
    assert_eq!(a.get(&vec![0, 1]), Ok(9));
    assert_eq!(a.set(&vec![5, 1], 9), Err(GeomError::IndexOutOfBounds));
    assert_eq!(a.set(&vec![0, 0], i64::MIN), Err(GeomError::OutOfRange));
    assert_eq!(a.get(&vec![0, 0]), Ok(ONE));
}

#[test]
fn add_sums_entries_and_checks_shape() {
    let a = m(&[&[1, 2], &[3, 4]]);
    let b = m(&[&[10, 20], &[30, 40]]);
    let s = a.add(&b).unwrap();
    assert_eq!(s.get(&vec![1, 1]), Ok(44 * ONE));
    assert_eq!(s.get(&vec![0, 1]), Ok(33 * ONE));
    let c = m(&[&[1, 2, 3]]);
    assert_eq!(a.add(&c).unwrap_err(), GeomError::ShapeMismatch);
}

#[test]
fn add_reports_overflowing_sum() {
    let big = Matrix::from_arr(vec![vec![4294967296]]).unwrap();
    assert_eq!(big.add(&big).unwrap_err(), GeomError::OutOfRange);
}

#[test]
fn transpose_swaps_dimensions() {
    let a = m(&[&[1, 2, 3], &[4, 5, 6]]);
    let t = a.transpose();
    assert_eq!(t.cols(), 2);
    assert_eq!(t.rows(), 3);
    assert_eq!(t.get(&vec![1, 0]), Ok(4 * ONE));
    assert_eq!(t.get(&vec![0, 2]), Ok(3 * ONE));
}

#[test]
fn dot_is_the_matrix_product() {
    let a = m(&[&[1, 2], &[3, 4]]);
    let b = m(&[&[5, 6], &[7, 8]]);
    let p = a.dot(&b).unwrap();
    assert_eq!(p.get(&vec![0, 0]), Ok(19 * ONE));
    assert_eq!(p.get(&vec![1, 0]), Ok(22 * ONE));
    assert_eq!(p.get(&vec![0, 1]), Ok(43 * ONE));
    assert_eq!(p.get(&vec![1, 1]), Ok(50 * ONE));
    let col = m(&[&[1], &[1]]);
    let q = a.dot(&col).unwrap();
    assert_eq!((q.cols(), q.rows()), (1, 2));
    assert_eq!(q.get(&vec![0, 1]), Ok(7 * ONE));
}

#[test]
fn dot_rounds_fixed_point_products_toward_zero() {
    let a = Matrix::from_arr(vec![vec![ONE / 2]]).unwrap();
    let b = Matrix::from_arr(vec![vec![3]]).unwrap();
    assert_eq!(a.dot(&b).unwrap().get(&vec![0, 0]), Ok(1));
    let c = Matrix::from_arr(vec![vec![-3]]).unwrap();
    assert_eq!(a.dot(&c).unwrap().get(&vec![0, 0]), Ok(-1));
}

#[test]
fn dot_checks_shapes_and_range() {
    let a = m(&[&[1, 2, 3]]);
    let b = m(&[&[1, 2, 3]]);
    assert_eq!(a.dot(&b).unwrap_err(), GeomError::ShapeMismatch);
    let big = Matrix::from_arr(vec![vec![4294967296]]).unwrap();
    assert_eq!(big.dot(&big).unwrap_err(), GeomError::OutOfRange);
}

#[test]
fn matrix_multiply_is_associative_within_rounding() {
    let a = Matrix::from_arr(vec![vec![70000, -12345, 3], vec![5, 65536, -40000]]).unwrap();
    let b = Matrix::from_arr(vec![vec![33333, 1], vec![-7, 99999], vec![65536, 12]]).unwrap();
    let c = Matrix::from_arr(vec![vec![1234, -65536, 777], vec![42, 31337, -5]]).unwrap();
    let left = a.dot(&b).unwrap().dot(&c).unwrap();
    let right = a.dot(&b.dot(&c).unwrap()).unwrap();
    for r in 0..2 {
        for col in 0..3 {
            let x = left.get(&vec![col, r]).unwrap();
            let y = right.get(&vec![col, r]).unwrap();
            assert!((x - y).abs() <= 4, "({}, {}): {} vs {}", r, col, x, y);
        }
    }
}

#[test]
fn vector_arithmetic_is_componentwise() {
    let a = v(1, 2, 3);
    let b = v(4, -5, 6);
    assert_eq!(a.add(b), v(5, -3, 9));
    assert_eq!(a.sub(b), v(-3, 7, -3));
    assert_eq!(a.mul(b), v(4, -10, 18));
    assert_eq!(v(8, 9, -12).div(v(2, 3, 4)), Some(v(4, 3, -3)));
    assert_eq!(v(8, 9, -12).div(v(2, 0, 4)), None);
    assert_eq!(Vec3::zero(), Vec3::new(0, 0, 0));
}

#[test]
fn dot_and_cross_products() {
    let a = v(1, 2, 3);
    let b = v(4, 5, 6);
    assert_eq!(a.dot(b), 32 * ONE);
    assert_eq!(a.cross(&b), v(-3, 6, -3));
    assert_eq!(v(1, 0, 0).cross(&v(0, 1, 0)), v(0, 0, 1));
}

#[test]
fn cross_is_anti_commutative() {
    let a = Vec3::new(12345, -67890, 4242);
    let b = Vec3::new(-999, 31337, 70000);
    let ab = a.cross(&b);
    let ba = b.cross(&a);
    assert_eq!(ab, Vec3::new(-ba.x, -ba.y, -ba.z));
}

#[test]
fn length_and_normalize() {
    assert_eq!(v(3, 4, 0).length(), 5 * ONE);
    let mut a = v(0, 3, 4);
    let n = a.normalize().unwrap();
    assert_eq!(n, Vec3::new(0, 39321, 52428));
    assert_eq!(a, n);
}

#[test]
fn normalize_rejects_zero_vector() {
    let mut z = Vec3::zero();
    assert_eq!(z.normalize(), Err(GeomError::DegenerateVector));
    assert_eq!(z, Vec3::zero());
}

#[test]
fn matrix_multiply_is_exactly_associative_on_whole_numbers() {
    let a = m(&[&[1, 2, 0, -1], &[3, 0, 1, 2], &[0, 1, 1, 0], &[2, -2, 0, 1]]);
    let b = m(&[&[0, 1, 2, 3], &[1, 0, -1, 0], &[2, 2, 0, 1], &[-1, 0, 1, 1]]);
    let c = m(&[&[1, 0, 0, 4], &[0, 3, 1, 0], &[2, 0, 1, -2], &[0, 1, 0, 1]]);
    let left = a.dot(&b).unwrap().dot(&c).unwrap();
    let right = a.dot(&b.dot(&c).unwrap()).unwrap();
    for r in 0..4 {
        for col in 0..4 {
            assert_eq!(left.get(&vec![col, r]), right.get(&vec![col, r]));
        }
    }
    assert_eq!(left.get(&vec![0, 0]), Ok(ONE));
}

fn norm_sq(v: Vec3) -> i128 {
    (v.x as i128).pow(2) + (v.y as i128).pow(2) + (v.z as i128).pow(2)
}

#[test]
fn normalize_keeps_tiny_vectors_at_unit_length() {
    let mut a = Vec3::new(1, 1, 0);
    let n = a.normalize().unwrap();
    assert_eq!(n, Vec3::new(46340, 46340, 0));
    let one = ONE as i128;
    assert!((norm_sq(n) - one * one).abs() <= 8 * one);
}

#[test]
fn normalize_gives_unit_length_and_same_direction() {
    for (x, y, z) in [(3, -7, 11), (123456789, 5, -42), (-1, 0, 0), (70000, 70000, 70000)] {
        let mut a = Vec3::new(x, y, z);
        let n = a.normalize().unwrap();
        let one = ONE as i128;
        assert!((norm_sq(n) - one * one).abs() <= 8 * one, "{:?}", n);
        // Same direction: no component changes sign (a tiny one may round to zero).
        for (r, c) in [(n.x, x), (n.y, y), (n.z, z)] {
            assert!(r == 0 || r.signum() == c.signum(), "{:?}", n);
        }
        assert!(n.x * x + n.y * y + n.z * z > 0);
    }
}

#[test]
fn from_fn_fills_by_column_and_row() {
    let a = Matrix::from_fn(vec![3, 2], |p: Vec<usize>| (p[0] as i64 + 10 * p[1] as i64) * ONE).unwrap();
    assert_eq!((a.cols(), a.rows()), (3, 2));
    assert_eq!(a.get(&vec![2, 0]), Ok(2 * ONE));
    assert_eq!(a.get(&vec![1, 1]), Ok(11 * ONE));
    let big = Matrix::from_fn(vec![2, 2], |p: Vec<usize>| if p[1] == 1 { i64::MAX } else { 0 });
    assert_eq!(big.unwrap_err(), GeomError::OutOfRange);
}
