use digit_net::matrix::{Matrix, MatrixError};

fn m(rows: Vec<Vec<f64>>) -> Matrix<f64> {
    Matrix::from(rows).unwrap()
}

fn mul(a: &Matrix<f64>, b: &Matrix<f64>) -> Matrix<f64> {
    a.multiply(b, 0.0, |x, y| x * y, |x, y| x + y).unwrap()
}

#[test]
fn from_checks_the_grid() {
    let a = m(vec![vec![1.0, 2.0, 3.0], vec![4.0, 5.0, 6.0]]);
    assert_eq!((a.rows, a.cols), (2, 3));
    assert_eq!(Matrix::<f64>::from(vec![]).err(), Some(MatrixError::Empty));
    assert_eq!(
        Matrix::from(vec![vec![1.0, 2.0], vec![3.0]]).err(),
        Some(MatrixError::Ragged)
    );
}

#[test]
fn filled_has_the_shape() {
    let z = Matrix::filled(3, 2, 0.0f64);
    assert_eq!((z.rows, z.cols), (3, 2));
    assert_eq!(z.data, vec![vec![0.0; 2]; 3]);
}

#[test]
fn multiply_known_product() {
    let a = m(vec![vec![1.0, 2.0], vec![3.0, 4.0]]);
    let b = m(vec![vec![5.0, 6.0, 7.0], vec![8.0, 9.0, 10.0]]);
    let c = mul(&a, &b);
    assert_eq!(c.data, vec![vec![21.0, 24.0, 27.0], vec![47.0, 54.0, 61.0]]);
    assert_eq!(
        b.multiply(&a, 0.0, |x, y| x * y, |x, y| x + y).err(),
        Some(MatrixError::ShapeMismatch)
    );
}

#[test]
fn multiply_identity_and_associativity() {
    let a = m(vec![vec![1.0, -2.0], vec![0.5, 4.0]]);
    let b = m(vec![vec![3.0, 1.0, 0.0], vec![2.0, -1.0, 5.0]]);
    let c = m(vec![vec![1.0], vec![2.0], vec![-3.0]]);
    let id = m(vec![vec![1.0, 0.0], vec![0.0, 1.0]]);
    assert_eq!(mul(&id, &a).data, a.data);
    assert_eq!(mul(&a, &id).data, a.data);
    assert_eq!(mul(&mul(&a, &b), &c).data, mul(&a, &mul(&b, &c)).data);
}

#[test]
fn transpose_of_product() {
    let a = m(vec![vec![1.0, 2.0, 3.0], vec![4.0, 5.0, 6.0]]);
    let b = m(vec![vec![7.0], vec![8.0], vec![9.0]]);
    let left = mul(&a, &b).transpose();
    let right = mul(&b.transpose(), &a.transpose());
    assert_eq!(left.data, right.data);
    assert_eq!(left.data, vec![vec![50.0, 122.0]]);
}

#[test]
fn transpose_twice_is_identity() {
    let a = m(vec![vec![1.0, 2.0, 3.0], vec![4.0, 5.0, 6.0]]);
    let t = a.transpose();
    assert_eq!(t.data, vec![vec![1.0, 4.0], vec![2.0, 5.0], vec![3.0, 6.0]]);
    assert_eq!((t.rows, t.cols), (3, 2));
    assert_eq!(t.transpose().data, a.data);
}

#[test]
fn add_then_substract_gives_back() {
    let a = m(vec![vec![0.1, 0.2], vec![-3.5, 1e6]]);
    let b = m(vec![vec![0.7, -0.3], vec![2.25, 1e-3]]);
    let sum = a.add(&b, |x, y| x + y).unwrap();
    assert_eq!(sum.data[1][0], -1.25);
    let back = sum.substract(&b, |x, y| x - y).unwrap();
    for i in 0..2 {
        for j in 0..2 {
            assert!((back.data[i][j] - a.data[i][j]).abs() < 1e-9);
        }
    }
    let c = m(vec![vec![1.0, 2.0]]);
    assert_eq!(a.add(&c, |x, y| x + y).err(), Some(MatrixError::ShapeMismatch));
    assert_eq!(a.substract(&c, |x, y| x - y).err(), Some(MatrixError::ShapeMismatch));
}

#[test]
fn map_applies_everywhere() {
    let a = m(vec![vec![1.0, -2.0], vec![3.0, -4.0]]);
    let r = a.map(|x| if x > 0.0 { x } else { 0.01 * x });
    assert_eq!(r.data, vec![vec![1.0, -0.02], vec![3.0, -0.04]]);
}
