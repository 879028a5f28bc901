use calculator::executor::{ExecutionError, MathType};
use calculator::number::Number;

fn num(n: i64, d: i64) -> MathType {
    MathType::Number(Number { num: n, den: d })
}

fn vector(parts: &[i64]) -> MathType {
    MathType::Vector(parts.iter().map(|&n| Number { num: n, den: 1 }).collect())
}

fn matrix(cols: &[&[i64]]) -> MathType {
    MathType::Matrix(
        cols.iter()
            .map(|col| col.iter().map(|&n| Number { num: n, den: 1 }).collect())
            .collect(),
    )
}

#[test]
fn scalar_arithmetic() {
    assert_eq!(num(2, 1).operate("+", num(3, 1)).unwrap(), num(5, 1));
    assert_eq!(num(2, 1).operate("-", num(3, 1)).unwrap(), num(-1, 1));
    assert_eq!(num(2, 1).operate("*", num(3, 1)).unwrap(), num(6, 1));
    assert_eq!(num(2, 1).operate("/", num(3, 1)).unwrap(), num(2, 3));
    assert_eq!(num(2, 1).operate("^", num(3, 1)).unwrap(), num(8, 1));
}

#[test]
fn vector_addition_is_elementwise() {
    assert_eq!(
        vector(&[1, 2]).operate("+", vector(&[10, 20])).unwrap(),
        vector(&[11, 22])
    );
    assert_eq!(
        vector(&[5, 7]).operate("-", vector(&[1, 2])).unwrap(),
        vector(&[4, 5])
    );
}

#[test]
fn scalar_scales_vectors_and_matrices_in_either_order() {
    assert_eq!(num(2, 1).operate("*", vector(&[1, 2])).unwrap(), vector(&[2, 4]));
    assert_eq!(vector(&[1, 2]).operate("*", num(2, 1)).unwrap(), vector(&[2, 4]));
    assert_eq!(
        num(2, 1).operate("*", matrix(&[&[1, 2], &[3, 4]])).unwrap(),
        matrix(&[&[2, 4], &[6, 8]])
    );
}

#[test]
fn vector_and_matrix_division_by_a_scalar_divides_every_element() {
    assert_eq!(vector(&[2, 4]).operate("/", num(2, 1)).unwrap(), {
        let half = |n: i64| Number { num: n, den: 2 };
        MathType::Vector(vec![half(2), half(4)])
    });
    assert_eq!(matrix(&[&[4], &[8]]).operate("/", num(2, 1)).unwrap(), {
        MathType::Matrix(vec![
            vec![Number { num: 4, den: 2 }],
            vec![Number { num: 8, den: 2 }],
        ])
    });
}

#[test]
fn scalar_divided_by_vector_fails() {
    assert!(matches!(
        num(1, 1).operate("/", vector(&[1])),
        Err(ExecutionError::InvalidOperation(_))
    ));
}

#[test]
fn matrix_product_follows_shapes() {
    // Columns [1,3],[2,4] form the matrix [[1,2],[3,4]] in row terms.
    let a = matrix(&[&[1, 3], &[2, 4]]);
    let b = matrix(&[&[5, 7], &[6, 8]]);
    // Result columns: a applied to each column of b.
    assert_eq!(a.operate("*", b).unwrap(), matrix(&[&[19, 43], &[22, 50]]));
}

#[test]
fn matrix_vector_product_checks_the_width() {
    let a = matrix(&[&[1, 3], &[2, 4]]);
    assert_eq!(a.operate("*", vector(&[1, 1])).unwrap(), vector(&[3, 7]));
    assert!(matches!(
        a.operate("*", vector(&[1, 1, 1])),
        Err(ExecutionError::InvalidOperation(_))
    ));
}

#[test]
fn vector_times_vector_fails() {
    assert!(matches!(
        vector(&[1]).operate("*", vector(&[1])),
        Err(ExecutionError::InvalidOperation(_))
    ));
}

#[test]
fn power_of_non_scalars_fails() {
    assert!(matches!(
        vector(&[1]).operate("^", num(2, 1)),
        Err(ExecutionError::InvalidOperation(_))
    ));
}

#[test]
fn mixed_shape_addition_fails() {
    assert!(matches!(
        num(1, 1).operate("+", vector(&[1])),
        Err(ExecutionError::InvalidOperation(_))
    ));
    assert!(matches!(
        vector(&[1]).operate("+", matrix(&[&[1]])),
        Err(ExecutionError::InvalidOperation(_))
    ));
}

#[test]
fn matrix_addition_checks_both_dimensions() {
    let a = matrix(&[&[1, 2]]);
    let b = matrix(&[&[1, 2], &[3, 4]]);
    assert!(matches!(
        a.operate("+", b),
        Err(ExecutionError::InvalidOperation(_))
    ));
    let c = matrix(&[&[1, 2]]);
    let d = matrix(&[&[10, 20]]);
    assert_eq!(c.operate("+", d).unwrap(), matrix(&[&[11, 22]]));
}
