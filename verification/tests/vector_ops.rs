use vector3::vector::Vector3;

#[test]
fn test_vector_new() {
    let v = Vector3::new(1, 2, 3);
    assert_eq!(v.x, 1);
    assert_eq!(v.y, 2);
    assert_eq!(v.z, 3);
}

#[test]
fn test_vector_constants() {
    let z = Vector3::zero();
    assert_eq!(z, Vector3::new(0, 0, 0));
    let o = Vector3::one();
    assert_eq!(o, Vector3::new(1, 1, 1));
}

#[test]
fn test_vector_dot() {
    let v1 = Vector3::new(1, 2, 3);
    let v2 = Vector3::new(4, 5, 6);
    let result: i64 = v1.dot(v2);
    assert_eq!(result, 32);
}

#[test]
fn test_vector_cross() {
    let v1 = Vector3::new(1, 2, 3);
    let v2 = Vector3::new(4, 5, 6);
    let result = v1.cross(v2);
    assert_eq!(result.x, -3);
    assert_eq!(result.y, 6);
    assert_eq!(result.z, -3);
}

#[test]
fn test_vector_length() {
    let v = Vector3::new(3, 4, 0);
    assert_eq!(v.length(), 5);
}

#[test]
fn test_vector_length_rounds_down() {
    // dot(v, v) == 3 is not a perfect square; the length rounds down.
    let v = Vector3::new(1, 1, 1);
    assert_eq!(v.length(), 1);
    assert_eq!(Vector3::zero().length(), 0);
}

#[test]
fn test_vector_length_squared() {
    let v = Vector3::new(1, 2, 3);
    assert_eq!(v.length_squared(), 14);
}

#[test]
fn test_vector_normalized() {
    let v = Vector3::new(0, 3, 0);
    let normalized = v.normalized().unwrap();
    assert_eq!(normalized.x, 0);
    assert_eq!(normalized.y, 1);
    assert_eq!(normalized.z, 0);
    assert_eq!(normalized.length(), 1);
}

#[test]
fn test_vector_normalized_inexact() {
    // (3, 4, 0) has length 5, but 5 divides neither 3 nor 4, so no exact
    // integer unit form exists.
    let v = Vector3::new(3, 4, 0);
    assert_eq!(v.normalized(), None);
}

#[test]
fn test_vector_normalized_zero() {
    // The zero vector has length zero and no unit form.
    assert_eq!(Vector3::zero().normalized(), None);
}

#[test]
fn test_vector_add() {
    let v1 = Vector3::new(1, 2, 3);
    let v2 = Vector3::new(4, 5, 6);
    let result = v1.add(v2);
    assert_eq!(result.x, 5);
    assert_eq!(result.y, 7);
    assert_eq!(result.z, 9);
}

#[test]
fn test_vector_sub() {
    let v1 = Vector3::new(4, 5, 6);
    let v2 = Vector3::new(1, 2, 3);
    let result = v1.sub(v2);
    assert_eq!(result.x, 3);
    assert_eq!(result.y, 3);
    assert_eq!(result.z, 3);
}

#[test]
fn test_vector_mul() {
    let v = Vector3::new(1, 2, 3);
    let scalar: i64 = 2;

    // Vector * scalar
    let result1 = v.scale(scalar);
    assert_eq!(result1.x, 2);
    assert_eq!(result1.y, 4);
    assert_eq!(result1.z, 6);

    // scalar * Vector
    let result2 = vector3::vector::scalar_multiply(scalar, v);
    assert_eq!(result2.x, 2);
    assert_eq!(result2.y, 4);
    assert_eq!(result2.z, 6);

    // Vector * Vector (Hadamard, not dot)
    let result3 = v.hadamard(v);
    assert_eq!(result3.x, 1);
    assert_eq!(result3.y, 4);
    assert_eq!(result3.z, 9);
}

#[test]
fn test_vector_div() {
    let v = Vector3::new(2, 4, 6);
    let scalar: i64 = 2;

    // Vector / scalar
    let result1 = v.divide_by_scalar(scalar).unwrap();
    assert_eq!(result1.x, 1);
    assert_eq!(result1.y, 2);
    assert_eq!(result1.z, 3);

    // scalar / Vector, where every component divides the scalar
    let result2 = vector3::vector::scalar_divide(12, v).unwrap();
    assert_eq!(result2.x, 6);
    assert_eq!(result2.y, 3);
    assert_eq!(result2.z, 2);

    // Vector / Vector
    let result3 = v.divide_elementwise(v).unwrap();
    assert_eq!(result3.x, 1);
    assert_eq!(result3.y, 1);
    assert_eq!(result3.z, 1);
}

#[test]
fn test_vector_div_rejects_zero_divisor() {
    let v = Vector3::new(2, 4, 6);
    assert_eq!(v.divide_by_scalar(0), None);
    assert_eq!(vector3::vector::scalar_divide(2, Vector3::new(2, 0, 6)), None);
    assert_eq!(v.divide_elementwise(Vector3::zero()), None);
}

#[test]
fn test_vector_div_rejects_inexact_quotient() {
    let v = Vector3::new(2, 4, 6);
    // 2 / 4 and 2 / 6 have no integer quotient.
    assert_eq!(vector3::vector::scalar_divide(2, v), None);
    assert_eq!(v.divide_by_scalar(4), None);
    assert_eq!(Vector3::new(1, 2, 3).divide_elementwise(Vector3::new(2, 2, 2)), None);
}

#[test]
fn test_vector_div_rejects_unrepresentable_quotient() {
    // i64::MIN / -1 is one too large for an i64.
    let v = Vector3::new(i64::MIN, 0, 0);
    assert_eq!(v.divide_by_scalar(-1), None);
    assert_eq!(v.divide_by_scalar(-2), Some(Vector3::new(4611686018427387904, 0, 0)));
}

#[test]
fn test_vector_equality_is_exact() {
    // Equality is exact component-wise comparison, with no tolerance.
    assert_eq!(Vector3::new(1, 2, 3), Vector3::new(1, 2, 3));
    assert_ne!(Vector3::new(1, 2, 3), Vector3::new(1, 2, 4));
}
