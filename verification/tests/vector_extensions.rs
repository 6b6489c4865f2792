use draco_core::vector_extensions::{Vector2i, Vector3i};

#[test]
fn test_integer_vectors() {
    let a = Vector2i::new(1, 2);
    let b = Vector2i::new(3, 4);

    assert_eq!(a + b, Vector2i::new(4, 6));
    assert_eq!(b - a, Vector2i::new(2, 2));
    assert_eq!(a * b, Vector2i::new(3, 8));
    assert_eq!(a * 3, Vector2i::new(3, 6));
    assert_eq!(a.dot(b), 11);

    let a3 = Vector3i::new(1, 2, 3);
    let b3 = Vector3i::new(4, 5, 6);

    assert_eq!(a3.cross(b3), Vector3i::new(-3, 6, -3));
}

#[test]
fn integer_vector_components_and_bounds() {
    let a = Vector3i::new(-4, 7, 0);
    let b = Vector3i::splat(2);
    assert_eq!(a.min(b), Vector3i::new(-4, 2, 0));
    assert_eq!(a.max(b), Vector3i::new(2, 7, 2));
    assert_eq!(a.abs(), Vector3i::new(4, 7, 0));
    assert_eq!(a.dot(b), 6);
    assert_eq!(a + b - b, a);
    assert_eq!(a * b, Vector3i::new(-8, 14, 0));
    assert_eq!(a * -1, Vector3i::new(4, -7, 0));
    assert_eq!(Vector3i::from_xy(Vector2i::new(5, 6), 7), Vector3i::new(5, 6, 7));
    assert_eq!(Vector3i::new(5, 6, 7).xy(), Vector2i::new(5, 6));
    assert_eq!(Vector2i::splat(-3).abs(), Vector2i::new(3, 3));
    assert_eq!(Vector2i::new(1, 9).min(Vector2i::new(4, 2)), Vector2i::new(1, 2));
    assert_eq!(Vector2i::new(1, 9).max(Vector2i::new(4, 2)), Vector2i::new(4, 9));
    assert_eq!(Vector2i::default(), Vector2i::new(0, 0));
    assert_eq!(Vector3i::default(), Vector3i::new(0, 0, 0));
}

#[test]
fn cross_product_is_anticommutative_and_orthogonal() {
    let a = Vector3i::new(2, -3, 5);
    let b = Vector3i::new(-1, 4, 6);
    let c = a.cross(b);
    let d = b.cross(a);
    assert_eq!(c, d * -1);
    assert_eq!(c.dot(a), 0);
    assert_eq!(c.dot(b), 0);
}
