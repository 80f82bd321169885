//! Algebraic laws of the vector operations, stated over the mathematical
//! model and proved once for all vectors.

use vstd::prelude::*;

use crate::vector::{Vec3Int, Vector3};

verus! {

/// Equality of vectors is exact component-wise equality, with no
/// tolerance.
pub proof fn lemma_eq_is_componentwise(a: Vector3, b: Vector3)
    ensures
        (a == b) <==> (a.x == b.x && a.y == b.y && a.z == b.z),
{
}

/// The dot product is commutative: `dot(a, b) == dot(b, a)`.
pub proof fn lemma_dot_commutative(a: Vec3Int, b: Vec3Int)
    ensures
        a.dot(b) == b.dot(a),
{
    assert(a.x * b.x == b.x * a.x) by (nonlinear_arith);
    assert(a.y * b.y == b.y * a.y) by (nonlinear_arith);
    assert(a.z * b.z == b.z * a.z) by (nonlinear_arith);
}

/// The cross product is anti-commutative: `cross(a, b)` is the
/// component-wise negation of `cross(b, a)`.
pub proof fn lemma_cross_anticommutative(a: Vec3Int, b: Vec3Int)
    ensures
        a.cross(b) == b.cross(a).neg(),
{
    assert(a.y * b.z - a.z * b.y == -(b.y * a.z - b.z * a.y)) by (nonlinear_arith);
    assert(a.z * b.x - a.x * b.z == -(b.z * a.x - b.x * a.z)) by (nonlinear_arith);
    assert(a.x * b.y - a.y * b.x == -(b.x * a.y - b.y * a.x)) by (nonlinear_arith);
}

/// The dot product is linear in its first argument (and, with
/// `lemma_dot_commutative`, in its second): it distributes over vector
/// addition and commutes with scaling.
pub proof fn lemma_dot_bilinear(a: Vec3Int, b: Vec3Int, c: Vec3Int, s: int)
    ensures
        a.add(b).dot(c) == a.dot(c) + b.dot(c),
        a.scale(s).dot(c) == s * a.dot(c),
{
    assert((a.x + b.x) * c.x == a.x * c.x + b.x * c.x) by (nonlinear_arith);
    assert((a.y + b.y) * c.y == a.y * c.y + b.y * c.y) by (nonlinear_arith);
    assert((a.z + b.z) * c.z == a.z * c.z + b.z * c.z) by (nonlinear_arith);
    assert((a.x * s) * c.x == s * (a.x * c.x)) by (nonlinear_arith);
    assert((a.y * s) * c.y == s * (a.y * c.y)) by (nonlinear_arith);
    assert((a.z * s) * c.z == s * (a.z * c.z)) by (nonlinear_arith);
    assert(s * (a.x * c.x) + s * (a.y * c.y) + s * (a.z * c.z) == s * (a.x * c.x + a.y * c.y
        + a.z * c.z)) by (nonlinear_arith);
}

/// The cross product of parallel vectors is the zero vector. Taking
/// `s == 0` covers the case where one operand is the zero vector.
pub proof fn lemma_cross_parallel_is_zero(v: Vec3Int, s: int)
    ensures
        v.cross(v.scale(s)) == (Vec3Int { x: 0, y: 0, z: 0 }),
        v.scale(s).cross(v) == (Vec3Int { x: 0, y: 0, z: 0 }),
{
    assert(v.y * (v.z * s) - v.z * (v.y * s) == 0) by (nonlinear_arith);
    assert(v.z * (v.x * s) - v.x * (v.z * s) == 0) by (nonlinear_arith);
    assert(v.x * (v.y * s) - v.y * (v.x * s) == 0) by (nonlinear_arith);
    assert((v.y * s) * v.z - (v.z * s) * v.y == 0) by (nonlinear_arith);
    assert((v.z * s) * v.x - (v.x * s) * v.z == 0) by (nonlinear_arith);
    assert((v.x * s) * v.y - (v.y * s) * v.x == 0) by (nonlinear_arith);
}

/// A vector divided exactly by its own length is a unit vector: if `l` is
/// the length of `v` (`l * l == dot(v, v)`, `l > 0`) and `u` scaled back
/// by `l` recovers `v`, then `dot(u, u) == 1`.
pub proof fn lemma_normalized_is_unit(v: Vec3Int, u: Vec3Int, l: int)
    requires
        0 < l,
        l * l == v.dot(v),
        u.scale(l) == v,
    ensures
        u.dot(u) == 1,
{
    assert((u.x * l) * (u.x * l) == (u.x * u.x) * (l * l)) by (nonlinear_arith);
    assert((u.y * l) * (u.y * l) == (u.y * u.y) * (l * l)) by (nonlinear_arith);
    assert((u.z * l) * (u.z * l) == (u.z * u.z) * (l * l)) by (nonlinear_arith);
    assert((u.x * u.x) * (l * l) + (u.y * u.y) * (l * l) + (u.z * u.z) * (l * l) == (u.x
        * u.x + u.y * u.y + u.z * u.z) * (l * l)) by (nonlinear_arith);
    assert(v.x * v.x + v.y * v.y + v.z * v.z == (u.x * u.x + u.y * u.y + u.z * u.z) * (l
        * l));
    assert(u.x * u.x + u.y * u.y + u.z * u.z == 1) by (nonlinear_arith)
        requires
            0 < l,
            (u.x * u.x + u.y * u.y + u.z * u.z) * (l * l) == l * l,
    ;
}

} // verus!
