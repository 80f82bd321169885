//! The `Vector3` type, its mathematical model, and its operations.

use vstd::prelude::*;
use vstd::arithmetic::div_mod::lemma_div_multiples_vanish;

verus! {

/// There is an `i64` value `q` with `q * d == x`: dividing `x` by `d`
/// has an exact, representable quotient.
pub open spec fn has_i64_quotient(x: int, d: int) -> bool {
    exists|q: int| i64::MIN <= q <= i64::MAX && #[trigger] (q * d) == x
}

/// Mathematical model of a three-dimensional vector: three unbounded
/// integer components. Every contract in this crate is stated over this
/// model, so the operations below are pinned down exactly.
pub ghost struct Vec3Int {
    pub x: int,
    pub y: int,
    pub z: int,
}

impl Vec3Int {
    /// Component-wise sum.
    pub open spec fn add(self, other: Vec3Int) -> Vec3Int {
        Vec3Int { x: self.x + other.x, y: self.y + other.y, z: self.z + other.z }
    }

    /// Component-wise difference.
    pub open spec fn sub(self, other: Vec3Int) -> Vec3Int {
        Vec3Int { x: self.x - other.x, y: self.y - other.y, z: self.z - other.z }
    }

    /// Component-wise negation.
    pub open spec fn neg(self) -> Vec3Int {
        Vec3Int { x: -self.x, y: -self.y, z: -self.z }
    }

    /// Every component multiplied by the scalar `s`.
    pub open spec fn scale(self, s: int) -> Vec3Int {
        Vec3Int { x: self.x * s, y: self.y * s, z: self.z * s }
    }

    /// Component-wise (Hadamard) product; distinct from `dot` and `cross`.
    pub open spec fn hadamard(self, other: Vec3Int) -> Vec3Int {
        Vec3Int { x: self.x * other.x, y: self.y * other.y, z: self.z * other.z }
    }

    /// The dot product.
    pub open spec fn dot(self, other: Vec3Int) -> int {
        self.x * other.x + self.y * other.y + self.z * other.z
    }

    /// The right-handed cross product.
    pub open spec fn cross(self, other: Vec3Int) -> Vec3Int {
        Vec3Int {
            x: self.y * other.z - self.z * other.y,
            y: self.z * other.x - self.x * other.z,
            z: self.x * other.y - self.y * other.x,
        }
    }

    /// All three components lie within the `i64` range.
    pub open spec fn fits_i64(self) -> bool {
        &&& i64::MIN <= self.x <= i64::MAX
        &&& i64::MIN <= self.y <= i64::MAX
        &&& i64::MIN <= self.z <= i64::MAX
    }
}

/// A three-dimensional vector with exact integer components.
///
/// Instances are plain values: every operation returns a new vector and
/// none mutates its operands. Equality is exact component-wise equality.
#[derive(Clone, Copy, Debug, PartialEq, Eq, Structural)]
pub struct Vector3 {
    pub x: i64,
    pub y: i64,
    pub z: i64,
}

impl View for Vector3 {
    type V = Vec3Int;

    open spec fn view(&self) -> Vec3Int {
        Vec3Int { x: self.x as int, y: self.y as int, z: self.z as int }
    }
}

/// The product of two `i64` values lies well inside the `i128` range.
proof fn lemma_i64_mul_bounds(a: i64, b: i64)
    by (nonlinear_arith)
    ensures
        -0x40000000000000000000000000000000 <= a * b
            <= 0x40000000000000000000000000000000,
{
}

/// The dot product of a vector with itself is a sum of squares, hence
/// non-negative.
pub proof fn lemma_dot_self_nonneg(v: Vec3Int)
    ensures
        v.dot(v) >= 0,
{
    assert(v.x * v.x >= 0) by (nonlinear_arith);
    assert(v.y * v.y >= 0) by (nonlinear_arith);
    assert(v.z * v.z >= 0) by (nonlinear_arith);
}

impl Vector3 {
    /// Builds a vector from three components; no validation is performed.
    pub fn new(x: i64, y: i64, z: i64) -> (r: Vector3)
        ensures
            r.x == x && r.y == y && r.z == z,
            r@ == (Vec3Int { x: x as int, y: y as int, z: z as int }),
    {
        Vector3 { x, y, z }
    }

    /// The zero vector (0, 0, 0).
    pub fn zero() -> (r: Vector3)
        ensures
            r@ == (Vec3Int { x: 0, y: 0, z: 0 }),
    {
        Vector3 { x: 0, y: 0, z: 0 }
    }

    /// The all-ones vector (1, 1, 1).
    pub fn one() -> (r: Vector3)
        ensures
            r@ == (Vec3Int { x: 1, y: 1, z: 1 }),
    {
        Vector3 { x: 1, y: 1, z: 1 }
    }

    /// Component-wise sum.
    pub fn add(self, other: Vector3) -> (r: Vector3)
        requires
            self@.add(other@).fits_i64(),
        ensures
            r@ == self@.add(other@),
    {
        Vector3 { x: self.x + other.x, y: self.y + other.y, z: self.z + other.z }
    }

    /// Component-wise difference.
    pub fn sub(self, other: Vector3) -> (r: Vector3)
        requires
            self@.sub(other@).fits_i64(),
        ensures
            r@ == self@.sub(other@),
    {
        Vector3 { x: self.x - other.x, y: self.y - other.y, z: self.z - other.z }
    }

    /// Every component multiplied by the scalar `s`.
    pub fn scale(self, s: i64) -> (r: Vector3)
        requires
            self@.scale(s as int).fits_i64(),
        ensures
            r@ == self@.scale(s as int),
    {
        Vector3 { x: self.x * s, y: self.y * s, z: self.z * s }
    }

    /// Component-wise (Hadamard) product; distinct from `dot` and `cross`.
    pub fn hadamard(self, other: Vector3) -> (r: Vector3)
        requires
            self@.hadamard(other@).fits_i64(),
        ensures
            r@ == self@.hadamard(other@),
    {
        Vector3 { x: self.x * other.x, y: self.y * other.y, z: self.z * other.z }
    }

    /// The dot product.
    pub fn dot(self, other: Vector3) -> (r: i64)
        requires
            i64::MIN <= self@.dot(other@) <= i64::MAX,
        ensures
            r == self@.dot(other@),
    {
        proof {
            lemma_i64_mul_bounds(self.x, other.x);
            lemma_i64_mul_bounds(self.y, other.y);
            lemma_i64_mul_bounds(self.z, other.z);
        }
        let p1: i128 = (self.x as i128) * (other.x as i128);
        let p2: i128 = (self.y as i128) * (other.y as i128);
        let p3: i128 = (self.z as i128) * (other.z as i128);
        let s12: i128 = p1 + p2;
        let total: i128 = s12 + p3;
        total as i64
    }

    /// The difference of two products, `a * b - c * d`, computed without
    /// intermediate overflow.
    fn mul_sub(a: i64, b: i64, c: i64, d: i64) -> (r: i64)
        requires
            i64::MIN <= a * b - c * d <= i64::MAX,
        ensures
            r == a * b - c * d,
    {
        proof {
            lemma_i64_mul_bounds(a, b);
            lemma_i64_mul_bounds(c, d);
        }
        let p: i128 = (a as i128) * (b as i128);
        let q: i128 = (c as i128) * (d as i128);
        (p - q) as i64
    }

    /// The right-handed cross product.
    pub fn cross(self, other: Vector3) -> (r: Vector3)
        requires
            self@.cross(other@).fits_i64(),
        ensures
            r@ == self@.cross(other@),
    {
        Vector3 {
            x: Self::mul_sub(self.y, other.z, self.z, other.y),
            y: Self::mul_sub(self.z, other.x, self.x, other.z),
            z: Self::mul_sub(self.x, other.y, self.y, other.x),
        }
    }

    /// The length of the vector, rounded down to an integer: the unique
    /// `r >= 0` with `r * r <= dot(v, v) < (r + 1) * (r + 1)`. Exact
    /// whenever `dot(v, v)` is a perfect square, as for (3, 4, 0).
    pub fn length(self) -> (r: i64)
        requires
            self@.dot(self@) <= i64::MAX,
        ensures
            0 <= r,
            r * r <= self@.dot(self@),
            self@.dot(self@) < (r + 1) * (r + 1),
    {
        let ls: i64 = self.length_squared();
        let s: u64 = isqrt_u64(ls as u64);
        proof {
            assert(s <= ls as u64) by (nonlinear_arith)
                requires
                    s * s <= ls as u64,
            ;
        }
        s as i64
    }

    /// Every component divided exactly by the scalar `s`: `Some` exactly
    /// when `s` is non-zero and each component has a representable exact
    /// quotient; `None` otherwise, in particular for `s == 0`.
    pub fn divide_by_scalar(self, s: i64) -> (r: Option<Vector3>)
        ensures
            r matches Some(u) ==> u@.scale(s as int) == self@,
            r.is_some() <==> (s != 0 && has_i64_quotient(self@.x, s as int)
                && has_i64_quotient(self@.y, s as int) && has_i64_quotient(self@.z, s as int)),
    {
        match (exact_div(self.x, s), exact_div(self.y, s), exact_div(self.z, s)) {
            (Some(x), Some(y), Some(z)) => Some(Vector3 { x, y, z }),
            _ => None,
        }
    }

    /// Component-wise exact division: `Some(u)` with
    /// `u.hadamard(other) == self` exactly when every component of
    /// `other` is non-zero and divides the matching component of `self`
    /// with a representable quotient; `None` otherwise.
    pub fn divide_elementwise(self, other: Vector3) -> (r: Option<Vector3>)
        ensures
            r matches Some(u) ==> u@.hadamard(other@) == self@,
            r.is_some() <==> (other.x != 0 && other.y != 0 && other.z != 0
                && has_i64_quotient(self@.x, other@.x) && has_i64_quotient(self@.y, other@.y)
                && has_i64_quotient(self@.z, other@.z)),
    {
        match (exact_div(self.x, other.x), exact_div(self.y, other.y), exact_div(
            self.z,
            other.z,
        )) {
            (Some(x), Some(y), Some(z)) => Some(Vector3 { x, y, z }),
            _ => None,
        }
    }

    /// The exact unit-length form of the vector: `Some(u)` where scaling
    /// `u` by the length of `self` recovers `self` and `dot(u, u) == 1`.
    /// This exists exactly when the squared length is a positive perfect
    /// square whose root divides every component; otherwise the result is
    /// `None` — in particular for the zero vector, whose length is zero,
    /// so that no unit form exists.
    pub fn normalized(self) -> (r: Option<Vector3>)
        requires
            self@.dot(self@) <= i64::MAX,
        ensures
            r matches Some(u) ==> exists|l: int|
                0 < l && #[trigger] (l * l) == self@.dot(self@) && u@.scale(l) == self@,
            r matches Some(u) ==> u@.dot(u@) == 1,
            r.is_some() <==> exactly_normalizable(self@),
    {
        let l: i64 = self.length();
        let ls: i64 = self.length_squared();
        if l == 0 {
            proof {
                if exactly_normalizable(self@) {
                    let (l2, u2) = choose|l2: int, u2: Vec3Int|
                        0 < l2 && l2 * l2 == self@.dot(self@) && #[trigger] u2.scale(l2)
                            == self@;
                    assert(l2 * l2 > 0) by (nonlinear_arith)
                        requires
                            0 < l2,
                    ;
                    assert(self@.dot(self@) < 1) by (nonlinear_arith)
                        requires
                            self@.dot(self@) < ((l as int) + 1) * ((l as int) + 1),
                            l == 0,
                    ;
                    assert(false);
                }
            }
            return None;
        }
        if l * l != ls {
            proof {
                if exactly_normalizable(self@) {
                    let (l2, u2) = choose|l2: int, u2: Vec3Int|
                        0 < l2 && l2 * l2 == self@.dot(self@) && #[trigger] u2.scale(l2)
                            == self@;
                    lemma_floor_sqrt_unique(self@.dot(self@), l as int, l2);
                    assert(false);
                }
            }
            return None;
        }
        match self.divide_by_scalar(l) {
            Some(u) => {
                proof {
                    crate::laws::lemma_normalized_is_unit(self@, u@, l as int);
                }
                Some(u)
            },
            None => {
                proof {
                    if exactly_normalizable(self@) {
                        let (l2, u2) = choose|l2: int, u2: Vec3Int|
                            0 < l2 && l2 * l2 == self@.dot(self@) && #[trigger] u2.scale(l2)
                                == self@;
                        lemma_floor_sqrt_unique(self@.dot(self@), l as int, l2);
                        lemma_component_sq_le_dot(self@);
                        lemma_unit_component_bound(u2.x, l as int, self@.x);
                        lemma_unit_component_bound(u2.y, l as int, self@.y);
                        lemma_unit_component_bound(u2.z, l as int, self@.z);
                        assert(u2.x * (l as int) == self@.x);
                        assert(u2.y * (l as int) == self@.y);
                        assert(u2.z * (l as int) == self@.z);
                        assert(false);
                    }
                }
                None
            },
        }
    }

    /// The dot product of the vector with itself; always non-negative.
    pub fn length_squared(self) -> (r: i64)
        requires
            self@.dot(self@) <= i64::MAX,
        ensures
            r == self@.dot(self@),
            r >= 0,
    {
        proof {
            lemma_dot_self_nonneg(self@);
        }
        self.dot(self)
    }
}

/// The vector `v` has an exact unit-length form: some positive integer
/// length `l` squares to `dot(v, v)` and divides every component.
pub open spec fn exactly_normalizable(v: Vec3Int) -> bool {
    exists|l: int, u: Vec3Int| 0 < l && l * l == v.dot(v) && #[trigger] u.scale(l) == v
}

/// A non-negative floor square root is unique: any positive `l2` whose
/// square is exactly `d` equals the floor square root `l` of `d`.
proof fn lemma_floor_sqrt_unique(d: int, l: int, l2: int)
    requires
        0 <= l,
        l * l <= d,
        d < (l + 1) * (l + 1),
        0 < l2,
        l2 * l2 == d,
    ensures
        l2 == l,
{
    if l2 <= l - 1 || l2 >= l + 1 {
        assert(false) by (nonlinear_arith)
            requires
                0 <= l,
                l * l <= d,
                d < (l + 1) * (l + 1),
                0 < l2,
                l2 * l2 == d,
                l2 <= l - 1 || l2 >= l + 1,
        ;
    }
}

/// A component of a vector scaled by `l` to a vector whose squared
/// length is `l * l` can only be -1, 0 or 1.
proof fn lemma_unit_component_bound(c: int, l: int, t: int)
    by (nonlinear_arith)
    requires
        0 < l,
        c * l == t,
        t * t <= l * l,
    ensures
        -1 <= c <= 1,
{
}

/// Each component's square is at most the squared length of the vector.
proof fn lemma_component_sq_le_dot(v: Vec3Int)
    ensures
        v.x * v.x <= v.dot(v),
        v.y * v.y <= v.dot(v),
        v.z * v.z <= v.dot(v),
{
    assert(v.x * v.x >= 0) by (nonlinear_arith);
    assert(v.y * v.y >= 0) by (nonlinear_arith);
    assert(v.z * v.z >= 0) by (nonlinear_arith);
}

/// When `x` has an exact quotient `q` by `d` and `q` is representable,
/// `i64::checked_div` finds exactly `q`.
proof fn lemma_exact_quotient_found(x: i64, d: i64, q: int)
    requires
        d != 0,
        q * d == x,
        i64::MIN <= q <= i64::MAX,
    ensures
        x.checked_div(d) == Some(q as i64),
{
    let xi = x as int;
    let di = d as int;
    if x == 0 {
        assert(q == 0) by (nonlinear_arith)
            requires
                q * di == 0,
                di != 0,
        ;
    } else if x > 0 && d > 0 {
        assert(di * q == xi) by (nonlinear_arith)
            requires
                q * di == xi,
        ;
        lemma_div_multiples_vanish(q, di);
        assert(xi / di == q);
    } else if x < 0 && d < 0 {
        assert((-di) * q == xi * -1) by (nonlinear_arith)
            requires
                q * di == xi,
        ;
        lemma_div_multiples_vanish(q, -di);
        assert((xi * -1) / (di * -1) == q);
    } else if x < 0 {
        assert(di * (-q) == xi * -1) by (nonlinear_arith)
            requires
                q * di == xi,
        ;
        lemma_div_multiples_vanish(-q, di);
        assert(((xi * -1) / di) * -1 == q);
    } else {
        assert((-di) * (-q) == xi) by (nonlinear_arith)
            requires
                q * di == xi,
        ;
        lemma_div_multiples_vanish(-q, -di);
        assert((xi / (di * -1)) * -1 == q);
    }
}

/// The exact quotient of `x` by `d`: `Some(q)` with `q * d == x` when
/// such an `i64` value `q` exists, and `None` when `d` is zero, when `d`
/// does not divide `x`, or when the quotient falls outside the `i64`
/// range.
fn exact_div(x: i64, d: i64) -> (r: Option<i64>)
    ensures
        r matches Some(q) ==> q * d == x && d != 0,
        r.is_some() <==> (d != 0 && has_i64_quotient(x as int, d as int)),
{
    if d == 0 {
        return None;
    }
    match x.checked_div(d) {
        None => {
            proof {
                if has_i64_quotient(x as int, d as int) {
                    let q = choose|q: int|
                        i64::MIN <= q <= i64::MAX && #[trigger] (q * d) == x;
                    lemma_exact_quotient_found(x, d, q);
                }
            }
            None
        },
        Some(t) => {
            match t.checked_mul(d) {
                Some(p) => {
                    if p == x {
                        Some(t)
                    } else {
                        proof {
                            if has_i64_quotient(x as int, d as int) {
                                let q = choose|q: int|
                                    i64::MIN <= q <= i64::MAX && #[trigger] (q * d) == x;
                                lemma_exact_quotient_found(x, d, q);
                            }
                        }
                        None
                    }
                },
                None => {
                    proof {
                        if has_i64_quotient(x as int, d as int) {
                            let q = choose|q: int|
                                i64::MIN <= q <= i64::MAX && #[trigger] (q * d) == x;
                            lemma_exact_quotient_found(x, d, q);
                        }
                    }
                    None
                },
            }
        },
    }
}

/// The integer square root of `n`, rounded down: the unique `r` with
/// `r * r <= n < (r + 1) * (r + 1)`, found by binary search.
fn isqrt_u64(n: u64) -> (r: u64)
    ensures
        r * r <= n,
        n < (r + 1) * (r + 1),
{
    let mut lo: u64 = 0;
    let mut hi: u64 = 4294967296;
    while hi - lo > 1
        invariant
            lo < hi,
            hi <= 4294967296,
            lo * lo <= n,
            n < hi * hi,
        decreases hi - lo,
    {
        let mid: u64 = lo + (hi - lo) / 2;
        proof {
            assert(mid * mid <= 4294967296 * 4294967296) by (nonlinear_arith)
                requires
                    mid <= 4294967296,
            ;
        }
        let sq: u128 = (mid as u128) * (mid as u128);
        if sq <= (n as u128) {
            lo = mid;
        } else {
            hi = mid;
        }
    }
    lo
}

/// The scalar `s` divided exactly by every component of `v`: `Some(u)`
/// with `u.hadamard(v)` equal to `(s, s, s)` exactly when every component
/// of `v` is non-zero and divides `s` with a representable quotient;
/// `None` otherwise.
pub fn scalar_divide(s: i64, v: Vector3) -> (r: Option<Vector3>)
    ensures
        r matches Some(u) ==> u@.hadamard(v@) == (Vec3Int {
            x: s as int,
            y: s as int,
            z: s as int,
        }),
        r.is_some() <==> (v.x != 0 && v.y != 0 && v.z != 0
            && has_i64_quotient(s as int, v@.x) && has_i64_quotient(s as int, v@.y)
            && has_i64_quotient(s as int, v@.z)),
{
    match (exact_div(s, v.x), exact_div(s, v.y), exact_div(s, v.z)) {
        (Some(x), Some(y), Some(z)) => Some(Vector3 { x, y, z }),
        _ => None,
    }
}

/// The scalar `s` multiplied onto every component of `v`; the mirrored
/// form of `Vector3::scale`, with the same result.
pub fn scalar_multiply(s: i64, v: Vector3) -> (r: Vector3)
    requires
        v@.scale(s as int).fits_i64(),
    ensures
        r@ == v@.scale(s as int),
{
    v.scale(s)
}

} // verus!
