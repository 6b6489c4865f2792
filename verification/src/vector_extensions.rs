//! Small integer vectors with component-wise arithmetic.
//!
//! Every operation is exact: its `requires` rules out results that do not
//! fit in an `i32`, so the components are always the mathematical values.
use vstd::prelude::*;
use vstd::std_specs::ops::{AddSpecImpl, MulSpecImpl, SubSpecImpl};

verus! {

/// A 2D vector with integer components.
#[derive(Debug, Clone, Copy, PartialEq, Eq, Structural)]
pub struct Vector2i {
    pub x: i32,
    pub y: i32,
}

/// A 3D vector with integer components.
#[derive(Debug, Clone, Copy, PartialEq, Eq, Structural)]
pub struct Vector3i {
    pub x: i32,
    pub y: i32,
    pub z: i32,
}

/// `v` fits in an `i32`.
pub open spec fn fits_i32(v: int) -> bool {
    i32::MIN <= v <= i32::MAX
}

/// Dot product of two 2D vectors, over the integers.
pub open spec fn dot2(a: Vector2i, b: Vector2i) -> int {
    a.x * b.x + a.y * b.y
}

/// Dot product of two 3D vectors, over the integers.
pub open spec fn dot3(a: Vector3i, b: Vector3i) -> int {
    a.x * b.x + a.y * b.y + a.z * b.z
}

/// The components of the cross product of two 3D vectors, over the integers.
pub open spec fn cross3(a: Vector3i, b: Vector3i) -> (int, int, int) {
    (a.y * b.z - a.z * b.y, a.z * b.x - a.x * b.z, a.x * b.y - a.y * b.x)
}

/// Smaller of two integers.
pub open spec fn min_int(a: int, b: int) -> int {
    if a <= b {
        a
    } else {
        b
    }
}

/// Larger of two integers.
pub open spec fn max_int(a: int, b: int) -> int {
    if a >= b {
        a
    } else {
        b
    }
}

/// Absolute value of an integer.
pub open spec fn abs_int(a: int) -> int {
    if a < 0 {
        -a
    } else {
        a
    }
}

fn min_i32(a: i32, b: i32) -> (r: i32)
    ensures
        r == min_int(a as int, b as int),
{
    if a <= b {
        a
    } else {
        b
    }
}

fn max_i32(a: i32, b: i32) -> (r: i32)
    ensures
        r == max_int(a as int, b as int),
{
    if a >= b {
        a
    } else {
        b
    }
}

fn abs_i32(a: i32) -> (r: i32)
    requires
        a != i32::MIN,
    ensures
        r == abs_int(a as int),
{
    if a < 0 {
        -a
    } else {
        a
    }
}

impl Vector2i {
    /// Creates a vector from its components.
    pub fn new(x: i32, y: i32) -> (r: Self)
        ensures
            r.x == x && r.y == y,
    {
        Vector2i { x, y }
    }

    /// Creates a vector with both components set to `value`.
    pub fn splat(value: i32) -> (r: Self)
        ensures
            r.x == value && r.y == value,
    {
        Vector2i { x: value, y: value }
    }

    /// Dot product.
    pub fn dot(self, other: Self) -> (r: i32)
        requires
            fits_i32(self.x * other.x),
            fits_i32(self.y * other.y),
            fits_i32(dot2(self, other)),
        ensures
            r == dot2(self, other),
    {
        self.x * other.x + self.y * other.y
    }

    /// Component-wise minimum.
    pub fn min(self, other: Self) -> (r: Self)
        ensures
            r.x == min_int(self.x as int, other.x as int),
            r.y == min_int(self.y as int, other.y as int),
    {
        Vector2i { x: min_i32(self.x, other.x), y: min_i32(self.y, other.y) }
    }

    /// Component-wise maximum.
    pub fn max(self, other: Self) -> (r: Self)
        ensures
            r.x == max_int(self.x as int, other.x as int),
            r.y == max_int(self.y as int, other.y as int),
    {
        Vector2i { x: max_i32(self.x, other.x), y: max_i32(self.y, other.y) }
    }

    /// Component-wise absolute value.
    pub fn abs(self) -> (r: Self)
        requires
            self.x != i32::MIN,
            self.y != i32::MIN,
        ensures
            r.x == abs_int(self.x as int),
            r.y == abs_int(self.y as int),
    {
        Vector2i { x: abs_i32(self.x), y: abs_i32(self.y) }
    }
}

impl Vector3i {
    /// Creates a vector from its components.
    pub fn new(x: i32, y: i32, z: i32) -> (r: Self)
        ensures
            r.x == x && r.y == y && r.z == z,
    {
        Vector3i { x, y, z }
    }

    /// Creates a vector with all components set to `value`.
    pub fn splat(value: i32) -> (r: Self)
        ensures
            r.x == value && r.y == value && r.z == value,
    {
        Vector3i { x: value, y: value, z: value }
    }

    /// Creates a vector from a 2D vector and a `z` component.
    pub fn from_xy(v: Vector2i, z: i32) -> (r: Self)
        ensures
            r.x == v.x && r.y == v.y && r.z == z,
    {
        Vector3i { x: v.x, y: v.y, z }
    }

    /// The `x` and `y` components as a 2D vector.
    pub fn xy(self) -> (r: Vector2i)
        ensures
            r.x == self.x && r.y == self.y,
    {
        Vector2i { x: self.x, y: self.y }
    }

    /// Dot product.
    pub fn dot(self, other: Self) -> (r: i32)
        requires
            fits_i32(self.x * other.x),
            fits_i32(self.y * other.y),
            fits_i32(self.z * other.z),
            fits_i32(self.x * other.x + self.y * other.y),
            fits_i32(dot3(self, other)),
        ensures
            r == dot3(self, other),
    {
        self.x * other.x + self.y * other.y + self.z * other.z
    }

    /// Cross product.
    pub fn cross(self, other: Self) -> (r: Self)
        requires
            fits_i32(self.y * other.z),
            fits_i32(self.z * other.y),
            fits_i32(self.z * other.x),
            fits_i32(self.x * other.z),
            fits_i32(self.x * other.y),
            fits_i32(self.y * other.x),
            fits_i32(cross3(self, other).0),
            fits_i32(cross3(self, other).1),
            fits_i32(cross3(self, other).2),
        ensures
            (r.x as int, r.y as int, r.z as int) == cross3(self, other),
    {
        Vector3i {
            x: self.y * other.z - self.z * other.y,
            y: self.z * other.x - self.x * other.z,
            z: self.x * other.y - self.y * other.x,
        }
    }

    /// Component-wise minimum.
    pub fn min(self, other: Self) -> (r: Self)
        ensures
            r.x == min_int(self.x as int, other.x as int),
            r.y == min_int(self.y as int, other.y as int),
            r.z == min_int(self.z as int, other.z as int),
    {
        Vector3i { x: min_i32(self.x, other.x), y: min_i32(self.y, other.y), z: min_i32(self.z, other.z) }
    }

    /// Component-wise maximum.
    pub fn max(self, other: Self) -> (r: Self)
        ensures
            r.x == max_int(self.x as int, other.x as int),
            r.y == max_int(self.y as int, other.y as int),
            r.z == max_int(self.z as int, other.z as int),
    {
        Vector3i { x: max_i32(self.x, other.x), y: max_i32(self.y, other.y), z: max_i32(self.z, other.z) }
    }

    /// Component-wise absolute value.
    pub fn abs(self) -> (r: Self)
        requires
            self.x != i32::MIN,
            self.y != i32::MIN,
            self.z != i32::MIN,
        ensures
            r.x == abs_int(self.x as int),
            r.y == abs_int(self.y as int),
            r.z == abs_int(self.z as int),
    {
        Vector3i { x: abs_i32(self.x), y: abs_i32(self.y), z: abs_i32(self.z) }
    }
}

impl Default for Vector2i {
    fn default() -> (r: Self)
        ensures
            r.x == 0 && r.y == 0,
    {
        Vector2i { x: 0, y: 0 }
    }
}

impl Default for Vector3i {
    fn default() -> (r: Self)
        ensures
            r.x == 0 && r.y == 0 && r.z == 0,
    {
        Vector3i { x: 0, y: 0, z: 0 }
    }
}

impl core::ops::Add for Vector2i {
    type Output = Self;

    fn add(self, other: Self) -> (r: Self)
        ensures
            r.x == self.x + other.x,
            r.y == self.y + other.y,
    {
        Vector2i { x: self.x + other.x, y: self.y + other.y }
    }
}

impl AddSpecImpl for Vector2i {
    open spec fn obeys_add_spec() -> bool {
        true
    }

    open spec fn add_req(self, other: Self) -> bool {
        fits_i32(self.x + other.x) && fits_i32(self.y + other.y)
    }

    open spec fn add_spec(self, other: Self) -> Self {
        Vector2i { x: (self.x + other.x) as i32, y: (self.y + other.y) as i32 }
    }
}

impl core::ops::Sub for Vector2i {
    type Output = Self;

    fn sub(self, other: Self) -> (r: Self)
        ensures
            r.x == self.x - other.x,
            r.y == self.y - other.y,
    {
        Vector2i { x: self.x - other.x, y: self.y - other.y }
    }
}

impl SubSpecImpl for Vector2i {
    open spec fn obeys_sub_spec() -> bool {
        true
    }

    open spec fn sub_req(self, other: Self) -> bool {
        fits_i32(self.x - other.x) && fits_i32(self.y - other.y)
    }

    open spec fn sub_spec(self, other: Self) -> Self {
        Vector2i { x: (self.x - other.x) as i32, y: (self.y - other.y) as i32 }
    }
}

impl core::ops::Mul for Vector2i {
    type Output = Self;

    fn mul(self, other: Self) -> (r: Self)
        ensures
            r.x == self.x * other.x,
            r.y == self.y * other.y,
    {
        Vector2i { x: self.x * other.x, y: self.y * other.y }
    }
}

impl MulSpecImpl for Vector2i {
    open spec fn obeys_mul_spec() -> bool {
        true
    }

    open spec fn mul_req(self, other: Self) -> bool {
        fits_i32(self.x * other.x) && fits_i32(self.y * other.y)
    }

    open spec fn mul_spec(self, other: Self) -> Self {
        Vector2i { x: (self.x * other.x) as i32, y: (self.y * other.y) as i32 }
    }
}

impl core::ops::Mul<i32> for Vector2i {
    type Output = Self;

    fn mul(self, scalar: i32) -> (r: Self)
        ensures
            r.x == self.x * scalar,
            r.y == self.y * scalar,
    {
        Vector2i { x: self.x * scalar, y: self.y * scalar }
    }
}

impl MulSpecImpl<i32> for Vector2i {
    open spec fn obeys_mul_spec() -> bool {
        true
    }

    open spec fn mul_req(self, scalar: i32) -> bool {
        fits_i32(self.x * scalar) && fits_i32(self.y * scalar)
    }

    open spec fn mul_spec(self, scalar: i32) -> Self {
        Vector2i { x: (self.x * scalar) as i32, y: (self.y * scalar) as i32 }
    }
}

impl core::ops::Add for Vector3i {
    type Output = Self;

    fn add(self, other: Self) -> (r: Self)
        ensures
            r.x == self.x + other.x,
            r.y == self.y + other.y,
            r.z == self.z + other.z,
    {
        Vector3i { x: self.x + other.x, y: self.y + other.y, z: self.z + other.z }
    }
}

impl AddSpecImpl for Vector3i {
    open spec fn obeys_add_spec() -> bool {
        true
    }

    open spec fn add_req(self, other: Self) -> bool {
        fits_i32(self.x + other.x) && fits_i32(self.y + other.y) && fits_i32(self.z + other.z)
    }

    open spec fn add_spec(self, other: Self) -> Self {
        Vector3i {
            x: (self.x + other.x) as i32,
            y: (self.y + other.y) as i32,
            z: (self.z + other.z) as i32,
        }
    }
}

impl core::ops::Sub for Vector3i {
    type Output = Self;

    fn sub(self, other: Self) -> (r: Self)
        ensures
            r.x == self.x - other.x,
            r.y == self.y - other.y,
            r.z == self.z - other.z,
    {
        Vector3i { x: self.x - other.x, y: self.y - other.y, z: self.z - other.z }
    }
}

impl SubSpecImpl for Vector3i {
    open spec fn obeys_sub_spec() -> bool {
        true
    }

    open spec fn sub_req(self, other: Self) -> bool {
        fits_i32(self.x - other.x) && fits_i32(self.y - other.y) && fits_i32(self.z - other.z)
    }

    open spec fn sub_spec(self, other: Self) -> Self {
        Vector3i {
            x: (self.x - other.x) as i32,
            y: (self.y - other.y) as i32,
            z: (self.z - other.z) as i32,
        }
    }
}

impl core::ops::Mul for Vector3i {
    type Output = Self;

    fn mul(self, other: Self) -> (r: Self)
        ensures
            r.x == self.x * other.x,
            r.y == self.y * other.y,
            r.z == self.z * other.z,
    {
        Vector3i { x: self.x * other.x, y: self.y * other.y, z: self.z * other.z }
    }
}

impl MulSpecImpl for Vector3i {
    open spec fn obeys_mul_spec() -> bool {
        true
    }

    open spec fn mul_req(self, other: Self) -> bool {
        fits_i32(self.x * other.x) && fits_i32(self.y * other.y) && fits_i32(self.z * other.z)
    }

    open spec fn mul_spec(self, other: Self) -> Self {
        Vector3i {
            x: (self.x * other.x) as i32,
            y: (self.y * other.y) as i32,
            z: (self.z * other.z) as i32,
        }
    }
}

impl core::ops::Mul<i32> for Vector3i {
    type Output = Self;

    fn mul(self, scalar: i32) -> (r: Self)
        ensures
            r.x == self.x * scalar,
            r.y == self.y * scalar,
            r.z == self.z * scalar,
    {
        Vector3i { x: self.x * scalar, y: self.y * scalar, z: self.z * scalar }
    }
}

impl MulSpecImpl<i32> for Vector3i {
    open spec fn obeys_mul_spec() -> bool {
        true
    }

    open spec fn mul_req(self, scalar: i32) -> bool {
        fits_i32(self.x * scalar) && fits_i32(self.y * scalar) && fits_i32(self.z * scalar)
    }

    open spec fn mul_spec(self, scalar: i32) -> Self {
        Vector3i {
            x: (self.x * scalar) as i32,
            y: (self.y * scalar) as i32,
            z: (self.z * scalar) as i32,
        }
    }
}

/// The cross product is anti-commutative: `a × b == -(b × a)`.
pub proof fn lemma_cross_anticommutative(a: Vector3i, b: Vector3i)
    ensures
        cross3(a, b).0 == -cross3(b, a).0,
        cross3(a, b).1 == -cross3(b, a).1,
        cross3(a, b).2 == -cross3(b, a).2,
{
    assert(a.y * b.z == b.z * a.y) by (nonlinear_arith);
    assert(a.z * b.y == b.y * a.z) by (nonlinear_arith);
    assert(a.z * b.x == b.x * a.z) by (nonlinear_arith);
    assert(a.x * b.z == b.z * a.x) by (nonlinear_arith);
    assert(a.x * b.y == b.y * a.x) by (nonlinear_arith);
    assert(a.y * b.x == b.x * a.y) by (nonlinear_arith);
}

/// The cross product is orthogonal to both of its operands.
pub proof fn lemma_cross_orthogonal(a: Vector3i, b: Vector3i)
    ensures
        a.x * cross3(a, b).0 + a.y * cross3(a, b).1 + a.z * cross3(a, b).2 == 0,
        b.x * cross3(a, b).0 + b.y * cross3(a, b).1 + b.z * cross3(a, b).2 == 0,
{
    let (ax, ay, az, bx, by, bz) = (a.x as int, a.y as int, a.z as int, b.x as int, b.y as int, b.z as int);
    assert(ax * (ay * bz - az * by) + ay * (az * bx - ax * bz) + az * (ax * by - ay * bx) == 0)
        by (nonlinear_arith);
    assert(bx * (ay * bz - az * by) + by * (az * bx - ax * bz) + bz * (ax * by - ay * bx) == 0)
        by (nonlinear_arith);
}

} // verus!
