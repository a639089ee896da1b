//! Homogeneous vectors and 4x4 transform matrices.
//!
//! A `Vector` is a homogeneous coordinate `(x, y, z, w)`: `w` is one for
//! positions and zero for directions.  A `Matrix` is four row vectors;
//! matrix factories build the affine and projective transforms of the
//! rendering pipeline.  Every operation is described exactly by a spec
//! function over the fixed-point raw values.

use vstd::prelude::*;
use crate::fixed::{
    Fx, SCALE, iabs, sat64, spec_add, spec_sub, spec_neg, spec_mul, spec_div, spec_of_int,
    sqrt_floor, spec_sin, spec_cos, fx_add, fx_sub, fx_neg, fx_mul, fx_div, fx_sin, fx_cos,
    isqrt_u128, lemma_abs_mul,
};

verus! {

/// A homogeneous coordinate.
#[derive(Clone, Copy, PartialEq, Eq, Structural, Debug)]
pub struct Vector {
    pub x: Fx,
    pub y: Fx,
    pub z: Fx,
    pub w: Fx,
}

/// A 4x4 transform, stored as four row vectors.
#[derive(Clone, Copy, PartialEq, Eq, Structural, Debug)]
pub struct Matrix {
    pub r0: Vector,
    pub r1: Vector,
    pub r2: Vector,
    pub r3: Vector,
}

/// Raw value of the squared Euclidean magnitude of `(x, y, z)`.
pub open spec fn spec_mag_sq(v: Vector) -> int {
    v.x.raw * v.x.raw + v.y.raw * v.y.raw + v.z.raw * v.z.raw
}

/// The Euclidean magnitude of `(x, y, z)`: the raw values combine as if
/// each were an exact quantity, so the raw magnitude is the floor of the
/// square root of the raw squared sum.
pub open spec fn spec_magnitude(v: Vector) -> Fx {
    Fx { raw: sat64(sqrt_floor(spec_mag_sq(v) as nat) as int) as i64 }
}

/// `v` scaled to unit magnitude; the zero vector (whose magnitude is no
/// sub-unit at all) is left unchanged.
pub open spec fn spec_normalised(v: Vector) -> Vector {
    let m = spec_magnitude(v);
    if m.raw == 0 {
        v
    } else {
        Vector { x: spec_div(v.x, m), y: spec_div(v.y, m), z: spec_div(v.z, m), w: v.w }
    }
}

/// Dot product over the spatial part `(x, y, z)` only.
pub open spec fn spec_dot(a: Vector, b: Vector) -> Fx {
    spec_add(spec_add(spec_mul(a.x, b.x), spec_mul(a.y, b.y)), spec_mul(a.z, b.z))
}

/// Cross product; the result is a direction (`w` is zero).
pub open spec fn spec_cross(a: Vector, b: Vector) -> Vector {
    Vector {
        x: spec_sub(spec_mul(a.y, b.z), spec_mul(a.z, b.y)),
        y: spec_sub(spec_mul(a.z, b.x), spec_mul(a.x, b.z)),
        z: spec_sub(spec_mul(a.x, b.y), spec_mul(a.y, b.x)),
        w: Fx { raw: 0 },
    }
}

/// Componentwise scaling of `(x, y, z)`; `w` is kept.
pub open spec fn spec_scale(a: Vector, k: Fx) -> Vector {
    Vector { x: spec_mul(a.x, k), y: spec_mul(a.y, k), z: spec_mul(a.z, k), w: a.w }
}

/// Componentwise sum over `(x, y, z)`; `w` is kept from the left operand.
pub open spec fn spec_plus(a: Vector, b: Vector) -> Vector {
    Vector { x: spec_add(a.x, b.x), y: spec_add(a.y, b.y), z: spec_add(a.z, b.z), w: a.w }
}

/// Componentwise difference over `(x, y, z)`; `w` is kept from the left operand.
pub open spec fn spec_minus(a: Vector, b: Vector) -> Vector {
    Vector { x: spec_sub(a.x, b.x), y: spec_sub(a.y, b.y), z: spec_sub(a.z, b.z), w: a.w }
}

/// Four-term dot product of a matrix row with a full homogeneous vector.
pub open spec fn spec_dot4(a: Vector, b: Vector) -> Fx {
    spec_add(
        spec_add(spec_mul(a.x, b.x), spec_mul(a.y, b.y)),
        spec_add(spec_mul(a.z, b.z), spec_mul(a.w, b.w)),
    )
}

/// A matrix applied to a homogeneous vector (rows times the column).
pub open spec fn spec_transform(m: Matrix, v: Vector) -> Vector {
    Vector {
        x: spec_dot4(m.r0, v),
        y: spec_dot4(m.r1, v),
        z: spec_dot4(m.r2, v),
        w: spec_dot4(m.r3, v),
    }
}

/// Column `j` of a matrix, as a vector, for row-times-column composition.
pub open spec fn spec_col(m: Matrix, j: int) -> Vector {
    if j == 0 {
        Vector { x: m.r0.x, y: m.r1.x, z: m.r2.x, w: m.r3.x }
    } else if j == 1 {
        Vector { x: m.r0.y, y: m.r1.y, z: m.r2.y, w: m.r3.y }
    } else if j == 2 {
        Vector { x: m.r0.z, y: m.r1.z, z: m.r2.z, w: m.r3.z }
    } else {
        Vector { x: m.r0.w, y: m.r1.w, z: m.r2.w, w: m.r3.w }
    }
}

/// One row of a matrix product: the row dotted with each column of `b`.
pub open spec fn spec_mul_row(r: Vector, b: Matrix) -> Vector {
    Vector {
        x: spec_dot4(r, spec_col(b, 0)),
        y: spec_dot4(r, spec_col(b, 1)),
        z: spec_dot4(r, spec_col(b, 2)),
        w: spec_dot4(r, spec_col(b, 3)),
    }
}

/// Matrix product `a * b`, row by row; `a * b` applied to a vector first
/// applies `b`, then `a`.
pub open spec fn spec_mat_mul(a: Matrix, b: Matrix) -> Matrix {
    Matrix {
        r0: spec_mul_row(a.r0, b),
        r1: spec_mul_row(a.r1, b),
        r2: spec_mul_row(a.r2, b),
        r3: spec_mul_row(a.r3, b),
    }
}

/// The zero scalar, for building constant rows in spec.
pub open spec fn fx0() -> Fx {
    Fx { raw: 0 }
}

/// The unit scalar, for building constant rows in spec.
pub open spec fn fx1() -> Fx {
    Fx { raw: SCALE }
}

/// The identity transform.
pub open spec fn spec_identity() -> Matrix {
    Matrix {
        r0: Vector { x: fx1(), y: fx0(), z: fx0(), w: fx0() },
        r1: Vector { x: fx0(), y: fx1(), z: fx0(), w: fx0() },
        r2: Vector { x: fx0(), y: fx0(), z: fx1(), w: fx0() },
        r3: Vector { x: fx0(), y: fx0(), z: fx0(), w: fx1() },
    }
}

/// The translation by `v`: identity rows with `v`'s coordinates in the
/// fourth column.
pub open spec fn spec_translation(v: Vector) -> Matrix {
    Matrix {
        r0: Vector { x: fx1(), y: fx0(), z: fx0(), w: v.x },
        r1: Vector { x: fx0(), y: fx1(), z: fx0(), w: v.y },
        r2: Vector { x: fx0(), y: fx0(), z: fx1(), w: v.z },
        r3: Vector { x: fx0(), y: fx0(), z: fx0(), w: fx1() },
    }
}

/// The rotation matrix about the normalized axis by `angle`, built by the
/// Rodrigues formula; a zero-magnitude axis cannot be normalized, so the
/// build is skipped and the identity stands in.  The bottom row is always
/// `[0, 0, 0, 1]`, keeping the result a valid affine transform.
pub open spec fn spec_rotation(angle: Fx, axis: Vector) -> Matrix {
    if spec_magnitude(axis).raw == 0 {
        spec_identity()
    } else {
        let u = spec_normalised(axis);
        let s = spec_sin(angle);
        let c = spec_cos(angle);
        let oc = spec_sub(fx1(), c);
        Matrix {
            r0: Vector {
                x: spec_add(c, spec_mul(spec_mul(u.x, u.x), oc)),
                y: spec_sub(spec_mul(spec_mul(u.x, u.y), oc), spec_mul(u.z, s)),
                z: spec_add(spec_mul(spec_mul(u.x, u.z), oc), spec_mul(u.y, s)),
                w: fx0(),
            },
            r1: Vector {
                x: spec_add(spec_mul(spec_mul(u.y, u.x), oc), spec_mul(u.z, s)),
                y: spec_add(c, spec_mul(spec_mul(u.y, u.y), oc)),
                z: spec_sub(spec_mul(spec_mul(u.y, u.z), oc), spec_mul(u.x, s)),
                w: fx0(),
            },
            r2: Vector {
                x: spec_sub(spec_mul(spec_mul(u.z, u.x), oc), spec_mul(u.y, s)),
                y: spec_add(spec_mul(spec_mul(u.z, u.y), oc), spec_mul(u.x, s)),
                z: spec_add(c, spec_mul(spec_mul(u.z, u.z), oc)),
                w: fx0(),
            },
            r3: Vector { x: fx0(), y: fx0(), z: fx0(), w: fx1() },
        }
    }
}

/// The symmetric-frustum perspective projection.  When the frustum is
/// degenerate (equal near and far planes, or a vanishing tangent of the
/// half field of view, or a vanishing aspect product) the build is
/// skipped and the identity stands in.
pub open spec fn spec_perspective(angle: Fx, ratio: Fx, near: Fx, far: Fx) -> Matrix {
    let half = spec_div(angle, Fx { raw: (2 * SCALE) as i64 });
    let c = spec_cos(half);
    if c.raw == 0 {
        spec_identity()
    } else {
        let tha = spec_div(spec_sin(half), c);
        let rt = spec_mul(ratio, tha);
        let fmn = spec_sub(far, near);
        if tha.raw == 0 || rt.raw == 0 || fmn.raw == 0 {
            spec_identity()
        } else {
            Matrix {
                r0: Vector { x: spec_div(fx1(), rt), y: fx0(), z: fx0(), w: fx0() },
                r1: Vector { x: fx0(), y: spec_div(fx1(), tha), z: fx0(), w: fx0() },
                r2: Vector {
                    x: fx0(),
                    y: fx0(),
                    z: spec_neg(spec_div(spec_add(far, near), fmn)),
                    w: spec_neg(spec_div(spec_mul(Fx { raw: (2 * SCALE) as i64 }, spec_mul(far, near)), fmn)),
                },
                r3: Vector { x: fx0(), y: fx0(), z: spec_neg(fx1()), w: fx0() },
            }
        }
    }
}

impl Vector {
    /// The origin position: zero coordinates with `w` one.
    pub fn new() -> (r: Vector)
        ensures
            r == (Vector { x: Fx { raw: 0i64 }, y: Fx { raw: 0i64 }, z: Fx { raw: 0i64 }, w: Fx { raw: SCALE } }),
    {
        Vector { x: Fx { raw: 0 }, y: Fx { raw: 0 }, z: Fx { raw: 0 }, w: Fx { raw: SCALE } }
    }

    /// A vector from its four components.
    pub fn from(x: Fx, y: Fx, z: Fx, w: Fx) -> (r: Vector)
        ensures
            r == (Vector { x, y, z, w }),
    {
        Vector { x, y, z, w }
    }

    /// A position vector from whole-number coordinates (`w` is one).
    pub fn position(x: i64, y: i64, z: i64) -> (r: Vector)
        ensures
            r == (Vector {
                x: spec_of_int(x as int),
                y: spec_of_int(y as int),
                z: spec_of_int(z as int),
                w: Fx { raw: SCALE },
            }),
    {
        Vector { x: Fx::of_int(x), y: Fx::of_int(y), z: Fx::of_int(z), w: Fx { raw: SCALE } }
    }

    /// A direction vector from whole-number coordinates (`w` is zero).
    pub fn direction(x: i64, y: i64, z: i64) -> (r: Vector)
        ensures
            r == (Vector {
                x: spec_of_int(x as int),
                y: spec_of_int(y as int),
                z: spec_of_int(z as int),
                w: Fx { raw: 0i64 },
            }),
    {
        Vector { x: Fx::of_int(x), y: Fx::of_int(y), z: Fx::of_int(z), w: Fx { raw: 0 } }
    }

    /// Euclidean magnitude of the spatial part.
    pub fn magnitude(self) -> (r: Fx)
        ensures
            r == spec_magnitude(self),
    {
        let sx: u64 = raw_abs(self.x.raw);
        let sy: u64 = raw_abs(self.y.raw);
        let sz: u64 = raw_abs(self.z.raw);
        proof {
            lemma_abs_mul(self.x.raw as int, self.x.raw as int);
            lemma_abs_mul(self.y.raw as int, self.y.raw as int);
            lemma_abs_mul(self.z.raw as int, self.z.raw as int);
            assert((sx as int) * (sx as int) <= 0x40000000000000000000000000000000int
                && (sy as int) * (sy as int) <= 0x40000000000000000000000000000000int
                && (sz as int) * (sz as int) <= 0x40000000000000000000000000000000int)
                by (nonlinear_arith)
                requires
                    sx <= 0x8000000000000000u64,
                    sy <= 0x8000000000000000u64,
                    sz <= 0x8000000000000000u64;
        }
        let sum: u128 = (sx as u128) * (sx as u128) + (sy as u128) * (sy as u128)
            + (sz as u128) * (sz as u128);
        let root: u64 = isqrt_u128(sum);
        if root > i64::MAX as u64 {
            Fx { raw: i64::MAX }
        } else {
            Fx { raw: root as i64 }
        }
    }

    /// Scale the spatial part to unit magnitude in place; the zero vector
    /// is left unchanged.
    pub fn normalise(&mut self)
        ensures
            *final(self) == spec_normalised(*old(self)),
    {
        let m: Fx = self.magnitude();
        if m.raw != 0 {
            self.x = fx_div(self.x, m);
            self.y = fx_div(self.y, m);
            self.z = fx_div(self.z, m);
        }
    }

    /// The vector scaled to unit magnitude; the zero vector is returned
    /// unchanged.
    pub fn normalised(self) -> (r: Vector)
        ensures
            r == spec_normalised(self),
    {
        let mut v = self.clone();
        v.normalise();
        v
    }

    /// Dot product of the spatial parts.
    pub fn dot_product(v1: &Vector, v2: &Vector) -> (r: Fx)
        ensures
            r == spec_dot(*v1, *v2),
    {
        fx_add(fx_add(fx_mul(v1.x, v2.x), fx_mul(v1.y, v2.y)), fx_mul(v1.z, v2.z))
    }

    /// Cross product of the spatial parts; the result is a direction.
    pub fn cross_product(v1: &Vector, v2: &Vector) -> (r: Vector)
        ensures
            r == spec_cross(*v1, *v2),
    {
        Vector {
            x: fx_sub(fx_mul(v1.y, v2.z), fx_mul(v1.z, v2.y)),
            y: fx_sub(fx_mul(v1.z, v2.x), fx_mul(v1.x, v2.z)),
            z: fx_sub(fx_mul(v1.x, v2.y), fx_mul(v1.y, v2.x)),
            w: Fx { raw: 0 },
        }
    }

    /// The spatial part scaled by `k`; `w` is kept.
    pub fn scaled(self, k: Fx) -> (r: Vector)
        ensures
            r == spec_scale(self, k),
    {
        Vector { x: fx_mul(self.x, k), y: fx_mul(self.y, k), z: fx_mul(self.z, k), w: self.w }
    }

    /// Componentwise sum of the spatial parts; `w` is kept from `self`.
    pub fn plus(self, rhs: Vector) -> (r: Vector)
        ensures
            r == spec_plus(self, rhs),
    {
        Vector { x: fx_add(self.x, rhs.x), y: fx_add(self.y, rhs.y), z: fx_add(self.z, rhs.z), w: self.w }
    }

    /// Componentwise difference of the spatial parts; `w` is kept from `self`.
    pub fn minus(self, rhs: Vector) -> (r: Vector)
        ensures
            r == spec_minus(self, rhs),
    {
        Vector { x: fx_sub(self.x, rhs.x), y: fx_sub(self.y, rhs.y), z: fx_sub(self.z, rhs.z), w: self.w }
    }
}

/// Magnitude of a raw value, for the squared-sum computation.
fn raw_abs(x: i64) -> (r: u64)
    ensures
        r == iabs(x as int),
{
    if x >= 0 {
        x as u64
    } else {
        (-(x as i128)) as u64
    }
}

impl Matrix {
    /// The zero matrix.
    pub fn new() -> (r: Matrix)
        ensures
            r.r0 == (Vector { x: Fx { raw: 0i64 }, y: Fx { raw: 0i64 }, z: Fx { raw: 0i64 }, w: Fx { raw: 0i64 } }),
            r.r1 == r.r0 && r.r2 == r.r0 && r.r3 == r.r0,
    {
        let zrow = Vector { x: Fx { raw: 0 }, y: Fx { raw: 0 }, z: Fx { raw: 0 }, w: Fx { raw: 0 } };
        Matrix { r0: zrow, r1: zrow, r2: zrow, r3: zrow }
    }

    /// The identity transform.
    pub fn identity() -> (r: Matrix)
        ensures
            r == spec_identity(),
    {
        Matrix {
            r0: Vector { x: Fx { raw: SCALE }, y: Fx { raw: 0 }, z: Fx { raw: 0 }, w: Fx { raw: 0 } },
            r1: Vector { x: Fx { raw: 0 }, y: Fx { raw: SCALE }, z: Fx { raw: 0 }, w: Fx { raw: 0 } },
            r2: Vector { x: Fx { raw: 0 }, y: Fx { raw: 0 }, z: Fx { raw: SCALE }, w: Fx { raw: 0 } },
            r3: Vector { x: Fx { raw: 0 }, y: Fx { raw: 0 }, z: Fx { raw: 0 }, w: Fx { raw: SCALE } },
        }
    }

    /// The translation by `v`.
    pub fn translation(v: Vector) -> (r: Matrix)
        ensures
            r == spec_translation(v),
    {
        Matrix {
            r0: Vector { x: Fx { raw: SCALE }, y: Fx { raw: 0 }, z: Fx { raw: 0 }, w: v.x },
            r1: Vector { x: Fx { raw: 0 }, y: Fx { raw: SCALE }, z: Fx { raw: 0 }, w: v.y },
            r2: Vector { x: Fx { raw: 0 }, y: Fx { raw: 0 }, z: Fx { raw: SCALE }, w: v.z },
            r3: Vector { x: Fx { raw: 0 }, y: Fx { raw: 0 }, z: Fx { raw: 0 }, w: Fx { raw: SCALE } },
        }
    }

    /// The rotation about `axis` by `angle` (Rodrigues formula); the
    /// identity when the axis has zero magnitude.
    pub fn rotation(angle: Fx, axis: Vector) -> (r: Matrix)
        ensures
            r == spec_rotation(angle, axis),
    {
        let m: Fx = axis.magnitude();
        if m.raw == 0 {
            Matrix::identity()
        } else {
            let u: Vector = axis.normalised();
            let s: Fx = fx_sin(angle);
            let c: Fx = fx_cos(angle);
            let oc: Fx = fx_sub(Fx { raw: SCALE }, c);
            Matrix {
                r0: Vector {
                    x: fx_add(c, fx_mul(fx_mul(u.x, u.x), oc)),
                    y: fx_sub(fx_mul(fx_mul(u.x, u.y), oc), fx_mul(u.z, s)),
                    z: fx_add(fx_mul(fx_mul(u.x, u.z), oc), fx_mul(u.y, s)),
                    w: Fx { raw: 0 },
                },
                r1: Vector {
                    x: fx_add(fx_mul(fx_mul(u.y, u.x), oc), fx_mul(u.z, s)),
                    y: fx_add(c, fx_mul(fx_mul(u.y, u.y), oc)),
                    z: fx_sub(fx_mul(fx_mul(u.y, u.z), oc), fx_mul(u.x, s)),
                    w: Fx { raw: 0 },
                },
                r2: Vector {
                    x: fx_sub(fx_mul(fx_mul(u.z, u.x), oc), fx_mul(u.y, s)),
                    y: fx_add(fx_mul(fx_mul(u.z, u.y), oc), fx_mul(u.x, s)),
                    z: fx_add(c, fx_mul(fx_mul(u.z, u.z), oc)),
                    w: Fx { raw: 0 },
                },
                r3: Vector { x: Fx { raw: 0 }, y: Fx { raw: 0 }, z: Fx { raw: 0 }, w: Fx { raw: SCALE } },
            }
        }
    }

    /// The symmetric-frustum perspective projection; the identity when
    /// the frustum is degenerate.
    pub fn perspective(angle: Fx, ratio: Fx, near: Fx, far: Fx) -> (r: Matrix)
        ensures
            r == spec_perspective(angle, ratio, near, far),
    {
        let half: Fx = fx_div(angle, Fx { raw: (2 * SCALE) as i64 });
        let c: Fx = fx_cos(half);
        if c.raw == 0 {
            Matrix::identity()
        } else {
            let tha: Fx = fx_div(fx_sin(half), c);
            let rt: Fx = fx_mul(ratio, tha);
            let fmn: Fx = fx_sub(far, near);
            if tha.raw == 0 || rt.raw == 0 || fmn.raw == 0 {
                Matrix::identity()
            } else {
                Matrix {
                    r0: Vector {
                        x: fx_div(Fx { raw: SCALE }, rt),
                        y: Fx { raw: 0 },
                        z: Fx { raw: 0 },
                        w: Fx { raw: 0 },
                    },
                    r1: Vector {
                        x: Fx { raw: 0 },
                        y: fx_div(Fx { raw: SCALE }, tha),
                        z: Fx { raw: 0 },
                        w: Fx { raw: 0 },
                    },
                    r2: Vector {
                        x: Fx { raw: 0 },
                        y: Fx { raw: 0 },
                        z: fx_neg(fx_div(fx_add(far, near), fmn)),
                        w: fx_neg(fx_div(fx_mul(Fx { raw: (2 * SCALE) as i64 }, fx_mul(far, near)), fmn)),
                    },
                    r3: Vector {
                        x: Fx { raw: 0 },
                        y: Fx { raw: 0 },
                        z: Fx { raw: -SCALE },
                        w: Fx { raw: 0 },
                    },
                }
            }
        }
    }

    /// Apply the transform to a homogeneous vector.
    pub fn transform(&self, v: Vector) -> (r: Vector)
        ensures
            r == spec_transform(*self, v),
    {
        Vector {
            x: dot4(self.r0, v),
            y: dot4(self.r1, v),
            z: dot4(self.r2, v),
            w: dot4(self.r3, v),
        }
    }

    /// Matrix composition: `a.mat_mul(b)` first applies `b` to a vector,
    /// then `a`.
    pub fn mat_mul(&self, b: &Matrix) -> (r: Matrix)
        ensures
            r == spec_mat_mul(*self, *b),
    {
        let c0 = Vector { x: b.r0.x, y: b.r1.x, z: b.r2.x, w: b.r3.x };
        let c1 = Vector { x: b.r0.y, y: b.r1.y, z: b.r2.y, w: b.r3.y };
        let c2 = Vector { x: b.r0.z, y: b.r1.z, z: b.r2.z, w: b.r3.z };
        let c3 = Vector { x: b.r0.w, y: b.r1.w, z: b.r2.w, w: b.r3.w };
        Matrix {
            r0: Vector { x: dot4(self.r0, c0), y: dot4(self.r0, c1), z: dot4(self.r0, c2), w: dot4(self.r0, c3) },
            r1: Vector { x: dot4(self.r1, c0), y: dot4(self.r1, c1), z: dot4(self.r1, c2), w: dot4(self.r1, c3) },
            r2: Vector { x: dot4(self.r2, c0), y: dot4(self.r2, c1), z: dot4(self.r2, c2), w: dot4(self.r2, c3) },
            r3: Vector { x: dot4(self.r3, c0), y: dot4(self.r3, c1), z: dot4(self.r3, c2), w: dot4(self.r3, c3) },
        }
    }
}

/// The rotation at angle zero is exactly the identity transform, for
/// every axis: with a sine of zero and a cosine of one, every Rodrigues
/// entry collapses to the identity's, and a zero-magnitude axis falls
/// back to the identity anyway.
pub proof fn lemma_rotation_zero_is_identity(axis: Vector)
    ensures
        spec_rotation(Fx { raw: 0i64 }, axis) == spec_identity(),
{
    let z = Fx { raw: 0i64 };
    crate::fixed::lemma_trig_zero();
    if spec_magnitude(axis).raw != 0 {
        let u = spec_normalised(axis);
        crate::fixed::lemma_mul_zero(spec_mul(u.x, u.x));
        crate::fixed::lemma_mul_zero(spec_mul(u.x, u.y));
        crate::fixed::lemma_mul_zero(spec_mul(u.x, u.z));
        crate::fixed::lemma_mul_zero(spec_mul(u.y, u.x));
        crate::fixed::lemma_mul_zero(spec_mul(u.y, u.y));
        crate::fixed::lemma_mul_zero(spec_mul(u.y, u.z));
        crate::fixed::lemma_mul_zero(spec_mul(u.z, u.x));
        crate::fixed::lemma_mul_zero(spec_mul(u.z, u.y));
        crate::fixed::lemma_mul_zero(spec_mul(u.z, u.z));
        crate::fixed::lemma_mul_zero(u.x);
        crate::fixed::lemma_mul_zero(u.y);
        crate::fixed::lemma_mul_zero(u.z);
    }
}

/// The identity transform returns every vector unchanged, exactly.
pub proof fn lemma_identity_transform(v: Vector)
    ensures
        spec_transform(spec_identity(), v) == v,
{
    crate::fixed::lemma_mul_one(v.x);
    crate::fixed::lemma_mul_one(v.y);
    crate::fixed::lemma_mul_one(v.z);
    crate::fixed::lemma_mul_one(v.w);
    crate::fixed::lemma_mul_zero(v.x);
    crate::fixed::lemma_mul_zero(v.y);
    crate::fixed::lemma_mul_zero(v.z);
    crate::fixed::lemma_mul_zero(v.w);
}

/// Rotating any vector by angle zero, about any axis, returns it
/// unchanged, exactly.
pub proof fn lemma_rotation_zero_fixes_vector(axis: Vector, v: Vector)
    ensures
        spec_transform(spec_rotation(Fx { raw: 0i64 }, axis), v) == v,
{
    lemma_rotation_zero_is_identity(axis);
    lemma_identity_transform(v);
}

/// One row of the exact scaled Rodrigues matrix applied to the axis
/// gives back the axis component, for any sine and cosine.
proof fn lemma_rodrigues_row(s: int, c: int, a: int, b: int, g: int, kk: int, dd: int)
    requires
        a * a + b * b + g * g == dd * dd,
    ensures
        (c * dd * dd + a * a * (kk - c)) * a
            + (a * b * (kk - c) - g * s * dd) * b
            + (a * g * (kk - c) + b * s * dd) * g
            == kk * dd * dd * a,
{
    let oc = kk - c;
    assert((c * dd * dd + a * a * oc) * a == c * dd * dd * a + a * a * oc * a)
        by (nonlinear_arith);
    assert((a * b * oc - g * s * dd) * b == a * b * oc * b - g * s * dd * b)
        by (nonlinear_arith);
    assert((a * g * oc + b * s * dd) * g == a * g * oc * g + b * s * dd * g)
        by (nonlinear_arith);
    assert(g * s * dd * b == b * s * dd * g) by (nonlinear_arith);
    assert(a * oc * (a * a + b * b + g * g)
        == a * oc * (a * a) + a * oc * (b * b) + a * oc * (g * g)) by (nonlinear_arith);
    assert(a * a * oc * a == a * oc * (a * a)) by (nonlinear_arith);
    assert(a * b * oc * b == a * oc * (b * b)) by (nonlinear_arith);
    assert(a * g * oc * g == a * oc * (g * g)) by (nonlinear_arith);
    assert(a * oc * (dd * dd) == a * (kk - c) * (dd * dd)) by (nonlinear_arith)
        requires oc == kk - c;
    assert(c * dd * dd * a + a * (kk - c) * (dd * dd) == kk * dd * dd * a) by (nonlinear_arith);
    assert(a * oc * (a * a + b * b + g * g) == a * oc * (dd * dd)) by (nonlinear_arith)
        requires a * a + b * b + g * g == dd * dd;
}

/// The rotation axis is a fixed point of the rotation: over the exact
/// (unrounded) scaled Rodrigues entries — cosine `c` and sine `s` scaled
/// by `kk`, a unit axis `(ux, uy, uz)` scaled by `dd` — the matrix
/// applied to its own axis returns the axis, for every angle.  The
/// executable rotation builds these entries divided by `kk * dd * dd`
/// with rounding, so this is the algebraic law the construction rounds.
pub proof fn lemma_rotation_fixes_axis(s: int, c: int, ux: int, uy: int, uz: int, kk: int, dd: int)
    requires
        ux * ux + uy * uy + uz * uz == dd * dd,
    ensures
        (c * dd * dd + ux * ux * (kk - c)) * ux
            + (ux * uy * (kk - c) - uz * s * dd) * uy
            + (ux * uz * (kk - c) + uy * s * dd) * uz
            == kk * dd * dd * ux,
        (uy * ux * (kk - c) + uz * s * dd) * ux
            + (c * dd * dd + uy * uy * (kk - c)) * uy
            + (uy * uz * (kk - c) - ux * s * dd) * uz
            == kk * dd * dd * uy,
        (uz * ux * (kk - c) - uy * s * dd) * ux
            + (uz * uy * (kk - c) + ux * s * dd) * uy
            + (c * dd * dd + uz * uz * (kk - c)) * uz
            == kk * dd * dd * uz,
{
    lemma_rodrigues_row(s, c, ux, uy, uz, kk, dd);
    lemma_rodrigues_row(s, c, uy, uz, ux, kk, dd);
    lemma_rodrigues_row(s, c, uz, ux, uy, kk, dd);
}

/// Four-term dot product of a row with a column.
fn dot4(a: Vector, b: Vector) -> (r: Fx)
    ensures
        r == spec_dot4(a, b),
{
    fx_add(
        fx_add(fx_mul(a.x, b.x), fx_mul(a.y, b.y)),
        fx_add(fx_mul(a.z, b.z), fx_mul(a.w, b.w)),
    )
}

} // verus!
