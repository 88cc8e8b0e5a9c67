//! Fixed-point vectors and 4x4 transformation matrices.
//!
//! A `Mat4` acts on column vectors, so composing two transforms is the
//! matrix product with the outer transform on the left, exactly as the
//! scene graph composes a parent world transform with a child's local
//! transform. All scene transforms are affine (last row `0 0 0 1`), and
//! multiplication keeps them affine. Every entry is a saturating
//! fixed-point scalar; the lemmas at the bottom prove that products with
//! translation matrices are exact wherever no entry saturates, which is
//! what makes pivoted rotation and parent translation behave like their
//! real-number counterparts.

use vstd::prelude::*;
use crate::fixed::{
    FX_ONE, FX_LIMIT, fx_wf, fx_clamp, fx_scale_down, fx_dot4_spec, fx_dot4, fx_add, fx_neg,
    fx_add_spec, lemma_scale_down_add_multiple, lemma_scale_down_multiple,
};
use crate::trig::{fx_sin_spec, fx_cos_spec, fx_sin, fx_cos};

verus! {

/// A fixed-point vector with three components.
#[derive(Clone, Copy, Debug, PartialEq, Eq, Structural)]
pub struct Vec3 {
    pub x: i64,
    pub y: i64,
    pub z: i64,
}

/// All three components are well-formed scalars.
pub open spec fn vec3_wf(v: Vec3) -> bool {
    fx_wf(v.x) && fx_wf(v.y) && fx_wf(v.z)
}

impl Vec3 {
    /// Build a vector from raw fixed-point components.
    pub fn new(x: i64, y: i64, z: i64) -> (r: Vec3)
        ensures
            r.x == x && r.y == y && r.z == z,
    {
        Vec3 { x, y, z }
    }

    /// The zero vector.
    pub fn zero() -> (r: Vec3)
        ensures
            r.x == 0 && r.y == 0 && r.z == 0,
            vec3_wf(r),
    {
        Vec3 { x: 0, y: 0, z: 0 }
    }

    /// The all-ones vector (the neutral scale factor).
    pub fn unit() -> (r: Vec3)
        ensures
            r.x == FX_ONE && r.y == FX_ONE && r.z == FX_ONE,
            vec3_wf(r),
    {
        Vec3 { x: FX_ONE, y: FX_ONE, z: FX_ONE }
    }

    /// Componentwise saturating addition.
    pub fn plus(&self, o: &Vec3) -> (r: Vec3)
        requires
            vec3_wf(*self),
            vec3_wf(*o),
        ensures
            r.x as int == fx_add_spec(self.x, o.x),
            r.y as int == fx_add_spec(self.y, o.y),
            r.z as int == fx_add_spec(self.z, o.z),
            vec3_wf(r),
    {
        Vec3 { x: fx_add(self.x, o.x), y: fx_add(self.y, o.y), z: fx_add(self.z, o.z) }
    }

    /// Componentwise exact negation.
    pub fn negated(&self) -> (r: Vec3)
        requires
            vec3_wf(*self),
        ensures
            r.x as int == -(self.x as int),
            r.y as int == -(self.y as int),
            r.z as int == -(self.z as int),
            vec3_wf(r),
    {
        Vec3 { x: fx_neg(self.x), y: fx_neg(self.y), z: fx_neg(self.z) }
    }
}

/// A fixed-point 4x4 matrix; `mRC` is the entry in row `R`, column `C`.
#[derive(Clone, Copy, Debug, PartialEq, Eq, Structural)]
pub struct Mat4 {
    pub m00: i64, pub m01: i64, pub m02: i64, pub m03: i64,
    pub m10: i64, pub m11: i64, pub m12: i64, pub m13: i64,
    pub m20: i64, pub m21: i64, pub m22: i64, pub m23: i64,
    pub m30: i64, pub m31: i64, pub m32: i64, pub m33: i64,
}

/// Every entry is a well-formed scalar.
pub open spec fn mat_wf(m: Mat4) -> bool {
    &&& fx_wf(m.m00) && fx_wf(m.m01) && fx_wf(m.m02) && fx_wf(m.m03)
    &&& fx_wf(m.m10) && fx_wf(m.m11) && fx_wf(m.m12) && fx_wf(m.m13)
    &&& fx_wf(m.m20) && fx_wf(m.m21) && fx_wf(m.m22) && fx_wf(m.m23)
    &&& fx_wf(m.m30) && fx_wf(m.m31) && fx_wf(m.m32) && fx_wf(m.m33)
}

/// An affine transform: the last row is `0 0 0 1`.
pub open spec fn mat_affine(m: Mat4) -> bool {
    m.m30 == 0 && m.m31 == 0 && m.m32 == 0 && m.m33 == FX_ONE
}

/// A saturating dot of a matrix row with a matrix column, as an entry.
pub open spec fn fxd(
    a0: i64, a1: i64, a2: i64, a3: i64,
    b0: i64, b1: i64, b2: i64, b3: i64,
) -> i64 {
    fx_dot4_spec(a0, a1, a2, a3, b0, b1, b2, b3) as i64
}

/// The identity matrix.
pub open spec fn identity_spec() -> Mat4 {
    Mat4 {
        m00: FX_ONE, m01: 0, m02: 0, m03: 0,
        m10: 0, m11: FX_ONE, m12: 0, m13: 0,
        m20: 0, m21: 0, m22: FX_ONE, m23: 0,
        m30: 0, m31: 0, m32: 0, m33: FX_ONE,
    }
}

/// The matrix translating by `v`.
pub open spec fn translation_spec(v: Vec3) -> Mat4 {
    Mat4 {
        m00: FX_ONE, m01: 0, m02: 0, m03: v.x,
        m10: 0, m11: FX_ONE, m12: 0, m13: v.y,
        m20: 0, m21: 0, m22: FX_ONE, m23: v.z,
        m30: 0, m31: 0, m32: 0, m33: FX_ONE,
    }
}

/// Rotation about the x axis by `a` fixed-point radians.
pub open spec fn rotation_x_spec(a: i64) -> Mat4 {
    let c = fx_cos_spec(a as int) as i64;
    let s = fx_sin_spec(a as int) as i64;
    let ns = (-fx_sin_spec(a as int)) as i64;
    Mat4 {
        m00: FX_ONE, m01: 0, m02: 0, m03: 0,
        m10: 0, m11: c, m12: ns, m13: 0,
        m20: 0, m21: s, m22: c, m23: 0,
        m30: 0, m31: 0, m32: 0, m33: FX_ONE,
    }
}

/// Rotation about the y axis by `a` fixed-point radians.
pub open spec fn rotation_y_spec(a: i64) -> Mat4 {
    let c = fx_cos_spec(a as int) as i64;
    let s = fx_sin_spec(a as int) as i64;
    let ns = (-fx_sin_spec(a as int)) as i64;
    Mat4 {
        m00: c, m01: 0, m02: s, m03: 0,
        m10: 0, m11: FX_ONE, m12: 0, m13: 0,
        m20: ns, m21: 0, m22: c, m23: 0,
        m30: 0, m31: 0, m32: 0, m33: FX_ONE,
    }
}

/// Rotation about the z axis by `a` fixed-point radians.
pub open spec fn rotation_z_spec(a: i64) -> Mat4 {
    let c = fx_cos_spec(a as int) as i64;
    let s = fx_sin_spec(a as int) as i64;
    let ns = (-fx_sin_spec(a as int)) as i64;
    Mat4 {
        m00: c, m01: ns, m02: 0, m03: 0,
        m10: s, m11: c, m12: 0, m13: 0,
        m20: 0, m21: 0, m22: FX_ONE, m23: 0,
        m30: 0, m31: 0, m32: 0, m33: FX_ONE,
    }
}

/// The saturating fixed-point matrix product `a * b`.
#[verifier::opaque]
pub open spec fn mat_mul_spec(a: Mat4, b: Mat4) -> Mat4 {
    Mat4 {
        m00: fxd(a.m00, a.m01, a.m02, a.m03, b.m00, b.m10, b.m20, b.m30),
        m01: fxd(a.m00, a.m01, a.m02, a.m03, b.m01, b.m11, b.m21, b.m31),
        m02: fxd(a.m00, a.m01, a.m02, a.m03, b.m02, b.m12, b.m22, b.m32),
        m03: fxd(a.m00, a.m01, a.m02, a.m03, b.m03, b.m13, b.m23, b.m33),
        m10: fxd(a.m10, a.m11, a.m12, a.m13, b.m00, b.m10, b.m20, b.m30),
        m11: fxd(a.m10, a.m11, a.m12, a.m13, b.m01, b.m11, b.m21, b.m31),
        m12: fxd(a.m10, a.m11, a.m12, a.m13, b.m02, b.m12, b.m22, b.m32),
        m13: fxd(a.m10, a.m11, a.m12, a.m13, b.m03, b.m13, b.m23, b.m33),
        m20: fxd(a.m20, a.m21, a.m22, a.m23, b.m00, b.m10, b.m20, b.m30),
        m21: fxd(a.m20, a.m21, a.m22, a.m23, b.m01, b.m11, b.m21, b.m31),
        m22: fxd(a.m20, a.m21, a.m22, a.m23, b.m02, b.m12, b.m22, b.m32),
        m23: fxd(a.m20, a.m21, a.m22, a.m23, b.m03, b.m13, b.m23, b.m33),
        m30: fxd(a.m30, a.m31, a.m32, a.m33, b.m00, b.m10, b.m20, b.m30),
        m31: fxd(a.m30, a.m31, a.m32, a.m33, b.m01, b.m11, b.m21, b.m31),
        m32: fxd(a.m30, a.m31, a.m32, a.m33, b.m02, b.m12, b.m22, b.m32),
        m33: fxd(a.m30, a.m31, a.m32, a.m33, b.m03, b.m13, b.m23, b.m33),
    }
}

impl Mat4 {
    /// The identity matrix.
    pub fn identity() -> (r: Mat4)
        ensures
            r == identity_spec(),
            mat_wf(r),
            mat_affine(r),
    {
        Mat4 {
            m00: FX_ONE, m01: 0, m02: 0, m03: 0,
            m10: 0, m11: FX_ONE, m12: 0, m13: 0,
            m20: 0, m21: 0, m22: FX_ONE, m23: 0,
            m30: 0, m31: 0, m32: 0, m33: FX_ONE,
        }
    }

    /// The matrix translating by `v`.
    pub fn translation(v: &Vec3) -> (r: Mat4)
        requires
            vec3_wf(*v),
        ensures
            r == translation_spec(*v),
            mat_wf(r),
            mat_affine(r),
    {
        Mat4 {
            m00: FX_ONE, m01: 0, m02: 0, m03: v.x,
            m10: 0, m11: FX_ONE, m12: 0, m13: v.y,
            m20: 0, m21: 0, m22: FX_ONE, m23: v.z,
            m30: 0, m31: 0, m32: 0, m33: FX_ONE,
        }
    }

    /// Rotation about the x axis.
    pub fn rotation_x(a: i64) -> (r: Mat4)
        requires
            fx_wf(a),
        ensures
            r == rotation_x_spec(a),
            mat_wf(r),
            mat_affine(r),
    {
        let c = fx_cos(a);
        let s = fx_sin(a);
        Mat4 {
            m00: FX_ONE, m01: 0, m02: 0, m03: 0,
            m10: 0, m11: c, m12: -s, m13: 0,
            m20: 0, m21: s, m22: c, m23: 0,
            m30: 0, m31: 0, m32: 0, m33: FX_ONE,
        }
    }

    /// Rotation about the y axis.
    pub fn rotation_y(a: i64) -> (r: Mat4)
        requires
            fx_wf(a),
        ensures
            r == rotation_y_spec(a),
            mat_wf(r),
            mat_affine(r),
    {
        let c = fx_cos(a);
        let s = fx_sin(a);
        Mat4 {
            m00: c, m01: 0, m02: s, m03: 0,
            m10: 0, m11: FX_ONE, m12: 0, m13: 0,
            m20: -s, m21: 0, m22: c, m23: 0,
            m30: 0, m31: 0, m32: 0, m33: FX_ONE,
        }
    }

    /// Rotation about the z axis.
    pub fn rotation_z(a: i64) -> (r: Mat4)
        requires
            fx_wf(a),
        ensures
            r == rotation_z_spec(a),
            mat_wf(r),
            mat_affine(r),
    {
        let c = fx_cos(a);
        let s = fx_sin(a);
        Mat4 {
            m00: c, m01: -s, m02: 0, m03: 0,
            m10: s, m11: c, m12: 0, m13: 0,
            m20: 0, m21: 0, m22: FX_ONE, m23: 0,
            m30: 0, m31: 0, m32: 0, m33: FX_ONE,
        }
    }

    /// The saturating matrix product `self * o`.
    pub fn multiply(&self, o: &Mat4) -> (r: Mat4)
        requires
            mat_wf(*self),
            mat_wf(*o),
        ensures
            r == mat_mul_spec(*self, *o),
            mat_wf(r),
    {
        proof {
            reveal(mat_mul_spec);
        }
        let a = self;
        let b = o;
        Mat4 {
            m00: fx_dot4(a.m00, a.m01, a.m02, a.m03, b.m00, b.m10, b.m20, b.m30),
            m01: fx_dot4(a.m00, a.m01, a.m02, a.m03, b.m01, b.m11, b.m21, b.m31),
            m02: fx_dot4(a.m00, a.m01, a.m02, a.m03, b.m02, b.m12, b.m22, b.m32),
            m03: fx_dot4(a.m00, a.m01, a.m02, a.m03, b.m03, b.m13, b.m23, b.m33),
            m10: fx_dot4(a.m10, a.m11, a.m12, a.m13, b.m00, b.m10, b.m20, b.m30),
            m11: fx_dot4(a.m10, a.m11, a.m12, a.m13, b.m01, b.m11, b.m21, b.m31),
            m12: fx_dot4(a.m10, a.m11, a.m12, a.m13, b.m02, b.m12, b.m22, b.m32),
            m13: fx_dot4(a.m10, a.m11, a.m12, a.m13, b.m03, b.m13, b.m23, b.m33),
            m20: fx_dot4(a.m20, a.m21, a.m22, a.m23, b.m00, b.m10, b.m20, b.m30),
            m21: fx_dot4(a.m20, a.m21, a.m22, a.m23, b.m01, b.m11, b.m21, b.m31),
            m22: fx_dot4(a.m20, a.m21, a.m22, a.m23, b.m02, b.m12, b.m22, b.m32),
            m23: fx_dot4(a.m20, a.m21, a.m22, a.m23, b.m03, b.m13, b.m23, b.m33),
            m30: fx_dot4(a.m30, a.m31, a.m32, a.m33, b.m00, b.m10, b.m20, b.m30),
            m31: fx_dot4(a.m30, a.m31, a.m32, a.m33, b.m01, b.m11, b.m21, b.m31),
            m32: fx_dot4(a.m30, a.m31, a.m32, a.m33, b.m02, b.m12, b.m22, b.m32),
            m33: fx_dot4(a.m30, a.m31, a.m32, a.m33, b.m03, b.m13, b.m23, b.m33),
        }
    }

    /// Apply the transform to a point (a column vector with unit weight).
    pub fn transform_point(&self, v: &Vec3) -> (r: Vec3)
        requires
            mat_wf(*self),
            vec3_wf(*v),
        ensures
            r == transform_point_spec(*self, *v),
            vec3_wf(r),
    {
        Vec3 {
            x: fx_dot4(self.m00, self.m01, self.m02, self.m03, v.x, v.y, v.z, FX_ONE),
            y: fx_dot4(self.m10, self.m11, self.m12, self.m13, v.x, v.y, v.z, FX_ONE),
            z: fx_dot4(self.m20, self.m21, self.m22, self.m23, v.x, v.y, v.z, FX_ONE),
        }
    }
}

/// The point `v` carried through the transform `m`.
pub open spec fn transform_point_spec(m: Mat4, v: Vec3) -> Vec3 {
    Vec3 {
        x: fxd(m.m00, m.m01, m.m02, m.m03, v.x, v.y, v.z, FX_ONE),
        y: fxd(m.m10, m.m11, m.m12, m.m13, v.x, v.y, v.z, FX_ONE),
        z: fxd(m.m20, m.m21, m.m22, m.m23, v.x, v.y, v.z, FX_ONE),
    }
}

/// A rotation matrix about the x axis is well formed, affine, and sits
/// at the origin.
pub proof fn rotation_x_shape(a: i64)
    ensures
        mat_wf(rotation_x_spec(a)),
        mat_affine(rotation_x_spec(a)),
        rotation_x_spec(a).m03 == 0 && rotation_x_spec(a).m13 == 0 && rotation_x_spec(a).m23
            == 0,
{
    crate::trig::lemma_sin_spec_range(a as int);
    crate::trig::lemma_cos_spec_range(a as int);
}

/// A rotation matrix about the y axis is well formed, affine, and sits
/// at the origin.
pub proof fn rotation_y_shape(a: i64)
    ensures
        mat_wf(rotation_y_spec(a)),
        mat_affine(rotation_y_spec(a)),
        rotation_y_spec(a).m03 == 0 && rotation_y_spec(a).m13 == 0 && rotation_y_spec(a).m23
            == 0,
{
    crate::trig::lemma_sin_spec_range(a as int);
    crate::trig::lemma_cos_spec_range(a as int);
}

/// A rotation matrix about the z axis is well formed, affine, and sits
/// at the origin.
pub proof fn rotation_z_shape(a: i64)
    ensures
        mat_wf(rotation_z_spec(a)),
        mat_affine(rotation_z_spec(a)),
        rotation_z_spec(a).m03 == 0 && rotation_z_spec(a).m13 == 0 && rotation_z_spec(a).m23
            == 0,
{
    crate::trig::lemma_sin_spec_range(a as int);
    crate::trig::lemma_cos_spec_range(a as int);
}

/// A product of well-formed matrices is well formed.
pub proof fn lemma_mul_wf(a: Mat4, b: Mat4)
    ensures
        mat_wf(mat_mul_spec(a, b)),
{
    reveal(mat_mul_spec);
}

/// Multiplying two affine transforms gives an affine transform, with the
/// last row computed exactly.
pub proof fn lemma_mul_affine(a: Mat4, b: Mat4)
    requires
        mat_wf(a),
        mat_wf(b),
        mat_affine(a),
        mat_affine(b),
    ensures
        mat_affine(mat_mul_spec(a, b)),
{
    reveal(mat_mul_spec);
    lemma_scale_down_multiple(0);
    lemma_scale_down_multiple(FX_ONE as int);
}

/// Multiplying by the identity on the left changes nothing.
pub proof fn lemma_mul_identity_left(m: Mat4)
    requires
        mat_wf(m),
    ensures
        mat_mul_spec(identity_spec(), m) == m,
{
    reveal(mat_mul_spec);
    lemma_scale_down_multiple(m.m00 as int);
    lemma_scale_down_multiple(m.m01 as int);
    lemma_scale_down_multiple(m.m02 as int);
    lemma_scale_down_multiple(m.m03 as int);
    lemma_scale_down_multiple(m.m10 as int);
    lemma_scale_down_multiple(m.m11 as int);
    lemma_scale_down_multiple(m.m12 as int);
    lemma_scale_down_multiple(m.m13 as int);
    lemma_scale_down_multiple(m.m20 as int);
    lemma_scale_down_multiple(m.m21 as int);
    lemma_scale_down_multiple(m.m22 as int);
    lemma_scale_down_multiple(m.m23 as int);
    lemma_scale_down_multiple(m.m30 as int);
    lemma_scale_down_multiple(m.m31 as int);
    lemma_scale_down_multiple(m.m32 as int);
    lemma_scale_down_multiple(m.m33 as int);
}

/// Multiplying an affine matrix by a translation on the left leaves the
/// three linear columns untouched and shifts the position column exactly
/// (up to the clamp).
pub proof fn lemma_translation_mul_left(v: Vec3, m: Mat4)
    requires
        vec3_wf(v),
        mat_wf(m),
        mat_affine(m),
    ensures
        ({
            let r = mat_mul_spec(translation_spec(v), m);
            &&& r.m00 == m.m00 && r.m01 == m.m01 && r.m02 == m.m02
            &&& r.m10 == m.m10 && r.m11 == m.m11 && r.m12 == m.m12
            &&& r.m20 == m.m20 && r.m21 == m.m21 && r.m22 == m.m22
            &&& r.m30 == m.m30 && r.m31 == m.m31 && r.m32 == m.m32 && r.m33 == m.m33
            &&& r.m03 as int == fx_clamp(m.m03 + v.x)
            &&& r.m13 as int == fx_clamp(m.m13 + v.y)
            &&& r.m23 as int == fx_clamp(m.m23 + v.z)
            &&& mat_affine(r)
        }),
{
    reveal(mat_mul_spec);
    lemma_scale_down_multiple(m.m00 as int);
    lemma_scale_down_multiple(m.m01 as int);
    lemma_scale_down_multiple(m.m02 as int);
    lemma_scale_down_multiple(m.m10 as int);
    lemma_scale_down_multiple(m.m11 as int);
    lemma_scale_down_multiple(m.m12 as int);
    lemma_scale_down_multiple(m.m20 as int);
    lemma_scale_down_multiple(m.m21 as int);
    lemma_scale_down_multiple(m.m22 as int);
    lemma_scale_down_multiple(0);
    lemma_scale_down_multiple(FX_ONE as int);
    lemma_scale_down_add_multiple(m.m03 * FX_ONE, v.x as int);
    lemma_scale_down_add_multiple(m.m13 * FX_ONE, v.y as int);
    lemma_scale_down_add_multiple(m.m23 * FX_ONE, v.z as int);
    lemma_scale_down_multiple(m.m03 as int);
    lemma_scale_down_multiple(m.m13 as int);
    lemma_scale_down_multiple(m.m23 as int);
}

/// Two translations compose into the translation by the saturating sum.
pub proof fn lemma_translation_compose(u: Vec3, v: Vec3)
    requires
        vec3_wf(u),
        vec3_wf(v),
    ensures
        ({
            let r = mat_mul_spec(translation_spec(u), translation_spec(v));
            &&& r.m03 as int == fx_clamp(u.x + v.x)
            &&& r.m13 as int == fx_clamp(u.y + v.y)
            &&& r.m23 as int == fx_clamp(u.z + v.z)
            &&& r.m00 == FX_ONE && r.m11 == FX_ONE && r.m22 == FX_ONE
            &&& r.m01 == 0 && r.m02 == 0 && r.m10 == 0 && r.m12 == 0 && r.m20 == 0 && r.m21 == 0
            &&& mat_affine(r)
        }),
{
    lemma_translation_mul_left(u, translation_spec(v));
}

/// Multiplying a translation onto an affine matrix from the right keeps
/// the three linear columns and the last row untouched; the position
/// column becomes the transformed translation vector.
pub proof fn lemma_translation_mul_right(m: Mat4, v: Vec3)
    requires
        mat_wf(m),
        vec3_wf(v),
        mat_affine(m),
    ensures
        ({
            let r = mat_mul_spec(m, translation_spec(v));
            &&& r.m00 == m.m00 && r.m01 == m.m01 && r.m02 == m.m02
            &&& r.m10 == m.m10 && r.m11 == m.m11 && r.m12 == m.m12
            &&& r.m20 == m.m20 && r.m21 == m.m21 && r.m22 == m.m22
            &&& r.m03 as int == fx_clamp(
                fx_scale_down(m.m00 * v.x + m.m01 * v.y + m.m02 * v.z + m.m03 * FX_ONE),
            )
            &&& r.m13 as int == fx_clamp(
                fx_scale_down(m.m10 * v.x + m.m11 * v.y + m.m12 * v.z + m.m13 * FX_ONE),
            )
            &&& r.m23 as int == fx_clamp(
                fx_scale_down(m.m20 * v.x + m.m21 * v.y + m.m22 * v.z + m.m23 * FX_ONE),
            )
            &&& mat_affine(r)
        }),
{
    reveal(mat_mul_spec);
    lemma_scale_down_multiple(m.m00 as int);
    lemma_scale_down_multiple(m.m01 as int);
    lemma_scale_down_multiple(m.m02 as int);
    lemma_scale_down_multiple(m.m10 as int);
    lemma_scale_down_multiple(m.m11 as int);
    lemma_scale_down_multiple(m.m12 as int);
    lemma_scale_down_multiple(m.m20 as int);
    lemma_scale_down_multiple(m.m21 as int);
    lemma_scale_down_multiple(m.m22 as int);
    lemma_scale_down_multiple(0);
    lemma_scale_down_multiple(FX_ONE as int);
}

/// A product of two affine matrices with zero position columns again has
/// a zero position column.
pub proof fn lemma_zero_position_mul(a: Mat4, b: Mat4)
    requires
        mat_wf(a),
        mat_wf(b),
        mat_affine(a),
        mat_affine(b),
        a.m03 == 0 && a.m13 == 0 && a.m23 == 0,
        b.m03 == 0 && b.m13 == 0 && b.m23 == 0,
    ensures
        ({
            let r = mat_mul_spec(a, b);
            r.m03 == 0 && r.m13 == 0 && r.m23 == 0 && mat_affine(r)
        }),
{
    lemma_mul_affine(a, b);
    reveal(mat_mul_spec);
    lemma_scale_down_multiple(0);
}

/// The second matrix is the first with its position column shifted by
/// exactly `d` and every other entry unchanged.
pub open spec fn shifted_by(w1: Mat4, w2: Mat4, d: Vec3) -> bool {
    &&& w2.m00 == w1.m00 && w2.m01 == w1.m01 && w2.m02 == w1.m02
    &&& w2.m10 == w1.m10 && w2.m11 == w1.m11 && w2.m12 == w1.m12
    &&& w2.m20 == w1.m20 && w2.m21 == w1.m21 && w2.m22 == w1.m22
    &&& w2.m30 == w1.m30 && w2.m31 == w1.m31 && w2.m32 == w1.m32 && w2.m33 == w1.m33
    &&& w2.m03 as int == w1.m03 + d.x
    &&& w2.m13 as int == w1.m13 + d.y
    &&& w2.m23 as int == w1.m23 + d.z
}

/// Room to shift: the position entries sit strictly inside the clamp
/// range and stay within it once shifted by `d`.
pub open spec fn shift_headroom(w: Mat4, d: Vec3) -> bool {
    &&& -(FX_LIMIT as int) < w.m03 < FX_LIMIT as int
    &&& -(FX_LIMIT as int) < w.m13 < FX_LIMIT as int
    &&& -(FX_LIMIT as int) < w.m23 < FX_LIMIT as int
    &&& -(FX_LIMIT as int) <= w.m03 + d.x <= FX_LIMIT as int
    &&& -(FX_LIMIT as int) <= w.m13 + d.y <= FX_LIMIT as int
    &&& -(FX_LIMIT as int) <= w.m23 + d.z <= FX_LIMIT as int
}

/// A pure translation: the matrix is the translation by its own position
/// column.
pub open spec fn translation_form(m: Mat4) -> bool {
    m == translation_spec(Vec3 { x: m.m03, y: m.m13, z: m.m23 })
}

/// An exact position shift of the left factor survives a product with an
/// affine matrix, wherever the product has room for the shift: the two
/// products again differ by exactly that shift. This is what carries a
/// parent translation through a whole chain of descendants, whatever
/// their rotations.
pub proof fn lemma_shifted_mul(w1: Mat4, w2: Mat4, l: Mat4, d: Vec3)
    requires
        mat_wf(w1),
        mat_wf(w2),
        mat_wf(l),
        vec3_wf(d),
        mat_affine(l),
        shifted_by(w1, w2, d),
        shift_headroom(mat_mul_spec(w1, l), d),
    ensures
        shifted_by(mat_mul_spec(w1, l), mat_mul_spec(w2, l), d),
{
    reveal(mat_mul_spec);
    lemma_scale_down_add_multiple(
        w1.m00 * l.m03 + w1.m01 * l.m13 + w1.m02 * l.m23 + w1.m03 * FX_ONE,
        d.x as int,
    );
    lemma_scale_down_add_multiple(
        w1.m10 * l.m03 + w1.m11 * l.m13 + w1.m12 * l.m23 + w1.m13 * FX_ONE,
        d.y as int,
    );
    lemma_scale_down_add_multiple(
        w1.m20 * l.m03 + w1.m21 * l.m13 + w1.m22 * l.m23 + w1.m23 * FX_ONE,
        d.z as int,
    );
    assert(w2.m03 * FX_ONE == w1.m03 * FX_ONE + (d.x as int) * FX_ONE) by (nonlinear_arith)
        requires
            w2.m03 as int == w1.m03 + d.x,
    {}
    assert(w2.m13 * FX_ONE == w1.m13 * FX_ONE + (d.y as int) * FX_ONE) by (nonlinear_arith)
        requires
            w2.m13 as int == w1.m13 + d.y,
    {}
    assert(w2.m23 * FX_ONE == w1.m23 * FX_ONE + (d.z as int) * FX_ONE) by (nonlinear_arith)
        requires
            w2.m23 as int == w1.m23 + d.z,
    {}
}

/// Translating by `v` and then by its negation is the identity: the
/// translation matrix of the negated vector is an exact inverse.
pub proof fn lemma_translation_inverse(v: Vec3, n: Vec3)
    requires
        vec3_wf(v),
        n.x as int == -(v.x as int),
        n.y as int == -(v.y as int),
        n.z as int == -(v.z as int),
    ensures
        mat_mul_spec(translation_spec(v), translation_spec(n)) == identity_spec(),
{
    lemma_translation_mul_left(v, translation_spec(n));
}

} // verus!
