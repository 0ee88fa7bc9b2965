//! Plain value types shared by every module: identifiers, colours,
//! fixed-point transforms and rectangles.

use vstd::prelude::*;

verus! {

/// Stacking slot of a child inside its parent.
pub type Depth = i16;

/// One-based frame index of a timeline.
pub type FrameNumber = u16;

/// Key of a character template in the library.
pub type CharacterId = u16;

/// A length in twentieths of a pixel.
pub type Twips = i32;

/// Number of twips in one pixel.
pub const TWIPS_PER_PIXEL: i32 = 20;

/// The value `1.0` of a 16.16 fixed-point factor.
pub const FIXED_ONE: i32 = 0x1_0000;

/// The value `1.0` of an 8.8 fixed-point factor.
pub const FIXED8_ONE: i16 = 0x100;

/// An RGBA colour.
#[derive(Clone, Copy, Debug, PartialEq, Eq, Structural)]
pub struct Color {
    pub r: u8,
    pub g: u8,
    pub b: u8,
    pub a: u8,
}

/// A two-dimensional affine transform in the movie format's own fixed-point
/// encoding: `a`, `b`, `c`, `d` are 16.16 fixed-point factors, `tx` and `ty`
/// are twips.
#[derive(Clone, Copy, Debug, PartialEq, Eq, Structural)]
pub struct Matrix {
    pub a: i32,
    pub b: i32,
    pub c: i32,
    pub d: i32,
    pub tx: Twips,
    pub ty: Twips,
}

/// `v` kept within the range of a coordinate.
pub open spec fn saturate(v: int) -> Twips {
    if v > i32::MAX {
        i32::MAX
    } else if v < i32::MIN {
        i32::MIN
    } else {
        v as Twips
    }
}

/// Keeps a number within the range of a coordinate.
pub fn saturate_exec(v: i128) -> (t: Twips)
    ensures
        t == saturate(v as int),
{
    if v > i32::MAX as i128 {
        i32::MAX
    } else if v < i32::MIN as i128 {
        i32::MIN
    } else {
        v as i32
    }
}

/// The quotient of `n` by a positive `d`, rounded down.
fn div_floor(n: i128, d: i128) -> (q: i128)
    requires
        d > 0,
        n > i128::MIN + d,
    ensures
        q == n as int / d as int,
{
    if n >= 0 {
        n / d
    } else {
        let m: i128 = -n;
        let up: i128 = (m + d - 1) / d;
        proof {
            let mi = m as int;
            let di = d as int;
            let qi = (mi + di - 1) / di;
            let ri = (mi + di - 1) % di;
            vstd::arithmetic::div_mod::lemma_fundamental_div_mod(mi + di - 1, di);
            assert(-mi == (-qi) * di + (di - 1 - ri)) by (nonlinear_arith)
                requires
                    mi + di - 1 == di * qi + ri,
            ;
            vstd::arithmetic::div_mod::lemma_fundamental_div_mod_converse(
                -mi,
                di,
                -qi,
                di - 1 - ri,
            );
        }
        -up
    }
}

impl Matrix {
    /// Where the transform takes the point `p`. The factors are 16.16
    /// fixed point: the products are divided by 65536 and rounded down; the
    /// result is kept within the range of a coordinate.
    pub open spec fn spec_apply(self, p: (Twips, Twips)) -> (Twips, Twips) {
        (
            saturate((self.a * p.0 + self.c * p.1) / 0x1_0000 + self.tx),
            saturate((self.b * p.0 + self.d * p.1) / 0x1_0000 + self.ty),
        )
    }

    /// Takes the point `p` through the transform.
    pub fn apply(&self, p: (Twips, Twips)) -> (q: (Twips, Twips))
        ensures
            q == self.spec_apply(p),
    {
        let x = fixed_combination(self.a, p.0, self.c, p.1, self.tx);
        let y = fixed_combination(self.b, p.0, self.d, p.1, self.ty);
        (x, y)
    }

    /// The transform that maps every point to itself.
    pub open spec fn spec_identity() -> Matrix {
        Matrix { a: FIXED_ONE, b: 0, c: 0, d: FIXED_ONE, tx: 0, ty: 0 }
    }

    /// Returns the identity transform.
    #[verifier::when_used_as_spec(spec_identity)]
    pub fn identity() -> (m: Matrix)
        ensures
            m == Matrix::spec_identity(),
    {
        Matrix { a: FIXED_ONE, b: 0, c: 0, d: FIXED_ONE, tx: 0, ty: 0 }
    }
}

/// `(f1 * v1 + f2 * v2) / 65536 + t`, rounded down and kept within the
/// range of a coordinate.
fn fixed_combination(f1: i32, v1: Twips, f2: i32, v2: Twips, t: Twips) -> (r: Twips)
    ensures
        r == saturate((f1 * v1 + f2 * v2) / 0x1_0000 + t),
{
    assert(-0x4000_0000_0000_0000 <= f1 * v1 <= 0x4000_0000_0000_0000) by (nonlinear_arith)
        requires
            -0x8000_0000 <= f1 <= 0x7fff_ffff,
            -0x8000_0000 <= v1 <= 0x7fff_ffff,
    ;
    assert(-0x4000_0000_0000_0000 <= f2 * v2 <= 0x4000_0000_0000_0000) by (nonlinear_arith)
        requires
            -0x8000_0000 <= f2 <= 0x7fff_ffff,
            -0x8000_0000 <= v2 <= 0x7fff_ffff,
    ;
    let sum: i128 = (f1 as i128) * (v1 as i128) + (f2 as i128) * (v2 as i128);
    let scaled = div_floor(sum, 0x1_0000);
    saturate_exec(scaled + t as i128)
}

/// A per-channel colour transform: each channel is multiplied by an 8.8
/// fixed-point factor and then offset by an addend.
#[derive(Clone, Copy, Debug, PartialEq, Eq, Structural)]
pub struct ColorTransform {
    pub r_mult: i16,
    pub g_mult: i16,
    pub b_mult: i16,
    pub a_mult: i16,
    pub r_add: i16,
    pub g_add: i16,
    pub b_add: i16,
    pub a_add: i16,
}

impl ColorTransform {
    /// The transform that leaves every colour unchanged.
    pub open spec fn spec_identity() -> ColorTransform {
        ColorTransform {
            r_mult: FIXED8_ONE,
            g_mult: FIXED8_ONE,
            b_mult: FIXED8_ONE,
            a_mult: FIXED8_ONE,
            r_add: 0,
            g_add: 0,
            b_add: 0,
            a_add: 0,
        }
    }

    /// Returns the identity colour transform.
    #[verifier::when_used_as_spec(spec_identity)]
    pub fn identity() -> (c: ColorTransform)
        ensures
            c == ColorTransform::spec_identity(),
    {
        ColorTransform {
            r_mult: FIXED8_ONE,
            g_mult: FIXED8_ONE,
            b_mult: FIXED8_ONE,
            a_mult: FIXED8_ONE,
            r_add: 0,
            g_add: 0,
            b_add: 0,
            a_add: 0,
        }
    }
}

/// An axis-aligned rectangle in twips.
#[derive(Clone, Copy, Debug, PartialEq, Eq, Structural)]
pub struct Rectangle {
    pub x_min: Twips,
    pub x_max: Twips,
    pub y_min: Twips,
    pub y_max: Twips,
}

/// A half-open range of byte offsets into the shared movie data.
#[derive(Clone, Copy, Debug, PartialEq, Eq, Structural)]
pub struct SwfSlice {
    pub start: u64,
    pub end: u64,
}

/// The larger of two coordinates.
pub open spec fn spec_max(a: int, b: int) -> int {
    if a >= b {
        a
    } else {
        b
    }
}

/// The smaller of two coordinates.
pub open spec fn spec_min(a: int, b: int) -> int {
    if a <= b {
        a
    } else {
        b
    }
}

/// `v` limited to at most `hi`, then raised to at least `lo`.
pub open spec fn spec_clamp(v: int, lo: int, hi: int) -> int {
    spec_max(spec_min(v, hi), lo)
}

/// A rectangle that may be absent: when `valid` is false it bounds nothing
/// and constrains nothing.
#[derive(Clone, Copy, Debug, PartialEq, Eq, Structural)]
pub struct BoundingBox {
    pub x_min: Twips,
    pub y_min: Twips,
    pub x_max: Twips,
    pub y_max: Twips,
    pub valid: bool,
}

impl BoundingBox {
    /// The point `p` moved into the box, coordinate by coordinate; an invalid
    /// box leaves every point where it is.
    pub open spec fn spec_clamp(self, p: (Twips, Twips)) -> (Twips, Twips) {
        if self.valid {
            (
                spec_clamp(p.0 as int, self.x_min as int, self.x_max as int) as Twips,
                spec_clamp(p.1 as int, self.y_min as int, self.y_max as int) as Twips,
            )
        } else {
            p
        }
    }

    /// Moves `p` into the box.
    pub fn clamp(&self, p: (Twips, Twips)) -> (q: (Twips, Twips))
        ensures
            q == self.spec_clamp(p),
    {
        if self.valid {
            let x: Twips = if p.0 <= self.x_max { p.0 } else { self.x_max };
            let x: Twips = if x >= self.x_min { x } else { self.x_min };
            let y: Twips = if p.1 <= self.y_max { p.1 } else { self.y_max };
            let y: Twips = if y >= self.y_min { y } else { self.y_min };
            (x, y)
        } else {
            p
        }
    }

    /// The box that constrains nothing: it is not valid, and its corners are
    /// at the origin.
    pub open spec fn spec_unbounded() -> BoundingBox {
        BoundingBox { x_min: 0, y_min: 0, x_max: 0, y_max: 0, valid: false }
    }

    /// The box that constrains nothing.
    #[verifier::when_used_as_spec(spec_unbounded)]
    pub fn unbounded() -> (b: BoundingBox)
        ensures
            b == BoundingBox::spec_unbounded(),
            forall|p: (Twips, Twips)| b.spec_clamp(p) == p,
    {
        BoundingBox { x_min: 0, y_min: 0, x_max: 0, y_max: 0, valid: false }
    }
}

} // verus!
