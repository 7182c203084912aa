//! Integer geometry.
//!
//! Every coordinate is a whole number of layout units, [`UNITS_PER_PIXEL`] of
//! them to a pixel, held in an `i32`. Arithmetic on coordinates saturates at
//! the ends of that range, so no operation here can overflow.

use vstd::prelude::*;

verus! {

/// The number of layout units in one pixel.
pub const UNITS_PER_PIXEL: i32 = 64;

/// The nearest value to `v` that a coordinate can hold.
pub open spec fn clamp_unit(v: int) -> int {
    if v < i32::MIN {
        i32::MIN as int
    } else if v > i32::MAX {
        i32::MAX as int
    } else {
        v
    }
}

/// Brings a wide intermediate value back into the coordinate range.
pub fn saturate(v: i128) -> (r: i32)
    ensures
        r == clamp_unit(v as int),
{
    if v < i32::MIN as i128 {
        i32::MIN
    } else if v > i32::MAX as i128 {
        i32::MAX
    } else {
        v as i32
    }
}

/// Saturating sum of two coordinates.
pub fn sat_add(a: i32, b: i32) -> (r: i32)
    ensures
        r == clamp_unit(a + b),
{
    saturate(a as i128 + b as i128)
}

/// Saturating difference of two coordinates.
pub fn sat_sub(a: i32, b: i32) -> (r: i32)
    ensures
        r == clamp_unit(a - b),
{
    saturate(a as i128 - b as i128)
}

/// The quotient of `a` by a positive `b`, rounded towards negative infinity.
pub open spec fn floor_div(a: int, b: int) -> int {
    a / b
}

/// Half of `v`, rounded towards negative infinity.
pub open spec fn half(v: int) -> int {
    floor_div(v, 2)
}

/// Division of wide values that rounds towards negative infinity, whatever
/// the sign of the dividend.
pub fn div_floor(a: i128, b: i128) -> (r: i128)
    requires
        b > 0,
    ensures
        r == floor_div(a as int, b as int),
{
    if a >= 0 {
        a / b
    } else {
        let n: i128 = -(a + 1);
        let q: i128 = n / b;
        proof {
            let ai = a as int;
            let bi = b as int;
            let ni = n as int;
            let qi = q as int;
            assert(ni == qi * bi + ni % bi && 0 <= ni % bi < bi) by {
                vstd::arithmetic::div_mod::lemma_fundamental_div_mod(ni, bi);
                vstd::arithmetic::div_mod::lemma_mod_bound(ni, bi);
                assert(bi * qi == qi * bi) by (nonlinear_arith);
            }
            let rem = bi - 1 - ni % bi;
            assert(ai == (-qi - 1) * bi + rem) by (nonlinear_arith)
                requires
                    ni == qi * bi + ni % bi,
                    ni == -(ai + 1),
                    rem == bi - 1 - ni % bi,
            ;
            vstd::arithmetic::div_mod::lemma_fundamental_div_mod_converse(ai, bi, -qi - 1, rem);
        }
        -q - 1
    }
}

/// Half of a wide value, rounded towards negative infinity.
pub fn half_floor(v: i128) -> (r: i128)
    ensures
        r == half(v as int),
{
    div_floor(v, 2)
}

/// A displacement or a size, in layout units.
#[derive(Copy, Clone, Debug, PartialEq, Eq, Hash, Structural)]
pub struct Vec2 {
    pub x: i32,
    pub y: i32,
}

/// A point, in layout units.
#[derive(Copy, Clone, Debug, PartialEq, Eq, Hash, Structural)]
pub struct Pos2 {
    pub x: i32,
    pub y: i32,
}

/// An axis-aligned rectangle given by two corners. Nothing asks that `min`
/// lies before `max`: a rectangle built from a negative size is inverted and
/// contains no point.
#[derive(Copy, Clone, Debug, PartialEq, Eq, Hash, Structural)]
pub struct Rect {
    pub min: Pos2,
    pub max: Pos2,
}

impl Vec2 {
    pub open spec fn zero_spec() -> Vec2 {
        Vec2 { x: 0, y: 0 }
    }

    /// Component-wise saturating sum.
    pub open spec fn plus_spec(self, other: Vec2) -> Vec2 {
        Vec2 { x: clamp_unit(self.x + other.x) as i32, y: clamp_unit(self.y + other.y) as i32 }
    }

    /// Component-wise saturating difference.
    pub open spec fn minus_spec(self, other: Vec2) -> Vec2 {
        Vec2 { x: clamp_unit(self.x - other.x) as i32, y: clamp_unit(self.y - other.y) as i32 }
    }

    /// Component-wise half, rounded towards negative infinity.
    pub open spec fn halved_spec(self) -> Vec2 {
        Vec2 { x: half(self.x as int) as i32, y: half(self.y as int) as i32 }
    }

    pub fn new(x: i32, y: i32) -> (v: Vec2)
        ensures
            v == (Vec2 { x, y }),
    {
        Vec2 { x, y }
    }

    pub fn zero() -> (v: Vec2)
        ensures
            v == Vec2::zero_spec(),
    {
        Vec2 { x: 0, y: 0 }
    }

    pub fn plus(self, other: Vec2) -> (v: Vec2)
        ensures
            v == self.plus_spec(other),
    {
        Vec2 { x: sat_add(self.x, other.x), y: sat_add(self.y, other.y) }
    }

    pub fn minus(self, other: Vec2) -> (v: Vec2)
        ensures
            v == self.minus_spec(other),
    {
        Vec2 { x: sat_sub(self.x, other.x), y: sat_sub(self.y, other.y) }
    }

    pub fn halved(self) -> (v: Vec2)
        ensures
            v == self.halved_spec(),
    {
        Vec2 { x: saturate(half_floor(self.x as i128)), y: saturate(half_floor(self.y as i128)) }
    }
}

impl Default for Vec2 {
    fn default() -> (v: Vec2)
        ensures
            v == Vec2::zero_spec(),
    {
        Vec2 { x: 0, y: 0 }
    }
}

impl Pos2 {
    pub open spec fn zero_spec() -> Pos2 {
        Pos2 { x: 0, y: 0 }
    }

    pub open spec fn to_vec2_spec(self) -> Vec2 {
        Vec2 { x: self.x, y: self.y }
    }

    /// The point moved by `v`, saturating.
    pub open spec fn offset_spec(self, v: Vec2) -> Pos2 {
        Pos2 { x: clamp_unit(self.x + v.x) as i32, y: clamp_unit(self.y + v.y) as i32 }
    }

    /// The displacement that leads from `other` to this point, saturating.
    pub open spec fn minus_spec(self, other: Pos2) -> Vec2 {
        Vec2 { x: clamp_unit(self.x - other.x) as i32, y: clamp_unit(self.y - other.y) as i32 }
    }

    /// The square of the Euclidean distance between two points.
    pub open spec fn distance_sq_spec(self, other: Pos2) -> int {
        (self.x - other.x) * (self.x - other.x) + (self.y - other.y) * (self.y - other.y)
    }

    pub fn new(x: i32, y: i32) -> (p: Pos2)
        ensures
            p == (Pos2 { x, y }),
    {
        Pos2 { x, y }
    }

    pub fn zero() -> (p: Pos2)
        ensures
            p == Pos2::zero_spec(),
    {
        Pos2 { x: 0, y: 0 }
    }

    pub fn to_vec2(self) -> (v: Vec2)
        ensures
            v == self.to_vec2_spec(),
    {
        Vec2 { x: self.x, y: self.y }
    }

    pub fn offset(self, v: Vec2) -> (p: Pos2)
        ensures
            p == self.offset_spec(v),
    {
        Pos2 { x: sat_add(self.x, v.x), y: sat_add(self.y, v.y) }
    }

    pub fn minus(self, other: Pos2) -> (v: Vec2)
        ensures
            v == self.minus_spec(other),
    {
        Vec2 { x: sat_sub(self.x, other.x), y: sat_sub(self.y, other.y) }
    }

    /// The exact square of the distance to `other`. It is at most `2^65`, so it
    /// always fits.
    pub fn distance_sq(self, other: Pos2) -> (d: i128)
        ensures
            d == self.distance_sq_spec(other),
    {
        let dx: i128 = self.x as i128 - other.x as i128;
        let dy: i128 = self.y as i128 - other.y as i128;
        assert(-0x1_0000_0000 <= dx <= 0x1_0000_0000);
        assert(-0x1_0000_0000 <= dy <= 0x1_0000_0000);
        assert(0 <= dx * dx <= 0x1_0000_0000 * 0x1_0000_0000) by (nonlinear_arith)
            requires
                -0x1_0000_0000 <= dx <= 0x1_0000_0000,
        ;
        assert(0 <= dy * dy <= 0x1_0000_0000 * 0x1_0000_0000) by (nonlinear_arith)
            requires
                -0x1_0000_0000 <= dy <= 0x1_0000_0000,
        ;
        dx * dx + dy * dy
    }
}

impl Default for Pos2 {
    fn default() -> (p: Pos2)
        ensures
            p == Pos2::zero_spec(),
    {
        Pos2 { x: 0, y: 0 }
    }
}

impl Rect {
    pub open spec fn from_min_size_spec(min: Pos2, size: Vec2) -> Rect {
        Rect { min, max: min.offset_spec(size) }
    }

    pub open spec fn size_spec(self) -> Vec2 {
        self.max.minus_spec(self.min)
    }

    /// Both corners moved by `amount`, each saturating on its own.
    pub open spec fn translate_spec(self, amount: Vec2) -> Rect {
        Rect { min: self.min.offset_spec(amount), max: self.max.offset_spec(amount) }
    }

    /// Whether `p` lies in the rectangle, its edges included.
    pub open spec fn contains_spec(self, p: Pos2) -> bool {
        self.min.x <= p.x && p.x <= self.max.x && self.min.y <= p.y && p.y <= self.max.y
    }

    /// The smallest rectangle that covers both.
    pub open spec fn union_spec(self, other: Rect) -> Rect {
        Rect {
            min: Pos2 {
                x: if self.min.x <= other.min.x { self.min.x } else { other.min.x },
                y: if self.min.y <= other.min.y { self.min.y } else { other.min.y },
            },
            max: Pos2 {
                x: if self.max.x >= other.max.x { self.max.x } else { other.max.x },
                y: if self.max.y >= other.max.y { self.max.y } else { other.max.y },
            },
        }
    }

    pub fn from_min_max(min: Pos2, max: Pos2) -> (r: Rect)
        ensures
            r == (Rect { min, max }),
    {
        Rect { min, max }
    }

    pub fn from_min_size(min: Pos2, size: Vec2) -> (r: Rect)
        ensures
            r == Rect::from_min_size_spec(min, size),
    {
        Rect { min, max: min.offset(size) }
    }

    pub fn size(&self) -> (v: Vec2)
        ensures
            v == self.size_spec(),
    {
        self.max.minus(self.min)
    }

    pub fn width(&self) -> (w: i32)
        ensures
            w == self.size_spec().x,
    {
        sat_sub(self.max.x, self.min.x)
    }

    pub fn height(&self) -> (h: i32)
        ensures
            h == self.size_spec().y,
    {
        sat_sub(self.max.y, self.min.y)
    }

    pub fn translate(self, amount: Vec2) -> (r: Rect)
        ensures
            r == self.translate_spec(amount),
    {
        Rect { min: self.min.offset(amount), max: self.max.offset(amount) }
    }

    pub fn contains(&self, p: Pos2) -> (b: bool)
        ensures
            b == self.contains_spec(p),
    {
        self.min.x <= p.x && p.x <= self.max.x && self.min.y <= p.y && p.y <= self.max.y
    }

    pub fn union(self, other: Rect) -> (r: Rect)
        ensures
            r == self.union_spec(other),
    {
        Rect {
            min: Pos2 {
                x: if self.min.x <= other.min.x { self.min.x } else { other.min.x },
                y: if self.min.y <= other.min.y { self.min.y } else { other.min.y },
            },
            max: Pos2 {
                x: if self.max.x >= other.max.x { self.max.x } else { other.max.x },
                y: if self.max.y >= other.max.y { self.max.y } else { other.max.y },
            },
        }
    }
}

} // verus!
