//! Translation and uniform scaling of points, as a parent applies them to
//! what it shows of its children.

use vstd::prelude::*;
use crate::geometry::clamp_unit;
use crate::geometry::div_floor;
use crate::geometry::floor_div;
use crate::geometry::saturate;
use crate::geometry::Pos2;
use crate::geometry::Rect;
use crate::geometry::Vec2;

verus! {

/// The scale factor that changes nothing. Factors are counted in parts of
/// this number, so half of it halves and twice it doubles.
pub const SCALE_ONE: i32 = 64;

/// A length times a scale factor, rounded down and brought into the
/// coordinate range.
pub open spec fn scale_unit(v: int, scale: int) -> int {
    clamp_unit(floor_div(v * scale, SCALE_ONE as int))
}

/// Scales one coordinate.
pub fn scale_coord(v: i32, scale: i32) -> (r: i32)
    ensures
        r == scale_unit(v as int, scale as int),
{
    assert(-0x8000_0000 * 0x8000_0000 <= v * scale <= 0x8000_0000 * 0x8000_0000)
        by (nonlinear_arith)
        requires
            -0x8000_0000 <= v <= 0x8000_0000,
            -0x8000_0000 <= scale <= 0x8000_0000,
    ;
    saturate(div_floor(v as i128 * scale as i128, SCALE_ONE as i128))
}

/// A transformation made of a uniform scaling followed by a translation.
#[derive(Copy, Clone, Debug, PartialEq, Eq, Structural)]
pub struct TranslateScale {
    pub translation: Vec2,
    /// The scale factor, in parts of [`SCALE_ONE`].
    pub scale: i32,
}

impl TranslateScale {
    pub open spec fn identity_spec() -> TranslateScale {
        TranslateScale { translation: Vec2::zero_spec(), scale: SCALE_ONE }
    }

    pub open spec fn translated_spec(self, translation: Vec2) -> TranslateScale {
        TranslateScale { translation: self.translation.plus_spec(translation), scale: self.scale }
    }

    pub open spec fn scaled_spec(self, scale: i32) -> TranslateScale {
        TranslateScale {
            translation: Vec2 {
                x: scale_unit(self.translation.x as int, scale as int) as i32,
                y: scale_unit(self.translation.y as int, scale as int) as i32,
            },
            scale: scale_unit(self.scale as int, scale as int) as i32,
        }
    }

    /// This transformation followed by `other`.
    pub open spec fn combined_spec(self, other: TranslateScale) -> TranslateScale {
        self.scaled_spec(other.scale).translated_spec(other.translation)
    }

    /// Where `point` lands: scaled first, then moved.
    pub open spec fn transform_point_spec(self, point: Pos2) -> Pos2 {
        Pos2 {
            x: scale_unit(point.x as int, self.scale as int) as i32,
            y: scale_unit(point.y as int, self.scale as int) as i32,
        }.offset_spec(self.translation)
    }

    /// The rectangle with its corner transformed and its size scaled.
    pub open spec fn transform_rectangle_spec(self, rectangle: Rect) -> Rect {
        Rect::from_min_size_spec(
            self.transform_point_spec(rectangle.min),
            Vec2 {
                x: scale_unit(rectangle.size_spec().x as int, self.scale as int) as i32,
                y: scale_unit(rectangle.size_spec().y as int, self.scale as int) as i32,
            },
        )
    }

    pub fn identity() -> (t: TranslateScale)
        ensures
            t == TranslateScale::identity_spec(),
    {
        TranslateScale { translation: Vec2::zero(), scale: SCALE_ONE }
    }

    /// The transformation that moves by `translation` after this one.
    pub fn translated(&self, translation: Vec2) -> (t: TranslateScale)
        ensures
            t == self.translated_spec(translation),
    {
        TranslateScale { translation: self.translation.plus(translation), scale: self.scale }
    }

    /// The transformation that scales by `scale` after this one.
    pub fn scaled(&self, scale: i32) -> (t: TranslateScale)
        ensures
            t == self.scaled_spec(scale),
    {
        TranslateScale {
            translation: Vec2 {
                x: scale_coord(self.translation.x, scale),
                y: scale_coord(self.translation.y, scale),
            },
            scale: scale_coord(self.scale, scale),
        }
    }

    pub fn combined(&self, other: TranslateScale) -> (t: TranslateScale)
        ensures
            t == self.combined_spec(other),
    {
        self.scaled(other.scale).translated(other.translation)
    }

    pub fn transform_point(&self, point: Pos2) -> (p: Pos2)
        ensures
            p == self.transform_point_spec(point),
    {
        Pos2 { x: scale_coord(point.x, self.scale), y: scale_coord(point.y, self.scale) }.offset(
            self.translation,
        )
    }

    /// Scales a length. The translation plays no part.
    pub fn transform_scalar(&self, s: i32) -> (r: i32)
        ensures
            r == scale_unit(s as int, self.scale as int),
    {
        scale_coord(s, self.scale)
    }

    pub fn transform_rectangle(&self, rectangle: Rect) -> (r: Rect)
        ensures
            r == self.transform_rectangle_spec(rectangle),
    {
        let top_left = self.transform_point(rectangle.min);
        let size = Vec2 {
            x: scale_coord(rectangle.width(), self.scale),
            y: scale_coord(rectangle.height(), self.scale),
        };
        Rect::from_min_size(top_left, size)
    }
}

impl Default for TranslateScale {
    fn default() -> (t: TranslateScale)
        ensures
            t == TranslateScale::identity_spec(),
    {
        TranslateScale::identity()
    }
}

/// The identity leaves every point where it is.
pub proof fn lemma_identity_keeps_points(point: Pos2)
    ensures
        TranslateScale::identity_spec().transform_point_spec(point) == point,
{
    assert(floor_div(point.x * 64, 64) == point.x) by (nonlinear_arith);
    assert(floor_div(point.y * 64, 64) == point.y) by (nonlinear_arith);
}

} // verus!
