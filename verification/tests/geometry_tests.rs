use guee::geometry::div_floor;
use guee::geometry::half_floor;
use guee::geometry::sat_add;
use guee::geometry::sat_sub;
use guee::geometry::saturate;
use guee::geometry::Pos2;
use guee::geometry::Rect;
use guee::geometry::Vec2;
use guee::geometry::UNITS_PER_PIXEL;
use guee::transform::scale_coord;
use guee::transform::TranslateScale;
use guee::transform::SCALE_ONE;

#[test]
fn a_pixel_has_sixty_four_units() {
    assert_eq!(UNITS_PER_PIXEL, 64);
}

#[test]
fn coordinates_saturate() {
    assert_eq!(saturate(0), 0);
    assert_eq!(saturate(i32::MAX as i128 + 1), i32::MAX);
    assert_eq!(saturate(i32::MIN as i128 - 1), i32::MIN);
    assert_eq!(saturate(i128::MAX), i32::MAX);
    assert_eq!(saturate(i128::MIN), i32::MIN);
    assert_eq!(sat_add(i32::MAX, 1), i32::MAX);
    assert_eq!(sat_add(i32::MIN, -1), i32::MIN);
    assert_eq!(sat_add(3, -5), -2);
    assert_eq!(sat_sub(i32::MIN, 1), i32::MIN);
    assert_eq!(sat_sub(0, i32::MIN), i32::MAX);
    assert_eq!(sat_sub(7, 10), -3);
}

#[test]
fn division_rounds_towards_negative_infinity() {
    assert_eq!(div_floor(7, 2), 3);
    assert_eq!(div_floor(-7, 2), -4);
    assert_eq!(div_floor(-8, 2), -4);
    assert_eq!(div_floor(-1, 5), -1);
    assert_eq!(div_floor(0, 5), 0);
    assert_eq!(div_floor(-5, 5), -1);
    assert_eq!(div_floor(i128::MIN, 1), i128::MIN);
    assert_eq!(div_floor(i128::MIN, i128::MAX), -2);
    assert_eq!(half_floor(95), 47);
    assert_eq!(half_floor(-95), -48);
    assert_eq!(half_floor(-1), -1);
}

#[test]
fn vectors_and_points() {
    assert_eq!(Vec2::zero(), Vec2::new(0, 0));
    assert_eq!(Vec2::default(), Vec2 { x: 0, y: 0 });
    assert_eq!(Pos2::default(), Pos2::zero());
    assert_eq!(Vec2::new(1, 2).plus(Vec2::new(10, -20)), Vec2::new(11, -18));
    assert_eq!(Vec2::new(1, 2).minus(Vec2::new(10, -20)), Vec2::new(-9, 22));
    assert_eq!(Vec2::new(i32::MAX, i32::MIN).plus(Vec2::new(1, -1)), Vec2::new(i32::MAX, i32::MIN));
    assert_eq!(Vec2::new(7, -7).halved(), Vec2::new(3, -4));
    assert_eq!(Pos2::new(3, 4).to_vec2(), Vec2::new(3, 4));
    assert_eq!(Pos2::new(3, 4).offset(Vec2::new(-3, 1)), Pos2::new(0, 5));
    assert_eq!(Pos2::new(3, 4).minus(Pos2::new(1, 1)), Vec2::new(2, 3));
    assert_eq!(Pos2::new(0, 0).distance_sq(Pos2::new(3, 4)), 25);
    assert_eq!(Pos2::new(-1, -1).distance_sq(Pos2::new(-1, -1)), 0);
    assert_eq!(
        Pos2::new(i32::MIN, i32::MIN).distance_sq(Pos2::new(i32::MAX, i32::MAX)),
        2 * (u32::MAX as i128) * (u32::MAX as i128)
    );
}

#[test]
fn rectangles() {
    let rect = Rect::from_min_size(Pos2::new(10, 20), Vec2::new(30, 40));
    assert_eq!(rect, Rect::from_min_max(Pos2::new(10, 20), Pos2::new(40, 60)));
    assert_eq!(rect.size(), Vec2::new(30, 40));
    assert_eq!(rect.width(), 30);
    assert_eq!(rect.height(), 40);
    assert_eq!(rect.translate(Vec2::new(-10, 5)), Rect::from_min_max(Pos2::new(0, 25), Pos2::new(30, 65)));
    // Edges are part of the rectangle.
    assert!(rect.contains(Pos2::new(10, 20)));
    assert!(rect.contains(Pos2::new(40, 60)));
    assert!(rect.contains(Pos2::new(25, 30)));
    assert!(!rect.contains(Pos2::new(9, 30)));
    assert!(!rect.contains(Pos2::new(41, 30)));
    assert!(!rect.contains(Pos2::new(25, 19)));
    assert!(!rect.contains(Pos2::new(25, 61)));
    let other = Rect::from_min_max(Pos2::new(-5, 30), Pos2::new(20, 100));
    assert_eq!(rect.union(other), Rect::from_min_max(Pos2::new(-5, 20), Pos2::new(40, 100)));
    assert_eq!(other.union(rect), rect.union(other));
}

#[test]
fn a_rectangle_of_negative_size_contains_nothing() {
    let rect = Rect::from_min_size(Pos2::new(10, 10), Vec2::new(-5, 5));
    assert_eq!(rect.max, Pos2::new(5, 15));
    assert!(!rect.contains(Pos2::new(7, 12)));
    assert!(!rect.contains(Pos2::new(10, 10)));
    assert_eq!(rect.width(), -5);
}

#[test]
fn translating_saturates_each_corner() {
    let rect = Rect::from_min_max(Pos2::new(0, 0), Pos2::new(i32::MAX, 10));
    let moved = rect.translate(Vec2::new(100, 0));
    assert_eq!(moved, Rect::from_min_max(Pos2::new(100, 0), Pos2::new(i32::MAX, 10)));
}

#[test]
fn scaling_and_translating() {
    assert_eq!(SCALE_ONE, 64);
    assert_eq!(scale_coord(100, SCALE_ONE), 100);
    assert_eq!(scale_coord(100, 32), 50);
    assert_eq!(scale_coord(101, 32), 50);
    assert_eq!(scale_coord(-101, 32), -51);
    assert_eq!(scale_coord(100, -64), -100);
    assert_eq!(scale_coord(i32::MAX, i32::MAX), i32::MAX);

    let identity = TranslateScale::identity();
    assert_eq!(identity, TranslateScale::default());
    assert_eq!(identity.transform_point(Pos2::new(-7, 9)), Pos2::new(-7, 9));

    let moved = identity.translated(Vec2::new(10, 20));
    assert_eq!(moved.transform_point(Pos2::new(1, 1)), Pos2::new(11, 21));

    let doubled = moved.scaled(2 * SCALE_ONE);
    assert_eq!(doubled, TranslateScale { translation: Vec2::new(20, 40), scale: 128 });
    assert_eq!(doubled.transform_point(Pos2::new(1, 1)), Pos2::new(22, 42));
    assert_eq!(doubled.transform_scalar(5), 10);

    let combined = moved.combined(TranslateScale { translation: Vec2::new(1, 1), scale: 32 });
    assert_eq!(combined, TranslateScale { translation: Vec2::new(6, 11), scale: 32 });

    let rect = Rect::from_min_size(Pos2::new(10, 10), Vec2::new(4, 6));
    assert_eq!(
        doubled.transform_rectangle(rect),
        Rect::from_min_size(Pos2::new(40, 60), Vec2::new(8, 12))
    );
}
