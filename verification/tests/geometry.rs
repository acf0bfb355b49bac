use frame_scheduler::components::{Point, Rect, Size};
use frame_scheduler::layout::WindowLifeStatus;

#[test]
fn rect_new_fills_the_fields() {
    let r = Rect::new(3, -4, 10, 20);
    assert_eq!(r.pos, Point { x: 3, y: -4 });
    assert_eq!(r.size, Size { w: 10, h: 20 });
}

#[test]
fn inside_includes_the_borders() {
    let r = Rect::new(0, 0, 10, 5);
    assert!(r.inside(Point { x: 0, y: 0 }));
    assert!(r.inside(Point { x: 10, y: 5 }));
    assert!(r.inside(Point { x: 5, y: 3 }));
}

#[test]
fn inside_rejects_points_beyond_the_borders() {
    let r = Rect::new(0, 0, 10, 5);
    assert!(!r.inside(Point { x: 11, y: 3 }));
    assert!(!r.inside(Point { x: 5, y: 6 }));
    assert!(!r.inside(Point { x: -1, y: 3 }));
}

#[test]
fn inside_handles_extents_that_overflow_narrow_arithmetic() {
    // A corner near the right edge of the coordinate range with a large
    // extent: the border sum exceeds what 32-bit arithmetic could hold.
    let r = Rect::new(i32::MAX - 1, 0, u32::MAX, 1);
    assert!(r.inside(Point { x: i32::MAX, y: 0 }));
    assert!(!r.inside(Point { x: i32::MAX - 2, y: 0 }));
}

#[test]
fn translate_moves_point_and_rect() {
    let p = Point { x: 2, y: 3 }.translate(Point { x: -5, y: 7 });
    assert_eq!(p, Point { x: -3, y: 10 });
    let r = Rect::new(1, 1, 4, 4).translate(Point { x: 9, y: -1 });
    assert_eq!(r.pos, Point { x: 10, y: 0 });
    assert_eq!(r.size, Size { w: 4, h: 4 });
}

#[test]
fn window_life_status_distinguishes_its_states() {
    assert_eq!(WindowLifeStatus::Alive, WindowLifeStatus::Alive);
    assert_ne!(WindowLifeStatus::Alive, WindowLifeStatus::Dead);
    assert!(matches!(WindowLifeStatus::Dead, WindowLifeStatus::Dead));
}
