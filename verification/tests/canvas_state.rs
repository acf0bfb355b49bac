use frame_scheduler::components::{Canvas, Point};

fn stroke(c: &Canvas, i: usize) -> Vec<Point> {
    let mut points = Vec::new();
    for k in 0..c.stroke_len(i) {
        points.push(c.stroke_point(i, k));
    }
    points
}

#[test]
fn a_fresh_canvas_is_empty_and_wants_one_wipe() {
    let mut c = Canvas::new();
    assert_eq!(c.stroke_count(), 0);
    assert!(c.take_clear());
    assert!(!c.take_clear());
}

#[test]
fn a_stroke_follows_the_cursor() {
    let mut c = Canvas::new();
    c.mouse_pos(Point { x: 1, y: 2 });
    c.mouse_down();
    assert_eq!(c.stroke_count(), 1);
    assert_eq!(stroke(&c, 0), vec![Point { x: 1, y: 2 }]);
    c.mouse_pos(Point { x: 3, y: 4 });
    c.mouse_pos(Point { x: 5, y: 6 });
    c.mouse_up();
    // Each move appends the position the cursor left; lifting the pen
    // appends where it stopped.
    assert_eq!(
        stroke(&c, 0),
        vec![
            Point { x: 1, y: 2 },
            Point { x: 1, y: 2 },
            Point { x: 3, y: 4 },
            Point { x: 5, y: 6 },
        ]
    );
}

#[test]
fn moves_with_the_pen_up_draw_nothing() {
    let mut c = Canvas::new();
    c.mouse_pos(Point { x: 1, y: 1 });
    c.mouse_pos(Point { x: 2, y: 2 });
    assert_eq!(c.stroke_count(), 0);
}

#[test]
fn separate_presses_make_separate_strokes() {
    let mut c = Canvas::new();
    c.mouse_pos(Point { x: 0, y: 0 });
    c.mouse_down();
    c.mouse_pos(Point { x: 1, y: 0 });
    c.mouse_up();
    c.mouse_pos(Point { x: 9, y: 9 });
    c.mouse_down();
    c.mouse_up();
    assert_eq!(c.stroke_count(), 2);
    assert_eq!(
        stroke(&c, 0),
        vec![Point { x: 0, y: 0 }, Point { x: 0, y: 0 }, Point { x: 1, y: 0 }]
    );
    assert_eq!(stroke(&c, 1), vec![Point { x: 9, y: 9 }, Point { x: 9, y: 9 }]);
}

#[test]
fn drain_front_consumes_the_oldest_stroke() {
    let mut c = Canvas::new();
    c.mouse_pos(Point { x: 0, y: 0 });
    c.mouse_down();
    c.mouse_pos(Point { x: 1, y: 0 });
    c.mouse_up();
    assert_eq!(c.stroke_count(), 1);
    assert_eq!(c.stroke_len(0), 3);
    c.drain_front(2);
    assert_eq!(c.stroke_count(), 1);
    assert_eq!(stroke(&c, 0), vec![Point { x: 1, y: 0 }]);
    c.drain_front(1);
    assert_eq!(c.stroke_count(), 0);
}

#[test]
fn clear_marks_a_wipe_without_touching_strokes() {
    let mut c = Canvas::new();
    let _ = c.take_clear();
    c.mouse_pos(Point { x: 4, y: 4 });
    c.mouse_down();
    c.mouse_up();
    c.clear();
    assert_eq!(c.stroke_count(), 1);
    assert!(c.take_clear());
    assert_eq!(c.stroke_count(), 1);
}
