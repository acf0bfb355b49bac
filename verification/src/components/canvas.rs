//! The drawing surface's input state: the strokes drawn so far, the last
//! cursor position, whether the pen is down, and whether the surface waits
//! to be wiped. The GPU work that turns this state into pixels lives with
//! the host; everything here is plain data with exact contracts.

use vstd::prelude::*;
use std::collections::VecDeque;

use crate::components::Point;

verus! {

broadcast use vstd::std_specs::vecdeque::group_vec_dequeue_axioms;

/// The canvas as the input handlers see it. A stroke is the sequence of
/// points the cursor passed while the pen was down; the newest stroke sits
/// at the back and grows point by point as the cursor moves.
pub struct Canvas {
    line_points: VecDeque<VecDeque<Point>>,
    mouse_pos: Option<Point>,
    mouse_down: bool,
    clear: bool,
}

impl Canvas {
    /// The strokes drawn so far, oldest first, each as its points in order.
    pub closed spec fn strokes(self) -> Seq<Seq<Point>> {
        self.line_points@.map_values(|s: VecDeque<Point>| s@)
    }

    /// The cursor position last reported, if any was.
    pub closed spec fn cursor(self) -> Option<Point> {
        self.mouse_pos
    }

    /// Whether the pen is currently down.
    pub closed spec fn pen_down(self) -> bool {
        self.mouse_down
    }

    /// Whether the surface waits to be wiped before the next drawing.
    pub closed spec fn wants_clear(self) -> bool {
        self.clear
    }

    /// Once any stroke exists, a cursor position has been seen: strokes
    /// only ever start at the cursor.
    pub open spec fn wf(self) -> bool {
        self.strokes().len() > 0 ==> self.cursor() is Some
    }

    /// A fresh canvas: no strokes, no cursor seen, pen up, and one wipe
    /// pending so the first drawing starts from a blank surface.
    pub fn new() -> (c: Canvas)
        ensures
            c.wf(),
            c.strokes() == Seq::<Seq<Point>>::empty(),
            c.cursor() is None,
            !c.pen_down(),
            c.wants_clear(),
    {
        let c = Canvas {
            line_points: VecDeque::new(),
            mouse_pos: None,
            mouse_down: false,
            clear: true,
        };
        proof {
            assert(c.strokes() =~= Seq::<Seq<Point>>::empty());
        }
        c
    }

    /// Record a cursor move to `p`. While the pen is down on a started
    /// stroke, the position the cursor leaves is appended to that stroke;
    /// the new position itself is appended by the next move or by the pen
    /// lifting, so the stroke always ends where the cursor last stood.
    pub fn mouse_pos(&mut self, p: Point)
        requires
            old(self).wf(),
        ensures
            final(self).wf(),
            final(self).cursor() == Some(p),
            final(self).pen_down() == old(self).pen_down(),
            final(self).wants_clear() == old(self).wants_clear(),
            old(self).pen_down() && old(self).strokes().len() > 0 ==> (old(self).cursor()
                matches Some(c) && final(self).strokes() == old(self).strokes().update(
                old(self).strokes().len() - 1,
                old(self).strokes().last().push(c),
            )),
            !(old(self).pen_down() && old(self).strokes().len() > 0) ==> final(self).strokes()
                == old(self).strokes(),
    {
        if self.mouse_down && self.line_points.len() > 0 {
            let prev = self.mouse_pos.unwrap();
            let mut stroke = self.line_points.pop_back().unwrap();
            stroke.push_back(prev);
            self.line_points.push_back(stroke);
            proof {
                assert(self.line_points@ =~= old(self).line_points@.update(
                    old(self).line_points@.len() - 1,
                    stroke,
                ));
                assert(self.strokes() =~~= old(self).strokes().update(
                    old(self).strokes().len() - 1,
                    old(self).strokes().last().push(prev),
                ));
            }
        }
        self.mouse_pos = Some(p);
    }

    /// Lift the pen. The last reported cursor position is appended to the
    /// newest stroke, closing it where the cursor stands.
    pub fn mouse_up(&mut self)
        requires
            old(self).wf(),
        ensures
            final(self).wf(),
            !final(self).pen_down(),
            final(self).cursor() == old(self).cursor(),
            final(self).wants_clear() == old(self).wants_clear(),
            old(self).strokes().len() > 0 ==> (old(self).cursor() matches Some(c) && final(self).strokes() == old(self).strokes().update(
                old(self).strokes().len() - 1,
                old(self).strokes().last().push(c),
            )),
            old(self).strokes().len() == 0 ==> final(self).strokes() == old(self).strokes(),
    {
        self.mouse_down = false;
        if self.line_points.len() > 0 {
            let pos = self.mouse_pos.unwrap();
            let mut stroke = self.line_points.pop_back().unwrap();
            stroke.push_back(pos);
            self.line_points.push_back(stroke);
            proof {
                assert(self.line_points@ =~= old(self).line_points@.update(
                    old(self).line_points@.len() - 1,
                    stroke,
                ));
                assert(self.strokes() =~~= old(self).strokes().update(
                    old(self).strokes().len() - 1,
                    old(self).strokes().last().push(pos),
                ));
            }
        }
    }

    /// Put the pen down: a new stroke begins at the cursor. A cursor
    /// position must have been reported before the pen can go down.
    pub fn mouse_down(&mut self)
        requires
            old(self).wf(),
            old(self).cursor() is Some,
        ensures
            final(self).wf(),
            final(self).pen_down(),
            final(self).cursor() == old(self).cursor(),
            final(self).wants_clear() == old(self).wants_clear(),
            old(self).cursor() matches Some(c) ==> final(self).strokes() == old(self).strokes().push(seq![c]),
    {
        self.mouse_down = true;
        let mut stroke: VecDeque<Point> = VecDeque::new();
        stroke.push_back(self.mouse_pos.unwrap());
        self.line_points.push_back(stroke);
        proof {
            let c = self.mouse_pos.unwrap();
            assert(stroke@ =~= seq![c]);
            assert(self.strokes() =~~= old(self).strokes().push(seq![c]));
        }
    }

    /// Ask for the surface to be wiped before the next drawing; nothing
    /// else changes.
    pub fn clear(&mut self)
        requires
            old(self).wf(),
        ensures
            final(self).wf(),
            final(self).wants_clear(),
            final(self).strokes() == old(self).strokes(),
            final(self).cursor() == old(self).cursor(),
            final(self).pen_down() == old(self).pen_down(),
    {
        self.clear = true;
    }

    /// Whether any cursor position has been reported yet.
    pub fn has_cursor(&self) -> (r: bool)
        ensures
            r == (self.cursor() is Some),
    {
        self.mouse_pos.is_some()
    }

    /// Whether the pen is currently down.
    pub fn is_pen_down(&self) -> (r: bool)
        ensures
            r == self.pen_down(),
    {
        self.mouse_down
    }

    /// How many strokes the canvas holds.
    pub fn stroke_count(&self) -> (n: usize)
        ensures
            n == self.strokes().len(),
    {
        self.line_points.len()
    }

    /// How many points the stroke at index `i` holds.
    pub fn stroke_len(&self, i: usize) -> (n: usize)
        requires
            i < self.strokes().len(),
        ensures
            n == self.strokes()[i as int].len(),
    {
        self.line_points[i].len()
    }

    /// The point at index `k` of the stroke at index `i`.
    pub fn stroke_point(&self, i: usize, k: usize) -> (p: Point)
        requires
            i < self.strokes().len(),
            k < self.strokes()[i as int].len(),
        ensures
            p == self.strokes()[i as int][k as int],
    {
        self.line_points[i][k]
    }

    /// Read and reset the wipe request: the drawing pass calls this once
    /// per frame and wipes the surface when it answers true.
    pub fn take_clear(&mut self) -> (was: bool)
        requires
            old(self).wf(),
        ensures
            final(self).wf(),
            was == old(self).wants_clear(),
            !final(self).wants_clear(),
            final(self).strokes() == old(self).strokes(),
            final(self).cursor() == old(self).cursor(),
            final(self).pen_down() == old(self).pen_down(),
    {
        let was = self.clear;
        self.clear = false;
        was
    }

    /// Drop the first `n` points of the oldest stroke — the points a
    /// drawing pass has consumed — removing the stroke once it is empty.
    pub fn drain_front(&mut self, n: usize)
        requires
            old(self).wf(),
            old(self).strokes().len() > 0,
            n <= old(self).strokes()[0].len(),
        ensures
            final(self).wf(),
            final(self).cursor() == old(self).cursor(),
            final(self).pen_down() == old(self).pen_down(),
            final(self).wants_clear() == old(self).wants_clear(),
            n < old(self).strokes()[0].len() ==> final(self).strokes() == old(self).strokes().update(0, old(self).strokes()[0].skip(n as int)),
            n == old(self).strokes()[0].len() ==> final(self).strokes() == old(self).strokes().drop_first(),
    {
        let mut first = self.line_points.pop_front().unwrap();
        let rest = first.split_off(n);
        if rest.len() > 0 {
            self.line_points.push_front(rest);
            proof {
                assert(self.strokes() =~~= old(self).strokes().update(
                    0,
                    old(self).strokes()[0].skip(n as int),
                ));
            }
        } else {
            proof {
                assert(self.strokes() =~~= old(self).strokes().drop_first());
            }
        }
    }
}

} // verus!
