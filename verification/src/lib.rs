//! The verified core of an input-driven paint program: a frame scheduler
//! that turns a flood of per-window redraw requests into a bounded-rate
//! stream of dispatch decisions, plus the plain data the drawing surface
//! keeps — strokes, cursor, geometry.
//!
//! The scheduler ([`framelimiter::FrameSchedule`]) owes each window at most
//! one dispatch per frame interval: the first request of a burst is served
//! immediately, later ones coalesce into a single deferred dispatch at
//! exactly the previous dispatch time plus the interval. The host runs the
//! waiting loop — channel, thread, clock, event injection — and feeds the
//! scheduler what it observed; every decision the scheduler takes is
//! specified and proved here, including the spacing, coalescing and
//! ordering guarantees stated as public lemmas in [`framelimiter`].

use vstd::prelude::*;

pub mod components;
pub mod framelimiter;
pub mod layout;

verus! {

/// Target maximum number of dispatches per second for a single window.
pub const FPS: u64 = 144;

/// Minimum spacing, in nanoseconds, between two dispatches for one window.
pub const FRAME_INTERVAL_NANOS: u64 = 1_000_000_000 / FPS;

/// Latest time, in nanoseconds, that the scheduler accepts as `now`. The
/// margin below `u64::MAX` keeps every deadline computation inside `u64`.
pub const MAX_TIME: u64 = u64::MAX - 2 * FRAME_INTERVAL_NANOS;

} // verus!
