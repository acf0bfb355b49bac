use frame_scheduler::framelimiter::{FrameSchedule, SchedulerEvent};
use frame_scheduler::{FRAME_INTERVAL_NANOS, MAX_TIME};

#[test]
fn frame_interval_matches_target_rate() {
    assert_eq!(frame_scheduler::FPS, 144);
    assert_eq!(FRAME_INTERVAL_NANOS, 1_000_000_000 / 144);
    assert_eq!(FRAME_INTERVAL_NANOS, 6_944_444);
}

#[test]
fn first_request_dispatches_immediately() {
    let mut s = FrameSchedule::new();
    assert_eq!(s.insert(7, 1_000), Some(7));
}

#[test]
fn first_request_dispatches_immediately_at_time_zero() {
    let mut s = FrameSchedule::new();
    assert_eq!(s.insert(7, 0), Some(7));
}

#[test]
fn request_during_cooldown_is_deferred_not_dropped() {
    let mut s = FrameSchedule::new();
    assert_eq!(s.insert(1, 0), Some(1));
    assert_eq!(s.insert(1, 2_000_000), None);
    // The deferred dispatch sits at exactly the last dispatch time plus the
    // frame interval, not at the request time plus the interval.
    assert_eq!(s.time_to_next_frame(2_000_000), Some(FRAME_INTERVAL_NANOS - 2_000_000));
}

#[test]
fn burst_coalesces_to_one_extra_dispatch() {
    let mut s = FrameSchedule::new();
    assert_eq!(s.insert(1, 0), Some(1));
    for k in 0..10u64 {
        assert_eq!(s.insert(1, 2_000_000 + k * 400_000), None);
    }
    // Nothing is due a nanosecond before the deadline.
    assert_eq!(s.process_due_frames(FRAME_INTERVAL_NANOS - 1), Vec::<u64>::new());
    // Exactly one dispatch fires, at last_dispatch + FRAME_INTERVAL_NANOS.
    assert_eq!(s.process_due_frames(FRAME_INTERVAL_NANOS), vec![1]);
    // And nothing further is pending.
    assert_eq!(s.process_due_frames(MAX_TIME), Vec::<u64>::new());
    assert_eq!(s.time_to_next_frame(FRAME_INTERVAL_NANOS), None);
}

#[test]
fn consecutive_dispatches_are_spaced_by_the_interval() {
    let mut s = FrameSchedule::new();
    assert_eq!(s.insert(1, 0), Some(1)); // dispatch at 0
    assert_eq!(s.insert(1, 1_000_000), None); // deferred to 6_944_444
    assert_eq!(s.process_due_frames(6_944_443), Vec::<u64>::new());
    assert_eq!(s.process_due_frames(6_944_444), vec![1]); // dispatch at 6_944_444
    // The next deferral steps from the previous deadline, not from the
    // request time: 2 * 6_944_444, although the request arrives at 7ms.
    assert_eq!(s.insert(1, 7_000_000), None);
    assert_eq!(s.process_due_frames(13_888_887), Vec::<u64>::new());
    assert_eq!(s.process_due_frames(13_888_888), vec![1]); // dispatch at 13_888_888
    // 0, 6_944_444, 13_888_888: consecutive gaps are exactly the interval.
    assert_eq!(s.insert(1, 13_888_888 + FRAME_INTERVAL_NANOS), Some(1));
}

#[test]
fn windows_are_rate_limited_independently() {
    let mut s = FrameSchedule::new();
    // Rapid interleaved requests for windows 1 and 2.
    assert_eq!(s.insert(1, 0), Some(1));
    assert_eq!(s.insert(2, 1_000), Some(2));
    assert_eq!(s.insert(1, 2_000), None);
    assert_eq!(s.insert(2, 3_000), None);
    assert_eq!(s.insert(1, 4_000), None);
    assert_eq!(s.insert(2, 5_000), None);
    // Each window gets exactly one deferred dispatch, spaced from its own
    // last dispatch: window 1 at interval, window 2 at 1_000 + interval.
    let due = s.process_due_frames(2 * FRAME_INTERVAL_NANOS);
    assert_eq!(due, vec![1, 2]);
}

#[test]
fn earlier_deadline_is_dispatched_first() {
    let mut s = FrameSchedule::new();
    // Window 2 enters its cool-down first, window 1 a moment later, so
    // window 2 carries the earlier deadline.
    assert_eq!(s.insert(2, 0), Some(2));
    assert_eq!(s.insert(1, 500_000), Some(1));
    assert_eq!(s.insert(1, 600_000), None);
    assert_eq!(s.insert(2, 700_000), None);
    let due = s.process_due_frames(MAX_TIME);
    assert_eq!(due, vec![2, 1]);
}

#[test]
fn wait_time_is_clamped_to_zero_when_overdue() {
    let mut s = FrameSchedule::new();
    assert_eq!(s.insert(1, 0), Some(1));
    assert_eq!(s.insert(1, 1), None);
    assert_eq!(s.time_to_next_frame(2 * FRAME_INTERVAL_NANOS), Some(0));
}

#[test]
fn empty_schedule_asks_for_unbounded_wait() {
    let s = FrameSchedule::new();
    assert_eq!(s.time_to_next_frame(123), None);
}

#[test]
fn step_request_behaves_like_insert() {
    let mut s = FrameSchedule::new();
    let (redraws, stop) = s.step(SchedulerEvent::Request(9), 50);
    assert_eq!(redraws, vec![9]);
    assert!(!stop);
    let (redraws, stop) = s.step(SchedulerEvent::Request(9), 60);
    assert_eq!(redraws, Vec::<u64>::new());
    assert!(!stop);
}

#[test]
fn step_timeout_drains_due_entries() {
    let mut s = FrameSchedule::new();
    let _ = s.insert(4, 0);
    let _ = s.insert(4, 10);
    let (redraws, stop) = s.step(SchedulerEvent::TimedOut, FRAME_INTERVAL_NANOS);
    assert_eq!(redraws, vec![4]);
    assert!(!stop);
}

#[test]
fn closed_channel_stops_the_loop_with_no_dispatches() {
    let mut s = FrameSchedule::new();
    let _ = s.insert(3, 0);
    let _ = s.insert(3, 1);
    let (redraws, stop) = s.step(SchedulerEvent::Closed, 2);
    assert_eq!(redraws, Vec::<u64>::new());
    assert!(stop);
}

#[test]
fn clock_reads_within_the_accepted_range() {
    let t = frame_scheduler::framelimiter::now();
    assert!(t <= MAX_TIME);
}

#[test]
fn example_scenario_exact_dispatch_count() {
    // The worked example: requests at 0, 2ms and 4ms yield exactly two
    // dispatches in [0, one frame interval]: one at 0 and one at the
    // interval itself.
    let mut s = FrameSchedule::new();
    let mut count = 0;
    if s.insert(1, 0).is_some() {
        count += 1;
    }
    if s.insert(1, 2_000_000).is_some() {
        count += 1;
    }
    if s.insert(1, 4_000_000).is_some() {
        count += 1;
    }
    count += s.process_due_frames(FRAME_INTERVAL_NANOS).len();
    assert_eq!(count, 2);
}
