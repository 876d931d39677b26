use mill::timer_wheel::{level_for_delta, TimerKind, MAX_RANGE_TICKS};
use mill::{TimerId, TimerWheel};

/// Advance to `now`, return the payloads that fired, and put repeating timers
/// back one interval after `now`, as the event loop does.
fn tick(wheel: &mut TimerWheel<u32>, now: u64) -> Vec<u32> {
    let expired = wheel.advance_to(now);
    let mut fired = Vec::new();
    for entry in &expired {
        match entry.kind {
            TimerKind::Once(p) => fired.push(p),
            TimerKind::Repeating(p, _) => fired.push(p),
        }
    }
    wheel.rearm_fired(expired, now);
    fired
}

#[test]
fn test_schedule_once_fires() {
    let mut wheel = TimerWheel::new();
    wheel.schedule_once(0, 5, 1);
    assert_eq!(wheel.pending_count(), 1);
    let fired = tick(&mut wheel, 10);
    assert_eq!(fired, vec![1]);
    assert_eq!(wheel.pending_count(), 0);
}

#[test]
fn test_cancel_timer() {
    let mut wheel = TimerWheel::new();
    let id = wheel.schedule_once(0, 50, 1);
    assert!(wheel.cancel(id));
    assert_eq!(wheel.pending_count(), 0);
    let fired = tick(&mut wheel, 60);
    assert!(fired.is_empty());
}

#[test]
fn test_cancel_returns_false_for_unknown() {
    let mut wheel: TimerWheel<u32> = TimerWheel::new();
    assert!(!wheel.cancel(TimerId(999)));
}

#[test]
fn test_repeating_timer() {
    let mut wheel = TimerWheel::new();
    wheel.schedule_repeating(0, 10, 7);
    let mut count = 0;
    let mut now = 0;
    for _ in 0..5 {
        now += 15;
        count += tick(&mut wheel, now).len();
    }
    assert!(count >= 3, "Expected at least 3 firings, got {count}");
    assert_eq!(wheel.pending_count(), 1, "Repeating timer should remain scheduled");
}

#[test]
fn test_cancel_repeating_timer() {
    let mut wheel = TimerWheel::new();
    let id = wheel.schedule_repeating(0, 10, 7);
    let after_first = tick(&mut wheel, 15).len();
    assert!(after_first >= 1);
    wheel.cancel(id);
    assert!(tick(&mut wheel, 45).is_empty());
}

#[test]
fn test_timer_does_not_fire_early() {
    let mut wheel = TimerWheel::new();
    wheel.schedule_once(0, 100, 1);
    assert!(tick(&mut wheel, 0).is_empty());
    assert!(tick(&mut wheel, 50).is_empty());
    assert!(tick(&mut wheel, 100).is_empty());
    assert_eq!(tick(&mut wheel, 101), vec![1]);
}

#[test]
fn test_many_timers() {
    let mut wheel = TimerWheel::new();
    for i in 0..1000u64 {
        wheel.schedule_once(0, 5 + (i % 20), i as u32);
    }
    assert_eq!(wheel.pending_count(), 1000);
    let fired = tick(&mut wheel, 30);
    assert_eq!(fired.len(), 1000);
    assert_eq!(wheel.pending_count(), 0);
}

#[test]
fn test_level_assignment() {
    assert_eq!(level_for_delta(0), 0);
    assert_eq!(level_for_delta(255), 0);
    assert_eq!(level_for_delta(256), 1);
    assert_eq!(level_for_delta(16383), 1);
    assert_eq!(level_for_delta(16384), 2);
    assert_eq!(level_for_delta(1048575), 2);
    assert_eq!(level_for_delta(1048576), 3);
}

#[test]
fn test_time_until_next() {
    let mut wheel = TimerWheel::new();
    assert!(wheel.time_until_next(0).is_none());
    wheel.schedule_once(0, 100, 1);
    let until = wheel.time_until_next(0).unwrap();
    assert!(until <= 100);
    assert!(until >= 90);
    assert_eq!(wheel.time_until_next(40), Some(60));
}

#[test]
fn test_higher_level_timers() {
    let mut wheel = TimerWheel::new();
    // 300 ticks falls into level 1 (>= 256)
    wheel.schedule_once(0, 300, 1);
    assert!(tick(&mut wheel, 200).is_empty());
    assert_eq!(tick(&mut wheel, 350), vec![1]);
}

#[test]
fn test_zero_duration_fires_on_next_tick() {
    let mut wheel = TimerWheel::new();
    wheel.schedule_once(0, 0, 1);
    assert!(tick(&mut wheel, 0).is_empty());
    assert_eq!(tick(&mut wheel, 1), vec![1]);
}

#[test]
fn test_tick_on_empty_wheel() {
    let mut wheel: TimerWheel<u32> = TimerWheel::new();
    tick(&mut wheel, 5);
    tick(&mut wheel, 10);
    assert_eq!(wheel.pending_count(), 0);
}

#[test]
fn test_one_shot_fires_exactly_once() {
    let mut wheel = TimerWheel::new();
    wheel.schedule_once(0, 5, 1);
    let mut count = tick(&mut wheel, 10).len();
    count += tick(&mut wheel, 10).len();
    count += tick(&mut wheel, 11).len();
    assert_eq!(count, 1);
    assert_eq!(wheel.pending_count(), 0);
}

#[test]
fn test_cancel_after_fire_returns_false() {
    let mut wheel = TimerWheel::new();
    let id = wheel.schedule_once(0, 1, 1);
    tick(&mut wheel, 5);
    assert!(!wheel.cancel(id));
}

#[test]
fn test_callback_schedules_new_timer() {
    let mut wheel = TimerWheel::new();
    wheel.schedule_once(0, 1, 1);
    let fired = tick(&mut wheel, 5);
    assert_eq!(fired, vec![1]);
    // What the callback does: schedule another timer.
    wheel.schedule_once(5, 1, 2);
    assert_eq!(wheel.pending_count(), 1);
    assert_eq!(tick(&mut wheel, 10), vec![2]);
    assert_eq!(wheel.pending_count(), 0);
}

#[test]
fn test_callback_cancels_another_timer() {
    let mut wheel = TimerWheel::new();
    let victim = wheel.schedule_once(0, 50, 1);
    wheel.schedule_once(0, 1, 2);
    assert_eq!(tick(&mut wheel, 5), vec![2]);
    wheel.cancel(victim);
    assert!(tick(&mut wheel, 65).is_empty());
}

#[test]
fn test_time_until_next_returns_zero_for_overdue() {
    let mut wheel = TimerWheel::new();
    wheel.schedule_once(0, 1, 1);
    assert_eq!(wheel.time_until_next(5), Some(0));
}

#[test]
fn test_mixed_oneshot_and_repeating() {
    let mut wheel = TimerWheel::new();
    wheel.schedule_once(0, 5, 1);
    wheel.schedule_repeating(0, 10, 2);
    assert_eq!(wheel.pending_count(), 2);
    let mut once = 0;
    let mut repeat = 0;
    let mut now = 0;
    for _ in 0..5 {
        now += 15;
        for p in tick(&mut wheel, now) {
            if p == 1 {
                once += 1;
            } else {
                repeat += 1;
            }
        }
    }
    assert_eq!(once, 1);
    assert!(repeat >= 3);
    assert_eq!(wheel.pending_count(), 1);
}

#[test]
fn test_overflow_timer() {
    let mut wheel = TimerWheel::new();
    wheel.schedule_once(0, MAX_RANGE_TICKS + 1000, 1);
    assert_eq!(wheel.pending_count(), 1);
    assert!(tick(&mut wheel, 0).is_empty());
    assert_eq!(wheel.pending_count(), 1);
}

#[test]
fn test_pending_count_tracks_lifecycle() {
    let mut wheel = TimerWheel::new();
    assert_eq!(wheel.pending_count(), 0);
    let id1 = wheel.schedule_once(0, 5, 1);
    assert_eq!(wheel.pending_count(), 1);
    let id2 = wheel.schedule_once(0, 5, 2);
    assert_eq!(wheel.pending_count(), 2);
    wheel.cancel(id1);
    assert_eq!(wheel.pending_count(), 1);
    tick(&mut wheel, 10);
    assert_eq!(wheel.pending_count(), 0);
    wheel.cancel(id2);
    assert_eq!(wheel.pending_count(), 0);
}

// ---------------------------------------------------------------------------

#[test]
fn timers_fire_at_their_tick_across_cascades() {
    let mut wheel = TimerWheel::new();
    let delays = [0u64, 1, 255, 256, 257, 16383, 16384, 16385, 100_000, 1_048_576, 2_000_000];
    for (i, d) in delays.iter().enumerate() {
        wheel.schedule_once(0, *d, i as u32);
    }
    for (i, d) in delays.iter().enumerate() {
        // Nothing fires before its deadline has passed...
        let early = tick(&mut wheel, *d);
        assert!(early.iter().all(|p| (*p as usize) < i), "timer {i} fired early");
        // ...and each fires once its deadline has passed.
        let fired = tick(&mut wheel, d + 1);
        assert!(fired.contains(&(i as u32)) || early.contains(&(i as u32)));
    }
    assert_eq!(wheel.pending_count(), 0);
}

#[test]
fn overflow_timer_fires_after_long_run() {
    let mut wheel = TimerWheel::new();
    wheel.schedule_once(0, MAX_RANGE_TICKS + 10, 1);
    let mut now = 0;
    let step = MAX_RANGE_TICKS / 4;
    let mut fired = Vec::new();
    while now < MAX_RANGE_TICKS + 20 {
        now += step.min(MAX_RANGE_TICKS + 20 - now);
        fired.extend(tick(&mut wheel, now));
    }
    assert_eq!(fired, vec![1]);
}

#[test]
fn long_jump_drains_every_timer() {
    let mut wheel = TimerWheel::new();
    wheel.schedule_once(0, 5, 1);
    wheel.schedule_once(0, MAX_RANGE_TICKS * 3, 2);
    let mut fired = tick(&mut wheel, MAX_RANGE_TICKS + 1);
    fired.sort();
    assert_eq!(fired, vec![1, 2]);
    assert_eq!(wheel.current_tick(), MAX_RANGE_TICKS + 1);
    assert_eq!(wheel.pending_count(), 0);
}

#[test]
fn repeating_timer_keeps_its_id() {
    let mut wheel = TimerWheel::new();
    let id = wheel.schedule_repeating(0, 10, 3);
    let expired = wheel.advance_to(11);
    assert_eq!(expired.len(), 1);
    assert_eq!(expired[0].id, id);
    assert_eq!(expired[0].deadline_tick, 10);
    wheel.rearm(id, 3, 10, 11);
    assert_eq!(wheel.time_until_next(11), Some(10));
    assert!(wheel.cancel(id));
}

#[test]
fn expired_timers_come_out_by_deadline() {
    let mut wheel = TimerWheel::new();
    wheel.schedule_once(0, 300, 3);
    wheel.schedule_once(0, 20, 1);
    wheel.schedule_once(0, 20_000, 4);
    wheel.schedule_once(0, 100, 2);
    let expired = wheel.advance_to(30_000);
    let deadlines: Vec<u64> = expired.iter().map(|e| e.deadline_tick).collect();
    assert_eq!(deadlines, vec![20, 100, 300, 20_000]);
}

#[test]
fn pending_count_follows_schedule_cancel_and_fire() {
    let mut wheel = TimerWheel::new();
    assert_eq!(wheel.next_timer_id(), 1);
    let a = wheel.schedule_once(0, 10, 1);
    let _b = wheel.schedule_once(0, 20, 2);
    let _c = wheel.schedule_repeating(0, 15, 3);
    assert_eq!(wheel.next_timer_id(), 4);
    assert_eq!(wheel.pending_count(), 3);
    assert!(wheel.cancel(a));
    assert!(!wheel.cancel(a));
    assert_eq!(wheel.pending_count(), 2);
    let expired = wheel.advance_to(25);
    assert_eq!(expired.len(), 2);
    assert_eq!(wheel.pending_count(), 0);
}

#[test]
fn rearm_fired_brings_back_only_repeating_timers() {
    let mut wheel = TimerWheel::new();
    let once = wheel.schedule_once(0, 5, 1);
    let rep = wheel.schedule_repeating(0, 10, 2);
    let expired = wheel.advance_to(20);
    assert_eq!(expired.len(), 2);
    assert_eq!(wheel.pending_count(), 0);
    wheel.rearm_fired(expired, 20);
    // One scheduled, none cancelled, one one-shot fired: one pending.
    assert_eq!(wheel.pending_count(), 1);
    assert!(!wheel.cancel(once));
    assert_eq!(wheel.time_until_next(20), Some(10));
    assert!(wheel.cancel(rep));
    assert_eq!(wheel.pending_count(), 0);
}
