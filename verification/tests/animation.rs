use hexspin::clock::{AnimationClock, ClockAction, ClockEvent, ClockMode, sleep_budget, FRAME_MILLIS};

#[test]
fn new_clock_starts_ticking_at_zero() {
    let clock = AnimationClock::new();
    assert_eq!(clock.mode(), ClockMode::Ticking);
    assert_eq!(clock.ticks(), 0);
}

#[test]
fn each_tick_advances_the_counter_by_one() {
    let mut clock = AnimationClock::new();
    for n in 1..=500u64 {
        let action = clock.handle_event(ClockEvent::TickElapsed);
        assert_eq!(action, ClockAction::Render);
        assert_eq!(clock.ticks(), n);
        assert_eq!(clock.mode(), ClockMode::Ticking);
    }
}

#[test]
fn redraw_requests_render_without_advancing_the_clock() {
    let mut clock = AnimationClock::new();
    clock.handle_event(ClockEvent::TickElapsed);
    assert_eq!(clock.handle_event(ClockEvent::RedrawRequested), ClockAction::Render);
    assert_eq!(clock.handle_event(ClockEvent::RedrawRequested), ClockAction::Render);
    assert_eq!(clock.ticks(), 1);
    assert_eq!(clock.mode(), ClockMode::Ticking);
    assert_eq!(clock.handle_event(ClockEvent::TickElapsed), ClockAction::Render);
    assert_eq!(clock.ticks(), 2);
}

#[test]
fn close_request_stops_the_clock_for_good() {
    let mut clock = AnimationClock::new();
    clock.handle_event(ClockEvent::TickElapsed);
    let action = clock.handle_event(ClockEvent::CloseRequested);
    assert_eq!(action, ClockAction::Exit);
    assert_eq!(clock.mode(), ClockMode::Stopped);
    assert_eq!(clock.ticks(), 1);
    assert_eq!(clock.handle_event(ClockEvent::RedrawRequested), ClockAction::Ignore);
    assert_eq!(clock.handle_event(ClockEvent::TickElapsed), ClockAction::Ignore);
    assert_eq!(clock.ticks(), 1);
    assert_eq!(clock.mode(), ClockMode::Stopped);
}

#[test]
fn close_request_while_stopped_still_asks_to_exit() {
    let mut clock = AnimationClock::new();
    clock.handle_event(ClockEvent::CloseRequested);
    assert_eq!(clock.handle_event(ClockEvent::CloseRequested), ClockAction::Exit);
    assert_eq!(clock.mode(), ClockMode::Stopped);
}

#[test]
fn sleep_budget_is_the_remainder_of_the_frame() {
    assert_eq!(FRAME_MILLIS, 40);
    assert_eq!(sleep_budget(0), 40);
    assert_eq!(sleep_budget(1), 39);
    assert_eq!(sleep_budget(39), 1);
    assert_eq!(sleep_budget(40), 0);
    assert_eq!(sleep_budget(41), 0);
    assert_eq!(sleep_budget(u64::MAX), 0);
}

// The angle the display shell shows for tick `n`: the per-tick step times
// the count, reduced to one turn — a pure function of the verified tick
// counter, so redraws and ticks always agree on the frame.
fn derived_angle(ticks: u64) -> f32 {
    let two_pi = 2.0_f64 * std::f64::consts::PI;
    ((ticks as f64) * 0.05 % two_pi) as f32
}

#[test]
fn derived_angle_stays_within_one_turn() {
    let two_pi = 2.0_f32 * std::f32::consts::PI;
    for n in 0..5000u64 {
        let angle = derived_angle(n);
        assert!((0.0..two_pi).contains(&angle), "tick {n}: angle {angle}");
    }
}

#[test]
fn derived_angle_follows_the_wraparound_law() {
    assert_eq!(derived_angle(0), 0.0);
    assert!((derived_angle(1) - 0.05).abs() < 1e-6);
    assert!((derived_angle(125) - 6.25).abs() < 1e-5);
    // One tick later the unreduced angle 6.3 passes a full turn, so the
    // shown angle wraps to 6.3 - 2*pi.
    let wrapped = 6.3_f64 - 2.0_f64 * std::f64::consts::PI;
    assert!((f64::from(derived_angle(126)) - wrapped).abs() < 1e-6);
}

// The rotation applied to a polygon-local point, as the display shell
// computes it, without the translation and truncation steps.
fn rotate(x: f32, y: f32, angle: f32) -> (f32, f32) {
    let c = angle.cos();
    let s = angle.sin();
    (c * x - s * y, s * x + c * y)
}

#[test]
fn back_rotation_reconstructs_the_hexagon_within_a_pixel() {
    let radius = 100.0_f32;
    for k in 0..126u32 {
        let theta = 0.05_f32 * k as f32;
        for i in 0..6u32 {
            let phi = i as f32 * std::f32::consts::PI / 3.0;
            let (vx, vy) = (radius * phi.cos(), radius * phi.sin());
            let (rx, ry) = rotate(vx, vy, theta);
            let (bx, by) = rotate(rx, ry, -theta);
            assert!((bx - vx).abs() <= 1.0, "vertex {i} angle {theta}: x {bx} vs {vx}");
            assert!((by - vy).abs() <= 1.0, "vertex {i} angle {theta}: y {by} vs {vy}");
        }
    }
}
