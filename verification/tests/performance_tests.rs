use simulation::performance_monitor::{measure, nanos_to_u64, PerformanceMonitor, SmoothingBuffer};

#[test]
fn smoothing_buffer_starts_at_zero() {
    let b: SmoothingBuffer<4> = SmoothingBuffer::new();
    assert_eq!(b.get(), 0);
}

#[test]
fn fresh_buffer_average_is_the_newest_sample_at_the_first_place() {
    let mut b: SmoothingBuffer<3> = SmoothingBuffer::new();
    b.set(9);
    assert_eq!(b.get(), 9);
    b.set(30);
    assert_eq!(b.get(), 9);
    b.set(12);
    assert_eq!(b.get(), 9);
    b.set(6);
    assert_eq!(b.get(), 6);
}

#[test]
fn monitor_records_frames() {
    let mut m = PerformanceMonitor::new();
    assert_eq!(m.get_frame_duration(), 0);
    m.meassure_frame(16_000_000);
    assert_eq!(m.get_frame_duration(), 16_000_000);
    assert_eq!(m.get_simulation_duration(), 0);
    assert_eq!(m.get_rendering_duration(), 0);
}

#[test]
fn monitor_runs_the_measured_work() {
    let mut m = PerformanceMonitor::new();
    let mut ran = false;
    m.meassure_simulation(|| ran = true);
    assert!(ran);
    let mut count = 0;
    m.meassure_rendering(|| count += 1);
    assert_eq!(count, 1);
    let mut sum = 0u64;
    let _elapsed = measure(|| {
        for i in 0..1000u64 {
            sum += i;
        }
    });
    assert_eq!(sum, 499500);
}

#[test]
fn nanoseconds_are_clamped_to_u64() {
    assert_eq!(nanos_to_u64(0), 0);
    assert_eq!(nanos_to_u64(12345), 12345);
    assert_eq!(nanos_to_u64(u64::MAX as u128), u64::MAX);
    assert_eq!(nanos_to_u64(u64::MAX as u128 + 1), u64::MAX);
    assert_eq!(nanos_to_u64(u128::MAX), u64::MAX);
}

#[test]
fn a_constant_input_is_reproduced() {
    let mut b: SmoothingBuffer<4> = SmoothingBuffer::new();
    for _ in 0..9 {
        b.set(7);
        assert_eq!(b.get(), 7);
    }
}

#[test]
fn smoothing_average_agrees_with_duration_division() {
    // The average of N samples is the whole-nanosecond floor of their sum over
    // N, which is what dividing the summed `Duration` by `N` gives.
    let cases: [(u64, u32); 5] = [(1_000_000_002, 3), (2_999_999_999, 60), (7, 2), (59_000_000_059, 60), (123_456_789_012, 7)];
    for (total, n) in cases {
        let by_duration = (std::time::Duration::from_nanos(total) / n).as_nanos();
        assert_eq!(by_duration, (total / n as u64) as u128);
    }
}

#[test]
fn a_buffer_without_room_can_be_made() {
    let b: SmoothingBuffer<0> = SmoothingBuffer::new();
    assert_eq!(b.get(), 0);
}
