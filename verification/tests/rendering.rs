use optics_bench::sampling::{grown_capacity, next_power_of_two, Accumulation, SampleBatch};

#[test]
fn powers_of_two() {
    assert_eq!(next_power_of_two(0), 1);
    assert_eq!(next_power_of_two(1), 1);
    assert_eq!(next_power_of_two(3), 4);
    assert_eq!(next_power_of_two(4), 4);
    assert_eq!(next_power_of_two(1000), 1024);
    assert_eq!(next_power_of_two(1 << 63), 1 << 63);
    for n in 1..2000u64 {
        assert_eq!(next_power_of_two(n), n.next_power_of_two());
    }
}

#[test]
fn buffers_grow_to_the_next_power_of_two() {
    assert_eq!(grown_capacity(100, 128), None);
    assert_eq!(grown_capacity(128, 128), None);
    assert_eq!(grown_capacity(129, 128), Some(256));
    assert_eq!(grown_capacity(3000, 0), Some(4096));
    assert_eq!(grown_capacity(0, 0), None);
}

#[test]
fn samples_accumulate_up_to_the_maximum_then_stop() {
    let mut a = Accumulation::new();
    assert_eq!(a.plan(7, 2, 5), Some(SampleBatch { first: 0, count: 2 }));
    assert_eq!(a.plan(7, 2, 5), Some(SampleBatch { first: 2, count: 2 }));
    assert_eq!(a.plan(7, 2, 5), Some(SampleBatch { first: 4, count: 1 }));
    assert_eq!(a.samples(), 5);
    assert_eq!(a.plan(7, 2, 5), None);
    assert_eq!(a.samples(), 5);
}

#[test]
fn a_changed_view_starts_over() {
    let mut a = Accumulation::new();
    assert_eq!(a.plan(1, 4, 512), Some(SampleBatch { first: 0, count: 4 }));
    assert_eq!(a.plan(1, 4, 512), Some(SampleBatch { first: 4, count: 4 }));
    assert_eq!(a.plan(2, 4, 512), Some(SampleBatch { first: 0, count: 4 }));
    assert_eq!(a.samples(), 4);
}

#[test]
fn at_least_one_sample_per_frame() {
    let mut a = Accumulation::new();
    assert_eq!(a.plan(0, 0, 3), Some(SampleBatch { first: 0, count: 1 }));
    let mut frames = 1;
    while a.plan(0, 0, 3).is_some() {
        frames += 1;
    }
    assert_eq!(frames, 3);
    assert_eq!(a.samples(), 3);
}

#[test]
fn a_lower_maximum_stops_sampling() {
    let mut a = Accumulation::new();
    assert_eq!(a.plan(9, 1024, 1024), Some(SampleBatch { first: 0, count: 1024 }));
    assert_eq!(a.plan(9, 2, 512), None);
    assert_eq!(a.samples(), 1024);
}

#[test]
fn a_view_converges_after_max_over_spp_frames() {
    let mut a = Accumulation::new();
    let mut frames = 0;
    while a.plan(42, 2, 1024).is_some() {
        frames += 1;
    }
    assert_eq!(frames, 512);
    assert_eq!(a.samples(), 1024);
    let mut b = Accumulation::new();
    let mut frames = 0;
    while b.plan(42, 3, 10).is_some() {
        frames += 1;
    }
    assert_eq!(frames, 4);
    assert_eq!(b.samples(), 10);
}
