use synthizer::clock::SampleClock;

#[test]
fn basic() {
    let mut clock = SampleClock::new(44100);
    clock.tick();
    assert_eq!(clock.sample_time, 1);
    clock.tick_multiple(5);
    assert_eq!(clock.sample_time, 6);
    assert_eq!(clock.now().get_sample(), 6);
}

#[test]
fn test_forking() {
    let mut clock = SampleClock::new(44100);
    let clock2 = clock.fork();
    clock.tick();
    assert_eq!(clock.sample_time, 1);
    assert_eq!(clock2.sample_time, 0);
}

#[test]
fn timestamps_order_by_sample() {
    let mut clock = SampleClock::new(48000);
    let a = clock.now();
    clock.tick_multiple(3);
    let b = clock.now();
    assert!(a < b);
    assert_eq!(b.get_sample() - a.get_sample(), 3);
    assert_eq!(clock.sr, 48000);
}

#[test]
fn test_iterator_tying() {
    let iterator: Vec<u64> = (0..5u64).collect();
    let mut clock = SampleClock::new(44100);
    for _ in clock.tie_iter(iterator) {}
    assert_eq!(clock.sample_time, 5);
}

#[test]
fn iterating_hands_out_consecutive_timestamps() {
    let mut clock = SampleClock::new(44100);
    clock.tick_multiple(3);
    let stamps: Vec<u64> = clock.iter(4).iter().map(|t| t.get_sample()).collect();
    assert_eq!(stamps, vec![3, 4, 5, 6]);
    assert_eq!(clock.sample_time, 7);
    assert_eq!(clock.iter_usize(2, 5), vec![2, 3, 4]);
    assert_eq!(clock.sample_time, 10);
}
