use synthizer::loop_driver::{LoopDriver, ReadOp};
use synthizer::loop_spec::LoopSpec;

/// Moving a source from the start to the end.
#[test]
fn test_not_looping() {
    let mut driver = LoopDriver::new(1000);
    assert_eq!(driver.pre_read(10), ReadOp::Read(10),);
    driver.observe_read(10);
    assert_eq!(driver.predicted_position(), 10);
    assert_eq!(driver.pre_read(10), ReadOp::Read(10),);
    driver.observe_read(10);
    assert_eq!(driver.predicted_position(), 20);
    driver.observe_eof();
    assert_eq!(driver.pre_read(10), ReadOp::ReachedEof,);
    // Seeks undo eof.
    driver.observe_seek(10);
    assert_eq!(driver.pre_read(10), ReadOp::Read(10),);
}

#[test]
fn test_full_loop() {
    let mut driver = LoopDriver::new(1000);
    driver.config_looping(LoopSpec::all()).unwrap();

    for _ in 0..2 {
        assert_eq!(driver.pre_read(10), ReadOp::Read(10),);
        driver.observe_read(10);
        assert_eq!(driver.predicted_position(), 10);
        assert_eq!(driver.pre_read(10), ReadOp::Read(10),);
        driver.observe_read(10);
        assert_eq!(driver.predicted_position(), 20);
        driver.observe_eof();
        assert_eq!(driver.pre_read(10), ReadOp::Seek(0), "{driver:?}");
        driver.observe_seek(0);
    }
}

/// A loop on a 20-sample source from samples 15 to 18 inclusive.
#[test]
fn test_partial_loop() {
    let mut driver = LoopDriver::new(1000);
    driver.config_looping(LoopSpec::samples(15, Some(18))).unwrap();

    // This puts us in the loop at sample 15, the loop's start point.
    assert_eq!(driver.pre_read(15), ReadOp::Read(15));
    driver.observe_read(15);

    // Read the loop one sample at a time: 4 samples, then a seek.
    for _ in 0..4 {
        assert_eq!(driver.pre_read(1), ReadOp::Read(1), "{driver:?}",);
        driver.observe_read(1);
    }

    assert_eq!(driver.pre_read(1), ReadOp::Seek(15), "{driver:?}",);
    driver.observe_seek(15);

    // Asking for more than the loop holds reads to its end.
    assert_eq!(driver.pre_read(10), ReadOp::Read(4),);
    driver.observe_read(4);
    assert_eq!(driver.pre_read(10), ReadOp::Seek(15));
}

/// Sources configured to loop after their end never seek, and stop at the end.
#[test]
fn test_after_eof() {
    let mut driver = LoopDriver::new(10000);
    driver.config_looping(LoopSpec::samples(30, None)).unwrap();

    assert_eq!(driver.pre_read(20), ReadOp::Read(20),);
    driver.observe_read(20);
    driver.observe_eof();

    assert_eq!(driver.pre_read(10), ReadOp::ReachedEof,);
}

#[test]
fn bad_loop_config_is_refused() {
    let mut driver = LoopDriver::new(1000);
    assert!(driver.config_looping(LoopSpec::samples(5, Some(5))).is_err());
    assert!(driver.config_looping(LoopSpec::samples(5, Some(2))).is_err());
    // A refused configuration leaves the driver not looping.
    assert_eq!(driver.pre_read(10), ReadOp::Read(10));
}

#[test]
fn reads_never_exceed_request() {
    let mut driver = LoopDriver::new(1000);
    driver.config_looping(LoopSpec::samples(0, Some(99))).unwrap();
    for request in [1u64, 7, 50, 200] {
        match driver.pre_read(request) {
            ReadOp::Read(n) => {
                assert!(n <= request);
                assert!(n >= 1);
                driver.observe_read(n);
            }
            ReadOp::Seek(p) => {
                assert_eq!(p, 0);
                driver.observe_seek(p);
            }
            ReadOp::ReachedEof => panic!("a loop over the whole source never reaches its end"),
        }
    }
}

#[test]
fn timestamp_loop_converted_at_driver_rate() {
    let mut driver = LoopDriver::new(100);
    driver
        .config_looping(LoopSpec::timestamps(
            synthizer::time_span::TimeSpan::from_millis(100),
            Some(synthizer::time_span::TimeSpan::from_millis(200)),
        ))
        .unwrap();
    // Loop covers samples 10 through 20.
    assert_eq!(driver.pre_read(100), ReadOp::Read(21));
    driver.observe_read(21);
    assert_eq!(driver.pre_read(100), ReadOp::Seek(10));
    driver.observe_seek(10);
    assert_eq!(driver.pre_read(100), ReadOp::Read(11));
}
