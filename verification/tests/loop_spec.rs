use synthizer::loop_spec::{LoopPointInSamples, LoopSpec, LoopSpecError, LoopSpecKind};
use synthizer::time_span::TimeSpan;

#[test]
fn test_to_samples() {
    assert_eq!(LoopSpec::none().get_endpoints_samples(10000).unwrap(), None);
    assert_eq!(
        LoopSpec::all().get_endpoints_samples(10000).unwrap(),
        Some((LoopPointInSamples::Sample(0), LoopPointInSamples::End)),
    );
    assert_eq!(
        LoopSpec::samples(5, None).get_endpoints_samples(10000).unwrap(),
        Some((LoopPointInSamples::Sample(5), LoopPointInSamples::End))
    );
    assert_eq!(
        LoopSpec::samples(5, Some(15)).get_endpoints_samples(10000).unwrap(),
        Some((LoopPointInSamples::Sample(5), LoopPointInSamples::Sample(15))),
    );
    assert_eq!(
        LoopSpec::timestamps(TimeSpan::from_secs(1).add(TimeSpan::from_millis(1)), None)
            .get_endpoints_samples(100)
            .unwrap(),
        Some((LoopPointInSamples::Sample(100), LoopPointInSamples::End))
    );
    assert_eq!(
        LoopSpec::timestamps(
            TimeSpan::from_secs(1).add(TimeSpan::from_millis(1)),
            Some(TimeSpan::from_secs(3).add(TimeSpan::from_millis(1)))
        )
        .get_endpoints_samples(100)
        .unwrap(),
        Some((LoopPointInSamples::Sample(100), LoopPointInSamples::Sample(300))),
    );
}

#[test]
fn empty_loop_is_refused() {
    let spec = LoopSpec::samples(7, Some(7));
    assert_eq!(spec.get_endpoints_samples(44100), Err(LoopSpecError::EmptyLoop(spec, 44100)));
}

#[test]
fn backwards_loop_is_refused() {
    let spec = LoopSpec::samples(9, Some(3));
    assert_eq!(spec.get_endpoints_samples(44100), Err(LoopSpecError::EndBeforeBeginning(spec, 44100)));
}

#[test]
fn timestamps_round_down() {
    // 0.3 s at 10 Hz is exactly 3 samples; 0.35 s rounds down to 3 as well.
    let spec = LoopSpec::timestamps(TimeSpan::from_millis(300), Some(TimeSpan::from_millis(350)));
    let rounded = spec.force_round_off(10);
    assert_eq!(rounded.kind(), LoopSpecKind::Samples { start: 3, end: Some(3) });
    assert_eq!(spec.get_endpoints_samples(10), Err(LoopSpecError::EmptyLoop(spec, 10)));
}

#[test]
fn rounding_flag() {
    let spec = LoopSpec::timestamps(TimeSpan::from_secs(1), None);
    assert!(!spec.is_rounding_allowed());
    let allowed = spec.allow_rounding();
    assert!(allowed.is_rounding_allowed());
    assert_eq!(allowed.kind(), spec.kind());
    let forced = allowed.force_round_off(8);
    assert!(!forced.is_rounding_allowed());
    assert_eq!(forced.kind(), LoopSpecKind::Samples { start: 8, end: None });
}

#[test]
fn validate_against_duration() {
    assert_eq!(LoopSpec::samples(5, Some(9)).validate(100, Some(20)), Ok(()));
    assert_eq!(LoopSpec::samples(25, None).validate(100, Some(20)), Err(LoopSpecError::StartAfterEof));
    assert_eq!(LoopSpec::samples(5, Some(25)).validate(100, Some(20)), Err(LoopSpecError::EndAfterEof));
    assert_eq!(LoopSpec::samples(5, Some(25)).validate(100, None), Ok(()));
    assert_eq!(LoopSpec::samples(5, Some(20)).validate(1000, Some(20)), Err(LoopSpecError::EndAfterEof));
    assert_eq!(LoopSpec::samples(5, Some(19)).validate(1000, Some(20)), Ok(()));
    assert_eq!(LoopSpec::none().validate(100, Some(20)), Ok(()));
}

#[test]
fn default_is_no_loop() {
    let spec: LoopSpec = Default::default();
    assert_eq!(spec, LoopSpec::none());
    assert_eq!(spec.get_endpoints_samples(44100), Ok(None));
}
