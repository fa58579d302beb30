use synthizer::channel_format::ChannelFormat;
use synthizer::loop_spec::LoopSpec;
use synthizer::nonzero::NonZeroRate;
use synthizer::sample_reader::SampleSourceReader;
use synthizer::sample_source::{MissingSetting, SampleSource, SampleSourceError, SeekSupport};
use synthizer::source_reader::SourceReader;
use synthizer::vec_source::{VecSource, VecSourceBuilder};

fn source(data: Vec<i32>) -> VecSource<i32> {
    VecSource::<i32>::builder()
        .set_channel_format(ChannelFormat::Stereo)
        .set_sample_rate(NonZeroRate::new(44100).unwrap())
        .build_with_data(data)
        .unwrap()
}

#[test]
fn builder_needs_settings() {
    assert_eq!(
        VecSourceBuilder::default().build_with_data(vec![1, 2]).err(),
        Some(SampleSourceError::Missing(MissingSetting::ChannelFormat))
    );
    assert_eq!(
        VecSourceBuilder::default().set_channel_format(ChannelFormat::Mono).build_with_data(vec![1, 2]).err(),
        Some(SampleSourceError::Missing(MissingSetting::SampleRate))
    );
    assert_eq!(
        VecSourceBuilder::default()
            .set_channel_format(ChannelFormat::Stereo)
            .set_sample_rate(NonZeroRate::new(8000).unwrap())
            .build_with_data(vec![1, 2, 3])
            .err(),
        Some(SampleSourceError::PartialFrame)
    );
}

#[test]
fn vec_source_reads_and_seeks() {
    let mut s = source(vec![1, 2, 3, 4, 5, 6]);
    let d = s.get_descriptor();
    assert_eq!(d.duration, Some(3));
    assert_eq!(d.seek_support, SeekSupport::SampleAccurate);
    let mut dest = vec![0; 4];
    assert_eq!(s.read_samples(&mut dest), Ok(2));
    assert_eq!(dest, vec![1, 2, 3, 4]);
    assert_eq!(s.read_samples(&mut dest), Ok(1));
    assert_eq!(dest[..2], [5, 6]);
    assert_eq!(s.read_samples(&mut dest), Ok(0));
    s.seek(1).unwrap();
    assert_eq!(s.read_samples(&mut dest), Ok(2));
    assert_eq!(dest, vec![3, 4, 5, 6]);
    assert!(!s.is_permanently_finished());
}

#[test]
fn reader_loops_whole_source() {
    let mut r = SourceReader::new(source(vec![1, 2, 3, 4, 5, 6])).unwrap();
    r.config_looping(LoopSpec::all());
    let mut dest = vec![0; 4];
    let mut got = Vec::new();
    for _ in 0..4 {
        let n = r.read_samples(&mut dest).unwrap() as usize;
        got.extend_from_slice(&dest[..n * 2]);
    }
    // Frames 0,1 | 2 | then the loop restarts: 0,1 | 2.
    assert_eq!(got, vec![1, 2, 3, 4, 5, 6, 1, 2, 3, 4, 5, 6]);
}

#[test]
fn reader_stops_at_end_without_loop() {
    let mut r = SourceReader::new(source(vec![1, 2, 3, 4])).unwrap();
    let mut dest = vec![0; 8];
    assert_eq!(r.read_samples(&mut dest), Ok(2));
    assert_eq!(r.read_samples(&mut dest), Ok(0));
    // Seeking alone leaves the reader at its end; it plays again once moved back to playing.
    r.seek(1).unwrap();
    assert_eq!(r.read_samples(&mut dest), Ok(0));
    r.become_playing_if_eof();
    assert_eq!(r.read_samples(&mut dest), Ok(1));
    assert_eq!(dest[..2], [3, 4]);
}

#[test]
fn sample_reader_passes_reads_through() {
    let mut r = SampleSourceReader::new(source(vec![9, 8, 7, 6])).unwrap();
    assert_eq!(r.descriptor().duration, Some(2));
    let mut dest = vec![0; 2];
    assert_eq!(r.read_samples(&mut dest), Ok(1));
    assert_eq!(dest, vec![9, 8]);
}

#[test]
fn looping_read_wraps_within_one_call() {
    let src = VecSource::<i32>::builder()
        .set_channel_format(ChannelFormat::Mono)
        .set_sample_rate(NonZeroRate::new(1000).unwrap())
        .build_with_data(vec![1, 2, 3])
        .unwrap();
    let mut r = SourceReader::new(src).unwrap();
    r.config_looping(LoopSpec::all());
    let mut first = [0; 3];
    assert_eq!(r.read_samples(&mut first), Ok(3));
    assert_eq!(first, [1, 2, 3]);
    // The end of the source is seen, the reader seeks back to the start and reads again, all in one call.
    let mut d = [0; 2];
    assert_eq!(r.read_samples(&mut d), Ok(2));
    assert_eq!(d, [1, 2]);
}

#[test]
fn short_read_leaves_the_rest_of_the_destination() {
    let mut r = SourceReader::new(source(vec![1, 2, 3, 4])).unwrap();
    let mut dest = vec![9; 8];
    assert_eq!(r.read_samples(&mut dest), Ok(2));
    assert_eq!(dest, vec![1, 2, 3, 4, 9, 9, 9, 9]);
}

/// A mono source whose reads always fail.
struct FailingSource;

impl FailingSource {
    fn descriptor() -> synthizer::sample_source::Descriptor {
        synthizer::sample_source::Descriptor {
            sample_rate: NonZeroRate::new(1000).unwrap(),
            duration: None,
            channel_format: ChannelFormat::Mono,
            seek_support: SeekSupport::Unsupported,
            latency: synthizer::sample_source::Latency::AudioThreadSafe,
        }
    }
}

impl SampleSource for FailingSource {
    type Sample = i32;

    fn descriptor_spec(&self) -> synthizer::sample_source::Descriptor {
        Self::descriptor()
    }

    fn finished_spec(&self) -> bool {
        false
    }

    fn get_descriptor(&self) -> synthizer::sample_source::Descriptor {
        Self::descriptor()
    }

    fn seek(&mut self, _position_in_frames: u64) -> Result<(), SampleSourceError> {
        Ok(())
    }

    fn read_samples(&mut self, _destination: &mut [i32]) -> Result<u64, SampleSourceError> {
        Err(SampleSourceError::Failed("broken".to_string()))
    }

    fn is_permanently_finished(&self) -> bool {
        false
    }
}

/// After a read fails, every later read gives nothing and leaves the destination alone.
#[test]
fn nothing_is_read_after_a_failure() {
    let mut r = SourceReader::new(FailingSource).unwrap();
    let mut dest = [5; 4];
    assert!(r.read_samples(&mut dest).is_err());
    for _ in 0..3 {
        let mut later = [7; 4];
        assert_eq!(r.read_samples(&mut later), Ok(0));
        assert_eq!(later, [7; 4]);
    }
}
