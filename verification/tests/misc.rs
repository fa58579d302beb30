use synthizer::channel_format::{channel_format_from_report, count_ones, ChannelFormat, DecodedLayout};
use synthizer::error::{Error, ValidationError};
use synthizer::frame_batcher::FrameBatcher;
use synthizer::loop_spec::{LoopSpec, LoopSpecError};
use synthizer::maybe_int::{FixedInt, IntSource, VaryingInt};
use synthizer::nodes::{NodeCommand, SampleSourcePlayerNode};
use synthizer::nonzero::{NonZeroCount, NonZeroRate};
use synthizer::sample_source::{Descriptor, Latency, SeekSupport};
use synthizer::server::ServerOptions;
use synthizer::slots::{Slot, SlotSignalConfig, SlotValueContainer};
use synthizer::time_span::{duration_to_samples, TimeSpan};
use synthizer::unique_id::UniqueIdAllocator;

fn descriptor(seek: SeekSupport, duration: Option<u64>) -> Descriptor {
    Descriptor {
        sample_rate: NonZeroRate::new(100).unwrap(),
        duration,
        channel_format: ChannelFormat::Mono,
        seek_support: seek,
        latency: Latency::AudioThreadSafe,
    }
}

#[test]
fn time_spans() {
    let t = TimeSpan::from_secs(2).add(TimeSpan::from_millis(1500));
    assert_eq!(t.as_secs(), 3);
    assert_eq!(t.subsec_nanos(), 500_000_000);
    assert_eq!(t.as_nanos(), 3_500_000_000);
    assert_eq!(t.to_samples_floor(44100), 154350);
    assert_eq!(TimeSpan::new(0, 999_999_999).to_samples_floor(1000), 999);
    assert_eq!(TimeSpan::new(1, 2_000_000_000).as_secs(), 3);
}

#[test]
fn channel_formats() {
    assert_eq!(ChannelFormat::Stereo.channels(), 2);
    assert_eq!(count_ones(0b1011), 3);
    assert_eq!(channel_format_from_report(Some(DecodedLayout::Mono), None), Some(ChannelFormat::Mono));
    assert_eq!(channel_format_from_report(None, Some(0b11)), Some(ChannelFormat::Stereo));
    assert_eq!(
        channel_format_from_report(None, Some(0b111)),
        Some(ChannelFormat::Raw { channels: NonZeroCount::new(3).unwrap() })
    );
    assert_eq!(channel_format_from_report(None, Some(0)), None);
    assert_eq!(channel_format_from_report(None, Some(0xffff)), None);
    assert_eq!(channel_format_from_report(None, None), None);
}

#[test]
fn player_seeks_are_checked() {
    let node = SampleSourcePlayerNode::new(descriptor(SeekSupport::SampleAccurate, Some(50))).unwrap();
    assert_eq!(node.seek_sample(10), Ok(NodeCommand::Seek(10)));
    assert_eq!(node.seek_sample(50), Err(Error::Validation(ValidationError::SeekPastEnd)));
    assert_eq!(node.seek(TimeSpan::from_millis(250)), Ok(NodeCommand::Seek(25)));
    let node = SampleSourcePlayerNode::new(descriptor(SeekSupport::Unsupported, None)).unwrap();
    assert_eq!(node.seek_sample(0), Err(Error::Validation(ValidationError::SeekUnsupported)));
    let node = SampleSourcePlayerNode::new(descriptor(SeekSupport::ToBeginning, None)).unwrap();
    assert_eq!(node.seek_sample(0), Ok(NodeCommand::Seek(0)));
    assert_eq!(node.seek_sample(3), Err(Error::Validation(ValidationError::SeekOnlyToBeginning)));
    assert_eq!(
        SampleSourcePlayerNode::new(descriptor(SeekSupport::SampleAccurate, Some(0))).err(),
        Some(Error::Validation(ValidationError::ZeroDuration))
    );
}

#[test]
fn player_loop_configs_are_checked() {
    let node = SampleSourcePlayerNode::new(descriptor(SeekSupport::SampleAccurate, Some(50))).unwrap();
    assert_eq!(node.config_looping(LoopSpec::samples(0, Some(10))), Ok(NodeCommand::SetLoopConfig(LoopSpec::samples(0, Some(10)))));
    let r = node.config_looping(LoopSpec::samples(60, None));
    assert_eq!(r, Err(Error::Loop(LoopSpecError::StartAfterEof)));
    assert!(r.unwrap_err().is_invalid_loop());
}

#[test]
fn int_sources() {
    let f: FixedInt<u8, 300> = FixedInt::new();
    assert_eq!(f.get(), 44);
    assert!(f.is_fixed());
    assert_eq!(f.as_int(), 44);
    let v = VaryingInt::new(-3i16);
    assert_eq!(v.get(), -3);
    assert!(!v.is_fixed());
    assert_eq!(v.as_int(), -3);
}

#[test]
fn frame_batcher_delays_by_one_block() {
    let mut b: FrameBatcher<u32, u32> = FrameBatcher::new();
    let block = synthizer::config::BLOCK_SIZE;
    let double = |xs: &[u32]| xs.iter().map(|x| x * 2).collect::<Vec<u32>>();
    for i in 0..block as u32 {
        assert_eq!(b.process_frame(i, double), 0);
    }
    for i in 0..block as u32 {
        assert_eq!(b.process_frame(0, double), i * 2);
    }
}

#[test]
fn slot_updates_are_seen_once() {
    let mut ids = UniqueIdAllocator::new();
    let slot: Slot<u32> = Slot::new(ids.fresh());
    let never = ids.fresh();
    let (_sig, mut state) = SlotSignalConfig::new(&slot, 1).into_state(never);
    assert_eq!(*state.output().get_value(), 1);
    let c = SlotValueContainer::new(5, ids.fresh());
    state.observe(&c);
    assert_eq!(*state.output().get_value(), 5);
    assert!(state.output().changed_this_block());
    state.observe(&c);
    assert!(!state.output().changed_this_block());
    let c2 = c.replace(6, ids.fresh());
    state.observe(&c2);
    assert_eq!(*state.output().get_value(), 6);
    assert!(state.output().changed_this_block());
}

#[test]
fn server_defaults() {
    let o = ServerOptions::default();
    assert_eq!(o.expected_nodes, 2048);
    assert_eq!(o.expected_connections, 2048 * 16);
    assert_eq!(o.preallocated_blocks, 35536);
}

#[test]
fn ids_are_fresh() {
    let mut ids = UniqueIdAllocator::new();
    assert!(ids.has_room());
    let a = ids.fresh();
    let b = ids.fresh();
    assert_ne!(a, b);
    assert_ne!(a.get(), b.get());
}

#[test]
fn durations_round_up_to_whole_samples() {
    assert_eq!(duration_to_samples(&TimeSpan::from_secs(1)), 44100);
    assert_eq!(duration_to_samples(&TimeSpan::from_millis(100)), 4410);
    assert_eq!(duration_to_samples(&TimeSpan::new(0, 1)), 1);
    assert_eq!(duration_to_samples(&TimeSpan::new(0, 0)), 0);
    assert_eq!(TimeSpan::from_millis(350).to_samples_ceil(10), 4);
    assert_eq!(TimeSpan::from_millis(350).to_samples_floor(10), 3);
    assert_eq!(TimeSpan::from_millis(300).to_samples_ceil(10), 3);
}
