use synthizer::channel_format::{ChannelFormat, DecodedLayout};
use synthizer::decoding::{plan_stream, rate_from_first_packet, PlanarBuffer, StreamSetupError, TrackReport};

fn track(decodable: bool, layout: Option<DecodedLayout>, mask: Option<u32>, rate: Option<u32>) -> TrackReport {
    TrackReport { decodable, layout, channel_mask: mask, sample_rate: rate, frames: Some(1000) }
}

#[test]
fn first_decodable_track_is_chosen() {
    let tracks = vec![
        track(false, Some(DecodedLayout::Stereo), None, Some(48000)),
        track(true, None, Some(0b11), Some(44100)),
        track(true, Some(DecodedLayout::Mono), None, Some(22050)),
    ];
    let plan = plan_stream(&tracks).unwrap();
    assert_eq!(plan.track_index, 1);
    assert_eq!(plan.channel_format, ChannelFormat::Stereo);
    assert_eq!(plan.sample_rate.unwrap().get(), 44100);
    assert_eq!(plan.duration, Some(1000));
}

#[test]
fn no_decodable_track() {
    let tracks = vec![track(false, Some(DecodedLayout::Stereo), None, Some(48000))];
    assert_eq!(plan_stream(&tracks).unwrap_err(), StreamSetupError::NoDecodableTrack);
    assert_eq!(plan_stream(&Vec::new()).unwrap_err(), StreamSetupError::NoDecodableTrack);
}

#[test]
fn unsupported_channels() {
    let tracks = vec![track(true, None, None, Some(48000)), track(true, Some(DecodedLayout::Mono), None, None)];
    assert_eq!(plan_stream(&tracks).unwrap_err(), StreamSetupError::UnsupportedChannelFormat);
}

#[test]
fn unknown_rate_comes_from_first_packet() {
    let tracks = vec![track(true, Some(DecodedLayout::FivePointOne), None, None)];
    let plan = plan_stream(&tracks).unwrap();
    assert!(plan.sample_rate.is_none());
    assert_eq!(plan.channel_format.channels(), 6);
    assert_eq!(rate_from_first_packet(0), Err(StreamSetupError::ZeroSampleRate));
    assert_eq!(rate_from_first_packet(8000).unwrap().get(), 8000);
}

#[test]
fn planar_buffer_interleaves() {
    let mut buf: PlanarBuffer<f32> = PlanarBuffer::new(2);
    assert!(buf.is_exhausted());
    buf.refill(vec![vec![1.0, 2.0, 3.0], vec![10.0, 20.0, 30.0]], 3);
    assert_eq!(buf.available(), 3);
    let mut dest = vec![0.0f32; 8];
    // Start at frame 1 of a 4-frame destination: 3 frames fit, 3 are available.
    let next = buf.read_into(&mut dest, 1);
    assert_eq!(next, 4);
    assert_eq!(dest, vec![0.0, 0.0, 1.0, 10.0, 2.0, 20.0, 3.0, 30.0]);
    assert!(buf.is_exhausted());
}

#[test]
fn planar_buffer_partial_reads_and_skip() {
    let mut buf: PlanarBuffer<i32> = PlanarBuffer::new(1);
    buf.refill(vec![vec![5, 6, 7, 8, 9]], 5);
    assert_eq!(buf.skip(2), 2);
    let mut dest = vec![0i32; 2];
    assert_eq!(buf.read_into(&mut dest, 0), 2);
    assert_eq!(dest, vec![7, 8]);
    assert_eq!(buf.available(), 1);
    assert_eq!(buf.skip(10), 1);
    assert!(buf.is_exhausted());
}
