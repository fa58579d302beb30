use synthizer::channel_format::ChannelFormat;
use synthizer::nonzero::NonZeroRate;
use synthizer::resampling::read_planar;
use synthizer::source_reader::SourceReader;
use synthizer::vec_source::VecSource;
use synthizer::resampling::{PassthroughResampler, ResamplerMode, ResamplerPlan, ResamplingError};

#[test]
fn test_no_resampling_passthrough() {
    let plan = ResamplerPlan::select(44100, 44100, 2, ResamplerMode::FixedInput { input_frames: 3 }).unwrap();
    assert!(!plan.is_resampling());
    assert_eq!(plan, ResamplerPlan::Passthrough { channels: 2, frames: 3 });

    let mut resampler = PassthroughResampler::new(2, 3);
    let input = vec![1.0, 2.0, 3.0, 4.0, 5.0, 6.0]; // 3 stereo frames
    let mut output = vec![0.0; 6];

    let frames = resampler.process(&input, &mut output).unwrap();
    assert_eq!(frames.1, 3);
    assert_eq!(output, input);
}

#[test]
fn test_resampling_active() {
    let plan = ResamplerPlan::select(48000, 44100, 2, ResamplerMode::FixedInput { input_frames: 10 }).unwrap();
    assert!(plan.is_resampling());
    assert_eq!(
        plan,
        ResamplerPlan::FixedIn { source_rate: 48000, target_rate: 44100, channels: 2, input_frames: 10 }
    );
}

#[test]
fn fixed_output_plan() {
    let plan = ResamplerPlan::select(22050, 44100, 1, ResamplerMode::FixedOutput { output_frames: 128 }).unwrap();
    assert_eq!(
        plan,
        ResamplerPlan::FixedOut { source_rate: 22050, target_rate: 44100, channels: 1, output_frames: 128 }
    );
}

#[test]
fn bad_channel_counts_are_refused() {
    assert_eq!(
        ResamplerPlan::select(44100, 44100, 0, ResamplerMode::FixedInput { input_frames: 3 }),
        Err(ResamplingError::InvalidChannelCount(0))
    );
    assert_eq!(
        ResamplerPlan::select(44100, 48000, 17, ResamplerMode::FixedInput { input_frames: 3 }),
        Err(ResamplingError::InvalidChannelCount(17))
    );
}

#[test]
fn passthrough_copies_whole_frames_only() {
    let mut resampler = PassthroughResampler::new(2, 4);
    let input = vec![1u8, 2, 3, 4, 5];
    let mut output = vec![0u8; 8];
    assert_eq!(resampler.process(&input, &mut output), Ok((2, 2)));
    assert_eq!(output, vec![1, 2, 3, 4, 0, 0, 0, 0]);
}

#[test]
fn read_planar_pads_with_silence_and_splits_channels() {
    let src = VecSource::<i32>::builder()
        .set_channel_format(ChannelFormat::Stereo)
        .set_sample_rate(NonZeroRate::new(8000).unwrap())
        .build_with_data(vec![1, 2, 3, 4])
        .unwrap();
    let mut reader = SourceReader::new(src).unwrap();
    let mut interleaved = vec![7; 6];
    let mut planes = vec![vec![5; 3], vec![5; 3]];
    assert_eq!(read_planar(&mut reader, &mut interleaved, 3, &mut planes, 0), Ok(2));
    assert_eq!(interleaved, vec![1, 2, 3, 4, 0, 0]);
    assert_eq!(planes, vec![vec![1, 3, 0], vec![2, 4, 0]]);
}
