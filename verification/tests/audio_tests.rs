use audio_checker::preprocess::resampled_length;
use audio_checker::wav::{check_wav_spec, frame_count, SampleEncoding, SampleFormat, WavFault};

#[test]
fn accepted_wav_formats() {
    assert_eq!(check_wav_spec(1, 16_000, 16, SampleFormat::Int), Ok(SampleEncoding::Int16));
    assert_eq!(check_wav_spec(2, 48_000, 8, SampleFormat::Int), Ok(SampleEncoding::Int8));
    assert_eq!(check_wav_spec(1, 48_000, 24, SampleFormat::Int), Ok(SampleEncoding::Int32 { bits: 24 }));
    assert_eq!(check_wav_spec(1, 48_000, 32, SampleFormat::Int), Ok(SampleEncoding::Int32 { bits: 32 }));
    assert_eq!(check_wav_spec(6, 16_000, 32, SampleFormat::Float), Ok(SampleEncoding::Float32));
}

#[test]
fn refused_wav_formats() {
    assert_eq!(check_wav_spec(0, 16_000, 16, SampleFormat::Int), Err(WavFault::InvalidChannels));
    assert_eq!(check_wav_spec(1, 44_100, 16, SampleFormat::Int), Err(WavFault::UnsupportedSampleRate(44_100)));
    assert_eq!(check_wav_spec(1, 16_000, 0, SampleFormat::Float), Err(WavFault::InvalidBitDepth));
    assert_eq!(check_wav_spec(1, 16_000, 64, SampleFormat::Float), Err(WavFault::UnsupportedFloatBits));
    assert_eq!(check_wav_spec(1, 16_000, 12, SampleFormat::Int), Err(WavFault::UnsupportedIntBits(12)));
    assert_eq!(check_wav_spec(0, 44_100, 0, SampleFormat::Int), Err(WavFault::InvalidChannels));
}

#[test]
fn frames_of_interleaved_samples() {
    assert_eq!(frame_count(10, 2), Ok(5));
    assert_eq!(frame_count(0, 3), Ok(0));
    assert_eq!(frame_count(10, 3), Err(WavFault::IncompleteFrames));
}

#[test]
fn resampling_keeps_length_ratio() {
    assert_eq!(resampled_length(48_000, 48_000), 16_000);
    assert_eq!(resampled_length(48_001, 48_000), 16_001);
    assert_eq!(resampled_length(2, 48_000), 1);
    assert_eq!(resampled_length(0, 48_000), 0);
    assert_eq!(resampled_length(777, 16_000), 777);
    assert_eq!(resampled_length(777, 44_100), 0);
}
