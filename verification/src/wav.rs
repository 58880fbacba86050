//! The WAV formats the measurement accepts, and how their samples are read.

use vstd::prelude::*;

verus! {

/// Whether the samples of a WAV file are integers or floating-point numbers.
#[derive(Debug, Clone, Copy, PartialEq, Eq, Structural)]
pub enum SampleFormat {
    Float,
    Int,
}

/// How the samples of an accepted WAV file are read and scaled to [-1, 1).
#[derive(Debug, Clone, Copy, PartialEq, Eq, Structural)]
pub enum SampleEncoding {
    /// 32-bit floating point, taken as they are.
    Float32,
    /// 8-bit integers, divided by 128.
    Int8,
    /// 16-bit integers, divided by 32768.
    Int16,
    /// 24- or 32-bit integers (read as 32-bit), divided by 2^(bits - 1).
    Int32 { bits: u16 },
}

/// Why a WAV file was refused.
#[derive(Debug, Clone, Copy, PartialEq, Eq, Structural)]
pub enum WavFault {
    /// The file declares no channel.
    InvalidChannels,
    /// The sample rate (the value given) is neither 16000 Hz nor 48000 Hz.
    UnsupportedSampleRate(u32),
    /// The file declares 0 bits per sample.
    InvalidBitDepth,
    /// Floating-point samples that are not 32-bit.
    UnsupportedFloatBits,
    /// Integer samples of an unsupported width (the value given).
    UnsupportedIntBits(u16),
    /// The samples do not fill whole frames of all channels.
    IncompleteFrames,
}

/// The verdict on a WAV header: the first check that fails, or how to read
/// its samples.
pub open spec fn wav_spec_verdict(
    channels: u16,
    sample_rate: u32,
    bits_per_sample: u16,
    format: SampleFormat,
) -> Result<SampleEncoding, WavFault> {
    if channels == 0 {
        Err(WavFault::InvalidChannels)
    } else if sample_rate != 16_000 && sample_rate != 48_000 {
        Err(WavFault::UnsupportedSampleRate(sample_rate))
    } else if bits_per_sample == 0 {
        Err(WavFault::InvalidBitDepth)
    } else {
        match format {
            SampleFormat::Float => if bits_per_sample == 32 {
                Ok(SampleEncoding::Float32)
            } else {
                Err(WavFault::UnsupportedFloatBits)
            },
            SampleFormat::Int => if bits_per_sample == 8 {
                Ok(SampleEncoding::Int8)
            } else if bits_per_sample == 16 {
                Ok(SampleEncoding::Int16)
            } else if bits_per_sample == 24 || bits_per_sample == 32 {
                Ok(SampleEncoding::Int32 { bits: bits_per_sample })
            } else {
                Err(WavFault::UnsupportedIntBits(bits_per_sample))
            },
        }
    }
}

/// Checks a WAV header and says how its samples are to be read.
pub fn check_wav_spec(
    channels: u16,
    sample_rate: u32,
    bits_per_sample: u16,
    format: SampleFormat,
) -> (r: Result<SampleEncoding, WavFault>)
    ensures
        r == wav_spec_verdict(channels, sample_rate, bits_per_sample, format),
{
    if channels == 0 {
        return Err(WavFault::InvalidChannels);
    }
    if sample_rate != 16_000 && sample_rate != 48_000 {
        return Err(WavFault::UnsupportedSampleRate(sample_rate));
    }
    if bits_per_sample == 0 {
        return Err(WavFault::InvalidBitDepth);
    }
    match format {
        SampleFormat::Float => if bits_per_sample == 32 {
            Ok(SampleEncoding::Float32)
        } else {
            Err(WavFault::UnsupportedFloatBits)
        },
        SampleFormat::Int => if bits_per_sample == 8 {
            Ok(SampleEncoding::Int8)
        } else if bits_per_sample == 16 {
            Ok(SampleEncoding::Int16)
        } else if bits_per_sample == 24 || bits_per_sample == 32 {
            Ok(SampleEncoding::Int32 { bits: bits_per_sample })
        } else {
            Err(WavFault::UnsupportedIntBits(bits_per_sample))
        },
    }
}

/// The number of frames in interleaved samples of `channels` channels,
/// refused when the samples do not fill whole frames.
pub fn frame_count(sample_count: usize, channels: u16) -> (r: Result<usize, WavFault>)
    requires
        channels > 0,
    ensures
        r == if (sample_count as int) % (channels as int) == 0 {
            Ok::<usize, WavFault>((sample_count as int / channels as int) as usize)
        } else {
            Err(WavFault::IncompleteFrames)
        },
{
    let c = channels as usize;
    if sample_count % c != 0 {
        Err(WavFault::IncompleteFrames)
    } else {
        Ok(sample_count / c)
    }
}

/// Law: which sample formats are read does not depend on which supported
/// rate the file has. At 16 kHz and at 48 kHz alike, with at least one
/// channel, a file is accepted exactly when it holds 32-bit floats or 8-,
/// 16-, 24- or 32-bit integers, and it is then read as those samples.
pub proof fn accepted_formats_at_both_rates(channels: u16, bits_per_sample: u16, format: SampleFormat)
    requires
        channels > 0,
    ensures
        wav_spec_verdict(channels, 16_000, bits_per_sample, format) == wav_spec_verdict(
            channels,
            48_000,
            bits_per_sample,
            format,
        ),
        wav_spec_verdict(channels, 16_000, bits_per_sample, format) is Ok <==> (format
            == SampleFormat::Float && bits_per_sample == 32) || (format == SampleFormat::Int && (
        bits_per_sample == 8 || bits_per_sample == 16 || bits_per_sample == 24 || bits_per_sample
            == 32)),
        format == SampleFormat::Float && bits_per_sample == 32 ==> wav_spec_verdict(
            channels,
            48_000,
            bits_per_sample,
            format,
        ) == Ok::<SampleEncoding, WavFault>(SampleEncoding::Float32),
        format == SampleFormat::Int && bits_per_sample == 16 ==> wav_spec_verdict(
            channels,
            48_000,
            bits_per_sample,
            format,
        ) == Ok::<SampleEncoding, WavFault>(SampleEncoding::Int16),
        format == SampleFormat::Int && bits_per_sample == 8 ==> wav_spec_verdict(
            channels,
            48_000,
            bits_per_sample,
            format,
        ) == Ok::<SampleEncoding, WavFault>(SampleEncoding::Int8),
        format == SampleFormat::Int && (bits_per_sample == 24 || bits_per_sample == 32)
            ==> wav_spec_verdict(channels, 48_000, bits_per_sample, format) == Ok::<
            SampleEncoding,
            WavFault,
        >(SampleEncoding::Int32 { bits: bits_per_sample }),
{
}

} // verus!
