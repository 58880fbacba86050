//! The shape of the signal preparation: how many samples resampling to the
//! analysis rate yields.

use vstd::prelude::*;

verus! {

/// The rate at which recordings are analysed.
pub const ANALYSIS_RATE: u32 = 16_000;

/// How many samples resampling `input_len` samples at `sample_rate` to
/// 16 kHz yields: all of them at 16 kHz, one in three (rounded up) at 48 kHz,
/// and none at any other rate.
pub fn resampled_length(input_len: usize, sample_rate: u32) -> (n: usize)
    ensures
        n == if sample_rate == 16_000 {
            input_len as int
        } else if sample_rate == 48_000 {
            (input_len as int + 2) / 3
        } else {
            0
        },
{
    if sample_rate == 16_000 {
        input_len
    } else if sample_rate == 48_000 {
        input_len / 3 + if input_len % 3 == 0 {
            0
        } else {
            1
        }
    } else {
        0
    }
}

} // verus!
