//! The integer decisions of the latency analysis: where an event lies in the
//! recording, its UTC instant, and whether two recordings share a clock.

use vstd::prelude::*;
use crate::timing::{
    anchored_utc, anchored_utc_is_monotonic, rising_anchors, utc_day, TimingAnchor, TimingError,
    TimingSidecar, ValidatedTiming, NANOS_PER_DAY,
};
use vstd::arithmetic::div_mod::lemma_div_is_ordered;
use crate::text::same_text;

verus! {

/// A failure as the report states it: a code and a message.
#[derive(Debug, Clone)]
pub struct ReportError {
    pub code: String,
    pub message: String,
}

/// The recording sample of an event found at `onset_sample` in the 16 kHz
/// analysis signal: onset * rate / 16000, rounded to the nearest sample
/// (halves up), and at most `u64::MAX`.
pub open spec fn wav_sample_of(onset_sample: usize, sample_rate: u32) -> u64 {
    let q = (onset_sample as int * sample_rate as int * 2 + 16_000) / 32_000;
    if q > u64::MAX {
        u64::MAX
    } else {
        q as u64
    }
}

/// Maps an analysis-signal sample to the recording's sample index.
pub fn event_wav_sample(onset_sample: usize, sample_rate: u32) -> (s: u64)
    ensures
        s == wav_sample_of(onset_sample, sample_rate),
{
    assert(onset_sample as int * sample_rate as int <= u64::MAX as int * u32::MAX as int)
        by (nonlinear_arith)
        requires
            onset_sample <= u64::MAX,
            sample_rate <= u32::MAX,
    ;
    let scaled: u128 = onset_sample as u128 * sample_rate as u128;
    let q: u128 = (scaled * 2 + 16_000) / 32_000;
    if q > u64::MAX as u128 {
        u64::MAX
    } else {
        q as u64
    }
}

/// The UTC instant (ns since the Unix epoch) of an event found at
/// `onset_sample` in the analysis signal of a recording at `sample_rate`.
pub fn event_time(timing: &ValidatedTiming, sample_rate: u32, onset_sample: usize) -> (r: Result<
    i64,
    TimingError,
>)
    requires
        timing.sidecar.anchors@.len() >= 2,
    ensures
        r == anchored_utc(timing.sidecar.anchors@, wav_sample_of(onset_sample, sample_rate)),
{
    let wav_sample = event_wav_sample(onset_sample, sample_rate);
    timing.event_utc_ns(wav_sample)
}

/// Two recordings can be compared only when their clocks were synchronised
/// against the same server and they start on the same UTC day.
pub fn check_clock_pair(sender: &TimingSidecar, receiver: &TimingSidecar) -> (r: Result<
    (),
    ReportError,
>)
    requires
        sender.time_sync is Some,
        receiver.time_sync is Some,
    ensures
        match r {
            Ok(()) => sender.time_sync->0.server@ == receiver.time_sync->0.server@
                && sender.first_pcm_utc_unix_ns as int / NANOS_PER_DAY as int
                == receiver.first_pcm_utc_unix_ns as int / NANOS_PER_DAY as int,
            Err(e) => {
                &&& e.code@ == "UNSUPPORTED_TIMING_PROTOCOL"@
                &&& if sender.time_sync->0.server@ != receiver.time_sync->0.server@ {
                    e.message@ == "发送端和接收端的 NTP server 不一致"@
                } else {
                    &&& sender.first_pcm_utc_unix_ns as int / NANOS_PER_DAY as int
                        != receiver.first_pcm_utc_unix_ns as int / NANOS_PER_DAY as int
                    &&& e.message@ == "发送端和接收端的录音不在同一个 UTC 日"@
                }
            },
        },
{
    let sender_sync = match &sender.time_sync {
        Some(sync) => sync,
        None => {
            assert(false);
            return Ok(());
        },
    };
    let receiver_sync = match &receiver.time_sync {
        Some(sync) => sync,
        None => {
            assert(false);
            return Ok(());
        },
    };
    if !same_text(sender_sync.server.as_str(), receiver_sync.server.as_str()) {
        return Err(
            ReportError {
                code: String::from_str("UNSUPPORTED_TIMING_PROTOCOL"),
                message: String::from_str("发送端和接收端的 NTP server 不一致"),
            },
        );
    }
    if utc_day(sender.first_pcm_utc_unix_ns) != utc_day(receiver.first_pcm_utc_unix_ns) {
        return Err(
            ReportError {
                code: String::from_str("UNSUPPORTED_TIMING_PROTOCOL"),
                message: String::from_str("发送端和接收端的录音不在同一个 UTC 日"),
            },
        );
    }
    Ok(())
}

/// Law: with anchors that rise in sample index and UTC, a later onset in the
/// analysis signal never gets an earlier UTC instant.
pub proof fn event_time_is_monotonic(
    anchors: Seq<TimingAnchor>,
    sample_rate: u32,
    onset1: usize,
    onset2: usize,
)
    requires
        anchors.len() >= 2,
        rising_anchors(anchors),
        onset1 <= onset2,
        anchored_utc(anchors, wav_sample_of(onset1, sample_rate)) is Ok,
        anchored_utc(anchors, wav_sample_of(onset2, sample_rate)) is Ok,
    ensures
        anchored_utc(anchors, wav_sample_of(onset1, sample_rate))->Ok_0 <= anchored_utc(
            anchors,
            wav_sample_of(onset2, sample_rate),
        )->Ok_0,
{
    let x1 = onset1 as int * sample_rate as int * 2 + 16_000;
    let x2 = onset2 as int * sample_rate as int * 2 + 16_000;
    assert(x1 <= x2) by (nonlinear_arith)
        requires
            x1 == onset1 as int * sample_rate as int * 2 + 16_000,
            x2 == onset2 as int * sample_rate as int * 2 + 16_000,
            onset1 <= onset2,
            0 <= sample_rate,
    ;
    lemma_div_is_ordered(x1, x2, 32_000);
    anchored_utc_is_monotonic(
        anchors,
        wav_sample_of(onset1, sample_rate),
        wav_sample_of(onset2, sample_rate),
    );
}

} // verus!
