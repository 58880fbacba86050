//! The timing sidecar of a recording: its contents, its validation, and the
//! mapping from a WAV sample index to a UTC instant through its anchors.

use vstd::prelude::*;
use vstd::arithmetic::div_mod::{lemma_div_is_ordered, lemma_div_by_multiple};
use crate::hash::{lower_hex, sha256_digest, sha256_hex};
use crate::output::{is_bare_name, in_plain_dir, known_file_name, name_part};
use crate::text::{push_signed_decimal, signed_decimal, ascii_case_eq, eq_ignore_ascii_case, is_blank, is_unicode_whitespace, same_text};

verus! {

/// One point of the recording's sample clock tied to UTC.
#[derive(Debug, Clone, Copy, PartialEq, Eq, Structural)]
pub struct TimingAnchor {
    pub wav_sample_index: u64,
    pub device_position: u64,
    pub qpc_100ns: u64,
    pub utc_unix_ns: i64,
}

/// Why a sample index could not be mapped to a UTC instant.
#[derive(Debug, Clone, Copy, PartialEq, Eq, Structural)]
pub enum TimingError {
    /// No pair of neighbouring anchors encloses the sample.
    NoAnchorInterval,
    /// The two anchors used do not increase in both sample index and UTC.
    AnchorsNotMonotonic,
    /// The instant does not fit in a signed 64-bit nanosecond count.
    OutOfRange,
}

/// Integer division that rounds toward zero, as Rust's `/` does on signed integers.
pub open spec fn trunc_div(a: int, b: int) -> int {
    if a >= 0 {
        a / b
    } else {
        -((-a) / b)
    }
}

/// The instant, as an unbounded integer, that the line through `left` and
/// `right` gives to `sample`.
pub open spec fn line_value(left: TimingAnchor, right: TimingAnchor, sample: int) -> int {
    left.utc_unix_ns + trunc_div(
        (sample - left.wav_sample_index) * (right.utc_unix_ns - left.utc_unix_ns),
        right.wav_sample_index - left.wav_sample_index,
    )
}

/// The two anchors increase in both sample index and UTC.
pub open spec fn rising_pair(left: TimingAnchor, right: TimingAnchor) -> bool {
    left.wav_sample_index < right.wav_sample_index && left.utc_unix_ns < right.utc_unix_ns
}

/// Linear interpolation (or extrapolation) of `sample` between two anchors.
pub open spec fn interpolation(left: TimingAnchor, right: TimingAnchor, sample: u64) -> Result<
    i64,
    TimingError,
> {
    if !rising_pair(left, right) {
        Err(TimingError::AnchorsNotMonotonic)
    } else if i64::MIN <= line_value(left, right, sample as int) <= i64::MAX {
        Ok(line_value(left, right, sample as int) as i64)
    } else {
        Err(TimingError::OutOfRange)
    }
}

/// Interpolates `sample` on the line through two anchors, rounding toward zero.
pub fn interpolate(left: &TimingAnchor, right: &TimingAnchor, sample: u64) -> (r: Result<
    i64,
    TimingError,
>)
    ensures
        r == interpolation(*left, *right, sample),
{
    if right.wav_sample_index <= left.wav_sample_index || right.utc_unix_ns <= left.utc_unix_ns {
        return Err(TimingError::AnchorsNotMonotonic);
    }
    let sample_delta: u64 = right.wav_sample_index - left.wav_sample_index;
    let utc_delta: u64 = (right.utc_unix_ns as i128 - left.utc_unix_ns as i128) as u64;
    let before: bool = sample < left.wav_sample_index;
    let distance: u64 = if before {
        left.wav_sample_index - sample
    } else {
        sample - left.wav_sample_index
    };
    assert(distance as int * utc_delta as int <= u64::MAX as int * u64::MAX as int)
        by (nonlinear_arith)
        requires
            distance <= u64::MAX,
            utc_delta <= u64::MAX,
    ;
    let product: u128 = distance as u128 * utc_delta as u128;
    let quotient: u128 = product / (sample_delta as u128);
    let ghost numerator: int = (sample - left.wav_sample_index) * (right.utc_unix_ns
        - left.utc_unix_ns);
    proof {
        if before {
            assert(numerator == -(distance as int * utc_delta as int)) by (nonlinear_arith)
                requires
                    numerator == (sample - left.wav_sample_index) * (right.utc_unix_ns
                        - left.utc_unix_ns),
                    distance == left.wav_sample_index - sample,
                    utc_delta == right.utc_unix_ns - left.utc_unix_ns,
            ;
            if distance as int * utc_delta as int == 0 {
                assert(numerator == 0);
            }
        } else {
            assert(numerator == distance as int * utc_delta as int) by (nonlinear_arith)
                requires
                    numerator == (sample - left.wav_sample_index) * (right.utc_unix_ns
                        - left.utc_unix_ns),
                    distance == sample - left.wav_sample_index,
                    utc_delta == right.utc_unix_ns - left.utc_unix_ns,
            ;
        }
        assert(trunc_div(numerator, sample_delta as int) == if before {
            -(quotient as int)
        } else {
            quotient as int
        });
    }
    if quotient > 0x1_0000_0000_0000_0000u128 {
        return Err(TimingError::OutOfRange);
    }
    let value: i128 = if before {
        left.utc_unix_ns as i128 - quotient as i128
    } else {
        left.utc_unix_ns as i128 + quotient as i128
    };
    if value < i64::MIN as i128 || value > i64::MAX as i128 {
        Err(TimingError::OutOfRange)
    } else {
        Ok(value as i64)
    }
}


/// Sample `s` lies between anchors `i` and `i + 1` (both ends included).
pub open spec fn in_interval(anchors: Seq<TimingAnchor>, s: u64, i: int) -> bool {
    &&& 0 <= i < anchors.len() - 1
    &&& anchors[i].wav_sample_index <= s <= anchors[i + 1].wav_sample_index
}

/// `i` is the first pair of neighbouring anchors that encloses `s`.
pub open spec fn first_interval(anchors: Seq<TimingAnchor>, s: u64, i: int) -> bool {
    &&& in_interval(anchors, s, i)
    &&& forall|j: int| 0 <= j < i ==> !in_interval(anchors, s, j)
}

/// The pair of anchors used for sample `s`: the first pair before the first
/// anchor, the last pair after the last anchor, and otherwise the first pair
/// that encloses it.
pub open spec fn selected_interval(anchors: Seq<TimingAnchor>, s: u64) -> Option<int> {
    if s <= anchors[0].wav_sample_index {
        Some(0)
    } else if s >= anchors.last().wav_sample_index {
        Some(anchors.len() - 2)
    } else if exists|i: int| first_interval(anchors, s, i) {
        Some(choose|i: int| first_interval(anchors, s, i))
    } else {
        None
    }
}

/// The UTC instant (ns since the Unix epoch) that the anchors give to sample `s`.
pub open spec fn anchored_utc(anchors: Seq<TimingAnchor>, s: u64) -> Result<i64, TimingError> {
    match selected_interval(anchors, s) {
        Some(i) => interpolation(anchors[i], anchors[i + 1], s),
        None => Err(TimingError::NoAnchorInterval),
    }
}

proof fn lemma_first_interval_unique(anchors: Seq<TimingAnchor>, s: u64, i: int, k: int)
    requires
        first_interval(anchors, s, i),
        first_interval(anchors, s, k),
    ensures
        i == k,
{
    if i < k {
        assert(!in_interval(anchors, s, i));
    } else if k < i {
        assert(!in_interval(anchors, s, k));
    }
}

/// Finds the first pair of neighbouring anchors that encloses `s`.
fn find_interval(anchors: &Vec<TimingAnchor>, s: u64) -> (r: Option<usize>)
    requires
        anchors.len() >= 2,
    ensures
        match r {
            Some(i) => first_interval(anchors@, s, i as int),
            None => forall|j: int| !in_interval(anchors@, s, j),
        },
{
    let mut i: usize = 0;
    while i + 1 < anchors.len()
        invariant
            anchors.len() >= 2,
            i + 1 <= anchors.len(),
            forall|j: int| 0 <= j < i ==> !in_interval(anchors@, s, j),
        decreases anchors.len() - i,
    {
        if anchors[i].wav_sample_index <= s && s <= anchors[i + 1].wav_sample_index {
            return Some(i);
        }
        i = i + 1;
    }
    None
}


/// A calibration point between the performance counter and UTC.
#[derive(Debug, Clone)]
pub struct QpcUtcCalibration {
    pub phase: String,
    pub qpc_100ns: u64,
    pub utc_unix_ns: i64,
    pub span_qpc_100ns: u64,
}

/// A gap that the capture device reported in the recording.
#[derive(Debug, Clone)]
pub struct Discontinuity {
    pub wav_sample_index: u64,
    pub flags: u32,
    pub reason: String,
}

/// The report of the clock synchronisation made before recording.
/// Its offsets are kept as the IEEE-754 bit patterns of the `f64`
/// milliseconds that the sidecar states.
#[derive(Debug, Clone)]
pub struct TimeSyncMetadata {
    pub schema_version: u32,
    pub report_kind: String,
    pub server: String,
    pub checked_at_unix_ns: i64,
    pub status: String,
    pub max_abs_offset_ms_bits: u64,
    pub median_offset_ms_bits: Option<u64>,
    pub rtt_p50_ms_bits: Option<u64>,
}

/// The timing sidecar written beside a recording.
#[derive(Debug, Clone)]
pub struct TimingSidecar {
    pub schema_version: u32,
    pub clock_domain: String,
    pub source: String,
    pub wav_file: String,
    pub wav_sha256: String,
    pub sample_rate: u32,
    pub first_pcm_utc_unix_ns: i64,
    pub first_pcm_millis_of_day: u32,
    pub fsk_semantics: String,
    pub fsk_prefix_samples: usize,
    pub recording_started_unix_ns: i64,
    pub recording_ended_unix_ns: i64,
    pub qpc_utc_calibrations: Vec<QpcUtcCalibration>,
    pub clock_jump_detected: bool,
    pub anchors: Vec<TimingAnchor>,
    pub discontinuities: Vec<Discontinuity>,
    pub time_sync: Option<TimeSyncMetadata>,
}

/// A sidecar that passed validation, with the warnings found on the way.
#[derive(Debug, Clone)]
pub struct ValidatedTiming {
    pub sidecar: TimingSidecar,
    pub warnings: Vec<String>,
}

impl ValidatedTiming {
    /// The UTC instant (ns since the Unix epoch) of WAV sample `wav_sample`,
    /// interpolated between the anchors that enclose it.
    pub fn event_utc_ns(&self, wav_sample: u64) -> (r: Result<i64, TimingError>)
        requires
            self.sidecar.anchors@.len() >= 2,
        ensures
            r == anchored_utc(self.sidecar.anchors@, wav_sample),
    {
        let anchors = &self.sidecar.anchors;
        let last: usize = anchors.len() - 1;
        if wav_sample <= anchors[0].wav_sample_index {
            interpolate(&anchors[0], &anchors[1], wav_sample)
        } else if wav_sample >= anchors[last].wav_sample_index {
            interpolate(&anchors[last - 1], &anchors[last], wav_sample)
        } else {
            match find_interval(anchors, wav_sample) {
                Some(i) => {
                    proof {
                        let c = choose|k: int| first_interval(anchors@, wav_sample, k);
                        lemma_first_interval_unique(anchors@, wav_sample, i as int, c);
                    }
                    interpolate(&anchors[i], &anchors[i + 1], wav_sample)
                },
                None => Err(TimingError::NoAnchorInterval),
            }
        }
    }
}


/// Each anchor is later than the previous one in sample index and in UTC.
pub open spec fn rising_anchors(anchors: Seq<TimingAnchor>) -> bool {
    forall|i: int| 0 <= i < anchors.len() - 1 ==> #[trigger] rising_pair(anchors[i], anchors[i + 1])
}

proof fn lemma_rising_anchors_ordered(anchors: Seq<TimingAnchor>, i: int, j: int)
    requires
        rising_anchors(anchors),
        0 <= i < j < anchors.len(),
    ensures
        rising_pair(anchors[i], anchors[j]),
    decreases j - i,
{
    let k = j - 1;
    assert(rising_pair(anchors[k], anchors[k + 1]));
    if i < j - 1 {
        lemma_rising_anchors_ordered(anchors, i, j - 1);
    }
}

proof fn lemma_trunc_div_monotonic(x: int, y: int, b: int)
    requires
        x <= y,
        0 < b,
    ensures
        trunc_div(x, b) <= trunc_div(y, b),
{
    if x >= 0 {
        lemma_div_is_ordered(x, y, b);
    } else if y >= 0 {
        assert((-x) / b >= 0) by {
            lemma_div_is_ordered(0, -x, b);
        }
        assert(y / b >= 0) by {
            lemma_div_is_ordered(0, y, b);
        }
    } else {
        lemma_div_is_ordered(-y, -x, b);
    }
}

proof fn lemma_line_value(left: TimingAnchor, right: TimingAnchor, s: int, t: int)
    requires
        rising_pair(left, right),
        s <= t,
    ensures
        line_value(left, right, s) <= line_value(left, right, t),
        line_value(left, right, left.wav_sample_index as int) == left.utc_unix_ns,
        line_value(left, right, right.wav_sample_index as int) == right.utc_unix_ns,
{
    let sd = right.wav_sample_index - left.wav_sample_index;
    let ud = right.utc_unix_ns - left.utc_unix_ns;
    assert((s - left.wav_sample_index) * ud <= (t - left.wav_sample_index) * ud)
        by (nonlinear_arith)
        requires
            s <= t,
            ud > 0,
    ;
    lemma_trunc_div_monotonic(
        (s - left.wav_sample_index) * ud,
        (t - left.wav_sample_index) * ud,
        sd,
    );
    assert((left.wav_sample_index - left.wav_sample_index) * ud == 0) by (nonlinear_arith);
    assert(0int / sd == 0);
    assert((right.wav_sample_index - left.wav_sample_index) * ud == ud * sd) by (nonlinear_arith)
        requires
            sd == right.wav_sample_index - left.wav_sample_index,
    ;
    lemma_div_by_multiple(ud, sd);
}

/// Where the selected pair of anchors stands relative to the sample.
proof fn lemma_selected_interval(anchors: Seq<TimingAnchor>, s: u64)
    requires
        anchors.len() >= 2,
        rising_anchors(anchors),
        selected_interval(anchors, s) is Some,
    ensures
        ({
            let i = selected_interval(anchors, s)->0;
            &&& 0 <= i < anchors.len() - 1
            &&& (i == 0 && s <= anchors[0].wav_sample_index || anchors[i].wav_sample_index <= s)
            &&& (i == anchors.len() - 2 && anchors.last().wav_sample_index <= s || s
                <= anchors[i + 1].wav_sample_index)
        }),
{
    let n = anchors.len() - 2;
    let z: int = 0;
    assert(rising_pair(anchors[z], anchors[z + 1]));
    assert(rising_pair(anchors[n], anchors[n + 1]));
    if s > anchors[0].wav_sample_index && s < anchors.last().wav_sample_index {
        let i = choose|i: int| first_interval(anchors, s, i);
        assert(first_interval(anchors, s, i));
    }
}

/// Later samples never map to earlier instants: for anchors that rise in
/// sample index and UTC, the mapping from sample index to UTC is monotonic.
pub proof fn anchored_utc_is_monotonic(anchors: Seq<TimingAnchor>, s1: u64, s2: u64)
    requires
        anchors.len() >= 2,
        rising_anchors(anchors),
        s1 <= s2,
        anchored_utc(anchors, s1) is Ok,
        anchored_utc(anchors, s2) is Ok,
    ensures
        anchored_utc(anchors, s1)->Ok_0 <= anchored_utc(anchors, s2)->Ok_0,
{
    lemma_selected_interval(anchors, s1);
    lemma_selected_interval(anchors, s2);
    let i1 = selected_interval(anchors, s1)->0;
    let i2 = selected_interval(anchors, s2)->0;
    let v1 = line_value(anchors[i1], anchors[i1 + 1], s1 as int);
    let v2 = line_value(anchors[i2], anchors[i2 + 1], s2 as int);
    assert(rising_pair(anchors[i1], anchors[i1 + 1]));
    assert(rising_pair(anchors[i2], anchors[i2 + 1]));
    if i1 == i2 {
        lemma_line_value(anchors[i1], anchors[i1 + 1], s1 as int, s2 as int);
    } else if i1 < i2 {
        let r1 = anchors[i1 + 1].wav_sample_index as int;
        let l2 = anchors[i2].wav_sample_index as int;
        if i1 + 1 < anchors.len() - 1 {
            lemma_rising_anchors_ordered(anchors, i1 + 1, anchors.len() - 1);
        }
        lemma_line_value(anchors[i1], anchors[i1 + 1], s1 as int, r1);
        if i2 > 0 {
            lemma_rising_anchors_ordered(anchors, 0, i2);
        }
        lemma_line_value(anchors[i2], anchors[i2 + 1], l2, s2 as int);
        if i1 + 1 < i2 {
            lemma_rising_anchors_ordered(anchors, i1 + 1, i2);
        }
        assert(v1 <= v2);
    } else {
        if i2 + 1 < i1 {
            lemma_rising_anchors_ordered(anchors, i2 + 1, i1);
        }
        if i1 > 0 {
            lemma_rising_anchors_ordered(anchors, 0, i1);
        }
        if i2 + 1 < anchors.len() - 1 {
            lemma_rising_anchors_ordered(anchors, i2 + 1, anchors.len() - 1);
        }
        lemma_line_value(anchors[i1], anchors[i1 + 1], s1 as int, s1 as int);
        lemma_line_value(anchors[i2], anchors[i2 + 1], s2 as int, s2 as int);
        assert(i1 == i2 + 1);
        assert(v1 <= v2);
    }
}

/// At an anchor's own sample index the mapping gives exactly that anchor's UTC instant.
pub proof fn anchored_utc_at_anchor(anchors: Seq<TimingAnchor>, k: int)
    requires
        anchors.len() >= 2,
        rising_anchors(anchors),
        0 <= k < anchors.len(),
    ensures
        anchored_utc(anchors, anchors[k].wav_sample_index) == Ok::<i64, TimingError>(
            anchors[k].utc_unix_ns,
        ),
{
    let s = anchors[k].wav_sample_index;
    let n = anchors.len() - 2;
    let z: int = 0;
    assert(rising_pair(anchors[z], anchors[z + 1]));
    assert(rising_pair(anchors[n], anchors[n + 1]));
    if k == 0 {
        lemma_line_value(anchors[0], anchors[1], s as int, s as int);
    } else if k == anchors.len() - 1 {
        lemma_rising_anchors_ordered(anchors, 0, k);
        lemma_line_value(anchors[n], anchors[n + 1], s as int, s as int);
    } else {
        lemma_rising_anchors_ordered(anchors, 0, k);
        lemma_rising_anchors_ordered(anchors, k, anchors.len() - 1);
        let p = k - 1;
        assert(rising_pair(anchors[p], anchors[p + 1]));
        assert forall|j: int| 0 <= j < p implies !in_interval(anchors, s, j) by {
            lemma_rising_anchors_ordered(anchors, j + 1, k);
        }
        assert(first_interval(anchors, s, p));
        let c = choose|i: int| first_interval(anchors, s, i);
        lemma_first_interval_unique(anchors, s, p, c);
        lemma_line_value(anchors[p], anchors[p + 1], s as int, s as int);
    }
}

proof fn lemma_some_interval_from(anchors: Seq<TimingAnchor>, s: u64, k: int) -> (j: int)
    requires
        0 <= k < anchors.len() - 1,
        anchors[k].wav_sample_index <= s < anchors.last().wav_sample_index,
    ensures
        in_interval(anchors, s, j),
    decreases anchors.len() - k,
{
    if s <= anchors[k + 1].wav_sample_index {
        k
    } else {
        lemma_some_interval_from(anchors, s, k + 1)
    }
}

proof fn lemma_first_interval_below(anchors: Seq<TimingAnchor>, s: u64, j: int)
    requires
        in_interval(anchors, s, j),
    ensures
        exists|i: int| first_interval(anchors, s, i),
    decreases j,
{
    if forall|i: int| 0 <= i < j ==> !in_interval(anchors, s, i) {
        assert(first_interval(anchors, s, j));
    } else {
        let i = choose|i: int| 0 <= i < j && in_interval(anchors, s, i);
        lemma_first_interval_below(anchors, s, i);
    }
}

/// With at least two anchors, every sample index finds a pair of anchors
/// (whatever their order): the mapping never fails for want of an interval.
pub proof fn anchored_utc_always_finds_interval(anchors: Seq<TimingAnchor>, s: u64)
    requires
        anchors.len() >= 2,
    ensures
        selected_interval(anchors, s) is Some,
        anchored_utc(anchors, s) != Err::<i64, TimingError>(TimingError::NoAnchorInterval),
{
    if s > anchors[0].wav_sample_index && s < anchors.last().wav_sample_index {
        let j = lemma_some_interval_from(anchors, s, 0);
        lemma_first_interval_below(anchors, s, j);
    }
}


/// The schema version of the sidecar this library reads.
pub const SUPPORTED_SCHEMA_VERSION: u32 = 2;

/// The longest time, in seconds, between the clock synchronisation check and
/// the start of the recording.
pub const MAX_SYNC_AGE_SECS: u64 = 600;

/// Why a timing sidecar was refused; each variant is one check, in the order
/// in which they are made.
#[derive(Debug, Clone, Copy, PartialEq, Eq, Structural)]
pub enum SidecarFault {
    /// `schema_version` is not the supported one (the value it holds).
    SchemaVersion(u32),
    /// The FSK semantics, source or clock domain is not the supported protocol.
    UnsupportedProtocol,
    /// The recorder saw the wall clock jump.
    ClockJump,
    /// The capture device reported a discontinuity.
    Discontinuity,
    /// The sidecar's sample rate (the value it holds) differs from the WAV's.
    SampleRateMismatch(u32),
    /// The FSK prefix is empty or does not end inside the recording.
    PrefixRange,
    /// `wav_file` does not name the recording.
    WavNameMismatch,
    /// `wav_sha256` is not the SHA-256 of the recording.
    HashMismatch,
    /// Fewer than two anchors.
    TooFewAnchors,
    /// The first anchor is not at sample 0.
    FirstAnchorNotZero,
    /// An anchor lies beyond the recording.
    AnchorOutOfRange,
    /// An anchor counted from the end of the FSK prefix (the first sample of
    /// the real PCM) lies past the last sample of the recording.
    AnchorPastPcm,
    /// Neighbouring anchors do not rise in sample, device position, QPC and UTC.
    AnchorsNotMonotonic,
    /// The pair of anchors starting at this index implies a sample rate more
    /// than 1% away from the nominal one.
    AnchorRate(usize),
    /// No `start` or no `end` QPC/UTC calibration.
    MissingCalibration,
    /// No clock synchronisation report.
    MissingTimeSync,
    /// The synchronisation report's schema version is not 2.
    TimeSyncSchema,
    /// The synchronisation report is not a `pre_sync` report.
    ReportKind,
    /// The synchronisation check did not pass.
    SyncStatus,
    /// The synchronisation report names no server.
    MissingServer,
    /// The maximal offset of the synchronisation report is not finite.
    InvalidOffset,
    /// The synchronisation check is older than allowed (its age in seconds).
    SyncExpired(u64),
}

/// The two anchors rise in sample index, device position, QPC time and UTC.
pub open spec fn strictly_rising_pair(left: TimingAnchor, right: TimingAnchor) -> bool {
    &&& left.wav_sample_index < right.wav_sample_index
    &&& left.device_position < right.device_position
    &&& left.qpc_100ns < right.qpc_100ns
    &&& left.utc_unix_ns < right.utc_unix_ns
}

pub open spec fn strictly_rising_anchors(anchors: Seq<TimingAnchor>) -> bool {
    forall|i: int|
        0 <= i < anchors.len() - 1 ==> #[trigger] strictly_rising_pair(anchors[i], anchors[i + 1])
}

/// The sample rate implied by two anchors differs from `sample_rate` by more
/// than 1%: |ds / (dt / 1e9) / rate - 1| > 0.01, stated exactly in integers as
/// 100 * |ds * 1e9 - rate * dt| > rate * dt (ds samples, dt nanoseconds).
/// The exact test differs from one made in `f64` only where rounding decides:
/// anchors 16160 samples and exactly 1 s apart at a nominal 16000 Hz imply a
/// rate exactly 1% off, which this test accepts, while in `f64`
/// |16160 / 16000 - 1| rounds to 0.0100000000000000089 and would be refused.
pub open spec fn rate_deviates(left: TimingAnchor, right: TimingAnchor, sample_rate: u32) -> bool {
    let ds = right.wav_sample_index - left.wav_sample_index;
    let dt = right.utc_unix_ns - left.utc_unix_ns;
    let diff = ds * 1_000_000_000 - sample_rate * dt;
    100 * (if diff < 0 {
        -diff
    } else {
        diff
    }) > sample_rate * dt
}

pub open spec fn first_rate_fault(anchors: Seq<TimingAnchor>, sample_rate: u32, i: int) -> bool {
    &&& 0 <= i < anchors.len() - 1
    &&& rate_deviates(anchors[i], anchors[i + 1], sample_rate)
    &&& forall|j: int|
        0 <= j < i ==> !#[trigger] rate_deviates(anchors[j], anchors[j + 1], sample_rate)
}

pub open spec fn has_phase(calibrations: Seq<QpcUtcCalibration>, phase: Seq<char>) -> bool {
    exists|i: int| 0 <= i < calibrations.len() && #[trigger] calibrations[i].phase@ == phase
}

/// Whether the IEEE-754 double with these bits is finite (its exponent field
/// is not all ones).
pub open spec fn f64_bits_finite(bits: u64) -> bool {
    (bits >> 52u64) & 0x7ffu64 != 0x7ffu64
}

/// The verdict on the clock synchronisation report.
pub open spec fn time_sync_verdict(sidecar: TimingSidecar, sync: TimeSyncMetadata) -> Result<
    (),
    SidecarFault,
> {
    if sync.schema_version != 2 {
        Err(SidecarFault::TimeSyncSchema)
    } else if sync.report_kind@ != "pre_sync"@ {
        Err(SidecarFault::ReportKind)
    } else if !ascii_case_eq(sync.status@, "pass"@) {
        Err(SidecarFault::SyncStatus)
    } else if forall|i: int|
        0 <= i < sync.server@.len() ==> is_unicode_whitespace(#[trigger] sync.server@[i]) {
        Err(SidecarFault::MissingServer)
    } else if !f64_bits_finite(sync.max_abs_offset_ms_bits) {
        Err(SidecarFault::InvalidOffset)
    } else if sidecar.recording_started_unix_ns >= sync.checked_at_unix_ns && (
    sidecar.recording_started_unix_ns - sync.checked_at_unix_ns) / 1_000_000_000
        > MAX_SYNC_AGE_SECS {
        Err(
            SidecarFault::SyncExpired(
                ((sidecar.recording_started_unix_ns - sync.checked_at_unix_ns)
                    / 1_000_000_000) as u64,
            ),
        )
    } else {
        Ok(())
    }
}

/// The verdict on the anchors of a sidecar.
pub open spec fn anchors_verdict(
    anchors: Seq<TimingAnchor>,
    sample_rate: u32,
    sample_count: usize,
    fsk_prefix_samples: usize,
) -> Result<
    (),
    SidecarFault,
> {
    if anchors.len() < 2 {
        Err(SidecarFault::TooFewAnchors)
    } else if anchors[0].wav_sample_index != 0 {
        Err(SidecarFault::FirstAnchorNotZero)
    } else if exists|i: int|
        0 <= i < anchors.len() && #[trigger] anchors[i].wav_sample_index >= sample_count {
        Err(SidecarFault::AnchorOutOfRange)
    } else if exists|i: int|
        0 <= i < anchors.len() && fsk_prefix_samples + #[trigger] anchors[i].wav_sample_index
            > sample_count - 1 {
        Err(SidecarFault::AnchorPastPcm)
    } else if !strictly_rising_anchors(anchors) {
        Err(SidecarFault::AnchorsNotMonotonic)
    } else if exists|i: int| first_rate_fault(anchors, sample_rate, i) {
        Err(SidecarFault::AnchorRate((choose|i: int| first_rate_fault(anchors, sample_rate, i)) as usize))
    } else {
        Ok(())
    }
}

/// The verdict on a sidecar, given the file name it states for its recording
/// (`sidecar_name`), the file name of the recording (`wav_name`), the
/// recording's SHA-256 in hexadecimal, and the recording's sample rate and
/// sample count: the first check that fails, in the order the variants of
/// `SidecarFault` are listed.
pub open spec fn sidecar_verdict(
    sidecar: TimingSidecar,
    sidecar_name: Seq<char>,
    wav_name: Seq<char>,
    actual_hash: Seq<char>,
    sample_rate: u32,
    sample_count: usize,
) -> Result<(), SidecarFault> {
    if sidecar.schema_version != SUPPORTED_SCHEMA_VERSION {
        Err(SidecarFault::SchemaVersion(sidecar.schema_version))
    } else if sidecar.fsk_semantics@ != "first_pcm_sample"@ || sidecar.source@ != "wasapi-loopback"@
        || sidecar.clock_domain@ != "windows-utc-synchronized-by-ntp"@ {
        Err(SidecarFault::UnsupportedProtocol)
    } else if sidecar.clock_jump_detected {
        Err(SidecarFault::ClockJump)
    } else if sidecar.discontinuities@.len() != 0 {
        Err(SidecarFault::Discontinuity)
    } else if sidecar.sample_rate != sample_rate {
        Err(SidecarFault::SampleRateMismatch(sidecar.sample_rate))
    } else if sidecar.fsk_prefix_samples == 0 || sidecar.fsk_prefix_samples >= sample_count {
        Err(SidecarFault::PrefixRange)
    } else if sidecar_name != wav_name {
        Err(SidecarFault::WavNameMismatch)
    } else if !ascii_case_eq(sidecar.wav_sha256@, actual_hash) {
        Err(SidecarFault::HashMismatch)
    } else if anchors_verdict(
        sidecar.anchors@,
        sample_rate,
        sample_count,
        sidecar.fsk_prefix_samples,
    ) is Err {
        anchors_verdict(sidecar.anchors@, sample_rate, sample_count, sidecar.fsk_prefix_samples)
    } else if !has_phase(sidecar.qpc_utc_calibrations@, "start"@) || !has_phase(
        sidecar.qpc_utc_calibrations@,
        "end"@,
    ) {
        Err(SidecarFault::MissingCalibration)
    } else {
        match sidecar.time_sync {
            None => Err(SidecarFault::MissingTimeSync),
            Some(sync) => time_sync_verdict(sidecar, sync),
        }
    }
}

fn check_rate(left: &TimingAnchor, right: &TimingAnchor, sample_rate: u32) -> (deviates: bool)
    requires
        strictly_rising_pair(*left, *right),
    ensures
        deviates == rate_deviates(*left, *right, sample_rate),
{
    let ds: u64 = right.wav_sample_index - left.wav_sample_index;
    let dt: i128 = right.utc_unix_ns as i128 - left.utc_unix_ns as i128;
    assert(ds as int * 1_000_000_000 <= u64::MAX as int * 1_000_000_000) by (nonlinear_arith)
        requires ds <= u64::MAX;
    assert(sample_rate as int * dt <= u32::MAX as int * 0x1_0000_0000_0000_0000) by (nonlinear_arith)
        requires sample_rate <= u32::MAX, 0 < dt <= 0x1_0000_0000_0000_0000;
    assert(0 <= sample_rate as int * dt) by (nonlinear_arith)
        requires 0 < dt;
    let scaled: i128 = ds as i128 * 1_000_000_000i128;
    let nominal: i128 = sample_rate as i128 * dt;
    let diff: i128 = scaled - nominal;
    let magnitude: i128 = if diff < 0 {
        -diff
    } else {
        diff
    };
    100 * magnitude > nominal
}

fn has_phase_exec(calibrations: &Vec<QpcUtcCalibration>, phase: &str) -> (r: bool)
    ensures
        r == has_phase(calibrations@, phase@),
{
    let mut i: usize = 0;
    while i < calibrations.len()
        invariant
            i <= calibrations@.len(),
            forall|j: int| 0 <= j < i ==> calibrations@[j].phase@ != phase@,
        decreases calibrations.len() - i,
    {
        if same_text(calibrations[i].phase.as_str(), phase) {
            return true;
        }
        i = i + 1;
    }
    false
}

fn check_anchors(
    anchors: &Vec<TimingAnchor>,
    sample_rate: u32,
    sample_count: usize,
    fsk_prefix_samples: usize,
) -> (r: Result<(), SidecarFault>)
    requires
        fsk_prefix_samples < sample_count,
    ensures
        r == anchors_verdict(anchors@, sample_rate, sample_count, fsk_prefix_samples),
{
    let n = anchors.len();
    if n < 2 {
        return Err(SidecarFault::TooFewAnchors);
    }
    if anchors[0].wav_sample_index != 0 {
        return Err(SidecarFault::FirstAnchorNotZero);
    }
    let mut i: usize = 0;
    while i < n
        invariant
            n == anchors@.len(),
            n >= 2,
            anchors@[0].wav_sample_index == 0,
            i <= n,
            forall|j: int| 0 <= j < i ==> #[trigger] anchors@[j].wav_sample_index < sample_count,
        decreases n - i,
    {
        if anchors[i].wav_sample_index >= sample_count as u64 {
            assert(anchors@[i as int].wav_sample_index >= sample_count);
            return Err(SidecarFault::AnchorOutOfRange);
        }
        i = i + 1;
    }
    let last_offset: u64 = (sample_count - 1 - fsk_prefix_samples) as u64;
    let mut i: usize = 0;
    while i < n
        invariant
            n == anchors@.len(),
            n >= 2,
            anchors@[0].wav_sample_index == 0,
            fsk_prefix_samples < sample_count,
            last_offset == sample_count - 1 - fsk_prefix_samples,
            i <= n,
            forall|j: int| 0 <= j < n ==> #[trigger] anchors@[j].wav_sample_index < sample_count,
            forall|j: int|
                0 <= j < i ==> fsk_prefix_samples + #[trigger] anchors@[j].wav_sample_index
                    <= sample_count - 1,
        decreases n - i,
    {
        if anchors[i].wav_sample_index > last_offset {
            assert(fsk_prefix_samples + anchors@[i as int].wav_sample_index > sample_count - 1);
            return Err(SidecarFault::AnchorPastPcm);
        }
        i = i + 1;
    }
    let mut i: usize = 0;
    while i + 1 < n
        invariant
            n == anchors@.len(),
            n >= 2,
            i + 1 <= n,
            anchors@[0].wav_sample_index == 0,
            forall|j: int| 0 <= j < n ==> #[trigger] anchors@[j].wav_sample_index < sample_count,
            forall|j: int|
                0 <= j < n ==> fsk_prefix_samples + #[trigger] anchors@[j].wav_sample_index
                    <= sample_count - 1,
            forall|j: int| 0 <= j < i ==> #[trigger] strictly_rising_pair(anchors@[j], anchors@[j + 1]),
        decreases n - i,
    {
        let left = &anchors[i];
        let right = &anchors[i + 1];
        if !(right.wav_sample_index > left.wav_sample_index && right.device_position
            > left.device_position && right.qpc_100ns > left.qpc_100ns && right.utc_unix_ns
            > left.utc_unix_ns) {
            assert(!strictly_rising_pair(anchors@[i as int], anchors@[i + 1]));
            return Err(SidecarFault::AnchorsNotMonotonic);
        }
        i = i + 1;
    }
    assert(strictly_rising_anchors(anchors@));
    let mut i: usize = 0;
    while i + 1 < n
        invariant
            n == anchors@.len(),
            n >= 2,
            i + 1 <= n,
            anchors@[0].wav_sample_index == 0,
            forall|j: int| 0 <= j < n ==> #[trigger] anchors@[j].wav_sample_index < sample_count,
            forall|j: int|
                0 <= j < n ==> fsk_prefix_samples + #[trigger] anchors@[j].wav_sample_index
                    <= sample_count - 1,
            strictly_rising_anchors(anchors@),
            forall|j: int|
                0 <= j < i ==> !#[trigger] rate_deviates(anchors@[j], anchors@[j + 1], sample_rate),
        decreases n - i,
    {
        assert(strictly_rising_pair(anchors@[i as int], anchors@[i + 1]));
        if check_rate(&anchors[i], &anchors[i + 1], sample_rate) {
            proof {
                assert(first_rate_fault(anchors@, sample_rate, i as int));
                let c = choose|k: int| first_rate_fault(anchors@, sample_rate, k);
                if c < i {
                } else if c > i {
                    assert(!rate_deviates(anchors@[i as int], anchors@[i + 1], sample_rate));
                }
            }
            return Err(SidecarFault::AnchorRate(i));
        }
        i = i + 1;
    }
    Ok(())
}

fn check_time_sync(sidecar: &TimingSidecar, sync: &TimeSyncMetadata) -> (r: Result<(), SidecarFault>)
    ensures
        r == time_sync_verdict(*sidecar, *sync),
{
    if sync.schema_version != 2 {
        return Err(SidecarFault::TimeSyncSchema);
    }
    if !same_text(sync.report_kind.as_str(), "pre_sync") {
        return Err(SidecarFault::ReportKind);
    }
    if !eq_ignore_ascii_case(sync.status.as_str(), "pass") {
        return Err(SidecarFault::SyncStatus);
    }
    if is_blank(sync.server.as_str()) {
        return Err(SidecarFault::MissingServer);
    }
    if (sync.max_abs_offset_ms_bits >> 52u64) & 0x7ffu64 == 0x7ffu64 {
        return Err(SidecarFault::InvalidOffset);
    }
    if sidecar.recording_started_unix_ns >= sync.checked_at_unix_ns {
        let elapsed: i128 = sidecar.recording_started_unix_ns as i128 - sync.checked_at_unix_ns as i128;
        let age: i128 = elapsed / 1_000_000_000i128;
        if age > MAX_SYNC_AGE_SECS as i128 {
            return Err(SidecarFault::SyncExpired(age as u64));
        }
    }
    Ok(())
}

/// Checks a parsed sidecar against its recording, given the two file names,
/// the recording's SHA-256 in hexadecimal, its sample rate and sample count.
pub fn check_sidecar(
    sidecar: &TimingSidecar,
    sidecar_name: &str,
    wav_name: &str,
    actual_hash: &str,
    sample_rate: u32,
    sample_count: usize,
) -> (r: Result<(), SidecarFault>)
    ensures
        r == sidecar_verdict(*sidecar, sidecar_name@, wav_name@, actual_hash@, sample_rate, sample_count),
{
    if sidecar.schema_version != SUPPORTED_SCHEMA_VERSION {
        return Err(SidecarFault::SchemaVersion(sidecar.schema_version));
    }
    if !same_text(sidecar.fsk_semantics.as_str(), "first_pcm_sample") || !same_text(
        sidecar.source.as_str(),
        "wasapi-loopback",
    ) || !same_text(sidecar.clock_domain.as_str(), "windows-utc-synchronized-by-ntp") {
        return Err(SidecarFault::UnsupportedProtocol);
    }
    if sidecar.clock_jump_detected {
        return Err(SidecarFault::ClockJump);
    }
    if sidecar.discontinuities.len() != 0 {
        return Err(SidecarFault::Discontinuity);
    }
    if sidecar.sample_rate != sample_rate {
        return Err(SidecarFault::SampleRateMismatch(sidecar.sample_rate));
    }
    if sidecar.fsk_prefix_samples == 0 || sidecar.fsk_prefix_samples >= sample_count {
        return Err(SidecarFault::PrefixRange);
    }
    if !same_text(sidecar_name, wav_name) {
        return Err(SidecarFault::WavNameMismatch);
    }
    if !eq_ignore_ascii_case(sidecar.wav_sha256.as_str(), actual_hash) {
        return Err(SidecarFault::HashMismatch);
    }
    check_anchors(&sidecar.anchors, sample_rate, sample_count, sidecar.fsk_prefix_samples)?;
    if !has_phase_exec(&sidecar.qpc_utc_calibrations, "start") || !has_phase_exec(
        &sidecar.qpc_utc_calibrations,
        "end",
    ) {
        return Err(SidecarFault::MissingCalibration);
    }
    match &sidecar.time_sync {
        None => Err(SidecarFault::MissingTimeSync),
        Some(sync) => check_time_sync(sidecar, sync),
    }
}

/// Calls std's `Path::new(path).file_name()` and keeps the name when it is
/// valid UTF-8. Trusted: a bare file name (`is_bare_name`) is its own only
/// component, so it is its own file name; a bare name `b` in a plain
/// directory (see `in_plain_dir`) has `b` as its last component on every
/// platform. Which part of any other text is the file
/// name depends on the platform's path separators and is not stated.
#[verifier::external_body]
fn file_name_of(path: &str) -> (name: Option<String>)
    ensures
        is_bare_name(path@) ==> name is Some && name->0@ == path@,
        in_plain_dir(path@) ==> name is Some && name->0@ == name_part(path@),
{
    match std::path::Path::new(path).file_name() {
        Some(name) => match name.to_str() {
            Some(text) => Some(text.to_string()),
            None => None,
        },
        None => None,
    }
}

/// Validates a parsed sidecar against the recording at `wav_path`, whose
/// bytes, sample rate and sample count are given. The file names compared
/// are those that the platform's `Path::file_name` gives for `wav_path` (or
/// nothing) and for the sidecar's `wav_file` (or `wav_file` itself); the hash
/// compared is the SHA-256 of `wav_bytes`. Whatever the names, the result is
/// the verdict of `sidecar_verdict` on them; where both texts have a file name
/// that does not depend on the platform (`known_file_name`), those are the
/// names compared.
pub fn load_and_validate(
    sidecar: TimingSidecar,
    wav_path: &str,
    wav_bytes: &[u8],
    sample_rate: u32,
    sample_count: usize,
) -> (r: Result<ValidatedTiming, SidecarFault>)
    ensures
        lower_hex(sha256_digest(wav_bytes@)).len() == 64,
        exists|sidecar_name: Seq<char>, wav_name: Seq<char>|
            {
                let verdict = #[trigger] sidecar_verdict(
                    sidecar,
                    sidecar_name,
                    wav_name,
                    lower_hex(sha256_digest(wav_bytes@)),
                    sample_rate,
                    sample_count,
                );
                match r {
                    Ok(timing) => verdict is Ok && timing.sidecar == sidecar
                        && timing.warnings@.len() == 0,
                    Err(fault) => verdict == Err::<(), SidecarFault>(fault),
                }
            },
        known_file_name(wav_path@) is Some && known_file_name(sidecar.wav_file@) is Some ==> {
            let verdict = sidecar_verdict(
                sidecar,
                known_file_name(sidecar.wav_file@)->0,
                known_file_name(wav_path@)->0,
                lower_hex(sha256_digest(wav_bytes@)),
                sample_rate,
                sample_count,
            );
            match r {
                Ok(timing) => verdict is Ok && timing.sidecar == sidecar && timing.warnings@.len()
                    == 0,
                Err(fault) => verdict == Err::<(), SidecarFault>(fault),
            }
        },
{
    let wav_name = match file_name_of(wav_path) {
        Some(name) => name,
        None => String::new(),
    };
    let sidecar_name = match file_name_of(sidecar.wav_file.as_str()) {
        Some(name) => name,
        None => sidecar.wav_file.clone(),
    };
    let actual_hash = sha256_hex(wav_bytes);
    let verdict = check_sidecar(
        &sidecar,
        sidecar_name.as_str(),
        wav_name.as_str(),
        actual_hash.as_str(),
        sample_rate,
        sample_count,
    );
    let ghost names = (sidecar_name@, wav_name@);
    match verdict {
        Ok(()) => Ok(ValidatedTiming { sidecar, warnings: Vec::new() }),
        Err(fault) => Err(fault),
    }
}

/// What a sidecar that passed validation guarantees: at least two anchors,
/// the first at sample 0, all inside the recording (counted from the end of
/// the FSK prefix, each at most at the last sample), rising in sample index
/// and UTC; an FSK prefix inside the recording; the WAV's sample rate; and a
/// clock synchronisation report.
pub proof fn accepted_sidecar_facts(
    sidecar: TimingSidecar,
    sidecar_name: Seq<char>,
    wav_name: Seq<char>,
    actual_hash: Seq<char>,
    sample_rate: u32,
    sample_count: usize,
)
    requires
        sidecar_verdict(sidecar, sidecar_name, wav_name, actual_hash, sample_rate, sample_count) is Ok,
    ensures
        sidecar.anchors@.len() >= 2,
        sidecar.anchors@[0].wav_sample_index == 0,
        forall|i: int|
            0 <= i < sidecar.anchors@.len() ==> #[trigger] sidecar.anchors@[i].wav_sample_index
                < sample_count,
        rising_anchors(sidecar.anchors@),
        forall|i: int|
            0 <= i < sidecar.anchors@.len() ==> sidecar.fsk_prefix_samples
                + #[trigger] sidecar.anchors@[i].wav_sample_index <= sample_count - 1,
        0 < sidecar.fsk_prefix_samples < sample_count,
        sidecar.sample_rate == sample_rate,
        sidecar.time_sync is Some,
        ascii_case_eq(sidecar.wav_sha256@, actual_hash),
        sidecar_name == wav_name,
{
    let a = sidecar.anchors@;
    assert forall|i: int| 0 <= i < a.len() - 1 implies #[trigger] rising_pair(a[i], a[i + 1]) by {
        assert(strictly_rising_pair(a[i], a[i + 1]));
    }
}

/// The sidecar path used when none is given: the WAV path followed by
/// `.timing.json`.
pub fn default_path(wav: &str) -> (path: String)
    ensures
        path@ == wav@ + ".timing.json"@,
{
    let mut path = String::from_str(wav);
    path.append(".timing.json");
    path
}

/// A UTC instant as text: the signed nanosecond count, then
/// ` ns since Unix epoch`.
pub fn utc_string(unix_ns: i64) -> (text: String)
    ensures
        text@ == signed_decimal(unix_ns as int) + " ns since Unix epoch"@,
{
    let mut text = String::new();
    push_signed_decimal(&mut text, unix_ns);
    text.append(" ns since Unix epoch");
    text
}

/// Nanoseconds in one day.
pub const NANOS_PER_DAY: i64 = 86_400_000_000_000;

/// The UTC day of an instant: the number of whole days since the Unix epoch,
/// rounded toward negative infinity.
pub fn utc_day(unix_ns: i64) -> (day: i64)
    ensures
        day == unix_ns as int / NANOS_PER_DAY as int,
        day * NANOS_PER_DAY <= unix_ns < (day + 1) * NANOS_PER_DAY,
{
    match unix_ns.checked_div_euclid(NANOS_PER_DAY) {
        Some(day) => day,
        None => {
            assert(false);
            0
        },
    }
}

/// How far the rate implied by two anchors is from `sample_rate`, scaled so
/// that 1% of the nominal rate is `sample_rate * dt`: 100 * |ds * 1e9 - rate * dt|
/// for `ds` samples over `dt` nanoseconds.
pub open spec fn scaled_rate_error(left: TimingAnchor, right: TimingAnchor, sample_rate: u32) -> int {
    let diff = (right.wav_sample_index - left.wav_sample_index) * 1_000_000_000 - sample_rate * (
    right.utc_unix_ns - left.utc_unix_ns);
    100 * if diff < 0 {
        -diff
    } else {
        diff
    }
}

proof fn lemma_first_rate_fault_exists(anchors: Seq<TimingAnchor>, sample_rate: u32, j: int)
    requires
        0 <= j < anchors.len() - 1,
        rate_deviates(anchors[j], anchors[j + 1], sample_rate),
    ensures
        exists|i: int| first_rate_fault(anchors, sample_rate, i),
    decreases j,
{
    if forall|k: int|
        0 <= k < j ==> !#[trigger] rate_deviates(anchors[k], anchors[k + 1], sample_rate) {
        assert(first_rate_fault(anchors, sample_rate, j));
    } else {
        let k = choose|k: int|
            0 <= k < j && #[trigger] rate_deviates(anchors[k], anchors[k + 1], sample_rate);
        lemma_first_rate_fault_exists(anchors, sample_rate, k);
    }
}

/// Law: an accepted sidecar has every pair of neighbouring anchors within 1%
/// of the nominal sample rate: for each pair, 100 * |ds * 1e9 - rate * dt| is
/// at most rate * dt (ds samples over dt nanoseconds).
pub proof fn accepted_anchors_keep_the_rate(
    sidecar: TimingSidecar,
    sidecar_name: Seq<char>,
    wav_name: Seq<char>,
    actual_hash: Seq<char>,
    sample_rate: u32,
    sample_count: usize,
)
    requires
        sidecar_verdict(sidecar, sidecar_name, wav_name, actual_hash, sample_rate, sample_count) is Ok,
    ensures
        forall|i: int|
            0 <= i < sidecar.anchors@.len() - 1 ==> #[trigger] scaled_rate_error(
                sidecar.anchors@[i],
                sidecar.anchors@[i + 1],
                sample_rate,
            ) <= sample_rate * (sidecar.anchors@[i + 1].utc_unix_ns
                - sidecar.anchors@[i].utc_unix_ns),
{
    let a = sidecar.anchors@;
    assert forall|i: int| 0 <= i < a.len() - 1 implies #[trigger] scaled_rate_error(
        a[i],
        a[i + 1],
        sample_rate,
    ) <= sample_rate * (a[i + 1].utc_unix_ns - a[i].utc_unix_ns) by {
        if rate_deviates(a[i], a[i + 1], sample_rate) {
            lemma_first_rate_fault_exists(a, sample_rate, i);
        }
    }
}

/// Law: a refusal for the implied sample rate names the first pair of
/// neighbouring anchors whose rate is more than 1% off: that pair is off,
/// and every earlier pair is within 1%.
pub proof fn rate_fault_names_first_bad_pair(
    sidecar: TimingSidecar,
    sidecar_name: Seq<char>,
    wav_name: Seq<char>,
    actual_hash: Seq<char>,
    sample_rate: u32,
    sample_count: usize,
    index: usize,
)
    requires
        sidecar_verdict(sidecar, sidecar_name, wav_name, actual_hash, sample_rate, sample_count)
            == Err::<(), SidecarFault>(SidecarFault::AnchorRate(index)),
    ensures
        index + 1 < sidecar.anchors@.len(),
        scaled_rate_error(sidecar.anchors@[index as int], sidecar.anchors@[index + 1], sample_rate)
            > sample_rate * (sidecar.anchors@[index + 1].utc_unix_ns
            - sidecar.anchors@[index as int].utc_unix_ns),
        forall|j: int|
            0 <= j < index ==> #[trigger] scaled_rate_error(
                sidecar.anchors@[j],
                sidecar.anchors@[j + 1],
                sample_rate,
            ) <= sample_rate * (sidecar.anchors@[j + 1].utc_unix_ns
                - sidecar.anchors@[j].utc_unix_ns),
{
    let a = sidecar.anchors@;
    assert(a.len() == sidecar.anchors.len());
    if let Some(sync) = sidecar.time_sync {
        assert(time_sync_verdict(sidecar, sync) != Err::<(), SidecarFault>(
            SidecarFault::AnchorRate(index),
        ));
    }
    assert(anchors_verdict(a, sample_rate, sample_count, sidecar.fsk_prefix_samples)
        == Err::<(), SidecarFault>(SidecarFault::AnchorRate(index)));
    let c = choose|i: int| first_rate_fault(a, sample_rate, i);
    assert(first_rate_fault(a, sample_rate, c));
    assert(c == index as int);
    assert forall|j: int| 0 <= j < index implies #[trigger] scaled_rate_error(
        a[j],
        a[j + 1],
        sample_rate,
    ) <= sample_rate * (a[j + 1].utc_unix_ns - a[j].utc_unix_ns) by {
        assert(!rate_deviates(a[j], a[j + 1], sample_rate));
    }
}

} // verus!
