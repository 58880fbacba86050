use audio_checker::hash::sha256_hex;
use audio_checker::timing::{
    check_sidecar, default_path, interpolate, load_and_validate, utc_day, utc_string,
    QpcUtcCalibration, SidecarFault, TimeSyncMetadata, TimingAnchor, TimingError, TimingSidecar,
    ValidatedTiming,
};

const START: i64 = 1_700_000_000_000_000_000;

fn anchor(index: u64, utc: i64) -> TimingAnchor {
    TimingAnchor {
        wav_sample_index: index,
        device_position: 1000 + index,
        qpc_100ns: 2000 + index * 100,
        utc_unix_ns: utc,
    }
}

fn sidecar(hash: &str) -> TimingSidecar {
    let samples: u64 = 16_000 * 9;
    TimingSidecar {
        schema_version: 2,
        clock_domain: "windows-utc-synchronized-by-ntp".to_string(),
        source: "wasapi-loopback".to_string(),
        wav_file: "sender.wav".to_string(),
        wav_sha256: hash.to_string(),
        sample_rate: 16_000,
        first_pcm_utc_unix_ns: START,
        first_pcm_millis_of_day: 36_000_000,
        fsk_semantics: "first_pcm_sample".to_string(),
        fsk_prefix_samples: 14_400,
        recording_started_unix_ns: START - 500_000_000,
        recording_ended_unix_ns: START + 9_000_000_000,
        qpc_utc_calibrations: vec![
            QpcUtcCalibration { phase: "start".to_string(), qpc_100ns: 1000, utc_unix_ns: START - 1_000_000, span_qpc_100ns: 1 },
            QpcUtcCalibration { phase: "end".to_string(), qpc_100ns: 1000 + samples * 100, utc_unix_ns: START + samples as i64 * 62_500, span_qpc_100ns: 1 },
        ],
        clock_jump_detected: false,
        anchors: vec![anchor(0, START), anchor(samples - 1, START + (samples as i64 - 1) * 62_500)],
        discontinuities: Vec::new(),
        time_sync: Some(TimeSyncMetadata {
            schema_version: 2,
            report_kind: "pre_sync".to_string(),
            server: "offline-host".to_string(),
            checked_at_unix_ns: START - 1_000_000_000,
            status: "pass".to_string(),
            max_abs_offset_ms_bits: 1.0f64.to_bits(),
            median_offset_ms_bits: None,
            rtt_p50_ms_bits: None,
        }),
    }
}

const COUNT: usize = 16_000 * 9 + 14_400;

fn verdict(s: &TimingSidecar) -> Result<(), SidecarFault> {
    check_sidecar(s, "sender.wav", "sender.wav", "ABCDEF", 16_000, COUNT)
}

#[test]
fn valid_sidecar_is_accepted() {
    assert_eq!(verdict(&sidecar("abcdef")), Ok(()));
}

#[test]
fn hash_compared_without_ascii_case() {
    assert_eq!(verdict(&sidecar("AbCdEf")), Ok(()));
    assert_eq!(verdict(&sidecar("deadbeef")), Err(SidecarFault::HashMismatch));
}

#[test]
fn each_check_refuses() {
    let mut s = sidecar("abcdef");
    s.schema_version = 1;
    assert_eq!(verdict(&s), Err(SidecarFault::SchemaVersion(1)));

    let mut s = sidecar("abcdef");
    s.source = "mic".to_string();
    assert_eq!(verdict(&s), Err(SidecarFault::UnsupportedProtocol));

    let mut s = sidecar("abcdef");
    s.clock_jump_detected = true;
    assert_eq!(verdict(&s), Err(SidecarFault::ClockJump));

    let mut s = sidecar("abcdef");
    s.discontinuities.push(audio_checker::timing::Discontinuity { wav_sample_index: 5, flags: 1, reason: String::new() });
    assert_eq!(verdict(&s), Err(SidecarFault::Discontinuity));

    let mut s = sidecar("abcdef");
    s.sample_rate = 48_000;
    assert_eq!(verdict(&s), Err(SidecarFault::SampleRateMismatch(48_000)));

    let mut s = sidecar("abcdef");
    s.fsk_prefix_samples = 0;
    assert_eq!(verdict(&s), Err(SidecarFault::PrefixRange));
    s.fsk_prefix_samples = COUNT;
    assert_eq!(verdict(&s), Err(SidecarFault::PrefixRange));

    let s = sidecar("abcdef");
    assert_eq!(
        check_sidecar(&s, "other.wav", "sender.wav", "abcdef", 16_000, COUNT),
        Err(SidecarFault::WavNameMismatch)
    );

    let mut s = sidecar("abcdef");
    s.anchors.truncate(1);
    assert_eq!(verdict(&s), Err(SidecarFault::TooFewAnchors));

    let mut s = sidecar("abcdef");
    s.anchors[0].wav_sample_index = 3;
    assert_eq!(verdict(&s), Err(SidecarFault::FirstAnchorNotZero));

    let mut s = sidecar("abcdef");
    s.anchors[1].wav_sample_index = COUNT as u64;
    assert_eq!(verdict(&s), Err(SidecarFault::AnchorOutOfRange));

    let mut s = sidecar("abcdef");
    s.anchors[1].qpc_100ns = 0;
    assert_eq!(verdict(&s), Err(SidecarFault::AnchorsNotMonotonic));

    let mut s = sidecar("abcdef");
    s.anchors[1].wav_sample_index = 144_000;
    assert_eq!(verdict(&s), Err(SidecarFault::AnchorPastPcm));

    let mut s = sidecar("abcdef");
    let last = s.anchors[1];
    s.anchors = vec![anchor(0, START), anchor(100_000, START + 100_000 * 62_500), last];
    s.anchors[2].utc_unix_ns = s.anchors[1].utc_unix_ns + 1_000_000_000;
    assert_eq!(verdict(&s), Err(SidecarFault::AnchorRate(1)));

    let mut s = sidecar("abcdef");
    s.qpc_utc_calibrations.remove(1);
    assert_eq!(verdict(&s), Err(SidecarFault::MissingCalibration));

    let mut s = sidecar("abcdef");
    s.time_sync = None;
    assert_eq!(verdict(&s), Err(SidecarFault::MissingTimeSync));
}

#[test]
fn anchors_counted_after_the_fsk_prefix() {
    // The recording holds the prefix (14400 samples) and 144000 PCM samples:
    // the last anchor may sit on the last sample but not past it.
    let s = sidecar("abcdef");
    assert_eq!(s.anchors[1].wav_sample_index + s.fsk_prefix_samples as u64, COUNT as u64 - 1);
    assert_eq!(verdict(&s), Ok(()));
    let mut s = sidecar("abcdef");
    s.fsk_prefix_samples = 14_401;
    assert_eq!(verdict(&s), Err(SidecarFault::AnchorPastPcm));
    let mut s = sidecar("abcdef");
    s.fsk_prefix_samples = 14_399;
    assert_eq!(verdict(&s), Ok(()));
}

#[test]
fn rate_exactly_one_percent_off_is_accepted() {
    let mut s = sidecar("abcdef");
    s.anchors = vec![anchor(0, START), anchor(16_160, START + 1_000_000_000)];
    assert_eq!(verdict(&s), Ok(()));
    s.anchors = vec![anchor(0, START), anchor(16_161, START + 1_000_000_000)];
    assert_eq!(verdict(&s), Err(SidecarFault::AnchorRate(0)));
    s.anchors = vec![anchor(0, START), anchor(15_840, START + 1_000_000_000)];
    assert_eq!(verdict(&s), Ok(()));
    s.anchors = vec![anchor(0, START), anchor(15_839, START + 1_000_000_000)];
    assert_eq!(verdict(&s), Err(SidecarFault::AnchorRate(0)));
}

#[test]
fn load_and_validate_names_in_a_directory() {
    let bytes = b"recording".to_vec();
    let hash = sha256_hex(&bytes);
    let mut s = sidecar(&hash);
    s.wav_file = "records/sender.wav".to_string();
    assert!(load_and_validate(s.clone(), "/data/sender.wav", &bytes, 16_000, COUNT).is_ok());
    s.wav_file = "/home/u/rec/sender.wav".to_string();
    assert!(load_and_validate(s.clone(), "takes/2024/sender.wav", &bytes, 16_000, COUNT).is_ok());
    s.wav_file = "records/receiver.wav".to_string();
    assert_eq!(
        load_and_validate(s, "sender.wav", &bytes, 16_000, COUNT).unwrap_err(),
        SidecarFault::WavNameMismatch
    );
}

#[test]
fn time_sync_checks_refuse() {
    let with = |change: &dyn Fn(&mut TimeSyncMetadata)| {
        let mut s = sidecar("abcdef");
        change(s.time_sync.as_mut().unwrap());
        verdict(&s)
    };
    assert_eq!(with(&|t| t.schema_version = 1), Err(SidecarFault::TimeSyncSchema));
    assert_eq!(with(&|t| t.report_kind = "post_sync".to_string()), Err(SidecarFault::ReportKind));
    assert_eq!(with(&|t| t.status = "fail".to_string()), Err(SidecarFault::SyncStatus));
    assert_eq!(with(&|t| t.status = "PASS".to_string()), Ok(()));
    assert_eq!(with(&|t| t.server = " \t".to_string()), Err(SidecarFault::MissingServer));
    assert_eq!(with(&|t| t.max_abs_offset_ms_bits = f64::NAN.to_bits()), Err(SidecarFault::InvalidOffset));
    assert_eq!(with(&|t| t.max_abs_offset_ms_bits = f64::INFINITY.to_bits()), Err(SidecarFault::InvalidOffset));
    assert_eq!(with(&|t| t.max_abs_offset_ms_bits = (-3.5f64).to_bits()), Ok(()));
}

#[test]
fn expired_sync_report_is_refused() {
    let mut s = sidecar("abcdef");
    s.time_sync.as_mut().unwrap().checked_at_unix_ns = START - 700 * 1_000_000_000;
    assert_eq!(verdict(&s), Err(SidecarFault::SyncExpired(699)));
    // The age counts whole seconds: 600.9 s is not above 600 s.
    s.time_sync.as_mut().unwrap().checked_at_unix_ns = s.recording_started_unix_ns - 600_900_000_000;
    assert_eq!(verdict(&s), Ok(()));
    // A check after the start of the recording is never too old.
    s.time_sync.as_mut().unwrap().checked_at_unix_ns = START + 5_000_000_000_000;
    assert_eq!(verdict(&s), Ok(()));
}

#[test]
fn load_and_validate_hashes_the_recording() {
    let bytes = b"RIFF fake recording bytes".to_vec();
    let hash = sha256_hex(&bytes);
    let accepted = load_and_validate(sidecar(&hash.to_uppercase()), "/tmp/records/sender.wav", &bytes, 16_000, COUNT);
    let timing = accepted.unwrap();
    assert!(timing.warnings.is_empty());
    assert_eq!(timing.sidecar.wav_sha256, hash.to_uppercase());

    let refused = load_and_validate(sidecar("deadbeef"), "/tmp/records/sender.wav", &bytes, 16_000, COUNT);
    assert_eq!(refused.unwrap_err(), SidecarFault::HashMismatch);

    let renamed = load_and_validate(sidecar(&hash), "/tmp/records/receiver.wav", &bytes, 16_000, COUNT);
    assert_eq!(renamed.unwrap_err(), SidecarFault::WavNameMismatch);
}

#[test]
fn interpolation_rounds_toward_zero() {
    let left = anchor(10, 1_000);
    let right = anchor(13, 1_010);
    assert_eq!(interpolate(&left, &right, 10), Ok(1_000));
    assert_eq!(interpolate(&left, &right, 11), Ok(1_003));
    assert_eq!(interpolate(&left, &right, 13), Ok(1_010));
    assert_eq!(interpolate(&left, &right, 16), Ok(1_020));
    // Before the left anchor: -1 * 10 / 3 = -3.33 rounds to -3.
    assert_eq!(interpolate(&left, &right, 9), Ok(997));
    assert_eq!(interpolate(&right, &left, 11), Err(TimingError::AnchorsNotMonotonic));
    let flat = anchor(13, 1_000);
    assert_eq!(interpolate(&left, &flat, 11), Err(TimingError::AnchorsNotMonotonic));
}

#[test]
fn interpolation_out_of_range() {
    let left = anchor(0, i64::MAX - 10);
    let right = anchor(1, i64::MAX - 5);
    assert_eq!(interpolate(&left, &right, 2), Ok(i64::MAX));
    assert_eq!(interpolate(&left, &right, 3), Err(TimingError::OutOfRange));
    let wide_left = anchor(0, i64::MIN);
    let wide_right = anchor(1, i64::MAX);
    assert_eq!(interpolate(&wide_left, &wide_right, u64::MAX), Err(TimingError::OutOfRange));
}

fn timing_with(anchors: Vec<TimingAnchor>) -> ValidatedTiming {
    let mut s = sidecar("abcdef");
    s.anchors = anchors;
    ValidatedTiming { sidecar: s, warnings: Vec::new() }
}

#[test]
fn event_instant_from_anchors() {
    let timing = timing_with(vec![anchor(0, 0), anchor(100, 1_000), anchor(200, 3_000)]);
    assert_eq!(timing.event_utc_ns(0), Ok(0));
    assert_eq!(timing.event_utc_ns(50), Ok(500));
    assert_eq!(timing.event_utc_ns(100), Ok(1_000));
    assert_eq!(timing.event_utc_ns(150), Ok(2_000));
    assert_eq!(timing.event_utc_ns(200), Ok(3_000));
    assert_eq!(timing.event_utc_ns(250), Ok(4_000));
    let mut previous = i64::MIN;
    for sample in 0..300u64 {
        let now = timing.event_utc_ns(sample).unwrap();
        assert!(now >= previous);
        previous = now;
    }
}

#[test]
fn event_instant_uses_first_enclosing_pair() {
    let timing = timing_with(vec![anchor(0, 0), anchor(100, 1_000), anchor(50, 2_000), anchor(200, 3_000)]);
    assert_eq!(timing.event_utc_ns(75), Ok(750));
    assert_eq!(timing.event_utc_ns(120), Ok(2_466));
    let falling = timing_with(vec![anchor(0, 0), anchor(100, 1_000), anchor(150, 900)]);
    assert_eq!(falling.event_utc_ns(120), Err(TimingError::AnchorsNotMonotonic));
}

#[test]
fn sidecar_default_path() {
    assert_eq!(default_path("/data/sender.wav"), "/data/sender.wav.timing.json");
}

#[test]
fn utc_text_and_day() {
    assert_eq!(utc_string(START), "1700000000000000000 ns since Unix epoch");
    assert_eq!(utc_string(-5), "-5 ns since Unix epoch");
    assert_eq!(utc_day(START), 19_675);
    assert_eq!(utc_day(START + 86_400 * 1_000_000_000), 19_676);
    assert_eq!(utc_day(0), 0);
    assert_eq!(utc_day(-1), -1);
    assert_eq!(utc_day(i64::MIN), i64::MIN.div_euclid(86_400_000_000_000));
}
