use audio_checker::analyze::{check_clock_pair, event_time, event_wav_sample};
use audio_checker::output::{default_output, report_file_name};
use audio_checker::timing::{TimeSyncMetadata, TimingAnchor, TimingSidecar, ValidatedTiming};

const START: i64 = 1_700_000_000_000_000_000;

fn sidecar(server: &str, first_pcm: i64) -> TimingSidecar {
    TimingSidecar {
        schema_version: 2,
        clock_domain: "windows-utc-synchronized-by-ntp".to_string(),
        source: "wasapi-loopback".to_string(),
        wav_file: "a.wav".to_string(),
        wav_sha256: String::new(),
        sample_rate: 48_000,
        first_pcm_utc_unix_ns: first_pcm,
        first_pcm_millis_of_day: 0,
        fsk_semantics: "first_pcm_sample".to_string(),
        fsk_prefix_samples: 1,
        recording_started_unix_ns: first_pcm,
        recording_ended_unix_ns: first_pcm,
        qpc_utc_calibrations: Vec::new(),
        clock_jump_detected: false,
        anchors: vec![
            TimingAnchor { wav_sample_index: 0, device_position: 0, qpc_100ns: 0, utc_unix_ns: first_pcm },
            TimingAnchor { wav_sample_index: 48_000, device_position: 1, qpc_100ns: 1, utc_unix_ns: first_pcm + 1_000_000_000 },
        ],
        discontinuities: Vec::new(),
        time_sync: Some(TimeSyncMetadata {
            schema_version: 2,
            report_kind: "pre_sync".to_string(),
            server: server.to_string(),
            checked_at_unix_ns: first_pcm,
            status: "pass".to_string(),
            max_abs_offset_ms_bits: 0,
            median_offset_ms_bits: None,
            rtt_p50_ms_bits: None,
        }),
    }
}

#[test]
fn analysis_sample_to_recording_sample() {
    assert_eq!(event_wav_sample(16_000, 16_000), 16_000);
    assert_eq!(event_wav_sample(16_000, 48_000), 48_000);
    assert_eq!(event_wav_sample(3, 8_000), 2);
    assert_eq!(event_wav_sample(1, 8_000), 1);
    assert_eq!(event_wav_sample(usize::MAX, u32::MAX), u64::MAX);
}

#[test]
fn event_instant_at_48k() {
    let timing = ValidatedTiming { sidecar: sidecar("host", START), warnings: Vec::new() };
    assert_eq!(event_time(&timing, 48_000, 8_000), Ok(START + 500_000_000));
}

#[test]
fn later_onsets_never_get_earlier_instants() {
    let timing = ValidatedTiming { sidecar: sidecar("host", START), warnings: Vec::new() };
    let mut previous = i64::MIN;
    for onset in (0..40_000usize).step_by(7) {
        let now = event_time(&timing, 48_000, onset).unwrap();
        assert!(now >= previous);
        previous = now;
    }
}

#[test]
fn same_server_same_day_accepted() {
    assert!(check_clock_pair(&sidecar("offline-host", START), &sidecar("offline-host", START + 5)).is_ok());
}

#[test]
fn different_server_rejected() {
    let error = check_clock_pair(&sidecar("host-a", START), &sidecar("host-b", START)).unwrap_err();
    assert_eq!(error.code, "UNSUPPORTED_TIMING_PROTOCOL");
    assert_eq!(error.message, "发送端和接收端的 NTP server 不一致");
}

#[test]
fn different_utc_day_rejected() {
    let error = check_clock_pair(
        &sidecar("offline-host", START),
        &sidecar("offline-host", START + 86_400 * 1_000_000_000),
    )
    .unwrap_err();
    assert_eq!(error.code, "UNSUPPORTED_TIMING_PROTOCOL");
    assert_eq!(error.message, "发送端和接收端的录音不在同一个 UTC 日");
}

#[test]
fn report_name_beside_sender() {
    assert_eq!(report_file_name(Some("sender".to_string())), "sender.audio-delay.json");
    assert_eq!(report_file_name(None), "sender.audio-delay.json");
    assert_eq!(report_file_name(Some("take 2".to_string())), "take 2.audio-delay.json");
    assert_eq!(default_output("/records/meeting.wav"), "/records/meeting.audio-delay.json");
    assert_eq!(default_output("meeting.wav"), "meeting.audio-delay.json");
    assert_eq!(default_output("take.v2.wav"), "take.v2.audio-delay.json");
    assert_eq!(default_output(".hidden"), ".hidden.audio-delay.json");
    assert_eq!(default_output("a."), "a.audio-delay.json");
    assert_eq!(default_output("rec/2024/x.y.wav"), "rec/2024/x.y.audio-delay.json");
    assert!(default_output("/tmp/dir/").ends_with(".audio-delay.json"));
    assert_eq!(default_output("/home/u/rec/x.wav"), "/home/u/rec/x.audio-delay.json");
    assert_eq!(default_output("/x.wav"), "/x.audio-delay.json");
}
