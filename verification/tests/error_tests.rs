use audio_checker::error::{CheckerError, ErrorCode};

#[test]
fn error_code_texts() {
    assert_eq!(ErrorCode::InvalidArgument.as_str(), "INVALID_ARGUMENT");
    assert_eq!(ErrorCode::WavReadFailed.as_str(), "WAV_READ_FAILED");
    assert_eq!(ErrorCode::UnsupportedAudioFormat.as_str(), "UNSUPPORTED_AUDIO_FORMAT");
    assert_eq!(ErrorCode::TimestampNotFound.as_str(), "TIMESTAMP_NOT_FOUND");
    assert_eq!(ErrorCode::EventCountMismatch.as_str(), "EVENT_COUNT_MISMATCH");
    assert_eq!(ErrorCode::EventDetectionUncertain.as_str(), "EVENT_DETECTION_UNCERTAIN");
    assert_eq!(ErrorCode::LatencyOutOfRange.as_str(), "LATENCY_OUT_OF_RANGE");
    assert_eq!(ErrorCode::LatencyUnstable.as_str(), "LATENCY_UNSTABLE");
    assert_eq!(ErrorCode::OutputWriteFailed.as_str(), "OUTPUT_WRITE_FAILED");
    assert_eq!(ErrorCode::AnalysisFailed.as_str(), "ANALYSIS_FAILED");
}

#[test]
fn checker_error_text() {
    let error = CheckerError::new(ErrorCode::LatencyUnstable, "波动过大".to_string());
    assert_eq!(error.code, ErrorCode::LatencyUnstable);
    assert_eq!(error.message, "波动过大");
    assert_eq!(error.describe(), "LATENCY_UNSTABLE: 波动过大");
}
