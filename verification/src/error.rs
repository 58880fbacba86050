use vstd::prelude::*;

verus! {

/// The error codes that the measurement reports to its callers.
#[derive(Debug, Clone, Copy, PartialEq, Eq, Structural)]
pub enum ErrorCode {
    InvalidArgument,
    WavReadFailed,
    UnsupportedAudioFormat,
    TimestampNotFound,
    EventCountMismatch,
    EventDetectionUncertain,
    LatencyOutOfRange,
    LatencyUnstable,
    OutputWriteFailed,
    AnalysisFailed,
}

/// The stable text of each error code.
pub open spec fn code_text(code: ErrorCode) -> Seq<char> {
    match code {
        ErrorCode::InvalidArgument => "INVALID_ARGUMENT"@,
        ErrorCode::WavReadFailed => "WAV_READ_FAILED"@,
        ErrorCode::UnsupportedAudioFormat => "UNSUPPORTED_AUDIO_FORMAT"@,
        ErrorCode::TimestampNotFound => "TIMESTAMP_NOT_FOUND"@,
        ErrorCode::EventCountMismatch => "EVENT_COUNT_MISMATCH"@,
        ErrorCode::EventDetectionUncertain => "EVENT_DETECTION_UNCERTAIN"@,
        ErrorCode::LatencyOutOfRange => "LATENCY_OUT_OF_RANGE"@,
        ErrorCode::LatencyUnstable => "LATENCY_UNSTABLE"@,
        ErrorCode::OutputWriteFailed => "OUTPUT_WRITE_FAILED"@,
        ErrorCode::AnalysisFailed => "ANALYSIS_FAILED"@,
    }
}

impl ErrorCode {
    /// The text under which the code appears in reports.
    pub fn as_str(self) -> (text: &'static str)
        ensures
            text@ == code_text(self),
    {
        match self {
            ErrorCode::InvalidArgument => "INVALID_ARGUMENT",
            ErrorCode::WavReadFailed => "WAV_READ_FAILED",
            ErrorCode::UnsupportedAudioFormat => "UNSUPPORTED_AUDIO_FORMAT",
            ErrorCode::TimestampNotFound => "TIMESTAMP_NOT_FOUND",
            ErrorCode::EventCountMismatch => "EVENT_COUNT_MISMATCH",
            ErrorCode::EventDetectionUncertain => "EVENT_DETECTION_UNCERTAIN",
            ErrorCode::LatencyOutOfRange => "LATENCY_OUT_OF_RANGE",
            ErrorCode::LatencyUnstable => "LATENCY_UNSTABLE",
            ErrorCode::OutputWriteFailed => "OUTPUT_WRITE_FAILED",
            ErrorCode::AnalysisFailed => "ANALYSIS_FAILED",
        }
    }
}

/// An error of the measurement: a code and a human readable message.
#[derive(Debug, Clone)]
pub struct CheckerError {
    pub code: ErrorCode,
    pub message: String,
}

impl CheckerError {
    pub fn new(code: ErrorCode, message: String) -> (error: Self)
        ensures
            error.code == code,
            error.message@ == message@,
    {
        CheckerError { code, message }
    }

    /// The error as one line of text: `CODE: message`.
    pub fn describe(&self) -> (text: String)
        ensures
            text@ == code_text(self.code) + ": "@ + self.message@,
    {
        let mut text = String::from_str(self.code.as_str());
        text.append(": ");
        text.append(self.message.as_str());
        text
    }
}

/// Distinct error codes are reported under distinct texts.
pub proof fn code_text_is_injective(a: ErrorCode, b: ErrorCode)
    requires
        a != b,
    ensures
        code_text(a) != code_text(b),
{
    reveal_strlit("INVALID_ARGUMENT");
    reveal_strlit("WAV_READ_FAILED");
    reveal_strlit("UNSUPPORTED_AUDIO_FORMAT");
    reveal_strlit("TIMESTAMP_NOT_FOUND");
    reveal_strlit("EVENT_COUNT_MISMATCH");
    reveal_strlit("EVENT_DETECTION_UNCERTAIN");
    reveal_strlit("LATENCY_OUT_OF_RANGE");
    reveal_strlit("LATENCY_UNSTABLE");
    reveal_strlit("OUTPUT_WRITE_FAILED");
    reveal_strlit("ANALYSIS_FAILED");
    if code_text(a) == code_text(b) {
        assert(code_text(a).len() == code_text(b).len());
        assert(code_text(a)[0] == code_text(b)[0]);
        assert(code_text(a)[4] == code_text(b)[4]);
        assert(code_text(a)[8] == code_text(b)[8]);
        assert(code_text(a)[10] == code_text(b)[10]);
    }
}

} // verus!
