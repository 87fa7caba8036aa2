//! The library's error type, its process exit codes and its messages.
use vstd::prelude::*;

use crate::strings::{decimal, decimal_text, join_texts, joined};

verus! {

#[verifier::external_type_specification]
#[verifier::external_body]
pub struct ExJsonError(serde_json::Error);

#[verifier::external_type_specification]
#[verifier::external_body]
pub struct ExCsvError(csv::Error);

/// Display text of a `serde_json::Error` (its `Display` impl, through `to_string`).
/// Nothing is claimed of the text: it describes the parse failure and its position.
#[verifier::external_body]
fn json_error_text(error: &serde_json::Error) -> String {
    error.to_string()
}

/// Display text of a `csv::Error` (its `Display` impl, through `to_string`).
/// Nothing is claimed of the text: it describes the I/O or record failure.
#[verifier::external_body]
fn csv_error_text(error: &csv::Error) -> String {
    error.to_string()
}

#[derive(Debug)]
pub enum AppError {
    UnsupportedCaptureFormat(u32),
    InvalidCapture(String),
    CaptureJson(serde_json::Error),
    CaptureFileRead { path: String, message: String },
    FileWrite { path: String, message: String },
    Csv(csv::Error),
    SignalHandler(String),
    NoClockEvents,
    AlsaUnavailable { detail: String },
    AlsaBusy { detail: String },
    AlsaPermissionDenied { detail: String },
    AlsaDisconnected,
    AlsaTimestampUnsupported,
    Plot(String),
    AnalysisDidNotConverge,
    GraphRateTransitionUnsupported,
    InconsistentCommonTimebase(String),
    TimestampArithmeticOverflow,
    CaptureOverflow,
    PipeWireNegotiationFailed { detail: String },
    PipeWireUnsupportedControlFormat,
    PipeWireSourceDisappeared,
    PipeWireUnavailable { detail: String },
    PipeWirePermissionDenied { detail: String },
    NoSource,
    AmbiguousSource { selector: String, candidates: Vec<String> },
    SourceNotFound { selector: String },
}

/// Prefix of the message of a `CaptureJson` error.
pub open spec fn json_prefix() -> Seq<char> {
    "invalid capture JSON: "@
}

/// Prefix of the message of a `Csv` error.
pub open spec fn csv_prefix() -> Seq<char> {
    "CSV output failed: "@
}

impl AppError {
    /// An `InvalidCapture` error carrying exactly `message`.
    pub open spec fn is_invalid_capture(self, message: Seq<char>) -> bool {
        self matches AppError::InvalidCapture(text) && text@ == message
    }

    /// An `InconsistentCommonTimebase` error carrying exactly `message`.
    pub open spec fn is_timebase_error(self, message: Seq<char>) -> bool {
        self matches AppError::InconsistentCommonTimebase(text) && text@ == message
    }

    /// The process exit status for this error: 3 for an unavailable, busy or
    /// disconnected device or daemon, 4 for a denied permission, 5 for a source
    /// that cannot be selected, 1 otherwise.
    pub open spec fn spec_exit_code(self) -> u8 {
        match self {
            AppError::PipeWireUnavailable { .. } | AppError::AlsaUnavailable { .. }
            | AppError::AlsaBusy { .. } | AppError::AlsaDisconnected => 3,
            AppError::PipeWirePermissionDenied { .. } | AppError::AlsaPermissionDenied { .. } => 4,
            AppError::NoSource | AppError::AmbiguousSource { .. } | AppError::SourceNotFound {
                ..
            } => 5,
            _ => 1,
        }
    }

    /// The human-readable message of every error but the two that wrap an
    /// outside library's error.
    pub open spec fn message_text(self) -> Seq<char> {
        match self {
            AppError::UnsupportedCaptureFormat(version) => "unsupported capture format version "@
                + decimal(version as nat),
            AppError::InvalidCapture(message) => "invalid capture: "@ + message@,
            AppError::CaptureJson(_) => json_prefix(),
            AppError::CaptureFileRead { path, message } => "cannot read capture file \""@ + path@
                + "\": "@ + message@,
            AppError::FileWrite { path, message } => "cannot write file \""@ + path@ + "\": "@
                + message@,
            AppError::Csv(_) => csv_prefix(),
            AppError::SignalHandler(message) => "cannot install interrupt handler: "@ + message@,
            AppError::NoClockEvents => "no MIDI Clock messages were captured"@,
            AppError::AlsaUnavailable { detail } => "ALSA device unavailable: "@ + detail@,
            AppError::AlsaBusy { detail } => "ALSA device busy: "@ + detail@,
            AppError::AlsaPermissionDenied { detail } => "ALSA permission denied: "@ + detail@,
            AppError::AlsaDisconnected => "ALSA device disconnected during capture"@,
            AppError::AlsaTimestampUnsupported =>
                "ALSA timestamp mode unsupported; retry with --allow-userspace-timestamps to use explicitly labeled userspace timestamping"@,
            AppError::Plot(message) => "plot rendering failed: "@ + message@,
            AppError::AnalysisDidNotConverge => "clock analysis did not converge"@,
            AppError::GraphRateTransitionUnsupported =>
                "PipeWire graph-rate transitions are unsupported in v0.1"@,
            AppError::InconsistentCommonTimebase(message) => "inconsistent common timebase: "@
                + message@,
            AppError::TimestampArithmeticOverflow => "PipeWire timestamp arithmetic overflowed"@,
            AppError::CaptureOverflow => "PipeWire capture buffer capacity was exhausted"@,
            AppError::PipeWireNegotiationFailed { detail } =>
                "PipeWire could not negotiate an application/control MIDI stream: "@ + detail@,
            AppError::PipeWireUnsupportedControlFormat =>
                "PipeWire source supplied an unsupported MIDI/control buffer format"@,
            AppError::PipeWireSourceDisappeared =>
                "PipeWire MIDI source disappeared during capture"@,
            AppError::PipeWireUnavailable { detail } => "PipeWire daemon unavailable: "@ + detail@,
            AppError::PipeWirePermissionDenied { detail } => "PipeWire permission denied: "@
                + detail@,
            AppError::NoSource => "no MIDI source is available"@,
            AppError::AmbiguousSource { selector, candidates } => "source selector \""@
                + selector@ + "\" is ambiguous; use one of: "@ + joined(
                candidates@.map_values(|candidate: String| candidate@),
                ", "@,
            ),
            AppError::SourceNotFound { selector } => "MIDI source \""@ + selector@
                + "\" was not found"@,
        }
    }

    /// The process exit status for this error.
    pub fn exit_code(&self) -> (code: u8)
        ensures
            code == self.spec_exit_code(),
    {
        match self {
            AppError::PipeWireUnavailable { .. } | AppError::AlsaUnavailable { .. }
            | AppError::AlsaBusy { .. } | AppError::AlsaDisconnected => 3,
            AppError::PipeWirePermissionDenied { .. } | AppError::AlsaPermissionDenied { .. } => 4,
            AppError::NoSource | AppError::AmbiguousSource { .. } | AppError::SourceNotFound {
                ..
            } => 5,
            _ => 1,
        }
    }

    /// The error's message, as its `Display` text reads.
    pub fn message(&self) -> (text: String)
        ensures
            !(self is CaptureJson || self is Csv) ==> text@ == self.message_text(),
            (self is CaptureJson || self is Csv) ==> text@.len() >= self.message_text().len()
                && text@.subrange(0, self.message_text().len() as int) == self.message_text(),
    {
        match self {
            AppError::UnsupportedCaptureFormat(version) => {
                let mut text = String::from_str("unsupported capture format version ");
                text.append(decimal_text(*version as u64).as_str());
                text
            },
            AppError::InvalidCapture(message) => {
                String::from_str("invalid capture: ").concat(message.as_str())
            },
            AppError::CaptureJson(error) => {
                let text = String::from_str("invalid capture JSON: ").concat(
                    json_error_text(error).as_str(),
                );
                assert(text@.subrange(0, json_prefix().len() as int) =~= json_prefix());
                text
            },
            AppError::CaptureFileRead { path, message } => {
                let mut text = String::from_str("cannot read capture file \"");
                text.append(path.as_str());
                text.append("\": ");
                text.append(message.as_str());
                text
            },
            AppError::FileWrite { path, message } => {
                let mut text = String::from_str("cannot write file \"");
                text.append(path.as_str());
                text.append("\": ");
                text.append(message.as_str());
                text
            },
            AppError::Csv(error) => {
                let text = String::from_str("CSV output failed: ").concat(
                    csv_error_text(error).as_str(),
                );
                assert(text@.subrange(0, csv_prefix().len() as int) =~= csv_prefix());
                text
            },
            AppError::SignalHandler(message) => {
                String::from_str("cannot install interrupt handler: ").concat(message.as_str())
            },
            AppError::NoClockEvents => String::from_str("no MIDI Clock messages were captured"),
            AppError::AlsaUnavailable { detail } => {
                String::from_str("ALSA device unavailable: ").concat(detail.as_str())
            },
            AppError::AlsaBusy { detail } => {
                String::from_str("ALSA device busy: ").concat(detail.as_str())
            },
            AppError::AlsaPermissionDenied { detail } => {
                String::from_str("ALSA permission denied: ").concat(detail.as_str())
            },
            AppError::AlsaDisconnected => String::from_str(
                "ALSA device disconnected during capture",
            ),
            AppError::AlsaTimestampUnsupported => String::from_str(
                "ALSA timestamp mode unsupported; retry with --allow-userspace-timestamps to use explicitly labeled userspace timestamping",
            ),
            AppError::Plot(message) => {
                String::from_str("plot rendering failed: ").concat(message.as_str())
            },
            AppError::AnalysisDidNotConverge => String::from_str(
                "clock analysis did not converge",
            ),
            AppError::GraphRateTransitionUnsupported => String::from_str(
                "PipeWire graph-rate transitions are unsupported in v0.1",
            ),
            AppError::InconsistentCommonTimebase(message) => {
                String::from_str("inconsistent common timebase: ").concat(message.as_str())
            },
            AppError::TimestampArithmeticOverflow => String::from_str(
                "PipeWire timestamp arithmetic overflowed",
            ),
            AppError::CaptureOverflow => String::from_str(
                "PipeWire capture buffer capacity was exhausted",
            ),
            AppError::PipeWireNegotiationFailed { detail } => {
                String::from_str(
                    "PipeWire could not negotiate an application/control MIDI stream: ",
                ).concat(detail.as_str())
            },
            AppError::PipeWireUnsupportedControlFormat => String::from_str(
                "PipeWire source supplied an unsupported MIDI/control buffer format",
            ),
            AppError::PipeWireSourceDisappeared => String::from_str(
                "PipeWire MIDI source disappeared during capture",
            ),
            AppError::PipeWireUnavailable { detail } => {
                String::from_str("PipeWire daemon unavailable: ").concat(detail.as_str())
            },
            AppError::PipeWirePermissionDenied { detail } => {
                String::from_str("PipeWire permission denied: ").concat(detail.as_str())
            },
            AppError::NoSource => String::from_str("no MIDI source is available"),
            AppError::AmbiguousSource { selector, candidates } => {
                let mut text = String::from_str("source selector \"");
                text.append(selector.as_str());
                text.append("\" is ambiguous; use one of: ");
                text.append(join_texts(candidates, ", ").as_str());
                text
            },
            AppError::SourceNotFound { selector } => {
                let mut text = String::from_str("MIDI source \"");
                text.append(selector.as_str());
                text.append("\" was not found");
                text
            },
        }
    }
}

} // verus!
