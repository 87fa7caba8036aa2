//! Timing analysis of MIDI Clock streams: capture format, byte-stream parsing,
//! timestamp arithmetic, tick classification and paired latency alignment.
pub mod analysis;
pub mod backend;
pub mod capture;
pub mod error;
pub mod output;
pub mod simulate;
pub mod strings;

pub use analysis::indexing::{is_clean_period, is_clean_phase};
pub use analysis::{EventDisposition, ExclusionCounts, IntervalDisposition};
pub use capture::{
    common_timestamp_ns, document_version, AlsaTimestamp, CaptureCompletion, CaptureDocument,
    CaptureFile, DocumentVersion,
    CapturedEvent, CommonGraphMetadata, CompletionStatus, EnvironmentMetadata, GraphTiming,
    GraphTransition, GraphTransitionKind, MidiEvent, PairedCapture, PairedEvent,
    PairedGraphTransition, PipeWireTimestamp, SourceMetadata, StreamRole, TimestampMetadata,
    PAIRED_FORMAT_VERSION,
};
pub use error::AppError;
