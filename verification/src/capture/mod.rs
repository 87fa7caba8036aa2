pub mod event;
pub mod format;
pub mod metadata;
pub mod parser;

pub use event::{CapturedEvent, MidiEvent, PairedEvent};
pub use metadata::{
    AlsaTimestamp, CaptureCompletion, CommonGraphMetadata, CompletionStatus, EnvironmentMetadata,
    GraphTiming, GraphTransition, GraphTransitionKind, PairedGraphTransition, PipeWireTimestamp,
    SourceMetadata, TimestampMetadata,
};
pub use parser::MidiParser;
pub use format::{
    common_timestamp_ns, document_version, CaptureDocument, CaptureFault, CaptureFile,
    DocumentVersion, PairedCapture, StreamRole,
    CURRENT_FORMAT_VERSION, PAIRED_FORMAT_VERSION,
};
