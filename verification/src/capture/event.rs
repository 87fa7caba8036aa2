use vstd::prelude::*;

use super::metadata::TimestampMetadata;

verus! {

/// The MIDI realtime messages that a capture keeps.
#[derive(Debug, Clone, Copy, PartialEq, Eq, Structural)]
pub enum MidiEvent {
    Clock,
    Start,
    Continue,
    Stop,
    ActiveSensing,
}

/// One captured realtime message: its capture-wide sequence number, its
/// timestamp relative to the capture epoch, and the raw backend timing.
#[derive(Debug, PartialEq, Eq)]
pub struct CapturedEvent {
    pub sequence: u64,
    pub timestamp_ns: i128,
    pub event: MidiEvent,
    pub timestamp_metadata: TimestampMetadata,
}

impl Clone for CapturedEvent {
    fn clone(&self) -> (copy: Self)
        ensures
            copy == *self,
    {
        CapturedEvent {
            sequence: self.sequence,
            timestamp_ns: self.timestamp_ns,
            event: self.event,
            timestamp_metadata: self.timestamp_metadata.clone(),
        }
    }
}

/// Events of `kind`.
pub open spec fn of_kind(kind: MidiEvent) -> spec_fn(CapturedEvent) -> bool {
    |event: CapturedEvent| event.event == kind
}

/// An event in one side of a v2 paired capture. The containing array supplies
/// the stream role; the raw graph position is retained in the metadata.
pub type PairedEvent = CapturedEvent;

} // verus!
