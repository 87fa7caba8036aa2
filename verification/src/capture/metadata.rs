use vstd::prelude::*;

use crate::error::AppError;

verus! {

/// Who produced a capture stream.
#[derive(Debug, PartialEq, Eq)]
pub struct SourceMetadata {
    pub identity: String,
    pub display_name: String,
}

impl Clone for SourceMetadata {
    fn clone(&self) -> (copy: Self)
        ensures
            copy == *self,
    {
        SourceMetadata { identity: self.identity.clone(), display_name: self.display_name.clone() }
    }
}

/// The machine a capture was recorded on.
#[derive(Debug, PartialEq, Eq)]
pub struct EnvironmentMetadata {
    pub operating_system: String,
    pub pipewire_version: Option<String>,
}

impl Clone for EnvironmentMetadata {
    fn clone(&self) -> (copy: Self)
        ensures
            copy == *self,
    {
        let pipewire_version = match &self.pipewire_version {
            Some(version) => Some(version.clone()),
            None => None,
        };
        EnvironmentMetadata {
            operating_system: self.operating_system.clone(),
            pipewire_version,
        }
    }
}

/// A v1 graph-timing change, recorded before the event with `event_sequence`.
#[derive(Debug, Clone, Copy, PartialEq, Eq, Structural)]
pub struct GraphTransition {
    pub event_sequence: u64,
    pub rate_num: u32,
    pub rate_denom: u32,
    pub quantum: u32,
}

/// Raw ALSA RawMIDI timestamp for one captured event.
///
/// `absolute_ns` is the kernel (or userspace fallback) timestamp in
/// `CLOCK_MONOTONIC_RAW` nanoseconds. The normalized `timestamp_ns` on the
/// enclosing event stays relative to the first captured event.
#[derive(Debug, PartialEq, Eq)]
pub struct AlsaTimestamp {
    pub absolute_ns: i128,
    pub clock: String,
    pub timestamped_read: bool,
}

impl Clone for AlsaTimestamp {
    fn clone(&self) -> (copy: Self)
        ensures
            copy == *self,
    {
        AlsaTimestamp {
            absolute_ns: self.absolute_ns,
            clock: self.clock.clone(),
            timestamped_read: self.timestamped_read,
        }
    }
}

/// PipeWire graph position of one captured event.
#[derive(Debug, Clone, Copy, PartialEq, Eq, Structural)]
pub struct PipeWireTimestamp {
    pub cycle_position: i64,
    pub event_offset: u32,
    pub event_position: i64,
    pub rate_num: u32,
    pub rate_denom: u32,
    pub quantum: u32,
}

/// Backend-specific raw timing kept with every event.
#[derive(Debug, PartialEq, Eq)]
pub enum TimestampMetadata {
    PipeWire(PipeWireTimestamp),
    Alsa(AlsaTimestamp),
}

impl Clone for TimestampMetadata {
    fn clone(&self) -> (copy: Self)
        ensures
            copy == *self,
    {
        match self {
            TimestampMetadata::PipeWire(timestamp) => TimestampMetadata::PipeWire(*timestamp),
            TimestampMetadata::Alsa(timestamp) => TimestampMetadata::Alsa(timestamp.clone()),
        }
    }
}

/// The graph clock and timing tuple shared by every stream in a paired
/// capture. `origin_position` is the sole epoch for both event arrays.
#[derive(Debug, Clone, Copy, PartialEq, Eq, Structural)]
pub struct CommonGraphMetadata {
    pub clock_id: u64,
    pub rate_num: u32,
    pub rate_denom: u32,
    pub quantum: u32,
    pub origin_position: i64,
}

/// Graph rate and quantum of a paired graph transition.
#[derive(Debug, Clone, Copy, PartialEq, Eq, Structural)]
pub struct GraphTiming {
    pub rate_num: u32,
    pub rate_denom: u32,
    pub quantum: u32,
}

#[derive(Debug, Clone, Copy, PartialEq, Eq, Structural)]
pub enum GraphTransitionKind {
    Initial,
    RateChanged,
    QuantumChanged,
    ClockChanged,
}

/// Typed v2 graph transition metadata. V1's `GraphTransition` remains a
/// separate type because its wire format is part of the compatibility API.
#[derive(Debug, Clone, Copy, PartialEq, Eq, Structural)]
pub struct PairedGraphTransition {
    pub event_sequence: u64,
    pub kind: GraphTransitionKind,
    pub clock_id: u64,
    pub timing: GraphTiming,
}

#[derive(Debug, Clone, Copy, PartialEq, Eq, Structural)]
pub enum CompletionStatus {
    Complete,
    Interrupted,
    Failed,
}

/// How a paired capture ended.
#[derive(Debug, PartialEq, Eq)]
pub struct CaptureCompletion {
    pub status: CompletionStatus,
    pub reason: Option<String>,
}

/// Rate numerator, denominator and quantum are all positive.
pub open spec fn positive_timing(rate_num: u32, rate_denom: u32, quantum: u32) -> bool {
    rate_num > 0 && rate_denom > 0 && quantum > 0
}

impl CommonGraphMetadata {
    /// Accepts the common graph timing only when rate and quantum are positive.
    pub fn validate(&self) -> (result: Result<(), AppError>)
        ensures
            result is Ok <==> positive_timing(self.rate_num, self.rate_denom, self.quantum),
            result matches Err(error) ==> error.is_timebase_error(
                "graph rate and quantum must be positive"@,
            ),
    {
        if self.rate_num == 0 || self.rate_denom == 0 || self.quantum == 0 {
            return Err(
                AppError::InconsistentCommonTimebase(
                    "graph rate and quantum must be positive".to_owned(),
                ),
            );
        }
        Ok(())
    }
}

impl GraphTiming {
    /// Accepts a transition's timing only when rate and quantum are positive.
    pub fn validate(&self) -> (result: Result<(), AppError>)
        ensures
            result is Ok <==> positive_timing(self.rate_num, self.rate_denom, self.quantum),
            result matches Err(error) ==> error.is_timebase_error(
                "graph transition rate and quantum must be positive"@,
            ),
    {
        if self.rate_num == 0 || self.rate_denom == 0 || self.quantum == 0 {
            return Err(
                AppError::InconsistentCommonTimebase(
                    "graph transition rate and quantum must be positive".to_owned(),
                ),
            );
        }
        Ok(())
    }
}

} // verus!
