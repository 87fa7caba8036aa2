//! The decisions of an ALSA RawMIDI capture: which clock labels the
//! timestamps, how device errors are classified, how bytes become events,
//! when a capture stops and how its file is assembled.
use vstd::prelude::*;

use crate::backend::{append_realtime_events, appended_events, CaptureRequest, CaptureTermination};
use crate::capture::parser::{pending_after, realtime_event, realtime_events};
use crate::capture::format::{capture_fault, lemma_numbered_events_are_sound, numbered};
use crate::strings::blank;
use crate::capture::{
    AlsaTimestamp, CaptureFile, CapturedEvent, EnvironmentMetadata, MidiEvent, MidiParser, SourceMetadata,
    TimestampMetadata, CURRENT_FORMAT_VERSION,
};

use crate::backend::pipewire::common::{clock_count, clocks_since};
use super::timing::{
    alsa_absolute, alsa_normalized, alsa_outcome, first_alsa_fault,
    normalize_alsa_event_timestamps,
};
use crate::error::AppError;

verus! {

pub const CLOCK_MONOTONIC_RAW: &'static str = "monotonic-raw";

pub const CLOCK_USERSPACE_MONOTONIC_RAW: &'static str = "userspace-monotonic-raw";

pub const TIMESTAMP_METHOD_KERNEL: &'static str = "ALSA timestamped RawMIDI (CLOCK_MONOTONIC_RAW)";

pub const TIMESTAMP_METHOD_USERSPACE: &'static str =
    "userspace timestamps after read (CLOCK_MONOTONIC_RAW)";

/// Which clock produced the absolute ALSA timestamps.
#[derive(Debug, Clone, Copy, PartialEq, Eq, Structural)]
pub enum AlsaClock {
    MonotonicRaw,
    Userspace,
}

impl AlsaClock {
    /// The clock label stored with each timestamp.
    pub open spec fn spec_label(self) -> Seq<char> {
        match self {
            AlsaClock::MonotonicRaw => CLOCK_MONOTONIC_RAW@,
            AlsaClock::Userspace => CLOCK_USERSPACE_MONOTONIC_RAW@,
        }
    }

    /// The clock label stored with each timestamp.
    pub fn label(self) -> (label: &'static str)
        ensures
            label@ == self.spec_label(),
    {
        match self {
            AlsaClock::MonotonicRaw => CLOCK_MONOTONIC_RAW,
            AlsaClock::Userspace => CLOCK_USERSPACE_MONOTONIC_RAW,
        }
    }
}

/// `metadata` is the ALSA metadata of one read at `absolute_ns` from `clock`.
pub open spec fn is_alsa_metadata(
    metadata: TimestampMetadata,
    absolute_ns: i128,
    clock: AlsaClock,
    timestamped_read: bool,
) -> bool {
    metadata matches TimestampMetadata::Alsa(timestamp) && timestamp.absolute_ns == absolute_ns
        && timestamp.clock@ == clock.spec_label() && timestamp.timestamped_read
        == timestamped_read
}

/// Appends recognized realtime MIDI bytes sharing one ALSA timestamp.
///
/// `events` must be preallocated by the caller; the capacity check keeps the
/// bounded-capture guarantee, and a full buffer is reported as
/// `CaptureOverflow` with the events before it kept.
pub fn record_alsa_bytes(
    parser: &mut MidiParser,
    events: &mut Vec<CapturedEvent>,
    bytes: &[u8],
    absolute_ns: i128,
    clock: AlsaClock,
    timestamped_read: bool,
) -> (result: Result<(), AppError>)
    ensures
        exists|metadata: TimestampMetadata|
            is_alsa_metadata(metadata, absolute_ns, clock, timestamped_read) && {
                &&& result is Ok ==> {
                    &&& final(events)@ == old(events)@ + appended_events(
                        old(events)@.len(),
                        realtime_events(bytes@),
                        metadata,
                    )
                    &&& final(parser).pending() == pending_after(old(parser).pending(), bytes@)
                }
                &&& result is Err ==> exists|consumed: int|
                    0 <= consumed < bytes@.len() && realtime_event(#[trigger] bytes@[consumed])
                        is Some && final(events)@ == old(events)@ + appended_events(
                        old(events)@.len(),
                        realtime_events(bytes@.take(consumed)),
                        metadata,
                    ) && final(parser).pending() == pending_after(
                        old(parser).pending(),
                        bytes@.take(consumed + 1),
                    )
            },
        result matches Err(error) ==> error is CaptureOverflow,
        numbered(old(events)@) && all_alsa(old(events)@) ==> numbered(final(events)@) && all_alsa(
            final(events)@,
        ),
{
    let metadata = TimestampMetadata::Alsa(
        AlsaTimestamp {
            absolute_ns,
            clock: String::from_str(clock.label()),
            timestamped_read,
        },
    );
    let ghost before = old(events)@;
    let result = append_realtime_events(parser, events, bytes, &metadata);
    let _recorded = events.len();
    assert(is_alsa_metadata(metadata, absolute_ns, clock, timestamped_read));
    proof {
        if numbered(before) && all_alsa(before) {
            if result is Ok {
                lemma_appended_alsa(before, realtime_events(bytes@), metadata);
            } else {
                let consumed = choose|consumed: int|
                    0 <= consumed < bytes@.len() && realtime_event(#[trigger] bytes@[consumed])
                        is Some && events@ == before + appended_events(
                        before.len(),
                        realtime_events(bytes@.take(consumed)),
                        metadata,
                    );
                lemma_appended_alsa(before, realtime_events(bytes@.take(consumed)), metadata);
            }
        }
    }
    result
}

/// Appending realtime events with ALSA metadata keeps numbered ALSA events so.
proof fn lemma_appended_alsa(
    existing: Seq<CapturedEvent>,
    kinds: Seq<MidiEvent>,
    metadata: TimestampMetadata,
)
    requires
        numbered(existing),
        all_alsa(existing),
        metadata is Alsa,
        existing.len() + kinds.len() <= u64::MAX + 1,
    ensures
        numbered(existing + appended_events(existing.len(), kinds, metadata)),
        all_alsa(existing + appended_events(existing.len(), kinds, metadata)),
{
    crate::backend::law_appending_keeps_numbering(existing, kinds, metadata);
    let all = existing + appended_events(existing.len(), kinds, metadata);
    assert forall|i: int| 0 <= i < all.len() implies alsa_absolute(#[trigger] all[i]) is Some by {
        if i >= existing.len() {
            assert(all[i] == appended_events(existing.len(), kinds, metadata)[i - existing.len()]);
        }
    }
}

/// Linux `errno` values that the device error classification tells apart.
pub const ERRNO_EPERM: i32 = 1;

pub const ERRNO_EACCES: i32 = 13;

pub const ERRNO_EBUSY: i32 = 16;

pub const ERRNO_ENODEV: i32 = 19;

pub const ERRNO_EINTR: i32 = 4;

pub const ERRNO_EAGAIN: i32 = 11;

pub const ERRNO_EINVAL: i32 = 22;

pub const ERRNO_ENOTTY: i32 = 25;

/// The device refused timestamped reads as unsupported rather than failing.
pub open spec fn unsupported_errno(errno: i32) -> bool {
    errno == -ERRNO_EINVAL || errno == -ERRNO_ENOTTY
}

/// The clock a capture reads with, given how configuring timestamped
/// `CLOCK_MONOTONIC_RAW` reads went (`None` when it succeeded, else the
/// negated `errno`). Timestamped reads are preferred; when the device does
/// not support them the explicitly labeled userspace fallback is used only if
/// the request allows it, and otherwise the capture fails. Any other
/// configuration failure is an open error described by `detail`.
pub fn choose_clock(configure_errno: Option<i32>, allow_userspace: bool, detail: String) -> (result: Result<AlsaClock, AppError>)
    ensures
        result == match configure_errno {
            None => Ok::<AlsaClock, AppError>(AlsaClock::MonotonicRaw),
            Some(errno) => if !unsupported_errno(errno) {
                Err::<AlsaClock, AppError>(map_open_error_spec(errno, detail))
            } else if allow_userspace {
                Ok::<AlsaClock, AppError>(AlsaClock::Userspace)
            } else {
                Err::<AlsaClock, AppError>(AppError::AlsaTimestampUnsupported)
            },
        },
{
    match configure_errno {
        None => Ok(AlsaClock::MonotonicRaw),
        Some(errno) => if errno == -ERRNO_EINVAL || errno == -ERRNO_ENOTTY {
            if allow_userspace {
                Ok(AlsaClock::Userspace)
            } else {
                Err(AppError::AlsaTimestampUnsupported)
            }
        } else {
            Err(map_open_error(errno, detail))
        },
    }
}

/// What a failed read asks the capture loop to do.
#[derive(Debug, Clone, Copy, PartialEq, Eq, Structural)]
pub enum ReadFailure {
    /// Nothing to read yet: wait and read again.
    Retry,
    /// A signal interrupted the read: check for a stop, then read again.
    Interrupted,
    /// The device failed: end the capture with the mapped error.
    Failed,
}

/// Classifies a failed read by its negated `errno`.
pub fn classify_read_error(errno: i32) -> (failure: ReadFailure)
    ensures
        failure == (if errno == -ERRNO_EAGAIN {
            ReadFailure::Retry
        } else if errno == -ERRNO_EINTR {
            ReadFailure::Interrupted
        } else {
            ReadFailure::Failed
        }),
{
    if errno == -ERRNO_EAGAIN {
        ReadFailure::Retry
    } else if errno == -ERRNO_EINTR {
        ReadFailure::Interrupted
    } else {
        ReadFailure::Failed
    }
}

/// The open error for a negated `errno`: busy, permission denied, or unavailable.
pub open spec fn map_open_error_spec(errno: i32, detail: String) -> AppError {
    if errno == -ERRNO_EBUSY {
        AppError::AlsaBusy { detail }
    } else if errno == -ERRNO_EACCES || errno == -ERRNO_EPERM {
        AppError::AlsaPermissionDenied { detail }
    } else {
        AppError::AlsaUnavailable { detail }
    }
}

/// Classifies an error from opening or configuring a device by the negated
/// `errno` that ALSA returns; `detail` describes the failure.
pub fn map_open_error(errno: i32, detail: String) -> (error: AppError)
    ensures
        error == map_open_error_spec(errno, detail),
{
    if errno == -ERRNO_EBUSY {
        AppError::AlsaBusy { detail }
    } else if errno == -ERRNO_EACCES || errno == -ERRNO_EPERM {
        AppError::AlsaPermissionDenied { detail }
    } else {
        AppError::AlsaUnavailable { detail }
    }
}

/// Classifies an error while a capture is running; a vanished device is
/// reported as a disconnect rather than a generic failure.
pub fn map_capture_error(errno: i32, detail: String) -> (error: AppError)
    ensures
        errno == -ERRNO_ENODEV ==> error == AppError::AlsaDisconnected,
        errno != -ERRNO_ENODEV ==> error == map_open_error_spec(errno, detail),
{
    if errno == -ERRNO_ENODEV {
        return AppError::AlsaDisconnected;
    }
    map_open_error(errno, detail)
}

/// The bounded capture is done: enough Clock events for a tick bound, or, for
/// a duration bound, data timestamps spanning at least the duration since the
/// first read that produced events.
pub open spec fn alsa_bound_reached(
    termination: CaptureTermination,
    clock_events: u64,
    first_absolute_ns: Option<i128>,
    last_absolute_ns: i128,
) -> bool {
    match termination {
        CaptureTermination::Ticks(target) => clock_events >= target,
        CaptureTermination::DurationSeconds(seconds) => first_absolute_ns matches Some(first)
            && seconds > 0 && last_absolute_ns - first >= seconds * 1_000_000_000,
    }
}

/// Whether a running ALSA capture has reached its termination bound, judged
/// by the data timestamps; the wall-clock backstop lives with the read loop.
pub fn capture_bound_reached(
    termination: &CaptureTermination,
    clock_events: u64,
    first_absolute_ns: Option<i128>,
    last_absolute_ns: i128,
) -> (done: bool)
    requires
        first_absolute_ns matches Some(first) ==> i128::MIN <= last_absolute_ns - first
            <= i128::MAX,
    ensures
        done == alsa_bound_reached(*termination, clock_events, first_absolute_ns, last_absolute_ns),
{
    match termination {
        CaptureTermination::Ticks(target) => clock_events >= *target,
        CaptureTermination::DurationSeconds(seconds) => {
            let duration_ns = (*seconds as i128) * 1_000_000_000;
            match first_absolute_ns {
                Some(first) => duration_ns > 0 && last_absolute_ns - first >= duration_ns,
                None => false,
            }
        },
    }
}

/// The running state of an ALSA read loop: the Clock events recorded so far,
/// and the data timestamps of the first read that produced events and of the
/// last read.
#[derive(Debug, Clone, Copy, PartialEq, Eq, Structural)]
pub struct AlsaProgress {
    pub clock_events: u64,
    pub first_absolute_ns: Option<i128>,
    pub last_absolute_ns: i128,
}

impl AlsaProgress {
    /// No read yet.
    pub fn new() -> (progress: Self)
        ensures
            progress == (AlsaProgress { clock_events: 0, first_absolute_ns: None, last_absolute_ns: 0 }),
    {
        AlsaProgress { clock_events: 0, first_absolute_ns: None, last_absolute_ns: 0 }
    }

    /// Accounts for the read at `absolute_ns` after which `events` holds, from
    /// `before` on, the events that read recorded: their Clock events are
    /// counted, the read's timestamp becomes the first one once events exist,
    /// and it is always the last one.
    pub fn note_read(&mut self, events: &Vec<CapturedEvent>, before: usize, absolute_ns: i128)
        requires
            old(self).clock_events <= before <= events@.len(),
        ensures
            final(self).clock_events == old(self).clock_events + clock_count(
                events@.subrange(before as int, events@.len() as int).map_values(
                    |event: CapturedEvent| event.event,
                ),
            ),
            final(self).clock_events <= events@.len(),
            final(self).first_absolute_ns == (if old(self).first_absolute_ns is None
                && events@.len() > 0 {
                Some(absolute_ns)
            } else {
                old(self).first_absolute_ns
            }),
            final(self).last_absolute_ns == absolute_ns,
    {
        let found = clocks_since(events, before);
        let length = events.len() as u64;
        assert(self.clock_events + found <= length);
        self.clock_events = self.clock_events + found;
        if self.first_absolute_ns.is_none() && events.len() > 0 {
            self.first_absolute_ns = Some(absolute_ns);
        }
        self.last_absolute_ns = absolute_ns;
    }
}

/// The timestamp method text recorded for a clock.
pub open spec fn alsa_timestamp_method(clock: AlsaClock) -> Seq<char> {
    match clock {
        AlsaClock::MonotonicRaw => TIMESTAMP_METHOD_KERNEL@,
        AlsaClock::Userspace => TIMESTAMP_METHOD_USERSPACE@,
    }
}

/// `capture` is the v1 capture assembled from the ALSA `events` of a finished
/// run: normalized against the first event, with the source of `request`, the
/// clock's timestamp method, and no transitions.
pub open spec fn alsa_capture_assembled(
    capture: CaptureFile,
    events: Seq<CapturedEvent>,
    clock: AlsaClock,
    request: CaptureRequest,
    application_version: String,
    operating_system: String,
) -> bool {
    let epoch = alsa_absolute(events[0]).unwrap();
    &&& capture.format_version == CURRENT_FORMAT_VERSION
    &&& capture.backend@ == "alsa-raw"@
    &&& capture.source.identity@ == crate::backend::source_identity(request.source)
    &&& capture.source.display_name == request.source.display_name
    &&& capture.timestamp_method@ == alsa_timestamp_method(clock)
    &&& capture.ppqn == 24
    &&& capture.application_version == application_version
    &&& capture.environment.operating_system == operating_system
    &&& capture.environment.pipewire_version is None
    &&& capture.transitions@.len() == 0
    &&& capture.events@ == Seq::new(events.len(), |i: int| alsa_normalized(events[i], epoch))
}

/// Every event carries an ALSA timestamp.
pub open spec fn all_alsa(events: Seq<CapturedEvent>) -> bool {
    forall|i: int| 0 <= i < events.len() ==> alsa_absolute(#[trigger] events[i]) is Some
}

/// A finished ALSA run writes a capture that validation accepts, when its
/// events are numbered ALSA events (as `record_alsa_bytes` keeps them from an
/// empty buffer) and its source identity is not blank.
pub proof fn law_finished_alsa_capture_validates(
    capture: CaptureFile,
    events: Seq<CapturedEvent>,
    clock: AlsaClock,
    request: CaptureRequest,
    application_version: String,
    operating_system: String,
)
    requires
        events.len() > 0,
        all_alsa(events),
        numbered(events),
        !blank(crate::backend::source_identity(request.source)),
        alsa_capture_assembled(
            capture,
            events,
            clock,
            request,
            application_version,
            operating_system,
        ),
    ensures
        capture_fault(capture) is None,
{
    let written = capture.events@;
    assert forall|i: int| 0 <= i < written.len() implies (#[trigger] written[i]).sequence == i by {
        assert(events[i].sequence == i);
    }
    assert forall|i: int| 0 <= i < written.len() implies ((#[trigger] written[i]).timestamp_metadata matches TimestampMetadata::PipeWire(
        timestamp,
    ) ==> timestamp.rate_denom > 0) by {
        assert(alsa_absolute(events[i]) is Some);
    }
    lemma_numbered_events_are_sound(written, written.len());
}

/// Assembles the v1 capture of a finished ALSA run: no events is an error;
/// otherwise the events are normalized against the first one and stored with
/// the source, the clock's timestamp method, the application version and the
/// operating system.
pub fn finish_alsa_capture(
    events: Vec<CapturedEvent>,
    clock: AlsaClock,
    request: CaptureRequest,
    application_version: String,
    operating_system: String,
) -> (result: Result<CaptureFile, AppError>)
    ensures
        events@.len() == 0 ==> (result matches Err(error) && error is NoClockEvents),
        events@.len() > 0 && alsa_absolute(events@[0]) is None ==> (result matches Err(error)
            && error.is_invalid_capture("ALSA capture must carry ALSA timestamps"@)),
        events@.len() > 0 && alsa_absolute(events@[0]) is Some ==> {
            let epoch = alsa_absolute(events@[0]).unwrap();
            let stop = first_alsa_fault(events@, epoch, events@.len());
            &&& stop < events@.len() ==> (result matches Err(error) && (alsa_absolute(
                events@[stop as int],
            ) is None ==> error.is_invalid_capture("ALSA capture must carry ALSA timestamps"@)) && (
            alsa_absolute(events@[stop as int]) is Some ==> error is TimestampArithmeticOverflow))
            &&& stop == events@.len() ==> (result matches Ok(capture) && alsa_capture_assembled(
                capture,
                events@,
                clock,
                request,
                application_version,
                operating_system,
            ))
        },
{
    if events.len() == 0 {
        return Err(AppError::NoClockEvents);
    }
    let mut events = events;
    let ghost raw_events = events@;
    normalize_alsa_event_timestamps(events.as_mut_slice())?;
    assert(events@ =~= Seq::new(
        raw_events.len(),
        |i: int| alsa_normalized(raw_events[i], alsa_absolute(raw_events[0]).unwrap()),
    ));
    let identity = request.source.stable_identity();
    let timestamp_method = match clock {
        AlsaClock::MonotonicRaw => String::from_str(TIMESTAMP_METHOD_KERNEL),
        AlsaClock::Userspace => String::from_str(TIMESTAMP_METHOD_USERSPACE),
    };
    Ok(
        CaptureFile {
            format_version: CURRENT_FORMAT_VERSION,
            backend: String::from_str("alsa-raw"),
            source: SourceMetadata { identity, display_name: request.source.display_name },
            timestamp_method,
            ppqn: 24,
            application_version,
            environment: EnvironmentMetadata { operating_system, pipewire_version: None },
            transitions: Vec::new(),
            events,
        },
    )
}

} // verus!
