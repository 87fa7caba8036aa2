//! ALSA `CLOCK_MONOTONIC_RAW` timestamps and their normalization.
use vstd::prelude::*;

use crate::capture::{CapturedEvent, TimestampMetadata};
use crate::error::AppError;

verus! {

pub const NANOSECONDS_PER_SECOND: i128 = 1_000_000_000;

/// A `timespec` is in range: non-negative seconds, nanoseconds below one second.
pub open spec fn timespec_in_range(tv_sec: i64, tv_nsec: i64) -> bool {
    tv_sec >= 0 && 0 <= tv_nsec < 1_000_000_000
}

/// Converts an ALSA `CLOCK_MONOTONIC_RAW` timestamp to absolute nanoseconds.
pub fn alsa_absolute_ns(tv_sec: i64, tv_nsec: i64) -> (result: Result<i128, AppError>)
    ensures
        !timespec_in_range(tv_sec, tv_nsec) ==> (result matches Err(error)
            && error.is_invalid_capture("ALSA timestamp is out of range"@)),
        timespec_in_range(tv_sec, tv_nsec) ==> result == Ok::<i128, AppError>(
            (tv_sec * 1_000_000_000 + tv_nsec) as i128,
        ),
{
    if tv_sec < 0 || tv_nsec < 0 || tv_nsec >= NANOSECONDS_PER_SECOND as i64 {
        return Err(AppError::InvalidCapture("ALSA timestamp is out of range".to_owned()));
    }
    assert(0 <= tv_sec * 1_000_000_000 <= 0x7fff_ffff_ffff_ffff * 1_000_000_000) by (
    nonlinear_arith)
        requires
            0 <= tv_sec <= 0x7fff_ffff_ffff_ffff,
    ;
    Ok((tv_sec as i128) * NANOSECONDS_PER_SECOND + (tv_nsec as i128))
}

/// The absolute ALSA timestamp of an event, if it carries one.
pub open spec fn alsa_absolute(event: CapturedEvent) -> Option<i128> {
    match event.timestamp_metadata {
        TimestampMetadata::Alsa(timestamp) => Some(timestamp.absolute_ns),
        TimestampMetadata::PipeWire(_) => None,
    }
}

/// Event `i` cannot be normalized against `epoch`: it carries no ALSA
/// timestamp, or its offset from the epoch leaves `i128`.
pub open spec fn alsa_fault(events: Seq<CapturedEvent>, epoch: i128, i: int) -> bool {
    match alsa_absolute(events[i]) {
        Some(absolute) => !(i128::MIN <= absolute - epoch <= i128::MAX),
        None => true,
    }
}

/// Index of the first event among the first `count` that cannot be
/// normalized, or `count` when there is none.
pub open spec fn first_alsa_fault(events: Seq<CapturedEvent>, epoch: i128, count: nat) -> nat
    decreases count,
{
    if count == 0 {
        0
    } else {
        let earlier = first_alsa_fault(events, epoch, (count - 1) as nat);
        if earlier < count - 1 {
            earlier
        } else if alsa_fault(events, epoch, count - 1) {
            (count - 1) as nat
        } else {
            count
        }
    }
}

/// `event` with its timestamp measured from `epoch`.
pub open spec fn alsa_normalized(event: CapturedEvent, epoch: i128) -> CapturedEvent {
    CapturedEvent { timestamp_ns: (alsa_absolute(event).unwrap() - epoch) as i128, ..event }
}

/// What normalizing `raw_events` (whose first event carries an ALSA epoch)
/// leaves behind: the events before the first faulty one rewritten, the rest
/// unchanged, and `Ok` exactly when no event is faulty.
pub open spec fn alsa_outcome(
    raw_events: Seq<CapturedEvent>,
    after: Seq<CapturedEvent>,
    result: Result<(), AppError>,
) -> bool {
    let epoch = alsa_absolute(raw_events[0]).unwrap();
    let stop = first_alsa_fault(raw_events, epoch, raw_events.len());
    &&& after.len() == raw_events.len()
    &&& forall|i: int| 0 <= i < stop ==> #[trigger] after[i] == alsa_normalized(raw_events[i], epoch)
    &&& forall|i: int| stop <= i < raw_events.len() ==> #[trigger] after[i] == raw_events[i]
    &&& result is Ok <==> stop == raw_events.len()
    &&& result is Err && alsa_absolute(raw_events[stop as int]) is None ==> result->Err_0.is_invalid_capture(
        "ALSA capture must carry ALSA timestamps"@,
    )
    &&& result is Err && alsa_absolute(raw_events[stop as int]) is Some ==> result->Err_0 is TimestampArithmeticOverflow
}

proof fn lemma_first_alsa_fault_bounds(events: Seq<CapturedEvent>, epoch: i128, count: nat)
    ensures
        first_alsa_fault(events, epoch, count) <= count,
        first_alsa_fault(events, epoch, count) < count ==> alsa_fault(
            events,
            epoch,
            first_alsa_fault(events, epoch, count) as int,
        ),
        forall|i: int|
            0 <= i < first_alsa_fault(events, epoch, count) ==> !alsa_fault(events, epoch, i),
    decreases count,
{
    if count > 0 {
        lemma_first_alsa_fault_bounds(events, epoch, (count - 1) as nat);
    }
}

proof fn lemma_first_alsa_fault_settles(
    events: Seq<CapturedEvent>,
    epoch: i128,
    found: nat,
    count: nat,
)
    requires
        found <= count,
        first_alsa_fault(events, epoch, found) < found,
    ensures
        first_alsa_fault(events, epoch, count) == first_alsa_fault(events, epoch, found),
    decreases count,
{
    if count > found {
        lemma_first_alsa_fault_settles(events, epoch, found, (count - 1) as nat);
    }
}

/// Normalizes ALSA event timestamps against the first captured event.
///
/// The first event's absolute `CLOCK_MONOTONIC_RAW` timestamp is the sole
/// epoch selection point. Raw absolute timestamps stay on each event. Events
/// are rewritten in order; when one cannot be normalized, those before it have
/// already been rewritten and it and those after it are unchanged.
pub fn normalize_alsa_event_timestamps(events: &mut [CapturedEvent]) -> (result: Result<
    (),
    AppError,
>)
    ensures
        old(events)@.len() == 0 ==> {
            &&& result matches Err(error) && error.is_invalid_capture(
                "cannot normalize an empty ALSA capture"@,
            )
            &&& final(events)@ == old(events)@
        },
        old(events)@.len() > 0 && alsa_absolute(old(events)@[0]) is None ==> {
            &&& result matches Err(error) && error.is_invalid_capture(
                "ALSA capture must carry ALSA timestamps"@,
            )
            &&& final(events)@ == old(events)@
        },
        old(events)@.len() > 0 && alsa_absolute(old(events)@[0]) is Some ==> alsa_outcome(
            old(events)@,
            final(events)@,
            result,
        ),
{
    if events.len() == 0 {
        return Err(AppError::InvalidCapture("cannot normalize an empty ALSA capture".to_owned()));
    }
    let first_absolute_ns = match &events[0].timestamp_metadata {
        TimestampMetadata::Alsa(timestamp) => timestamp.absolute_ns,
        TimestampMetadata::PipeWire(_) => {
            return Err(
                AppError::InvalidCapture("ALSA capture must carry ALSA timestamps".to_owned()),
            );
        },
    };
    let ghost raw_events = old(events)@;
    let mut index: usize = 0;
    while index < events.len()
        invariant
            raw_events == old(events)@,
            events@.len() == raw_events.len(),
            index <= raw_events.len(),
            alsa_absolute(raw_events[0]) == Some(first_absolute_ns),
            first_alsa_fault(raw_events, first_absolute_ns, index as nat) == index,
            forall|i: int|
                0 <= i < index ==> #[trigger] events@[i] == alsa_normalized(
                    raw_events[i],
                    first_absolute_ns,
                ),
            forall|i: int| index <= i < raw_events.len() ==> #[trigger] events@[i] == raw_events[i],
        decreases raw_events.len() - index,
    {
        let ghost at = index as nat;
        proof {
            lemma_first_alsa_fault_bounds(raw_events, first_absolute_ns, (at + 1) as nat);
            if alsa_fault(raw_events, first_absolute_ns, index as int) {
                lemma_first_alsa_fault_settles(
                    raw_events,
                    first_absolute_ns,
                    (at + 1) as nat,
                    raw_events.len(),
                );
            }
        }
        let absolute_ns = match &events[index].timestamp_metadata {
            TimestampMetadata::Alsa(timestamp) => timestamp.absolute_ns,
            TimestampMetadata::PipeWire(_) => {
                return Err(
                    AppError::InvalidCapture("ALSA capture must carry ALSA timestamps".to_owned()),
                );
            },
        };
        let relative = match absolute_ns.checked_sub(first_absolute_ns) {
            Some(relative) => relative,
            None => {
                return Err(AppError::TimestampArithmeticOverflow);
            },
        };
        let mut event = events[index].clone();
        event.timestamp_ns = relative;
        events[index] = event;
        index = index + 1;
    }
    Ok(())
}

} // verus!
