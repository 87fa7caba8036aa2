//! PipeWire graph positions and their conversion to nanoseconds.
use vstd::prelude::*;

use crate::capture::format::{graph_span_ns, span_ns};
use crate::capture::{CapturedEvent, TimestampMetadata};
use crate::error::AppError;

verus! {

/// Combines PipeWire's absolute graph cycle position and the event's offset
/// within that cycle without losing sample precision.
pub fn pipewire_event_position(cycle_position: i64, offset: u32) -> (result: Result<
    i64,
    AppError,
>)
    ensures
        cycle_position + offset <= i64::MAX ==> result == Ok::<i64, AppError>(
            (cycle_position + offset) as i64,
        ),
        cycle_position + offset > i64::MAX ==> (result matches Err(error)
            && error is TimestampArithmeticOverflow),
{
    match cycle_position.checked_add(offset as i64) {
        Some(position) => Ok(position),
        None => Err(AppError::TimestampArithmeticOverflow),
    }
}

/// Converts a graph position to nanoseconds relative to the first captured
/// event, using PipeWire's unmodified rational seconds-per-sample rate.
pub fn relative_ns(position: i64, first_position: i64, rate_num: u32, rate_denom: u32) -> (result:
    Result<i128, AppError>)
    ensures
        rate_denom == 0 ==> (result matches Err(error) && error.is_invalid_capture(
            "PipeWire rate denominator must be positive"@,
        )),
        rate_denom > 0 ==> result == Ok::<i128, AppError>(
            graph_span_ns(position - first_position, rate_num as int, rate_denom as int) as i128,
        ),
{
    if rate_denom == 0 {
        return Err(
            AppError::InvalidCapture("PipeWire rate denominator must be positive".to_owned()),
        );
    }
    let delta = (position as i128) - (first_position as i128);
    Ok(span_ns(delta, rate_num, rate_denom))
}

/// The graph position of an event, if it carries PipeWire timing.
pub open spec fn pipewire_position(event: CapturedEvent) -> Option<i64> {
    match event.timestamp_metadata {
        TimestampMetadata::PipeWire(timestamp) => Some(timestamp.event_position),
        TimestampMetadata::Alsa(_) => None,
    }
}

/// Event `i` cannot be normalized: it carries no PipeWire timing, or a zero
/// rate denominator.
pub open spec fn pipewire_fault(events: Seq<CapturedEvent>, i: int) -> bool {
    match events[i].timestamp_metadata {
        TimestampMetadata::PipeWire(timestamp) => timestamp.rate_denom == 0,
        TimestampMetadata::Alsa(_) => true,
    }
}

/// Index of the first event among the first `count` that cannot be
/// normalized, or `count` when there is none.
pub open spec fn first_pipewire_fault(events: Seq<CapturedEvent>, count: nat) -> nat
    decreases count,
{
    if count == 0 {
        0
    } else {
        let earlier = first_pipewire_fault(events, (count - 1) as nat);
        if earlier < count - 1 {
            earlier
        } else if pipewire_fault(events, count - 1) {
            (count - 1) as nat
        } else {
            count
        }
    }
}

/// `event` with its timestamp measured in nanoseconds from graph position `epoch`.
pub open spec fn pipewire_normalized(event: CapturedEvent, epoch: i64) -> CapturedEvent {
    let timestamp = event.timestamp_metadata->PipeWire_0;
    CapturedEvent {
        timestamp_ns: graph_span_ns(
            timestamp.event_position - epoch,
            timestamp.rate_num as int,
            timestamp.rate_denom as int,
        ) as i128,
        ..event
    }
}

/// What normalizing `raw_events` (whose first event carries PipeWire timing)
/// leaves behind: the events before the first faulty one rewritten, the rest
/// unchanged, and `Ok` exactly when no event is faulty.
pub open spec fn pipewire_outcome(
    raw_events: Seq<CapturedEvent>,
    after: Seq<CapturedEvent>,
    result: Result<(), AppError>,
) -> bool {
    let epoch = pipewire_position(raw_events[0]).unwrap();
    let stop = first_pipewire_fault(raw_events, raw_events.len());
    &&& after.len() == raw_events.len()
    &&& forall|i: int|
        0 <= i < stop ==> #[trigger] after[i] == pipewire_normalized(raw_events[i], epoch)
    &&& forall|i: int| stop <= i < raw_events.len() ==> #[trigger] after[i] == raw_events[i]
    &&& result is Ok <==> stop == raw_events.len()
    &&& result is Err && pipewire_position(raw_events[stop as int]) is None
        ==> result->Err_0.is_invalid_capture("PipeWire capture must carry PipeWire timestamps"@)
    &&& result is Err && pipewire_position(raw_events[stop as int]) is Some
        ==> result->Err_0.is_invalid_capture("PipeWire rate denominator must be positive"@)
}

proof fn lemma_first_pipewire_fault_bounds(events: Seq<CapturedEvent>, count: nat)
    ensures
        first_pipewire_fault(events, count) <= count,
        first_pipewire_fault(events, count) < count ==> pipewire_fault(
            events,
            first_pipewire_fault(events, count) as int,
        ),
        forall|i: int| 0 <= i < first_pipewire_fault(events, count) ==> !pipewire_fault(events, i),
    decreases count,
{
    if count > 0 {
        lemma_first_pipewire_fault_bounds(events, (count - 1) as nat);
    }
}

proof fn lemma_first_pipewire_fault_settles(events: Seq<CapturedEvent>, found: nat, count: nat)
    requires
        found <= count,
        first_pipewire_fault(events, found) < found,
    ensures
        first_pipewire_fault(events, count) == first_pipewire_fault(events, found),
    decreases count,
{
    if count > found {
        lemma_first_pipewire_fault_settles(events, found, (count - 1) as nat);
    }
}

/// Normalizes PipeWire event timestamps against the first captured event.
///
/// The first event's graph position is the sole epoch; every event's
/// timestamp becomes the nanoseconds from it at the event's own graph rate.
/// Raw graph positions stay on each event. Events are rewritten in order;
/// when one cannot be normalized, those before it have already been
/// rewritten and it and those after it are unchanged.
pub fn normalize_pipewire_event_timestamps(events: &mut [CapturedEvent]) -> (result: Result<
    (),
    AppError,
>)
    ensures
        old(events)@.len() == 0 ==> {
            &&& result matches Err(error) && error.is_invalid_capture(
                "cannot normalize an empty PipeWire capture"@,
            )
            &&& final(events)@ == old(events)@
        },
        old(events)@.len() > 0 && pipewire_position(old(events)@[0]) is None ==> {
            &&& result matches Err(error) && error.is_invalid_capture(
                "PipeWire capture must carry PipeWire timestamps"@,
            )
            &&& final(events)@ == old(events)@
        },
        old(events)@.len() > 0 && pipewire_position(old(events)@[0]) is Some ==> pipewire_outcome(
            old(events)@,
            final(events)@,
            result,
        ),
{
    if events.len() == 0 {
        return Err(
            AppError::InvalidCapture("cannot normalize an empty PipeWire capture".to_owned()),
        );
    }
    let first_position = match &events[0].timestamp_metadata {
        TimestampMetadata::PipeWire(timestamp) => timestamp.event_position,
        TimestampMetadata::Alsa(_) => {
            return Err(
                AppError::InvalidCapture(
                    "PipeWire capture must carry PipeWire timestamps".to_owned(),
                ),
            );
        },
    };
    let ghost raw_events = old(events)@;
    let mut index: usize = 0;
    while index < events.len()
        invariant
            raw_events == old(events)@,
            events@.len() == raw_events.len(),
            index <= raw_events.len(),
            pipewire_position(raw_events[0]) == Some(first_position),
            first_pipewire_fault(raw_events, index as nat) == index,
            forall|i: int|
                0 <= i < index ==> #[trigger] events@[i] == pipewire_normalized(
                    raw_events[i],
                    first_position,
                ),
            forall|i: int| index <= i < raw_events.len() ==> #[trigger] events@[i] == raw_events[i],
        decreases raw_events.len() - index,
    {
        let ghost at = index as nat;
        proof {
            lemma_first_pipewire_fault_bounds(raw_events, (at + 1) as nat);
            if pipewire_fault(raw_events, index as int) {
                lemma_first_pipewire_fault_settles(raw_events, (at + 1) as nat, raw_events.len());
            }
        }
        let timestamp = match &events[index].timestamp_metadata {
            TimestampMetadata::PipeWire(timestamp) => *timestamp,
            TimestampMetadata::Alsa(_) => {
                return Err(
                    AppError::InvalidCapture(
                        "PipeWire capture must carry PipeWire timestamps".to_owned(),
                    ),
                );
            },
        };
        let relative = relative_ns(
            timestamp.event_position,
            first_position,
            timestamp.rate_num,
            timestamp.rate_denom,
        )?;
        let mut event = events[index].clone();
        event.timestamp_ns = relative;
        events[index] = event;
        index = index + 1;
    }
    Ok(())
}

} // verus!
