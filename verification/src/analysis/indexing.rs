//! Placing Clock events on the tick grid: the per-event classification step,
//! the startup anchor search, and the integer summaries of an indexed capture.
use vstd::prelude::*;

use crate::capture::{CaptureFile, CapturedEvent, MidiEvent};
use crate::error::AppError;

use super::order::{ascending, sort_ascending};

verus! {

/// How an event takes part in the analysis.
#[derive(Debug, Clone, Copy, PartialEq, Eq, Structural)]
pub enum EventDisposition {
    Valid,
    StartupTransient,
    Duplicate,
    Anomalous,
}

/// How the interval ending at an event relates to the tick grid.
#[derive(Debug, Clone, Copy, PartialEq, Eq, Structural)]
pub enum IntervalDisposition {
    Normal,
    Missing { count: u32 },
    Anomalous,
}

/// A Clock event placed on the tick grid.
#[derive(Debug, Clone, Copy, PartialEq, Eq, Structural)]
pub struct IndexedEvent {
    pub sequence: u64,
    pub timestamp_ns: i128,
    pub tick_index: i64,
    pub step: i64,
    pub disposition: EventDisposition,
    pub interval_disposition: IntervalDisposition,
    pub missing_before: u32,
}

/// The classifier's memory between events: the previous event's time, and
/// the time and tick of the last event placed on the grid.
#[derive(Debug, Clone, Copy, PartialEq, Eq, Structural)]
pub struct Classifier {
    pub previous_ns: i128,
    pub last_included_ns: i128,
    pub last_included_tick: i64,
}

/// The row of the first live event: tick zero, one normal step.
pub open spec fn anchor_row(event: CapturedEvent) -> IndexedEvent {
    IndexedEvent {
        sequence: event.sequence,
        timestamp_ns: event.timestamp_ns,
        tick_index: 0,
        step: 1,
        disposition: EventDisposition::Valid,
        interval_disposition: IntervalDisposition::Normal,
        missing_before: 0,
    }
}

/// The row of an event kept as a startup transient.
pub open spec fn transient_row(event: CapturedEvent) -> IndexedEvent {
    IndexedEvent {
        sequence: event.sequence,
        timestamp_ns: event.timestamp_ns,
        tick_index: 0,
        step: 0,
        disposition: EventDisposition::StartupTransient,
        interval_disposition: IntervalDisposition::Normal,
        missing_before: 0,
    }
}

/// The classifier may step over an event at `timestamp_ns` measured as
/// `rounded` ticks without leaving `i128` or `i64`.
pub open spec fn step_fits(state: Classifier, timestamp_ns: i128, rounded: i64) -> bool {
    &&& i128::MIN <= timestamp_ns - state.previous_ns <= i128::MAX
    &&& state.last_included_tick + 1 <= i64::MAX
    &&& rounded >= 1 ==> state.last_included_tick + rounded <= i64::MAX
}

/// Classifies one event. `rounded` is the interval since the last grid event
/// divided by the period, rounded to the nearest integer; `within_tolerance`
/// says that ratio lies within the tolerance of `rounded`. An event no later
/// than the previous one is a duplicate; an interval of one period is
/// normal; several periods mark missing ticks; anything else is anomalous.
/// Only normal and missing-tick events move the grid.
pub open spec fn classify_step(
    state: Classifier,
    event: CapturedEvent,
    rounded: i64,
    within_tolerance: bool,
) -> (Classifier, IndexedEvent) {
    let duplicate = event.timestamp_ns - state.previous_ns <= 0;
    let missing = rounded >= 2 && within_tolerance;
    let normal = rounded == 1 && within_tolerance;
    let included = !duplicate && (missing || normal);
    let anomalous = !duplicate && !included;
    let step: i64 = if included { rounded } else { 0 };
    let tick_index: i64 = if included {
        (state.last_included_tick + step) as i64
    } else if anomalous {
        (state.last_included_tick + 1) as i64
    } else {
        state.last_included_tick
    };
    let row = IndexedEvent {
        sequence: event.sequence,
        timestamp_ns: event.timestamp_ns,
        tick_index,
        step,
        disposition: if duplicate {
            EventDisposition::Duplicate
        } else if included {
            EventDisposition::Valid
        } else {
            EventDisposition::Anomalous
        },
        interval_disposition: if duplicate {
            IntervalDisposition::Anomalous
        } else if missing {
            IntervalDisposition::Missing { count: (rounded - 1) as u32 }
        } else if normal {
            IntervalDisposition::Normal
        } else {
            IntervalDisposition::Anomalous
        },
        missing_before: if missing { (rounded - 1) as u32 } else { 0 },
    };
    let next = if included {
        Classifier {
            previous_ns: event.timestamp_ns,
            last_included_ns: event.timestamp_ns,
            last_included_tick: tick_index,
        }
    } else {
        Classifier { previous_ns: event.timestamp_ns, ..state }
    };
    (next, row)
}

impl Classifier {
    /// Starts the grid at `first`, which becomes tick zero.
    pub fn start(first: &CapturedEvent) -> (started: (Classifier, IndexedEvent))
        ensures
            started.0 == (Classifier {
                previous_ns: first.timestamp_ns,
                last_included_ns: first.timestamp_ns,
                last_included_tick: 0,
            }),
            started.1 == anchor_row(*first),
    {
        (
            Classifier {
                previous_ns: first.timestamp_ns,
                last_included_ns: first.timestamp_ns,
                last_included_tick: 0,
            },
            IndexedEvent {
                sequence: first.sequence,
                timestamp_ns: first.timestamp_ns,
                tick_index: 0,
                step: 1,
                disposition: EventDisposition::Valid,
                interval_disposition: IntervalDisposition::Normal,
                missing_before: 0,
            },
        )
    }

    /// The interval from the last grid event to `timestamp_ns`, which the
    /// caller divides by the period to measure `rounded`.
    pub fn interval_since_included(&self, timestamp_ns: i128) -> (interval: i128)
        requires
            i128::MIN <= timestamp_ns - self.last_included_ns <= i128::MAX,
        ensures
            interval == timestamp_ns - self.last_included_ns,
    {
        timestamp_ns - self.last_included_ns
    }

    /// Classifies `event` and advances the classifier, as `classify_step` says.
    pub fn classify(&mut self, event: &CapturedEvent, rounded: i64, within_tolerance: bool) -> (row:
        IndexedEvent)
        requires
            step_fits(*old(self), event.timestamp_ns, rounded),
        ensures
            (*final(self), row) == classify_step(*old(self), *event, rounded, within_tolerance),
    {
        let duplicate = event.timestamp_ns - self.previous_ns <= 0;
        let missing = rounded >= 2 && within_tolerance;
        let normal = rounded == 1 && within_tolerance;
        let included = !duplicate && (missing || normal);
        let anomalous = !duplicate && !included;
        let step: i64 = if included { rounded } else { 0 };
        let tick_index: i64 = if included {
            self.last_included_tick + step
        } else if anomalous {
            self.last_included_tick + 1
        } else {
            self.last_included_tick
        };
        let disposition = if duplicate {
            EventDisposition::Duplicate
        } else if included {
            EventDisposition::Valid
        } else {
            EventDisposition::Anomalous
        };
        let interval_disposition = if duplicate {
            IntervalDisposition::Anomalous
        } else if missing {
            IntervalDisposition::Missing { count: (rounded - 1) as u32 }
        } else if normal {
            IntervalDisposition::Normal
        } else {
            IntervalDisposition::Anomalous
        };
        let missing_before: u32 = if missing { (rounded - 1) as u32 } else { 0 };
        if included {
            self.last_included_ns = event.timestamp_ns;
            self.last_included_tick = tick_index;
        }
        self.previous_ns = event.timestamp_ns;
        IndexedEvent {
            sequence: event.sequence,
            timestamp_ns: event.timestamp_ns,
            tick_index,
            step,
            disposition,
            interval_disposition,
            missing_before,
        }
    }
}

/// The row of `event` kept as a startup transient, before the live anchor.
pub fn startup_transient(event: &CapturedEvent) -> (row: IndexedEvent)
    ensures
        row == transient_row(*event),
{
    IndexedEvent {
        sequence: event.sequence,
        timestamp_ns: event.timestamp_ns,
        tick_index: 0,
        step: 0,
        disposition: EventDisposition::StartupTransient,
        interval_disposition: IntervalDisposition::Normal,
        missing_before: 0,
    }
}

/// A grid event keeps the grid moving forward: it lands strictly after the
/// last grid tick, by exactly the measured number of periods, and becomes the
/// new reference for the next interval.
pub proof fn law_grid_events_advance(
    state: Classifier,
    event: CapturedEvent,
    rounded: i64,
    within_tolerance: bool,
)
    requires
        step_fits(state, event.timestamp_ns, rounded),
    ensures
        ({
            let (next, row) = classify_step(state, event, rounded, within_tolerance);
            row.disposition == EventDisposition::Valid ==> {
                &&& row.tick_index == state.last_included_tick + rounded
                &&& row.tick_index > state.last_included_tick
                &&& row.missing_before == (rounded - 1) as u32
                &&& next.last_included_tick == row.tick_index
                &&& next.last_included_ns == event.timestamp_ns
            }
        }),
{
}

/// An anomalous or duplicate event does not move the grid: the next event is
/// measured from, and counted on from, the same last grid event as if the
/// rejected event had never arrived, so it gets the same tick index.
pub proof fn law_rejected_events_do_not_shift_the_grid(
    state: Classifier,
    rejected: CapturedEvent,
    rejected_rounded: i64,
    rejected_within: bool,
    next_event: CapturedEvent,
    rounded: i64,
    within_tolerance: bool,
)
    requires
        step_fits(state, rejected.timestamp_ns, rejected_rounded),
        classify_step(state, rejected, rejected_rounded, rejected_within).1.disposition
            != EventDisposition::Valid,
        next_event.timestamp_ns > rejected.timestamp_ns,
        next_event.timestamp_ns > state.previous_ns,
    ensures
        ({
            let after_rejected = classify_step(state, rejected, rejected_rounded, rejected_within).0;
            &&& after_rejected.last_included_ns == state.last_included_ns
            &&& after_rejected.last_included_tick == state.last_included_tick
            &&& classify_step(after_rejected, next_event, rounded, within_tolerance).1
                == classify_step(state, next_event, rounded, within_tolerance).1
        }),
{
}

/// An event goes on the grid exactly when it comes after the previous event
/// and its interval lies within tolerance of a whole, positive number of
/// periods. An event out of tolerance never goes on it: it is a duplicate or
/// an anomaly, takes no step, and leaves the last grid event where it was.
pub proof fn law_only_events_within_tolerance_join_the_grid(
    state: Classifier,
    event: CapturedEvent,
    rounded: i64,
    within_tolerance: bool,
)
    requires
        step_fits(state, event.timestamp_ns, rounded),
    ensures
        ({
            let (next, row) = classify_step(state, event, rounded, within_tolerance);
            &&& row.disposition == EventDisposition::Valid <==> (event.timestamp_ns
                > state.previous_ns && within_tolerance && rounded >= 1)
            &&& !within_tolerance ==> {
                &&& row.disposition == EventDisposition::Duplicate || row.disposition
                    == EventDisposition::Anomalous
                &&& row.step == 0
                &&& row.interval_disposition == IntervalDisposition::Anomalous
                &&& next.last_included_ns == state.last_included_ns
                &&& next.last_included_tick == state.last_included_tick
            }
        }),
{
}

/// The per-pass signature that the refit loop compares to detect convergence.
pub fn signature(rows: &Vec<IndexedEvent>) -> (signature: Vec<
    (i64, EventDisposition, IntervalDisposition, u32),
>)
    ensures
        signature@ == rows@.map_values(
            |row: IndexedEvent|
                (row.step, row.disposition, row.interval_disposition, row.missing_before),
        ),
{
    let mut signature = Vec::new();
    let mut index: usize = 0;
    while index < rows.len()
        invariant
            index <= rows@.len(),
            signature@ == rows@.take(index as int).map_values(
                |row: IndexedEvent|
                    (row.step, row.disposition, row.interval_disposition, row.missing_before),
            ),
        decreases rows@.len() - index,
    {
        let row = rows[index];
        signature.push((row.step, row.disposition, row.interval_disposition, row.missing_before));
        assert(rows@.take(index + 1) =~= rows@.take(index as int).push(row));
        index = index + 1;
    }
    assert(rows@.take(rows@.len() as int) =~= rows@);
    signature
}

/// A grid event with a normal one-period step exists.
pub open spec fn has_normal_step_spec(rows: Seq<IndexedEvent>) -> bool {
    exists|i: int|
        0 <= i < rows.len() && (#[trigger] rows[i]).disposition == EventDisposition::Valid
            && rows[i].step == 1
}

/// Whether some grid event was reached by a normal one-period step.
pub fn has_normal_step(rows: &Vec<IndexedEvent>) -> (found: bool)
    ensures
        found == has_normal_step_spec(rows@),
{
    let mut index: usize = 0;
    while index < rows.len()
        invariant
            index <= rows@.len(),
            forall|i: int|
                0 <= i < index ==> !((#[trigger] rows@[i]).disposition == EventDisposition::Valid
                    && rows@[i].step == 1),
        decreases rows@.len() - index,
    {
        if rows[index].disposition == EventDisposition::Valid && rows[index].step == 1 {
            return true;
        }
        index = index + 1;
    }
    false
}

/// A row counts toward phase statistics.
pub open spec fn clean_phase(row: IndexedEvent) -> bool {
    row.disposition == EventDisposition::Valid
}

/// A pair of rows forms a normal one-tick interval for period statistics.
pub open spec fn clean_period(previous: IndexedEvent, current: IndexedEvent) -> bool {
    clean_phase(previous) && clean_phase(current) && current.tick_index == previous.tick_index + 1
        && current.interval_disposition == IntervalDisposition::Normal
}

/// Whether `row` counts toward phase statistics.
pub fn is_clean_phase(row: &IndexedEvent) -> (clean: bool)
    ensures
        clean == clean_phase(*row),
{
    row.disposition == EventDisposition::Valid
}

/// Whether `previous` and `current` form a normal one-tick interval.
pub fn is_clean_period(previous: &IndexedEvent, current: &IndexedEvent) -> (clean: bool)
    requires
        previous.tick_index < i64::MAX,
    ensures
        clean == clean_period(*previous, *current),
{
    is_clean_phase(previous) && is_clean_phase(current) && current.tick_index
        == previous.tick_index + 1 && current.interval_disposition == IntervalDisposition::Normal
}

/// The earliest time a live anchor may have: the first event's time plus the
/// settle window (negative windows count as zero), saturating at `i128::MAX`.
pub open spec fn settle_boundary(start_ns: i128, settle_ns: i128) -> i128 {
    if settle_ns <= 0 {
        start_ns
    } else if start_ns + settle_ns > i128::MAX {
        i128::MAX
    } else {
        (start_ns + settle_ns) as i128
    }
}

/// Event `index` can be the live anchor: it is not before `boundary`, and the
/// `cadence` intervals that follow it all exist and are plausible one-tick
/// intervals (`plausible[k]` judges the interval from event `k` to `k + 1`).
pub open spec fn anchor_candidate(
    timestamps: Seq<i128>,
    plausible: Seq<bool>,
    cadence: int,
    boundary: i128,
    index: int,
) -> bool {
    &&& timestamps[index] >= boundary
    &&& index + cadence < timestamps.len()
    &&& forall|k: int| index <= k < index + cadence ==> #[trigger] plausible[k]
}

/// Finds the first event of the first confirmed run of `startup_cadence`
/// plausible one-tick intervals that starts no earlier than the settle window
/// after the first event. A cadence of zero confirms nothing, so the anchor is
/// the first event at or after the settle boundary; no candidate (or no
/// event) gives `None`.
pub fn find_live_anchor(
    timestamps: &Vec<i128>,
    plausible: &Vec<bool>,
    startup_cadence: usize,
    settle_ns: i128,
) -> (anchor: Option<usize>)
    requires
        timestamps@.len() == 0 || plausible@.len() + 1 == timestamps@.len(),
    ensures
        timestamps@.len() == 0 ==> anchor is None,
        timestamps@.len() > 0 ==> {
            let boundary = settle_boundary(timestamps@[0], settle_ns);
            &&& anchor matches Some(index) ==> anchor_candidate(
                timestamps@,
                plausible@,
                startup_cadence as int,
                boundary,
                index as int,
            ) && forall|earlier: int|
                0 <= earlier < index ==> !anchor_candidate(
                    timestamps@,
                    plausible@,
                    startup_cadence as int,
                    boundary,
                    earlier,
                )
            &&& anchor is None ==> forall|index: int|
                0 <= index < timestamps@.len() ==> !anchor_candidate(
                    timestamps@,
                    plausible@,
                    startup_cadence as int,
                    boundary,
                    index,
                )
        },
{
    if timestamps.len() == 0 {
        return None;
    }
    let start_ns = timestamps[0];
    let boundary = if settle_ns <= 0 {
        start_ns
    } else if start_ns > i128::MAX - settle_ns {
        i128::MAX
    } else {
        start_ns + settle_ns
    };
    let ghost cadence = startup_cadence as int;
    let mut index: usize = 0;
    while index < timestamps.len()
        invariant
            index <= timestamps@.len(),
            plausible@.len() + 1 == timestamps@.len(),
            cadence == startup_cadence,
            boundary == settle_boundary(timestamps@[0], settle_ns),
            forall|earlier: int|
                0 <= earlier < index ==> !anchor_candidate(
                    timestamps@,
                    plausible@,
                    cadence,
                    boundary,
                    earlier,
                ),
        decreases timestamps@.len() - index,
    {
        if timestamps[index] >= boundary && startup_cadence < timestamps.len() - index {
            let end = index + startup_cadence;
            let mut offset = index;
            while offset < end && plausible[offset]
                invariant
                    index <= offset <= end,
                    end == index + startup_cadence,
                    end < timestamps@.len(),
                    plausible@.len() + 1 == timestamps@.len(),
                    forall|k: int| index <= k < offset ==> #[trigger] plausible@[k],
                decreases end - offset,
            {
                offset = offset + 1;
            }
            if offset == end {
                return Some(index);
            }
            assert(!plausible@[offset as int]);
        }
        index = index + 1;
    }
    None
}

/// The positive intervals between consecutive timestamps, in order.
pub open spec fn positive_intervals_spec(timestamps: Seq<i128>) -> Seq<i128>
    decreases timestamps.len(),
{
    if timestamps.len() < 2 {
        Seq::empty()
    } else {
        let earlier = positive_intervals_spec(timestamps.drop_last());
        let interval = timestamps.last() - timestamps[timestamps.len() - 2];
        if interval > 0 {
            earlier.push(interval as i128)
        } else {
            earlier
        }
    }
}

/// Consecutive timestamps differ by an amount that fits `i128`.
pub open spec fn steps_fit(timestamps: Seq<i128>) -> bool {
    forall|i: int|
        0 < i < timestamps.len() ==> i128::MIN <= #[trigger] timestamps[i] - timestamps[i - 1]
            <= i128::MAX
}

/// The positive intervals between consecutive Clock timestamps, ascending;
/// their median is the startup period estimate. No positive interval at all is
/// an error.
pub fn positive_intervals(timestamps: &Vec<i128>) -> (result: Result<Vec<i128>, AppError>)
    requires
        steps_fit(timestamps@),
    ensures
        positive_intervals_spec(timestamps@).len() == 0 ==> (result matches Err(error)
            && error.is_invalid_capture("clock analysis requires increasing Clock timestamps"@)),
        positive_intervals_spec(timestamps@).len() > 0 ==> (result matches Ok(sorted)
            && sorted@ == ascending(positive_intervals_spec(timestamps@))),
{
    let mut intervals: Vec<i128> = Vec::new();
    let mut index: usize = 1;
    if timestamps.len() < 2 {
        return Err(
            AppError::InvalidCapture(
                "clock analysis requires increasing Clock timestamps".to_owned(),
            ),
        );
    }
    while index < timestamps.len()
        invariant
            1 <= index <= timestamps@.len(),
            steps_fit(timestamps@),
            intervals@ == positive_intervals_spec(timestamps@.take(index as int)),
        decreases timestamps@.len() - index,
    {
        let interval = timestamps[index] - timestamps[index - 1];
        assert(timestamps@.take(index + 1).drop_last() =~= timestamps@.take(index as int));
        if interval > 0 {
            intervals.push(interval);
        }
        index = index + 1;
    }
    assert(timestamps@.take(timestamps@.len() as int) =~= timestamps@);
    if intervals.len() == 0 {
        return Err(
            AppError::InvalidCapture(
                "clock analysis requires increasing Clock timestamps".to_owned(),
            ),
        );
    }
    Ok(sort_ascending(&intervals))
}

/// The Clock events of a capture, in order.
pub open spec fn clock_events_spec(events: Seq<CapturedEvent>) -> Seq<CapturedEvent>
    decreases events.len(),
{
    if events.len() == 0 {
        Seq::empty()
    } else {
        let earlier = clock_events_spec(events.drop_last());
        if events.last().event == MidiEvent::Clock {
            earlier.push(events.last())
        } else {
            earlier
        }
    }
}

/// The Clock events that a single-stream analysis works on. Captures with
/// graph transitions are refused, and so are captures with fewer than two
/// Clock events.
pub fn analysis_clock_events(capture: &CaptureFile) -> (result: Result<Vec<CapturedEvent>, AppError>)
    ensures
        capture.transitions@.len() > 0 ==> (result matches Err(error)
            && error is GraphRateTransitionUnsupported),
        capture.transitions@.len() == 0 && clock_events_spec(capture.events@).len() < 2 ==> (
        result matches Err(error) && error.is_invalid_capture(
            "clock analysis requires at least two Clock events"@,
        )),
        capture.transitions@.len() == 0 && clock_events_spec(capture.events@).len() >= 2 ==> (
        result matches Ok(events) && events@ == clock_events_spec(capture.events@)),
{
    if capture.transitions.len() > 0 {
        return Err(AppError::GraphRateTransitionUnsupported);
    }
    let mut clocks: Vec<CapturedEvent> = Vec::new();
    let mut index: usize = 0;
    while index < capture.events.len()
        invariant
            index <= capture.events@.len(),
            clocks@ == clock_events_spec(capture.events@.take(index as int)),
        decreases capture.events@.len() - index,
    {
        assert(capture.events@.take(index + 1).drop_last() =~= capture.events@.take(index as int));
        if capture.events[index].event == MidiEvent::Clock {
            clocks.push(capture.events[index].clone());
        }
        index = index + 1;
    }
    assert(capture.events@.take(capture.events@.len() as int) =~= capture.events@);
    if clocks.len() < 2 {
        return Err(
            AppError::InvalidCapture("clock analysis requires at least two Clock events".to_owned()),
        );
    }
    Ok(clocks)
}

/// Startup cadence confirmation used when none is requested: eight intervals
/// for PipeWire captures, none for other backends.
pub fn default_startup_cadence(backend: &String) -> (cadence: usize)
    ensures
        cadence == if backend@ == "pipewire"@ { 8usize } else { 0usize },
{
    if *backend == String::from_str("pipewire") {
        8
    } else {
        0
    }
}

} // verus!
