//! Latency between a reference stream and the stream that came back: the lag
//! that aligns their tick grids, the pairing of rows tick by tick, and the
//! latency summary of the valid pairs.
use vstd::prelude::*;

use crate::capture::event::of_kind;
use crate::capture::format::paired_capture_fault;
use crate::capture::{
    CaptureFile, CapturedEvent, CompletionStatus, GraphTransitionKind, MidiEvent, PairedCapture,
    StreamRole, CURRENT_FORMAT_VERSION,
};
use crate::error::AppError;

use super::indexing::{EventDisposition, IndexedEvent};
use super::order::{
    ascending, lemma_ascending_len, lemma_ascending_ordered, median_i128, sort_ascending,
};
use crate::capture::format::truncating_div;

verus! {

broadcast use vstd::seq_lib::group_seq_properties, vstd::seq::group_seq_axioms;

/// How a paired row came about.
#[derive(Debug, Clone, Copy, PartialEq, Eq, Structural)]
pub enum PairStatus {
    Valid,
    MissingReference,
    MissingReturned,
    ReferenceAnomalous,
    ReturnedAnomalous,
    BothAnomalous,
}

/// One row of the pairing: a reference tick, the rows of both streams that
/// fall on it, and the latency when both rows are valid.
#[derive(Debug, Clone, Copy, PartialEq, Eq, Structural)]
pub struct PairedEvent {
    pub tick_index: i64,
    pub reference: Option<IndexedEvent>,
    pub returned: Option<IndexedEvent>,
    pub status: PairStatus,
    pub latency_ns: Option<i128>,
}

/// Each value is smaller than the next.
pub open spec fn strictly_increasing(values: Seq<i64>) -> bool {
    forall|i: int, j: int| 0 <= i < j < values.len() ==> values[i] < values[j]
}

/// The members of the finite set `members`, in ascending order.
pub open spec fn ascending_members(members: Set<i64>) -> Seq<i64> {
    choose|values: Seq<i64>| strictly_increasing(values) && values.to_set() == members
}

/// Two ascending sequences with the same members are the same sequence.
pub proof fn lemma_increasing_unique(left: Seq<i64>, right: Seq<i64>)
    requires
        strictly_increasing(left),
        strictly_increasing(right),
        left.to_set() == right.to_set(),
    ensures
        left == right,
    decreases left.len(),
{
    if left.len() == 0 {
        if right.len() > 0 {
            assert(right.to_set().contains(right[0]));
        }
        assert(left =~= right);
    } else if right.len() == 0 {
        assert(left.to_set().contains(left[0]));
    } else {
        assert(left.to_set().contains(left[0]));
        assert(right.to_set().contains(right[0]));
        let i = choose|i: int| 0 <= i < right.len() && right[i] == left[0];
        let j = choose|j: int| 0 <= j < left.len() && left[j] == right[0];
        assert(left[0] == right[0]) by {
            if i > 0 {
                assert(right[0] < right[i]);
            }
            if j > 0 {
                assert(left[0] < left[j]);
            }
        }
        let left_rest = left.drop_first();
        let right_rest = right.drop_first();
        assert forall|value: i64| left_rest.to_set().contains(value) implies right_rest.to_set().contains(
            value,
        ) by {
            let k = choose|k: int| 0 <= k < left_rest.len() && left_rest[k] == value;
            assert(left[k + 1] == value);
            assert(left.to_set().contains(value));
            let m = choose|m: int| 0 <= m < right.len() && right[m] == value;
            assert(m != 0) by {
                assert(left[0] < left[k + 1]);
            }
            assert(right_rest[m - 1] == value);
        }
        assert forall|value: i64| right_rest.to_set().contains(value) implies left_rest.to_set().contains(
            value,
        ) by {
            let k = choose|k: int| 0 <= k < right_rest.len() && right_rest[k] == value;
            assert(right[k + 1] == value);
            assert(right.to_set().contains(value));
            let m = choose|m: int| 0 <= m < left.len() && left[m] == value;
            assert(m != 0) by {
                assert(right[0] < right[k + 1]);
            }
            assert(left_rest[m - 1] == value);
        }
        assert(left_rest.to_set() =~= right_rest.to_set());
        lemma_increasing_unique(left_rest, right_rest);
        assert(left =~= right) by {
            assert forall|k: int| 0 <= k < left.len() implies left[k] == right[k] by {
                if k > 0 {
                    assert(left[k] == left_rest[k - 1]);
                    assert(right[k] == right_rest[k - 1]);
                }
            }
        }
    }
}

/// An ascending sequence is the ascending order of its own members.
pub proof fn lemma_ascending_members(values: Seq<i64>)
    requires
        strictly_increasing(values),
    ensures
        ascending_members(values.to_set()) == values,
{
    let chosen = ascending_members(values.to_set());
    assert(strictly_increasing(chosen) && chosen.to_set() == values.to_set());
    lemma_increasing_unique(chosen, values);
}

/// Adds `value` to an ascending vector unless it is there already.
pub fn insert_ascending(values: &mut Vec<i64>, value: i64)
    requires
        strictly_increasing(old(values)@),
    ensures
        strictly_increasing(final(values)@),
        final(values)@.to_set() == old(values)@.to_set().insert(value),
{
    let mut position: usize = 0;
    while position < values.len() && values[position] < value
        invariant
            position <= values@.len(),
            forall|i: int| 0 <= i < position ==> values@[i] < value,
        decreases values@.len() - position,
    {
        position = position + 1;
    }
    let ghost before = values@;
    if position < values.len() && values[position] == value {
        assert(before.to_set().contains(value));
        assert(before.to_set().insert(value) =~= before.to_set());
        return;
    }
    values.insert(position, value);
    proof {
        assert forall|i: int, j: int| 0 <= i < j < values@.len() implies values@[i]
            < values@[j] by {
            if j < position {
                assert(values@[i] == before[i] && values@[j] == before[j]);
            } else if j == position {
                assert(values@[i] == before[i]);
            } else if i < position {
                assert(values@[i] == before[i] && values@[j] == before[j - 1]);
            } else if i == position {
                assert(values@[j] == before[j - 1]);
                assert(value < before[position as int]);
                assert(before[position as int] <= before[j - 1]);
            } else {
                assert(values@[i] == before[i - 1] && values@[j] == before[j - 1]);
            }
        }
        assert forall|member: i64| values@.to_set().contains(member) implies before.to_set().insert(
            value,
        ).contains(member) by {
            let k = choose|k: int| 0 <= k < values@.len() && values@[k] == member;
            if k < position {
                assert(before[k] == member);
            } else if k > position {
                assert(before[k - 1] == member);
            }
        }
        assert forall|member: i64| before.to_set().insert(value).contains(member) implies values@.to_set().contains(
            member,
        ) by {
            if member == value {
                assert(values@[position as int] == value);
            } else {
                let k = choose|k: int| 0 <= k < before.len() && before[k] == member;
                if k < position {
                    assert(values@[k] == member);
                } else {
                    assert(values@[k + 1] == member);
                }
            }
        }
        assert(values@.to_set() =~= before.to_set().insert(value));
    }
}

// ---------------------------------------------------------------------------
// Rows by tick, and the nearest valid row in time.
/// The rows of `rows` that sit on `tick`.
pub open spec fn at_tick(tick: int) -> spec_fn(IndexedEvent) -> bool {
    |row: IndexedEvent| row.tick_index == tick
}

/// The rows of `rows` on `tick`, in order.
pub open spec fn rows_on(rows: Seq<IndexedEvent>, tick: int) -> Seq<IndexedEvent> {
    rows.filter(at_tick(tick))
}

/// No row of `rows` before row `j` sits on the tick of row `j`.
pub open spec fn first_on_its_tick(rows: Seq<IndexedEvent>, j: int) -> bool {
    forall|k: int| 0 <= k < j ==> (#[trigger] rows[k]).tick_index != rows[j].tick_index
}

/// The first row on `tick` is the row at the first index on that tick.
pub proof fn lemma_first_on_tick(rows: Seq<IndexedEvent>, tick: int) -> (j: int)
    requires
        rows_on(rows, tick).len() > 0,
    ensures
        0 <= j < rows.len(),
        rows[j] == rows_on(rows, tick)[0],
        rows[j].tick_index == tick,
        first_on_its_tick(rows, j),
    decreases rows.len(),
{
    let init = rows.drop_last();
    assert(rows =~= init.push(rows.last()));
    init.lemma_filter_push(rows.last(), at_tick(tick));
    if rows_on(init, tick).len() > 0 {
        let j = lemma_first_on_tick(init, tick);
        assert(forall|k: int| 0 <= k <= j ==> init[k] == rows[k]);
        j
    } else {
        assert forall|k: int| 0 <= k < rows.len() - 1 implies (#[trigger] rows[k]).tick_index
            != tick by {
            assert(init[k] == rows[k]);
            if rows[k].tick_index == tick {
                init.lemma_filter_contains(at_tick(tick), k);
            }
        }
        rows.len() - 1
    }
}

/// The rows of `rows` on `tick`, in their order.
pub fn rows_at(rows: &Vec<IndexedEvent>, tick: i64) -> (found: Vec<IndexedEvent>)
    ensures
        found@ == rows_on(rows@, tick as int),
{
    let mut found: Vec<IndexedEvent> = Vec::new();
    let mut index: usize = 0;
    while index < rows.len()
        invariant
            index <= rows@.len(),
            found@ == rows_on(rows@.take(index as int), tick as int),
        decreases rows@.len() - index,
    {
        assert(rows@.take(index + 1) =~= rows@.take(index as int).push(rows@[index as int]));
        proof {
            rows@.take(index as int).lemma_filter_push(rows@[index as int], at_tick(tick as int));
        }
        if rows[index].tick_index == tick {
            found.push(rows[index]);
        }
        index = index + 1;
    }
    assert(rows@.take(rows@.len() as int) =~= rows@);
    found
}

/// Distance in time between a row and an instant.
pub open spec fn distance(row: IndexedEvent, timestamp_ns: int) -> int {
    let difference = row.timestamp_ns - timestamp_ns;
    if difference < 0 {
        -difference
    } else {
        difference
    }
}

/// Row `i` is the first valid row closest in time to `timestamp_ns`.
pub open spec fn is_nearest_valid(rows: Seq<IndexedEvent>, timestamp_ns: int, i: int) -> bool {
    &&& 0 <= i < rows.len()
    &&& rows[i].disposition == EventDisposition::Valid
    &&& forall|j: int|
        0 <= j < rows.len() && (#[trigger] rows[j]).disposition == EventDisposition::Valid
            ==> distance(rows[i], timestamp_ns) <= distance(rows[j], timestamp_ns)
    &&& forall|j: int|
        0 <= j < i && (#[trigger] rows[j]).disposition == EventDisposition::Valid ==> distance(
            rows[j],
            timestamp_ns,
        ) > distance(rows[i], timestamp_ns)
}

/// The tick of the first valid row closest in time to `timestamp_ns`, if any
/// row is valid.
pub open spec fn nearest_valid_tick_spec(rows: Seq<IndexedEvent>, timestamp_ns: int) -> Option<i64> {
    if exists|i: int| is_nearest_valid(rows, timestamp_ns, i) {
        Some(rows[choose|i: int| is_nearest_valid(rows, timestamp_ns, i)].tick_index)
    } else {
        None
    }
}

/// The first valid row closest in time to an instant is one row only.
pub proof fn lemma_nearest_unique(rows: Seq<IndexedEvent>, timestamp_ns: int, i: int, j: int)
    requires
        is_nearest_valid(rows, timestamp_ns, i),
        is_nearest_valid(rows, timestamp_ns, j),
    ensures
        i == j,
{
    if i < j {
        assert(rows[i].disposition == EventDisposition::Valid);
    } else if j < i {
        assert(rows[j].disposition == EventDisposition::Valid);
    }
}

/// The time from `timestamp_ns` to each valid row of `rows` fits `i128`, and
/// so does its magnitude.
pub open spec fn distances_fit(rows: Seq<IndexedEvent>, timestamp_ns: int) -> bool {
    forall|i: int|
        0 <= i < rows.len() && (#[trigger] rows[i]).disposition == EventDisposition::Valid
            ==> i128::MIN < rows[i].timestamp_ns - timestamp_ns <= i128::MAX
}

/// The tick of the valid row closest in time to `timestamp_ns`, the first of
/// equally close ones; `None` when no row is valid.
pub fn nearest_valid_tick(rows: &Vec<IndexedEvent>, timestamp_ns: i128) -> (tick: Option<i64>)
    requires
        distances_fit(rows@, timestamp_ns as int),
    ensures
        tick == nearest_valid_tick_spec(rows@, timestamp_ns as int),
        tick is None <==> forall|i: int|
            0 <= i < rows@.len() ==> (#[trigger] rows@[i]).disposition != EventDisposition::Valid,
{
    let mut best: Option<usize> = None;
    let mut best_distance: i128 = 0;
    let mut index: usize = 0;
    while index < rows.len()
        invariant
            index <= rows@.len(),
            distances_fit(rows@, timestamp_ns as int),
            best is None ==> forall|j: int|
                0 <= j < index ==> (#[trigger] rows@[j]).disposition != EventDisposition::Valid,
            best matches Some(b) ==> {
                &&& b < index
                &&& best_distance == distance(rows@[b as int], timestamp_ns as int)
                &&& is_nearest_valid(rows@.take(index as int), timestamp_ns as int, b as int)
            },
        decreases rows@.len() - index,
    {
        let row = rows[index];
        if row.disposition == EventDisposition::Valid {
            let difference = row.timestamp_ns - timestamp_ns;
            let gap = if difference < 0 {
                -difference
            } else {
                difference
            };
            let ghost prefix = rows@.take(index + 1);
            match best {
                None => {
                    best = Some(index);
                    best_distance = gap;
                    assert(is_nearest_valid(prefix, timestamp_ns as int, index as int)) by {
                        assert forall|j: int|
                            0 <= j < prefix.len() && (#[trigger] prefix[j]).disposition
                                == EventDisposition::Valid implies j == index by {
                            assert(prefix[j] == rows@[j]);
                        }
                    }
                },
                Some(b) => {
                    if gap < best_distance {
                        best = Some(index);
                        best_distance = gap;
                        assert(is_nearest_valid(prefix, timestamp_ns as int, index as int)) by {
                            assert forall|j: int|
                                0 <= j < index && (#[trigger] prefix[j]).disposition
                                    == EventDisposition::Valid implies distance(
                                prefix[j],
                                timestamp_ns as int,
                            ) > gap by {
                                assert(prefix[j] == rows@.take(index as int)[j]);
                            }
                        }
                    } else {
                        assert(is_nearest_valid(prefix, timestamp_ns as int, b as int)) by {
                            assert forall|j: int|
                                0 <= j < prefix.len() && (#[trigger] prefix[j]).disposition
                                    == EventDisposition::Valid implies distance(
                                prefix[b as int],
                                timestamp_ns as int,
                            ) <= distance(prefix[j], timestamp_ns as int) by {
                                if j < index {
                                    assert(prefix[j] == rows@.take(index as int)[j]);
                                }
                            }
                            assert forall|j: int|
                                0 <= j < b && (#[trigger] prefix[j]).disposition
                                    == EventDisposition::Valid implies distance(
                                prefix[j],
                                timestamp_ns as int,
                            ) > distance(prefix[b as int], timestamp_ns as int) by {
                                assert(prefix[j] == rows@.take(index as int)[j]);
                            }
                        }
                    }
                },
            }
        } else {
            proof {
                if let Some(b) = best {
                    let prefix = rows@.take(index + 1);
                    assert(is_nearest_valid(prefix, timestamp_ns as int, b as int)) by {
                        assert forall|j: int|
                            0 <= j < prefix.len() && (#[trigger] prefix[j]).disposition
                                == EventDisposition::Valid implies distance(
                            prefix[b as int],
                            timestamp_ns as int,
                        ) <= distance(prefix[j], timestamp_ns as int) by {
                            assert(j != index);
                            assert(prefix[j] == rows@.take(index as int)[j]);
                        }
                        assert forall|j: int|
                            0 <= j < b && (#[trigger] prefix[j]).disposition
                                == EventDisposition::Valid implies distance(
                            prefix[j],
                            timestamp_ns as int,
                        ) > distance(prefix[b as int], timestamp_ns as int) by {
                            assert(prefix[j] == rows@.take(index as int)[j]);
                        }
                    }
                }
            }
        }
        index = index + 1;
    }
    assert(rows@.take(rows@.len() as int) =~= rows@);
    match best {
        None => None,
        Some(b) => {
            proof {
                let chosen = choose|i: int| is_nearest_valid(rows@, timestamp_ns as int, i);
                lemma_nearest_unique(rows@, timestamp_ns as int, chosen, b as int);
            }
            Some(rows[b].tick_index)
        },
    }
}

// ---------------------------------------------------------------------------
// The lag fixed by transport messages that both streams carry.
/// The first event of `kind` in `events`.
pub open spec fn first_of_kind(events: Seq<CapturedEvent>, kind: MidiEvent) -> Option<CapturedEvent> {
    let matching = events.filter(of_kind(kind));
    if matching.len() > 0 {
        Some(matching[0])
    } else {
        None
    }
}

/// The timestamp of the first event of `kind`, if any.
pub fn first_timestamp_of(events: &Vec<CapturedEvent>, kind: MidiEvent) -> (found: Option<i128>)
    ensures
        found == (match first_of_kind(events@, kind) {
            Some(event) => Some(event.timestamp_ns),
            None => None::<i128>,
        }),
{
    let mut index: usize = 0;
    while index < events.len()
        invariant
            index <= events@.len(),
            events@.take(index as int).filter(of_kind(kind)).len() == 0,
        decreases events@.len() - index,
    {
        let ghost before = events@.take(index as int);
        proof {
            assert(events@.take(index + 1) =~= before.push(events@[index as int]));
            before.lemma_filter_push(events@[index as int], of_kind(kind));
        }
        if events[index].event == kind {
            proof {
                let head = events@.take(index + 1);
                let tail = events@.skip(index + 1);
                assert(events@ =~= head + tail);
                Seq::filter_distributes_over_add(head, tail, of_kind(kind));
                assert(head.filter(of_kind(kind)) =~= seq![events@[index as int]]);
            }
            return Some(events[index].timestamp_ns);
        }
        index = index + 1;
    }
    assert(events@.take(events@.len() as int) =~= events@);
    None
}

/// How one transport message kind places the two streams against each other.
#[derive(Debug, Clone, Copy, PartialEq, Eq, Structural)]
pub enum AnchorLag {
    /// One of the streams lacks the message.
    Absent,
    /// Both carry it, but a stream has no valid row to place it on.
    Unplaced,
    /// Both carry it: the returned tick minus the reference tick nearest to it.
    Lag(i64),
}

/// The lag that the first message of `kind` in both streams implies.
pub open spec fn anchor_lag_spec(
    reference_events: Seq<CapturedEvent>,
    returned_events: Seq<CapturedEvent>,
    reference_rows: Seq<IndexedEvent>,
    returned_rows: Seq<IndexedEvent>,
    kind: MidiEvent,
) -> AnchorLag {
    match (first_of_kind(reference_events, kind), first_of_kind(returned_events, kind)) {
        (Some(left), Some(right)) => match (
            nearest_valid_tick_spec(reference_rows, left.timestamp_ns as int),
            nearest_valid_tick_spec(returned_rows, right.timestamp_ns as int),
        ) {
            (Some(left_tick), Some(right_tick)) => AnchorLag::Lag((right_tick - left_tick) as i64),
            _ => AnchorLag::Unplaced,
        },
        _ => AnchorLag::Absent,
    }
}

/// `entry` is absent or names `lag`.
pub open spec fn agrees_with(entry: AnchorLag, lag: i64) -> bool {
    entry matches AnchorLag::Lag(other) ==> other == lag
}

/// The lag that Start, Continue and Stop agree on: none when any of them
/// cannot be placed, when none is carried by both streams, or when two of
/// them disagree; otherwise the lag of the first one carried.
pub open spec fn agreed_lag(start: AnchorLag, resume: AnchorLag, stop: AnchorLag) -> Option<i64> {
    if start is Unplaced || resume is Unplaced || stop is Unplaced {
        None
    } else {
        let first = if start is Lag {
            start
        } else if resume is Lag {
            resume
        } else {
            stop
        };
        match first {
            AnchorLag::Lag(lag) => if agrees_with(start, lag) && agrees_with(resume, lag)
                && agrees_with(stop, lag) {
                Some(lag)
            } else {
                None
            },
            _ => None,
        }
    }
}

/// The lag anchored by transport messages of both streams, if they agree on one.
pub open spec fn anchored_lag_spec(
    reference_events: Seq<CapturedEvent>,
    returned_events: Seq<CapturedEvent>,
    reference_rows: Seq<IndexedEvent>,
    returned_rows: Seq<IndexedEvent>,
) -> Option<i64> {
    agreed_lag(
        anchor_lag_spec(reference_events, returned_events, reference_rows, returned_rows, MidiEvent::Start),
        anchor_lag_spec(reference_events, returned_events, reference_rows, returned_rows, MidiEvent::Continue),
        anchor_lag_spec(reference_events, returned_events, reference_rows, returned_rows, MidiEvent::Stop),
    )
}

/// The arithmetic of placing the first message of `kind` fits: the times
/// from the reference message to the valid reference rows; when one of them
/// is valid, the times from the returned message to the valid returned rows;
/// and when both are placed, the difference of their ticks.
pub open spec fn anchor_fits(
    reference_events: Seq<CapturedEvent>,
    returned_events: Seq<CapturedEvent>,
    reference_rows: Seq<IndexedEvent>,
    returned_rows: Seq<IndexedEvent>,
    kind: MidiEvent,
) -> bool {
    match (first_of_kind(reference_events, kind), first_of_kind(returned_events, kind)) {
        (Some(left), Some(right)) => {
            &&& distances_fit(reference_rows, left.timestamp_ns as int)
            &&& nearest_valid_tick_spec(reference_rows, left.timestamp_ns as int) is Some ==> {
                &&& distances_fit(returned_rows, right.timestamp_ns as int)
                &&& nearest_valid_tick_spec(returned_rows, right.timestamp_ns as int) is Some
                    ==> i64::MIN <= nearest_valid_tick_spec(
                    returned_rows,
                    right.timestamp_ns as int,
                )->0 - nearest_valid_tick_spec(reference_rows, left.timestamp_ns as int)->0
                    <= i64::MAX
            }
        },
        _ => true,
    }
}

/// The arithmetic of anchoring fits for Start, and, as long as every message
/// before it could be placed, for Continue and Stop too.
pub open spec fn anchors_fit(
    reference_events: Seq<CapturedEvent>,
    returned_events: Seq<CapturedEvent>,
    reference_rows: Seq<IndexedEvent>,
    returned_rows: Seq<IndexedEvent>,
) -> bool {
    let start = anchor_lag_spec(reference_events, returned_events, reference_rows, returned_rows, MidiEvent::Start);
    let resume = anchor_lag_spec(reference_events, returned_events, reference_rows, returned_rows, MidiEvent::Continue);
    &&& anchor_fits(reference_events, returned_events, reference_rows, returned_rows, MidiEvent::Start)
    &&& !(start is Unplaced) ==> anchor_fits(
        reference_events,
        returned_events,
        reference_rows,
        returned_rows,
        MidiEvent::Continue,
    )
    &&& !(start is Unplaced) && !(resume is Unplaced) ==> anchor_fits(
        reference_events,
        returned_events,
        reference_rows,
        returned_rows,
        MidiEvent::Stop,
    )
}

/// The lag that the first message of `kind` in both streams implies.
pub fn anchor_lag(
    reference_events: &Vec<CapturedEvent>,
    returned_events: &Vec<CapturedEvent>,
    reference_rows: &Vec<IndexedEvent>,
    returned_rows: &Vec<IndexedEvent>,
    kind: MidiEvent,
) -> (anchor: AnchorLag)
    requires
        anchor_fits(reference_events@, returned_events@, reference_rows@, returned_rows@, kind),
    ensures
        anchor == anchor_lag_spec(reference_events@, returned_events@, reference_rows@, returned_rows@, kind),
{
    let left = first_timestamp_of(reference_events, kind);
    let right = first_timestamp_of(returned_events, kind);
    match (left, right) {
        (Some(left), Some(right)) => {
            proof {
                let l = reference_events@.filter(of_kind(kind));
                let r = returned_events@.filter(of_kind(kind));
                assert(l.contains(l[0]));
                assert(r.contains(r[0]));
            }
            match nearest_valid_tick(reference_rows, left) {
                None => AnchorLag::Unplaced,
                Some(a) => match nearest_valid_tick(returned_rows, right) {
                    None => AnchorLag::Unplaced,
                    Some(b) => AnchorLag::Lag(b - a),
                },
            }
        },
        _ => AnchorLag::Absent,
    }
}

/// The lag anchored by the transport messages (Start, Continue, Stop) that
/// both streams carry, when every such message places the streams alike.
pub fn anchored_lag(
    reference_events: &Vec<CapturedEvent>,
    returned_events: &Vec<CapturedEvent>,
    reference_rows: &Vec<IndexedEvent>,
    returned_rows: &Vec<IndexedEvent>,
) -> (lag: Option<i64>)
    requires
        anchors_fit(reference_events@, returned_events@, reference_rows@, returned_rows@),
    ensures
        lag == anchored_lag_spec(reference_events@, returned_events@, reference_rows@, returned_rows@),
{
    let start = anchor_lag(reference_events, returned_events, reference_rows, returned_rows, MidiEvent::Start);
    if start == AnchorLag::Unplaced {
        return None;
    }
    let resume = anchor_lag(reference_events, returned_events, reference_rows, returned_rows, MidiEvent::Continue);
    if resume == AnchorLag::Unplaced {
        return None;
    }
    let stop = anchor_lag(reference_events, returned_events, reference_rows, returned_rows, MidiEvent::Stop);
    if stop == AnchorLag::Unplaced {
        return None;
    }
    let first = match (start, resume) {
        (AnchorLag::Lag(_), _) => start,
        (_, AnchorLag::Lag(_)) => resume,
        _ => stop,
    };
    match first {
        AnchorLag::Lag(lag) => {
            let agree = |entry: AnchorLag| -> (same: bool)
                ensures
                    same == agrees_with(entry, lag),
                {
                    match entry {
                        AnchorLag::Lag(other) => other == lag,
                        _ => true,
                    }
                };
            if agree(start) && agree(resume) && agree(stop) {
                Some(lag)
            } else {
                None
            }
        },
        _ => None,
    }
}

// ---------------------------------------------------------------------------
// Pairing rows tick by tick.
/// How the rows of both streams at one tick compare.
pub open spec fn pair_status(reference: Option<IndexedEvent>, returned: Option<IndexedEvent>) -> PairStatus {
    match (reference, returned) {
        (None, _) => PairStatus::MissingReference,
        (_, None) => PairStatus::MissingReturned,
        (Some(left), Some(right)) => {
            let left_valid = left.disposition == EventDisposition::Valid;
            let right_valid = right.disposition == EventDisposition::Valid;
            if left_valid && right_valid {
                PairStatus::Valid
            } else if right_valid {
                PairStatus::ReferenceAnomalous
            } else if left_valid {
                PairStatus::ReturnedAnomalous
            } else {
                PairStatus::BothAnomalous
            }
        },
    }
}

/// The first of `rows`, if any.
pub open spec fn first_row(rows: Seq<IndexedEvent>) -> Option<IndexedEvent> {
    if rows.len() > 0 {
        Some(rows[0])
    } else {
        None
    }
}

/// All of `rows` but the first.
pub open spec fn extra_rows(rows: Seq<IndexedEvent>) -> Seq<IndexedEvent> {
    if rows.len() > 1 {
        rows.subrange(1, rows.len() as int)
    } else {
        Seq::empty()
    }
}

/// The row that pairs the first reference row on `tick` with the first
/// returned row on `tick + lag`.
pub open spec fn main_pair(
    reference: Seq<IndexedEvent>,
    returned: Seq<IndexedEvent>,
    lag: i64,
    tick: i64,
) -> PairedEvent {
    let left = first_row(rows_on(reference, tick as int));
    let right = first_row(rows_on(returned, tick + lag));
    let status = pair_status(left, right);
    PairedEvent {
        tick_index: tick,
        reference: left,
        returned: right,
        status: status,
        latency_ns: match (left, right) {
            (Some(l), Some(r)) => if status == PairStatus::Valid {
                Some((r.timestamp_ns - l.timestamp_ns) as i128)
            } else {
                None
            },
            _ => None,
        },
    }
}

/// A further reference row on `tick`, unpaired.
pub open spec fn extra_reference(tick: i64) -> spec_fn(IndexedEvent) -> PairedEvent {
    |row: IndexedEvent|
        PairedEvent {
            tick_index: tick,
            reference: Some(row),
            returned: None,
            status: PairStatus::ReferenceAnomalous,
            latency_ns: None,
        }
}

/// A further returned row on the returned tick of `tick`, unpaired.
pub open spec fn extra_returned(tick: i64) -> spec_fn(IndexedEvent) -> PairedEvent {
    |row: IndexedEvent|
        PairedEvent {
            tick_index: tick,
            reference: None,
            returned: Some(row),
            status: PairStatus::ReturnedAnomalous,
            latency_ns: None,
        }
}

/// The paired rows of one reference tick: the main pair, then each further
/// reference row, then each further returned row.
pub open spec fn tick_rows(
    reference: Seq<IndexedEvent>,
    returned: Seq<IndexedEvent>,
    lag: i64,
    tick: i64,
) -> Seq<PairedEvent> {
    seq![main_pair(reference, returned, lag, tick)] + extra_rows(
        rows_on(reference, tick as int),
    ).map_values(extra_reference(tick)) + extra_rows(rows_on(returned, tick + lag)).map_values(
        extra_returned(tick),
    )
}

/// The reference ticks that either stream reaches: the ticks of reference
/// rows and the ticks of returned rows moved back by `lag`.
pub open spec fn pairing_ticks(reference: Seq<IndexedEvent>, returned: Seq<IndexedEvent>, lag: i64) -> Set<i64> {
    Set::new(
        |tick: i64|
            (exists|i: int| 0 <= i < reference.len() && reference[i].tick_index == tick) || (exists|
                j: int,
            |
                0 <= j < returned.len() && returned[j].tick_index - lag == tick),
    )
}

/// The paired rows of each tick, as a function of the tick.
pub open spec fn rows_of_tick(reference: Seq<IndexedEvent>, returned: Seq<IndexedEvent>, lag: i64) -> spec_fn(i64) -> Seq<PairedEvent> {
    |tick: i64| tick_rows(reference, returned, lag, tick)
}

/// The pairing of two streams at `lag`: for every tick that either reaches,
/// in ascending order, the paired rows of that tick.
pub open spec fn pair_rows_spec(reference: Seq<IndexedEvent>, returned: Seq<IndexedEvent>, lag: i64) -> Seq<PairedEvent> {
    ascending_members(pairing_ticks(reference, returned, lag)).map_values(
        rows_of_tick(reference, returned, lag),
    ).flatten()
}

/// Pairing at `lag` can move every tick: each reference tick plus `lag`, and
/// each returned tick minus `lag`, fits `i64`.
pub open spec fn ticks_shift(reference: Seq<IndexedEvent>, returned: Seq<IndexedEvent>, lag: i64) -> bool {
    &&& forall|i: int|
        0 <= i < reference.len() ==> i64::MIN <= (#[trigger] reference[i]).tick_index + lag
            <= i64::MAX
    &&& forall|j: int|
        0 <= j < returned.len() ==> i64::MIN <= (#[trigger] returned[j]).tick_index - lag
            <= i64::MAX
}

/// Every latency that pairing at `lag` takes fits `i128`: the time from the
/// first reference row of a tick to the first returned row `lag` ticks later,
/// when both are valid.
pub open spec fn latencies_fit(reference: Seq<IndexedEvent>, returned: Seq<IndexedEvent>, lag: i64) -> bool {
    forall|i: int, j: int|
        0 <= i < reference.len() && 0 <= j < returned.len() && first_on_its_tick(reference, i)
            && first_on_its_tick(returned, j) && (#[trigger] reference[i]).disposition
            == EventDisposition::Valid && (#[trigger] returned[j]).disposition
            == EventDisposition::Valid && returned[j].tick_index == reference[i].tick_index + lag
            ==> i128::MIN <= returned[j].timestamp_ns - reference[i].timestamp_ns <= i128::MAX
}

/// The arithmetic of pairing at `lag` stays within its machine types.
pub open spec fn pairing_fits(reference: Seq<IndexedEvent>, returned: Seq<IndexedEvent>, lag: i64) -> bool {
    ticks_shift(reference, returned, lag) && latencies_fit(reference, returned, lag)
}

/// The first of `rows`, if any.
fn first_of(rows: &Vec<IndexedEvent>) -> (first: Option<IndexedEvent>)
    ensures
        first == first_row(rows@),
{
    if rows.len() > 0 {
        Some(rows[0])
    } else {
        None
    }
}

/// The paired rows of one reference tick.
fn pair_tick(reference: &Vec<IndexedEvent>, returned: &Vec<IndexedEvent>, lag: i64, tick: i64) -> (rows: Vec<PairedEvent>)
    requires
        pairing_fits(reference@, returned@, lag),
        pairing_ticks(reference@, returned@, lag).contains(tick),
    ensures
        rows@ == tick_rows(reference@, returned@, lag, tick),
{
    proof {
        if exists|i: int| 0 <= i < reference@.len() && reference@[i].tick_index == tick {
            let i = choose|i: int| 0 <= i < reference@.len() && reference@[i].tick_index == tick;
            assert(i64::MIN <= reference@[i].tick_index + lag <= i64::MAX);
        } else {
            let j = choose|j: int| 0 <= j < returned@.len() && returned@[j].tick_index - lag == tick;
            assert(returned@[j].tick_index - lag == tick);
        }
    }
    let lefts = rows_at(reference, tick);
    let rights = rows_at(returned, tick + lag);
    let left = first_of(&lefts);
    let right = first_of(&rights);
    let status = match (left, right) {
        (None, _) => PairStatus::MissingReference,
        (_, None) => PairStatus::MissingReturned,
        (Some(l), Some(r)) => {
            let left_valid = l.disposition == EventDisposition::Valid;
            let right_valid = r.disposition == EventDisposition::Valid;
            if left_valid && right_valid {
                PairStatus::Valid
            } else if right_valid {
                PairStatus::ReferenceAnomalous
            } else if left_valid {
                PairStatus::ReturnedAnomalous
            } else {
                PairStatus::BothAnomalous
            }
        },
    };
    let latency_ns = match (left, right) {
        (Some(l), Some(r)) => {
            proof {
                let i = lemma_first_on_tick(reference@, tick as int);
                let j = lemma_first_on_tick(returned@, tick + lag);
                if l.disposition == EventDisposition::Valid && r.disposition == EventDisposition::Valid {
                    assert(i128::MIN <= returned@[j].timestamp_ns - reference@[i].timestamp_ns
                        <= i128::MAX);
                }
            }
            if status == PairStatus::Valid {
                Some(r.timestamp_ns - l.timestamp_ns)
            } else {
                None
            }
        },
        _ => None,
    };
    let mut rows: Vec<PairedEvent> = Vec::new();
    rows.push(
        PairedEvent { tick_index: tick, reference: left, returned: right, status, latency_ns },
    );
    let ghost main = seq![main_pair(reference@, returned@, lag, tick)];
    assert(rows@ =~= main);
    let mut index: usize = 1;
    while index < lefts.len()
        invariant
            1 <= index,
            index <= lefts@.len() || index == 1,
            rows@ == main + extra_rows(lefts@).take(index - 1).map_values(extra_reference(tick)),
        decreases lefts@.len() - index,
    {
        proof {
            let extras = extra_rows(lefts@);
            assert(extras.take(index as int) =~= extras.take(index - 1).push(lefts@[index as int]));
            assert(extras.take(index as int).map_values(extra_reference(tick)) =~= extras.take(
                index - 1,
            ).map_values(extra_reference(tick)).push(extra_reference(tick)(lefts@[index as int])));
        }
        rows.push(
            PairedEvent {
                tick_index: tick,
                reference: Some(lefts[index]),
                returned: None,
                status: PairStatus::ReferenceAnomalous,
                latency_ns: None,
            },
        );
        index = index + 1;
    }
    let ghost with_reference = main + extra_rows(lefts@).map_values(extra_reference(tick));
    assert(rows@ =~= with_reference) by {
        if lefts@.len() > 1 {
            assert(extra_rows(lefts@).take(lefts@.len() - 1) =~= extra_rows(lefts@));
        } else {
            assert(extra_rows(lefts@).take(index - 1) =~= extra_rows(lefts@));
        }
    }
    let mut index: usize = 1;
    while index < rights.len()
        invariant
            1 <= index,
            index <= rights@.len() || index == 1,
            rows@ == with_reference + extra_rows(rights@).take(index - 1).map_values(
                extra_returned(tick),
            ),
        decreases rights@.len() - index,
    {
        proof {
            let extras = extra_rows(rights@);
            assert(extras.take(index as int) =~= extras.take(index - 1).push(rights@[index as int]));
            assert(extras.take(index as int).map_values(extra_returned(tick)) =~= extras.take(
                index - 1,
            ).map_values(extra_returned(tick)).push(extra_returned(tick)(rights@[index as int])));
        }
        rows.push(
            PairedEvent {
                tick_index: tick,
                reference: None,
                returned: Some(rights[index]),
                status: PairStatus::ReturnedAnomalous,
                latency_ns: None,
            },
        );
        index = index + 1;
    }
    assert(rows@ =~= tick_rows(reference@, returned@, lag, tick)) by {
        if rights@.len() > 1 {
            assert(extra_rows(rights@).take(rights@.len() - 1) =~= extra_rows(rights@));
        } else {
            assert(extra_rows(rights@).take(index - 1) =~= extra_rows(rights@));
        }
    }
    rows
}

/// The pairing of two streams at `lag`: for each tick that either stream
/// reaches, ascending, the main pair and the further rows of that tick.
pub fn pair_rows(reference: &Vec<IndexedEvent>, returned: &Vec<IndexedEvent>, lag: i64) -> (rows: Vec<PairedEvent>)
    requires
        pairing_fits(reference@, returned@, lag),
    ensures
        rows@ == pair_rows_spec(reference@, returned@, lag),
{
    let mut ticks: Vec<i64> = Vec::new();
    let ghost none: Seq<IndexedEvent> = Seq::empty();
    assert(ticks@.to_set() =~= pairing_ticks(reference@.take(0), none, lag));
    let mut index: usize = 0;
    while index < reference.len()
        invariant
            index <= reference@.len(),
            pairing_fits(reference@, returned@, lag),
            none.len() == 0,
            strictly_increasing(ticks@),
            ticks@.to_set() == pairing_ticks(reference@.take(index as int), none, lag),
        decreases reference@.len() - index,
    {
        let ghost before = ticks@.to_set();
        let tick = reference[index].tick_index;
        insert_ascending(&mut ticks, tick);
        proof {
            let grown = reference@.take(index + 1);
            let now = pairing_ticks(grown, none, lag);
            let prefix = reference@.take(index as int);
            assert forall|t: i64| now.contains(t) implies before.insert(tick).contains(t) by {
                let i = choose|i: int| 0 <= i < index + 1 && grown[i].tick_index == t;
                if i < index {
                    assert(prefix[i] == reference@[i] && grown[i] == reference@[i]);
                }
            }
            assert forall|t: i64| before.insert(tick).contains(t) implies now.contains(t) by {
                if t == tick {
                    assert(grown[index as int].tick_index == t);
                } else {
                    let i = choose|i: int| 0 <= i < index && prefix[i].tick_index == t;
                    assert(prefix[i] == reference@[i] && grown[i] == reference@[i]);
                }
            }
            assert(now =~= before.insert(tick));
        }
        index = index + 1;
    }
    assert(reference@.take(reference@.len() as int) =~= reference@);
    assert(pairing_ticks(reference@, returned@.take(0), lag) =~= pairing_ticks(reference@, none, lag));
    let mut index: usize = 0;
    while index < returned.len()
        invariant
            index <= returned@.len(),
            pairing_fits(reference@, returned@, lag),
            strictly_increasing(ticks@),
            ticks@.to_set() == pairing_ticks(reference@, returned@.take(index as int), lag),
        decreases returned@.len() - index,
    {
        let ghost before = ticks@.to_set();
        let tick = returned[index].tick_index - lag;
        insert_ascending(&mut ticks, tick);
        proof {
            let grown = returned@.take(index + 1);
            let now = pairing_ticks(reference@, grown, lag);
            let prefix = returned@.take(index as int);
            assert forall|t: i64| now.contains(t) implies before.insert(tick).contains(t) by {
                if !(exists|i: int| 0 <= i < reference@.len() && reference@[i].tick_index == t) {
                    let j = choose|j: int|
                        0 <= j < index + 1 && grown[j].tick_index - lag == t;
                    if j < index {
                        assert(prefix[j] == returned@[j] && grown[j] == returned@[j]);
                    }
                }
            }
            assert forall|t: i64| before.insert(tick).contains(t) implies now.contains(t) by {
                if t == tick {
                    assert(grown[index as int].tick_index - lag == t);
                } else if !(exists|i: int| 0 <= i < reference@.len() && reference@[i].tick_index == t) {
                    let j = choose|j: int| 0 <= j < index && prefix[j].tick_index - lag == t;
                    assert(prefix[j] == returned@[j] && grown[j] == returned@[j]);
                }
            }
            assert(now =~= before.insert(tick));
        }
        index = index + 1;
    }
    assert(returned@.take(returned@.len() as int) =~= returned@);
    proof {
        lemma_ascending_members(ticks@);
    }
    let ghost group = rows_of_tick(reference@, returned@, lag);
    let mut rows: Vec<PairedEvent> = Vec::new();
    let mut position: usize = 0;
    assert(ticks@.take(0).map_values(group).flatten() =~= Seq::<PairedEvent>::empty());
    while position < ticks.len()
        invariant
            position <= ticks@.len(),
            pairing_fits(reference@, returned@, lag),
            ticks@.to_set() == pairing_ticks(reference@, returned@, lag),
            group == rows_of_tick(reference@, returned@, lag),
            rows@ == ticks@.take(position as int).map_values(group).flatten(),
        decreases ticks@.len() - position,
    {
        let tick = ticks[position];
        assert(ticks@.to_set().contains(tick));
        let mut more = pair_tick(reference, returned, lag, tick);
        proof {
            let done = ticks@.take(position as int).map_values(group);
            assert(ticks@.take(position + 1).map_values(group) =~= done + seq![group(tick)]);
            vstd::seq_lib::lemma_flatten_concat(done, seq![group(tick)]);
            seq![group(tick)].lemma_flatten_one_element();
        }
        rows.append(&mut more);
        position = position + 1;
    }
    assert(ticks@.take(ticks@.len() as int) =~= ticks@);
    rows
}

// ---------------------------------------------------------------------------
// Choosing the lag from the valid rows of both streams.
/// Rows that take part in the analysis.
pub open spec fn is_valid_row() -> spec_fn(IndexedEvent) -> bool {
    |row: IndexedEvent| row.disposition == EventDisposition::Valid
}

/// The valid rows of `rows`, in order.
pub open spec fn valid_rows(rows: Seq<IndexedEvent>) -> Seq<IndexedEvent> {
    rows.filter(is_valid_row())
}

/// The valid rows of `rows`, in order.
pub fn valid_only(rows: &Vec<IndexedEvent>) -> (valid: Vec<IndexedEvent>)
    ensures
        valid@ == valid_rows(rows@),
{
    let mut valid: Vec<IndexedEvent> = Vec::new();
    let mut index: usize = 0;
    while index < rows.len()
        invariant
            index <= rows@.len(),
            valid@ == valid_rows(rows@.take(index as int)),
        decreases rows@.len() - index,
    {
        assert(rows@.take(index + 1) =~= rows@.take(index as int).push(rows@[index as int]));
        proof {
            rows@.take(index as int).lemma_filter_push(rows@[index as int], is_valid_row());
        }
        if rows[index].disposition == EventDisposition::Valid {
            valid.push(rows[index]);
        }
        index = index + 1;
    }
    assert(rows@.take(rows@.len() as int) =~= rows@);
    valid
}

/// The first row on `tick`, if any.
pub fn find_on_tick(rows: &Vec<IndexedEvent>, tick: i64) -> (found: Option<IndexedEvent>)
    ensures
        found == first_row(rows_on(rows@, tick as int)),
{
    let mut index: usize = 0;
    while index < rows.len()
        invariant
            index <= rows@.len(),
            rows_on(rows@.take(index as int), tick as int).len() == 0,
        decreases rows@.len() - index,
    {
        let ghost before = rows@.take(index as int);
        proof {
            assert(rows@.take(index + 1) =~= before.push(rows@[index as int]));
            before.lemma_filter_push(rows@[index as int], at_tick(tick as int));
        }
        if rows[index].tick_index == tick {
            proof {
                let head = rows@.take(index + 1);
                let tail = rows@.skip(index + 1);
                assert(rows@ =~= head + tail);
                Seq::filter_distributes_over_add(head, tail, at_tick(tick as int));
                assert(head.filter(at_tick(tick as int)) =~= seq![rows@[index as int]]);
            }
            return Some(rows[index]);
        }
        index = index + 1;
    }
    assert(rows@.take(rows@.len() as int) =~= rows@);
    None
}

/// The latency samples of `lag`: for each left row in order, the time from
/// it to the first right row `lag` ticks later, where there is one.
pub open spec fn lag_samples_spec(lefts: Seq<IndexedEvent>, rights: Seq<IndexedEvent>, lag: i64) -> Seq<i128>
    decreases lefts.len(),
{
    if lefts.len() == 0 {
        Seq::empty()
    } else {
        let earlier = lag_samples_spec(lefts.drop_last(), rights, lag);
        match first_row(rows_on(rights, lefts.last().tick_index + lag)) {
            Some(right) => earlier.push((right.timestamp_ns - lefts.last().timestamp_ns) as i128),
            None => earlier,
        }
    }
}

/// Each left tick moved by `lag` fits `i64`.
pub open spec fn shift_fits(lefts: Seq<IndexedEvent>, lag: i64) -> bool {
    forall|k: int|
        0 <= k < lefts.len() ==> i64::MIN <= (#[trigger] lefts[k]).tick_index + lag <= i64::MAX
}

/// Each time from a left row to a right row that is the first on its tick
/// fits `i128`.
pub open spec fn times_fit(lefts: Seq<IndexedEvent>, rights: Seq<IndexedEvent>) -> bool {
    forall|i: int, j: int|
        0 <= i < lefts.len() && 0 <= j < rights.len() && first_on_its_tick(rights, j) ==> i128::MIN
            <= (#[trigger] rights[j]).timestamp_ns - (#[trigger] lefts[i]).timestamp_ns <= i128::MAX
}

/// The latency samples of `lag` between the rows of two streams.
pub fn lag_samples(lefts: &Vec<IndexedEvent>, rights: &Vec<IndexedEvent>, lag: i64) -> (samples: Vec<i128>)
    requires
        shift_fits(lefts@, lag),
        times_fit(lefts@, rights@),
    ensures
        samples@ == lag_samples_spec(lefts@, rights@, lag),
{
    let mut samples: Vec<i128> = Vec::new();
    let mut index: usize = 0;
    while index < lefts.len()
        invariant
            index <= lefts@.len(),
            shift_fits(lefts@, lag),
            times_fit(lefts@, rights@),
            samples@ == lag_samples_spec(lefts@.take(index as int), rights@, lag),
        decreases lefts@.len() - index,
    {
        let left = lefts[index];
        assert(lefts@.take(index + 1).drop_last() =~= lefts@.take(index as int));
        assert(i64::MIN <= lefts@[index as int].tick_index + lag <= i64::MAX);
        match find_on_tick(rights, left.tick_index + lag) {
            Some(right) => {
                proof {
                    let j = lemma_first_on_tick(rights@, left.tick_index + lag);
                    assert(i128::MIN <= rights@[j].timestamp_ns - lefts@[index as int].timestamp_ns
                        <= i128::MAX);
                }
                samples.push(right.timestamp_ns - left.timestamp_ns);
            },
            None => {},
        }
        index = index + 1;
    }
    assert(lefts@.take(lefts@.len() as int) =~= lefts@);
    samples
}

/// The median of nonempty `values`: the upper middle of their ascending order.
pub open spec fn median_of(values: Seq<i128>) -> i128 {
    ascending(values)[(values.len() / 2) as int]
}

/// Distance from `center`.
pub open spec fn deviation_from(center: i128) -> spec_fn(i128) -> i128 {
    |value: i128|
        if value < center {
            (center - value) as i128
        } else {
            (value - center) as i128
        }
}

/// The median absolute deviation of `values` from `center`.
pub open spec fn mad_of(values: Seq<i128>, center: i128) -> i128 {
    median_of(values.map_values(deviation_from(center)))
}

/// The median absolute deviation of `values` from `median`.
pub fn mad(values: &Vec<i128>, median: i128) -> (spread: i128)
    requires
        values@.len() > 0,
        forall|i: int|
            0 <= i < values@.len() ==> i128::MIN < #[trigger] values@[i] - median <= i128::MAX,
    ensures
        spread == mad_of(values@, median),
{
    let mut deviations: Vec<i128> = Vec::new();
    let mut index: usize = 0;
    while index < values.len()
        invariant
            index <= values@.len(),
            forall|i: int|
                0 <= i < values@.len() ==> i128::MIN < #[trigger] values@[i] - median
                    <= i128::MAX,
            deviations@ == values@.take(index as int).map_values(deviation_from(median)),
        decreases values@.len() - index,
    {
        let value = values[index];
        let deviation = if value < median {
            median - value
        } else {
            value - median
        };
        deviations.push(deviation);
        assert(values@.take(index + 1).map_values(deviation_from(median)) =~= values@.take(
            index as int,
        ).map_values(deviation_from(median)).push(deviation));
        index = index + 1;
    }
    assert(values@.take(values@.len() as int) =~= values@);
    median_i128(&deviations)
}

/// The score of `lag`: the median of its samples and their median absolute
/// deviation, when it has two samples or more and a positive median.
pub open spec fn lag_score(lefts: Seq<IndexedEvent>, rights: Seq<IndexedEvent>, lag: i64) -> Option<(i128, i128)> {
    let samples = lag_samples_spec(lefts, rights, lag);
    if samples.len() >= 2 && median_of(samples) > 0 {
        Some((median_of(samples), mad_of(samples, median_of(samples))))
    } else {
        None
    }
}

/// When `lag` is scored, each of its samples lies within `i128` of their
/// median, and so does the magnitude of that deviation.
pub open spec fn spread_fits(lefts: Seq<IndexedEvent>, rights: Seq<IndexedEvent>, lag: i64) -> bool {
    let samples = lag_samples_spec(lefts, rights, lag);
    samples.len() >= 2 && median_of(samples) > 0 ==> forall|k: int|
        0 <= k < samples.len() ==> i128::MIN < #[trigger] samples[k] - median_of(samples)
            <= i128::MAX
}

/// The arithmetic of scoring `lag` fits.
pub open spec fn lag_fits(lefts: Seq<IndexedEvent>, rights: Seq<IndexedEvent>, lag: i64) -> bool {
    shift_fits(lefts, lag) && spread_fits(lefts, rights, lag)
}

/// The score of `lag` between two streams' valid rows.
pub fn score_lag(lefts: &Vec<IndexedEvent>, rights: &Vec<IndexedEvent>, lag: i64) -> (score: Option<(i128, i128)>)
    requires
        lag_fits(lefts@, rights@, lag),
        times_fit(lefts@, rights@),
    ensures
        score == lag_score(lefts@, rights@, lag),
{
    let samples = lag_samples(lefts, rights, lag);
    if samples.len() < 2 {
        return None;
    }
    let median = median_i128(&samples);
    if median <= 0 {
        return None;
    }
    let spread = mad(&samples, median);
    Some((median, spread))
}

/// Every difference between a right tick and a left tick.
pub open spec fn candidate_lag_set(lefts: Seq<IndexedEvent>, rights: Seq<IndexedEvent>) -> Set<i64> {
    Set::new(
        |lag: i64|
            exists|i: int, j: int|
                0 <= i < lefts.len() && 0 <= j < rights.len() && rights[j].tick_index
                    - lefts[i].tick_index == lag,
    )
}

/// Each difference between a right tick and a left tick fits `i64`.
pub open spec fn differences_fit(lefts: Seq<IndexedEvent>, rights: Seq<IndexedEvent>) -> bool {
    forall|i: int, j: int|
        0 <= i < lefts.len() && 0 <= j < rights.len() ==> i64::MIN <= (#[trigger] rights[j]).tick_index
            - (#[trigger] lefts[i]).tick_index <= i64::MAX
}

/// Every candidate lag, ascending.
pub fn candidate_lags(lefts: &Vec<IndexedEvent>, rights: &Vec<IndexedEvent>) -> (lags: Vec<i64>)
    requires
        differences_fit(lefts@, rights@),
    ensures
        lags@ == ascending_members(candidate_lag_set(lefts@, rights@)),
        strictly_increasing(lags@),
        lags@.to_set() == candidate_lag_set(lefts@, rights@),
{
    let mut lags: Vec<i64> = Vec::new();
    assert(lags@.to_set() =~= candidate_lag_set(lefts@.take(0), rights@));
    let mut index: usize = 0;
    while index < lefts.len()
        invariant
            index <= lefts@.len(),
            differences_fit(lefts@, rights@),
            strictly_increasing(lags@),
            lags@.to_set() == candidate_lag_set(lefts@.take(index as int), rights@),
        decreases lefts@.len() - index,
    {
        let left_tick = lefts[index].tick_index;
        let ghost grown = lefts@.take(index + 1);
        let ghost prefix = lefts@.take(index as int);
        let mut inner: usize = 0;
        assert(lags@.to_set() =~= candidate_lag_set(prefix, rights@).union(
            candidate_lag_set(seq![lefts@[index as int]], rights@.take(0)),
        ));
        while inner < rights.len()
            invariant
                inner <= rights@.len(),
                index < lefts@.len(),
                left_tick == lefts@[index as int].tick_index,
                differences_fit(lefts@, rights@),
                strictly_increasing(lags@),
                lags@.to_set() == candidate_lag_set(prefix, rights@).union(
                    candidate_lag_set(seq![lefts@[index as int]], rights@.take(inner as int)),
                ),
            decreases rights@.len() - inner,
        {
            let ghost before = lags@.to_set();
            assert(i64::MIN <= rights@[inner as int].tick_index - lefts@[index as int].tick_index
                <= i64::MAX);
            let lag = rights[inner].tick_index - left_tick;
            insert_ascending(&mut lags, lag);
            proof {
                let single = seq![lefts@[index as int]];
                let seen = rights@.take(inner as int);
                let reach = rights@.take(inner + 1);
                let old_part = candidate_lag_set(single, seen);
                let new_part = candidate_lag_set(single, reach);
                assert forall|l: i64| new_part.contains(l) implies old_part.insert(lag).contains(l) by {
                    let (i, j) = choose|i: int, j: int|
                        0 <= i < single.len() && 0 <= j < inner + 1 && reach[j].tick_index
                            - single[i].tick_index == l;
                    if j < inner {
                        assert(seen[j] == rights@[j]);
                        assert(reach[j] == rights@[j]);
                    }
                }
                assert forall|l: i64| old_part.insert(lag).contains(l) implies new_part.contains(l) by {
                    if l == lag {
                        assert(reach[inner as int].tick_index - single[0].tick_index == l);
                    } else {
                        let (i, j) = choose|i: int, j: int|
                            0 <= i < single.len() && 0 <= j < inner && seen[j].tick_index
                                - single[i].tick_index == l;
                        assert(seen[j] == rights@[j]);
                        assert(reach[j] == rights@[j]);
                    }
                }
                assert(new_part =~= old_part.insert(lag));
                assert(lags@.to_set() =~= candidate_lag_set(prefix, rights@).union(new_part));
            }
            inner = inner + 1;
        }
        proof {
            assert(rights@.take(rights@.len() as int) =~= rights@);
            let single = seq![lefts@[index as int]];
            assert forall|l: i64| candidate_lag_set(grown, rights@).contains(l) implies candidate_lag_set(
                prefix,
                rights@,
            ).union(candidate_lag_set(single, rights@)).contains(l) by {
                let (i, j) = choose|i: int, j: int|
                    0 <= i < grown.len() && 0 <= j < rights@.len() && rights@[j].tick_index
                        - grown[i].tick_index == l;
                if i < index {
                    assert(prefix[i] == grown[i]);
                } else {
                    assert(single[0] == grown[i]);
                }
            }
            assert forall|l: i64| candidate_lag_set(prefix, rights@).union(
                candidate_lag_set(single, rights@),
            ).contains(l) implies candidate_lag_set(grown, rights@).contains(l) by {
                if candidate_lag_set(prefix, rights@).contains(l) {
                    let (i, j) = choose|i: int, j: int|
                        0 <= i < prefix.len() && 0 <= j < rights@.len() && rights@[j].tick_index
                            - prefix[i].tick_index == l;
                    assert(prefix[i] == grown[i]);
                } else {
                    let (i, j) = choose|i: int, j: int|
                        0 <= i < single.len() && 0 <= j < rights@.len() && rights@[j].tick_index
                            - single[i].tick_index == l;
                    assert(single[i] == grown[index as int]);
                }
            }
            assert(lags@.to_set() =~= candidate_lag_set(grown, rights@));
        }
        index = index + 1;
    }
    assert(lefts@.take(lefts@.len() as int) =~= lefts@);
    proof {
        lemma_ascending_members(lags@);
    }
    lags
}

/// `lag` with `score` ranks ahead of `other` with `other_score`: smaller
/// median absolute deviation first, then smaller median, then smaller lag.
pub open spec fn ranks_before(lag: i64, score: (i128, i128), other: i64, other_score: (i128, i128)) -> bool {
    ||| score.1 < other_score.1
    ||| score.1 == other_score.1 && score.0 < other_score.0
    ||| score.1 == other_score.1 && score.0 == other_score.0 && lag < other
}

/// `lag` is the scored lag of `lags` that ranks ahead of every other one.
pub open spec fn best_among(lefts: Seq<IndexedEvent>, rights: Seq<IndexedEvent>, lags: Seq<i64>, lag: i64) -> bool {
    &&& lags.contains(lag)
    &&& lag_score(lefts, rights, lag) is Some
    &&& forall|k: int|
        0 <= k < lags.len() && #[trigger] lags[k] != lag && lag_score(lefts, rights, lags[k]) is Some
            ==> ranks_before(
            lag,
            lag_score(lefts, rights, lag)->0,
            lags[k],
            lag_score(lefts, rights, lags[k])->0,
        )
}

/// Another scored lag of `lags` has the very score of `lag`.
pub open spec fn tied_among(lefts: Seq<IndexedEvent>, rights: Seq<IndexedEvent>, lags: Seq<i64>, lag: i64) -> bool {
    exists|k: int|
        0 <= k < lags.len() && #[trigger] lags[k] != lag && lag_score(lefts, rights, lags[k])
            == lag_score(lefts, rights, lag)
}

/// Some lag of `lags` has a score.
pub open spec fn any_scored(lefts: Seq<IndexedEvent>, rights: Seq<IndexedEvent>, lags: Seq<i64>) -> bool {
    exists|k: int| 0 <= k < lags.len() && lag_score(lefts, rights, #[trigger] lags[k]) is Some
}

/// At most one lag ranks ahead of all others.
pub proof fn lemma_best_unique(
    lefts: Seq<IndexedEvent>,
    rights: Seq<IndexedEvent>,
    lags: Seq<i64>,
    first: i64,
    second: i64,
)
    requires
        best_among(lefts, rights, lags, first),
        best_among(lefts, rights, lags, second),
    ensures
        first == second,
{
    if first != second {
        let i = choose|i: int| 0 <= i < lags.len() && lags[i] == second;
        let j = choose|j: int| 0 <= j < lags.len() && lags[j] == first;
        assert(lags[i] != first);
        assert(lags[j] != second);
    }
}

/// The best-ranked scored lag of `lags`, and whether another one ties it.
pub fn best_lag(lefts: &Vec<IndexedEvent>, rights: &Vec<IndexedEvent>, lags: &Vec<i64>) -> (best: Option<(i64, bool)>)
    requires
        times_fit(lefts@, rights@),
        strictly_increasing(lags@),
        forall|k: int| 0 <= k < lags@.len() ==> lag_fits(lefts@, rights@, #[trigger] lags@[k]),
    ensures
        best is None <==> !any_scored(lefts@, rights@, lags@),
        best matches Some((lag, tied)) ==> best_among(lefts@, rights@, lags@, lag) && tied
            == tied_among(lefts@, rights@, lags@, lag),
{
    let ghost l = lefts@;
    let ghost r = rights@;
    let mut best: Option<(i64, i128, i128)> = None;
    let mut tied = false;
    let mut index: usize = 0;
    while index < lags.len()
        invariant
            index <= lags@.len(),
            times_fit(lefts@, rights@),
            l == lefts@,
            r == rights@,
            strictly_increasing(lags@),
            forall|k: int| 0 <= k < lags@.len() ==> lag_fits(lefts@, rights@, #[trigger] lags@[k]),
            best is None <==> !any_scored(l, r, lags@.take(index as int)),
            best matches Some((b, median, spread)) ==> {
                &&& best_among(l, r, lags@.take(index as int), b)
                &&& lag_score(l, r, b) == Some((median, spread))
                &&& tied == tied_among(l, r, lags@.take(index as int), b)
            },
        decreases lags@.len() - index,
    {
        let lag = lags[index];
        let score = score_lag(lefts, rights, lag);
        let ghost seen = lags@.take(index as int);
        let ghost grown = lags@.take(index + 1);
        assert(grown =~= seen.push(lag));
        assert forall|k: int| 0 <= k < seen.len() implies #[trigger] seen[k] != lag by {
            assert(seen[k] == lags@[k]);
        }
        match score {
            None => {
                proof {
                    if any_scored(l, r, grown) {
                        let k = choose|k: int| 0 <= k < grown.len() && lag_score(l, r, #[trigger] grown[k]) is Some;
                        assert(k < index);
                        assert(grown[k] == seen[k]);
                    }
                    if let Some((b, median, spread)) = best {
                        assert(grown.contains(b)) by {
                            let k = choose|k: int| 0 <= k < seen.len() && seen[k] == b;
                            assert(grown[k] == b);
                        }
                        assert forall|k: int|
                            0 <= k < grown.len() && #[trigger] grown[k] != b && lag_score(l, r, grown[k]) is Some
                                implies ranks_before(b, lag_score(l, r, b)->0, grown[k], lag_score(l, r, grown[k])->0) by {
                            assert(k < index);
                            assert(grown[k] == seen[k]);
                        }
                        if tied_among(l, r, grown, b) {
                            let k = choose|k: int|
                                0 <= k < grown.len() && #[trigger] grown[k] != b && lag_score(l, r, grown[k])
                                    == lag_score(l, r, b);
                            assert(k < index);
                            assert(grown[k] == seen[k]);
                        }
                        if tied_among(l, r, seen, b) {
                            let k = choose|k: int|
                                0 <= k < seen.len() && #[trigger] seen[k] != b && lag_score(l, r, seen[k])
                                    == lag_score(l, r, b);
                            assert(grown[k] == seen[k]);
                        }
                    }
                }
            },
            Some((median, spread)) => {
                assert(grown[index as int] == lag);
                match best {
                    None => {
                        proof {
                            assert(grown.contains(lag));
                            assert forall|k: int|
                                0 <= k < grown.len() && #[trigger] grown[k] != lag && lag_score(l, r, grown[k]) is Some
                                    implies false by {
                                assert(k < index);
                                assert(grown[k] == seen[k]);
                            }
                            if tied_among(l, r, grown, lag) {
                                let k = choose|k: int|
                                    0 <= k < grown.len() && #[trigger] grown[k] != lag && lag_score(l, r, grown[k])
                                        == lag_score(l, r, lag);
                                assert(grown[k] == seen[k]);
                            }
                        }
                        best = Some((lag, median, spread));
                        tied = false;
                    },
                    Some((b, b_median, b_spread)) => {
                        let ahead = spread < b_spread || (spread == b_spread && median < b_median) || (
                        spread == b_spread && median == b_median && lag < b);
                        let same = spread == b_spread && median == b_median;
                        proof {
                            let kb = choose|k: int| 0 <= k < seen.len() && seen[k] == b;
                            assert(grown[kb] == b);
                            assert(b != lag);
                            if ahead {
                                assert forall|k: int|
                                    0 <= k < grown.len() && #[trigger] grown[k] != lag && lag_score(l, r, grown[k]) is Some
                                        implies ranks_before(lag, (median, spread), grown[k], lag_score(l, r, grown[k])->0) by {
                                    assert(k < index);
                                    assert(grown[k] == seen[k]);
                                    if seen[k] != b {
                                        assert(ranks_before(b, (b_median, b_spread), seen[k], lag_score(l, r, seen[k])->0));
                                    }
                                }
                                if same {
                                    assert(grown[kb] != lag && lag_score(l, r, grown[kb]) == lag_score(l, r, lag));
                                } else if tied_among(l, r, grown, lag) {
                                    let k = choose|k: int|
                                        0 <= k < grown.len() && #[trigger] grown[k] != lag && lag_score(l, r, grown[k])
                                            == lag_score(l, r, lag);
                                    assert(grown[k] == seen[k]);
                                    if seen[k] != b {
                                        assert(ranks_before(b, (b_median, b_spread), seen[k], lag_score(l, r, seen[k])->0));
                                    }
                                }
                            } else {
                                assert(grown.contains(b));
                                assert forall|k: int|
                                    0 <= k < grown.len() && #[trigger] grown[k] != b && lag_score(l, r, grown[k]) is Some
                                        implies ranks_before(b, (b_median, b_spread), grown[k], lag_score(l, r, grown[k])->0) by {
                                    if k < index {
                                        assert(grown[k] == seen[k]);
                                    }
                                }
                                if same {
                                    assert(grown[index as int] != b && lag_score(l, r, grown[index as int]) == lag_score(l, r, b));
                                } else {
                                    if tied_among(l, r, grown, b) {
                                        let k = choose|k: int|
                                            0 <= k < grown.len() && #[trigger] grown[k] != b && lag_score(l, r, grown[k])
                                                == lag_score(l, r, b);
                                        assert(k < index);
                                        assert(grown[k] == seen[k]);
                                    }
                                    if tied_among(l, r, seen, b) {
                                        let k = choose|k: int|
                                            0 <= k < seen.len() && #[trigger] seen[k] != b && lag_score(l, r, seen[k])
                                                == lag_score(l, r, b);
                                        assert(grown[k] == seen[k]);
                                    }
                                }
                            }
                        }
                        if ahead {
                            best = Some((lag, median, spread));
                            tied = same;
                        } else if same {
                            tied = true;
                        }
                    },
                }
                proof {
                    assert(lag_score(l, r, grown[index as int]) is Some);
                }
            },
        }
        index = index + 1;
    }
    assert(lags@.take(lags@.len() as int) =~= lags@);
    match best {
        None => None,
        Some((b, _, _)) => Some((b, tied)),
    }
}

/// The best-ranked scored lag of `lags`.
pub open spec fn best_lag_of(lefts: Seq<IndexedEvent>, rights: Seq<IndexedEvent>, lags: Seq<i64>) -> i64 {
    choose|lag: i64| best_among(lefts, rights, lags, lag)
}

/// How far apart in time the first valid rows of the two streams are.
pub open spec fn initial_gap(lefts: Seq<IndexedEvent>, rights: Seq<IndexedEvent>) -> int {
    let delta = rights[0].timestamp_ns - lefts[0].timestamp_ns;
    if delta < 0 {
        -delta
    } else {
        delta
    }
}

/// The message of an alignment that more than one lag explains.
pub open spec fn ambiguous_alignment() -> Seq<char> {
    "paired stream alignment is ambiguous"@
}

/// The message of streams that no lag lines up.
pub open spec fn no_correspondence() -> Seq<char> {
    "paired streams have no correspondence"@
}

/// What lag selection gives: the lag, whether transport messages anchored
/// it, and the candidates considered; or the message of the failure.
pub open spec fn lag_outcome(
    reference_events: Seq<CapturedEvent>,
    returned_events: Seq<CapturedEvent>,
    reference_rows: Seq<IndexedEvent>,
    returned_rows: Seq<IndexedEvent>,
    period_ns: i128,
) -> Result<(i64, bool, Seq<i64>), Seq<char>> {
    let lefts = valid_rows(reference_rows);
    let rights = valid_rows(returned_rows);
    let lags = ascending_members(candidate_lag_set(lefts, rights));
    let best = best_lag_of(lefts, rights, lags);
    match anchored_lag_spec(reference_events, returned_events, reference_rows, returned_rows) {
        Some(lag) => Ok((lag, true, seq![lag])),
        None => if !any_scored(lefts, rights, lags) {
            Err(no_correspondence())
        } else if initial_gap(lefts, rights) >= period_ns {
            Err(ambiguous_alignment())
        } else if tied_among(lefts, rights, lags, best) {
            Err(ambiguous_alignment())
        } else {
            Ok((best, false, lags))
        },
    }
}

/// `choice` is the outcome `expected`, an error carrying its message.
pub open spec fn choice_matches(
    choice: Result<(i64, bool, Vec<i64>), AppError>,
    expected: Result<(i64, bool, Seq<i64>), Seq<char>>,
) -> bool {
    match expected {
        Ok((lag, anchored, lags)) => choice matches Ok(found) && found.0 == lag && found.1
            == anchored && found.2@ == lags,
        Err(message) => choice matches Err(error) && error.is_invalid_capture(message),
    }
}

/// The arithmetic of choosing a lag from two streams' valid rows fits: tick
/// differences, times between rows, each candidate's shifted ticks and sample
/// spread, and the gap between the first rows once any candidate is scored.
pub open spec fn choice_fits(lefts: Seq<IndexedEvent>, rights: Seq<IndexedEvent>) -> bool {
    let lags = ascending_members(candidate_lag_set(lefts, rights));
    &&& differences_fit(lefts, rights)
    &&& times_fit(lefts, rights)
    &&& forall|lag: i64| #[trigger] candidate_lag_set(lefts, rights).contains(lag) ==> lag_fits(lefts, rights, lag)
    &&& any_scored(lefts, rights, lags) ==> i128::MIN < rights[0].timestamp_ns - lefts[0].timestamp_ns
}

/// The arithmetic of lag selection fits: anchoring, and, when transport
/// messages anchor no lag, choosing one from the valid rows.
pub open spec fn selection_fits(
    reference_events: Seq<CapturedEvent>,
    returned_events: Seq<CapturedEvent>,
    reference_rows: Seq<IndexedEvent>,
    returned_rows: Seq<IndexedEvent>,
) -> bool {
    &&& anchors_fit(reference_events, returned_events, reference_rows, returned_rows)
    &&& anchored_lag_spec(reference_events, returned_events, reference_rows, returned_rows) is None
        ==> choice_fits(valid_rows(reference_rows), valid_rows(returned_rows))
}

/// The lag that aligns the returned stream with the reference stream, whether
/// transport messages anchored it, and the candidate lags considered.
///
/// Transport messages that both streams carry decide the lag when they agree.
/// Otherwise every difference between a valid returned tick and a valid
/// reference tick is a candidate; a candidate is scored by the median and the
/// median absolute deviation of its latency samples when it has two samples or
/// more and a positive median, and the candidate that ranks first (smallest
/// deviation, then smallest median, then smallest lag) wins. No scored
/// candidate, first valid rows a whole reference period apart or more
/// (`period_ns`), or a second candidate with the same score, is an error.
pub fn select_lag(
    reference_events: &Vec<CapturedEvent>,
    returned_events: &Vec<CapturedEvent>,
    reference_rows: &Vec<IndexedEvent>,
    returned_rows: &Vec<IndexedEvent>,
    period_ns: i128,
) -> (choice: Result<(i64, bool, Vec<i64>), AppError>)
    requires
        selection_fits(reference_events@, returned_events@, reference_rows@, returned_rows@),
    ensures
        choice_matches(
            choice,
            lag_outcome(reference_events@, returned_events@, reference_rows@, returned_rows@, period_ns),
        ),
        ({
            let lefts = valid_rows(reference_rows@);
            let rights = valid_rows(returned_rows@);
            let lags = ascending_members(candidate_lag_set(lefts, rights));
            anchored_lag_spec(reference_events@, returned_events@, reference_rows@, returned_rows@)
                is None && any_scored(lefts, rights, lags) ==> best_among(
                lefts,
                rights,
                lags,
                best_lag_of(lefts, rights, lags),
            )
        }),
{
    if let Some(lag) = anchored_lag(reference_events, returned_events, reference_rows, returned_rows) {
        let mut only: Vec<i64> = Vec::new();
        only.push(lag);
        assert(only@ =~= seq![lag]);
        return Ok((lag, true, only));
    }
    let lefts = valid_only(reference_rows);
    let rights = valid_only(returned_rows);
    let lags = candidate_lags(&lefts, &rights);
    let ghost set = candidate_lag_set(lefts@, rights@);
    proof {
        assert forall|k: int| 0 <= k < lags@.len() implies lag_fits(lefts@, rights@, #[trigger] lags@[k]) by {
            assert(lags@.to_set().contains(lags@[k]));
        }
    }
    let best = best_lag(&lefts, &rights, &lags);
    match best {
        None => Err(AppError::InvalidCapture("paired streams have no correspondence".to_owned())),
        Some((lag, tied)) => {
            proof {
                assert(lags@.contains(lag));
                assert(lags@.to_set().contains(lag));
                let (i, j) = choose|i: int, j: int|
                    0 <= i < lefts@.len() && 0 <= j < rights@.len() && rights@[j].tick_index
                        - lefts@[i].tick_index == lag;
                assert(first_on_its_tick(rights@, 0));
                assert(i128::MIN <= rights@[0].timestamp_ns - lefts@[0].timestamp_ns <= i128::MAX);
                let chosen = best_lag_of(lefts@, rights@, lags@);
                lemma_best_unique(lefts@, rights@, lags@, chosen, lag);
            }
            let delta = rights[0].timestamp_ns - lefts[0].timestamp_ns;
            let gap = if delta < 0 {
                -delta
            } else {
                delta
            };
            if gap >= period_ns {
                return Err(AppError::InvalidCapture("paired stream alignment is ambiguous".to_owned()));
            }
            if tied {
                return Err(AppError::InvalidCapture("paired stream alignment is ambiguous".to_owned()));
            }
            Ok((lag, false, lags))
        },
    }
}

// ---------------------------------------------------------------------------
// The pairing of a paired capture and its latency summary.
/// The lag chosen for two streams and the rows paired at it.
#[derive(Debug, Clone, PartialEq, Eq)]
pub struct PairingResult {
    pub rows: Vec<PairedEvent>,
    pub lag_ticks: i64,
    pub anchored: bool,
    pub candidate_lags: Vec<i64>,
    pub status_counts: PairStatusCounts,
}

/// How many paired rows have each status.
#[derive(Debug, Clone, Copy, PartialEq, Eq, Structural)]
pub struct PairStatusCounts {
    pub valid: usize,
    pub missing_reference: usize,
    pub missing_returned: usize,
    pub reference_anomalous: usize,
    pub returned_anomalous: usize,
    pub both_anomalous: usize,
}

/// Paired rows of `status`.
pub open spec fn with_status(status: PairStatus) -> spec_fn(PairedEvent) -> bool {
    |row: PairedEvent| row.status == status
}

/// How many of `rows` have `status`.
pub open spec fn status_count(rows: Seq<PairedEvent>, status: PairStatus) -> nat {
    rows.filter(with_status(status)).len()
}

/// The status counts of `rows`.
pub open spec fn status_counts_spec(rows: Seq<PairedEvent>) -> PairStatusCounts {
    PairStatusCounts {
        valid: status_count(rows, PairStatus::Valid) as usize,
        missing_reference: status_count(rows, PairStatus::MissingReference) as usize,
        missing_returned: status_count(rows, PairStatus::MissingReturned) as usize,
        reference_anomalous: status_count(rows, PairStatus::ReferenceAnomalous) as usize,
        returned_anomalous: status_count(rows, PairStatus::ReturnedAnomalous) as usize,
        both_anomalous: status_count(rows, PairStatus::BothAnomalous) as usize,
    }
}

/// How many of `rows` have each status.
pub fn status_counts(rows: &Vec<PairedEvent>) -> (counts: PairStatusCounts)
    ensures
        counts == status_counts_spec(rows@),
{
    let mut counts = PairStatusCounts {
        valid: 0,
        missing_reference: 0,
        missing_returned: 0,
        reference_anomalous: 0,
        returned_anomalous: 0,
        both_anomalous: 0,
    };
    let mut index: usize = 0;
    assert(counts == status_counts_spec(rows@.take(0)));
    while index < rows.len()
        invariant
            index <= rows@.len(),
            counts == status_counts_spec(rows@.take(index as int)),
        decreases rows@.len() - index,
    {
        let ghost before = rows@.take(index as int);
        let row = rows[index];
        proof {
            assert(rows@.take(index + 1) =~= before.push(row));
            before.lemma_filter_push(row, with_status(PairStatus::Valid));
            before.lemma_filter_push(row, with_status(PairStatus::MissingReference));
            before.lemma_filter_push(row, with_status(PairStatus::MissingReturned));
            before.lemma_filter_push(row, with_status(PairStatus::ReferenceAnomalous));
            before.lemma_filter_push(row, with_status(PairStatus::ReturnedAnomalous));
            before.lemma_filter_push(row, with_status(PairStatus::BothAnomalous));
            before.lemma_filter_len(with_status(row.status));
        }
        match row.status {
            PairStatus::Valid => counts.valid = counts.valid + 1,
            PairStatus::MissingReference => counts.missing_reference = counts.missing_reference + 1,
            PairStatus::MissingReturned => counts.missing_returned = counts.missing_returned + 1,
            PairStatus::ReferenceAnomalous => counts.reference_anomalous = counts.reference_anomalous + 1,
            PairStatus::ReturnedAnomalous => counts.returned_anomalous = counts.returned_anomalous + 1,
            PairStatus::BothAnomalous => counts.both_anomalous = counts.both_anomalous + 1,
        }
        index = index + 1;
    }
    assert(rows@.take(rows@.len() as int) =~= rows@);
    counts
}

/// Summary of the latencies of the valid pairs, in nanoseconds.
#[derive(Debug, Clone, Copy, PartialEq, Eq, Structural)]
pub struct LatencyStatistics {
    pub count: usize,
    pub mean_ns: i128,
    pub median_ns: i128,
    pub p95_ns: i128,
    pub minimum_ns: i128,
    pub maximum_ns: i128,
    pub standard_deviation_ns: i128,
}

/// The latencies of the valid pairs among `rows`, in order.
pub open spec fn valid_latencies_spec(rows: Seq<PairedEvent>) -> Seq<i128>
    decreases rows.len(),
{
    if rows.len() == 0 {
        Seq::empty()
    } else {
        let earlier = valid_latencies_spec(rows.drop_last());
        match rows.last().latency_ns {
            Some(latency) => if rows.last().status == PairStatus::Valid {
                earlier.push(latency)
            } else {
                earlier
            },
            None => earlier,
        }
    }
}

/// The latencies of the valid pairs among `rows`, in order.
pub fn valid_latencies(rows: &Vec<PairedEvent>) -> (values: Vec<i128>)
    ensures
        values@ == valid_latencies_spec(rows@),
{
    let mut values: Vec<i128> = Vec::new();
    let mut index: usize = 0;
    while index < rows.len()
        invariant
            index <= rows@.len(),
            values@ == valid_latencies_spec(rows@.take(index as int)),
        decreases rows@.len() - index,
    {
        assert(rows@.take(index + 1).drop_last() =~= rows@.take(index as int));
        let row = rows[index];
        if row.status == PairStatus::Valid {
            if let Some(latency) = row.latency_ns {
                values.push(latency);
            }
        }
        index = index + 1;
    }
    assert(rows@.take(rows@.len() as int) =~= rows@);
    values
}

/// The sum of `values`.
pub open spec fn sum_of(values: Seq<i128>) -> int
    decreases values.len(),
{
    if values.len() == 0 {
        0
    } else {
        sum_of(values.drop_last()) + values.last()
    }
}

/// Every running sum of `values` fits `i128`.
pub open spec fn running_sums_fit(values: Seq<i128>) -> bool {
    forall|k: int| 0 <= k <= values.len() ==> i128::MIN <= #[trigger] sum_of(values.take(k)) <= i128::MAX
}

/// Whether every running sum of `values` fits `i128`, so that their mean can
/// be taken.
pub fn sums_fit(values: &Vec<i128>) -> (fits: bool)
    ensures
        fits == running_sums_fit(values@),
{
    let mut total: i128 = 0;
    let mut index: usize = 0;
    assert(values@.take(0) =~= Seq::<i128>::empty());
    while index < values.len()
        invariant
            index <= values@.len(),
            total == sum_of(values@.take(index as int)),
            forall|k: int| 0 <= k <= index ==> i128::MIN <= #[trigger] sum_of(values@.take(k)) <= i128::MAX,
        decreases values@.len() - index,
    {
        assert(values@.take(index + 1).drop_last() =~= values@.take(index as int));
        match total.checked_add(values[index]) {
            Some(next) => {
                total = next;
            },
            None => {
                assert(!(i128::MIN <= sum_of(values@.take(index + 1)) <= i128::MAX));
                return false;
            },
        }
        index = index + 1;
    }
    assert(values@.take(values@.len() as int) =~= values@);
    true
}

/// The mean of nonempty `values`, rounded toward zero.
pub open spec fn mean_spec(values: Seq<i128>) -> int {
    truncating_div(sum_of(values), values.len() as int)
}

/// The mean of `values`, rounded toward zero as integer division does.
pub fn mean_of(values: &Vec<i128>) -> (mean: i128)
    requires
        values@.len() > 0,
        running_sums_fit(values@),
    ensures
        mean == mean_spec(values@),
{
    let mut total: i128 = 0;
    let mut index: usize = 0;
    assert(values@.take(0) =~= Seq::<i128>::empty());
    while index < values.len()
        invariant
            index <= values@.len(),
            running_sums_fit(values@),
            total == sum_of(values@.take(index as int)),
        decreases values@.len() - index,
    {
        assert(values@.take(index + 1).drop_last() =~= values@.take(index as int));
        assert(i128::MIN <= sum_of(values@.take(index + 1)) <= i128::MAX);
        total = total + values[index];
        index = index + 1;
    }
    assert(values@.take(values@.len() as int) =~= values@);
    let count = values.len() as i128;
    total / count
}

/// Index of the 95th percentile among `count` ascending values.
pub open spec fn p95_index(count: int) -> int {
    ((count - 1) * 95 + 50) / 100
}

/// Summary of nonempty latency samples: count, mean rounded toward zero,
/// median (upper middle), 95th percentile by nearest rank, minimum, maximum,
/// and the standard deviation `standard_deviation_ns` taken of them.
pub fn summarize_latency(values: &Vec<i128>, standard_deviation_ns: i128) -> (summary: LatencyStatistics)
    requires
        values@.len() > 0,
        running_sums_fit(values@),
    ensures
        summary.count == values@.len(),
        summary.mean_ns == mean_spec(values@),
        summary.median_ns == median_of(values@),
        summary.p95_ns == ascending(values@)[p95_index(values@.len() as int)],
        summary.minimum_ns == ascending(values@)[0],
        summary.maximum_ns == ascending(values@)[values@.len() - 1],
        summary.standard_deviation_ns == standard_deviation_ns,
{
    let median = median_i128(values);
    let mean = mean_of(values);
    let sorted = sort_ascending(values);
    proof {
        lemma_ascending_len(values@);
    }
    let count = sorted.len();
    let wide: u128 = ((count - 1) as u128 * 95 + 50) / 100;
    assert(wide == p95_index(count as int));
    assert(wide < count) by (nonlinear_arith)
        requires
            wide == ((count - 1) * 95 + 50) / 100,
            count >= 1,
    ;
    let p95 = sorted[wide as usize];
    LatencyStatistics {
        count: values.len(),
        mean_ns: mean,
        median_ns: median,
        p95_ns: p95,
        minimum_ns: sorted[0],
        maximum_ns: sorted[count - 1],
        standard_deviation_ns,
    }
}

/// What pairing a capture gives: the lag, whether it was anchored, the
/// candidates and the paired rows; or the message of the failure. A pairing
/// without a single valid pair fails.
pub open spec fn pairing_outcome(
    capture: PairedCapture,
    reference_rows: Seq<IndexedEvent>,
    returned_rows: Seq<IndexedEvent>,
    period_ns: i128,
) -> Result<(i64, bool, Seq<i64>, Seq<PairedEvent>), Seq<char>> {
    match lag_outcome(
        capture.reference_events@,
        capture.returned_events@,
        reference_rows,
        returned_rows,
        period_ns,
    ) {
        Err(message) => Err(message),
        Ok((lag, anchored, lags)) => {
            let rows = pair_rows_spec(reference_rows, returned_rows, lag);
            if valid_latencies_spec(rows).len() == 0 {
                Err("paired analysis requires at least one valid pair"@)
            } else {
                Ok((lag, anchored, lags, rows))
            }
        },
    }
}

/// The arithmetic of pairing a capture stays within its machine types: that
/// of choosing the lag, and, once a lag is chosen, that of pairing at it.
pub open spec fn pairing_inputs_fit(
    capture: PairedCapture,
    reference_rows: Seq<IndexedEvent>,
    returned_rows: Seq<IndexedEvent>,
    period_ns: i128,
) -> bool {
    &&& selection_fits(
        capture.reference_events@,
        capture.returned_events@,
        reference_rows,
        returned_rows,
    )
    &&& lag_outcome(
        capture.reference_events@,
        capture.returned_events@,
        reference_rows,
        returned_rows,
        period_ns,
    ) matches Ok((lag, _, _)) ==> pairing_fits(reference_rows, returned_rows, lag)
}

/// Whether no row of `rows` before row `j` sits on the tick of row `j`.
fn is_first_on_tick(rows: &Vec<IndexedEvent>, j: usize) -> (first: bool)
    requires
        j < rows@.len(),
    ensures
        first == first_on_its_tick(rows@, j as int),
{
    let tick = rows[j].tick_index;
    let mut k: usize = 0;
    while k < j
        invariant
            k <= j,
            j < rows@.len(),
            tick == rows@[j as int].tick_index,
            forall|m: int| 0 <= m < k ==> (#[trigger] rows@[m]).tick_index != tick,
        decreases j - k,
    {
        if rows[k].tick_index == tick {
            assert(rows@[k as int].tick_index == rows@[j as int].tick_index);
            return false;
        }
        k = k + 1;
    }
    true
}

/// Whether the time from `timestamp_ns` to each valid row of `rows`, and its
/// magnitude, fit `i128`.
fn distances_within(rows: &Vec<IndexedEvent>, timestamp_ns: i128) -> (fits: bool)
    ensures
        fits == distances_fit(rows@, timestamp_ns as int),
{
    let mut index: usize = 0;
    while index < rows.len()
        invariant
            index <= rows@.len(),
            forall|i: int|
                0 <= i < index && (#[trigger] rows@[i]).disposition == EventDisposition::Valid
                    ==> i128::MIN < rows@[i].timestamp_ns - timestamp_ns <= i128::MAX,
        decreases rows@.len() - index,
    {
        let row = rows[index];
        if row.disposition == EventDisposition::Valid {
            match row.timestamp_ns.checked_sub(timestamp_ns) {
                None => {
                    return false;
                },
                Some(difference) => {
                    if difference == i128::MIN {
                        return false;
                    }
                },
            }
        }
        index = index + 1;
    }
    true
}

/// Whether the arithmetic of placing the first message of `kind` fits.
fn anchor_within(
    reference_events: &Vec<CapturedEvent>,
    returned_events: &Vec<CapturedEvent>,
    reference_rows: &Vec<IndexedEvent>,
    returned_rows: &Vec<IndexedEvent>,
    kind: MidiEvent,
) -> (fits: bool)
    ensures
        fits == anchor_fits(reference_events@, returned_events@, reference_rows@, returned_rows@, kind),
{
    let left = first_timestamp_of(reference_events, kind);
    let right = first_timestamp_of(returned_events, kind);
    match (left, right) {
        (Some(left), Some(right)) => {
            if !distances_within(reference_rows, left) {
                return false;
            }
            match nearest_valid_tick(reference_rows, left) {
                None => true,
                Some(a) => {
                    if !distances_within(returned_rows, right) {
                        return false;
                    }
                    match nearest_valid_tick(returned_rows, right) {
                        None => true,
                        Some(b) => b.checked_sub(a).is_some(),
                    }
                },
            }
        },
        _ => true,
    }
}

/// Whether the arithmetic of anchoring fits.
fn anchors_within(
    reference_events: &Vec<CapturedEvent>,
    returned_events: &Vec<CapturedEvent>,
    reference_rows: &Vec<IndexedEvent>,
    returned_rows: &Vec<IndexedEvent>,
) -> (fits: bool)
    ensures
        fits == anchors_fit(reference_events@, returned_events@, reference_rows@, returned_rows@),
{
    if !anchor_within(reference_events, returned_events, reference_rows, returned_rows, MidiEvent::Start) {
        return false;
    }
    let start = anchor_lag(reference_events, returned_events, reference_rows, returned_rows, MidiEvent::Start);
    if start == AnchorLag::Unplaced {
        return true;
    }
    if !anchor_within(reference_events, returned_events, reference_rows, returned_rows, MidiEvent::Continue) {
        return false;
    }
    let resume = anchor_lag(reference_events, returned_events, reference_rows, returned_rows, MidiEvent::Continue);
    if resume == AnchorLag::Unplaced {
        return true;
    }
    anchor_within(reference_events, returned_events, reference_rows, returned_rows, MidiEvent::Stop)
}

/// Whether each difference between a right tick and a left tick fits `i64`.
fn differences_within(lefts: &Vec<IndexedEvent>, rights: &Vec<IndexedEvent>) -> (fits: bool)
    ensures
        fits == differences_fit(lefts@, rights@),
{
    let mut i: usize = 0;
    while i < lefts.len()
        invariant
            i <= lefts@.len(),
            forall|a: int, b: int|
                0 <= a < i && 0 <= b < rights@.len() ==> i64::MIN <= (#[trigger] rights@[b]).tick_index
                    - (#[trigger] lefts@[a]).tick_index <= i64::MAX,
        decreases lefts@.len() - i,
    {
        let mut j: usize = 0;
        while j < rights.len()
            invariant
                i < lefts@.len(),
                j <= rights@.len(),
                forall|a: int, b: int|
                    0 <= a < i && 0 <= b < rights@.len() ==> i64::MIN <= (
                    #[trigger] rights@[b]).tick_index - (#[trigger] lefts@[a]).tick_index
                        <= i64::MAX,
                forall|b: int|
                    0 <= b < j ==> i64::MIN <= (#[trigger] rights@[b]).tick_index
                        - lefts@[i as int].tick_index <= i64::MAX,
            decreases rights@.len() - j,
        {
            if rights[j].tick_index.checked_sub(lefts[i].tick_index).is_none() {
                assert(!(i64::MIN <= rights@[j as int].tick_index - lefts@[i as int].tick_index
                    <= i64::MAX));
                return false;
            }
            j = j + 1;
        }
        i = i + 1;
    }
    true
}

/// Whether each time from a left row to a right row that is the first on its
/// tick fits `i128`.
fn times_within(lefts: &Vec<IndexedEvent>, rights: &Vec<IndexedEvent>) -> (fits: bool)
    ensures
        fits == times_fit(lefts@, rights@),
{
    let mut j: usize = 0;
    while j < rights.len()
        invariant
            j <= rights@.len(),
            forall|a: int, b: int|
                0 <= a < lefts@.len() && 0 <= b < j && first_on_its_tick(rights@, b) ==> i128::MIN
                    <= (#[trigger] rights@[b]).timestamp_ns - (#[trigger] lefts@[a]).timestamp_ns
                    <= i128::MAX,
        decreases rights@.len() - j,
    {
        if is_first_on_tick(rights, j) {
            let mut i: usize = 0;
            while i < lefts.len()
                invariant
                    j < rights@.len(),
                    i <= lefts@.len(),
                    first_on_its_tick(rights@, j as int),
                    forall|a: int, b: int|
                        0 <= a < lefts@.len() && 0 <= b < j && first_on_its_tick(rights@, b)
                            ==> i128::MIN <= (#[trigger] rights@[b]).timestamp_ns - (
                        #[trigger] lefts@[a]).timestamp_ns <= i128::MAX,
                    forall|a: int|
                        0 <= a < i ==> i128::MIN <= rights@[j as int].timestamp_ns - (
                        #[trigger] lefts@[a]).timestamp_ns <= i128::MAX,
                decreases lefts@.len() - i,
            {
                if rights[j].timestamp_ns.checked_sub(lefts[i].timestamp_ns).is_none() {
                    assert(!(i128::MIN <= rights@[j as int].timestamp_ns
                        - lefts@[i as int].timestamp_ns <= i128::MAX));
                    return false;
                }
                i = i + 1;
            }
        }
        j = j + 1;
    }
    true
}

/// Whether each left tick moved by `lag` fits `i64`.
fn shift_within(lefts: &Vec<IndexedEvent>, lag: i64) -> (fits: bool)
    ensures
        fits == shift_fits(lefts@, lag),
{
    let mut k: usize = 0;
    while k < lefts.len()
        invariant
            k <= lefts@.len(),
            forall|m: int|
                0 <= m < k ==> i64::MIN <= (#[trigger] lefts@[m]).tick_index + lag <= i64::MAX,
        decreases lefts@.len() - k,
    {
        if lefts[k].tick_index.checked_add(lag).is_none() {
            assert(!(i64::MIN <= lefts@[k as int].tick_index + lag <= i64::MAX));
            return false;
        }
        k = k + 1;
    }
    true
}

/// Whether, when `lag` is scored, each of its samples and the magnitude of
/// its deviation from their median fit `i128`.
fn spread_within(lefts: &Vec<IndexedEvent>, rights: &Vec<IndexedEvent>, lag: i64) -> (fits: bool)
    requires
        shift_fits(lefts@, lag),
        times_fit(lefts@, rights@),
    ensures
        fits == spread_fits(lefts@, rights@, lag),
{
    let samples = lag_samples(lefts, rights, lag);
    if samples.len() < 2 {
        return true;
    }
    let median = median_i128(&samples);
    if median <= 0 {
        return true;
    }
    let mut k: usize = 0;
    while k < samples.len()
        invariant
            k <= samples@.len(),
            samples@ == lag_samples_spec(lefts@, rights@, lag),
            samples@.len() >= 2,
            median == median_of(samples@),
            median > 0,
            forall|m: int|
                0 <= m < k ==> i128::MIN < #[trigger] samples@[m] - median <= i128::MAX,
        decreases samples@.len() - k,
    {
        match samples[k].checked_sub(median) {
            None => {
                assert(!(i128::MIN < samples@[k as int] - median <= i128::MAX));
                return false;
            },
            Some(difference) => {
                if difference == i128::MIN {
                    assert(!(i128::MIN < samples@[k as int] - median <= i128::MAX));
                    return false;
                }
            },
        }
        k = k + 1;
    }
    true
}

/// Whether the arithmetic of choosing a lag from two streams' valid rows fits.
fn choice_within(lefts: &Vec<IndexedEvent>, rights: &Vec<IndexedEvent>) -> (fits: bool)
    ensures
        fits == choice_fits(lefts@, rights@),
{
    if !differences_within(lefts, rights) {
        return false;
    }
    if !times_within(lefts, rights) {
        return false;
    }
    let lags = candidate_lags(lefts, rights);
    let ghost set = candidate_lag_set(lefts@, rights@);
    let mut k: usize = 0;
    while k < lags.len()
        invariant
            k <= lags@.len(),
            times_fit(lefts@, rights@),
            set == candidate_lag_set(lefts@, rights@),
            lags@.to_set() == set,
            forall|m: int| 0 <= m < k ==> lag_fits(lefts@, rights@, #[trigger] lags@[m]),
        decreases lags@.len() - k,
    {
        let lag = lags[k];
        assert(lags@.to_set().contains(lag));
        if !shift_within(lefts, lag) {
            return false;
        }
        if !spread_within(lefts, rights, lag) {
            return false;
        }
        k = k + 1;
    }
    assert forall|lag: i64| #[trigger] set.contains(lag) implies lag_fits(lefts@, rights@, lag) by {
        assert(lags@.to_set().contains(lag));
        let m = choose|m: int| 0 <= m < lags@.len() && lags@[m] == lag;
        assert(lag_fits(lefts@, rights@, lags@[m]));
    }
    match best_lag(lefts, rights, &lags) {
        None => true,
        Some(_) => {
            proof {
                let m = choose|m: int|
                    0 <= m < lags@.len() && lag_score(lefts@, rights@, #[trigger] lags@[m]) is Some;
                assert(lags@.to_set().contains(lags@[m]));
                let (i, j) = choose|i: int, j: int|
                    0 <= i < lefts@.len() && 0 <= j < rights@.len() && rights@[j].tick_index
                        - lefts@[i].tick_index == lags@[m];
                assert(first_on_its_tick(rights@, 0));
                assert(i128::MIN <= rights@[0].timestamp_ns - lefts@[0].timestamp_ns <= i128::MAX);
            }
            rights[0].timestamp_ns - lefts[0].timestamp_ns != i128::MIN
        },
    }
}

/// Whether pairing at `lag` can move every tick.
fn ticks_shift_within(reference: &Vec<IndexedEvent>, returned: &Vec<IndexedEvent>, lag: i64) -> (fits: bool)
    ensures
        fits == ticks_shift(reference@, returned@, lag),
{
    if !shift_within(reference, lag) {
        return false;
    }
    let mut j: usize = 0;
    while j < returned.len()
        invariant
            j <= returned@.len(),
            shift_fits(reference@, lag),
            forall|m: int|
                0 <= m < j ==> i64::MIN <= (#[trigger] returned@[m]).tick_index - lag <= i64::MAX,
        decreases returned@.len() - j,
    {
        if returned[j].tick_index.checked_sub(lag).is_none() {
            assert(!(i64::MIN <= returned@[j as int].tick_index - lag <= i64::MAX));
            return false;
        }
        j = j + 1;
    }
    true
}

/// Whether every latency that pairing at `lag` takes fits `i128`.
fn latencies_within(reference: &Vec<IndexedEvent>, returned: &Vec<IndexedEvent>, lag: i64) -> (fits: bool)
    requires
        ticks_shift(reference@, returned@, lag),
    ensures
        fits == latencies_fit(reference@, returned@, lag),
{
    let mut i: usize = 0;
    while i < reference.len()
        invariant
            i <= reference@.len(),
            ticks_shift(reference@, returned@, lag),
            forall|a: int, b: int|
                0 <= a < i && 0 <= b < returned@.len() && first_on_its_tick(reference@, a)
                    && first_on_its_tick(returned@, b) && (#[trigger] reference@[a]).disposition
                    == EventDisposition::Valid && (#[trigger] returned@[b]).disposition
                    == EventDisposition::Valid && returned@[b].tick_index == reference@[a].tick_index
                    + lag ==> i128::MIN <= returned@[b].timestamp_ns - reference@[a].timestamp_ns
                    <= i128::MAX,
        decreases reference@.len() - i,
    {
        let left = reference[i];
        if left.disposition == EventDisposition::Valid && is_first_on_tick(reference, i) {
            assert(i64::MIN <= reference@[i as int].tick_index + lag <= i64::MAX);
            let target = left.tick_index + lag;
            let mut j: usize = 0;
            while j < returned.len()
                invariant
                    i < reference@.len(),
                    j <= returned@.len(),
                    left == reference@[i as int],
                    left.disposition == EventDisposition::Valid,
                    first_on_its_tick(reference@, i as int),
                    target == left.tick_index + lag,
                    forall|a: int, b: int|
                        0 <= a < i && 0 <= b < returned@.len() && first_on_its_tick(reference@, a)
                            && first_on_its_tick(returned@, b) && (#[trigger] reference@[a]).disposition
                            == EventDisposition::Valid && (#[trigger] returned@[b]).disposition
                            == EventDisposition::Valid && returned@[b].tick_index
                            == reference@[a].tick_index + lag ==> i128::MIN
                            <= returned@[b].timestamp_ns - reference@[a].timestamp_ns <= i128::MAX,
                    forall|b: int|
                        0 <= b < j && first_on_its_tick(returned@, b) && (
                        #[trigger] returned@[b]).disposition == EventDisposition::Valid
                            && returned@[b].tick_index == target ==> i128::MIN
                            <= returned@[b].timestamp_ns - left.timestamp_ns <= i128::MAX,
                decreases returned@.len() - j,
            {
                let right = returned[j];
                if right.disposition == EventDisposition::Valid && right.tick_index == target
                    && is_first_on_tick(returned, j) {
                    if right.timestamp_ns.checked_sub(left.timestamp_ns).is_none() {
                        assert(first_on_its_tick(reference@, i as int));
                        assert(!(i128::MIN <= returned@[j as int].timestamp_ns
                            - reference@[i as int].timestamp_ns <= i128::MAX));
                        return false;
                    }
                }
                j = j + 1;
            }
        }
        i = i + 1;
    }
    true
}

/// Whether the arithmetic of choosing the lag for a paired capture, and of
/// pairing its rows at the lag chosen, stays within its machine types.
/// `period_ns` is the reference stream's fitted period, in whole nanoseconds.
pub fn pairing_in_range(
    capture: &PairedCapture,
    reference_rows: &Vec<IndexedEvent>,
    returned_rows: &Vec<IndexedEvent>,
    period_ns: i128,
) -> (within: bool)
    ensures
        within == pairing_inputs_fit(*capture, reference_rows@, returned_rows@, period_ns),
{
    let reference_events = &capture.reference_events;
    let returned_events = &capture.returned_events;
    if !anchors_within(reference_events, returned_events, reference_rows, returned_rows) {
        return false;
    }
    if anchored_lag(reference_events, returned_events, reference_rows, returned_rows).is_none() {
        let lefts = valid_only(reference_rows);
        let rights = valid_only(returned_rows);
        if !choice_within(&lefts, &rights) {
            return false;
        }
    }
    match select_lag(reference_events, returned_events, reference_rows, returned_rows, period_ns) {
        Ok((lag, _, _)) => ticks_shift_within(reference_rows, returned_rows, lag) && latencies_within(
            reference_rows,
            returned_rows,
            lag,
        ),
        Err(_) => true,
    }
}

/// Pairs the analysed rows of both streams of `capture`: chooses the lag,
/// pairs the rows tick by tick, and requires at least one valid pair.
/// `period_ns` is the reference stream's fitted period, in whole nanoseconds.
pub fn pair_streams(
    capture: &PairedCapture,
    reference_rows: &Vec<IndexedEvent>,
    returned_rows: &Vec<IndexedEvent>,
    period_ns: i128,
) -> (result: Result<PairingResult, AppError>)
    requires
        pairing_inputs_fit(*capture, reference_rows@, returned_rows@, period_ns),
    ensures
        match pairing_outcome(*capture, reference_rows@, returned_rows@, period_ns) {
            Ok((lag, anchored, lags, rows)) => result matches Ok(pairing) && pairing.lag_ticks
                == lag && pairing.anchored == anchored && pairing.candidate_lags@ == lags
                && pairing.rows@ == rows && pairing.status_counts == status_counts_spec(rows),
            Err(message) => result matches Err(error) && error.is_invalid_capture(message),
        },
{
    let (lag, anchored, lags) = match select_lag(
        &capture.reference_events,
        &capture.returned_events,
        reference_rows,
        returned_rows,
        period_ns,
    ) {
        Ok(choice) => choice,
        Err(error) => {
            return Err(error);
        },
    };
    let rows = pair_rows(reference_rows, returned_rows, lag);
    let values = valid_latencies(&rows);
    if values.len() == 0 {
        return Err(
            AppError::InvalidCapture("paired analysis requires at least one valid pair".to_owned()),
        );
    }
    let counts = status_counts(&rows);
    Ok(PairingResult { rows, lag_ticks: lag, anchored, candidate_lags: lags, status_counts: counts })
}

/// The message of a paired capture that did not end complete.
pub open spec fn incomplete_capture() -> Seq<char> {
    "paired analysis requires a complete capture"@
}

/// Whether a paired capture can be analysed: it is structurally valid, it
/// ended complete, and its graph never changed after the initial timing.
pub fn check_pairable_capture(capture: &PairedCapture) -> (result: Result<(), AppError>)
    ensures
        paired_capture_fault(*capture) matches Some(fault) ==> (result matches Err(error)
            && error.reports(fault)),
        paired_capture_fault(*capture) is None && capture.completion.status
            != CompletionStatus::Complete ==> (result matches Err(error)
            && error.is_invalid_capture(incomplete_capture())),
        paired_capture_fault(*capture) is None && capture.completion.status
            == CompletionStatus::Complete ==> (if exists|i: int|
            0 <= i < capture.transitions@.len() && !((#[trigger] capture.transitions@[i]).kind
                is Initial) {
            result == Err::<(), AppError>(AppError::GraphRateTransitionUnsupported)
        } else {
            result is Ok
        }),
{
    if let Err(error) = capture.validate() {
        return Err(error);
    }
    if capture.completion.status != CompletionStatus::Complete {
        return Err(AppError::InvalidCapture("paired analysis requires a complete capture".to_owned()));
    }
    let mut index: usize = 0;
    while index < capture.transitions.len()
        invariant
            index <= capture.transitions@.len(),
            paired_capture_fault(*capture) is None,
            capture.completion.status == CompletionStatus::Complete,
            forall|i: int| 0 <= i < index ==> (#[trigger] capture.transitions@[i]).kind is Initial,
        decreases capture.transitions@.len() - index,
    {
        match capture.transitions[index].kind {
            GraphTransitionKind::Initial => {},
            _ => {
                return Err(AppError::GraphRateTransitionUnsupported);
            },
        }
        index = index + 1;
    }
    Ok(())
}

/// The events of `events`, copied.
fn copy_events(events: &Vec<CapturedEvent>) -> (copy: Vec<CapturedEvent>)
    ensures
        copy@ == events@,
{
    let mut copy: Vec<CapturedEvent> = Vec::new();
    let mut index: usize = 0;
    while index < events.len()
        invariant
            index <= events@.len(),
            copy@ == events@.take(index as int),
        decreases events@.len() - index,
    {
        copy.push(events[index].clone());
        assert(events@.take(index + 1) =~= events@.take(index as int).push(events@[index as int]));
        index = index + 1;
    }
    assert(events@.take(events@.len() as int) =~= events@);
    copy
}

/// One stream of a paired capture as a v1 capture of its own: the shared
/// metadata, the source of `role`, no transitions, and `events`.
pub fn single_capture(capture: &PairedCapture, events: &Vec<CapturedEvent>, role: StreamRole) -> (single: CaptureFile)
    ensures
        single.format_version == CURRENT_FORMAT_VERSION,
        single.backend == capture.backend,
        single.source == (match role {
            StreamRole::Reference => capture.reference,
            StreamRole::Returned => capture.returned,
        }),
        single.timestamp_method == capture.timestamp_method,
        single.ppqn == capture.ppqn,
        single.application_version == capture.application_version,
        single.environment == capture.environment,
        single.transitions@.len() == 0,
        single.events@ == events@,
{
    CaptureFile {
        format_version: CURRENT_FORMAT_VERSION,
        backend: capture.backend.clone(),
        source: match role {
            StreamRole::Reference => capture.reference.clone(),
            StreamRole::Returned => capture.returned.clone(),
        },
        timestamp_method: capture.timestamp_method.clone(),
        ppqn: capture.ppqn,
        application_version: capture.application_version.clone(),
        environment: capture.environment.clone(),
        transitions: Vec::new(),
        events: copy_events(events),
    }
}

// ---------------------------------------------------------------------------
// Laws of the pairing.
/// An element of a group is an element of the flattened groups.
pub proof fn lemma_flatten_member<A>(groups: Seq<Seq<A>>, k: int, i: int)
    requires
        0 <= k < groups.len(),
        0 <= i < groups[k].len(),
    ensures
        groups.flatten().contains(groups[k][i]),
    decreases groups.len(),
{
    if k == 0 {
        assert(groups.flatten()[i] == groups[0][i]);
    } else {
        let rest = groups.drop_first();
        assert(rest[k - 1] == groups[k]);
        lemma_flatten_member(rest, k - 1, i);
        let j = choose|j: int| 0 <= j < rest.flatten().len() && rest.flatten()[j] == groups[k][i];
        assert(groups.flatten()[groups[0].len() + j] == rest.flatten()[j]);
    }
}

/// Every element of the flattened groups comes from one of the groups.
pub proof fn lemma_flatten_origin<A>(groups: Seq<Seq<A>>, n: int) -> (place: (int, int))
    requires
        0 <= n < groups.flatten().len(),
    ensures
        0 <= place.0 < groups.len(),
        0 <= place.1 < groups[place.0].len(),
        groups[place.0][place.1] == groups.flatten()[n],
    decreases groups.len(),
{
    if n < groups[0].len() {
        (0, n)
    } else {
        let rest = groups.drop_first();
        let (k, i) = lemma_flatten_origin(rest, n - groups[0].len());
        assert(rest[k] == groups[k + 1]);
        (k + 1, i)
    }
}

/// The rows on `tick` all sit on it.
proof fn lemma_rows_on_tick(rows: Seq<IndexedEvent>, tick: int, i: int)
    requires
        0 <= i < rows_on(rows, tick).len(),
    ensures
        rows_on(rows, tick)[i].tick_index == tick,
        rows.contains(rows_on(rows, tick)[i]),
{
    rows.lemma_filter_pred(at_tick(tick), i);
    assert(rows_on(rows, tick).contains(rows_on(rows, tick)[i]));
    rows.lemma_filter_contains_rev(at_tick(tick), rows_on(rows, tick)[i]);
}

/// A valid pair joins a valid reference row on its tick with a valid returned
/// row `lag` ticks later, and its latency is the time between them.
pub proof fn law_valid_pairs_join_valid_rows(
    reference: Seq<IndexedEvent>,
    returned: Seq<IndexedEvent>,
    lag: i64,
    n: int,
)
    requires
        0 <= n < pair_rows_spec(reference, returned, lag).len(),
        pair_rows_spec(reference, returned, lag)[n].status == PairStatus::Valid,
    ensures
        ({
            let row = pair_rows_spec(reference, returned, lag)[n];
            &&& row.reference matches Some(left)
            &&& row.returned matches Some(right)
            &&& left.disposition == EventDisposition::Valid
            &&& right.disposition == EventDisposition::Valid
            &&& left.tick_index == row.tick_index
            &&& right.tick_index == row.tick_index + lag
            &&& row.latency_ns == Some((right.timestamp_ns - left.timestamp_ns) as i128)
        }),
{
    let ticks = ascending_members(pairing_ticks(reference, returned, lag));
    let groups = ticks.map_values(rows_of_tick(reference, returned, lag));
    let (k, i) = lemma_flatten_origin(groups, n);
    let tick = ticks[k];
    let extras_left = extra_rows(rows_on(reference, tick as int)).map_values(extra_reference(tick));
    let extras_right = extra_rows(rows_on(returned, tick + lag)).map_values(extra_returned(tick));
    assert(groups[k] == seq![main_pair(reference, returned, lag, tick)] + extras_left + extras_right);
    if i >= 1 && i < 1 + extras_left.len() {
        assert(groups[k][i] == extras_left[i - 1]);
    } else if i >= 1 + extras_left.len() {
        assert(groups[k][i] == extras_right[i - 1 - extras_left.len()]);
    } else {
        assert(groups[k][i] == main_pair(reference, returned, lag, tick));
        lemma_rows_on_tick(reference, tick as int, 0);
        lemma_rows_on_tick(returned, tick + lag, 0);
    }
}

/// Each latency taken from `rows` is the latency of one of its valid pairs.
pub proof fn lemma_latency_origin(rows: Seq<PairedEvent>, n: int) -> (k: int)
    requires
        0 <= n < valid_latencies_spec(rows).len(),
    ensures
        0 <= k < rows.len(),
        rows[k].status == PairStatus::Valid,
        rows[k].latency_ns == Some(valid_latencies_spec(rows)[n]),
    decreases rows.len(),
{
    let earlier = valid_latencies_spec(rows.drop_last());
    if n < earlier.len() {
        let k = lemma_latency_origin(rows.drop_last(), n);
        assert(rows.drop_last()[k] == rows[k]);
        k
    } else {
        rows.len() - 1
    }
}

/// Every latency sample of a pairing is the time from a valid reference row to
/// the valid returned row paired with it: anomalous rows never enter the
/// latency statistics.
pub proof fn law_latencies_come_from_valid_pairs(
    reference: Seq<IndexedEvent>,
    returned: Seq<IndexedEvent>,
    lag: i64,
    n: int,
)
    requires
        0 <= n < valid_latencies_spec(pair_rows_spec(reference, returned, lag)).len(),
    ensures
        exists|k: int|
            0 <= k < pair_rows_spec(reference, returned, lag).len() && {
                let row = #[trigger] pair_rows_spec(reference, returned, lag)[k];
                &&& row.status == PairStatus::Valid
                &&& row.reference matches Some(left)
                &&& row.returned matches Some(right)
                &&& left.disposition == EventDisposition::Valid
                &&& right.disposition == EventDisposition::Valid
                &&& valid_latencies_spec(pair_rows_spec(reference, returned, lag))[n] == (
                right.timestamp_ns - left.timestamp_ns) as i128
            },
{
    let rows = pair_rows_spec(reference, returned, lag);
    let k = lemma_latency_origin(rows, n);
    law_valid_pairs_join_valid_rows(reference, returned, lag, k);
    assert(rows[k].latency_ns == Some(valid_latencies_spec(rows)[n]));
}

/// The order that ticks are listed in.
pub open spec fn tick_order() -> spec_fn(i64, i64) -> bool {
    |left: i64, right: i64| left <= right
}

/// Listing a finite set repeats none of its members and lists them all.
pub proof fn lemma_listing_distinct<A>(members: Set<A>)
    requires
        members.finite(),
    ensures
        members.to_seq().no_duplicates(),
        members.to_seq().to_set() == members,
    decreases members.len(),
{
    members.lemma_to_seq_to_set_id();
    if members.len() > 0 {
        let x = members.choose();
        let rest = members.remove(x);
        lemma_listing_distinct(rest);
        let listed = members.to_seq();
        let tail = rest.to_seq();
        assert(listed =~= seq![x] + tail);
        assert forall|i: int, j: int|
            0 <= i < listed.len() && 0 <= j < listed.len() && i != j implies listed[i]
            != listed[j] by {
            if i == 0 {
                assert(listed[j] == tail[j - 1]);
                assert(tail.to_set().contains(tail[j - 1]));
            } else if j == 0 {
                assert(listed[i] == tail[i - 1]);
                assert(tail.to_set().contains(tail[i - 1]));
            } else {
                assert(listed[i] == tail[i - 1] && listed[j] == tail[j - 1]);
            }
        }
    }
}

/// Every finite set of ticks has an ascending listing.
pub proof fn lemma_ascending_members_exist(members: Set<i64>)
    requires
        members.finite(),
    ensures
        strictly_increasing(ascending_members(members)),
        ascending_members(members).to_set() == members,
{
    broadcast use vstd::seq_lib::group_to_multiset_ensures;

    lemma_listing_distinct(members);
    let listed = members.to_seq();
    let sorted = listed.sort_by(tick_order());
    assert(vstd::relations::total_ordering(tick_order()));
    listed.lemma_sort_by_ensures(tick_order());
    listed.lemma_multiset_has_no_duplicates();
    assert forall|x: i64| sorted.to_multiset().contains(x) implies sorted.to_multiset().count(x)
        == 1 by {
        assert(listed.to_multiset().contains(x));
    }
    sorted.lemma_multiset_has_no_duplicates_conv();
    assert forall|i: int, j: int| 0 <= i < j < sorted.len() implies sorted[i] < sorted[j] by {
        assert(tick_order()(sorted[i], sorted[j]));
    }
    assert forall|x: i64| sorted.to_set().contains(x) <==> members.contains(x) by {
        assert(sorted.contains(x) <==> sorted.to_multiset().count(x) > 0);
        assert(listed.contains(x) <==> listed.to_multiset().count(x) > 0);
        assert(listed.to_set().contains(x) <==> members.contains(x));
    }
    assert(sorted.to_set() =~= members);
    assert(strictly_increasing(sorted) && sorted.to_set() == members);
}

/// The ticks that two streams reach are finitely many.
pub proof fn lemma_pairing_ticks_finite(reference: Seq<IndexedEvent>, returned: Seq<IndexedEvent>, lag: i64)
    ensures
        pairing_ticks(reference, returned, lag).finite(),
{
    let lefts = reference.map_values(|row: IndexedEvent| row.tick_index);
    let rights = returned.map_values(|row: IndexedEvent| (row.tick_index - lag) as i64);
    let both = lefts.to_set().union(rights.to_set());
    vstd::seq_lib::seq_to_set_is_finite(lefts);
    vstd::seq_lib::seq_to_set_is_finite(rights);
    assert forall|tick: i64| pairing_ticks(reference, returned, lag).contains(tick) implies both.contains(
        tick,
    ) by {
        if exists|i: int| 0 <= i < reference.len() && reference[i].tick_index == tick {
            let i = choose|i: int| 0 <= i < reference.len() && reference[i].tick_index == tick;
            assert(lefts[i] == tick);
        } else {
            let j = choose|j: int| 0 <= j < returned.len() && returned[j].tick_index - lag == tick;
            assert(rights[j] == tick);
        }
    }
    vstd::set_lib::lemma_set_subset_finite(both, pairing_ticks(reference, returned, lag));
}

/// A row `rows_on` lists on its own tick is that tick's main or further row.
proof fn lemma_row_in_tick_rows(
    reference: Seq<IndexedEvent>,
    returned: Seq<IndexedEvent>,
    lag: i64,
    tick: i64,
    from_reference: bool,
    row: IndexedEvent,
) -> (i: int)
    requires
        from_reference ==> rows_on(reference, tick as int).contains(row),
        !from_reference ==> rows_on(returned, tick + lag).contains(row),
    ensures
        0 <= i < tick_rows(reference, returned, lag, tick).len(),
        tick_rows(reference, returned, lag, tick)[i].tick_index == tick,
        from_reference ==> tick_rows(reference, returned, lag, tick)[i].reference == Some(row),
        !from_reference ==> tick_rows(reference, returned, lag, tick)[i].returned == Some(row),
{
    let lefts = rows_on(reference, tick as int);
    let rights = rows_on(returned, tick + lag);
    let extras_left = extra_rows(lefts).map_values(extra_reference(tick));
    let extras_right = extra_rows(rights).map_values(extra_returned(tick));
    let group = tick_rows(reference, returned, lag, tick);
    assert(group == seq![main_pair(reference, returned, lag, tick)] + extras_left + extras_right);
    if from_reference {
        let p = choose|p: int| 0 <= p < lefts.len() && lefts[p] == row;
        if p == 0 {
            assert(group[0] == main_pair(reference, returned, lag, tick));
            0
        } else {
            assert(extra_rows(lefts)[p - 1] == row);
            assert(group[p] == extras_left[p - 1]);
            p
        }
    } else {
        let p = choose|p: int| 0 <= p < rights.len() && rights[p] == row;
        if p == 0 {
            assert(group[0] == main_pair(reference, returned, lag, tick));
            0
        } else {
            assert(extra_rows(rights)[p - 1] == row);
            assert(group[1 + extras_left.len() + p - 1] == extras_right[p - 1]);
            1 + extras_left.len() + p - 1
        }
    }
}

/// Pairing loses no row: every reference row appears as the reference of a
/// paired row on its own tick, missing partners, duplicates and anomalies
/// included.
pub proof fn law_every_reference_row_is_paired(
    reference: Seq<IndexedEvent>,
    returned: Seq<IndexedEvent>,
    lag: i64,
    i: int,
)
    requires
        0 <= i < reference.len(),
    ensures
        exists|k: int|
            0 <= k < pair_rows_spec(reference, returned, lag).len() && (#[trigger] pair_rows_spec(
                reference,
                returned,
                lag,
            )[k]).reference == Some(reference[i]) && pair_rows_spec(reference, returned, lag)[k].tick_index
                == reference[i].tick_index,
{
    let set = pairing_ticks(reference, returned, lag);
    lemma_pairing_ticks_finite(reference, returned, lag);
    lemma_ascending_members_exist(set);
    let ticks = ascending_members(set);
    let tick = reference[i].tick_index;
    assert(set.contains(tick));
    assert(ticks.to_set().contains(tick));
    let q = choose|q: int| 0 <= q < ticks.len() && ticks[q] == tick;
    reference.lemma_filter_contains(at_tick(tick as int), i);
    let p = lemma_row_in_tick_rows(reference, returned, lag, tick, true, reference[i]);
    let groups = ticks.map_values(rows_of_tick(reference, returned, lag));
    assert(groups[q] == tick_rows(reference, returned, lag, tick));
    lemma_flatten_member(groups, q, p);
    let rows = pair_rows_spec(reference, returned, lag);
    let k = choose|k: int| 0 <= k < rows.len() && rows[k] == groups[q][p];
    assert(rows[k].reference == Some(reference[i]));
}

/// Pairing loses no row: every returned row appears as the returned row of a
/// paired row on its tick moved back by `lag`.
pub proof fn law_every_returned_row_is_paired(
    reference: Seq<IndexedEvent>,
    returned: Seq<IndexedEvent>,
    lag: i64,
    j: int,
)
    requires
        0 <= j < returned.len(),
        i64::MIN <= returned[j].tick_index - lag <= i64::MAX,
    ensures
        exists|k: int|
            0 <= k < pair_rows_spec(reference, returned, lag).len() && (#[trigger] pair_rows_spec(
                reference,
                returned,
                lag,
            )[k]).returned == Some(returned[j]) && pair_rows_spec(reference, returned, lag)[k].tick_index
                == returned[j].tick_index - lag,
{
    let set = pairing_ticks(reference, returned, lag);
    lemma_pairing_ticks_finite(reference, returned, lag);
    lemma_ascending_members_exist(set);
    let ticks = ascending_members(set);
    let tick = (returned[j].tick_index - lag) as i64;
    assert(set.contains(tick));
    assert(ticks.to_set().contains(tick));
    let q = choose|q: int| 0 <= q < ticks.len() && ticks[q] == tick;
    returned.lemma_filter_contains(at_tick(tick + lag), j);
    let p = lemma_row_in_tick_rows(reference, returned, lag, tick, false, returned[j]);
    let groups = ticks.map_values(rows_of_tick(reference, returned, lag));
    assert(groups[q] == tick_rows(reference, returned, lag, tick));
    lemma_flatten_member(groups, q, p);
    let rows = pair_rows_spec(reference, returned, lag);
    let k = choose|k: int| 0 <= k < rows.len() && rows[k] == groups[q][p];
    assert(rows[k].returned == Some(returned[j]));
}

/// Every one of `values` lies between the first and last of their ascending order.
proof fn lemma_within_extremes(values: Seq<i128>, i: int)
    requires
        0 <= i < values.len(),
    ensures
        ascending(values)[0] <= values[i] <= ascending(values)[values.len() - 1],
{
    broadcast use vstd::seq_lib::group_to_multiset_ensures;

    lemma_ascending_len(values);
    let sorted = ascending(values);
    assert(values.contains(values[i]));
    assert(sorted.to_multiset().count(values[i]) > 0);
    assert(sorted.contains(values[i]));
    let j = choose|j: int| 0 <= j < sorted.len() && sorted[j] == values[i];
    lemma_ascending_ordered(values);
    assert(sorted[0] <= sorted[j] <= sorted[values.len() - 1]);
}

/// The sum of values between `low` and `high` lies between `count * low`
/// and `count * high`.
proof fn lemma_sum_between(values: Seq<i128>, low: int, high: int)
    requires
        forall|i: int| 0 <= i < values.len() ==> low <= #[trigger] values[i] <= high,
    ensures
        values.len() * low <= sum_of(values) <= values.len() * high,
    decreases values.len(),
{
    if values.len() > 0 {
        lemma_sum_between(values.drop_last(), low, high);
        assert(values.last() == values[values.len() - 1]);
        assert(values.len() * low == (values.len() - 1) * low + low) by (nonlinear_arith);
        assert(values.len() * high == (values.len() - 1) * high + high) by (nonlinear_arith);
    }
}

/// The latency summary is ordered: minimum, median, 95th percentile and
/// maximum never decrease, and the mean lies between minimum and maximum.
pub proof fn law_latency_summary_is_ordered(values: Seq<i128>)
    requires
        values.len() > 0,
    ensures
        ascending(values)[0] <= median_of(values),
        median_of(values) <= ascending(values)[p95_index(values.len() as int)],
        ascending(values)[p95_index(values.len() as int)] <= ascending(values)[values.len() - 1],
        ascending(values)[0] <= mean_spec(values) <= ascending(values)[values.len() - 1],
{
    lemma_ascending_len(values);
    let sorted = ascending(values);
    let count = values.len() as int;
    let middle = count / 2;
    let high = p95_index(count);
    assert(0 <= middle <= high <= count - 1) by (nonlinear_arith)
        requires
            count >= 1,
            middle == count / 2,
            high == ((count - 1) * 95 + 50) / 100,
    ;
    lemma_ascending_ordered(values);
    assert(sorted[0] <= sorted[middle] <= sorted[high] <= sorted[count - 1]);
    let low_value = sorted[0] as int;
    let high_value = sorted[count - 1] as int;
    assert forall|i: int| 0 <= i < values.len() implies low_value <= #[trigger] values[i]
        <= high_value by {
        lemma_within_extremes(values, i);
    }
    lemma_sum_between(values, low_value, high_value);
    let total = sum_of(values);
    assert(low_value <= truncating_div(total, count) <= high_value) by (nonlinear_arith)
        requires
            count >= 1,
            count * low_value <= total <= count * high_value,
            truncating_div(total, count) == (if total >= 0 {
                total / count
            } else {
                -((-total) / count)
            }),
    ;
}


/// The reference row of a paired row, if it has one.
pub open spec fn reference_of() -> spec_fn(PairedEvent) -> Option<IndexedEvent> {
    |row: PairedEvent| row.reference
}

/// The returned row of a paired row, if it has one.
pub open spec fn returned_of() -> spec_fn(PairedEvent) -> Option<IndexedEvent> {
    |row: PairedEvent| row.returned
}

/// The rows of `rows` on each of `ticks` moved by `shift`, tick after tick.
pub open spec fn grouped(ticks: Seq<i64>, rows: Seq<IndexedEvent>, shift: int) -> Seq<IndexedEvent>
    decreases ticks.len(),
{
    if ticks.len() == 0 {
        Seq::empty()
    } else {
        rows_on(rows, ticks[0] + shift) + grouped(ticks.drop_first(), rows, shift)
    }
}

/// Keeping what `f` keeps of two sequences joined keeps it of each in turn.
proof fn lemma_filter_map_add<A, B>(a: Seq<A>, b: Seq<A>, f: spec_fn(A) -> Option<B>)
    ensures
        (a + b).filter_map(f) == a.filter_map(f) + b.filter_map(f),
    decreases b.len(),
{
    if b.len() == 0 {
        assert(a + b =~= a);
        assert(a.filter_map(f) + b.filter_map(f) =~= a.filter_map(f));
    } else {
        lemma_filter_map_add(a, b.drop_last(), f);
        assert((a + b).drop_last() =~= a + b.drop_last());
        assert((a + b).last() == b.last());
        match f(b.last()) {
            Some(x) => {
                assert((a + b).filter_map(f) =~= a.filter_map(f) + b.filter_map(f));
            },
            None => {},
        }
    }
}

/// Mapping rows to paired rows that `f` takes back to them, and keeping what
/// `f` keeps, gives the rows again; when `f` keeps nothing, nothing.
proof fn lemma_filter_map_of_map(
    rows: Seq<IndexedEvent>,
    g: spec_fn(IndexedEvent) -> PairedEvent,
    f: spec_fn(PairedEvent) -> Option<IndexedEvent>,
    back: bool,
)
    requires
        back ==> forall|x: IndexedEvent| #[trigger] f(g(x)) == Some(x),
        !back ==> forall|x: IndexedEvent| #[trigger] f(g(x)) is None,
    ensures
        rows.map_values(g).filter_map(f) == if back {
            rows
        } else {
            Seq::empty()
        },
    decreases rows.len(),
{
    if rows.len() > 0 {
        lemma_filter_map_of_map(rows.drop_last(), g, f, back);
        assert(rows.map_values(g).drop_last() =~= rows.drop_last().map_values(g));
        assert(rows.map_values(g).last() == g(rows.last()));
        if back {
            assert(rows.drop_last() + seq![rows.last()] =~= rows);
        }
    } else {
        assert(rows.map_values(g) =~= Seq::<PairedEvent>::empty());
        assert(rows =~= Seq::<IndexedEvent>::empty());
    }
}

/// The paired rows of one tick list the reference rows on it, and the
/// returned rows on it moved by `lag`, each in order.
proof fn lemma_tick_lists(reference: Seq<IndexedEvent>, returned: Seq<IndexedEvent>, lag: i64, tick: i64)
    ensures
        tick_rows(reference, returned, lag, tick).filter_map(reference_of()) == rows_on(
            reference,
            tick as int,
        ),
        tick_rows(reference, returned, lag, tick).filter_map(returned_of()) == rows_on(
            returned,
            tick + lag,
        ),
{
    let lefts = rows_on(reference, tick as int);
    let rights = rows_on(returned, tick + lag);
    let main = seq![main_pair(reference, returned, lag, tick)];
    let extras_left = extra_rows(lefts).map_values(extra_reference(tick));
    let extras_right = extra_rows(rights).map_values(extra_returned(tick));
    lemma_filter_map_add(main + extras_left, extras_right, reference_of());
    lemma_filter_map_add(main, extras_left, reference_of());
    lemma_filter_map_add(main + extras_left, extras_right, returned_of());
    lemma_filter_map_add(main, extras_left, returned_of());
    Seq::lemma_filter_map_singleton(main_pair(reference, returned, lag, tick), reference_of());
    Seq::lemma_filter_map_singleton(main_pair(reference, returned, lag, tick), returned_of());
    lemma_filter_map_of_map(extra_rows(lefts), extra_reference(tick), reference_of(), true);
    lemma_filter_map_of_map(extra_rows(lefts), extra_reference(tick), returned_of(), false);
    lemma_filter_map_of_map(extra_rows(rights), extra_returned(tick), reference_of(), false);
    lemma_filter_map_of_map(extra_rows(rights), extra_returned(tick), returned_of(), true);
    if lefts.len() > 0 {
        assert(seq![lefts[0]] + extra_rows(lefts) =~= lefts);
    } else {
        assert(extra_rows(lefts) =~= lefts);
    }
    if rights.len() > 0 {
        assert(seq![rights[0]] + extra_rows(rights) =~= rights);
    } else {
        assert(extra_rows(rights) =~= rights);
    }
    assert(tick_rows(reference, returned, lag, tick) == main + extras_left + extras_right);
    assert(tick_rows(reference, returned, lag, tick).filter_map(reference_of()) =~= lefts);
    assert(tick_rows(reference, returned, lag, tick).filter_map(returned_of()) =~= rights);
}

/// The paired rows of `ticks`, one tick after another, list the rows of both
/// streams on those ticks, tick after tick.
proof fn lemma_ticks_list(reference: Seq<IndexedEvent>, returned: Seq<IndexedEvent>, lag: i64, ticks: Seq<i64>)
    ensures
        ticks.map_values(rows_of_tick(reference, returned, lag)).flatten().filter_map(reference_of())
            == grouped(ticks, reference, 0),
        ticks.map_values(rows_of_tick(reference, returned, lag)).flatten().filter_map(returned_of())
            == grouped(ticks, returned, lag as int),
    decreases ticks.len(),
{
    let groups = ticks.map_values(rows_of_tick(reference, returned, lag));
    if ticks.len() == 0 {
        assert(groups.flatten() =~= Seq::<PairedEvent>::empty());
    } else {
        let rest = ticks.drop_first();
        lemma_ticks_list(reference, returned, lag, rest);
        assert(groups.drop_first() =~= rest.map_values(rows_of_tick(reference, returned, lag)));
        assert(groups.flatten() == groups[0] + groups.drop_first().flatten());
        lemma_filter_map_add(groups[0], groups.drop_first().flatten(), reference_of());
        lemma_filter_map_add(groups[0], groups.drop_first().flatten(), returned_of());
        lemma_tick_lists(reference, returned, lag, ticks[0]);
    }
}

/// One more row joins the rows grouped by distinct ticks once if one of the
/// ticks, moved by `shift`, is its tick, and not at all otherwise.
proof fn lemma_grouped_push(ticks: Seq<i64>, rows: Seq<IndexedEvent>, shift: int, row: IndexedEvent)
    requires
        ticks.no_duplicates(),
    ensures
        grouped(ticks, rows.push(row), shift).to_multiset() == if ticks.contains(
            (row.tick_index - shift) as i64,
        ) && i64::MIN <= row.tick_index - shift <= i64::MAX {
            grouped(ticks, rows, shift).to_multiset().insert(row)
        } else {
            grouped(ticks, rows, shift).to_multiset()
        },
    decreases ticks.len(),
{
    broadcast use vstd::seq_lib::group_to_multiset_ensures;

    if ticks.len() > 0 {
        let rest = ticks.drop_first();
        assert(rest.no_duplicates());
        lemma_grouped_push(rest, rows, shift, row);
        rows.lemma_filter_push(row, at_tick(ticks[0] + shift));
        vstd::seq_lib::lemma_multiset_commutative(
            rows_on(rows.push(row), ticks[0] + shift),
            grouped(rest, rows.push(row), shift),
        );
        vstd::seq_lib::lemma_multiset_commutative(
            rows_on(rows, ticks[0] + shift),
            grouped(rest, rows, shift),
        );
        let target = (row.tick_index - shift) as i64;
        let fits = i64::MIN <= row.tick_index - shift <= i64::MAX;
        if row.tick_index == ticks[0] + shift {
            assert(rows_on(rows.push(row), ticks[0] + shift).to_multiset() =~= rows_on(
                rows,
                ticks[0] + shift,
            ).to_multiset().insert(row));
            assert(ticks.contains(target) && fits) by {
                assert(ticks[0] == target);
            }
            assert(!rest.contains(target)) by {
                if rest.contains(target) {
                    let k = choose|k: int| 0 <= k < rest.len() && rest[k] == target;
                    assert(ticks[k + 1] == ticks[0]);
                }
            }
            assert(grouped(ticks, rows.push(row), shift).to_multiset() =~= grouped(
                ticks,
                rows,
                shift,
            ).to_multiset().insert(row));
        } else {
            assert(rows_on(rows.push(row), ticks[0] + shift) == rows_on(rows, ticks[0] + shift));
            assert(ticks.contains(target) && fits <==> rest.contains(target) && fits) by {
                if ticks.contains(target) && fits {
                    let k = choose|k: int| 0 <= k < ticks.len() && ticks[k] == target;
                    assert(k != 0);
                    assert(rest[k - 1] == target);
                }
                if rest.contains(target) {
                    let k = choose|k: int| 0 <= k < rest.len() && rest[k] == target;
                    assert(ticks[k + 1] == target);
                }
            }
            if ticks.contains(target) && fits {
                assert(grouped(ticks, rows.push(row), shift).to_multiset() =~= grouped(
                    ticks,
                    rows,
                    shift,
                ).to_multiset().insert(row));
            } else {
                assert(grouped(ticks, rows.push(row), shift).to_multiset() =~= grouped(
                    ticks,
                    rows,
                    shift,
                ).to_multiset());
            }
        }
    }
}

/// Rows grouped by distinct ticks that cover each row's tick, moved by
/// `shift`, are the rows themselves, as many times each.
proof fn lemma_grouped_all(ticks: Seq<i64>, rows: Seq<IndexedEvent>, shift: int)
    requires
        ticks.no_duplicates(),
        forall|i: int|
            0 <= i < rows.len() ==> i64::MIN <= (#[trigger] rows[i]).tick_index - shift <= i64::MAX
                && ticks.contains((rows[i].tick_index - shift) as i64),
    ensures
        grouped(ticks, rows, shift).to_multiset() == rows.to_multiset(),
    decreases rows.len(),
{
    broadcast use vstd::seq_lib::group_to_multiset_ensures;

    if rows.len() == 0 {
        lemma_grouped_empty(ticks, rows, shift);
        assert(rows =~= Seq::<IndexedEvent>::empty());
    } else {
        let init = rows.drop_last();
        assert(init.push(rows.last()) =~= rows);
        assert(forall|i: int| 0 <= i < init.len() ==> init[i] == rows[i]);
        lemma_grouped_all(ticks, init, shift);
        assert(rows.last() == rows[rows.len() - 1]);
        lemma_grouped_push(ticks, init, shift, rows.last());
    }
}

/// No rows, grouped by any ticks, are no rows.
proof fn lemma_grouped_empty(ticks: Seq<i64>, rows: Seq<IndexedEvent>, shift: int)
    requires
        rows.len() == 0,
    ensures
        grouped(ticks, rows, shift).len() == 0,
    decreases ticks.len(),
{
    if ticks.len() > 0 {
        lemma_grouped_empty(ticks.drop_first(), rows, shift);
        assert(rows_on(rows, ticks[0] + shift).len() == 0);
    }
}

/// Pairing lists each reference row exactly once: the reference rows of the
/// paired rows are the reference rows given, each as many times as given.
pub proof fn law_each_reference_row_is_listed_once(
    reference: Seq<IndexedEvent>,
    returned: Seq<IndexedEvent>,
    lag: i64,
)
    ensures
        pair_rows_spec(reference, returned, lag).filter_map(reference_of()).to_multiset()
            == reference.to_multiset(),
{
    let set = pairing_ticks(reference, returned, lag);
    lemma_pairing_ticks_finite(reference, returned, lag);
    lemma_ascending_members_exist(set);
    let ticks = ascending_members(set);
    lemma_ticks_list(reference, returned, lag, ticks);
    assert(ticks.no_duplicates());
    assert forall|i: int| 0 <= i < reference.len() implies i64::MIN <= (
    #[trigger] reference[i]).tick_index - 0 <= i64::MAX && ticks.contains(
        (reference[i].tick_index - 0) as i64,
    ) by {
        assert(set.contains(reference[i].tick_index));
        assert(ticks.to_set().contains(reference[i].tick_index));
    }
    lemma_grouped_all(ticks, reference, 0);
}

/// Pairing lists each returned row exactly once, whenever its tick moved back
/// by `lag` fits `i64`: the returned rows of the paired rows are the returned
/// rows given, each as many times as given.
pub proof fn law_each_returned_row_is_listed_once(
    reference: Seq<IndexedEvent>,
    returned: Seq<IndexedEvent>,
    lag: i64,
)
    requires
        forall|j: int|
            0 <= j < returned.len() ==> i64::MIN <= (#[trigger] returned[j]).tick_index - lag
                <= i64::MAX,
    ensures
        pair_rows_spec(reference, returned, lag).filter_map(returned_of()).to_multiset()
            == returned.to_multiset(),
{
    let set = pairing_ticks(reference, returned, lag);
    lemma_pairing_ticks_finite(reference, returned, lag);
    lemma_ascending_members_exist(set);
    let ticks = ascending_members(set);
    lemma_ticks_list(reference, returned, lag, ticks);
    assert(ticks.no_duplicates());
    assert forall|j: int| 0 <= j < returned.len() implies i64::MIN <= (
    #[trigger] returned[j]).tick_index - lag <= i64::MAX && ticks.contains(
        (returned[j].tick_index - lag) as i64,
    ) by {
        assert(set.contains((returned[j].tick_index - lag) as i64));
        assert(ticks.to_set().contains((returned[j].tick_index - lag) as i64));
    }
    lemma_grouped_all(ticks, returned, lag as int);
}


/// Each paired row of a tick sits on that tick, and its rows on their ticks.
proof fn lemma_tick_row_shape(
    reference: Seq<IndexedEvent>,
    returned: Seq<IndexedEvent>,
    lag: i64,
    tick: i64,
    i: int,
)
    requires
        0 <= i < tick_rows(reference, returned, lag, tick).len(),
    ensures
        ({
            let row = tick_rows(reference, returned, lag, tick)[i];
            &&& row.tick_index == tick
            &&& row.reference matches Some(a) ==> a.tick_index == tick
            &&& row.returned matches Some(b) ==> b.tick_index == tick + lag
            &&& row.status == PairStatus::Valid <==> (row.reference is Some && row.returned is Some
                && row.reference->0.disposition == EventDisposition::Valid
                && row.returned->0.disposition == EventDisposition::Valid)
            &&& row.status != PairStatus::Valid ==> row.latency_ns is None
            &&& (row.reference is Some && row.returned is Some) ==> row.status == if row.reference->0.disposition
                == EventDisposition::Valid && row.returned->0.disposition == EventDisposition::Valid {
                PairStatus::Valid
            } else if row.returned->0.disposition == EventDisposition::Valid {
                PairStatus::ReferenceAnomalous
            } else if row.reference->0.disposition == EventDisposition::Valid {
                PairStatus::ReturnedAnomalous
            } else {
                PairStatus::BothAnomalous
            }
            &&& row.status == PairStatus::MissingReturned ==> row.reference is Some && row.returned is None
                && forall|j: int| 0 <= j < returned.len() ==> (#[trigger] returned[j]).tick_index != tick + lag
            &&& row.status == PairStatus::MissingReference ==> row.reference is None
                && forall|k: int| 0 <= k < reference.len() ==> (#[trigger] reference[k]).tick_index != tick
        }),
{
    let lefts = rows_on(reference, tick as int);
    let rights = rows_on(returned, tick + lag);
    let extras_left = extra_rows(lefts).map_values(extra_reference(tick));
    let extras_right = extra_rows(rights).map_values(extra_returned(tick));
    let group = tick_rows(reference, returned, lag, tick);
    assert(group == seq![main_pair(reference, returned, lag, tick)] + extras_left + extras_right);
    if i == 0 {
        assert(group[0] == main_pair(reference, returned, lag, tick));
        if lefts.len() > 0 {
            lemma_rows_on_tick(reference, tick as int, 0);
        }
        if rights.len() > 0 {
            lemma_rows_on_tick(returned, tick + lag, 0);
        }
        assert forall|j: int| 0 <= j < returned.len() && rights.len() == 0 implies (
        #[trigger] returned[j]).tick_index != tick + lag by {
            if returned[j].tick_index == tick + lag {
                returned.lemma_filter_contains(at_tick(tick + lag), j);
            }
        }
        assert forall|j: int| 0 <= j < reference.len() && lefts.len() == 0 implies (
        #[trigger] reference[j]).tick_index != tick by {
            if reference[j].tick_index == tick {
                reference.lemma_filter_contains(at_tick(tick as int), j);
            }
        }
    } else if i < 1 + extras_left.len() {
        assert(group[i] == extras_left[i - 1]);
        assert(extra_rows(lefts)[i - 1] == lefts[i]);
        lemma_rows_on_tick(reference, tick as int, i);
    } else {
        let p = i - 1 - extras_left.len();
        assert(group[i] == extras_right[p]);
        assert(extra_rows(rights)[p] == rights[p + 1]);
        lemma_rows_on_tick(returned, tick + lag, p + 1);
    }
}

/// The paired rows of ascending ticks come in the order of their ticks, each
/// on one of those ticks.
proof fn lemma_ticks_sorted(reference: Seq<IndexedEvent>, returned: Seq<IndexedEvent>, lag: i64, ticks: Seq<i64>)
    requires
        strictly_increasing(ticks),
    ensures
        ({
            let rows = ticks.map_values(rows_of_tick(reference, returned, lag)).flatten();
            &&& forall|n: int|
                0 <= n < rows.len() ==> exists|k: int|
                    0 <= k < ticks.len() && ticks[k] == (#[trigger] rows[n]).tick_index
            &&& forall|m: int, n: int|
                0 <= m < n < rows.len() ==> (#[trigger] rows[m]).tick_index <= (
                #[trigger] rows[n]).tick_index
        }),
    decreases ticks.len(),
{
    let groups = ticks.map_values(rows_of_tick(reference, returned, lag));
    let rows = groups.flatten();
    if ticks.len() == 0 {
        assert(rows =~= Seq::<PairedEvent>::empty());
    } else {
        let rest = ticks.drop_first();
        lemma_ticks_sorted(reference, returned, lag, rest);
        assert(groups.drop_first() =~= rest.map_values(rows_of_tick(reference, returned, lag)));
        let later = groups.drop_first().flatten();
        assert(rows == groups[0] + later);
        let first = groups[0];
        assert(first == tick_rows(reference, returned, lag, ticks[0]));
        assert forall|n: int| 0 <= n < rows.len() implies exists|k: int|
            0 <= k < ticks.len() && ticks[k] == (#[trigger] rows[n]).tick_index by {
            if n < first.len() {
                lemma_tick_row_shape(reference, returned, lag, ticks[0], n);
                assert(ticks[0] == rows[n].tick_index);
            } else {
                assert(rows[n] == later[n - first.len()]);
                let k = choose|k: int| 0 <= k < rest.len() && rest[k] == later[n - first.len()].tick_index;
                assert(ticks[k + 1] == rows[n].tick_index);
            }
        }
        assert forall|m: int, n: int| 0 <= m < n < rows.len() implies (
        #[trigger] rows[m]).tick_index <= (#[trigger] rows[n]).tick_index by {
            if n < first.len() {
                lemma_tick_row_shape(reference, returned, lag, ticks[0], n);
                lemma_tick_row_shape(reference, returned, lag, ticks[0], m);
            } else if m < first.len() {
                lemma_tick_row_shape(reference, returned, lag, ticks[0], m);
                assert(rows[n] == later[n - first.len()]);
                let k = choose|k: int| 0 <= k < rest.len() && rest[k] == later[n - first.len()].tick_index;
                assert(ticks[0] < ticks[k + 1]);
            } else {
                assert(rows[n] == later[n - first.len()]);
                assert(rows[m] == later[m - first.len()]);
            }
        }
    }
}

/// Pairing lists its rows in ascending order of their reference ticks.
pub proof fn law_paired_rows_ascend_by_tick(
    reference: Seq<IndexedEvent>,
    returned: Seq<IndexedEvent>,
    lag: i64,
    m: int,
    n: int,
)
    requires
        0 <= m < n < pair_rows_spec(reference, returned, lag).len(),
    ensures
        pair_rows_spec(reference, returned, lag)[m].tick_index <= pair_rows_spec(
            reference,
            returned,
            lag,
        )[n].tick_index,
{
    let set = pairing_ticks(reference, returned, lag);
    lemma_pairing_ticks_finite(reference, returned, lag);
    lemma_ascending_members_exist(set);
    lemma_ticks_sorted(reference, returned, lag, ascending_members(set));
    let rows = pair_rows_spec(reference, returned, lag);
    assert(rows[m].tick_index <= rows[n].tick_index);
}

/// Every paired row agrees with its tick: its reference row sits on it, its
/// returned row `lag` ticks later; it is valid exactly when it has both rows
/// and both are valid, and otherwise, with both rows, names the rows that are
/// not valid; only a valid row carries a latency; a row missing its returned
/// row has no returned row anywhere `lag` ticks after its tick, and a row
/// missing its reference row has no reference row anywhere on its tick.
pub proof fn law_paired_rows_agree_with_their_tick(
    reference: Seq<IndexedEvent>,
    returned: Seq<IndexedEvent>,
    lag: i64,
    n: int,
)
    requires
        0 <= n < pair_rows_spec(reference, returned, lag).len(),
    ensures
        ({
            let row = pair_rows_spec(reference, returned, lag)[n];
            &&& row.reference matches Some(a) ==> a.tick_index == row.tick_index
            &&& row.returned matches Some(b) ==> b.tick_index == row.tick_index + lag
            &&& row.status == PairStatus::Valid <==> (row.reference is Some && row.returned is Some
                && row.reference->0.disposition == EventDisposition::Valid
                && row.returned->0.disposition == EventDisposition::Valid)
            &&& row.status != PairStatus::Valid ==> row.latency_ns is None
            &&& (row.reference is Some && row.returned is Some) ==> row.status == if row.reference->0.disposition
                == EventDisposition::Valid && row.returned->0.disposition == EventDisposition::Valid {
                PairStatus::Valid
            } else if row.returned->0.disposition == EventDisposition::Valid {
                PairStatus::ReferenceAnomalous
            } else if row.reference->0.disposition == EventDisposition::Valid {
                PairStatus::ReturnedAnomalous
            } else {
                PairStatus::BothAnomalous
            }
            &&& row.status == PairStatus::MissingReturned ==> row.reference is Some && row.returned is None
                && forall|j: int| 0 <= j < returned.len() ==> (#[trigger] returned[j]).tick_index != row.tick_index + lag
            &&& row.status == PairStatus::MissingReference ==> row.reference is None
                && forall|k: int| 0 <= k < reference.len() ==> (#[trigger] reference[k]).tick_index != row.tick_index
        }),
{
    let ticks = ascending_members(pairing_ticks(reference, returned, lag));
    let groups = ticks.map_values(rows_of_tick(reference, returned, lag));
    let (k, i) = lemma_flatten_origin(groups, n);
    assert(groups[k] == tick_rows(reference, returned, lag, ticks[k]));
    lemma_tick_row_shape(reference, returned, lag, ticks[k], i);
}


/// Each status count of a pairing is the number of its rows with that status.
pub proof fn law_status_counts_count_rows_by_status(rows: Seq<PairedEvent>)
    requires
        rows.len() <= usize::MAX,
    ensures
        status_counts_spec(rows).valid == rows.filter(
            |row: PairedEvent| row.status == PairStatus::Valid,
        ).len(),
        status_counts_spec(rows).missing_reference == rows.filter(
            |row: PairedEvent| row.status == PairStatus::MissingReference,
        ).len(),
        status_counts_spec(rows).missing_returned == rows.filter(
            |row: PairedEvent| row.status == PairStatus::MissingReturned,
        ).len(),
        status_counts_spec(rows).reference_anomalous == rows.filter(
            |row: PairedEvent| row.status == PairStatus::ReferenceAnomalous,
        ).len(),
        status_counts_spec(rows).returned_anomalous == rows.filter(
            |row: PairedEvent| row.status == PairStatus::ReturnedAnomalous,
        ).len(),
        status_counts_spec(rows).both_anomalous == rows.filter(
            |row: PairedEvent| row.status == PairStatus::BothAnomalous,
        ).len(),
{
    assert(with_status(PairStatus::Valid) =~= |row: PairedEvent| row.status == PairStatus::Valid);
    assert(with_status(PairStatus::MissingReference) =~= |row: PairedEvent| row.status
        == PairStatus::MissingReference);
    assert(with_status(PairStatus::MissingReturned) =~= |row: PairedEvent| row.status
        == PairStatus::MissingReturned);
    assert(with_status(PairStatus::ReferenceAnomalous) =~= |row: PairedEvent| row.status
        == PairStatus::ReferenceAnomalous);
    assert(with_status(PairStatus::ReturnedAnomalous) =~= |row: PairedEvent| row.status
        == PairStatus::ReturnedAnomalous);
    assert(with_status(PairStatus::BothAnomalous) =~= |row: PairedEvent| row.status
        == PairStatus::BothAnomalous);
    rows.lemma_filter_len(|row: PairedEvent| row.status == PairStatus::Valid);
    rows.lemma_filter_len(|row: PairedEvent| row.status == PairStatus::MissingReference);
    rows.lemma_filter_len(|row: PairedEvent| row.status == PairStatus::MissingReturned);
    rows.lemma_filter_len(|row: PairedEvent| row.status == PairStatus::ReferenceAnomalous);
    rows.lemma_filter_len(|row: PairedEvent| row.status == PairStatus::ReturnedAnomalous);
    rows.lemma_filter_len(|row: PairedEvent| row.status == PairStatus::BothAnomalous);
}

/// When both streams carry the first message of `kind`, `lag` carries the
/// tick of the valid reference row nearest the reference message onto the
/// tick of the valid returned row nearest the returned message.
pub open spec fn lag_joins_message(
    reference_events: Seq<CapturedEvent>,
    returned_events: Seq<CapturedEvent>,
    reference_rows: Seq<IndexedEvent>,
    returned_rows: Seq<IndexedEvent>,
    kind: MidiEvent,
    lag: int,
) -> bool {
    match (first_of_kind(reference_events, kind), first_of_kind(returned_events, kind)) {
        (Some(left), Some(right)) => exists|i: int, j: int|
            is_nearest_valid(reference_rows, left.timestamp_ns as int, i) && is_nearest_valid(
                returned_rows,
                right.timestamp_ns as int,
                j,
            ) && #[trigger] reference_rows[i].tick_index + lag == #[trigger] returned_rows[j].tick_index,
        _ => true,
    }
}

/// The lag that a transport message gives takes the reference tick of the
/// message to its returned tick: reference tick plus lag is the returned tick
/// of the same message.
pub proof fn law_anchor_lag_joins_the_message(
    reference_events: Seq<CapturedEvent>,
    returned_events: Seq<CapturedEvent>,
    reference_rows: Seq<IndexedEvent>,
    returned_rows: Seq<IndexedEvent>,
    kind: MidiEvent,
)
    requires
        anchor_fits(reference_events, returned_events, reference_rows, returned_rows, kind),
    ensures
        anchor_lag_spec(reference_events, returned_events, reference_rows, returned_rows, kind)
            matches AnchorLag::Lag(lag) ==> lag_joins_message(
            reference_events,
            returned_events,
            reference_rows,
            returned_rows,
            kind,
            lag as int,
        ),
{
    match (first_of_kind(reference_events, kind), first_of_kind(returned_events, kind)) {
        (Some(left), Some(right)) => {
            let a = nearest_valid_tick_spec(reference_rows, left.timestamp_ns as int);
            let b = nearest_valid_tick_spec(returned_rows, right.timestamp_ns as int);
            if a is Some && b is Some {
                let i = choose|i: int| is_nearest_valid(reference_rows, left.timestamp_ns as int, i);
                let j = choose|j: int| is_nearest_valid(returned_rows, right.timestamp_ns as int, j);
                assert(reference_rows[i].tick_index + (returned_rows[j].tick_index
                    - reference_rows[i].tick_index) == returned_rows[j].tick_index);
            }
        },
        _ => {},
    }
}

/// The lag that transport messages anchor takes the reference tick of each
/// message that both streams carry to its returned tick.
pub proof fn law_anchored_lag_joins_every_message(
    reference_events: Seq<CapturedEvent>,
    returned_events: Seq<CapturedEvent>,
    reference_rows: Seq<IndexedEvent>,
    returned_rows: Seq<IndexedEvent>,
)
    requires
        anchors_fit(reference_events, returned_events, reference_rows, returned_rows),
    ensures
        anchored_lag_spec(reference_events, returned_events, reference_rows, returned_rows)
            matches Some(lag) ==> {
            &&& lag_joins_message(
                reference_events,
                returned_events,
                reference_rows,
                returned_rows,
                MidiEvent::Start,
                lag as int,
            )
            &&& lag_joins_message(
                reference_events,
                returned_events,
                reference_rows,
                returned_rows,
                MidiEvent::Continue,
                lag as int,
            )
            &&& lag_joins_message(
                reference_events,
                returned_events,
                reference_rows,
                returned_rows,
                MidiEvent::Stop,
                lag as int,
            )
        },
{
    let start = anchor_lag_spec(reference_events, returned_events, reference_rows, returned_rows, MidiEvent::Start);
    let resume = anchor_lag_spec(reference_events, returned_events, reference_rows, returned_rows, MidiEvent::Continue);
    let stop = anchor_lag_spec(reference_events, returned_events, reference_rows, returned_rows, MidiEvent::Stop);
    law_anchor_lag_joins_the_message(reference_events, returned_events, reference_rows, returned_rows, MidiEvent::Start);
    if !(start is Unplaced) {
        law_anchor_lag_joins_the_message(reference_events, returned_events, reference_rows, returned_rows, MidiEvent::Continue);
        if !(resume is Unplaced) {
            law_anchor_lag_joins_the_message(reference_events, returned_events, reference_rows, returned_rows, MidiEvent::Stop);
        }
    }
}


/// The lag chosen from the valid rows spreads its latency samples least: no
/// other scored candidate has a smaller median absolute deviation, nor the
/// same deviation with a smaller median.
pub proof fn law_chosen_lag_spreads_least(
    lefts: Seq<IndexedEvent>,
    rights: Seq<IndexedEvent>,
    lags: Seq<i64>,
    lag: i64,
)
    requires
        best_among(lefts, rights, lags, lag),
    ensures
        ({
            let samples = lag_samples_spec(lefts, rights, lag);
            &&& samples.len() >= 2
            &&& median_of(samples) > 0
            &&& forall|k: int|
                0 <= k < lags.len() && lag_samples_spec(lefts, rights, #[trigger] lags[k]).len() >= 2
                    && median_of(lag_samples_spec(lefts, rights, lags[k])) > 0 ==> {
                    let other = lag_samples_spec(lefts, rights, lags[k]);
                    &&& mad_of(samples, median_of(samples)) <= mad_of(other, median_of(other))
                    &&& mad_of(samples, median_of(samples)) == mad_of(other, median_of(other))
                        ==> median_of(samples) <= median_of(other)
                }
        }),
{
    assert forall|k: int|
        0 <= k < lags.len() && lag_samples_spec(lefts, rights, #[trigger] lags[k]).len() >= 2
            && median_of(lag_samples_spec(lefts, rights, lags[k])) > 0 implies {
            let samples = lag_samples_spec(lefts, rights, lag);
            let other = lag_samples_spec(lefts, rights, lags[k]);
            &&& mad_of(samples, median_of(samples)) <= mad_of(other, median_of(other))
            &&& mad_of(samples, median_of(samples)) == mad_of(other, median_of(other))
                ==> median_of(samples) <= median_of(other)
        } by {
        if lags[k] != lag {
            assert(lag_score(lefts, rights, lags[k]) is Some);
        }
    }
}

} // verus!
