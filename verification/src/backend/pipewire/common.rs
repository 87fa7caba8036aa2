//! The decisions of a PipeWire capture, shared by its transports: timing
//! observation, event recording, termination, and assembling the capture.
use vstd::prelude::*;

use crate::backend::{
    append_realtime_events, appended_events, push_within, vec_capacity, CaptureRequest,
    CaptureTermination,
};
use crate::capture::parser::{pending_after, realtime_event, realtime_events};
use crate::capture::format::{capture_fault, lemma_numbered_events_are_sound, numbered};
use crate::strings::blank;
use crate::capture::{
    CaptureFile, CapturedEvent, EnvironmentMetadata, GraphTransition, MidiEvent, MidiParser,
    PipeWireTimestamp, SourceMetadata, TimestampMetadata, CURRENT_FORMAT_VERSION,
};
use crate::error::AppError;

use super::spa::{
    controls, padding, read_word, sequence_controls, word, CONTROL_HEADER_BYTES, POD_HEADER_BYTES,
    SPA_CONTROL_MIDI,
};
use super::timing::{
    first_pipewire_fault, normalize_pipewire_event_timestamps, pipewire_event_position,
    pipewire_normalized, pipewire_outcome, pipewire_position,
};

verus! {

pub const STOP_NONE: u8 = 0;

pub const STOP_COMPLETE: u8 = 1;

pub const STOP_OVERFLOW: u8 = 2;

pub const STOP_UNSUPPORTED_FORMAT: u8 = 3;

pub const STOP_SOURCE_GONE: u8 = 4;

pub const STOP_NEGOTIATION_FAILURE: u8 = 5;

pub const STOP_TIMESTAMP_ERROR: u8 = 6;

pub const STOP_STREAM_ERROR: u8 = 7;

/// Room kept for graph transitions, which are never grown during a capture.
pub const TRANSITION_CAPACITY: usize = 16;

pub(crate) fn count_as_u64(count: usize) -> (wide: u64)
    ensures
        wide == count,
{
    count as u64
}

/// Whether the manual-connect "link active" message should print now: once,
/// and only after the link actually streams.
pub fn link_announcement_needed(manual_connect: bool, streamed: bool, announced: bool) -> (needed:
    bool)
    ensures
        needed == (manual_connect && streamed && !announced),
{
    manual_connect && streamed && !announced
}

/// Capture data owned exclusively by the realtime callback side while the
/// graph runs, and reclaimed by the main thread after callbacks stop.
pub struct CaptureData {
    parser: MidiParser,
    events: Vec<CapturedEvent>,
    clock_events: u64,
    transitions: Vec<GraphTransition>,
    last_timing: Option<(u32, u32, u32)>,
    first_cycle_position: Option<i64>,
    termination: CaptureTermination,
}

impl CaptureData {
    /// The graph timing last observed is always a positive one, and the Clock
    /// count never exceeds the number of recorded events.
    pub closed spec fn well_formed(self) -> bool {
        &&& self.clock_events <= self.events@.len()
        &&& self.last_timing matches Some((rate_num, rate_denom, quantum)) ==> rate_num > 0
            && rate_denom > 0 && quantum > 0
    }

    pub closed spec fn spec_events(self) -> Seq<CapturedEvent> {
        self.events@
    }

    pub closed spec fn spec_clock_events(self) -> u64 {
        self.clock_events
    }

    pub closed spec fn spec_transitions(self) -> Seq<GraphTransition> {
        self.transitions@
    }

    pub closed spec fn spec_last_timing(self) -> Option<(u32, u32, u32)> {
        self.last_timing
    }

    pub closed spec fn spec_first_cycle_position(self) -> Option<i64> {
        self.first_cycle_position
    }

    pub closed spec fn spec_termination(self) -> CaptureTermination {
        self.termination
    }

    pub closed spec fn spec_pending(self) -> u8 {
        self.parser.pending()
    }

    /// Empty capture data, with room for `event_capacity` events.
    pub fn new(termination: CaptureTermination, event_capacity: usize) -> (data: Self)
        ensures
            data.spec_events().len() == 0,
            data.spec_clock_events() == 0,
            data.spec_transitions().len() == 0,
            data.spec_last_timing() is None,
            data.spec_first_cycle_position() is None,
            data.spec_termination() == termination,
            data.spec_pending() == 0,
            data.well_formed(),
            sound_recording(data.spec_events(), data.spec_transitions()),
    {
        CaptureData {
            parser: MidiParser::default(),
            events: Vec::with_capacity(event_capacity),
            clock_events: 0,
            transitions: Vec::with_capacity(TRANSITION_CAPACITY),
            last_timing: None,
            first_cycle_position: None,
            termination,
        }
    }

    /// Tracks the graph timing of a cycle. A zero rate or quantum asks the
    /// capture to stop with a negotiation failure and changes nothing; a
    /// timing that differs from the last one is recorded as a transition
    /// before the next event, unless the transition buffer is full, which
    /// asks the capture to stop with an overflow. Returns the stop reason to
    /// request, if any.
    pub fn observe_timing(&mut self, rate_num: u32, rate_denom: u32, quantum: u32) -> (stop:
        Option<u8>)
        requires
            old(self).well_formed(),
        ensures
            final(self).well_formed(),
            final(self).spec_events() == old(self).spec_events(),
            final(self).spec_clock_events() == old(self).spec_clock_events(),
            final(self).spec_first_cycle_position() == old(self).spec_first_cycle_position(),
            final(self).spec_termination() == old(self).spec_termination(),
            final(self).spec_pending() == old(self).spec_pending(),
            rate_num == 0 || rate_denom == 0 || quantum == 0 ==> {
                &&& stop == Some(STOP_NEGOTIATION_FAILURE)
                &&& final(self).spec_transitions() == old(self).spec_transitions()
                &&& final(self).spec_last_timing() == old(self).spec_last_timing()
            },
            rate_num > 0 && rate_denom > 0 && quantum > 0 ==> {
                let changed = old(self).spec_last_timing() matches Some(previous) && previous != (
                rate_num, rate_denom, quantum);
                &&& !changed ==> {
                    &&& stop is None
                    &&& final(self).spec_transitions() == old(self).spec_transitions()
                    &&& final(self).spec_last_timing() == Some((rate_num, rate_denom, quantum))
                }
                &&& changed && stop is None ==> {
                    &&& final(self).spec_transitions() == old(self).spec_transitions().push(
                        GraphTransition {
                            event_sequence: old(self).spec_events().len() as u64,
                            rate_num,
                            rate_denom,
                            quantum,
                        },
                    )
                    &&& final(self).spec_last_timing() == Some((rate_num, rate_denom, quantum))
                }
                &&& changed && stop is Some ==> {
                    &&& stop == Some(STOP_OVERFLOW)
                    &&& final(self).spec_transitions() == old(self).spec_transitions()
                    &&& final(self).spec_last_timing() == old(self).spec_last_timing()
                }
            },
    {
        if rate_num == 0 || rate_denom == 0 || quantum == 0 {
            return Some(STOP_NEGOTIATION_FAILURE);
        }
        let timing = (rate_num, rate_denom, quantum);
        let changed = match self.last_timing {
            Some(previous) => previous.0 != rate_num || previous.1 != rate_denom || previous.2
                != quantum,
            None => false,
        };
        if changed {
            let capacity = vec_capacity(&self.transitions);
            let event_sequence = count_as_u64(self.events.len());
            if !push_within(
                &mut self.transitions,
                GraphTransition { event_sequence, rate_num, rate_denom, quantum },
                capacity,
            ) {
                return Some(STOP_OVERFLOW);
            }
        }
        self.last_timing = Some(timing);
        None
    }

    /// Remembers the graph position of the first cycle.
    pub fn note_cycle_position(&mut self, cycle_position: i64)
        requires
            old(self).well_formed(),
        ensures
            final(self).well_formed(),
            final(self).spec_first_cycle_position() == Some(
                old(self).spec_first_cycle_position().unwrap_or(cycle_position),
            ),
            final(self).spec_events() == old(self).spec_events(),
            final(self).spec_clock_events() == old(self).spec_clock_events(),
            final(self).spec_transitions() == old(self).spec_transitions(),
            final(self).spec_last_timing() == old(self).spec_last_timing(),
            final(self).spec_termination() == old(self).spec_termination(),
            final(self).spec_pending() == old(self).spec_pending(),
    {
        if self.first_cycle_position.is_none() {
            self.first_cycle_position = Some(cycle_position);
        }
    }

    /// Whether the bounded capture is done at graph position `cycle_position`:
    /// enough Clock events for a tick bound, or, for a duration bound, at
    /// least that many seconds of graph samples since the first cycle at the
    /// last observed rate (`elapsed >= seconds * rate_denom / rate_num`).
    pub fn termination_reached(&self, cycle_position: i64) -> (done: bool)
        requires
            self.well_formed(),
        ensures
            done == termination_condition(
                self.spec_termination(),
                self.spec_clock_events(),
                self.spec_first_cycle_position(),
                self.spec_last_timing(),
                cycle_position,
            ),
    {
        match self.termination {
            CaptureTermination::Ticks(target) => self.clock_events >= target,
            CaptureTermination::DurationSeconds(seconds) => match self.first_cycle_position {
                Some(first) => match self.last_timing {
                    Some((rate_num, rate_denom, _)) => {
                        let elapsed = (cycle_position as i128) - (first as i128);
                        assert(0 <= seconds * rate_denom <= 0xffff_ffff_ffff_ffff * 0xffff_ffff)
                            by (nonlinear_arith)
                            requires
                                0 <= seconds <= 0xffff_ffff_ffff_ffff,
                                0 <= rate_denom <= 0xffff_ffff,
                        ;
                        let samples = (seconds as i128) * (rate_denom as i128);
                        elapsed >= samples / (rate_num as i128)
                    },
                    None => false,
                },
                None => false,
            },
        }
    }
}

/// The capture-termination decision of `CaptureData::termination_reached`.
pub open spec fn termination_condition(
    termination: CaptureTermination,
    clock_events: u64,
    first_cycle_position: Option<i64>,
    last_timing: Option<(u32, u32, u32)>,
    cycle_position: i64,
) -> bool {
    match termination {
        CaptureTermination::Ticks(target) => clock_events >= target,
        CaptureTermination::DurationSeconds(seconds) => first_cycle_position matches Some(first)
            && last_timing matches Some((rate_num, rate_denom, quantum)) && cycle_position - first
            >= (seconds * rate_denom) / (rate_num as int),
    }
}


/// Number of Clock messages in `events`.
pub open spec fn clock_count(events: Seq<MidiEvent>) -> int
    decreases events.len(),
{
    if events.len() == 0 {
        0
    } else {
        clock_count(events.drop_last()) + if events.last() == MidiEvent::Clock {
            1int
        } else {
            0int
        }
    }
}

/// The PipeWire timing stamped on the events of a control at `offset` in
/// the cycle at `cycle_position`.
pub open spec fn control_metadata(
    cycle_position: i64,
    offset: u32,
    rate_num: u32,
    rate_denom: u32,
    quantum: u32,
) -> TimestampMetadata {
    TimestampMetadata::PipeWire(
        PipeWireTimestamp {
            cycle_position,
            event_offset: offset,
            event_position: (cycle_position + offset) as i64,
            rate_num,
            rate_denom,
            quantum,
        },
    )
}

/// The events, parser state and Clock count after every MIDI control of
/// `entries` is recorded in order, each append succeeding; entries of other
/// control types are skipped.
pub open spec fn recorded(
    events: Seq<CapturedEvent>,
    pending: u8,
    clocks: int,
    entries: Seq<(u32, u32, Seq<u8>)>,
    cycle_position: i64,
    rate_num: u32,
    rate_denom: u32,
    quantum: u32,
) -> (Seq<CapturedEvent>, u8, int)
    decreases entries.len(),
{
    if entries.len() == 0 {
        (events, pending, clocks)
    } else {
        let earlier = recorded(
            events,
            pending,
            clocks,
            entries.drop_last(),
            cycle_position,
            rate_num,
            rate_denom,
            quantum,
        );
        let (offset, kind, payload) = entries.last();
        if kind != SPA_CONTROL_MIDI {
            earlier
        } else {
            let found = realtime_events(payload);
            (
                earlier.0 + appended_events(
                    earlier.0.len(),
                    found,
                    control_metadata(cycle_position, offset, rate_num, rate_denom, quantum),
                ),
                pending_after(earlier.1, payload),
                earlier.2 + clock_count(found),
            )
        }
    }
}

/// Every stored transition carries a positive rate denominator.
pub open spec fn positive_transitions(transitions: Seq<GraphTransition>) -> bool {
    forall|j: int| 0 <= j < transitions.len() ==> (#[trigger] transitions[j]).rate_denom > 0
}

/// What recording keeps of capture data: its events are numbered from zero
/// and carry PipeWire timestamps with positive rate denominators, and its
/// transitions carry positive rate denominators too.
pub open spec fn sound_recording(events: Seq<CapturedEvent>, transitions: Seq<GraphTransition>) -> bool {
    &&& numbered(events)
    &&& positive_pipewire_events(events)
    &&& positive_transitions(transitions)
}

/// Appending realtime events with a positive PipeWire rate keeps sound events sound.
proof fn lemma_appended_sound(
    existing: Seq<CapturedEvent>,
    kinds: Seq<MidiEvent>,
    metadata: TimestampMetadata,
)
    requires
        numbered(existing),
        positive_pipewire_events(existing),
        metadata matches TimestampMetadata::PipeWire(timestamp) && timestamp.rate_denom > 0,
        existing.len() + kinds.len() <= u64::MAX + 1,
    ensures
        numbered(existing + appended_events(existing.len(), kinds, metadata)),
        positive_pipewire_events(existing + appended_events(existing.len(), kinds, metadata)),
{
    crate::backend::law_appending_keeps_numbering(existing, kinds, metadata);
    let all = existing + appended_events(existing.len(), kinds, metadata);
    assert forall|i: int| 0 <= i < all.len() implies ((#[trigger] all[i]).timestamp_metadata matches TimestampMetadata::PipeWire(
        timestamp,
    ) && timestamp.rate_denom > 0) by {
        if i >= existing.len() {
            assert(all[i] == appended_events(existing.len(), kinds, metadata)[i - existing.len()]);
        }
    }
}

/// Stop-reason and event-count updates that one process cycle asks of the
/// shared control block.
#[derive(Debug, Clone, Copy, PartialEq, Eq, Structural)]
pub struct CycleOutcome {
    pub stop: Option<u8>,
    pub event_count: Option<usize>,
}

/// The number of Clock events among `events` from `start` on.
pub(crate) fn clocks_since(events: &Vec<CapturedEvent>, start: usize) -> (count: u64)
    requires
        start <= events@.len(),
    ensures
        count == clock_count(
            events@.subrange(start as int, events@.len() as int).map_values(
                |event: CapturedEvent| event.event,
            ),
        ),
        count <= events@.len() - start,
{
    let ghost tail = events@.subrange(start as int, events@.len() as int);
    let mut count: u64 = 0;
    let mut index = start;
    while index < events.len()
        invariant
            start <= index <= events@.len(),
            tail == events@.subrange(start as int, events@.len() as int),
            count == clock_count(
                tail.take(index - start).map_values(|event: CapturedEvent| event.event),
            ),
            count <= index - start,
        decreases events@.len() - index,
    {
        let ghost done = tail.take(index - start).map_values(|event: CapturedEvent| event.event);
        assert(tail.take(index - start + 1).map_values(|event: CapturedEvent| event.event).drop_last()
            =~= done);
        if events[index].event == MidiEvent::Clock {
            count = count + 1;
        }
        index = index + 1;
    }
    assert(tail.take(events@.len() - start) =~= tail);
    count
}

proof fn lemma_clock_count_bounds(events: Seq<MidiEvent>)
    ensures
        0 <= clock_count(events) <= events.len(),
    decreases events.len(),
{
    if events.len() > 0 {
        lemma_clock_count_bounds(events.drop_last());
    }
}

impl CaptureData {
    /// Counts the Clock messages among the events from `start` on.
    fn clocks_since(&self, start: usize) -> (count: u64)
        requires
            start <= self.events@.len(),
        ensures
            count == clock_count(
                self.events@.subrange(start as int, self.events@.len() as int).map_values(
                    |event: CapturedEvent| event.event,
                ),
            ),
    {
        clocks_since(&self.events, start)
    }

    /// Records the MIDI controls of the SPA sequence pod in the first `length`
    /// bytes of `sequence`, reading the pod in place.
    ///
    /// `Err` reports a malformed pod: a body too short for the sequence
    /// header, or a control entry that does not fit; the controls before it
    /// have been recorded. `Ok(Some(reason))` reports that recording a control
    /// failed and the capture must stop: the event buffer was full
    /// (`STOP_OVERFLOW`) or a graph position left `i64` (`STOP_TIMESTAMP_ERROR`).
    /// `Ok(None)` means every MIDI control was recorded.
    pub fn record_spa_sequence(
        &mut self,
        sequence: &[u8],
        length: usize,
        cycle_position: i64,
        rate_num: u32,
        rate_denom: u32,
        quantum: u32,
    ) -> (result: Result<Option<u8>, ()>)
        requires
            old(self).well_formed(),
            length <= sequence@.len(),
        ensures
            final(self).well_formed(),
            final(self).spec_transitions() == old(self).spec_transitions(),
            final(self).spec_last_timing() == old(self).spec_last_timing(),
            final(self).spec_first_cycle_position() == old(self).spec_first_cycle_position(),
            final(self).spec_termination() == old(self).spec_termination(),
            final(self).spec_events().len() >= old(self).spec_events().len(),
            final(self).spec_events().take(old(self).spec_events().len() as int) == old(
                self,
            ).spec_events(),
            result is Err ==> sequence_controls(sequence@, length as int).1,
            numbered(old(self).spec_events()) && positive_pipewire_events(old(self).spec_events())
                && rate_denom > 0 ==> numbered(final(self).spec_events())
                && positive_pipewire_events(final(self).spec_events()),
            result matches Ok(Some(reason)) ==> reason == STOP_OVERFLOW || reason
                == STOP_TIMESTAMP_ERROR,
            result == Ok::<Option<u8>, ()>(None) ==> {
                let entries = sequence_controls(sequence@, length as int).0;
                let expected = recorded(
                    old(self).spec_events(),
                    old(self).spec_pending(),
                    old(self).spec_clock_events() as int,
                    entries,
                    cycle_position,
                    rate_num,
                    rate_denom,
                    quantum,
                );
                &&& !sequence_controls(sequence@, length as int).1
                &&& final(self).spec_events() == expected.0
                &&& final(self).spec_pending() == expected.1
                &&& final(self).spec_clock_events() == expected.2
            },
    {
        if length < 2 * POD_HEADER_BYTES {
            return Err(());
        }
        let ghost bytes = sequence@;
        let ghost start_events = self.events@;
        let ghost start_pending = self.parser.pending();
        let ghost start_clocks = self.clock_events as int;
        let ghost all = controls(bytes, 16, length as int);
        let ghost mut done: Seq<(u32, u32, Seq<u8>)> = Seq::empty();
        let end = length;
        let mut cursor: usize = 2 * POD_HEADER_BYTES;
        while cursor < end
            invariant
                bytes == sequence@,
                end == length,
                length <= bytes.len(),
                all == controls(bytes, 16, length as int),
                all.0 == done + controls(bytes, cursor as int, end as int).0,
                all.1 == controls(bytes, cursor as int, end as int).1,
                self.well_formed(),
                self.transitions@ == old(self).spec_transitions(),
                self.last_timing == old(self).spec_last_timing(),
                self.first_cycle_position == old(self).spec_first_cycle_position(),
                self.termination == old(self).spec_termination(),
                start_events == old(self).spec_events(),
                start_pending == old(self).spec_pending(),
                start_clocks == old(self).spec_clock_events(),
                (self.events@, self.parser.pending(), self.clock_events as int) == recorded(
                    start_events,
                    start_pending,
                    start_clocks,
                    done,
                    cycle_position,
                    rate_num,
                    rate_denom,
                    quantum,
                ),
                self.events@.len() >= start_events.len(),
                self.events@.take(start_events.len() as int) == start_events,
                numbered(start_events) && positive_pipewire_events(start_events) && rate_denom > 0
                    ==> numbered(self.events@) && positive_pipewire_events(self.events@),
            decreases end - cursor,
        {
            if end - cursor < CONTROL_HEADER_BYTES {
                return Err(());
            }
            let offset = read_word(sequence, cursor);
            let kind = read_word(sequence, cursor + 4);
            let value_size = read_word(sequence, cursor + 8) as usize;
            let payload_start = cursor + CONTROL_HEADER_BYTES;
            if value_size > end - payload_start {
                return Err(());
            }
            let payload_end = payload_start + value_size;
            let pad = (8 - value_size % 8) % 8;
            let ghost entry = (offset, kind, bytes.subrange(payload_start as int, payload_end as int));
            let next = if end - payload_end <= pad {
                end
            } else {
                payload_end + pad
            };
            proof {
                let resume = payload_end + padding(value_size as int);
                assert(pad == padding(value_size as int));
                assert(controls(bytes, cursor as int, end as int) == (
                    seq![entry] + controls(bytes, resume, end as int).0,
                    controls(bytes, resume, end as int).1,
                ));
                if next == end {
                    assert(controls(bytes, resume, end as int) == controls(
                        bytes,
                        next as int,
                        end as int,
                    ));
                }
                assert(all.0 =~= done.push(entry) + controls(bytes, next as int, end as int).0);
            }
            let ghost previous_done = done;
            proof {
                done = done.push(entry);
                assert(done.drop_last() =~= previous_done);
            }
            if kind == SPA_CONTROL_MIDI {
                let ghost before_events = self.events@;
                let before = self.events.len();
                let payload = vstd::slice::slice_subrange(sequence, payload_start, payload_end);
                let recorded_bytes = record_control_bytes(
                    &mut self.parser,
                    &mut self.events,
                    cycle_position,
                    offset,
                    rate_num,
                    rate_denom,
                    quantum,
                    payload,
                );
                let _recorded = self.events.len();
                proof {
                    if numbered(before_events) && positive_pipewire_events(before_events)
                        && rate_denom > 0 && cycle_position + offset <= i64::MAX {
                        let metadata = control_metadata(
                            cycle_position,
                            offset,
                            rate_num,
                            rate_denom,
                            quantum,
                        );
                        if recorded_bytes is Ok {
                            lemma_appended_sound(before_events, realtime_events(payload@), metadata);
                        } else {
                            let consumed = choose|consumed: int|
                                0 <= consumed < payload@.len() && realtime_event(
                                    #[trigger] payload@[consumed],
                                ) is Some && self.events@ == before_events + appended_events(
                                    before_events.len(),
                                    realtime_events(payload@.take(consumed)),
                                    metadata,
                                );
                            lemma_appended_sound(
                                before_events,
                                realtime_events(payload@.take(consumed)),
                                metadata,
                            );
                        }
                    }
                }
                match recorded_bytes {
                    Ok(()) => {},
                    Err(AppError::CaptureOverflow) => {
                        proof { self.lemma_keeps_prefix(start_events, before_events); }
                        return Ok(Some(STOP_OVERFLOW));
                    },
                    Err(_) => {
                        proof { self.lemma_keeps_prefix(start_events, before_events); }
                        return Ok(Some(STOP_TIMESTAMP_ERROR));
                    },
                }
                let found = self.clocks_since(before);
                proof {
                    let appended = self.events@.subrange(before as int, self.events@.len() as int);
                    lemma_clock_count_bounds(realtime_events(payload@));
                    assert(appended.map_values(|event: CapturedEvent| event.event) =~= realtime_events(
                        payload@,
                    ));
                }
                let total = self.events.len();
                assert(self.clock_events + found <= total);
                self.clock_events = self.clock_events + found;
                assert(self.events@.take(start_events.len() as int) =~= start_events);
            }
            cursor = next;
        }
        Ok(None)
    }

    proof fn lemma_keeps_prefix(self, start: Seq<CapturedEvent>, before: Seq<CapturedEvent>)
        requires
            before.len() >= start.len(),
            before.take(start.len() as int) == start,
            self.events@.len() >= before.len(),
            self.events@.take(before.len() as int) == before,
        ensures
            self.events@.take(start.len() as int) == start,
    {
        assert(self.events@.take(start.len() as int) =~= before.take(start.len() as int));
    }
}



/// Shared per-cycle transport step, used by both the stream and the filter
/// transports so that their semantics cannot diverge: stamps the first
/// position, tracks graph timing, records the cycle's SPA sequence (the first
/// `length` bytes of `sequence`) unless the capture is already stopping, and
/// checks termination. `current_stop` is the stop reason the control block
/// holds; the outcome says which stop to request (the control block keeps the
/// first one requested) and which event count to publish.
pub fn record_cycle(
    data: &mut CaptureData,
    current_stop: u8,
    sequence: &[u8],
    length: usize,
    cycle_position: i64,
    rate_num: u32,
    rate_denom: u32,
    quantum: u32,
) -> (outcome: CycleOutcome)
    requires
        old(data).well_formed(),
        length <= sequence@.len(),
    ensures
        final(data).well_formed(),
        sound_recording(old(data).spec_events(), old(data).spec_transitions()) ==> sound_recording(
            final(data).spec_events(),
            final(data).spec_transitions(),
        ),
        final(data).spec_first_cycle_position() == Some(
            old(data).spec_first_cycle_position().unwrap_or(cycle_position),
        ),
        rate_num == 0 || rate_denom == 0 || quantum == 0 ==> outcome == (CycleOutcome {
            stop: Some(STOP_NEGOTIATION_FAILURE),
            event_count: None,
        }) && final(data).spec_events() == old(data).spec_events(),
        rate_num > 0 && rate_denom > 0 && quantum > 0 ==> {
            &&& final(data).spec_last_timing() == Some((rate_num, rate_denom, quantum))
                || outcome == (CycleOutcome { stop: Some(STOP_OVERFLOW), event_count: None })
            &&& current_stop != STOP_NONE && outcome.stop is None ==> outcome.event_count is None
                && final(data).spec_events() == old(data).spec_events()
            &&& outcome.event_count is Some ==> outcome.event_count->0 == final(data).spec_events().len()
            &&& outcome.stop == Some(STOP_COMPLETE) ==> termination_condition(
                final(data).spec_termination(),
                final(data).spec_clock_events(),
                final(data).spec_first_cycle_position(),
                final(data).spec_last_timing(),
                cycle_position,
            )
            &&& current_stop == STOP_NONE && sequence_controls(sequence@, length as int).1
                ==> outcome.stop is Some
        },
{
    data.note_cycle_position(cycle_position);
    if let Some(reason) = data.observe_timing(rate_num, rate_denom, quantum) {
        return CycleOutcome { stop: Some(reason), event_count: None };
    }
    if current_stop != STOP_NONE {
        return CycleOutcome { stop: None, event_count: None };
    }
    let stop = match data.record_spa_sequence(
        sequence,
        length,
        cycle_position,
        rate_num,
        rate_denom,
        quantum,
    ) {
        Err(()) => {
            return CycleOutcome { stop: Some(STOP_UNSUPPORTED_FORMAT), event_count: None };
        },
        Ok(stop) => stop,
    };
    let stop = if stop.is_none() && data.termination_reached(cycle_position) {
        Some(STOP_COMPLETE)
    } else {
        stop
    };
    CycleOutcome { stop, event_count: Some(data.events.len()) }
}

/// `metadata` is the PipeWire timing of one control event.
pub open spec fn is_pipewire_metadata(
    metadata: TimestampMetadata,
    cycle_position: i64,
    event_offset: u32,
    rate_num: u32,
    rate_denom: u32,
    quantum: u32,
) -> bool {
    metadata == TimestampMetadata::PipeWire(
        PipeWireTimestamp {
            cycle_position,
            event_offset,
            event_position: (cycle_position + event_offset) as i64,
            rate_num,
            rate_denom,
            quantum,
        },
    )
}

/// Appends recognized realtime MIDI bytes from one SPA control event, each
/// stamped with the cycle position, the event's offset in the cycle, and
/// their sum as the event's graph position.
///
/// `events` must be preallocated by the caller: a full buffer is reported as
/// `CaptureOverflow`, never grown. A graph position beyond `i64` is reported as
/// `TimestampArithmeticOverflow` before any byte is read.
pub fn record_control_bytes(
    parser: &mut MidiParser,
    events: &mut Vec<CapturedEvent>,
    cycle_position: i64,
    event_offset: u32,
    rate_num: u32,
    rate_denom: u32,
    quantum: u32,
    bytes: &[u8],
) -> (result: Result<(), AppError>)
    ensures
        cycle_position + event_offset > i64::MAX ==> {
            &&& result matches Err(error) && error is TimestampArithmeticOverflow
            &&& final(events)@ == old(events)@
            &&& final(parser).pending() == old(parser).pending()
        },
        final(events)@.len() >= old(events)@.len(),
        final(events)@.take(old(events)@.len() as int) == old(events)@,
        cycle_position + event_offset <= i64::MAX ==> {
            let metadata = TimestampMetadata::PipeWire(
                PipeWireTimestamp {
                    cycle_position,
                    event_offset,
                    event_position: (cycle_position + event_offset) as i64,
                    rate_num,
                    rate_denom,
                    quantum,
                },
            );
            &&& result matches Err(error) ==> error is CaptureOverflow
            &&& result is Ok ==> {
                &&& final(events)@ == old(events)@ + appended_events(
                    old(events)@.len(),
                    realtime_events(bytes@),
                    metadata,
                )
                &&& final(parser).pending() == pending_after(old(parser).pending(), bytes@)
            }
            &&& result is Err ==> exists|consumed: int|
                0 <= consumed < bytes@.len() && realtime_event(#[trigger] bytes@[consumed])
                    is Some && final(events)@ == old(events)@ + appended_events(
                    old(events)@.len(),
                    realtime_events(bytes@.take(consumed)),
                    metadata,
                ) && final(parser).pending() == pending_after(
                    old(parser).pending(),
                    bytes@.take(consumed + 1),
                )
        },
{
    let event_position = pipewire_event_position(cycle_position, event_offset)?;
    let metadata = TimestampMetadata::PipeWire(
        PipeWireTimestamp {
            cycle_position,
            event_offset,
            event_position,
            rate_num,
            rate_denom,
            quantum,
        },
    );
    append_realtime_events(parser, events, bytes, &metadata)
}

/// The capture error that a stop reason other than completion reports.
pub open spec fn stop_error_matches(reason: u8, stream_error: Option<String>, error: AppError) -> bool {
    if reason == STOP_OVERFLOW {
        error is CaptureOverflow
    } else if reason == STOP_UNSUPPORTED_FORMAT {
        error is PipeWireUnsupportedControlFormat
    } else if reason == STOP_SOURCE_GONE {
        error is PipeWireSourceDisappeared
    } else if reason == STOP_NEGOTIATION_FAILURE {
        error matches AppError::PipeWireNegotiationFailed { detail }
            && detail@ == "PipeWire reported an invalid graph rate or quantum"@
    } else if reason == STOP_TIMESTAMP_ERROR {
        error is TimestampArithmeticOverflow
    } else if reason == STOP_STREAM_ERROR {
        error matches AppError::PipeWireNegotiationFailed { detail } && detail@ == (
        match stream_error {
            Some(text) => text@,
            None => "PipeWire capture entered the error state"@,
        })
    } else {
        error matches AppError::PipeWireNegotiationFailed { detail }
            && detail@ == "PipeWire capture stopped before a bounded termination condition"@
    }
}

/// The stop reason a finished capture is judged by: an interrupt before any
/// recorded reason counts as completion.
pub open spec fn settled_reason(stop_reason: u8, interrupted: bool) -> u8 {
    if stop_reason == STOP_NONE && interrupted {
        STOP_COMPLETE
    } else {
        stop_reason
    }
}

/// `capture` is the v1 capture assembled from the PipeWire `events` and
/// graph `transitions` of a finished run: events normalized against the first
/// event's graph position, with the source of `request`.
pub open spec fn pipewire_capture_assembled(
    capture: CaptureFile,
    events: Seq<CapturedEvent>,
    transitions: Seq<GraphTransition>,
    request: CaptureRequest,
    application_version: String,
    operating_system: String,
) -> bool {
    let epoch = pipewire_position(events[0]).unwrap();
    &&& capture.format_version == CURRENT_FORMAT_VERSION
    &&& capture.backend@ == "pipewire"@
    &&& capture.source.identity@ == crate::backend::source_identity(request.source)
    &&& capture.source.display_name@ == request.source.display_name@
    &&& capture.timestamp_method@ == "PipeWire graph position + event offset"@
    &&& capture.ppqn == 24
    &&& capture.application_version == application_version
    &&& capture.environment.operating_system == operating_system
    &&& capture.environment.pipewire_version is None
    &&& capture.transitions@ == transitions
    &&& capture.events@ == Seq::new(events.len(), |i: int| pipewire_normalized(events[i], epoch))
}

/// Every event carries a PipeWire timestamp with a positive rate denominator.
pub open spec fn positive_pipewire_events(events: Seq<CapturedEvent>) -> bool {
    forall|i: int|
        0 <= i < events.len() ==> ((#[trigger] events[i]).timestamp_metadata matches TimestampMetadata::PipeWire(
            timestamp,
        ) && timestamp.rate_denom > 0)
}

/// A finished PipeWire run writes a capture that validation accepts, when
/// its recording was sound (as `record_cycle` keeps it from the empty data of
/// `CaptureData::new`) and its source identity is not blank.
pub proof fn law_finished_pipewire_capture_validates(
    capture: CaptureFile,
    events: Seq<CapturedEvent>,
    transitions: Seq<GraphTransition>,
    request: CaptureRequest,
    application_version: String,
    operating_system: String,
)
    requires
        events.len() > 0,
        sound_recording(events, transitions),
        !blank(crate::backend::source_identity(request.source)),
        pipewire_capture_assembled(
            capture,
            events,
            transitions,
            request,
            application_version,
            operating_system,
        ),
    ensures
        capture_fault(capture) is None,
{
    let written = capture.events@;
    assert forall|i: int| 0 <= i < written.len() implies (#[trigger] written[i]).sequence == i by {
        assert(events[i].sequence == i);
    }
    assert forall|i: int| 0 <= i < written.len() implies ((#[trigger] written[i]).timestamp_metadata matches TimestampMetadata::PipeWire(
        timestamp,
    ) ==> timestamp.rate_denom > 0) by {
        assert(events[i].timestamp_metadata matches TimestampMetadata::PipeWire(timestamp) && timestamp.rate_denom > 0);
    }
    lemma_numbered_events_are_sound(written, written.len());
}

/// Settles a stopped capture, given the stop reason that the control block
/// holds once callbacks have stopped, the stream error text it holds, and
/// whether the user interrupted the run. An interrupt ends the bounded capture
/// early and keeps the valid events as a partial capture. Every stop reason but
/// completion maps to its error; a complete capture with events is
/// normalized against its first event and assembled into a v1 capture.
pub fn finish_capture(
    data: &mut CaptureData,
    stop_reason: u8,
    stream_error: Option<String>,
    interrupted: bool,
    request: &CaptureRequest,
    application_version: String,
    operating_system: String,
) -> (result: Result<CaptureFile, AppError>)
    ensures
        ({
            let reason = settled_reason(stop_reason, interrupted);
            let events = old(data).spec_events();
            &&& stop_reason == STOP_NONE && interrupted && events.len() == 0 ==> (result matches Err(
                error,
            ) && error is NoClockEvents)
            &&& reason != STOP_COMPLETE && !(stop_reason == STOP_NONE && interrupted) ==> (
            result matches Err(error) && stop_error_matches(reason, stream_error, error))
            &&& reason == STOP_COMPLETE && events.len() == 0 ==> (result matches Err(error)
                && error is NoClockEvents)
            &&& reason == STOP_COMPLETE && events.len() > 0 && pipewire_position(events[0]) is None
                ==> (result matches Err(error) && error.is_invalid_capture(
                "PipeWire capture must carry PipeWire timestamps"@,
            ))
            &&& reason == STOP_COMPLETE && events.len() > 0 && pipewire_position(events[0]) is Some
                ==> {
                let stop = first_pipewire_fault(events, events.len());
                let epoch = pipewire_position(events[0]).unwrap();
                &&& stop < events.len() ==> (result matches Err(error) && (pipewire_position(
                    events[stop as int],
                ) is None ==> error.is_invalid_capture(
                    "PipeWire capture must carry PipeWire timestamps"@,
                )) && (pipewire_position(events[stop as int]) is Some ==> error.is_invalid_capture(
                    "PipeWire rate denominator must be positive"@,
                )))
                &&& stop == events.len() ==> (result matches Ok(capture)
                    && pipewire_capture_assembled(
                    capture,
                    events,
                    old(data).spec_transitions(),
                    *request,
                    application_version,
                    operating_system,
                ))
            }
        }),
{
    let mut reason = stop_reason;
    if stop_reason == STOP_NONE && interrupted {
        if data.events.len() == 0 {
            return Err(AppError::NoClockEvents);
        }
        reason = STOP_COMPLETE;
    }
    if reason != STOP_COMPLETE {
        return Err(stop_error(reason, stream_error));
    }
    if data.events.len() == 0 {
        return Err(AppError::NoClockEvents);
    }
    let mut events: Vec<CapturedEvent> = Vec::new();
    std::mem::swap(&mut events, &mut data.events);
    let mut transitions: Vec<GraphTransition> = Vec::new();
    std::mem::swap(&mut transitions, &mut data.transitions);
    let ghost raw_events = events@;
    normalize_pipewire_event_timestamps(events.as_mut_slice())?;
    assert(events@ =~= Seq::new(raw_events.len(), |i: int| pipewire_normalized(raw_events[i], pipewire_position(raw_events[0]).unwrap())));
    Ok(
        CaptureFile {
            format_version: CURRENT_FORMAT_VERSION,
            backend: String::from_str("pipewire"),
            source: SourceMetadata {
                identity: request.source.stable_identity(),
                display_name: request.source.display_name.clone(),
            },
            timestamp_method: String::from_str("PipeWire graph position + event offset"),
            ppqn: 24,
            application_version,
            environment: EnvironmentMetadata { operating_system, pipewire_version: None },
            transitions,
            events,
        },
    )
}

/// The error that a stop reason other than completion reports.
fn stop_error(reason: u8, stream_error: Option<String>) -> (error: AppError)
    requires
        reason != STOP_COMPLETE,
    ensures
        stop_error_matches(reason, stream_error, error),
{
    if reason == STOP_OVERFLOW {
        AppError::CaptureOverflow
    } else if reason == STOP_UNSUPPORTED_FORMAT {
        AppError::PipeWireUnsupportedControlFormat
    } else if reason == STOP_SOURCE_GONE {
        AppError::PipeWireSourceDisappeared
    } else if reason == STOP_NEGOTIATION_FAILURE {
        AppError::PipeWireNegotiationFailed {
            detail: "PipeWire reported an invalid graph rate or quantum".to_owned(),
        }
    } else if reason == STOP_TIMESTAMP_ERROR {
        AppError::TimestampArithmeticOverflow
    } else if reason == STOP_STREAM_ERROR {
        let detail = match stream_error {
            Some(text) => text,
            None => "PipeWire capture entered the error state".to_owned(),
        };
        AppError::PipeWireNegotiationFailed { detail }
    } else {
        AppError::PipeWireNegotiationFailed {
            detail: "PipeWire capture stopped before a bounded termination condition".to_owned(),
        }
    }
}

} // verus!
