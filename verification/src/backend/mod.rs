//! Capture sources, capture requests, and the backend-independent parts of
//! recording: source selection, capacity bounds and event appending.
use vstd::prelude::*;

use crate::capture::parser::{next_pending, pending_after, realtime_event, realtime_events};
use crate::capture::format::numbered;
use crate::capture::{CapturedEvent, MidiEvent, MidiParser, TimestampMetadata};
use crate::error::AppError;
use crate::output::compare::{text_before, text_precedes};

pub mod alsa;
pub mod pipewire;

verus! {

/// A MIDI source port as a backend enumerates it.
#[derive(Debug, PartialEq, Eq)]
pub struct MidiSource {
    pub display_name: String,
    pub node_name: String,
    pub port_name: String,
    pub object_serial: Option<String>,
    pub node_id: u32,
    pub port_id: u32,
    /// ALSA RawMIDI device identifier (`hw:card,device,subdevice`); `None`
    /// for PipeWire sources.
    pub alsa_device: Option<String>,
}

fn clone_text(text: &Option<String>) -> (copy: Option<String>)
    ensures
        copy == *text,
{
    match text {
        Some(value) => Some(value.clone()),
        None => None,
    }
}

impl Clone for MidiSource {
    fn clone(&self) -> (copy: Self)
        ensures
            copy == *self,
    {
        MidiSource {
            display_name: self.display_name.clone(),
            node_name: self.node_name.clone(),
            port_name: self.port_name.clone(),
            object_serial: clone_text(&self.object_serial),
            node_id: self.node_id,
            port_id: self.port_id,
            alsa_device: clone_text(&self.alsa_device),
        }
    }
}

/// `sorted` with `source` placed after every entry whose identity does not
/// sort after its own.
pub open spec fn insert_by_identity(sorted: Seq<MidiSource>, source: MidiSource) -> Seq<MidiSource>
    decreases sorted.len(),
{
    if sorted.len() > 0 && text_before(source_identity(source), source_identity(sorted.last())) {
        insert_by_identity(sorted.drop_last(), source).push(sorted.last())
    } else {
        sorted.push(source)
    }
}

/// `sources` in ascending order of stable identity, sources of equal
/// identity in their given order: what a stable sort by identity leaves.
pub open spec fn sorted_by_identity(sources: Seq<MidiSource>) -> Seq<MidiSource>
    decreases sources.len(),
{
    if sources.len() == 0 {
        Seq::empty()
    } else {
        insert_by_identity(sorted_by_identity(sources.drop_last()), sources.last())
    }
}

/// Placing `source` at `position`, after the entries whose identities do not
/// sort after its own and before those that do, is inserting it by identity.
proof fn lemma_insert_at_position(sorted: Seq<MidiSource>, source: MidiSource, position: int)
    requires
        0 <= position <= sorted.len(),
        forall|k: int|
            position <= k < sorted.len() ==> text_before(
                source_identity(source),
                source_identity(#[trigger] sorted[k]),
            ),
        position == 0 || !text_before(source_identity(source), source_identity(sorted[position - 1])),
    ensures
        insert_by_identity(sorted, source) == sorted.insert(position, source),
    decreases sorted.len() - position,
{
    if position == sorted.len() {
        assert(sorted.insert(position, source) =~= sorted.push(source));
    } else {
        let shorter = sorted.drop_last();
        assert(text_before(source_identity(source), source_identity(sorted[sorted.len() - 1])));
        if position > 0 {
            assert(shorter[position - 1] == sorted[position - 1]);
        }
        assert forall|k: int| position <= k < shorter.len() implies text_before(
            source_identity(source),
            source_identity(#[trigger] shorter[k]),
        ) by {
            assert(shorter[k] == sorted[k]);
        }
        lemma_insert_at_position(shorter, source, position);
        assert(shorter.insert(position, source).push(sorted.last()) =~= sorted.insert(position, source));
    }
}

/// Sorts sources by stable identity, keeping sources of equal identity in
/// their given order, as `sort_by_key(MidiSource::stable_identity)` does.
pub fn sort_sources(sources: &Vec<MidiSource>) -> (sorted: Vec<MidiSource>)
    ensures
        sorted@ == sorted_by_identity(sources@),
{
    let mut sorted: Vec<MidiSource> = Vec::new();
    let mut keys: Vec<String> = Vec::new();
    let mut index: usize = 0;
    while index < sources.len()
        invariant
            index <= sources@.len(),
            keys@.len() == sorted@.len(),
            forall|k: int| 0 <= k < keys@.len() ==> (#[trigger] keys@[k])@ == source_identity(sorted@[k]),
            sorted@ == sorted_by_identity(sources@.take(index as int)),
        decreases sources@.len() - index,
    {
        let source = sources[index].clone();
        let key = source.stable_identity();
        let mut position = sorted.len();
        while position > 0 && text_precedes(key.as_str(), keys[position - 1].as_str())
            invariant
                position <= sorted@.len(),
                keys@.len() == sorted@.len(),
                forall|k: int| 0 <= k < keys@.len() ==> (#[trigger] keys@[k])@ == source_identity(sorted@[k]),
                key@ == source_identity(source),
                forall|k: int|
                    position <= k < sorted@.len() ==> text_before(
                        source_identity(source),
                        source_identity(#[trigger] sorted@[k]),
                    ),
            decreases position,
        {
            position = position - 1;
        }
        proof {
            if position > 0 {
                assert(keys@[position - 1]@ == source_identity(sorted@[position - 1]));
            }
            lemma_insert_at_position(sorted@, source, position as int);
            assert(sources@.take(index + 1).drop_last() =~= sources@.take(index as int));
            assert(sources@.take(index + 1).last() == sources@[index as int]);
        }
        let ghost previous = sorted@;
        let ghost previous_keys = keys@;
        sorted.insert(position, source);
        keys.insert(position, key);
        proof {
            assert forall|k: int| 0 <= k < keys@.len() implies (#[trigger] keys@[k])@ == source_identity(
                sorted@[k],
            ) by {
                if k < position {
                    assert(keys@[k] == previous_keys[k]);
                    assert(sorted@[k] == previous[k]);
                } else if k > position {
                    assert(keys@[k] == previous_keys[k - 1]);
                    assert(sorted@[k] == previous[k - 1]);
                }
            }
        }
        index = index + 1;
    }
    assert(sources@.take(sources@.len() as int) =~= sources@);
    sorted
}

/// When a bounded capture ends.
#[derive(Debug, Clone, Copy, PartialEq, Eq, Structural)]
pub enum CaptureTermination {
    DurationSeconds(u64),
    Ticks(u64),
}

/// The message of a recording asked for neither or both of a duration and a
/// Clock count.
pub open spec fn one_termination() -> Seq<char> {
    "record requires exactly one of --duration or --ticks"@
}

/// The termination condition of a recording, from its optional duration in
/// seconds and optional Clock count: exactly one of them must be given.
pub fn termination_from(duration: Option<u64>, ticks: Option<u64>) -> (termination: Result<CaptureTermination, AppError>)
    ensures
        match (duration, ticks) {
            (Some(seconds), None) => termination == Ok::<CaptureTermination, AppError>(
                CaptureTermination::DurationSeconds(seconds),
            ),
            (None, Some(count)) => termination == Ok::<CaptureTermination, AppError>(
                CaptureTermination::Ticks(count),
            ),
            _ => termination matches Err(error) && error.is_invalid_capture(one_termination()),
        },
{
    match (duration, ticks) {
        (Some(seconds), None) => Ok(CaptureTermination::DurationSeconds(seconds)),
        (None, Some(count)) => Ok(CaptureTermination::Ticks(count)),
        _ => Err(
            AppError::InvalidCapture("record requires exactly one of --duration or --ticks".to_owned()),
        ),
    }
}

/// A validated request to record one source.
#[derive(Debug, PartialEq, Eq)]
pub struct CaptureRequest {
    pub source: MidiSource,
    pub termination: CaptureTermination,
    /// Permit the explicitly labeled `CLOCK_MONOTONIC_RAW` userspace fallback
    /// when timestamped ALSA RawMIDI reads are unavailable.
    pub allow_userspace_timestamps: bool,
}

/// The termination bound is zero.
pub open spec fn empty_termination(termination: CaptureTermination) -> bool {
    match termination {
        CaptureTermination::DurationSeconds(seconds) => seconds == 0,
        CaptureTermination::Ticks(ticks) => ticks == 0,
    }
}

impl CaptureRequest {
    /// A request with userspace timestamping not permitted; a zero duration or
    /// tick count is refused.
    pub fn new(source: MidiSource, termination: CaptureTermination) -> (result: Result<
        Self,
        AppError,
    >)
        ensures
            empty_termination(termination) ==> (result matches Err(error)
                && error.is_invalid_capture("capture termination must be positive"@)),
            !empty_termination(termination) ==> result == Ok::<CaptureRequest, AppError>(
                CaptureRequest { source, termination, allow_userspace_timestamps: false },
            ),
    {
        match termination {
            CaptureTermination::DurationSeconds(0) | CaptureTermination::Ticks(0) => Err(
                AppError::InvalidCapture("capture termination must be positive".to_owned()),
            ),
            _ => Ok(CaptureRequest { source, termination, allow_userspace_timestamps: false }),
        }
    }

    /// The same request with the userspace timestamp fallback permitted.
    pub fn allow_userspace_timestamps(self) -> (request: Self)
        ensures
            request == (CaptureRequest { allow_userspace_timestamps: true, ..self }),
    {
        let mut request = self;
        request.allow_userspace_timestamps = true;
        request
    }
}

/// The identity under which a source is selected and recorded: the ALSA
/// device where there is one, else `node/port`, with `#serial` when known.
pub open spec fn source_identity(source: MidiSource) -> Seq<char> {
    match source.alsa_device {
        Some(device) => device@,
        None => match source.object_serial {
            Some(serial) => source.node_name@ + "/"@ + source.port_name@ + "#"@ + serial@,
            None => source.node_name@ + "/"@ + source.port_name@,
        },
    }
}

impl MidiSource {
    /// The stable identity of this source.
    pub fn stable_identity(&self) -> (identity: String)
        ensures
            identity@ == source_identity(*self),
    {
        if let Some(device) = &self.alsa_device {
            return device.clone();
        }
        let mut identity = self.node_name.clone();
        identity.append("/");
        identity.append(self.port_name.as_str());
        if let Some(serial) = &self.object_serial {
            identity.append("#");
            identity.append(serial.as_str());
        }
        identity
    }
}

/// A source answers to `selector` by display name or by stable identity.
pub open spec fn answers_to(source: MidiSource, selector: Seq<char>) -> bool {
    source.display_name@ == selector || source_identity(source) == selector
}

/// The sources among `sources` that answer to `selector`, in order.
pub open spec fn sources_answering(sources: Seq<MidiSource>, selector: Seq<char>) -> Seq<
    MidiSource,
>
    decreases sources.len(),
{
    if sources.len() == 0 {
        Seq::empty()
    } else {
        let earlier = sources_answering(sources.drop_last(), selector);
        if answers_to(sources.last(), selector) {
            earlier.push(sources.last())
        } else {
            earlier
        }
    }
}

/// Picks the one source that answers to `selector`; no source at all, no
/// answering source, and several answering sources are each an error.
pub fn select_source(sources: &[MidiSource], selector: &str) -> (result: Result<
    MidiSource,
    AppError,
>)
    ensures
        ({
            let found = sources_answering(sources@, selector@);
            &&& found.len() == 0 && sources@.len() == 0 ==> (result matches Err(AppError::NoSource))
            &&& found.len() == 0 && sources@.len() > 0 ==> (result matches Err(
                AppError::SourceNotFound { selector: text },
            ) && text@ == selector@)
            &&& found.len() == 1 ==> result == Ok::<MidiSource, AppError>(found[0])
            &&& found.len() > 1 ==> (result matches Err(
                AppError::AmbiguousSource { selector: text, candidates },
            ) && text@ == selector@ && candidates@.map_values(|candidate: String| candidate@)
                == found.map_values(|source: MidiSource| source_identity(source)))
        }),
{
    let wanted = selector.to_owned();
    let mut found: Vec<MidiSource> = Vec::new();
    let mut index: usize = 0;
    while index < sources.len()
        invariant
            index <= sources@.len(),
            wanted@ == selector@,
            found@ == sources_answering(sources@.take(index as int), selector@),
        decreases sources@.len() - index,
    {
        let source = &sources[index];
        let identity = source.stable_identity();
        assert(sources@.take(index + 1).drop_last() =~= sources@.take(index as int));
        if source.display_name == wanted || identity == wanted {
            found.push(source.clone());
        }
        index = index + 1;
    }
    assert(sources@.take(sources@.len() as int) =~= sources@);
    if found.len() == 0 {
        if sources.len() == 0 {
            return Err(AppError::NoSource);
        }
        return Err(AppError::SourceNotFound { selector: wanted });
    }
    if found.len() == 1 {
        return Ok(found[0].clone());
    }
    let mut candidates: Vec<String> = Vec::new();
    let mut index: usize = 0;
    while index < found.len()
        invariant
            index <= found@.len(),
            candidates@.len() == index,
            forall|i: int| 0 <= i < index ==> #[trigger] candidates@[i]@ == source_identity(found@[i]),
        decreases found@.len() - index,
    {
        candidates.push(found[index].stable_identity());
        index = index + 1;
    }
    assert(candidates@.map_values(|candidate: String| candidate@) =~= found@.map_values(
        |source: MidiSource| source_identity(source),
    ));
    Err(AppError::AmbiguousSource { selector: wanted, candidates })
}

/// Largest number of MIDI bytes per second a 31.25 kbaud link carries.
pub const MAX_MIDI_BYTES_PER_SECOND: u64 = 3_125;

/// Events reserved beyond the termination bound.
pub const EVENT_SAFETY_MARGIN: u64 = 128;

/// The preallocated event capacity for a termination bound, when it fits `u64`.
pub open spec fn capacity_bound(termination: CaptureTermination) -> int {
    match termination {
        CaptureTermination::DurationSeconds(seconds) => seconds * MAX_MIDI_BYTES_PER_SECOND
            + EVENT_SAFETY_MARGIN,
        CaptureTermination::Ticks(ticks) => ticks + EVENT_SAFETY_MARGIN,
    }
}

/// The number of events to preallocate for a bounded capture: every byte the
/// link can carry in the duration, or the tick count, plus a safety margin.
pub fn event_capacity(termination: &CaptureTermination) -> (result: Result<usize, AppError>)
    ensures
        capacity_bound(*termination) > u64::MAX ==> (result matches Err(error)
            && error.is_invalid_capture("capture termination is too large"@)),
        u64::MAX >= capacity_bound(*termination) > usize::MAX ==> (result matches Err(error)
            && error.is_invalid_capture("capture capacity does not fit this platform"@)),
        capacity_bound(*termination) <= usize::MAX ==> result == Ok::<usize, AppError>(
            capacity_bound(*termination) as usize,
        ),
{
    let capacity = match termination {
        CaptureTermination::DurationSeconds(seconds) => match seconds.checked_mul(
            MAX_MIDI_BYTES_PER_SECOND,
        ) {
            Some(events) => events.checked_add(EVENT_SAFETY_MARGIN),
            None => None,
        },
        CaptureTermination::Ticks(ticks) => ticks.checked_add(EVENT_SAFETY_MARGIN),
    };
    let capacity = match capacity {
        Some(capacity) => capacity,
        None => {
            return Err(AppError::InvalidCapture("capture termination is too large".to_owned()));
        },
    };
    if capacity > usize::MAX as u64 {
        return Err(
            AppError::InvalidCapture("capture capacity does not fit this platform".to_owned()),
        );
    }
    Ok(capacity as usize)
}

/// `Vec::capacity`: the number of elements the vector holds without
/// reallocating, which the documentation guarantees is at least its length.
#[verifier::external_body]
pub(crate) fn vec_capacity<T>(values: &Vec<T>) -> (capacity: usize)
    ensures
        capacity >= values@.len(),
{
    values.capacity()
}

/// The captured events that appending realtime `events` makes after
/// `existing` earlier entries, all sharing `metadata` and a zero timestamp.
pub open spec fn appended_events(
    existing: nat,
    events: Seq<MidiEvent>,
    metadata: TimestampMetadata,
) -> Seq<CapturedEvent> {
    Seq::new(
        events.len(),
        |i: int|
            CapturedEvent {
                sequence: (existing + i) as u64,
                timestamp_ns: 0,
                event: events[i],
                timestamp_metadata: metadata,
            },
    )
}

/// Appending realtime events keeps the events of a capture numbered
/// consecutively from zero.
pub proof fn law_appending_keeps_numbering(
    existing: Seq<CapturedEvent>,
    kinds: Seq<MidiEvent>,
    metadata: TimestampMetadata,
)
    requires
        numbered(existing),
        existing.len() + kinds.len() <= u64::MAX + 1,
    ensures
        numbered(existing + appended_events(existing.len(), kinds, metadata)),
{
    let all = existing + appended_events(existing.len(), kinds, metadata);
    assert forall|i: int| 0 <= i < all.len() implies (#[trigger] all[i]).sequence == i by {
        if i >= existing.len() {
            assert(all[i] == appended_events(existing.len(), kinds, metadata)[i - existing.len()]);
        }
    }
}

/// Feeds `bytes` through `parser` and appends each realtime event with
/// `metadata`, never growing `events` beyond its preallocated capacity.
/// On overflow, the bytes before the one that found the buffer full have
/// been appended, and the parser has consumed that byte too.
pub(crate) fn append_realtime_events(
    parser: &mut MidiParser,
    events: &mut Vec<CapturedEvent>,
    bytes: &[u8],
    metadata: &TimestampMetadata,
) -> (result: Result<(), AppError>)
    ensures
        result is Ok ==> {
            &&& final(events)@ == old(events)@ + appended_events(
                old(events)@.len(),
                realtime_events(bytes@),
                *metadata,
            )
            &&& final(parser).pending() == pending_after(old(parser).pending(), bytes@)
        },
        result matches Err(error) ==> error is CaptureOverflow,
        final(events)@.len() >= old(events)@.len(),
        final(events)@.take(old(events)@.len() as int) == old(events)@,
        result is Err ==> {
            exists|consumed: int|
                0 <= consumed < bytes@.len() && realtime_event(#[trigger] bytes@[consumed])
                    is Some && final(events)@ == old(events)@ + appended_events(
                    old(events)@.len(),
                    realtime_events(bytes@.take(consumed)),
                    *metadata,
                ) && final(parser).pending() == pending_after(
                    old(parser).pending(),
                    bytes@.take(consumed + 1),
                )
        },
{
    let capacity = vec_capacity(events);
    append_within(parser, events, bytes, metadata, capacity)
}

/// Appends `value` when `values` holds fewer than `capacity` entries, and
/// reports whether it did; a full buffer is left unchanged.
pub fn push_within<T>(values: &mut Vec<T>, value: T, capacity: usize) -> (stored: bool)
    requires
        old(values)@.len() <= capacity,
    ensures
        stored <==> old(values)@.len() < capacity,
        stored ==> final(values)@ == old(values)@.push(value),
        !stored ==> final(values)@ == old(values)@,
{
    if values.len() < capacity {
        values.push(value);
        true
    } else {
        false
    }
}

/// The realtime events of `bytes` outnumber those of any of its prefixes.
proof fn lemma_prefix_events_fewer(bytes: Seq<u8>, count: int)
    requires
        0 <= count <= bytes.len(),
    ensures
        realtime_events(bytes.take(count)).len() <= realtime_events(bytes).len(),
{
    crate::capture::parser::law_split_stream_keeps_events(bytes.take(count), bytes.skip(count));
    assert(bytes.take(count) + bytes.skip(count) =~= bytes);
}

/// Feeds `bytes` through `parser` and appends each realtime event with
/// `metadata`, as long as `events` holds fewer than `capacity` entries. The
/// chunk succeeds exactly when all its realtime events fit within `capacity`;
/// otherwise the events before the one that found the buffer full are
/// appended, filling it to exactly `capacity`, the parser has consumed the
/// byte of that event too, and the result is `CaptureOverflow`.
pub fn append_within(
    parser: &mut MidiParser,
    events: &mut Vec<CapturedEvent>,
    bytes: &[u8],
    metadata: &TimestampMetadata,
    capacity: usize,
) -> (result: Result<(), AppError>)
    requires
        old(events)@.len() <= capacity,
    ensures
        result is Ok <==> old(events)@.len() + realtime_events(bytes@).len() <= capacity,
        result is Ok ==> {
            &&& final(events)@ == old(events)@ + appended_events(
                old(events)@.len(),
                realtime_events(bytes@),
                *metadata,
            )
            &&& final(parser).pending() == pending_after(old(parser).pending(), bytes@)
        },
        result matches Err(error) ==> error is CaptureOverflow,
        final(events)@.len() >= old(events)@.len(),
        final(events)@.take(old(events)@.len() as int) == old(events)@,
        result is Err ==> final(events)@.len() == capacity,
        result is Err ==> {
            exists|consumed: int|
                0 <= consumed < bytes@.len() && realtime_event(#[trigger] bytes@[consumed])
                    is Some && final(events)@ == old(events)@ + appended_events(
                    old(events)@.len(),
                    realtime_events(bytes@.take(consumed)),
                    *metadata,
                ) && final(parser).pending() == pending_after(
                    old(parser).pending(),
                    bytes@.take(consumed + 1),
                )
        },
{
    let ghost start = old(events)@;
    let ghost start_pending = old(parser).pending();
    let mut index: usize = 0;
    while index < bytes.len()
        invariant
            index <= bytes@.len(),
            start == old(events)@,
            start_pending == old(parser).pending(),
            start.len() <= capacity,
            events@ == start + appended_events(
                start.len(),
                realtime_events(bytes@.take(index as int)),
                *metadata,
            ),
            events@.len() <= capacity,
            parser.pending() == pending_after(start_pending, bytes@.take(index as int)),
            events@.len() >= start.len(),
            events@.take(start.len() as int) == start,
        decreases bytes@.len() - index,
    {
        let byte = bytes[index];
        let ghost before = bytes@.take(index as int);
        assert(bytes@.take(index + 1).drop_last() =~= before);
        let parsed = parser.push(byte);
        assert(bytes@.take(index + 1).last() == byte);
        if let Some(event) = parsed {
            if events.len() >= capacity {
                assert(bytes@.take(index + 1).last() == byte);
                assert(realtime_event(bytes@[index as int]) is Some);
                proof {
                    lemma_prefix_events_fewer(bytes@, index + 1);
                    assert(realtime_events(bytes@.take(index + 1)).len() == realtime_events(
                        before,
                    ).len() + 1);
                }
                return Err(AppError::CaptureOverflow);
            }
            let sequence = events.len() as u64;
            events.push(
                CapturedEvent {
                    sequence,
                    timestamp_ns: 0,
                    event,
                    timestamp_metadata: metadata.clone(),
                },
            );
            assert(events@ =~= start + appended_events(
                start.len(),
                realtime_events(bytes@.take(index + 1)),
                *metadata,
            ));
        } else {
            assert(events@ =~= start + appended_events(
                start.len(),
                realtime_events(bytes@.take(index + 1)),
                *metadata,
            ));
        }
        index = index + 1;
    }
    assert(bytes@.take(bytes@.len() as int) =~= bytes@);
    Ok(())
}

} // verus!
