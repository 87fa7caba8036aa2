//! What reports say besides the statistics: transport message counts, graph
//! timing changes, and the warnings that qualify a capture.
use vstd::prelude::*;

use crate::capture::event::of_kind;
use crate::capture::{CaptureFile, CapturedEvent, GraphTransition, MidiEvent, TimestampMetadata};
use crate::strings::{decimal, decimal_text};

pub mod compare;
pub mod text;

verus! {

/// Clock-event count below which percentile statistics are unreliable.
pub const SHORT_CAPTURE_CLOCK_THRESHOLD: usize = 240;

/// How many of `events` are of `kind`.
pub open spec fn count_of(events: Seq<CapturedEvent>, kind: MidiEvent) -> nat {
    events.filter(of_kind(kind)).len()
}

/// Counts the Start, Continue and Stop messages of a capture, in that order;
/// Clock and Active Sensing messages are analysed apart.
pub fn transport_counts(capture: &CaptureFile) -> (counts: (usize, usize, usize))
    ensures
        counts.0 == count_of(capture.events@, MidiEvent::Start),
        counts.1 == count_of(capture.events@, MidiEvent::Continue),
        counts.2 == count_of(capture.events@, MidiEvent::Stop),
{
    let events = &capture.events;
    let mut start: usize = 0;
    let mut resume: usize = 0;
    let mut stop: usize = 0;
    let mut index: usize = 0;
    while index < events.len()
        invariant
            index <= events@.len(),
            start == count_of(events@.take(index as int), MidiEvent::Start),
            resume == count_of(events@.take(index as int), MidiEvent::Continue),
            stop == count_of(events@.take(index as int), MidiEvent::Stop),
        decreases events@.len() - index,
    {
        let ghost before = events@.take(index as int);
        let kind = events[index].event;
        proof {
            assert(events@.take(index + 1) =~= before.push(events@[index as int]));
            before.lemma_filter_push(events@[index as int], of_kind(MidiEvent::Start));
            before.lemma_filter_push(events@[index as int], of_kind(MidiEvent::Continue));
            before.lemma_filter_push(events@[index as int], of_kind(MidiEvent::Stop));
            before.lemma_filter_len(of_kind(kind));
        }
        match kind {
            MidiEvent::Start => start = start + 1,
            MidiEvent::Continue => resume = resume + 1,
            MidiEvent::Stop => stop = stop + 1,
            MidiEvent::Clock | MidiEvent::ActiveSensing => {},
        }
        index = index + 1;
    }
    assert(events@.take(events@.len() as int) =~= events@);
    (start, resume, stop)
}

/// The warning for a capture whose graph timing changed `count` times.
pub open spec fn transition_warning(count: nat) -> Seq<char> {
    "Warning: graph timing changed during capture ("@ + decimal(count) + " transition"@ + (if count
        == 1 {
        ""@
    } else {
        "s"@
    }) + " recorded). Results mix graph configurations."@
}

/// The warning for a capture of only `clock_events` Clock messages.
pub open spec fn short_capture_warning(clock_events: nat) -> Seq<char> {
    "Warning: only "@ + decimal(clock_events)
        + " MIDI Clock events were captured. Use a longer capture for meaningful percentile statistics."@
}

/// The warnings for a capture with `transitions` graph transitions and
/// `clock_events` Clock messages: one when graph timing changed, one when the
/// capture is shorter than the threshold, in that order.
pub open spec fn warnings_spec(transitions: nat, clock_events: nat) -> Seq<Seq<char>> {
    (if transitions > 0 {
        seq![transition_warning(transitions)]
    } else {
        Seq::empty()
    }) + (if clock_events < SHORT_CAPTURE_CLOCK_THRESHOLD {
        seq![short_capture_warning(clock_events)]
    } else {
        Seq::empty()
    })
}

/// The text of each string.
pub open spec fn texts(strings: Seq<String>) -> Seq<Seq<char>> {
    strings.map_values(|text: String| text@)
}

/// Human-readable warnings for conditions that affect interpretation.
pub fn warnings(capture: &CaptureFile, clock_events: usize) -> (list: Vec<String>)
    ensures
        texts(list@) == warnings_spec(capture.transitions@.len(), clock_events as nat),
{
    let mut list: Vec<String> = Vec::new();
    let count = capture.transitions.len();
    if count > 0 {
        let mut text = String::from_str("Warning: graph timing changed during capture (");
        text.append(decimal_text(count as u64).as_str());
        text.append(" transition");
        if count != 1 {
            text.append("s");
        }
        text.append(" recorded). Results mix graph configurations.");
        proof {
            reveal_strlit("");
        }
        assert(text@ == transition_warning(count as nat));
        list.push(text);
    }
    let ghost first = texts(list@);
    if clock_events < SHORT_CAPTURE_CLOCK_THRESHOLD {
        let mut text = String::from_str("Warning: only ");
        text.append(decimal_text(clock_events as u64).as_str());
        text.append(
            " MIDI Clock events were captured. Use a longer capture for meaningful percentile statistics.",
        );
        list.push(text);
        assert(texts(list@) =~= first.push(text@));
    }
    assert(texts(list@) =~= warnings_spec(count as nat, clock_events as nat));
    list
}

/// Rate numerator, rate denominator and quantum of a graph configuration.
#[derive(Debug, Clone, Copy, PartialEq, Eq, Structural)]
pub struct GraphSettings {
    pub rate_num: u32,
    pub rate_denom: u32,
    pub quantum: u32,
}

/// The graph settings of the first event, when it carries PipeWire timing.
pub open spec fn initial_settings(events: Seq<CapturedEvent>) -> Option<GraphSettings> {
    if events.len() > 0 {
        match events[0].timestamp_metadata {
            TimestampMetadata::PipeWire(timing) => Some(
                GraphSettings {
                    rate_num: timing.rate_num,
                    rate_denom: timing.rate_denom,
                    quantum: timing.quantum,
                },
            ),
            TimestampMetadata::Alsa(_) => None,
        }
    } else {
        None
    }
}

/// The graph settings a transition switches to.
pub open spec fn settings_of(transition: GraphTransition) -> GraphSettings {
    GraphSettings {
        rate_num: transition.rate_num,
        rate_denom: transition.rate_denom,
        quantum: transition.quantum,
    }
}

/// The settings in force before transition `i`: the initial ones before the
/// first, the previous transition's after that.
pub open spec fn settings_before(initial: Option<GraphSettings>, transitions: Seq<GraphTransition>, i: int) -> Option<GraphSettings> {
    if i == 0 {
        initial
    } else {
        Some(settings_of(transitions[i - 1]))
    }
}

/// Transition `i` changes the rate it was preceded by.
pub open spec fn changes_rate(initial: Option<GraphSettings>, transitions: Seq<GraphTransition>, i: int) -> bool {
    settings_before(initial, transitions, i) matches Some(before) && (before.rate_num
        != transitions[i].rate_num || before.rate_denom != transitions[i].rate_denom)
}

/// Transition `i` changes the quantum it was preceded by.
pub open spec fn changes_quantum(initial: Option<GraphSettings>, transitions: Seq<GraphTransition>, i: int) -> bool {
    settings_before(initial, transitions, i) matches Some(before) && before.quantum
        != transitions[i].quantum
}

/// How many of the first `n` transitions change the rate.
pub open spec fn rate_change_count(initial: Option<GraphSettings>, transitions: Seq<GraphTransition>, n: int) -> nat
    decreases n,
{
    if n <= 0 {
        0
    } else {
        rate_change_count(initial, transitions, n - 1) + if changes_rate(initial, transitions, n - 1) {
            1nat
        } else {
            0nat
        }
    }
}

/// How many of the first `n` transitions change the quantum.
pub open spec fn quantum_change_count(initial: Option<GraphSettings>, transitions: Seq<GraphTransition>, n: int) -> nat
    decreases n,
{
    if n <= 0 {
        0
    } else {
        quantum_change_count(initial, transitions, n - 1) + if changes_quantum(
            initial,
            transitions,
            n - 1,
        ) {
            1nat
        } else {
            0nat
        }
    }
}

/// The graph timing of a capture: its initial settings and how many stored
/// transitions changed the rate and the quantum.
#[derive(Debug, Clone, Copy, PartialEq, Eq, Structural)]
pub struct GraphTimingProfile {
    pub initial: Option<GraphSettings>,
    pub rate_changes: usize,
    pub quantum_changes: usize,
}

/// The graph timing of a capture. The initial settings come from the first
/// event's PipeWire timing; every stored transition is compared with the
/// settings in force before it.
pub fn graph_timing_profile(capture: &CaptureFile) -> (profile: GraphTimingProfile)
    ensures
        profile.initial == initial_settings(capture.events@),
        profile.rate_changes == rate_change_count(
            initial_settings(capture.events@),
            capture.transitions@,
            capture.transitions@.len() as int,
        ),
        profile.quantum_changes == quantum_change_count(
            initial_settings(capture.events@),
            capture.transitions@,
            capture.transitions@.len() as int,
        ),
{
    let initial: Option<GraphSettings> = if capture.events.len() > 0 {
        match &capture.events[0].timestamp_metadata {
            TimestampMetadata::PipeWire(timing) => Some(
                GraphSettings {
                    rate_num: timing.rate_num,
                    rate_denom: timing.rate_denom,
                    quantum: timing.quantum,
                },
            ),
            TimestampMetadata::Alsa(_) => None,
        }
    } else {
        None
    };
    let ghost transitions = capture.transitions@;
    let mut rate_changes: usize = 0;
    let mut quantum_changes: usize = 0;
    let mut previous = initial;
    let mut index: usize = 0;
    while index < capture.transitions.len()
        invariant
            transitions == capture.transitions@,
            index <= transitions.len(),
            previous == settings_before(initial, transitions, index as int),
            rate_changes == rate_change_count(initial, transitions, index as int),
            quantum_changes == quantum_change_count(initial, transitions, index as int),
            rate_changes <= index,
            quantum_changes <= index,
        decreases transitions.len() - index,
    {
        let transition = &capture.transitions[index];
        if let Some(before) = previous {
            if transition.rate_num != before.rate_num || transition.rate_denom != before.rate_denom {
                rate_changes = rate_changes + 1;
            }
            if transition.quantum != before.quantum {
                quantum_changes = quantum_changes + 1;
            }
        }
        previous = Some(
            GraphSettings {
                rate_num: transition.rate_num,
                rate_denom: transition.rate_denom,
                quantum: transition.quantum,
            },
        );
        index = index + 1;
    }
    GraphTimingProfile { initial, rate_changes, quantum_changes }
}

} // verus!
