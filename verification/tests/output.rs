use midijitter::output::compare::{
    check_comparison_count, difference_warning, setup_warnings, text_precedes, ComparedSetup,
};
use midijitter::output::{graph_timing_profile, transport_counts, warnings, GraphSettings};
use midijitter::{
    CaptureFile, CapturedEvent, EnvironmentMetadata, GraphTransition, MidiEvent,
    PipeWireTimestamp, SourceMetadata, TimestampMetadata,
};

fn event(sequence: u64, kind: MidiEvent) -> CapturedEvent {
    CapturedEvent {
        sequence,
        timestamp_ns: sequence as i128 * 1_000,
        event: kind,
        timestamp_metadata: TimestampMetadata::PipeWire(PipeWireTimestamp {
            cycle_position: 0,
            event_offset: 0,
            event_position: 0,
            rate_num: 1,
            rate_denom: 48_000,
            quantum: 256,
        }),
    }
}

fn capture(events: Vec<CapturedEvent>, transitions: Vec<GraphTransition>) -> CaptureFile {
    CaptureFile {
        format_version: 1,
        backend: "pipewire".to_owned(),
        source: SourceMetadata {
            identity: "keys/out".to_owned(),
            display_name: "Keys".to_owned(),
        },
        timestamp_method: "fixture".to_owned(),
        ppqn: 24,
        application_version: "0.1.0".to_owned(),
        environment: EnvironmentMetadata {
            operating_system: "test".to_owned(),
            pipewire_version: None,
        },
        transitions,
        events,
    }
}

fn transition(rate_denom: u32, quantum: u32) -> GraphTransition {
    GraphTransition {
        event_sequence: 1,
        rate_num: 1,
        rate_denom,
        quantum,
    }
}

#[test]
fn transport_messages_are_counted_by_kind() {
    let capture = capture(
        vec![
            event(1, MidiEvent::Start),
            event(2, MidiEvent::Clock),
            event(3, MidiEvent::Stop),
            event(4, MidiEvent::Continue),
            event(5, MidiEvent::ActiveSensing),
            event(6, MidiEvent::Stop),
        ],
        vec![],
    );
    assert_eq!(transport_counts(&capture), (1, 1, 2));
}

#[test]
fn short_and_transitioning_captures_are_warned_about() {
    let plain = capture(vec![event(1, MidiEvent::Clock)], vec![]);
    assert!(warnings(&plain, 240).is_empty());
    assert_eq!(
        warnings(&plain, 12),
        vec![
            "Warning: only 12 MIDI Clock events were captured. Use a longer capture for meaningful percentile statistics."
                .to_owned()
        ]
    );
    let one = capture(vec![event(1, MidiEvent::Clock)], vec![transition(44_100, 256)]);
    assert_eq!(
        warnings(&one, 500),
        vec![
            "Warning: graph timing changed during capture (1 transition recorded). Results mix graph configurations."
                .to_owned()
        ]
    );
    let two = capture(
        vec![event(1, MidiEvent::Clock)],
        vec![transition(44_100, 256), transition(48_000, 256)],
    );
    let list = warnings(&two, 3);
    assert_eq!(list.len(), 2);
    assert!(list[0].contains("(2 transitions recorded)"));
    assert!(list[1].contains("only 3 MIDI Clock events"));
}

#[test]
fn graph_timing_changes_are_counted_against_the_previous_settings() {
    let capture = capture(
        vec![event(1, MidiEvent::Clock)],
        vec![transition(48_000, 512), transition(44_100, 512), transition(44_100, 512)],
    );
    let profile = graph_timing_profile(&capture);
    assert_eq!(
        profile.initial,
        Some(GraphSettings {
            rate_num: 1,
            rate_denom: 48_000,
            quantum: 256
        })
    );
    assert_eq!(profile.rate_changes, 1);
    assert_eq!(profile.quantum_changes, 1);
}

#[test]
fn captures_without_pipewire_timing_have_no_initial_settings() {
    let mut alsa = event(1, MidiEvent::Clock);
    alsa.timestamp_metadata = TimestampMetadata::Alsa(midijitter::AlsaTimestamp {
        absolute_ns: 5,
        clock: "monotonic-raw".to_owned(),
        timestamped_read: true,
    });
    let capture = capture(vec![alsa], vec![transition(48_000, 256), transition(44_100, 256)]);
    let profile = graph_timing_profile(&capture);
    assert_eq!(profile.initial, None);
    assert_eq!(profile.rate_changes, 1);
    assert_eq!(profile.quantum_changes, 0);
}

#[test]
fn comparisons_need_two_captures() {
    assert!(check_comparison_count(2).is_ok());
    let error = check_comparison_count(1).unwrap_err();
    assert!(error.message().contains("at least two captures"));
}

#[test]
fn differing_values_are_listed_once_in_order() {
    let values = vec!["pipewire".to_owned(), "alsa-raw".to_owned(), "pipewire".to_owned()];
    assert_eq!(
        difference_warning("backend", &values),
        Some("captures differ in backend: alsa-raw, pipewire".to_owned())
    );
    let same = vec!["pipewire".to_owned(), "pipewire".to_owned()];
    assert_eq!(difference_warning("backend", &same), None);
}

#[test]
fn texts_sort_by_code_point() {
    assert!(text_precedes("Zeta", "alpha"));
    assert!(text_precedes("abc", "abd"));
    assert!(text_precedes("ab", "abc"));
    assert!(!text_precedes("abc", "abc"));
    assert!(!text_precedes("b", "a"));
    assert!(text_precedes("z", "é"));
}

fn setup(backend: &str, quantum: Option<u32>, version: Option<&str>) -> ComparedSetup {
    ComparedSetup {
        backend: backend.to_owned(),
        receiving_interface: "midi-in".to_owned(),
        sample_rate: "48000.00 Hz".to_owned(),
        quantum,
        pipewire_version: version.map(|text| text.to_owned()),
        timestamp_method: "graph".to_owned(),
    }
}

#[test]
fn setup_warnings_follow_the_setting_order() {
    let setups = vec![
        setup("pipewire", Some(256), Some("1.2.0")),
        setup("alsa-raw", Some(1024), None),
    ];
    assert_eq!(
        setup_warnings(&setups),
        vec![
            "captures differ in backend: alsa-raw, pipewire".to_owned(),
            "captures differ in quantum: 1024, 256".to_owned(),
            "captures differ in PipeWire version: 1.2.0, unknown".to_owned(),
        ]
    );
    let same = vec![setup("pipewire", None, None), setup("pipewire", None, None)];
    assert!(setup_warnings(&same).is_empty());
}
