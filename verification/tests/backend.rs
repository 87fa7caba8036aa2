use midijitter::backend::{
    append_within, event_capacity, push_within, sort_sources, termination_from, CaptureRequest,
    CaptureTermination, MidiSource,
};
use midijitter::backend::pipewire::{port_source, PortAnnouncement};
use midijitter::capture::MidiParser;
use midijitter::{AlsaTimestamp, AppError, CapturedEvent, MidiEvent, TimestampMetadata};

fn source() -> MidiSource {
    MidiSource {
        display_name: "Test source".to_owned(),
        node_name: "test-node".to_owned(),
        port_name: "out".to_owned(),
        object_serial: None,
        node_id: 1,
        port_id: 2,
        alsa_device: None,
    }
}

#[test]
fn capture_request_has_one_positive_bounded_termination_condition() {
    assert!(CaptureRequest::new(source(), CaptureTermination::Ticks(1)).is_ok());
    assert!(CaptureRequest::new(source(), CaptureTermination::DurationSeconds(1)).is_ok());
    assert!(CaptureRequest::new(source(), CaptureTermination::Ticks(0)).is_err());
    assert!(CaptureRequest::new(source(), CaptureTermination::DurationSeconds(0)).is_err());
}

#[test]
fn userspace_timestamps_are_opt_in() {
    let request = CaptureRequest::new(source(), CaptureTermination::Ticks(24)).unwrap();
    assert!(!request.allow_userspace_timestamps);
    let request = request.allow_userspace_timestamps();
    assert!(request.allow_userspace_timestamps);
    assert_eq!(request.termination, CaptureTermination::Ticks(24));
}

#[test]
fn stable_identity_prefers_the_alsa_device() {
    let mut alsa = source();
    alsa.alsa_device = Some("hw:2,0,0".to_owned());
    assert_eq!(alsa.stable_identity(), "hw:2,0,0");
    assert_eq!(source().stable_identity(), "test-node/out");
    let mut serial = source();
    serial.object_serial = Some("77".to_owned());
    assert_eq!(serial.stable_identity(), "test-node/out#77");
}

#[test]
fn recording_needs_exactly_one_termination_option() {
    assert_eq!(
        termination_from(Some(60), None).unwrap(),
        CaptureTermination::DurationSeconds(60)
    );
    assert_eq!(termination_from(None, Some(96)).unwrap(), CaptureTermination::Ticks(96));
    for (duration, ticks) in [(None, None), (Some(1), Some(1))] {
        let error = termination_from(duration, ticks).unwrap_err();
        assert_eq!(
            error.message(),
            "invalid capture: record requires exactly one of --duration or --ticks"
        );
    }
}

#[test]
fn event_capacity_covers_the_midi_byte_rate() {
    assert_eq!(event_capacity(&CaptureTermination::Ticks(100)).unwrap(), 228);
    assert_eq!(
        event_capacity(&CaptureTermination::DurationSeconds(2)).unwrap(),
        2 * 3_125 + 128
    );
    assert!(matches!(
        event_capacity(&CaptureTermination::DurationSeconds(u64::MAX)),
        Err(AppError::InvalidCapture(_))
    ));
}

fn alsa_metadata(absolute_ns: i128) -> TimestampMetadata {
    TimestampMetadata::Alsa(AlsaTimestamp {
        absolute_ns,
        clock: "monotonic-raw".to_owned(),
        timestamped_read: true,
    })
}

#[test]
fn chunks_that_fit_the_capacity_are_appended_whole() {
    let mut parser = MidiParser::default();
    let mut events: Vec<CapturedEvent> = Vec::new();
    append_within(&mut parser, &mut events, &[0xf8], &alsa_metadata(5_000_000_000), 4).unwrap();
    append_within(&mut parser, &mut events, &[0xf8, 0xfa], &alsa_metadata(5_020_833_333), 4).unwrap();
    assert_eq!(events.len(), 3);
    let sequences: Vec<u64> = events.iter().map(|event| event.sequence).collect();
    assert_eq!(sequences, vec![0, 1, 2]);
    let kinds: Vec<MidiEvent> = events.iter().map(|event| event.event).collect();
    assert_eq!(kinds, vec![MidiEvent::Clock, MidiEvent::Clock, MidiEvent::Start]);
    assert!(events.iter().all(|event| event.timestamp_ns == 0));
    assert_eq!(events[2].timestamp_metadata, alsa_metadata(5_020_833_333));
}

#[test]
fn a_chunk_that_overflows_fills_the_buffer_to_capacity() {
    let mut parser = MidiParser::default();
    let mut events: Vec<CapturedEvent> = Vec::new();
    append_within(&mut parser, &mut events, &[0xf8], &alsa_metadata(1), 3).unwrap();
    let result = append_within(&mut parser, &mut events, &[0xf8, 0x90, 0xfa, 0xfc], &alsa_metadata(2), 3);
    assert!(matches!(result, Err(AppError::CaptureOverflow)));
    assert_eq!(events.len(), 3);
    assert_eq!(events[2].event, MidiEvent::Start);
    let room = append_within(&mut parser, &mut events, &[0x3c, 0x40], &alsa_metadata(3), 3);
    assert!(room.is_ok(), "a chunk without realtime bytes needs no room");
}

#[test]
fn transitions_are_kept_only_while_there_is_room() {
    let mut values: Vec<u32> = vec![1];
    assert!(push_within(&mut values, 2, 2));
    assert!(!push_within(&mut values, 3, 2));
    assert_eq!(values, vec![1, 2]);
}

fn announcement() -> PortAnnouncement {
    PortAnnouncement {
        global_id: 77,
        is_port: true,
        media_type: Some("Midi".to_owned()),
        direction: Some("out".to_owned()),
        node_id: Some("42".to_owned()),
        node_name: None,
        port_name: None,
        node_description: None,
        node_nick: Some("Nick".to_owned()),
        object_serial: Some("9".to_owned()),
    }
}

#[test]
fn midi_output_ports_become_sources_with_default_names() {
    let source = port_source(announcement()).unwrap();
    assert_eq!(source.node_id, 42);
    assert_eq!(source.port_id, 77);
    assert_eq!(source.node_name, "node-42");
    assert_eq!(source.port_name, "port-77");
    assert_eq!(source.display_name, "Nick");
    assert_eq!(source.object_serial.as_deref(), Some("9"));
    assert_eq!(source.alsa_device, None);
    assert_eq!(source.stable_identity(), "node-42/port-77#9");
}

#[test]
fn other_globals_announce_no_source() {
    assert!(port_source(PortAnnouncement { is_port: false, ..announcement() }).is_none());
    assert!(port_source(PortAnnouncement { media_type: Some("Audio".to_owned()), ..announcement() }).is_none());
    assert!(port_source(PortAnnouncement { direction: Some("in".to_owned()), ..announcement() }).is_none());
    assert!(port_source(PortAnnouncement { node_id: Some("x".to_owned()), ..announcement() }).is_none());
    assert!(port_source(PortAnnouncement { node_id: None, ..announcement() }).is_none());
}

#[test]
fn sources_sort_by_identity_and_keep_ties_in_order() {
    let named = |display: &str, node: &str| MidiSource {
        display_name: display.to_owned(),
        node_name: node.to_owned(),
        port_name: "out".to_owned(),
        object_serial: None,
        node_id: 1,
        port_id: 2,
        alsa_device: None,
    };
    let sources = vec![named("b", "zeta"), named("first", "alpha"), named("c", "Beta"), named("second", "alpha")];
    let mut expected = sources.clone();
    expected.sort_by_key(MidiSource::stable_identity);
    let sorted = sort_sources(&sources);
    assert_eq!(sorted, expected);
    let order: Vec<&str> = sorted.iter().map(|source| source.display_name.as_str()).collect();
    assert_eq!(order, vec!["c", "first", "second", "b"]);
}
