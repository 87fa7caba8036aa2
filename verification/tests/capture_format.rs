use midijitter::{common_timestamp_ns, document_version, DocumentVersion};
use midijitter::{
    AppError, CaptureCompletion, CaptureFile, CapturedEvent, CommonGraphMetadata,
    CompletionStatus, EnvironmentMetadata, GraphTiming, GraphTransition, GraphTransitionKind,
    MidiEvent, PairedCapture, PairedGraphTransition, PipeWireTimestamp, SourceMetadata,
    TimestampMetadata,
};

fn fixture_capture() -> CaptureFile {
    CaptureFile {
        format_version: 1,
        backend: "pipewire".to_owned(),
        source: SourceMetadata {
            identity: "alsa_input.usb-midi:0".to_owned(),
            display_name: "USB MIDI".to_owned(),
        },
        timestamp_method: "pipewire-graph-position-plus-event-offset".to_owned(),
        ppqn: 24,
        application_version: "0.1.0".to_owned(),
        environment: EnvironmentMetadata {
            operating_system: "Debian GNU/Linux 13".to_owned(),
            pipewire_version: Some("1.2.0".to_owned()),
        },
        transitions: vec![GraphTransition {
            event_sequence: 1,
            rate_num: 1,
            rate_denom: 48_000,
            quantum: 256,
        }],
        events: vec![CapturedEvent {
            sequence: 1,
            timestamp_ns: 0,
            event: MidiEvent::Clock,
            timestamp_metadata: TimestampMetadata::PipeWire(PipeWireTimestamp {
                cycle_position: 48_000,
                event_offset: 37,
                event_position: 48_037,
                rate_num: 1,
                rate_denom: 48_000,
                quantum: 256,
            }),
        }],
    }
}

#[test]
fn fixture_capture_is_valid() {
    assert!(fixture_capture().validate().is_ok());
}

#[test]
fn validation_rejects_unsupported_format_version() {
    let mut capture = fixture_capture();
    capture.format_version = 2;

    assert!(matches!(capture.validate(), Err(AppError::UnsupportedCaptureFormat(2))));
}

#[test]
fn validation_rejects_empty_source_identity() {
    let mut capture = fixture_capture();
    capture.source.identity.clear();

    assert!(matches!(
        capture.validate(),
        Err(AppError::InvalidCapture(message)) if message == "source identity must not be empty"
    ));
}

#[test]
fn validation_rejects_blank_source_identity() {
    let mut capture = fixture_capture();
    capture.source.identity = " \t\n".to_owned();
    assert!(matches!(
        capture.validate(),
        Err(AppError::InvalidCapture(message)) if message == "source identity must not be empty"
    ));
}

#[test]
fn validation_rejects_ppqn_values_other_than_24() {
    for ppqn in [0, 23, 25, u32::MAX] {
        let mut capture = fixture_capture();
        capture.ppqn = ppqn;
        assert!(matches!(
            capture.validate(),
            Err(AppError::InvalidCapture(message)) if message == "PPQN must be exactly 24"
        ));
    }
}

#[test]
fn validation_rejects_zero_pipewire_rate_denominator() {
    let mut capture = fixture_capture();
    let TimestampMetadata::PipeWire(timestamp) = &mut capture.events[0].timestamp_metadata else {
        panic!("test fixtures carry PipeWire timestamps");
    };
    timestamp.rate_denom = 0;

    assert!(matches!(
        capture.validate(),
        Err(AppError::InvalidCapture(message)) if message == "PipeWire rate denominator must be positive"
    ));
}

#[test]
fn validation_rejects_zero_transition_rate_denominator() {
    let mut capture = fixture_capture();
    capture.transitions[0].rate_denom = 0;

    assert!(matches!(
        capture.validate(),
        Err(AppError::InvalidCapture(message)) if message == "PipeWire rate denominator must be positive"
    ));
}

#[test]
fn validation_rejects_non_monotonic_event_sequences() {
    let mut capture = fixture_capture();
    let timestamp_metadata = capture.events[0].timestamp_metadata.clone();
    capture.events.push(CapturedEvent {
        sequence: 1,
        timestamp_ns: 20_833_333,
        event: MidiEvent::Clock,
        timestamp_metadata,
    });

    assert!(matches!(
        capture.validate(),
        Err(AppError::InvalidCapture(message)) if message == "event sequence numbers must be strictly increasing"
    ));
}

fn fixture_paired_capture() -> PairedCapture {
    let common = CommonGraphMetadata {
        clock_id: 7,
        rate_num: 1,
        rate_denom: 48_000,
        quantum: 256,
        origin_position: 10_000,
    };
    let origin_position = common.origin_position;
    let rate_num = common.rate_num;
    let rate_denom = common.rate_denom;
    let event = |sequence, position: i64| CapturedEvent {
        sequence,
        timestamp_ns: (i128::from(position - origin_position) * i128::from(rate_num) * 1_000_000_000)
            / i128::from(rate_denom),
        event: MidiEvent::Clock,
        timestamp_metadata: TimestampMetadata::PipeWire(PipeWireTimestamp {
            cycle_position: position - 10,
            event_offset: 10,
            event_position: position,
            rate_num,
            rate_denom,
            quantum: 256,
        }),
    };
    PairedCapture {
        format_version: 2,
        backend: "pipewire".to_owned(),
        reference: SourceMetadata {
            identity: "ref".to_owned(),
            display_name: "Reference".to_owned(),
        },
        returned: SourceMetadata {
            identity: "ret".to_owned(),
            display_name: "Returned".to_owned(),
        },
        timestamp_method: "common-graph-origin".to_owned(),
        ppqn: 24,
        application_version: "0.1.0".to_owned(),
        environment: EnvironmentMetadata {
            operating_system: "test".to_owned(),
            pipewire_version: None,
        },
        common_graph: common,
        transitions: vec![PairedGraphTransition {
            event_sequence: 0,
            kind: GraphTransitionKind::Initial,
            clock_id: 7,
            timing: GraphTiming {
                rate_num: 1,
                rate_denom: 48_000,
                quantum: 256,
            },
        }],
        completion: CaptureCompletion {
            status: CompletionStatus::Complete,
            reason: None,
        },
        reference_events: vec![event(1, 10_000)],
        returned_events: vec![event(1, 10_048)],
    }
}

#[test]
fn fixture_paired_capture_is_valid() {
    assert!(fixture_paired_capture().validate().is_ok());
}

#[test]
fn paired_capture_rejects_event_not_relative_to_common_origin() {
    let mut capture = fixture_paired_capture();
    capture.returned_events[0].timestamp_ns += 1;
    assert!(matches!(
        capture.validate(),
        Err(AppError::InconsistentCommonTimebase(message))
            if message == "event timestamp is not relative to the common origin"
    ));
}

#[test]
fn paired_capture_rejects_the_v1_format_version() {
    let mut capture = fixture_paired_capture();
    capture.format_version = 1;
    assert!(matches!(capture.validate(), Err(AppError::UnsupportedCaptureFormat(1))));
}

#[test]
fn paired_capture_rejects_identical_sources() {
    let mut capture = fixture_paired_capture();
    capture.returned.identity = "ref".to_owned();
    assert!(matches!(capture.validate(), Err(AppError::InvalidCapture(_))));
}

#[test]
fn documents_dispatch_on_their_declared_version() {
    assert_eq!(document_version(Some(1)).unwrap(), DocumentVersion::V1);
    assert_eq!(document_version(Some(2)).unwrap(), DocumentVersion::V2);
    assert!(matches!(document_version(Some(3)), Err(AppError::UnsupportedCaptureFormat(3))));
    assert_eq!(document_version(Some((1_u64 << 32) + 1)).unwrap(), DocumentVersion::V1);
    assert!(matches!(
        document_version(None),
        Err(AppError::InvalidCapture(message)) if message == "missing format_version"
    ));
}

#[test]
fn validated_paired_events_sit_at_their_common_origin_timestamps() {
    let capture = fixture_paired_capture();
    assert!(capture.validate().is_ok());
    let common = capture.common_graph;
    for event in capture.reference_events.iter().chain(capture.returned_events.iter()) {
        let TimestampMetadata::PipeWire(timestamp) = &event.timestamp_metadata else {
            panic!("paired events carry PipeWire timing");
        };
        assert_eq!(
            common_timestamp_ns(timestamp.event_position, common.origin_position, common.rate_num, common.rate_denom)
                .unwrap(),
            event.timestamp_ns
        );
    }
}
