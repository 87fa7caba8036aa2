use midijitter::backend::pipewire::common::{
    finish_capture, record_cycle, CaptureData, STOP_COMPLETE, STOP_NEGOTIATION_FAILURE,
    STOP_NONE, STOP_OVERFLOW, STOP_STREAM_ERROR, STOP_UNSUPPORTED_FORMAT,
};
use midijitter::backend::pipewire::spa::spa_sequence_from_bytes;
use midijitter::backend::{CaptureRequest, CaptureTermination, MidiSource};
use midijitter::{AppError, MidiEvent, TimestampMetadata};

fn word(value: u32) -> [u8; 4] {
    value.to_le_bytes()
}

/// A SPA sequence pod whose MIDI controls carry `controls` (offset, bytes).
fn sequence(controls: &[(u32, &[u8])]) -> Vec<u8> {
    let mut body = Vec::new();
    body.extend_from_slice(&word(0));
    body.extend_from_slice(&word(0));
    for (offset, bytes) in controls {
        body.extend_from_slice(&word(*offset));
        body.extend_from_slice(&word(2));
        body.extend_from_slice(&word(bytes.len() as u32));
        body.extend_from_slice(&word(4));
        body.extend_from_slice(bytes);
        while body.len() % 8 != 0 {
            body.push(0);
        }
    }
    let mut pod = Vec::new();
    pod.extend_from_slice(&word(body.len() as u32));
    pod.extend_from_slice(&word(16));
    pod.extend_from_slice(&body);
    pod
}

fn request(termination: CaptureTermination) -> CaptureRequest {
    CaptureRequest::new(
        MidiSource {
            display_name: "Keys".to_owned(),
            node_name: "keys".to_owned(),
            port_name: "out".to_owned(),
            object_serial: None,
            node_id: 1,
            port_id: 2,
            alsa_device: None,
        },
        termination,
    )
    .unwrap()
}

#[test]
fn sequence_pods_are_measured_from_their_header() {
    let pod = sequence(&[(0, &[0xf8])]);
    assert_eq!(spa_sequence_from_bytes(&pod), Some(pod.len()));
    let mut wrong_type = pod.clone();
    wrong_type[4] = 15;
    assert_eq!(spa_sequence_from_bytes(&wrong_type), None);
    assert_eq!(spa_sequence_from_bytes(&pod[..7]), None);
    let mut too_long = pod.clone();
    too_long[0] = 200;
    assert_eq!(spa_sequence_from_bytes(&too_long), None);
}

#[test]
fn a_cycle_of_clocks_completes_a_tick_bounded_capture() {
    let mut data = CaptureData::new(CaptureTermination::Ticks(2), 16);
    let pod = sequence(&[(0, &[0xf8]), (10, &[0xf8])]);
    let outcome = record_cycle(&mut data, STOP_NONE, &pod, pod.len(), 48_000, 1, 48_000, 256);
    assert_eq!(outcome.stop, Some(STOP_COMPLETE));
    assert_eq!(outcome.event_count, Some(2));

    let capture = finish_capture(
        &mut data,
        STOP_COMPLETE,
        None,
        false,
        &request(CaptureTermination::Ticks(2)),
        "0.1.0".to_owned(),
        "linux".to_owned(),
    )
    .unwrap();
    assert_eq!(capture.backend, "pipewire");
    assert_eq!(capture.source.identity, "keys/out");
    assert_eq!(capture.events.len(), 2);
    assert_eq!(capture.events[0].timestamp_ns, 0);
    assert_eq!(capture.events[1].timestamp_ns, 208_333);
    assert!(capture.events.iter().all(|event| event.event == MidiEvent::Clock));
    let TimestampMetadata::PipeWire(second) = &capture.events[1].timestamp_metadata else {
        panic!("PipeWire metadata must be preserved");
    };
    assert_eq!(second.event_position, 48_010);
    assert!(capture.validate().is_ok());
}

#[test]
fn an_invalid_graph_rate_stops_with_a_negotiation_failure() {
    let mut data = CaptureData::new(CaptureTermination::Ticks(2), 16);
    let pod = sequence(&[(0, &[0xf8])]);
    let outcome = record_cycle(&mut data, STOP_NONE, &pod, pod.len(), 0, 1, 0, 256);
    assert_eq!(outcome.stop, Some(STOP_NEGOTIATION_FAILURE));
    assert_eq!(outcome.event_count, None);
}

#[test]
fn a_truncated_control_is_an_unsupported_format() {
    let mut data = CaptureData::new(CaptureTermination::Ticks(2), 16);
    let mut pod = sequence(&[(0, &[0xf8])]);
    let length = 24;
    pod[0] = 16;
    let outcome = record_cycle(&mut data, STOP_NONE, &pod, length, 0, 1, 48_000, 256);
    assert_eq!(outcome.stop, Some(STOP_UNSUPPORTED_FORMAT));
}

#[test]
fn a_graph_rate_change_is_recorded_as_a_transition() {
    let mut data = CaptureData::new(CaptureTermination::Ticks(3), 16);
    let first = sequence(&[(0, &[0xf8])]);
    let outcome = record_cycle(&mut data, STOP_NONE, &first, first.len(), 0, 1, 48_000, 256);
    assert_eq!(outcome.stop, None);
    let second = sequence(&[(0, &[0xf8])]);
    let outcome = record_cycle(&mut data, STOP_NONE, &second, second.len(), 256, 1, 44_100, 256);
    assert_eq!(outcome.stop, None);
    let capture = finish_capture(
        &mut data,
        STOP_NONE,
        None,
        true,
        &request(CaptureTermination::Ticks(3)),
        "0.1.0".to_owned(),
        "linux".to_owned(),
    )
    .unwrap();
    assert_eq!(capture.transitions.len(), 1);
    assert_eq!(capture.transitions[0].event_sequence, 1);
    assert_eq!(capture.transitions[0].rate_denom, 44_100);
    assert!(capture.validate().is_ok());
}

#[test]
fn stop_reasons_map_to_their_errors() {
    let cases = [
        (STOP_OVERFLOW, "PipeWire capture buffer capacity was exhausted".to_owned()),
        (STOP_STREAM_ERROR, "PipeWire could not negotiate an application/control MIDI stream: boom".to_owned()),
    ];
    for (reason, message) in cases {
        let mut data = CaptureData::new(CaptureTermination::Ticks(1), 4);
        let error = finish_capture(
            &mut data,
            reason,
            Some("boom".to_owned()),
            false,
            &request(CaptureTermination::Ticks(1)),
            "0.1.0".to_owned(),
            "linux".to_owned(),
        )
        .unwrap_err();
        assert_eq!(error.message(), message);
    }
}

#[test]
fn an_interrupt_before_any_event_has_no_clock_events() {
    let mut data = CaptureData::new(CaptureTermination::Ticks(1), 4);
    let error = finish_capture(
        &mut data,
        STOP_NONE,
        None,
        true,
        &request(CaptureTermination::Ticks(1)),
        "0.1.0".to_owned(),
        "linux".to_owned(),
    )
    .unwrap_err();
    assert!(matches!(error, AppError::NoClockEvents));
}

#[test]
fn a_duration_bound_is_measured_in_graph_samples() {
    let mut data = CaptureData::new(CaptureTermination::DurationSeconds(1), 64);
    let empty = sequence(&[]);
    assert_eq!(record_cycle(&mut data, STOP_NONE, &empty, empty.len(), 1_000, 1, 48_000, 256).stop, None);
    assert_eq!(record_cycle(&mut data, STOP_NONE, &empty, empty.len(), 48_999, 1, 48_000, 256).stop, None);
    assert_eq!(
        record_cycle(&mut data, STOP_NONE, &empty, empty.len(), 49_000, 1, 48_000, 256).stop,
        Some(STOP_COMPLETE)
    );
}
