use midijitter::backend::pipewire::pipewire_remote_error;
use midijitter::backend::pipewire::common::{
    link_announcement_needed, record_control_bytes, STOP_COMPLETE, STOP_NONE,
};
use midijitter::backend::pipewire::control::SharedControl;
use midijitter::capture::MidiParser;
use midijitter::{AppError, CapturedEvent, MidiEvent, TimestampMetadata};

fn assert_send_sync<T: Send + Sync>() {}

#[test]
fn shared_control_is_send_and_sync() {
    assert_send_sync::<SharedControl>();
}

#[test]
fn shared_control_stop_roundtrip() {
    let control = SharedControl::new();
    assert_eq!(control.stop_reason(), STOP_NONE);
    control.request_stop(STOP_COMPLETE);
    assert_eq!(control.stop_reason(), STOP_COMPLETE);
    control.request_stop(STOP_NONE);
    assert_eq!(control.stop_reason(), STOP_COMPLETE);
}

#[test]
fn shared_control_tracks_streamed_and_event_count() {
    let control = SharedControl::new();
    assert!(!control.is_streamed());
    control.mark_streamed();
    assert!(control.is_streamed());
    assert_eq!(control.event_count(), 0);
    control.set_event_count(65);
    assert_eq!(control.event_count(), 65);
}

#[test]
fn shared_control_hands_an_error_over_once() {
    let control = SharedControl::new();
    assert_eq!(control.take_error(), None);
    control.set_error("stream failed".to_owned());
    assert_eq!(control.take_error(), Some("stream failed".to_owned()));
    assert_eq!(control.take_error(), None);
}

#[test]
fn link_announcement_fires_once_on_manual_streamed() {
    assert!(link_announcement_needed(true, true, false));
    assert!(!link_announcement_needed(true, true, true));
    assert!(!link_announcement_needed(true, false, false));
    assert!(!link_announcement_needed(false, true, false));
}

#[test]
fn records_each_realtime_byte_at_its_graph_cycle_offset() {
    let mut parser = MidiParser::default();
    let mut events: Vec<CapturedEvent> = Vec::with_capacity(2);

    record_control_bytes(&mut parser, &mut events, 4_096, 17, 1, 48_000, 256, &[0xf8, 0xfa])
        .unwrap();

    assert_eq!(events.len(), 2);
    for (sequence, event) in events.iter().enumerate() {
        assert_eq!(event.sequence, sequence as u64);
        assert_eq!(event.timestamp_ns, 0);
        let TimestampMetadata::PipeWire(timestamp) = &event.timestamp_metadata else {
            panic!("PipeWire metadata must be preserved");
        };
        assert_eq!(timestamp.cycle_position, 4_096);
        assert_eq!(timestamp.event_offset, 17);
        assert_eq!(timestamp.event_position, 4_113);
        assert_eq!(timestamp.rate_num, 1);
        assert_eq!(timestamp.rate_denom, 48_000);
        assert_eq!(timestamp.quantum, 256);
    }
    assert_eq!(events[0].event, MidiEvent::Clock);
    assert_eq!(events[1].event, MidiEvent::Start);
}

#[test]
fn events_in_one_cycle_keep_distinct_offsets_and_positions() {
    let mut parser = MidiParser::default();
    let mut events: Vec<CapturedEvent> = Vec::with_capacity(2);

    record_control_bytes(&mut parser, &mut events, 48_000, 317, 1, 48_000, 1024, &[0xf8]).unwrap();
    record_control_bytes(&mut parser, &mut events, 48_000, 851, 1, 48_000, 1024, &[0xf8]).unwrap();

    assert_eq!(events.len(), 2);
    let TimestampMetadata::PipeWire(first) = &events[0].timestamp_metadata else {
        panic!("PipeWire metadata must be preserved");
    };
    let TimestampMetadata::PipeWire(second) = &events[1].timestamp_metadata else {
        panic!("PipeWire metadata must be preserved");
    };
    assert_eq!((first.event_offset, first.event_position), (317, 48_317));
    assert_eq!((second.event_offset, second.event_position), (851, 48_851));
    assert_ne!(first.event_position, second.event_position);
}

#[test]
fn timestamp_overflow_is_not_reported_as_capacity_overflow() {
    let mut parser = MidiParser::default();
    let mut events: Vec<CapturedEvent> = Vec::with_capacity(1);

    let result =
        record_control_bytes(&mut parser, &mut events, i64::MAX, u32::MAX, 1, 48_000, 1024, &[0xf8]);

    assert!(matches!(result, Err(AppError::TimestampArithmeticOverflow)));
    assert!(events.is_empty());
}

#[test]
fn a_full_buffer_is_a_capture_overflow() {
    let mut parser = MidiParser::default();
    let mut events: Vec<CapturedEvent> = Vec::with_capacity(1);
    record_control_bytes(&mut parser, &mut events, 0, 0, 1, 48_000, 256, &[0xf8]).unwrap();
    let capacity = events.capacity();
    while events.len() < capacity {
        record_control_bytes(&mut parser, &mut events, 0, 1, 1, 48_000, 256, &[0xf8]).unwrap();
    }
    let result = record_control_bytes(&mut parser, &mut events, 0, 2, 1, 48_000, 256, &[0xf8]);
    assert!(matches!(result, Err(AppError::CaptureOverflow)));
    assert_eq!(events.len(), capacity);
}

#[test]
fn non_realtime_bytes_record_nothing() {
    let mut parser = MidiParser::default();
    let mut events: Vec<CapturedEvent> = Vec::with_capacity(4);
    record_control_bytes(&mut parser, &mut events, 0, 0, 1, 48_000, 256, &[0x90, 0x3c, 0x7f])
        .unwrap();
    assert!(events.is_empty());
}

#[test]
fn daemon_errors_about_permission_are_permission_denied() {
    let error = pipewire_remote_error("Permission denied by policy".to_owned());
    assert!(matches!(error, AppError::PipeWirePermissionDenied { .. }));
    assert_eq!(error.exit_code(), 4);
    let error = pipewire_remote_error("no such PERMISSION".to_owned());
    assert!(matches!(error, AppError::PipeWirePermissionDenied { .. }));
    let error = pipewire_remote_error("connection refused".to_owned());
    assert!(matches!(error, AppError::PipeWireUnavailable { detail } if detail == "connection refused"));
    let error = pipewire_remote_error("permissio".to_owned());
    assert!(matches!(error, AppError::PipeWireUnavailable { .. }));
}
