use midijitter::backend::alsa::capture::{
    choose_clock, classify_read_error, ReadFailure, ERRNO_EAGAIN, ERRNO_EINTR, ERRNO_EINVAL,
    ERRNO_ENOTTY,
};
use midijitter::backend::alsa::capture::{
    map_capture_error, map_open_error, record_alsa_bytes, AlsaClock, ERRNO_EACCES, ERRNO_EBUSY,
    ERRNO_ENODEV, ERRNO_EPERM,
};
use midijitter::backend::alsa::capture::{capture_bound_reached, finish_alsa_capture, AlsaProgress};
use midijitter::backend::{CaptureRequest, CaptureTermination, MidiSource};
use midijitter::capture::MidiParser;
use midijitter::{AppError, CapturedEvent, MidiEvent, TimestampMetadata};

const ERRNO_ENOENT: i32 = 2;

#[test]
fn chunks_keep_their_kernel_timestamps() {
    let mut parser = MidiParser::default();
    let mut events: Vec<CapturedEvent> = Vec::with_capacity(4);

    record_alsa_bytes(&mut parser, &mut events, &[0xf8], 5_000_000_000, AlsaClock::MonotonicRaw, true)
        .unwrap();
    record_alsa_bytes(
        &mut parser,
        &mut events,
        &[0xf8, 0xfa],
        5_020_833_333,
        AlsaClock::MonotonicRaw,
        true,
    )
    .unwrap();

    assert_eq!(events.len(), 3);
    for event in &events {
        let TimestampMetadata::Alsa(timestamp) = &event.timestamp_metadata else {
            panic!("ALSA metadata must be preserved");
        };
        assert!(timestamp.timestamped_read);
        assert_eq!(timestamp.clock, "monotonic-raw");
    }
    let TimestampMetadata::Alsa(first) = &events[0].timestamp_metadata else {
        panic!("ALSA metadata must be preserved");
    };
    let TimestampMetadata::Alsa(last) = &events[2].timestamp_metadata else {
        panic!("ALSA metadata must be preserved");
    };
    assert_eq!(first.absolute_ns, 5_000_000_000);
    assert_eq!(last.absolute_ns, 5_020_833_333);
}

#[test]
fn userspace_fallback_is_labeled() {
    let mut parser = MidiParser::default();
    let mut events: Vec<CapturedEvent> = Vec::with_capacity(1);

    record_alsa_bytes(&mut parser, &mut events, &[0xf8], 7_000_000_000, AlsaClock::Userspace, false)
        .unwrap();

    let TimestampMetadata::Alsa(timestamp) = &events[0].timestamp_metadata else {
        panic!("ALSA metadata must be preserved");
    };
    assert!(!timestamp.timestamped_read);
    assert_eq!(timestamp.clock, "userspace-monotonic-raw");
}

#[test]
fn bounded_capacity_is_enforced() {
    let mut parser = MidiParser::default();
    let mut events: Vec<CapturedEvent> = Vec::with_capacity(1);
    record_alsa_bytes(&mut parser, &mut events, &[0xf8], 1, AlsaClock::MonotonicRaw, true).unwrap();

    let result =
        record_alsa_bytes(&mut parser, &mut events, &[0xf8], 2, AlsaClock::MonotonicRaw, true);
    assert!(matches!(result, Err(AppError::CaptureOverflow)));
}

#[test]
fn busy_devices_report_a_busy_error() {
    let error = map_open_error(-ERRNO_EBUSY, "cannot open hw:1,0,0: busy".to_owned());
    assert!(matches!(error, AppError::AlsaBusy { .. }));
    assert_eq!(error.exit_code(), 3);
}

#[test]
fn permission_errors_are_distinct() {
    for errno in [ERRNO_EACCES, ERRNO_EPERM] {
        let error = map_open_error(-errno, "cannot open hw:1,0,0: denied".to_owned());
        assert!(
            matches!(error, AppError::AlsaPermissionDenied { .. }),
            "errno {errno} should map to permission denied"
        );
        assert_eq!(error.exit_code(), 4);
    }
}

#[test]
fn missing_devices_are_unavailable() {
    let error = map_open_error(-ERRNO_ENOENT, "cannot open hw:9,9,9: missing".to_owned());
    assert!(matches!(error, AppError::AlsaUnavailable { .. }));
}

#[test]
fn vanished_devices_report_a_disconnect() {
    let error = map_capture_error(-ERRNO_ENODEV, "cannot read hw:1,0,0".to_owned());
    assert!(matches!(error, AppError::AlsaDisconnected));
}

#[test]
fn capture_errors_other_than_a_vanished_device_map_as_open_errors() {
    let error = map_capture_error(-ERRNO_EBUSY, "busy".to_owned());
    assert!(matches!(error, AppError::AlsaBusy { detail } if detail == "busy"));
}

#[test]
fn clock_labels_name_the_clock() {
    assert_eq!(AlsaClock::MonotonicRaw.label(), "monotonic-raw");
    assert_eq!(AlsaClock::Userspace.label(), "userspace-monotonic-raw");
}

#[test]
fn timestamped_reads_are_preferred_and_the_fallback_is_opt_in() {
    assert_eq!(choose_clock(None, false, String::new()).unwrap(), AlsaClock::MonotonicRaw);
    for errno in [ERRNO_EINVAL, ERRNO_ENOTTY] {
        assert!(matches!(
            choose_clock(Some(-errno), false, String::new()),
            Err(AppError::AlsaTimestampUnsupported)
        ));
        assert_eq!(choose_clock(Some(-errno), true, String::new()).unwrap(), AlsaClock::Userspace);
    }
    assert!(matches!(
        choose_clock(Some(-ERRNO_EBUSY), true, "busy".to_owned()),
        Err(AppError::AlsaBusy { .. })
    ));
}

#[test]
fn read_failures_are_classified_by_errno() {
    assert_eq!(classify_read_error(-ERRNO_EAGAIN), ReadFailure::Retry);
    assert_eq!(classify_read_error(-ERRNO_EINTR), ReadFailure::Interrupted);
    assert_eq!(classify_read_error(-ERRNO_ENODEV), ReadFailure::Failed);
}

fn alsa_request() -> CaptureRequest {
    CaptureRequest::new(
        MidiSource {
            display_name: "USB MIDI".to_owned(),
            node_name: "card".to_owned(),
            port_name: "hw:1,0,0".to_owned(),
            object_serial: None,
            node_id: 1,
            port_id: 0,
            alsa_device: Some("hw:1,0,0".to_owned()),
        },
        CaptureTermination::Ticks(3),
    )
    .unwrap()
}

#[test]
fn finished_alsa_runs_validate_and_keep_their_clock_label() {
    let mut parser = MidiParser::default();
    let mut events: Vec<CapturedEvent> = Vec::with_capacity(8);
    record_alsa_bytes(&mut parser, &mut events, &[0xf8, 0xfa], 5_000_000_000, AlsaClock::Userspace, false).unwrap();
    record_alsa_bytes(&mut parser, &mut events, &[0x90, 0xf8, 0x3c], 5_020_833_333, AlsaClock::Userspace, false)
        .unwrap();
    let capture =
        finish_alsa_capture(events, AlsaClock::Userspace, alsa_request(), "0.1.0".to_owned(), "linux".to_owned())
            .unwrap();
    assert!(capture.validate().is_ok());
    assert_eq!(capture.backend, "alsa-raw");
    assert_eq!(capture.source.identity, "hw:1,0,0");
    assert_eq!(capture.timestamp_method, "userspace timestamps after read (CLOCK_MONOTONIC_RAW)");
    let kinds: Vec<MidiEvent> = capture.events.iter().map(|event| event.event).collect();
    assert_eq!(kinds, vec![MidiEvent::Clock, MidiEvent::Start, MidiEvent::Clock]);
    let times: Vec<i128> = capture.events.iter().map(|event| event.timestamp_ns).collect();
    assert_eq!(times, vec![0, 0, 20_833_333]);
    let sequences: Vec<u64> = capture.events.iter().map(|event| event.sequence).collect();
    assert_eq!(sequences, vec![0, 1, 2]);
}

#[test]
fn an_alsa_run_without_events_reports_no_clock() {
    let result = finish_alsa_capture(
        Vec::new(),
        AlsaClock::MonotonicRaw,
        alsa_request(),
        "0.1.0".to_owned(),
        "linux".to_owned(),
    );
    assert!(matches!(result, Err(AppError::NoClockEvents)));
}

#[test]
fn alsa_bounds_are_judged_by_clock_count_or_data_time() {
    assert!(!capture_bound_reached(&CaptureTermination::Ticks(3), 2, Some(0), 10));
    assert!(capture_bound_reached(&CaptureTermination::Ticks(3), 3, None, 0));
    let duration = CaptureTermination::DurationSeconds(2);
    assert!(!capture_bound_reached(&duration, 100, None, 5_000_000_000));
    assert!(!capture_bound_reached(&duration, 100, Some(1_000_000_000), 2_999_999_999));
    assert!(capture_bound_reached(&duration, 0, Some(1_000_000_000), 3_000_000_000));
}

#[test]
fn read_progress_counts_clocks_and_keeps_the_first_data_timestamp() {
    let mut parser = MidiParser::default();
    let mut events: Vec<CapturedEvent> = Vec::with_capacity(8);
    let mut progress = AlsaProgress::new();
    progress.note_read(&events, 0, 4_000);
    assert_eq!(progress.first_absolute_ns, None);
    assert_eq!(progress.last_absolute_ns, 4_000);
    record_alsa_bytes(&mut parser, &mut events, &[0xf8, 0xfa, 0xf8], 5_000, AlsaClock::MonotonicRaw, true).unwrap();
    progress.note_read(&events, 0, 5_000);
    let before = events.len();
    record_alsa_bytes(&mut parser, &mut events, &[0xfc, 0xf8], 6_000, AlsaClock::MonotonicRaw, true).unwrap();
    progress.note_read(&events, before, 6_000);
    assert_eq!(progress.clock_events, 3);
    assert_eq!(progress.first_absolute_ns, Some(5_000));
    assert_eq!(progress.last_absolute_ns, 6_000);
    assert!(capture_bound_reached(&CaptureTermination::Ticks(3), progress.clock_events, progress.first_absolute_ns, progress.last_absolute_ns));
}
