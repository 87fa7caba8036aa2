use midijitter::backend::alsa::timing::{alsa_absolute_ns, normalize_alsa_event_timestamps};
use midijitter::{AlsaTimestamp, AppError, CapturedEvent, MidiEvent, TimestampMetadata};

fn alsa_event(sequence: u64, absolute_ns: i128) -> CapturedEvent {
    CapturedEvent {
        sequence,
        timestamp_ns: 0,
        event: MidiEvent::Clock,
        timestamp_metadata: TimestampMetadata::Alsa(AlsaTimestamp {
            absolute_ns,
            clock: "monotonic-raw".to_owned(),
            timestamped_read: true,
        }),
    }
}

#[test]
fn converts_monotonic_raw_timestamps_to_nanoseconds() {
    assert_eq!(alsa_absolute_ns(10, 500_000_000).unwrap(), 10_500_000_000);
    assert_eq!(alsa_absolute_ns(0, 0).unwrap(), 0);
}

#[test]
fn rejects_out_of_range_timestamps() {
    assert!(alsa_absolute_ns(-1, 0).is_err());
    assert!(alsa_absolute_ns(0, -1).is_err());
    assert!(alsa_absolute_ns(0, 1_000_000_000).is_err());
}

#[test]
fn normalization_uses_the_first_nonzero_absolute_epoch() {
    let mut events = vec![
        alsa_event(0, 9_000_000_000),
        alsa_event(1, 9_020_833_333),
        alsa_event(2, 9_041_666_666),
    ];

    normalize_alsa_event_timestamps(&mut events).unwrap();

    assert_eq!(events[0].timestamp_ns, 0);
    assert_eq!(events[1].timestamp_ns, 20_833_333);
    assert_eq!(events[2].timestamp_ns, 41_666_666);
    let TimestampMetadata::Alsa(first) = &events[0].timestamp_metadata else {
        panic!("ALSA metadata must be preserved");
    };
    assert_eq!(first.absolute_ns, 9_000_000_000);
}

#[test]
fn normalization_rejects_empty_captures() {
    assert!(normalize_alsa_event_timestamps(&mut []).is_err());
}

#[test]
fn normalization_takes_the_first_event_as_epoch_even_at_zero() {
    let mut events = vec![alsa_event(0, 0), alsa_event(1, 5_000), alsa_event(2, 7_500)];
    normalize_alsa_event_timestamps(&mut events).unwrap();
    assert_eq!(events[0].timestamp_ns, 0);
    assert_eq!(events[1].timestamp_ns, 5_000);
    assert_eq!(events[2].timestamp_ns, 7_500);
}

#[test]
fn normalization_gives_negative_offsets_for_earlier_events() {
    let mut events = vec![alsa_event(0, 10_000), alsa_event(1, 4_000)];
    normalize_alsa_event_timestamps(&mut events).unwrap();
    assert_eq!(events[1].timestamp_ns, -6_000);
}

#[test]
fn normalization_rejects_pipewire_metadata() {
    let mut events = vec![CapturedEvent {
        sequence: 0,
        timestamp_ns: 0,
        event: MidiEvent::Clock,
        timestamp_metadata: TimestampMetadata::PipeWire(midijitter::PipeWireTimestamp {
            cycle_position: 0,
            event_offset: 0,
            event_position: 0,
            rate_num: 1,
            rate_denom: 48_000,
            quantum: 256,
        }),
    }];
    let error = normalize_alsa_event_timestamps(&mut events).unwrap_err();
    assert!(matches!(
        error,
        AppError::InvalidCapture(message) if message == "ALSA capture must carry ALSA timestamps"
    ));
}

#[test]
fn empty_capture_error_names_the_empty_capture() {
    let error = normalize_alsa_event_timestamps(&mut []).unwrap_err();
    assert_eq!(error.message(), "invalid capture: cannot normalize an empty ALSA capture");
}

#[test]
fn second_bound_of_the_nanosecond_field_is_accepted() {
    assert_eq!(alsa_absolute_ns(1, 999_999_999).unwrap(), 1_999_999_999);
}
