use midijitter::analysis::indexing::{
    default_startup_cadence, find_live_anchor, has_normal_step, positive_intervals, signature,
    startup_transient, Classifier,
};
use midijitter::analysis::order::{median_i128, sort_ascending};
use midijitter::analysis::summary::{clean_intervals, exclusion_counts, live_anchor, zero_or_negative_backlog};
use midijitter::analysis::{EventDisposition, IndexedEvent, IntervalDisposition};
use midijitter::{is_clean_period, is_clean_phase, AppError, CapturedEvent, MidiEvent, PipeWireTimestamp, TimestampMetadata};

fn clock(sequence: u64, timestamp_ns: i128) -> CapturedEvent {
    CapturedEvent {
        sequence,
        timestamp_ns,
        event: MidiEvent::Clock,
        timestamp_metadata: TimestampMetadata::PipeWire(PipeWireTimestamp {
            cycle_position: 0,
            event_offset: 0,
            event_position: 0,
            rate_num: 1,
            rate_denom: 48_000,
            quantum: 256,
        }),
    }
}

#[test]
fn sorting_and_medians_take_the_upper_middle() {
    assert_eq!(sort_ascending(&vec![3, -1, 2, 2]), vec![-1, 2, 2, 3]);
    assert_eq!(median_i128(&vec![4, 1, 3, 2]), 3);
    assert_eq!(median_i128(&vec![5]), 5);
}

#[test]
fn positive_intervals_are_sorted_and_required() {
    assert_eq!(positive_intervals(&vec![0, 30, 10, 40, 40]).unwrap(), vec![30, 30]);
    assert_eq!(positive_intervals(&vec![0, 50, 60, 100]).unwrap(), vec![10, 40, 50]);
    assert!(matches!(
        positive_intervals(&vec![5, 5, 0]),
        Err(AppError::InvalidCapture(message)) if message == "clock analysis requires increasing Clock timestamps"
    ));
}

#[test]
fn classifier_places_normal_missing_duplicate_and_anomalous_events() {
    let (mut classifier, anchor) = Classifier::start(&clock(1, 0));
    assert_eq!(anchor.tick_index, 0);
    assert_eq!(anchor.disposition, EventDisposition::Valid);

    let normal = classifier.classify(&clock(2, 1_000), 1, true);
    assert_eq!((normal.tick_index, normal.step, normal.disposition), (1, 1, EventDisposition::Valid));

    let missing = classifier.classify(&clock(3, 3_000), 2, true);
    assert_eq!(missing.tick_index, 3);
    assert_eq!(missing.interval_disposition, IntervalDisposition::Missing { count: 1 });
    assert_eq!(missing.missing_before, 1);

    let duplicate = classifier.classify(&clock(4, 3_000), 0, false);
    assert_eq!(duplicate.disposition, EventDisposition::Duplicate);
    assert_eq!(duplicate.tick_index, 3);

    let outlier = classifier.classify(&clock(5, 3_400), 0, false);
    assert_eq!(outlier.disposition, EventDisposition::Anomalous);
    assert_eq!(outlier.tick_index, 4);

    let resumed = classifier.classify(&clock(6, 4_000), 1, true);
    assert_eq!((resumed.tick_index, resumed.disposition), (4, EventDisposition::Valid));
    assert_eq!(classifier.interval_since_included(5_000), 1_000);
}

#[test]
fn startup_transients_stay_off_the_grid() {
    let row = startup_transient(&clock(9, 123));
    assert_eq!(row.disposition, EventDisposition::StartupTransient);
    assert_eq!((row.sequence, row.timestamp_ns, row.tick_index), (9, 123, 0));
}

#[test]
fn live_anchor_waits_for_a_confirmed_cadence() {
    let timestamps = vec![0, 10, 1_000, 2_000, 3_000, 4_000];
    let plausible = vec![false, false, true, true, true];
    assert_eq!(find_live_anchor(&timestamps, &plausible, 3, 0), Some(2));
    assert_eq!(find_live_anchor(&timestamps, &plausible, 0, 0), Some(0));
    assert_eq!(find_live_anchor(&timestamps, &plausible, 4, 0), None);
    assert_eq!(find_live_anchor(&timestamps, &plausible, 2, 2_500), None);
    assert_eq!(find_live_anchor(&timestamps, &plausible, 1, 2_500), Some(4));
}

#[test]
fn without_a_cadence_the_settle_window_still_bounds_the_anchor() {
    let timestamps = vec![0, 10, 1_000, 2_000, 3_000, 4_000];
    let plausible = vec![false, false, true, true, true];
    assert_eq!(find_live_anchor(&timestamps, &plausible, 0, 2_500), Some(4));
    assert_eq!(find_live_anchor(&timestamps, &plausible, 0, 4_000), Some(5));
    assert_eq!(find_live_anchor(&timestamps, &plausible, 0, 4_001), None);
    assert_eq!(find_live_anchor(&Vec::new(), &Vec::new(), 0, 0), None);
}

#[test]
fn a_leading_burst_inside_the_settle_window_stays_before_the_anchor() {
    let mut timestamps: Vec<i128> = vec![0, 0, 0, 0, 0];
    let mut time: i128 = 1_000_000;
    for _ in 0..120 {
        timestamps.push(time);
        time += 20_833_333;
    }
    let plausible: Vec<bool> = timestamps.windows(2).map(|pair| pair[1] > pair[0]).collect();
    let anchor = find_live_anchor(&timestamps, &plausible, 0, 500_000_000).unwrap();
    assert!(anchor > 5);
    assert!(timestamps[anchor] >= 500_000_000 && timestamps[anchor - 1] < 500_000_000);
    assert!(timestamps.len() - anchor >= 90);
}

#[test]
fn default_cadence_depends_on_the_backend() {
    assert_eq!(default_startup_cadence(&"pipewire".to_owned()), 8);
    assert_eq!(default_startup_cadence(&"alsa-raw".to_owned()), 0);
}

fn indexed(tick_index: i64, timestamp_ns: i128, disposition: EventDisposition, step: i64) -> IndexedEvent {
    IndexedEvent {
        sequence: tick_index as u64,
        timestamp_ns,
        tick_index,
        step,
        disposition,
        interval_disposition: if step == 2 {
            IntervalDisposition::Missing { count: 1 }
        } else {
            IntervalDisposition::Normal
        },
        missing_before: if step == 2 { 1 } else { 0 },
    }
}

#[test]
fn row_summaries_count_exclusions_and_clean_intervals() {
    let rows = vec![
        indexed(0, -500, EventDisposition::StartupTransient, 0),
        indexed(0, 0, EventDisposition::Valid, 1),
        indexed(1, 1_000, EventDisposition::Valid, 1),
        indexed(3, 3_000, EventDisposition::Valid, 2),
        indexed(3, 3_000, EventDisposition::Duplicate, 0),
        indexed(4, 4_000, EventDisposition::Valid, 1),
    ];
    let counts = exclusion_counts(&rows, 8);
    assert_eq!(counts.non_clock_events, 2);
    assert_eq!(counts.duplicate_events, 1);
    assert_eq!(counts.transient_events, 1);
    assert_eq!(counts.inferred_missing_ticks, 1);
    assert_eq!(clean_intervals(&rows), vec![1_000]);
    assert_eq!(live_anchor(&rows).unwrap().timestamp_ns, 0);
    assert!(has_normal_step(&rows));
    assert_eq!(signature(&rows).len(), rows.len());
    assert!(is_clean_phase(&rows[1]));
    assert!(!is_clean_phase(&rows[4]));
    assert!(is_clean_period(&rows[1], &rows[2]));
    assert!(!is_clean_period(&rows[2], &rows[3]));
    assert_eq!(zero_or_negative_backlog(&rows), 0);
}
