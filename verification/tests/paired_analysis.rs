use midijitter::analysis::paired::{
    check_pairable_capture, pair_rows, pair_streams, pairing_in_range, select_lag,
    single_capture, summarize_latency, valid_latencies, LatencyStatistics, PairStatus,
    PairingResult,
};
use midijitter::analysis::{EventDisposition, IndexedEvent, IntervalDisposition};
use midijitter::output::text::format_paired_report;
use midijitter::{
    AppError, CaptureCompletion, CapturedEvent, CommonGraphMetadata, CompletionStatus,
    EnvironmentMetadata, GraphTiming, GraphTransitionKind, MidiEvent, PairedCapture,
    PairedGraphTransition, PipeWireTimestamp, SourceMetadata, StreamRole, TimestampMetadata,
};

fn capture(reference: &[i128], returned: &[i128]) -> PairedCapture {
    let common = CommonGraphMetadata {
        clock_id: 1,
        rate_num: 1,
        rate_denom: 1_000_000_000,
        quantum: 256,
        origin_position: 0,
    };
    let events = |values: &[i128]| {
        values
            .iter()
            .enumerate()
            .map(|(index, timestamp_ns)| CapturedEvent {
                sequence: index as u64 + 1,
                timestamp_ns: *timestamp_ns,
                event: MidiEvent::Clock,
                timestamp_metadata: TimestampMetadata::PipeWire(PipeWireTimestamp {
                    cycle_position: *timestamp_ns as i64,
                    event_offset: 0,
                    event_position: *timestamp_ns as i64,
                    rate_num: 1,
                    rate_denom: 1_000_000_000,
                    quantum: 256,
                }),
            })
            .collect()
    };
    PairedCapture {
        format_version: 2,
        backend: "pipewire".into(),
        reference: SourceMetadata {
            identity: "ref".into(),
            display_name: "Reference".into(),
        },
        returned: SourceMetadata {
            identity: "ret".into(),
            display_name: "Returned".into(),
        },
        timestamp_method: "common-graph-origin".into(),
        ppqn: 24,
        application_version: "test".into(),
        environment: EnvironmentMetadata {
            operating_system: "test".into(),
            pipewire_version: None,
        },
        common_graph: common,
        transitions: vec![],
        completion: CaptureCompletion {
            status: CompletionStatus::Complete,
            reason: None,
        },
        reference_events: events(reference),
        returned_events: events(returned),
    }
}

fn regular(offset: i128) -> PairedCapture {
    let reference: Vec<_> = (0..12).map(|tick| tick * 1_000).collect();
    let returned: Vec<_> = reference.iter().map(|time| time + offset).collect();
    capture(&reference, &returned)
}

fn row(sequence: u64, timestamp_ns: i128, tick_index: i64, disposition: EventDisposition) -> IndexedEvent {
    IndexedEvent {
        sequence,
        timestamp_ns,
        tick_index,
        step: if disposition == EventDisposition::Valid { 1 } else { 0 },
        disposition,
        interval_disposition: IntervalDisposition::Normal,
        missing_before: 0,
    }
}

/// Rows of a stream whose events all fall on consecutive ticks.
fn grid_rows(timestamps: &[i128]) -> Vec<IndexedEvent> {
    timestamps
        .iter()
        .enumerate()
        .map(|(index, timestamp)| {
            row(index as u64 + 1, *timestamp, index as i64, EventDisposition::Valid)
        })
        .collect()
}

fn times(capture: &[CapturedEvent]) -> Vec<i128> {
    capture.iter().map(|event| event.timestamp_ns).collect()
}

fn pair(capture: &PairedCapture, reference: &[IndexedEvent], returned: &[IndexedEvent]) -> Result<PairingResult, AppError> {
    let reference = reference.to_vec();
    let returned = returned.to_vec();
    assert!(pairing_in_range(capture, &reference, &returned, 1_000));
    pair_streams(capture, &reference, &returned, 1_000)
}

fn latency_of(pairing: &PairingResult) -> midijitter::analysis::paired::LatencyStatistics {
    let values = valid_latencies(&pairing.rows);
    summarize_latency(&values, 0)
}

#[test]
fn constant_latency_is_measured_in_integer_nanoseconds() {
    let paired = regular(37);
    let pairing = pair(
        &paired,
        &grid_rows(&times(&paired.reference_events)),
        &grid_rows(&times(&paired.returned_events)),
    )
    .unwrap();
    let latency = latency_of(&pairing);
    assert_eq!(latency.median_ns, 37);
    assert_eq!(latency.minimum_ns, 37);
    assert_eq!(latency.count, 12);
    assert_eq!(pairing.lag_ticks, 0);
}

#[test]
fn source_jitter_cancels_from_path_latency() {
    let reference: Vec<_> = (0..12).map(|tick| tick * 1_000 + (tick % 2) * 17).collect();
    let returned: Vec<_> = reference.iter().map(|time| time + 91).collect();
    let paired = capture(&reference, &returned);
    let pairing = pair(&paired, &grid_rows(&reference), &grid_rows(&returned)).unwrap();
    assert_eq!(latency_of(&pairing).maximum_ns, 91);
}

#[test]
fn variable_latency_reports_spread() {
    let reference: Vec<_> = (0..12).map(|tick| tick * 1_000).collect();
    let returned: Vec<_> = reference
        .iter()
        .enumerate()
        .map(|(i, time)| time + 20 + i as i128)
        .collect();
    let paired = capture(&reference, &returned);
    let pairing = pair(&paired, &grid_rows(&reference), &grid_rows(&returned)).unwrap();
    let latency = latency_of(&pairing);
    assert!(latency.maximum_ns > latency.minimum_ns);
}

#[test]
fn missing_and_duplicate_ticks_remain_structural_rows() {
    let paired = capture(&[0, 1_000, 3_000, 4_000], &[25, 1_025, 1_025, 2_025, 3_025, 4_025]);
    let reference = vec![
        row(1, 0, 0, EventDisposition::Valid),
        row(2, 1_000, 1, EventDisposition::Valid),
        row(3, 3_000, 3, EventDisposition::Valid),
        row(4, 4_000, 4, EventDisposition::Valid),
    ];
    let returned = vec![
        row(1, 25, 0, EventDisposition::Valid),
        row(2, 1_025, 1, EventDisposition::Valid),
        row(3, 1_025, 1, EventDisposition::Duplicate),
        row(4, 2_025, 2, EventDisposition::Valid),
        row(5, 3_025, 3, EventDisposition::Valid),
        row(6, 4_025, 4, EventDisposition::Valid),
    ];
    let result = pair(&paired, &reference, &returned).unwrap();
    assert!(result
        .rows
        .iter()
        .any(|row| matches!(row.status, PairStatus::MissingReference | PairStatus::MissingReturned)));
    assert!(result.rows.iter().any(|row| {
        row.returned
            .as_ref()
            .is_some_and(|event| event.disposition == EventDisposition::Duplicate)
    }));
    assert!(result.rows.iter().all(|row| row.status != PairStatus::Valid
        || (row.reference.is_some() && row.returned.is_some() && row.latency_ns.is_some())));
    assert_eq!(result.status_counts.valid, 4);
    assert_eq!(result.status_counts.missing_reference, 1);
    assert_eq!(result.status_counts.returned_anomalous, 1);
}

#[test]
fn one_sided_anomaly_does_not_enter_clean_latency_statistics() {
    let paired = capture(&[0, 1_000, 2_333, 3_000, 4_000], &[25, 1_025, 2_025, 3_025, 4_025]);
    let reference = vec![
        row(1, 0, 0, EventDisposition::Valid),
        row(2, 1_000, 1, EventDisposition::Valid),
        row(3, 2_333, 2, EventDisposition::Anomalous),
        row(4, 3_000, 3, EventDisposition::Valid),
        row(5, 4_000, 4, EventDisposition::Valid),
    ];
    let returned = grid_rows(&[25, 1_025, 2_025, 3_025, 4_025]);
    let result = pair(&paired, &reference, &returned).unwrap();
    assert_eq!(latency_of(&result).count, 4);
    assert!(result
        .rows
        .iter()
        .any(|row| matches!(row.status, PairStatus::ReferenceAnomalous)));
}

#[test]
fn anchored_transport_alignment_is_preferred() {
    let mut paired = regular(25);
    paired.reference_events[0].event = MidiEvent::Start;
    paired.returned_events[0].event = MidiEvent::Start;
    let reference = grid_rows(&times(&paired.reference_events[1..]));
    let returned = grid_rows(&times(&paired.returned_events[1..]));
    let result = pair(&paired, &reference, &returned).unwrap();
    assert!(result.anchored);
    assert_eq!(result.lag_ticks, 0);
    assert_eq!(result.candidate_lags, vec![0]);
}

#[test]
fn unanchored_sub_period_latency_aligns_without_transport() {
    let paired = regular(499);
    let pairing = pair(
        &paired,
        &grid_rows(&times(&paired.reference_events)),
        &grid_rows(&times(&paired.returned_events)),
    )
    .unwrap();
    assert!(!pairing.anchored);
    assert_eq!(latency_of(&pairing).median_ns, 499);
}

#[test]
fn startup_asymmetry_resynchronizes_by_logical_ticks() {
    let reference: Vec<_> = (0..12).map(|tick| tick * 1_000).collect();
    let returned: Vec<_> = (-1..12).map(|tick| tick * 1_000 + 500).collect();
    let paired = capture(&reference, &returned);
    let pairing = pair(&paired, &grid_rows(&reference), &grid_rows(&returned)).unwrap();
    assert_eq!(pairing.lag_ticks, 1);
    assert_eq!(latency_of(&pairing).median_ns, 500);
}

#[test]
fn ambiguous_multi_period_delay_is_rejected() {
    let reference: Vec<_> = (0..3).map(|tick| tick * 1_000).collect();
    let returned: Vec<_> = (0..3).map(|tick| tick * 1_000 + 2_000).collect();
    let paired = capture(&reference, &returned);
    let error = pair(&paired, &grid_rows(&reference), &grid_rows(&returned)).unwrap_err();
    assert_eq!(error.message(), "invalid capture: paired stream alignment is ambiguous");
}

#[test]
fn interrupted_capture_is_rejected_by_paired_analysis() {
    let mut paired = regular(37);
    paired.completion.status = CompletionStatus::Interrupted;
    paired.completion.reason = Some("SIGINT".to_owned());
    let error = check_pairable_capture(&paired).unwrap_err();
    assert!(error.message().contains("complete capture"));
}

#[test]
fn graph_timing_transitions_are_structurally_valid_but_rejected_for_analysis() {
    let mut paired = regular(37);
    paired.transitions.push(PairedGraphTransition {
        event_sequence: 12,
        kind: GraphTransitionKind::RateChanged,
        clock_id: 1,
        timing: GraphTiming {
            rate_num: 1,
            rate_denom: 2_000_000_000,
            quantum: 256,
        },
    });
    paired.validate().unwrap();
    assert!(matches!(
        check_pairable_capture(&paired),
        Err(AppError::GraphRateTransitionUnsupported)
    ));
}

#[test]
fn a_complete_capture_without_transitions_can_be_paired() {
    assert!(check_pairable_capture(&regular(37)).is_ok());
}

#[test]
fn streams_without_any_correspondence_are_rejected() {
    let paired = capture(&[0], &[10]);
    let error = pair(&paired, &grid_rows(&[0]), &grid_rows(&[10])).unwrap_err();
    assert_eq!(error.message(), "invalid capture: paired streams have no correspondence");
}

#[test]
fn equally_scored_lags_are_ambiguous() {
    let reference = vec![
        row(1, 0, 0, EventDisposition::Valid),
        row(2, 1_000, 1, EventDisposition::Valid),
        row(3, 0, 10, EventDisposition::Valid),
        row(4, 1_000, 11, EventDisposition::Valid),
    ];
    let returned = vec![
        row(1, 100, 0, EventDisposition::Valid),
        row(2, 1_100, 1, EventDisposition::Valid),
    ];
    let paired = capture(&[0, 1_000, 1_500, 2_000], &[100, 1_100]);
    let error = pair(&paired, &reference, &returned).unwrap_err();
    assert_eq!(error.message(), "invalid capture: paired stream alignment is ambiguous");
}

#[test]
fn candidate_lags_are_every_tick_difference_ascending() {
    let paired = regular(37);
    let reference = grid_rows(&times(&paired.reference_events)[..3]);
    let returned = grid_rows(&times(&paired.returned_events)[..3]);
    let (lag, anchored, candidates) = select_lag(
        &paired.reference_events,
        &paired.returned_events,
        &reference,
        &returned,
        1_000,
    )
    .unwrap();
    assert_eq!((lag, anchored), (0, false));
    assert_eq!(candidates, vec![-2, -1, 0, 1, 2]);
}

#[test]
fn pairing_at_a_lag_lists_every_reached_tick() {
    let reference = grid_rows(&[0, 1_000]);
    let returned = grid_rows(&[500, 1_500]);
    let rows = pair_rows(&reference, &returned, 1);
    let ticks: Vec<_> = rows.iter().map(|row| row.tick_index).collect();
    assert_eq!(ticks, vec![-1, 0, 1]);
    assert_eq!(rows[0].status, PairStatus::MissingReference);
    assert_eq!(rows[1].status, PairStatus::Valid);
    assert_eq!(rows[1].latency_ns, Some(1_500));
    assert_eq!(rows[2].status, PairStatus::MissingReturned);
}

#[test]
fn latency_summary_reports_order_statistics() {
    let values = vec![40, 10, 30, 20, 1_000];
    let summary = summarize_latency(&values, 7);
    assert_eq!(summary.count, 5);
    assert_eq!(summary.mean_ns, 220);
    assert_eq!(summary.median_ns, 30);
    assert_eq!(summary.p95_ns, 1_000);
    assert_eq!(summary.minimum_ns, 10);
    assert_eq!(summary.maximum_ns, 1_000);
    assert_eq!(summary.standard_deviation_ns, 7);
}

#[test]
fn negative_mean_rounds_toward_zero() {
    let summary = summarize_latency(&vec![-1, -2], 0);
    assert_eq!(summary.mean_ns, -1);
}

#[test]
fn single_stream_capture_keeps_the_shared_metadata() {
    let paired = regular(37);
    let single = single_capture(&paired, &paired.returned_events, StreamRole::Returned);
    assert_eq!(single.format_version, 1);
    assert_eq!(single.source.identity, "ret");
    assert_eq!(single.events.len(), 12);
    assert!(single.transitions.is_empty());
    assert!(single.validate().is_ok());
}

#[test]
fn paired_text_report_explains_status_counts_and_resynchronization() {
    let paired = regular(37);
    let pairing = pair(
        &paired,
        &grid_rows(&times(&paired.reference_events)),
        &grid_rows(&times(&paired.returned_events)),
    )
    .unwrap();
    let report = format_paired_report(&paired, &pairing, &latency_of(&pairing));
    assert!(report.contains("Pairing status"));
    assert!(report.contains("Valid"));
    assert!(report.contains("Missing reference"));
    assert!(report.contains("Resynchronization"));
    assert!(report.contains("Candidate lags"));
}

#[test]
fn paired_text_report_renders_every_count_and_latency() {
    let paired = regular(37);
    let pairing = pair(
        &paired,
        &grid_rows(&times(&paired.reference_events)),
        &grid_rows(&times(&paired.returned_events)),
    )
    .unwrap();
    let report = format_paired_report(&paired, &pairing, &latency_of(&pairing));
    let lags = format!("{:?}", pairing.candidate_lags);
    let expected = format!(
        "Paired MIDI Clock Analysis\n===========================\n\
         \nReference               Reference\n\
         Returned                Returned\n\
         Alignment               MAD lag (0 ticks)\n\
         Pairs                   12\n\
         \nPairing status\n\
         \x20 Valid                 12\n\
         \x20 Missing reference     0\n\
         \x20 Missing returned      0\n\
         \x20 Reference anomalous   0\n\
         \x20 Returned anomalous    0\n\
         \x20 Both anomalous        0\n\
         \nResynchronization      MAD lag\nCandidate lags         {lags}\n\
         \nPath latency\n\
         \x20 Count                 12\n\
         \x20 Mean                  37 ns\n\
         \x20 Median                37 ns\n\
         \x20 P95                   37 ns\n\
         \x20 Minimum              37 ns\n\
         \x20 Maximum              37 ns\n"
    );
    assert_eq!(report, expected);
    assert!(lags.starts_with("[-11, "));
}

#[test]
fn negative_latencies_and_lags_render_with_a_minus_sign() {
    let paired = regular(37);
    let pairing = pair(
        &paired,
        &grid_rows(&times(&paired.reference_events)),
        &grid_rows(&times(&paired.returned_events)),
    )
    .unwrap();
    let latency = LatencyStatistics { mean_ns: -250, minimum_ns: i128::MIN, ..latency_of(&pairing) };
    let lags = format!("{:?}", pairing.candidate_lags);
    let pairing = PairingResult { lag_ticks: -3, ..pairing };
    let report = format_paired_report(&paired, &pairing, &latency);
    assert!(report.contains("Alignment               MAD lag (-3 ticks)\n"));
    assert!(report.contains("  Mean                  -250 ns\n"));
    assert!(report.contains(&format!("  Minimum              {} ns\n", i128::MIN)));
    assert!(report.contains(&format!("Candidate lags         {lags}\n")));
}

#[test]
fn pairing_takes_ticks_far_from_zero() {
    let far = 1_i64 << 62;
    let reference = vec![row(1, 0, far, EventDisposition::Valid)];
    let returned: Vec<IndexedEvent> = vec![];
    let rows = pair_rows(&reference, &returned, 0);
    assert_eq!(rows.len(), 1);
    assert_eq!(rows[0].tick_index, far);
    assert_eq!(rows[0].status, PairStatus::MissingReturned);
    assert_eq!(rows[0].latency_ns, None);
}

#[test]
fn pairing_takes_timestamps_far_from_zero() {
    let base = 1_i128 << 120;
    let reference = vec![
        row(1, base, 0, EventDisposition::Valid),
        row(2, base + 1_000, 1, EventDisposition::Valid),
    ];
    let returned = vec![
        row(1, base + 40, 0, EventDisposition::Valid),
        row(2, base + 1_040, 1, EventDisposition::Valid),
    ];
    let rows = pair_rows(&reference, &returned, 0);
    assert_eq!(rows.len(), 2);
    assert_eq!(rows[0].latency_ns, Some(40));
    assert_eq!(rows[1].latency_ns, Some(40));
    let paired = capture(&[base, base + 1_000], &[base + 40, base + 1_040]);
    let pairing = pair(&paired, &reference, &returned).unwrap();
    assert_eq!(pairing.lag_ticks, 0);
    assert_eq!(pairing.rows.len(), 2);
}

#[test]
fn pairing_range_check_refuses_a_tick_shift_that_overflows() {
    let reference = vec![
        row(1, 0, i64::MAX, EventDisposition::Valid),
        row(2, 1_000, i64::MAX - 1, EventDisposition::Anomalous),
    ];
    let returned = vec![row(1, 40, i64::MIN, EventDisposition::Valid)];
    let paired = capture(&[0, 1_000], &[40]);
    assert!(!pairing_in_range(&paired, &reference, &returned, 1_000));
}

#[test]
fn pairing_range_check_accepts_distant_but_fitting_ticks() {
    let far = 1_i64 << 62;
    let reference = vec![
        row(1, 0, far, EventDisposition::Valid),
        row(2, 1_000, far + 1, EventDisposition::Valid),
    ];
    let returned = vec![
        row(1, 40, far, EventDisposition::Valid),
        row(2, 1_040, far + 1, EventDisposition::Valid),
    ];
    let paired = capture(&[0, 1_000], &[40, 1_040]);
    assert!(pairing_in_range(&paired, &reference, &returned, 1_000));
    let pairing = pair_streams(&paired, &reference, &returned, 1_000).unwrap();
    assert_eq!(pairing.lag_ticks, 0);
    assert_eq!(pairing.rows[0].tick_index, far);
    assert_eq!(pairing.rows[0].latency_ns, Some(40));
}

#[test]
fn pairing_lists_every_row_once_in_tick_order() {
    let reference = vec![
        row(1, 0, 0, EventDisposition::Valid),
        row(2, 1_000, 1, EventDisposition::Valid),
        row(3, 1_010, 1, EventDisposition::Duplicate),
    ];
    let returned = vec![
        row(1, 550, 1, EventDisposition::Valid),
        row(2, 1_500, 2, EventDisposition::Valid),
        row(3, 1_520, 2, EventDisposition::Duplicate),
    ];
    let rows = pair_rows(&reference, &returned, 1);
    let ticks: Vec<_> = rows.iter().map(|row| row.tick_index).collect();
    assert_eq!(ticks, vec![0, 1, 1, 1]);
    let statuses: Vec<_> = rows.iter().map(|row| row.status).collect();
    assert_eq!(
        statuses,
        vec![
            PairStatus::Valid,
            PairStatus::Valid,
            PairStatus::ReferenceAnomalous,
            PairStatus::ReturnedAnomalous,
        ]
    );
    let listed_reference: Vec<_> = rows.iter().filter_map(|row| row.reference).map(|row| row.sequence).collect();
    let listed_returned: Vec<_> = rows.iter().filter_map(|row| row.returned).map(|row| row.sequence).collect();
    assert_eq!(listed_reference, vec![1, 2, 3]);
    assert_eq!(listed_returned, vec![1, 2, 3]);
    let latencies: Vec<_> = rows.iter().map(|row| row.latency_ns).collect();
    assert_eq!(latencies, vec![Some(550), Some(500), None, None]);
}
