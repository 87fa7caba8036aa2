//! The integer summaries of an indexed capture: exclusion counts, the startup
//! backlog, the live anchor and the clean one-tick intervals.
use vstd::prelude::*;

use super::indexing::{clean_period, is_clean_period, EventDisposition, IndexedEvent};

verus! {

/// How many events were kept out of each part of the analysis.
#[derive(Debug, Clone, Copy, PartialEq, Eq, Structural)]
pub struct ExclusionCounts {
    pub non_clock_events: usize,
    pub duplicate_events: usize,
    pub anomalous_events: usize,
    pub transient_events: usize,
    pub inferred_missing_ticks: usize,
    pub excluded_from_regression: usize,
    pub excluded_from_phase_statistics: usize,
    pub excluded_from_period_statistics: usize,
}

/// Number of rows with `disposition`.
pub open spec fn disposition_count(rows: Seq<IndexedEvent>, disposition: EventDisposition) -> nat
    decreases rows.len(),
{
    if rows.len() == 0 {
        0
    } else {
        disposition_count(rows.drop_last(), disposition) + if rows.last().disposition
            == disposition {
            1nat
        } else {
            0nat
        }
    }
}

/// Total of the inferred missing ticks.
pub open spec fn missing_total(rows: Seq<IndexedEvent>) -> nat
    decreases rows.len(),
{
    if rows.len() == 0 {
        0
    } else {
        missing_total(rows.drop_last()) + rows.last().missing_before as nat
    }
}

/// Number of adjacent row pairs that do not form a normal one-tick interval.
pub open spec fn unclean_pairs(rows: Seq<IndexedEvent>) -> nat
    decreases rows.len(),
{
    if rows.len() < 2 {
        0
    } else {
        unclean_pairs(rows.drop_last()) + if clean_period(rows[rows.len() - 2], rows.last()) {
            0nat
        } else {
            1nat
        }
    }
}

/// Number of startup-transient rows that arrive no later than the row before them.
pub open spec fn backlog_pairs(rows: Seq<IndexedEvent>) -> nat
    decreases rows.len(),
{
    if rows.len() < 2 {
        0
    } else {
        backlog_pairs(rows.drop_last()) + if rows.last().disposition
            == EventDisposition::StartupTransient && rows.last().timestamp_ns <= rows[rows.len()
            - 2].timestamp_ns {
            1nat
        } else {
            0nat
        }
    }
}

/// No row sits at the last representable tick.
pub open spec fn ticks_bounded(rows: Seq<IndexedEvent>) -> bool {
    forall|i: int| 0 <= i < rows.len() ==> #[trigger] rows[i].tick_index < i64::MAX
}

/// The exclusion counts of `rows` among `event_count` captured events: rows
/// that are duplicates, anomalies or startup transients are kept out of the
/// fit and of phase statistics; adjacent pairs that are not a normal one-tick
/// interval are kept out of period statistics.
pub open spec fn exclusion_counts_spec(rows: Seq<IndexedEvent>, event_count: nat) -> ExclusionCounts {
    let duplicates = disposition_count(rows, EventDisposition::Duplicate);
    let anomalies = disposition_count(rows, EventDisposition::Anomalous);
    let transients = disposition_count(rows, EventDisposition::StartupTransient);
    ExclusionCounts {
        non_clock_events: (event_count - rows.len()) as usize,
        duplicate_events: duplicates as usize,
        anomalous_events: anomalies as usize,
        transient_events: transients as usize,
        inferred_missing_ticks: missing_total(rows) as usize,
        excluded_from_regression: (duplicates + anomalies + transients) as usize,
        excluded_from_phase_statistics: (duplicates + anomalies + transients) as usize,
        excluded_from_period_statistics: unclean_pairs(rows) as usize,
    }
}

/// Rows of distinct dispositions are counted apart, so the excluded rows
/// never outnumber the rows.
pub proof fn lemma_excluded_within_rows(rows: Seq<IndexedEvent>)
    ensures
        disposition_count(rows, EventDisposition::Duplicate) + disposition_count(
            rows,
            EventDisposition::Anomalous,
        ) + disposition_count(rows, EventDisposition::StartupTransient) + disposition_count(
            rows,
            EventDisposition::Valid,
        ) == rows.len(),
        unclean_pairs(rows) <= rows.len(),
        backlog_pairs(rows) <= rows.len(),
    decreases rows.len(),
{
    if rows.len() > 0 {
        lemma_excluded_within_rows(rows.drop_last());
    }
}

/// Rows with `disposition` are as many as `disposition_count` says.
proof fn lemma_disposition_count_filter(rows: Seq<IndexedEvent>, disposition: EventDisposition)
    ensures
        disposition_count(rows, disposition) == rows.filter(
            |row: IndexedEvent| row.disposition == disposition,
        ).len(),
    decreases rows.len(),
{
    if rows.len() > 0 {
        lemma_disposition_count_filter(rows.drop_last(), disposition);
        assert(rows.drop_last().push(rows.last()) =~= rows);
        rows.drop_last().lemma_filter_push(
            rows.last(),
            |row: IndexedEvent| row.disposition == disposition,
        );
    }
}

/// The rows kept out of the fit and out of phase statistics are exactly the
/// rows that are not valid: the duplicates, the anomalies and the startup
/// transients, each counted as the rows of that disposition. The events that
/// are not Clock rows are the events beyond the rows.
pub proof fn law_excluded_events_are_the_rows_not_valid(rows: Seq<IndexedEvent>, event_count: nat)
    requires
        rows.len() <= usize::MAX,
    ensures
        ({
            let counts = exclusion_counts_spec(rows, event_count);
            let valid = rows.filter(|row: IndexedEvent| row.disposition == EventDisposition::Valid).len();
            &&& event_count >= rows.len() && event_count - rows.len() <= usize::MAX
                ==> counts.non_clock_events == event_count - rows.len()
            &&& counts.duplicate_events == rows.filter(
                |row: IndexedEvent| row.disposition == EventDisposition::Duplicate,
            ).len()
            &&& counts.anomalous_events == rows.filter(
                |row: IndexedEvent| row.disposition == EventDisposition::Anomalous,
            ).len()
            &&& counts.transient_events == rows.filter(
                |row: IndexedEvent| row.disposition == EventDisposition::StartupTransient,
            ).len()
            &&& counts.excluded_from_regression == rows.len() - valid
            &&& counts.excluded_from_phase_statistics == rows.len() - valid
            &&& counts.excluded_from_regression == counts.duplicate_events + counts.anomalous_events
                + counts.transient_events
        }),
{
    lemma_excluded_within_rows(rows);
    lemma_disposition_count_filter(rows, EventDisposition::Valid);
    lemma_disposition_count_filter(rows, EventDisposition::Duplicate);
    lemma_disposition_count_filter(rows, EventDisposition::Anomalous);
    lemma_disposition_count_filter(rows, EventDisposition::StartupTransient);
}

/// Counts the exclusions of an indexed capture of `event_count` events.
pub fn exclusion_counts(rows: &Vec<IndexedEvent>, event_count: usize) -> (counts: ExclusionCounts)
    requires
        event_count >= rows@.len(),
        missing_total(rows@) <= usize::MAX,
        ticks_bounded(rows@),
    ensures
        counts == exclusion_counts_spec(rows@, event_count as nat),
{
    let mut duplicates: usize = 0;
    let mut anomalies: usize = 0;
    let mut transients: usize = 0;
    let mut missing: usize = 0;
    let mut unclean: usize = 0;
    let mut index: usize = 0;
    while index < rows.len()
        invariant
            index <= rows@.len(),
            missing_total(rows@) <= usize::MAX,
            ticks_bounded(rows@),
            duplicates == disposition_count(rows@.take(index as int), EventDisposition::Duplicate),
            anomalies == disposition_count(rows@.take(index as int), EventDisposition::Anomalous),
            transients == disposition_count(
                rows@.take(index as int),
                EventDisposition::StartupTransient,
            ),
            missing == missing_total(rows@.take(index as int)),
            unclean == unclean_pairs(rows@.take(index as int)),
        decreases rows@.len() - index,
    {
        let row = rows[index];
        let ghost before = rows@.take(index as int);
        let ghost after = rows@.take(index + 1);
        assert(after.drop_last() =~= before);
        proof {
            lemma_excluded_within_rows(after);
            lemma_missing_total_prefix(rows@, index + 1);
        }
        if row.disposition == EventDisposition::Duplicate {
            duplicates = duplicates + 1;
        } else if row.disposition == EventDisposition::Anomalous {
            anomalies = anomalies + 1;
        } else if row.disposition == EventDisposition::StartupTransient {
            transients = transients + 1;
        }
        missing = missing + row.missing_before as usize;
        if index > 0 {
            assert(after[index - 1] == rows@[index - 1]);
            if !is_clean_period(&rows[index - 1], &row) {
                unclean = unclean + 1;
            }
        }
        index = index + 1;
    }
    assert(rows@.take(rows@.len() as int) =~= rows@);
    proof {
        lemma_excluded_within_rows(rows@);
    }
    let excluded = duplicates + anomalies + transients;
    ExclusionCounts {
        non_clock_events: event_count - rows.len(),
        duplicate_events: duplicates,
        anomalous_events: anomalies,
        transient_events: transients,
        inferred_missing_ticks: missing,
        excluded_from_regression: excluded,
        excluded_from_phase_statistics: excluded,
        excluded_from_period_statistics: unclean,
    }
}

proof fn lemma_missing_total_prefix(rows: Seq<IndexedEvent>, count: int)
    requires
        0 <= count <= rows.len(),
    ensures
        missing_total(rows.take(count)) <= missing_total(rows),
    decreases rows.len() - count,
{
    if count < rows.len() {
        lemma_missing_total_prefix(rows, count + 1);
        assert(rows.take(count + 1).drop_last() =~= rows.take(count));
    } else {
        assert(rows.take(count) =~= rows);
    }
}

/// Counts startup-transient rows that arrive no later than the row before
/// them: the zero or negative backlog flushed at link time.
pub fn zero_or_negative_backlog(rows: &Vec<IndexedEvent>) -> (count: usize)
    ensures
        count == backlog_pairs(rows@),
{
    let mut count: usize = 0;
    let mut index: usize = 1;
    if rows.len() < 2 {
        return 0;
    }
    while index < rows.len()
        invariant
            1 <= index <= rows@.len(),
            count == backlog_pairs(rows@.take(index as int)),
        decreases rows@.len() - index,
    {
        let ghost after = rows@.take(index + 1);
        assert(after.drop_last() =~= rows@.take(index as int));
        proof {
            lemma_excluded_within_rows(after);
        }
        if rows[index].disposition == EventDisposition::StartupTransient
            && rows[index].timestamp_ns <= rows[index - 1].timestamp_ns {
            count = count + 1;
        }
        index = index + 1;
    }
    assert(rows@.take(rows@.len() as int) =~= rows@);
    count
}

/// The first row that is not a startup transient: the live anchor.
pub fn live_anchor(rows: &Vec<IndexedEvent>) -> (anchor: Option<IndexedEvent>)
    ensures
        anchor matches Some(row) ==> exists|i: int|
            0 <= i < rows@.len() && rows@[i] == row && row.disposition
                != EventDisposition::StartupTransient && forall|j: int|
                0 <= j < i ==> (#[trigger] rows@[j]).disposition
                    == EventDisposition::StartupTransient,
        anchor is None ==> forall|i: int|
            0 <= i < rows@.len() ==> (#[trigger] rows@[i]).disposition
                == EventDisposition::StartupTransient,
{
    let mut index: usize = 0;
    while index < rows.len()
        invariant
            index <= rows@.len(),
            forall|j: int|
                0 <= j < index ==> (#[trigger] rows@[j]).disposition
                    == EventDisposition::StartupTransient,
        decreases rows@.len() - index,
    {
        if rows[index].disposition != EventDisposition::StartupTransient {
            return Some(rows[index]);
        }
        index = index + 1;
    }
    None
}

/// The intervals of the normal one-tick row pairs, in order.
pub open spec fn clean_intervals_spec(rows: Seq<IndexedEvent>) -> Seq<i128>
    decreases rows.len(),
{
    if rows.len() < 2 {
        Seq::empty()
    } else {
        let earlier = clean_intervals_spec(rows.drop_last());
        let previous = rows[rows.len() - 2];
        if clean_period(previous, rows.last()) {
            earlier.push((rows.last().timestamp_ns - previous.timestamp_ns) as i128)
        } else {
            earlier
        }
    }
}

/// Consecutive rows are no more than an `i128` apart in time.
pub open spec fn row_steps_fit(rows: Seq<IndexedEvent>) -> bool {
    forall|i: int|
        0 < i < rows.len() ==> i128::MIN <= #[trigger] rows[i].timestamp_ns - rows[i
            - 1].timestamp_ns <= i128::MAX
}

/// The intervals of the normal one-tick row pairs, the samples of period
/// statistics.
pub fn clean_intervals(rows: &Vec<IndexedEvent>) -> (intervals: Vec<i128>)
    requires
        ticks_bounded(rows@),
        row_steps_fit(rows@),
    ensures
        intervals@ == clean_intervals_spec(rows@),
{
    let mut intervals: Vec<i128> = Vec::new();
    if rows.len() < 2 {
        return intervals;
    }
    let mut index: usize = 1;
    while index < rows.len()
        invariant
            1 <= index <= rows@.len(),
            ticks_bounded(rows@),
            row_steps_fit(rows@),
            intervals@ == clean_intervals_spec(rows@.take(index as int)),
        decreases rows@.len() - index,
    {
        let ghost after = rows@.take(index + 1);
        assert(after.drop_last() =~= rows@.take(index as int));
        if is_clean_period(&rows[index - 1], &rows[index]) {
            intervals.push(rows[index].timestamp_ns - rows[index - 1].timestamp_ns);
        }
        index = index + 1;
    }
    assert(rows@.take(rows@.len() as int) =~= rows@);
    intervals
}

} // verus!
