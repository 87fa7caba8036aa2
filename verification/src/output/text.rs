//! The paired latency report: alignment, pairing status and path latency,
//! all from integer results, rendered as text.
use vstd::prelude::*;

use crate::analysis::paired::{LatencyStatistics, PairingResult};
use crate::capture::PairedCapture;
use crate::strings::{
    decimal, decimal_text, join_texts, joined, signed_decimal, signed_decimal_text,
};

verus! {

/// How the streams were aligned: at their first transport message, or by
/// the lag with the least spread.
pub open spec fn alignment_word(anchored: bool) -> Seq<char> {
    if anchored {
        "anchored"@
    } else {
        "MAD lag"@
    }
}

/// A list of lags as `{:?}` renders it: `[a, b, c]`.
pub open spec fn lag_list(lags: Seq<i64>) -> Seq<char> {
    "["@ + joined(lags.map_values(|lag: i64| signed_decimal(lag as int)), ", "@) + "]"@
}

/// The paired report text for streams named `reference` and `returned`.
pub open spec fn paired_report(
    reference: Seq<char>,
    returned: Seq<char>,
    pairing: PairingResult,
    latency: LatencyStatistics,
) -> Seq<char> {
    "Paired MIDI Clock Analysis\n===========================\n"@
        + "\nReference               "@
        + reference
        + "\n"@
        + "Returned                "@
        + returned
        + "\n"@
        + "Alignment               "@
        + alignment_word(pairing.anchored)
        + " ("@
        + signed_decimal(pairing.lag_ticks as int)
        + " ticks)\n"@
        + "Pairs                   "@
        + decimal(pairing.rows@.len())
        + "\n"@
        + "\nPairing status\n"@
        + "  Valid                 "@
        + decimal(pairing.status_counts.valid as nat)
        + "\n"@
        + "  Missing reference     "@
        + decimal(pairing.status_counts.missing_reference as nat)
        + "\n"@
        + "  Missing returned      "@
        + decimal(pairing.status_counts.missing_returned as nat)
        + "\n"@
        + "  Reference anomalous   "@
        + decimal(pairing.status_counts.reference_anomalous as nat)
        + "\n"@
        + "  Returned anomalous    "@
        + decimal(pairing.status_counts.returned_anomalous as nat)
        + "\n"@
        + "  Both anomalous        "@
        + decimal(pairing.status_counts.both_anomalous as nat)
        + "\n"@
        + "\nResynchronization      "@
        + alignment_word(pairing.anchored)
        + "\nCandidate lags         "@
        + lag_list(pairing.candidate_lags@)
        + "\n"@
        + "\nPath latency\n"@
        + "  Count                 "@
        + decimal(latency.count as nat)
        + "\n  Mean                  "@
        + signed_decimal(latency.mean_ns as int)
        + " ns\n  Median                "@
        + signed_decimal(latency.median_ns as int)
        + " ns\n  P95                   "@
        + signed_decimal(latency.p95_ns as int)
        + " ns\n  Minimum              "@
        + signed_decimal(latency.minimum_ns as int)
        + " ns\n  Maximum              "@
        + signed_decimal(latency.maximum_ns as int)
        + " ns\n"@
}

fn alignment_text(anchored: bool) -> (text: String)
    ensures
        text@ == alignment_word(anchored),
{
    if anchored {
        String::from_str("anchored")
    } else {
        String::from_str("MAD lag")
    }
}

/// Renders lags as `{:?}` does for a list of integers.
fn lag_list_text(lags: &Vec<i64>) -> (text: String)
    ensures
        text@ == lag_list(lags@),
{
    let mut parts: Vec<String> = Vec::new();
    let mut index: usize = 0;
    while index < lags.len()
        invariant
            index <= lags@.len(),
            parts@.len() == index,
            forall|k: int| 0 <= k < index ==> (#[trigger] parts@[k])@ == signed_decimal(lags@[k] as int),
        decreases lags@.len() - index,
    {
        parts.push(signed_decimal_text(lags[index] as i128));
        index = index + 1;
    }
    assert(parts@.map_values(|part: String| part@) =~= lags@.map_values(
        |lag: i64| signed_decimal(lag as int),
    ));
    let mut text = String::from_str("[");
    let inner = join_texts(&parts, ", ");
    text.append(inner.as_str());
    text.append("]");
    text
}

/// Renders the human-readable paired latency report: the stream names, how
/// they were aligned and at which lag, the pairing status counts, the
/// candidate lags, and the path latency statistics in nanoseconds.
pub fn format_paired_report(
    capture: &PairedCapture,
    pairing: &PairingResult,
    latency: &LatencyStatistics,
) -> (report: String)
    ensures
        report@ == paired_report(
            capture.reference.display_name@,
            capture.returned.display_name@,
            *pairing,
            *latency,
        ),
{
    let alignment = alignment_text(pairing.anchored);
    let lags = lag_list_text(&pairing.candidate_lags);
    let mut report = String::from_str("Paired MIDI Clock Analysis\n===========================\n");
    report.append("\nReference               ");
    report.append(capture.reference.display_name.as_str());
    report.append("\n");
    report.append("Returned                ");
    report.append(capture.returned.display_name.as_str());
    report.append("\n");
    report.append("Alignment               ");
    report.append(alignment.as_str());
    report.append(" (");
    report.append(signed_decimal_text(pairing.lag_ticks as i128).as_str());
    report.append(" ticks)\n");
    report.append("Pairs                   ");
    report.append(decimal_text(pairing.rows.len() as u64).as_str());
    report.append("\n");
    report.append("\nPairing status\n");
    report.append("  Valid                 ");
    report.append(decimal_text(pairing.status_counts.valid as u64).as_str());
    report.append("\n");
    report.append("  Missing reference     ");
    report.append(decimal_text(pairing.status_counts.missing_reference as u64).as_str());
    report.append("\n");
    report.append("  Missing returned      ");
    report.append(decimal_text(pairing.status_counts.missing_returned as u64).as_str());
    report.append("\n");
    report.append("  Reference anomalous   ");
    report.append(decimal_text(pairing.status_counts.reference_anomalous as u64).as_str());
    report.append("\n");
    report.append("  Returned anomalous    ");
    report.append(decimal_text(pairing.status_counts.returned_anomalous as u64).as_str());
    report.append("\n");
    report.append("  Both anomalous        ");
    report.append(decimal_text(pairing.status_counts.both_anomalous as u64).as_str());
    report.append("\n");
    report.append("\nResynchronization      ");
    report.append(alignment.as_str());
    report.append("\nCandidate lags         ");
    report.append(lags.as_str());
    report.append("\n");
    report.append("\nPath latency\n");
    report.append("  Count                 ");
    report.append(decimal_text(latency.count as u64).as_str());
    report.append("\n  Mean                  ");
    report.append(signed_decimal_text(latency.mean_ns).as_str());
    report.append(" ns\n  Median                ");
    report.append(signed_decimal_text(latency.median_ns).as_str());
    report.append(" ns\n  P95                   ");
    report.append(signed_decimal_text(latency.p95_ns).as_str());
    report.append(" ns\n  Minimum              ");
    report.append(signed_decimal_text(latency.minimum_ns).as_str());
    report.append(" ns\n  Maximum              ");
    report.append(signed_decimal_text(latency.maximum_ns).as_str());
    report.append(" ns\n");
    report
}

} // verus!
