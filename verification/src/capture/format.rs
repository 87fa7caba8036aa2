//! The versioned capture documents and their structural validation.
use vstd::prelude::*;

use crate::error::AppError;
use crate::strings::{blank, is_blank};

use super::event::CapturedEvent;
use super::metadata::{
    positive_timing, CaptureCompletion, CommonGraphMetadata, EnvironmentMetadata,
    GraphTransition, PairedGraphTransition, SourceMetadata, TimestampMetadata,
};

verus! {

pub const CURRENT_FORMAT_VERSION: u32 = 1;

pub const PAIRED_FORMAT_VERSION: u32 = 2;

/// A v1 single-stream capture.
#[derive(Debug, PartialEq, Eq)]
pub struct CaptureFile {
    pub format_version: u32,
    pub backend: String,
    pub source: SourceMetadata,
    pub timestamp_method: String,
    pub ppqn: u32,
    pub application_version: String,
    pub environment: EnvironmentMetadata,
    pub transitions: Vec<GraphTransition>,
    pub events: Vec<CapturedEvent>,
}

#[derive(Debug, Clone, Copy, PartialEq, Eq, Structural)]
pub enum StreamRole {
    Reference,
    Returned,
}

/// A v2 capture of two streams timed against one common graph origin.
#[derive(Debug, PartialEq, Eq)]
pub struct PairedCapture {
    pub format_version: u32,
    pub backend: String,
    pub reference: SourceMetadata,
    pub returned: SourceMetadata,
    pub timestamp_method: String,
    pub ppqn: u32,
    pub application_version: String,
    pub environment: EnvironmentMetadata,
    pub common_graph: CommonGraphMetadata,
    pub transitions: Vec<PairedGraphTransition>,
    pub completion: CaptureCompletion,
    pub reference_events: Vec<CapturedEvent>,
    pub returned_events: Vec<CapturedEvent>,
}

/// Which capture format a document declares.
#[derive(Debug, Clone, Copy, PartialEq, Eq, Structural)]
pub enum DocumentVersion {
    V1,
    V2,
}

/// Dispatches a capture document by the `format_version` field it carries
/// (read as an unsigned integer, `None` when absent or not one): the field is
/// taken modulo 2^32 as a `u32`; version 1 is a single-stream capture,
/// version 2 a paired one, any other is unsupported.
pub fn document_version(declared: Option<u64>) -> (result: Result<DocumentVersion, AppError>)
    ensures
        declared is None ==> (result matches Err(error) && error.is_invalid_capture(
            "missing format_version"@,
        )),
        declared matches Some(value) ==> result == (if value % 0x1_0000_0000 == CURRENT_FORMAT_VERSION {
            Ok::<DocumentVersion, AppError>(DocumentVersion::V1)
        } else if value % 0x1_0000_0000 == PAIRED_FORMAT_VERSION {
            Ok::<DocumentVersion, AppError>(DocumentVersion::V2)
        } else {
            Err::<DocumentVersion, AppError>(
                AppError::UnsupportedCaptureFormat((value % 0x1_0000_0000) as u32),
            )
        }),
{
    match declared {
        None => Err(AppError::InvalidCapture("missing format_version".to_owned())),
        Some(value) => {
            let version = (value % 0x1_0000_0000) as u32;
            if version == CURRENT_FORMAT_VERSION {
                Ok(DocumentVersion::V1)
            } else if version == PAIRED_FORMAT_VERSION {
                Ok(DocumentVersion::V2)
            } else {
                Err(AppError::UnsupportedCaptureFormat(version))
            }
        },
    }
}

/// A capture document of either format version.
#[derive(Debug, PartialEq, Eq)]
pub enum CaptureDocument {
    V1(CaptureFile),
    V2(PairedCapture),
}

/// The structural problems that capture validation reports.
#[derive(Debug, Clone, Copy, PartialEq, Eq, Structural)]
pub enum CaptureFault {
    UnsupportedVersion(u32),
    EmptySourceIdentity,
    EmptyPairedIdentity,
    SamePairedIdentity,
    WrongPpqn,
    ZeroRateDenominator,
    SequenceNotIncreasing,
    NonPositiveGraphTiming,
    NonPositiveTransitionTiming,
    TransitionClockDiffers,
    PairedSequenceNotIncreasing,
    NotPipeWireTimestamp,
    EventTimingDiffers,
    PositionOverflow,
    NotRelativeToOrigin,
}

impl AppError {
    /// This error is the one that validation reports for `fault`.
    pub open spec fn reports(self, fault: CaptureFault) -> bool {
        match fault {
            CaptureFault::UnsupportedVersion(version) => self
                == AppError::UnsupportedCaptureFormat(version),
            CaptureFault::EmptySourceIdentity => self.is_invalid_capture(
                "source identity must not be empty"@,
            ),
            CaptureFault::EmptyPairedIdentity => self.is_invalid_capture(
                "paired source identities must not be empty"@,
            ),
            CaptureFault::SamePairedIdentity => self.is_invalid_capture(
                "paired source identities must be distinct"@,
            ),
            CaptureFault::WrongPpqn => self.is_invalid_capture("PPQN must be exactly 24"@),
            CaptureFault::ZeroRateDenominator => self.is_invalid_capture(
                "PipeWire rate denominator must be positive"@,
            ),
            CaptureFault::SequenceNotIncreasing => self.is_invalid_capture(
                "event sequence numbers must be strictly increasing"@,
            ),
            CaptureFault::NonPositiveGraphTiming => self.is_timebase_error(
                "graph rate and quantum must be positive"@,
            ),
            CaptureFault::NonPositiveTransitionTiming => self.is_timebase_error(
                "graph transition rate and quantum must be positive"@,
            ),
            CaptureFault::TransitionClockDiffers => self.is_timebase_error(
                "graph transition clock differs from common clock"@,
            ),
            CaptureFault::PairedSequenceNotIncreasing => self.is_invalid_capture(
                "paired event sequence numbers must be strictly increasing"@,
            ),
            CaptureFault::NotPipeWireTimestamp => self.is_timebase_error(
                "paired events must use PipeWire timestamps"@,
            ),
            CaptureFault::EventTimingDiffers => self.is_timebase_error(
                "event timing differs from common graph timing"@,
            ),
            CaptureFault::PositionOverflow => self is TimestampArithmeticOverflow,
            CaptureFault::NotRelativeToOrigin => self.is_timebase_error(
                "event timestamp is not relative to the common origin"@,
            ),
        }
    }
}

/// Rust's integer division, which truncates toward zero.
pub open spec fn truncating_div(numerator: int, denominator: int) -> int {
    if numerator >= 0 {
        numerator / denominator
    } else {
        -((-numerator) / denominator)
    }
}

/// Nanoseconds spanned by `delta` graph samples at `rate_num / rate_denom`
/// seconds per sample, truncated toward zero.
pub open spec fn graph_span_ns(delta: int, rate_num: int, rate_denom: int) -> int {
    truncating_div(delta * rate_num * 1_000_000_000, rate_denom)
}

/// The v1 fault of event `i`, given the event before it.
pub open spec fn event_fault(events: Seq<CapturedEvent>, i: int) -> Option<CaptureFault> {
    if i > 0 && events[i].sequence <= events[i - 1].sequence {
        Some(CaptureFault::SequenceNotIncreasing)
    } else if events[i].timestamp_metadata matches TimestampMetadata::PipeWire(timestamp)
        && timestamp.rate_denom == 0 {
        Some(CaptureFault::ZeroRateDenominator)
    } else {
        None
    }
}

/// The first v1 event fault among the first `count` events.
pub open spec fn first_event_fault(events: Seq<CapturedEvent>, count: nat) -> Option<
    CaptureFault,
>
    decreases count,
{
    if count == 0 {
        None
    } else {
        let earlier = first_event_fault(events, (count - 1) as nat);
        if earlier is Some {
            earlier
        } else {
            event_fault(events, count - 1)
        }
    }
}

/// Events numbered consecutively from zero, as recording numbers them.
pub open spec fn numbered(events: Seq<CapturedEvent>) -> bool {
    forall|i: int| 0 <= i < events.len() ==> (#[trigger] events[i]).sequence == i
}

/// Every PipeWire timestamp among `events` has a positive rate denominator.
pub open spec fn positive_rates(events: Seq<CapturedEvent>) -> bool {
    forall|i: int|
        0 <= i < events.len() ==> ((#[trigger] events[i]).timestamp_metadata matches TimestampMetadata::PipeWire(
            timestamp,
        ) ==> timestamp.rate_denom > 0)
}

/// Numbered events with positive rates hold no v1 event fault.
pub proof fn lemma_numbered_events_are_sound(events: Seq<CapturedEvent>, count: nat)
    requires
        count <= events.len(),
        numbered(events),
        positive_rates(events),
    ensures
        first_event_fault(events, count) is None,
    decreases count,
{
    if count > 0 {
        lemma_numbered_events_are_sound(events, (count - 1) as nat);
        let i = count - 1;
        assert(events[i].sequence == i);
        if i > 0 {
            assert(events[i - 1].sequence == i - 1);
        }
    }
}

/// The fault that validation reports for a v1 capture, checked in the order:
/// version, source identity, PPQN, transition rates, then events in order.
pub open spec fn capture_fault(capture: CaptureFile) -> Option<CaptureFault> {
    if capture.format_version != CURRENT_FORMAT_VERSION {
        Some(CaptureFault::UnsupportedVersion(capture.format_version))
    } else if blank(capture.source.identity@) {
        Some(CaptureFault::EmptySourceIdentity)
    } else if capture.ppqn != 24 {
        Some(CaptureFault::WrongPpqn)
    } else if exists|i: int|
        0 <= i < capture.transitions@.len() && #[trigger] capture.transitions@[i].rate_denom
            == 0 {
        Some(CaptureFault::ZeroRateDenominator)
    } else {
        first_event_fault(capture.events@, capture.events@.len())
    }
}

/// The fault of paired transition `transition` against the common clock.
pub open spec fn transition_fault(
    transition: PairedGraphTransition,
    common: CommonGraphMetadata,
) -> Option<CaptureFault> {
    if !positive_timing(
        transition.timing.rate_num,
        transition.timing.rate_denom,
        transition.timing.quantum,
    ) {
        Some(CaptureFault::NonPositiveTransitionTiming)
    } else if transition.clock_id != common.clock_id {
        Some(CaptureFault::TransitionClockDiffers)
    } else {
        None
    }
}

/// The first transition fault among the first `count` transitions.
pub open spec fn first_transition_fault(
    transitions: Seq<PairedGraphTransition>,
    common: CommonGraphMetadata,
    count: nat,
) -> Option<CaptureFault>
    decreases count,
{
    if count == 0 {
        None
    } else {
        let earlier = first_transition_fault(transitions, common, (count - 1) as nat);
        if earlier is Some {
            earlier
        } else {
            transition_fault(transitions[count - 1], common)
        }
    }
}

/// The fault of paired event `i`: its sequence order, its timestamp kind, its
/// graph timing, and whether its timestamp is measured from the common origin.
pub open spec fn paired_event_fault(
    events: Seq<CapturedEvent>,
    common: CommonGraphMetadata,
    i: int,
) -> Option<CaptureFault> {
    if i > 0 && events[i].sequence <= events[i - 1].sequence {
        Some(CaptureFault::PairedSequenceNotIncreasing)
    } else {
        match events[i].timestamp_metadata {
            TimestampMetadata::PipeWire(timestamp) => {
                let delta = timestamp.event_position - common.origin_position;
                if timestamp.rate_num != common.rate_num || timestamp.rate_denom
                    != common.rate_denom || timestamp.quantum != common.quantum {
                    Some(CaptureFault::EventTimingDiffers)
                } else if !(i64::MIN <= delta <= i64::MAX) {
                    Some(CaptureFault::PositionOverflow)
                } else if events[i].timestamp_ns != graph_span_ns(
                    delta,
                    common.rate_num as int,
                    common.rate_denom as int,
                ) {
                    Some(CaptureFault::NotRelativeToOrigin)
                } else {
                    None
                }
            },
            TimestampMetadata::Alsa(_) => Some(CaptureFault::NotPipeWireTimestamp),
        }
    }
}

/// The first paired event fault among the first `count` events.
pub open spec fn first_paired_event_fault(
    events: Seq<CapturedEvent>,
    common: CommonGraphMetadata,
    count: nat,
) -> Option<CaptureFault>
    decreases count,
{
    if count == 0 {
        None
    } else {
        let earlier = first_paired_event_fault(events, common, (count - 1) as nat);
        if earlier is Some {
            earlier
        } else {
            paired_event_fault(events, common, count - 1)
        }
    }
}

/// The fault that validation reports for a v2 capture, checked in the order:
/// version, common timing, identities, PPQN, transitions, reference events,
/// returned events.
pub open spec fn paired_capture_fault(capture: PairedCapture) -> Option<CaptureFault> {
    let common = capture.common_graph;
    if capture.format_version != PAIRED_FORMAT_VERSION {
        Some(CaptureFault::UnsupportedVersion(capture.format_version))
    } else if !positive_timing(common.rate_num, common.rate_denom, common.quantum) {
        Some(CaptureFault::NonPositiveGraphTiming)
    } else if blank(capture.reference.identity@) || blank(capture.returned.identity@) {
        Some(CaptureFault::EmptyPairedIdentity)
    } else if capture.reference.identity@ == capture.returned.identity@ {
        Some(CaptureFault::SamePairedIdentity)
    } else if capture.ppqn != 24 {
        Some(CaptureFault::WrongPpqn)
    } else if first_transition_fault(capture.transitions@, common, capture.transitions@.len())
        is Some {
        first_transition_fault(capture.transitions@, common, capture.transitions@.len())
    } else if first_paired_event_fault(
        capture.reference_events@,
        common,
        capture.reference_events@.len(),
    ) is Some {
        first_paired_event_fault(
            capture.reference_events@,
            common,
            capture.reference_events@.len(),
        )
    } else {
        first_paired_event_fault(capture.returned_events@, common, capture.returned_events@.len())
    }
}

/// `event` carries PipeWire timing whose graph position, measured from the
/// common origin, is exactly its timestamp in nanoseconds.
pub open spec fn at_common_origin(event: CapturedEvent, common: CommonGraphMetadata) -> bool {
    event.timestamp_metadata matches TimestampMetadata::PipeWire(timestamp)
        && event.timestamp_ns == graph_span_ns(
        timestamp.event_position - common.origin_position,
        common.rate_num as int,
        common.rate_denom as int,
    )
}

proof fn lemma_no_paired_fault_before(
    events: Seq<CapturedEvent>,
    common: CommonGraphMetadata,
    count: nat,
)
    requires
        first_paired_event_fault(events, common, count) is None,
    ensures
        forall|i: int| 0 <= i < count ==> #[trigger] paired_event_fault(events, common, i) is None,
    decreases count,
{
    if count > 0 {
        lemma_no_paired_fault_before(events, common, (count - 1) as nat);
    }
}

/// A paired capture that validation accepts has a positive common graph rate,
/// and every event of both streams is timed by PipeWire at exactly the
/// nanoseconds that `common_timestamp_ns` gives for its graph position.
pub proof fn law_validated_paired_events_sit_at_the_common_origin(capture: PairedCapture)
    requires
        paired_capture_fault(capture) is None,
    ensures
        capture.common_graph.rate_num > 0,
        capture.common_graph.rate_denom > 0,
        forall|i: int|
            0 <= i < capture.reference_events@.len() ==> at_common_origin(
                #[trigger] capture.reference_events@[i],
                capture.common_graph,
            ),
        forall|i: int|
            0 <= i < capture.returned_events@.len() ==> at_common_origin(
                #[trigger] capture.returned_events@[i],
                capture.common_graph,
            ),
{
    let common = capture.common_graph;
    let reference = capture.reference_events@;
    let returned = capture.returned_events@;
    lemma_no_paired_fault_before(reference, common, reference.len());
    lemma_no_paired_fault_before(returned, common, returned.len());
    assert forall|i: int| 0 <= i < reference.len() implies at_common_origin(
        #[trigger] reference[i],
        common,
    ) by {
        assert(paired_event_fault(reference, common, i) is None);
    }
    assert forall|i: int| 0 <= i < returned.len() implies at_common_origin(
        #[trigger] returned[i],
        common,
    ) by {
        assert(paired_event_fault(returned, common, i) is None);
    }
}

/// The result that validation returns for a fault, or `Ok` for none.
pub open spec fn outcome_matches(result: Result<(), AppError>, fault: Option<CaptureFault>) -> bool {
    &&& result is Ok <==> fault is None
    &&& result matches Err(error) ==> error.reports(fault.unwrap())
}

proof fn lemma_first_event_fault_settles(events: Seq<CapturedEvent>, found: nat, count: nat)
    requires
        found <= count,
        first_event_fault(events, found) is Some,
    ensures
        first_event_fault(events, count) == first_event_fault(events, found),
    decreases count,
{
    if count > found {
        lemma_first_event_fault_settles(events, found, (count - 1) as nat);
    }
}

proof fn lemma_first_transition_fault_settles(
    transitions: Seq<PairedGraphTransition>,
    common: CommonGraphMetadata,
    found: nat,
    count: nat,
)
    requires
        found <= count,
        first_transition_fault(transitions, common, found) is Some,
    ensures
        first_transition_fault(transitions, common, count) == first_transition_fault(
            transitions,
            common,
            found,
        ),
    decreases count,
{
    if count > found {
        lemma_first_transition_fault_settles(transitions, common, found, (count - 1) as nat);
    }
}

proof fn lemma_first_paired_event_fault_settles(
    events: Seq<CapturedEvent>,
    common: CommonGraphMetadata,
    found: nat,
    count: nat,
)
    requires
        found <= count,
        first_paired_event_fault(events, common, found) is Some,
    ensures
        first_paired_event_fault(events, common, count) == first_paired_event_fault(
            events,
            common,
            found,
        ),
    decreases count,
{
    if count > found {
        lemma_first_paired_event_fault_settles(events, common, found, (count - 1) as nat);
    }
}

proof fn lemma_span_fits(delta: int, rate_num: int)
    requires
        -0x1_0000_0000_0000_0000 <= delta <= 0x1_0000_0000_0000_0000,
        0 <= rate_num <= 0xffff_ffff,
    ensures
        -0x1_0000_0000_0000_0000 * 0xffff_ffff <= delta * rate_num <= 0x1_0000_0000_0000_0000
            * 0xffff_ffff,
        i128::MIN <= delta * rate_num * 1_000_000_000 <= i128::MAX,
{
    assert(-0x1_0000_0000_0000_0000 * 0xffff_ffff <= delta * rate_num <= 0x1_0000_0000_0000_0000
        * 0xffff_ffff) by (nonlinear_arith)
        requires
            -0x1_0000_0000_0000_0000 <= delta <= 0x1_0000_0000_0000_0000,
            0 <= rate_num <= 0xffff_ffff,
    ;
    let product = delta * rate_num;
    assert(i128::MIN <= product * 1_000_000_000 <= i128::MAX) by (nonlinear_arith)
        requires
            -0x1_0000_0000_0000_0000 * 0xffff_ffff <= product <= 0x1_0000_0000_0000_0000
                * 0xffff_ffff,
    ;
}

/// Nanoseconds of `delta` graph samples; no product of these ranges overflows `i128`.
pub(crate) fn span_ns(delta: i128, rate_num: u32, rate_denom: u32) -> (span: i128)
    requires
        -0x1_0000_0000_0000_0000 <= delta <= 0x1_0000_0000_0000_0000,
        rate_denom > 0,
    ensures
        span == graph_span_ns(delta as int, rate_num as int, rate_denom as int),
{
    proof {
        lemma_span_fits(delta as int, rate_num as int);
    }
    let scaled = delta * (rate_num as i128) * 1_000_000_000;
    scaled / (rate_denom as i128)
}

/// Convert a raw PipeWire graph event position into nanoseconds relative to
/// the paired capture's common origin.
pub fn common_timestamp_ns(
    event_position: i64,
    origin_position: i64,
    rate_num: u32,
    rate_denom: u32,
) -> (result: Result<i128, AppError>)
    ensures
        rate_num == 0 || rate_denom == 0 ==> (result matches Err(error)
            && error.is_timebase_error("graph rate must be positive"@)),
        rate_num > 0 && rate_denom > 0 ==> result == Ok::<i128, AppError>(
            graph_span_ns(event_position - origin_position, rate_num as int, rate_denom as int)
                as i128,
        ),
{
    if rate_num == 0 || rate_denom == 0 {
        return Err(AppError::InconsistentCommonTimebase("graph rate must be positive".to_owned()));
    }
    let delta = (event_position as i128) - (origin_position as i128);
    Ok(span_ns(delta, rate_num, rate_denom))
}

fn validate_rate_denominator(rate_denom: u32) -> (result: Result<(), AppError>)
    ensures
        result is Ok <==> rate_denom > 0,
        result matches Err(error) ==> error.reports(CaptureFault::ZeroRateDenominator),
{
    if rate_denom == 0 {
        return Err(
            AppError::InvalidCapture("PipeWire rate denominator must be positive".to_owned()),
        );
    }
    Ok(())
}

impl CaptureFile {
    /// Checks the structural rules of a v1 capture and reports the first violation.
    #[verifier::loop_isolation(false)]
    pub fn validate(&self) -> (result: Result<(), AppError>)
        ensures
            outcome_matches(result, capture_fault(*self)),
    {
        if self.format_version != CURRENT_FORMAT_VERSION {
            return Err(AppError::UnsupportedCaptureFormat(self.format_version));
        }
        if is_blank(self.source.identity.as_str()) {
            return Err(AppError::InvalidCapture("source identity must not be empty".to_owned()));
        }
        if self.ppqn != 24 {
            return Err(AppError::InvalidCapture("PPQN must be exactly 24".to_owned()));
        }
        let mut index: usize = 0;
        while index < self.transitions.len()
            invariant
                index <= self.transitions@.len(),
                forall|i: int| 0 <= i < index ==> #[trigger] self.transitions@[i].rate_denom != 0,
            decreases self.transitions@.len() - index,
        {
            if self.transitions[index].rate_denom == 0 {
                assert(self.transitions@[index as int].rate_denom == 0);
                return validate_rate_denominator(self.transitions[index].rate_denom);
            }
            index = index + 1;
        }
        let mut index: usize = 0;
        while index < self.events.len()
            invariant
                index <= self.events@.len(),
                first_event_fault(self.events@, index as nat) is None,
            decreases self.events@.len() - index,
        {
            let event = &self.events[index];
            proof {
                if event_fault(self.events@, index as int) is Some {
                    lemma_first_event_fault_settles(
                        self.events@,
                        (index + 1) as nat,
                        self.events@.len(),
                    );
                }
            }
            if index > 0 && event.sequence <= self.events[index - 1].sequence {
                return Err(
                    AppError::InvalidCapture(
                        "event sequence numbers must be strictly increasing".to_owned(),
                    ),
                );
            }
            match &event.timestamp_metadata {
                TimestampMetadata::PipeWire(timestamp) => {
                    validate_rate_denominator(timestamp.rate_denom)?;
                },
                TimestampMetadata::Alsa(_) => {},
            }
            index = index + 1;
        }
        Ok(())
    }
}

/// Checks each event of one side of a paired capture against the common graph.
fn validate_paired_events(events: &Vec<CapturedEvent>, common: &CommonGraphMetadata) -> (result:
    Result<(), AppError>)
    requires
        common.rate_denom > 0,
    ensures
        outcome_matches(result, first_paired_event_fault(events@, *common, events@.len())),
{
    let mut index: usize = 0;
    while index < events.len()
        invariant
            index <= events@.len(),
            common.rate_denom > 0,
            first_paired_event_fault(events@, *common, index as nat) is None,
        decreases events@.len() - index,
    {
        let event = &events[index];
        proof {
            if paired_event_fault(events@, *common, index as int) is Some {
                lemma_first_paired_event_fault_settles(
                    events@,
                    *common,
                    (index + 1) as nat,
                    events@.len(),
                );
            }
        }
        if index > 0 && event.sequence <= events[index - 1].sequence {
            return Err(
                AppError::InvalidCapture(
                    "paired event sequence numbers must be strictly increasing".to_owned(),
                ),
            );
        }
        let timestamp = match &event.timestamp_metadata {
            TimestampMetadata::PipeWire(timestamp) => timestamp,
            TimestampMetadata::Alsa(_) => {
                return Err(
                    AppError::InconsistentCommonTimebase(
                        "paired events must use PipeWire timestamps".to_owned(),
                    ),
                );
            },
        };
        if timestamp.rate_num != common.rate_num || timestamp.rate_denom != common.rate_denom
            || timestamp.quantum != common.quantum {
            return Err(
                AppError::InconsistentCommonTimebase(
                    "event timing differs from common graph timing".to_owned(),
                ),
            );
        }
        let expected = match timestamp.event_position.checked_sub(common.origin_position) {
            Some(expected) => expected,
            None => {
                return Err(AppError::TimestampArithmeticOverflow);
            },
        };
        let expected_ns = span_ns(expected as i128, common.rate_num, common.rate_denom);
        if event.timestamp_ns != expected_ns {
            return Err(
                AppError::InconsistentCommonTimebase(
                    "event timestamp is not relative to the common origin".to_owned(),
                ),
            );
        }
        index = index + 1;
    }
    Ok(())
}

impl PairedCapture {
    /// Checks the structural rules of a v2 capture and reports the first violation.
    #[verifier::loop_isolation(false)]
    pub fn validate(&self) -> (result: Result<(), AppError>)
        ensures
            outcome_matches(result, paired_capture_fault(*self)),
    {
        if self.format_version != PAIRED_FORMAT_VERSION {
            return Err(AppError::UnsupportedCaptureFormat(self.format_version));
        }
        self.common_graph.validate()?;
        if is_blank(self.reference.identity.as_str()) || is_blank(self.returned.identity.as_str()) {
            return Err(
                AppError::InvalidCapture("paired source identities must not be empty".to_owned()),
            );
        }
        if self.reference.identity == self.returned.identity {
            return Err(
                AppError::InvalidCapture("paired source identities must be distinct".to_owned()),
            );
        }
        if self.ppqn != 24 {
            return Err(AppError::InvalidCapture("PPQN must be exactly 24".to_owned()));
        }
        let common = &self.common_graph;
        let mut index: usize = 0;
        while index < self.transitions.len()
            invariant
                index <= self.transitions@.len(),
                common == &self.common_graph,
                first_transition_fault(self.transitions@, *common, index as nat) is None,
            decreases self.transitions@.len() - index,
        {
            let transition = &self.transitions[index];
            proof {
                if transition_fault(*transition, *common) is Some {
                    lemma_first_transition_fault_settles(
                        self.transitions@,
                        *common,
                        (index + 1) as nat,
                        self.transitions@.len(),
                    );
                }
            }
            transition.timing.validate()?;
            if transition.clock_id != common.clock_id {
                return Err(
                    AppError::InconsistentCommonTimebase(
                        "graph transition clock differs from common clock".to_owned(),
                    ),
                );
            }
            index = index + 1;
        }
        validate_paired_events(&self.reference_events, common)?;
        validate_paired_events(&self.returned_events, common)?;
        Ok(())
    }
}

} // verus!
