//! The graph timing that a PipeWire filter's process cycle reports.
use vstd::prelude::*;

use crate::error::AppError;

verus! {

/// Graph position, rate and quantum of one process cycle.
#[derive(Debug, Clone, Copy, PartialEq, Eq, Structural)]
pub struct PositionTiming {
    pub cycle_ticks: i64,
    pub rate_num: u32,
    pub rate_denom: u32,
    pub quantum: u32,
}

/// Reads the cycle timing out of the clock fields of `spa_io_position`
/// (`clock.rate.num`, `clock.rate.denom`, `clock.position`,
/// `clock.duration`): the duration is the quantum and must fit `u32`, the
/// rate and quantum must be positive, and the position must fit `i64`.
pub fn position_timing(rate_num: u32, rate_denom: u32, position: u64, duration: u64) -> (result:
    Result<PositionTiming, AppError>)
    ensures
        duration > u32::MAX ==> (result matches Err(error) && error is TimestampArithmeticOverflow),
        duration <= u32::MAX && (rate_num == 0 || rate_denom == 0 || duration == 0) ==> (
        result matches Err(AppError::PipeWireNegotiationFailed { detail })
            && detail@ == "PipeWire filter reported an invalid graph rate or quantum"@),
        0 < duration <= u32::MAX && rate_num > 0 && rate_denom > 0 && position > i64::MAX ==> (
        result matches Err(error) && error is TimestampArithmeticOverflow),
        0 < duration <= u32::MAX && rate_num > 0 && rate_denom > 0 && position <= i64::MAX
            ==> result == Ok::<PositionTiming, AppError>(
            PositionTiming {
                cycle_ticks: position as i64,
                rate_num,
                rate_denom,
                quantum: duration as u32,
            },
        ),
{
    if duration > u32::MAX as u64 {
        return Err(AppError::TimestampArithmeticOverflow);
    }
    let quantum = duration as u32;
    if rate_num == 0 || rate_denom == 0 || quantum == 0 {
        return Err(
            AppError::PipeWireNegotiationFailed {
                detail: "PipeWire filter reported an invalid graph rate or quantum".to_owned(),
            },
        );
    }
    if position > i64::MAX as u64 {
        return Err(AppError::TimestampArithmeticOverflow);
    }
    Ok(PositionTiming { cycle_ticks: position as i64, rate_num, rate_denom, quantum })
}

} // verus!
