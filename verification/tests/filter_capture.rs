use midijitter::backend::pipewire::filter_capture::position_timing;
use midijitter::AppError;

#[test]
fn position_timing_extracts_ticks_rate_and_quantum() {
    let timing = position_timing(1, 48000, 480000, 1024).unwrap();
    assert_eq!(
        (timing.cycle_ticks, timing.rate_num, timing.rate_denom, timing.quantum),
        (480000, 1, 48000, 1024)
    );
}

#[test]
fn position_timing_rejects_zero_rate_or_quantum() {
    assert!(position_timing(0, 48000, 1, 1024).is_err());
    assert!(position_timing(1, 0, 1, 1024).is_err());
    assert!(position_timing(1, 48000, 1, 0).is_err());
}

#[test]
fn position_timing_rejects_values_that_do_not_fit() {
    assert!(matches!(
        position_timing(1, 48000, 1, u64::from(u32::MAX) + 1),
        Err(AppError::TimestampArithmeticOverflow)
    ));
    assert!(matches!(
        position_timing(1, 48000, u64::MAX, 1024),
        Err(AppError::TimestampArithmeticOverflow)
    ));
}
