use buzzer_music::{get_top, ConfigError, CLOCK_RATE_HZ, PWM_DIV_INT};

#[test]
fn constants_describe_the_hardware() {
    assert_eq!(CLOCK_RATE_HZ, 150_000_000);
    assert_eq!(PWM_DIV_INT, 64);
}

#[test]
fn zero_divider_is_rejected() {
    assert_eq!(get_top(440, 0), Err(ConfigError::DividerZero));
}

#[test]
fn zero_frequency_is_too_low() {
    assert_eq!(get_top(0, PWM_DIV_INT), Err(ConfigError::FrequencyTooLow));
}

#[test]
fn a_period_count_of_exactly_one_succeeds() {
    // 150e6 / (2e6 * 64) = 1.17..., which rounds to a period count of 1 and
    // a top value of 0.
    assert_eq!(get_top(2_000_000, PWM_DIV_INT), Ok(0));
}

#[test]
fn a_period_count_of_zero_is_too_high() {
    // 150e6 / (5e6 * 64) = 0.46..., which rounds to a period count of 0.
    assert_eq!(get_top(5_000_000, PWM_DIV_INT), Err(ConfigError::FrequencyTooHigh));
}

#[test]
fn a_period_count_past_the_counter_is_too_low() {
    // 35 Hz: 150e6 / 2240 rounds to 66964, past the counter's 65535.
    assert_eq!(get_top(35, PWM_DIV_INT), Err(ConfigError::FrequencyTooLow));
    // 36 Hz: 150e6 / 2304 rounds to 65104, which just fits.
    assert_eq!(get_top(36, PWM_DIV_INT), Ok(65103));
}

#[test]
fn concert_pitch_converts_exactly() {
    // 150e6 / (440 * 64) = 5326.70..., rounded to 5327; top is one less.
    assert_eq!(get_top(440, PWM_DIV_INT), Ok(5326));
}

#[test]
fn rounding_is_to_the_nearest_count() {
    // 150e6 / (1_171_875 * 2) = 64 exactly.
    assert_eq!(get_top(1_171_875, 2), Ok(63));
    // One hertz more makes the quotient fractionally smaller but still
    // rounds to 64.
    assert_eq!(get_top(1_171_876, 2), Ok(63));
}
