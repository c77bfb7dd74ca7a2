use vstd::prelude::*;

verus! {

/// The fixed input clock rate, in Hz, that the waveform generator's period
/// count is derived from.
pub const CLOCK_RATE_HZ: u64 = 150_000_000;

/// The fractional clock divider programmed alongside the period count.
pub const PWM_DIV_INT: u8 = 64;

/// What one physical output channel is asked to do: stay silent, or sound a
/// square wave at the given frequency (the duty value is fixed per player).
#[derive(Clone, Copy, Debug, PartialEq, Eq, Structural)]
pub enum ChannelState {
    Muted,
    Tone { frequency: u16 },
}

/// A configuration fault. These are unrecoverable for the current
/// instance and are reported to the integrator, never silently ignored.
#[derive(Clone, Copy, Debug, PartialEq, Eq, Structural)]
pub enum ConfigError {
    /// The clock divider handed to the conversion was zero.
    DividerZero,
    /// The requested frequency is too high for the counter: the computed
    /// period count rounds to zero.
    FrequencyTooHigh,
    /// The requested frequency is too low for the counter: the computed
    /// period count exceeds the largest representable top value.
    FrequencyTooLow,
    /// A beat asked for more simultaneous notes than the player's
    /// sounding-note buffer was provisioned for.
    CapacityExceeded,
}

/// The period count for `frequency` under divider `div_int`: the clock rate
/// divided by `frequency * div_int`, rounded to the nearest integer (half
/// rounds up). The hardware counts `top + 1 = period count` input cycles per
/// output period.
pub open spec fn period_count(frequency: int, div_int: int) -> int {
    (150_000_000 + (frequency * div_int) / 2) / (frequency * div_int)
}

/// Converts a tone frequency to the hardware counter's `top` value,
/// `period_count - 1`, reporting a configuration error instead of failing
/// when the divider is zero or the frequency cannot be represented.
pub fn get_top(frequency: u32, div_int: u8) -> (r: Result<u16, ConfigError>)
    ensures
        div_int == 0 ==> r == Err::<u16, ConfigError>(ConfigError::DividerZero),
        div_int != 0 && frequency == 0 ==> r == Err::<u16, ConfigError>(ConfigError::FrequencyTooLow),
        div_int != 0 && frequency != 0 ==> {
            let c = period_count(frequency as int, div_int as int);
            &&& c == 0 ==> r == Err::<u16, ConfigError>(ConfigError::FrequencyTooHigh)
            &&& c > 65535 ==> r == Err::<u16, ConfigError>(ConfigError::FrequencyTooLow)
            &&& 1 <= c <= 65535 ==> r == Ok::<u16, ConfigError>((c - 1) as u16)
        },
{
    if div_int == 0 {
        return Err(ConfigError::DividerZero);
    }
    if frequency == 0 {
        return Err(ConfigError::FrequencyTooLow);
    }
    let f: u64 = frequency as u64;
    let d: u64 = div_int as u64;
    assert(1 <= f * d <= 0xffff_ffff_u64 * 0xff) by (nonlinear_arith)
        requires
            1 <= f <= 0xffff_ffff_u64,
            1 <= d <= 0xff,
    ;
    let denom: u64 = f * d;
    let count: u64 = (150_000_000u64 + denom / 2) / denom;
    assert(count == period_count(frequency as int, div_int as int));
    if count == 0 {
        Err(ConfigError::FrequencyTooHigh)
    } else if count > 65535 {
        Err(ConfigError::FrequencyTooLow)
    } else {
        Ok((count - 1) as u16)
    }
}

} // verus!
