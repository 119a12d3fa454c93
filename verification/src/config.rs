use vstd::prelude::*;

verus! {

/// Audio stream configuration: sample rate, channel count, and the frame and
/// hop durations in milliseconds.
#[derive(Debug, Clone, Copy, PartialEq, Eq)]
pub struct AppConfig {
    pub sample_rate_hz: u32,
    pub channels: u16,
    pub frame_ms: u32,
    pub hop_ms: u32,
}

/// Number of whole samples covered by `ms` milliseconds at `rate_hz`
/// (rounded down).
pub open spec fn samples_in_ms(rate_hz: u32, ms: u32) -> nat {
    ((rate_hz as nat) * (ms as nat) / 1000) as nat
}

/// Default configuration: 16 kHz mono with 25 ms frames and a 10 ms hop.
pub open spec fn default_app_config() -> AppConfig {
    AppConfig { sample_rate_hz: 16_000, channels: 1, frame_ms: 25, hop_ms: 10 }
}

impl AppConfig {
    /// Frame length in samples.
    pub open spec fn spec_frame_size(self) -> nat {
        samples_in_ms(self.sample_rate_hz, self.frame_ms)
    }

    /// Hop length in samples.
    pub open spec fn spec_hop_size(self) -> nat {
        samples_in_ms(self.sample_rate_hz, self.hop_ms)
    }

    pub fn frame_size_samples(&self) -> (size: usize)
        requires
            self.spec_frame_size() <= usize::MAX,
        ensures
            size == self.spec_frame_size(),
    {
        duration_to_samples(self.sample_rate_hz, self.frame_ms)
    }

    pub fn hop_size_samples(&self) -> (size: usize)
        requires
            self.spec_hop_size() <= usize::MAX,
        ensures
            size == self.spec_hop_size(),
    {
        duration_to_samples(self.sample_rate_hz, self.hop_ms)
    }
}

/// Number of whole samples in `ms` milliseconds at `rate_hz`.
pub fn duration_to_samples(rate_hz: u32, ms: u32) -> (n: usize)
    requires
        samples_in_ms(rate_hz, ms) <= usize::MAX,
    ensures
        n == samples_in_ms(rate_hz, ms),
{
    let rate = rate_hz as u64;
    let dur = ms as u64;
    assert(rate * dur <= u32::MAX * u32::MAX) by (nonlinear_arith)
        requires
            rate <= u32::MAX,
            dur <= u32::MAX,
    ;
    let n = (rate * dur) / 1_000;
    n as usize
}

impl Default for AppConfig {
    fn default() -> (config: Self)
        ensures
            config == default_app_config(),
    {
        AppConfig { sample_rate_hz: 16_000, channels: 1, frame_ms: 25, hop_ms: 10 }
    }
}

} // verus!
