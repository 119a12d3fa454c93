use vstd::prelude::*;

verus! {

/// Target sample rate and channel count of preprocessed audio.
#[derive(Debug, Clone, Copy, PartialEq, Eq)]
pub struct PreprocessConfig {
    pub target_sample_rate_hz: u32,
    pub target_channels: u16,
}

impl Default for PreprocessConfig {
    /// 16 kHz mono.
    fn default() -> (config: Self)
        ensures
            config.target_sample_rate_hz == 16_000,
            config.target_channels == 1,
    {
        PreprocessConfig { target_sample_rate_hz: 16_000, target_channels: 1 }
    }
}

} // verus!
