use vstd::prelude::*;

verus! {

/// Counts of processed samples and dropped frames.
#[derive(Debug, Clone, Copy)]
pub struct LatencyMetrics {
    pub processed_samples: usize,
    pub dropped_frames: usize,
}

impl Default for LatencyMetrics {
    fn default() -> (metrics: Self)
        ensures
            metrics.processed_samples == 0,
            metrics.dropped_frames == 0,
    {
        LatencyMetrics { processed_samples: 0, dropped_frames: 0 }
    }
}

} // verus!
