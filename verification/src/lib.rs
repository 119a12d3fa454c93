//! Integer core of a log-Mel audio feature frontend: configuration, framing of
//! sample streams into overlapping windows, the bounded streaming buffer that
//! schedules frames, compacts its storage and drops samples under a limit,
//! assembly of feature matrices, and the choice of WAV sample decoding.

pub mod config;
pub mod extractor;
pub mod framing;
pub mod metrics;
pub mod preprocess;
pub mod streaming;
pub mod wav;
pub mod window;
