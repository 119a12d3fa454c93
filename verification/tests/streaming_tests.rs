use signalflow_rs::config::AppConfig;
use signalflow_rs::framing::{frame_signal, FrameConfig};
use signalflow_rs::streaming::{StreamBuffer, StreamingConfig, StreamingOutput};

fn ramp(n: usize) -> Vec<f32> {
    (0..n).map(|i| i as f32).collect()
}

fn default_buffer() -> StreamBuffer<f32> {
    StreamBuffer::new(StreamingConfig::new(AppConfig::default()))
}

fn bounded_buffer(limit: usize) -> StreamBuffer<f32> {
    StreamBuffer::new(StreamingConfig::with_max_pending_samples(
        AppConfig::default(),
        limit,
    ))
}

#[test]
fn streaming_config_new_is_unbounded() {
    let config = StreamingConfig::new(AppConfig::default());

    assert_eq!(config.app, AppConfig::default());
    assert_eq!(config.max_pending_samples, None);
}

#[test]
fn streaming_config_with_max_pending_samples_sets_limit() {
    let config = StreamingConfig::with_max_pending_samples(AppConfig::default(), 512);

    assert_eq!(config.max_pending_samples, Some(512));
}

#[test]
fn buffer_empty_push_emits_nothing() {
    let mut buffer = default_buffer();
    let out = buffer.push_samples(&[]);

    assert!(out.frames.is_empty());
    assert_eq!(out.consumed_samples, 0);
    assert_eq!(out.pending_samples, 0);
    assert_eq!(out.dropped_samples, 0);
    assert_eq!(out.dropped_frames, 0);
    assert_eq!(buffer.pending_samples(), 0);
}

#[test]
fn buffer_short_push_keeps_samples_pending() {
    let mut buffer = default_buffer();
    let out = buffer.push_samples(&vec![1.0; 100]);

    assert!(out.frames.is_empty());
    assert_eq!(out.pending_samples, 100);
    assert_eq!(buffer.pending_samples(), 100);
}

#[test]
fn buffer_emits_first_frame_after_enough_samples() {
    let mut buffer = default_buffer();
    let out = buffer.push_samples(&vec![1.0; 400]);

    assert_eq!(out.frames.len(), 1);
    assert_eq!(out.frames[0].len(), 400);
    assert_eq!(out.consumed_samples, 160);
    assert_eq!(out.pending_samples, 240);
}

#[test]
fn buffer_single_push_of_1600_samples() {
    let mut buffer = default_buffer();
    let out = buffer.push_samples(&vec![1.0; 1_600]);

    assert_eq!(out.frames.len(), 8);
    assert!(out.frames.iter().all(|frame| frame.len() == 400));
    assert_eq!(out.pending_samples, 320);
    assert_eq!(buffer.total_input_samples(), 1_600);
    assert_eq!(buffer.total_emitted_frames(), 8);
    assert_eq!(buffer.total_consumed_samples(), 1_280);
    assert_eq!(buffer.peak_pending_samples(), 1_600);
    assert_eq!(buffer.max_pending_samples(), 1_600);
}

#[test]
fn buffer_chunked_push_of_1600_samples() {
    let mut buffer = default_buffer();
    let mut total_frames = 0;

    for _ in 0..10 {
        total_frames += buffer.push_samples(&vec![1.0; 160]).frames.len();
    }

    assert_eq!(total_frames, 8);
    assert_eq!(buffer.total_emitted_frames(), 8);
    assert_eq!(buffer.total_consumed_samples(), 1_280);
    assert_eq!(buffer.pending_samples(), 320);
}

#[test]
fn buffer_frames_across_hop_chunks_match_batch_framing() {
    let samples = ramp(1_600);
    let reference = frame_signal(&samples, FrameConfig::new(400, 160));
    let mut buffer = default_buffer();
    let mut streamed = Vec::new();

    for chunk in samples.chunks(160) {
        streamed.extend(buffer.push_samples(chunk).frames);
    }

    assert_eq!(streamed, reference);
    assert_eq!(buffer.total_emitted_frames(), reference.len());
    assert_eq!(buffer.pending_samples(), 320);
    assert_eq!(buffer.total_consumed_samples(), 1_280);
}

#[test]
fn buffer_frames_across_small_chunks_match_batch_framing() {
    let samples = ramp(1_600);
    let reference = frame_signal(&samples, FrameConfig::new(400, 160));
    let mut buffer = default_buffer();
    let mut streamed = Vec::new();

    for chunk in samples.chunks(32) {
        streamed.extend(buffer.push_samples(chunk).frames);
    }

    assert_eq!(streamed, reference);
    assert_eq!(buffer.pending_samples(), 320);
}

#[test]
fn buffer_chunked_and_single_push_agree() {
    let samples = ramp(5_000);
    let mut single = default_buffer();
    let mut chunked = default_buffer();

    let single_frames = single.push_samples(&samples).frames;
    let mut chunked_frames = Vec::new();
    for chunk in samples.chunks(77) {
        chunked_frames.extend(chunked.push_samples(chunk).frames);
    }

    assert_eq!(single_frames, chunked_frames);
    assert_eq!(single.total_emitted_frames(), chunked.total_emitted_frames());
    assert_eq!(single.pending_samples(), chunked.pending_samples());
    assert_eq!(single.total_consumed_samples(), chunked.total_consumed_samples());
    assert!(chunked.peak_pending_samples() <= single.peak_pending_samples());
}

#[test]
fn buffer_peak_pending_is_tracked() {
    let mut buffer = default_buffer();
    buffer.push_samples(&vec![1.0; 100]);
    buffer.push_samples(&vec![1.0; 300]);
    buffer.push_samples(&vec![1.0; 1_200]);

    assert_eq!(buffer.peak_pending_samples(), 1_440);
}

#[test]
fn buffer_unbounded_never_drops() {
    let mut buffer = default_buffer();
    let out = buffer.push_samples(&vec![1.0; 1_600]);

    assert_eq!(out.dropped_samples, 0);
    assert_eq!(out.dropped_frames, 0);
    assert_eq!(buffer.total_dropped_samples(), 0);
    assert_eq!(buffer.total_dropped_frames(), 0);
}

#[test]
fn buffer_bounded_drops_whole_hops() {
    let mut buffer = bounded_buffer(200);
    let out = buffer.push_samples(&vec![1.0; 1_600]);

    assert_eq!(out.frames.len(), 8);
    assert_eq!(out.dropped_samples, 160);
    assert_eq!(out.dropped_frames, 1);
    assert_eq!(out.pending_samples, 160);
    assert_eq!(out.peak_pending_samples, 1_600);
    assert_eq!(buffer.total_dropped_samples(), 160);
    assert_eq!(buffer.total_dropped_frames(), 1);
    assert!(buffer.pending_samples() <= 200);
}

#[test]
fn buffer_bounded_drop_is_capped_at_pending() {
    let mut buffer = bounded_buffer(0);
    let out = buffer.push_samples(&vec![1.0; 100]);

    assert_eq!(out.dropped_samples, 100);
    assert_eq!(out.dropped_frames, 0);
    assert_eq!(out.pending_samples, 0);
}

#[test]
fn buffer_bounded_stream_keeps_limit_over_many_pushes() {
    let mut buffer = bounded_buffer(200);
    let samples = ramp(16_000);

    for chunk in samples.chunks(160) {
        buffer.push_samples(chunk);
        assert!(buffer.pending_samples() <= 200);
    }

    assert_eq!(buffer.total_input_samples(), 16_000);
    assert!(buffer.total_dropped_samples() > 0 || buffer.total_dropped_frames() > 0);
}

#[test]
fn buffer_accounts_for_every_sample() {
    let mut buffer = bounded_buffer(300);
    let samples = ramp(7_777);

    for chunk in samples.chunks(513) {
        buffer.push_samples(chunk);
        assert_eq!(
            buffer.total_input_samples(),
            buffer.total_consumed_samples()
                + buffer.total_dropped_samples()
                + buffer.pending_samples()
        );
        assert_eq!(
            buffer.total_consumed_samples(),
            buffer.total_emitted_frames() * 160
        );
    }
}

#[test]
fn buffer_rejects_push_whose_hop_overruns_input() {
    let app = AppConfig {
        sample_rate_hz: 1_000,
        channels: 1,
        frame_ms: 1,
        hop_ms: 3,
    };
    let mut buffer: StreamBuffer<f32> = StreamBuffer::new(StreamingConfig::new(app));

    assert!(!buffer.can_accept(1));
    assert!(buffer.can_accept(3));
    let out = buffer.push_samples(&[5.0, 6.0, 7.0]);

    assert_eq!(out.frames, vec![vec![5.0]]);
    assert_eq!(out.consumed_samples, 3);
    assert_eq!(out.pending_samples, 0);
}

#[test]
fn buffer_with_zero_hop_emits_nothing() {
    let app = AppConfig {
        sample_rate_hz: 16_000,
        channels: 1,
        frame_ms: 25,
        hop_ms: 0,
    };
    let mut buffer: StreamBuffer<f32> =
        StreamBuffer::new(StreamingConfig::with_max_pending_samples(app, 10));
    let out = buffer.push_samples(&vec![1.0; 1_000]);

    assert!(out.frames.is_empty());
    assert_eq!(out.dropped_samples, 0);
    assert_eq!(out.pending_samples, 1_000);
}

#[test]
fn streaming_output_counts_rows_and_first_row_bins() {
    let mut buffer = bounded_buffer(200);
    let outcome = buffer.push_samples(&vec![1.0; 1_600]);
    let features: Vec<Vec<f32>> = outcome.frames.iter().map(|frame| frame[..40].to_vec()).collect();
    let output = StreamingOutput::from_features(features, &outcome);

    assert_eq!(output.num_frames, 8);
    assert_eq!(output.num_bins, 40);
    assert_eq!(output.consumed_samples, 1_280);
    assert_eq!(output.pending_samples, 160);
    assert_eq!(output.dropped_samples, 160);
    assert_eq!(output.dropped_frames, 1);
    assert_eq!(output.peak_pending_samples, 1_600);
}

#[test]
fn streaming_output_without_frames_has_no_bins() {
    let mut buffer = default_buffer();
    let outcome = buffer.push_samples(&vec![1.0; 10]);
    let output: StreamingOutput<f32> = StreamingOutput::from_features(Vec::new(), &outcome);

    assert_eq!(output.num_frames, 0);
    assert_eq!(output.num_bins, 0);
    assert_eq!(output.pending_samples, 10);
}
