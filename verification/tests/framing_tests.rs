use signalflow_rs::framing::{frame_signal, FrameConfig};

#[test]
fn returns_empty_for_short_input() {
    let samples = [1.0_f32; 399];

    assert!(frame_signal(&samples, FrameConfig::new(400, 160)).is_empty());
}

#[test]
fn returns_empty_for_zero_frame_size() {
    let samples = [1.0_f32; 10];

    assert!(frame_signal(&samples, FrameConfig::new(0, 160)).is_empty());
}

#[test]
fn returns_empty_for_zero_hop_size() {
    let samples = [1.0_f32; 10];

    assert!(frame_signal(&samples, FrameConfig::new(400, 0)).is_empty());
}

#[test]
fn frames_exact_default_audio_shape() {
    let samples: Vec<f32> = (0..1_600).map(|i| i as f32).collect();
    let frames = frame_signal(&samples, FrameConfig::new(400, 160));

    assert_eq!(frames.len(), 8);
    assert!(frames.iter().all(|frame| frame.len() == 400));
}

#[test]
fn preserves_frame_contents() {
    let samples: Vec<f32> = (0..1_600).map(|i| i as f32).collect();
    let frames = frame_signal(&samples, FrameConfig::new(400, 160));

    assert_eq!(frames[0][0], 0.0);
    assert_eq!(frames[1][0], 160.0);
    assert_eq!(frames[7][0], 1_120.0);
}

#[test]
fn frame_config_new_keeps_fields() {
    let config = FrameConfig::new(400, 160);

    assert_eq!(config.frame_size_samples, 400);
    assert_eq!(config.hop_size_samples, 160);
}

#[test]
fn exact_fit_includes_last_frame() {
    let samples: Vec<u32> = (0..10).collect();
    let frames = frame_signal(&samples, FrameConfig::new(4, 3));

    assert_eq!(frames, vec![vec![0, 1, 2, 3], vec![3, 4, 5, 6], vec![6, 7, 8, 9]]);
}

#[test]
fn hop_larger_than_frame_skips_samples() {
    let samples: Vec<u32> = (0..10).collect();
    let frames = frame_signal(&samples, FrameConfig::new(2, 4));

    assert_eq!(frames, vec![vec![0, 1], vec![4, 5], vec![8, 9]]);
}

#[test]
fn single_frame_when_input_equals_frame_size() {
    let samples = [7_i16; 5];
    let frames = frame_signal(&samples, FrameConfig::new(5, 100));

    assert_eq!(frames, vec![vec![7_i16; 5]]);
}

#[test]
fn huge_hop_does_not_overflow() {
    let samples: Vec<u8> = (0..10).collect();
    let frames = frame_signal(&samples, FrameConfig::new(3, usize::MAX));

    assert_eq!(frames, vec![vec![0, 1, 2]]);
}
