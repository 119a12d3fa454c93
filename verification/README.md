# signalflow_rs

A log-Mel audio feature frontend whose integer core is verified with Verus.

- `src/` is the verified library: the audio configuration (`config`),
  framing of a sample sequence into overlapping frames (`framing`), the
  streaming buffer that cuts frames across pushes, compacts its storage and
  enforces a pending-sample limit (`streaming`), assembly of feature matrices
  and batch totals (`extractor`), the choice of WAV sample decoding (`wav`),
  and small configuration types (`preprocess`, `metrics`, `window`). The
  framing and streaming code is generic over the sample type.
- `app/` is the program around it: the floating-point DSP (Hann window, FFT
  power spectrum through `rustfft`, Mel filterbank, log compression,
  resampling, downmixing), WAV reading through `hound`, timing and
  benchmark reports, and the demo `main`.
- `tests/` exercises the library on `f32` samples and integer data.
