use vstd::prelude::*;

verus! {

/// Frame length and hop between consecutive frame starts, in samples.
#[derive(Debug, Clone, Copy, PartialEq, Eq)]
pub struct FrameConfig {
    pub frame_size_samples: usize,
    pub hop_size_samples: usize,
}

impl FrameConfig {
    pub fn new(frame_size_samples: usize, hop_size_samples: usize) -> (config: Self)
        ensures
            config.frame_size_samples == frame_size_samples,
            config.hop_size_samples == hop_size_samples,
    {
        FrameConfig { frame_size_samples, hop_size_samples }
    }
}

/// Number of complete frames of length `frame` whose starts are the
/// multiples of `hop` and that fit inside `len` samples; zero when either the
/// frame or the hop is empty.
pub open spec fn frame_count(len: nat, frame: nat, hop: nat) -> nat {
    if frame == 0 || hop == 0 || len < frame {
        0
    } else {
        ((len - frame) as nat / hop + 1) as nat
    }
}

/// The frames of `s`: the `i`-th frame is `s[i * hop .. i * hop + frame]`, for
/// every `i` whose frame lies entirely inside `s`.
pub open spec fn window_frames<T>(s: Seq<T>, frame: nat, hop: nat) -> Seq<Seq<T>> {
    Seq::new(frame_count(s.len(), frame, hop), |i: int| s.subrange(i * hop, i * hop + frame))
}

/// The contents of a vector of vectors, as a sequence of sequences.
pub open spec fn rows_view<T>(rows: Seq<Vec<T>>) -> Seq<Seq<T>> {
    rows.map_values(|row: Vec<T>| row@)
}

/// A frame start `k * hop` still has a complete frame of `frame` samples
/// inside `len` samples exactly when `k` is below the frame count.
pub proof fn lemma_frame_fits(len: nat, frame: nat, hop: nat, k: nat)
    requires
        frame > 0,
        hop > 0,
    ensures
        (k * hop + frame <= len) <==> (k < frame_count(len, frame, hop)),
{
    if len >= frame {
        let q = ((len - frame) as nat / hop) as nat;
        let r = ((len - frame) as nat % hop) as nat;
        assert((len - frame) as nat == q * hop + r && r < hop) by (nonlinear_arith)
            requires
                hop > 0,
                q == ((len - frame) as nat / hop),
                r == ((len - frame) as nat % hop),
        ;
        if k <= q {
            assert(k * hop <= q * hop) by (nonlinear_arith)
                requires
                    k <= q,
            ;
        } else {
            assert(k * hop >= (q + 1) * hop) by (nonlinear_arith)
                requires
                    k >= q + 1,
            ;
            assert((q + 1) * hop == q * hop + hop) by (nonlinear_arith);
        }
    }
}

/// The last frame ends inside the input: every frame start below the count
/// leaves room for a whole frame.
pub proof fn lemma_frame_within(len: nat, frame: nat, hop: nat, i: nat)
    requires
        i < frame_count(len, frame, hop),
    ensures
        i * hop + frame <= len,
{
    lemma_frame_fits(len, frame, hop, i);
}

/// Every frame of `s` holds exactly `frame` consecutive samples of `s`,
/// starting at a multiple of `hop`.
pub proof fn lemma_window_frame_shape<T>(s: Seq<T>, frame: nat, hop: nat, i: int)
    requires
        0 <= i < window_frames(s, frame, hop).len(),
    ensures
        window_frames(s, frame, hop)[i].len() == frame,
        forall|j: int|
            0 <= j < frame ==> #[trigger] window_frames(s, frame, hop)[i][j] == s[i * hop + j],
{
    lemma_frame_fits(s.len(), frame, hop, i as nat);
}

/// Splits `samples` into frames of `config.frame_size_samples` samples whose
/// starts advance by `config.hop_size_samples`; trailing samples that do not
/// fill a frame are left out, and an empty frame or hop yields no frames.
pub fn frame_signal<T: Copy>(samples: &[T], config: FrameConfig) -> (frames: Vec<Vec<T>>)
    ensures
        rows_view(frames@) == window_frames(
            samples@,
            config.frame_size_samples as nat,
            config.hop_size_samples as nat,
        ),
{
    let frame = config.frame_size_samples;
    let hop = config.hop_size_samples;
    let ghost target = window_frames(samples@, frame as nat, hop as nat);
    let mut frames: Vec<Vec<T>> = Vec::new();
    if frame == 0 || hop == 0 {
        assert(rows_view(frames@) =~= target);
        return frames;
    }
    if samples.len() < frame {
        assert(rows_view(frames@) =~= target);
        return frames;
    }
    let ghost n = frame_count(samples@.len(), frame as nat, hop as nat);
    let mut start: usize = 0;
    let ghost mut k: nat = 0;
    proof {
        lemma_frame_fits(samples@.len(), frame as nat, hop as nat, 0);
    }
    loop
        invariant_except_break
            start == k * hop,
            k < n,
        invariant
            frame > 0,
            hop > 0,
            target == window_frames(samples@, frame as nat, hop as nat),
            n == frame_count(samples@.len(), frame as nat, hop as nat),
            k <= n,
            frames@.len() == k,
            forall|j: int| 0 <= j < k ==> (#[trigger] frames@[j])@ == target[j],
        ensures
            k == n,
        decreases n - k,
    {
        proof {
            lemma_frame_fits(samples@.len(), frame as nat, hop as nat, k);
            assert(k * hop + frame <= samples@.len());
            assert(start + frame <= samples@.len());
            assert(samples@.len() == samples.len());
        }
        let row = copy_range(samples, start, start + frame);
        frames.push(row);
        proof {
            k = k + 1;
            assert(k * hop == start + hop) by (nonlinear_arith)
                requires
                    start == (k - 1) * hop,
                    k >= 1,
            ;
            lemma_frame_fits(samples@.len(), frame as nat, hop as nat, k);
        }
        if samples.len() - start - frame < hop {
            break;
        }
        start = start + hop;
    }
    assert(rows_view(frames@) =~= target);
    frames
}

/// Copies `samples[from..to]` into a new vector.
fn copy_range<T: Copy>(samples: &[T], from: usize, to: usize) -> (out: Vec<T>)
    requires
        from <= to <= samples@.len(),
    ensures
        out@ == samples@.subrange(from as int, to as int),
{
    let mut out: Vec<T> = Vec::new();
    let mut i = from;
    while i < to
        invariant
            from <= i <= to <= samples@.len(),
            out@ == samples@.subrange(from as int, i as int),
        decreases to - i,
    {
        out.push(samples[i]);
        assert(out@ =~= samples@.subrange(from as int, i + 1));
        i = i + 1;
    }
    out
}

} // verus!
