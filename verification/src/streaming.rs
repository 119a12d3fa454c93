use vstd::prelude::*;

use crate::config::AppConfig;
use crate::extractor::leading_row_len;
use crate::framing::{frame_count, frame_signal, lemma_frame_fits, rows_view, window_frames, FrameConfig};

verus! {

/// Streaming configuration: the audio configuration and an optional bound on
/// the number of samples that may stay pending between pushes.
#[derive(Debug, Clone, Copy, PartialEq, Eq)]
pub struct StreamingConfig {
    pub app: AppConfig,
    pub max_pending_samples: Option<usize>,
}

impl StreamingConfig {
    /// An unbounded configuration.
    pub fn new(app: AppConfig) -> (config: Self)
        ensures
            config.app == app,
            config.max_pending_samples == None::<usize>,
    {
        StreamingConfig { app, max_pending_samples: None }
    }

    /// A configuration that keeps at most `max_pending_samples` pending.
    pub fn with_max_pending_samples(app: AppConfig, max_pending_samples: usize) -> (config: Self)
        ensures
            config.app == app,
            config.max_pending_samples == Some(max_pending_samples),
    {
        StreamingConfig { app, max_pending_samples: Some(max_pending_samples) }
    }
}

/// `x` rounded up to the next multiple of `m`.
pub open spec fn round_up_to_multiple(x: nat, m: nat) -> nat {
    if x % m == 0 {
        x
    } else {
        (x + (m - x % m)) as nat
    }
}

/// How many of `len` pending samples are dropped from the front under the
/// optional `limit`: nothing without a limit, within the limit, or without a
/// hop; otherwise the excess rounded up to whole hops, but never more than
/// everything that is pending.
pub open spec fn drop_count(len: nat, limit: Option<usize>, hop: nat) -> nat {
    match limit {
        None => 0,
        Some(l) => if len <= l || hop == 0 {
            0
        } else {
            let up = round_up_to_multiple((len - l) as nat, hop);
            if up <= len {
                up
            } else {
                len
            }
        },
    }
}

/// Four hops, saturating at `usize::MAX`.
pub open spec fn four_hops_saturating(hop: nat) -> nat {
    if 4 * hop <= usize::MAX {
        4 * hop
    } else {
        usize::MAX as nat
    }
}

/// The consumed prefix of `read_offset` samples out of `len` stored ones is
/// discarded once it is non-empty and at least four hops long (saturating) or
/// at least half the storage.
pub open spec fn compaction_due(read_offset: nat, len: nat, hop: nat) -> bool {
    read_offset != 0 && (read_offset >= four_hops_saturating(hop) || read_offset >= len / 2)
}

/// Number of whole hops in `dropped` samples (zero without a hop).
pub open spec fn dropped_frame_count(dropped: nat, hop: nat) -> nat {
    if hop == 0 {
        0
    } else {
        dropped / hop
    }
}

/// The observable state of a stream buffer.
pub struct StreamState<T> {
    /// Samples received but neither consumed by a frame nor dropped, oldest first.
    pub pending: Seq<T>,
    pub frame_size: nat,
    pub hop_size: nat,
    pub limit: Option<usize>,
    pub total_input: nat,
    pub total_emitted_frames: nat,
    pub total_consumed: nat,
    pub total_dropped_samples: nat,
    pub total_dropped_frames: nat,
    pub peak_pending: nat,
}

impl<T> StreamState<T> {
    /// The pending samples followed by newly pushed ones.
    pub open spec fn joined(self, input: Seq<T>) -> Seq<T> {
        self.pending + input
    }

    /// Number of frames a push of `input` emits.
    pub open spec fn frames_ready(self, input: Seq<T>) -> nat {
        frame_count(self.joined(input).len(), self.frame_size, self.hop_size)
    }

    /// The frames a push of `input` emits, in order.
    pub open spec fn emitted(self, input: Seq<T>) -> Seq<Seq<T>> {
        window_frames(self.joined(input), self.frame_size, self.hop_size)
    }

    /// Samples a push of `input` consumes: one hop per emitted frame.
    pub open spec fn consumed_by(self, input: Seq<T>) -> nat {
        self.frames_ready(input) * self.hop_size
    }

    /// What stays pending after the frames of a push of `input` are taken,
    /// before the limit is applied.
    pub open spec fn unconsumed(self, input: Seq<T>) -> Seq<T> {
        self.joined(input).skip(self.consumed_by(input) as int)
    }

    /// Samples the limit drops during a push of `input`.
    pub open spec fn dropped_by(self, input: Seq<T>) -> nat {
        drop_count(self.unconsumed(input).len(), self.limit, self.hop_size)
    }

    /// A push of `input_len` samples is one the buffer can take: the running input total
    /// fits in a `usize`, and the hop after the last emitted frame does not
    /// reach past the end of the pending samples.
    pub open spec fn accepts(self, input_len: nat) -> bool {
        let len = self.pending.len() + input_len;
        &&& self.total_input + input_len <= usize::MAX
        &&& frame_count(len, self.frame_size, self.hop_size) * self.hop_size <= len
    }

    /// The state after pushing `input`.
    pub open spec fn after_push(self, input: Seq<T>) -> StreamState<T> {
        let joined = self.joined(input);
        let dropped = self.dropped_by(input);
        StreamState {
            pending: self.unconsumed(input).skip(dropped as int),
            frame_size: self.frame_size,
            hop_size: self.hop_size,
            limit: self.limit,
            total_input: self.total_input + input.len(),
            total_emitted_frames: self.total_emitted_frames + self.frames_ready(input),
            total_consumed: self.total_consumed + self.consumed_by(input),
            total_dropped_samples: self.total_dropped_samples + dropped,
            total_dropped_frames: self.total_dropped_frames + dropped_frame_count(
                dropped,
                self.hop_size,
            ),
            peak_pending: if joined.len() > self.peak_pending {
                joined.len()
            } else {
                self.peak_pending
            },
        }
    }

    /// Every sample received is consumed, dropped or pending; every emitted
    /// frame consumed one hop; every dropped frame stands for a hop of dropped
    /// samples; the peak is at least what is pending now; the input total fits
    /// a `usize`; and what is pending is too short to make a frame.
    pub open spec fn valid(self) -> bool {
        &&& self.total_input == self.total_consumed + self.total_dropped_samples
            + self.pending.len()
        &&& self.total_consumed == self.total_emitted_frames * self.hop_size
        &&& self.total_dropped_frames * self.hop_size <= self.total_dropped_samples
        &&& self.hop_size == 0 ==> self.total_dropped_frames == 0
        &&& self.peak_pending >= self.pending.len()
        &&& self.total_input <= usize::MAX
        &&& frame_count(self.pending.len(), self.frame_size, self.hop_size) == 0
    }
}

/// What one push hands back: the frames now complete, in order, and the
/// bookkeeping of that push.
#[derive(Debug, Clone, PartialEq)]
pub struct PushOutcome<T> {
    pub frames: Vec<Vec<T>>,
    pub consumed_samples: usize,
    pub pending_samples: usize,
    pub dropped_samples: usize,
    pub dropped_frames: usize,
    pub peak_pending_samples: usize,
}

/// The result of one streaming push: the features computed from each emitted
/// frame, with their count, the length of the first feature row (zero when
/// there is none), and the bookkeeping of the push.
#[derive(Debug, Clone, PartialEq)]
pub struct StreamingOutput<F> {
    pub features: Vec<Vec<F>>,
    pub num_frames: usize,
    pub num_bins: usize,
    pub consumed_samples: usize,
    pub pending_samples: usize,
    pub dropped_samples: usize,
    pub dropped_frames: usize,
    pub peak_pending_samples: usize,
}

impl<F> StreamingOutput<F> {
    /// Pairs the feature rows computed from the frames of `outcome` with the
    /// bookkeeping of that push.
    pub fn from_features<T>(features: Vec<Vec<F>>, outcome: &PushOutcome<T>) -> (output: Self)
        ensures
            output.features@ == features@,
            output.num_frames == features@.len(),
            output.num_bins == leading_row_len(features@),
            output.consumed_samples == outcome.consumed_samples,
            output.pending_samples == outcome.pending_samples,
            output.dropped_samples == outcome.dropped_samples,
            output.dropped_frames == outcome.dropped_frames,
            output.peak_pending_samples == outcome.peak_pending_samples,
    {
        let num_frames = features.len();
        let num_bins = if features.len() == 0 {
            0
        } else {
            features[0].len()
        };
        StreamingOutput {
            features,
            num_frames,
            num_bins,
            consumed_samples: outcome.consumed_samples,
            pending_samples: outcome.pending_samples,
            dropped_samples: outcome.dropped_samples,
            dropped_frames: outcome.dropped_frames,
            peak_pending_samples: outcome.peak_pending_samples,
        }
    }
}

/// Buffers a sample stream and cuts it into overlapping frames of the
/// configured size, one hop apart, across pushes of any size; optionally
/// bounds what stays pending by dropping whole hops from the front.
#[derive(Debug, Clone)]
pub struct StreamBuffer<T> {
    streaming_config: StreamingConfig,
    frame_size_samples: usize,
    hop_size_samples: usize,
    pending: Vec<T>,
    read_offset: usize,
    total_input_samples: usize,
    total_emitted_frames: usize,
    total_consumed_samples: usize,
    total_dropped_samples: usize,
    total_dropped_frames: usize,
    peak_pending_samples: usize,
}

impl<T> View for StreamBuffer<T> {
    type V = StreamState<T>;

    closed spec fn view(&self) -> StreamState<T> {
        StreamState {
            pending: self.pending@.skip(self.read_offset as int),
            frame_size: self.frame_size_samples as nat,
            hop_size: self.hop_size_samples as nat,
            limit: self.streaming_config.max_pending_samples,
            total_input: self.total_input_samples as nat,
            total_emitted_frames: self.total_emitted_frames as nat,
            total_consumed: self.total_consumed_samples as nat,
            total_dropped_samples: self.total_dropped_samples as nat,
            total_dropped_frames: self.total_dropped_frames as nat,
            peak_pending: self.peak_pending_samples as nat,
        }
    }
}

/// Removes the first `k` elements of `v`.
fn drop_front<T>(v: &mut Vec<T>, k: usize)
    requires
        k <= old(v)@.len(),
    ensures
        final(v)@ == old(v)@.skip(k as int),
{
    let tail = v.split_off(k);
    *v = tail;
}

/// Appends `items` to `v`.
fn append_all<T: Copy>(v: &mut Vec<T>, items: &[T])
    ensures
        final(v)@ == old(v)@ + items@,
{
    let mut i: usize = 0;
    while i < items.len()
        invariant
            i <= items@.len(),
            v@ == old(v)@ + items@.subrange(0, i as int),
        decreases items@.len() - i,
    {
        v.push(items[i]);
        assert(items@.subrange(0, i + 1) =~= items@.subrange(0, i as int).push(items@[i as int]));
        i = i + 1;
    }
    assert(items@.subrange(0, i as int) =~= items@);
}

impl<T: Copy> StreamBuffer<T> {
    /// Internal consistency of the buffer.
    pub closed spec fn wf(&self) -> bool {
        &&& self.read_offset <= self.pending@.len()
        &&& self.pending@.len() <= self.total_input_samples
        &&& self.frame_size_samples == self.streaming_config.app.spec_frame_size()
        &&& self.hop_size_samples == self.streaming_config.app.spec_hop_size()
        &&& self@.valid()
    }

    /// The configuration the buffer was made with.
    pub closed spec fn config(&self) -> StreamingConfig {
        self.streaming_config
    }

    /// An empty buffer for `streaming_config`.
    pub fn new(streaming_config: StreamingConfig) -> (buffer: Self)
        requires
            streaming_config.app.spec_frame_size() <= usize::MAX,
            streaming_config.app.spec_hop_size() <= usize::MAX,
        ensures
            buffer.wf(),
            buffer@.valid(),
            buffer.config() == streaming_config,
            buffer@.pending == Seq::<T>::empty(),
            buffer@.frame_size == streaming_config.app.spec_frame_size(),
            buffer@.hop_size == streaming_config.app.spec_hop_size(),
            buffer@.limit == streaming_config.max_pending_samples,
            buffer@.total_input == 0,
            buffer@.total_emitted_frames == 0,
            buffer@.total_consumed == 0,
            buffer@.total_dropped_samples == 0,
            buffer@.total_dropped_frames == 0,
            buffer@.peak_pending == 0,
    {
        let app = streaming_config.app;
        let frame_size_samples = app.frame_size_samples();
        let hop_size_samples = app.hop_size_samples();
        let buffer = StreamBuffer {
            streaming_config,
            frame_size_samples,
            hop_size_samples,
            pending: Vec::new(),
            read_offset: 0,
            total_input_samples: 0,
            total_emitted_frames: 0,
            total_consumed_samples: 0,
            total_dropped_samples: 0,
            total_dropped_frames: 0,
            peak_pending_samples: 0,
        };
        assert(buffer@.pending =~= Seq::<T>::empty());
        assert(0 * (hop_size_samples as nat) == 0) by (nonlinear_arith);
        assert(buffer@.valid());
        buffer
    }

    /// Appends `samples`, emits every frame that is now complete (frame
    /// starts one hop apart, continuing across pushes), and applies the
    /// pending limit, if any, by dropping whole hops from the front.
    pub fn push_samples(&mut self, samples: &[T]) -> (out: PushOutcome<T>)
        requires
            old(self).wf(),
            old(self)@.accepts(samples@.len()),
        ensures
            final(self).wf(),
            final(self)@.valid(),
            final(self).config() == old(self).config(),
            final(self)@ == old(self)@.after_push(samples@),
            rows_view(out.frames@) == old(self)@.emitted(samples@),
            out.consumed_samples == old(self)@.consumed_by(samples@),
            out.pending_samples == final(self)@.pending.len(),
            out.dropped_samples == old(self)@.dropped_by(samples@),
            out.dropped_frames == dropped_frame_count(
                old(self)@.dropped_by(samples@),
                old(self)@.hop_size,
            ),
            out.peak_pending_samples == final(self)@.peak_pending,
    {
        let ghost st0 = self@;
        let ghost input = samples@;
        let ghost joined = st0.joined(input);
        let hop = self.hop_size_samples;
        let frame = self.frame_size_samples;

        append_all(&mut self.pending, samples);
        assert(self.pending@.skip(self.read_offset as int) =~= joined);
        self.total_input_samples = self.total_input_samples + samples.len();

        let logical_pending_after_append = self.pending.len() - self.read_offset;
        if logical_pending_after_append > self.peak_pending_samples {
            self.peak_pending_samples = logical_pending_after_append;
        }

        let ready = vstd::slice::slice_subrange(
            self.pending.as_slice(),
            self.read_offset,
            self.pending.len(),
        );
        let frames = frame_signal(ready, FrameConfig::new(frame, hop));
        let count = frames.len();
        proof {
            assert(rows_view(frames@).len() == frames@.len());
            assert(count == st0.frames_ready(input));
            assert(count * hop <= joined.len());
        }
        let consumed_samples = count * hop;
        self.read_offset = self.read_offset + consumed_samples;
        proof {
            assert(self.pending@.skip(self.read_offset as int) =~= st0.unconsumed(input));
            if hop > 0 {
                assert(count <= count * hop) by (nonlinear_arith)
                    requires
                        hop > 0,
                ;
                assert(st0.total_emitted_frames * hop + count * hop == (st0.total_emitted_frames
                    + count) * hop) by (nonlinear_arith);
                assert(st0.total_emitted_frames <= st0.total_emitted_frames * hop)
                    by (nonlinear_arith)
                    requires
                        hop > 0,
                ;
            } else {
                assert(count == 0);
            }
        }
        self.total_consumed_samples = self.total_consumed_samples + consumed_samples;
        self.total_emitted_frames = self.total_emitted_frames + count;

        self.compact_if_needed();
        let (dropped_samples, dropped_frames) = self.enforce_pending_limit();
        proof {
            if hop > 0 {
                assert((dropped_samples as nat / hop as nat) * hop <= dropped_samples)
                    by (nonlinear_arith)
                    requires
                        hop > 0,
                ;
                assert(dropped_samples as nat / hop as nat <= dropped_samples)
                    by (nonlinear_arith)
                    requires
                        hop > 0,
                ;
                assert(st0.total_dropped_frames <= st0.total_dropped_frames * hop)
                    by (nonlinear_arith)
                    requires
                        hop > 0,
                ;
                assert(st0.total_dropped_frames * hop + (dropped_samples as nat / hop as nat)
                    * hop == (st0.total_dropped_frames + dropped_samples as nat / hop as nat)
                    * hop) by (nonlinear_arith);
            }
        }
        self.total_dropped_samples = self.total_dropped_samples + dropped_samples;
        self.total_dropped_frames = self.total_dropped_frames + dropped_frames;

        let pending_samples = self.pending.len() - self.read_offset;
        proof {
            assert(self@.pending =~= st0.after_push(input).pending);
            assert(self@ == st0.after_push(input));
            lemma_push_keeps_accounting(st0, input);
        }
        PushOutcome {
            frames,
            consumed_samples,
            pending_samples,
            dropped_samples,
            dropped_frames,
            peak_pending_samples: self.peak_pending_samples,
        }
    }

    /// Physically discards the consumed prefix once it is at least four hops
    /// long or at least half the storage; the pending samples are unchanged.
    fn compact_if_needed(&mut self)
        requires
            old(self).read_offset <= old(self).pending@.len(),
        ensures
            final(self)@ == old(self)@,
            final(self).streaming_config == old(self).streaming_config,
            final(self).read_offset <= final(self).pending@.len(),
            final(self).pending@.len() <= old(self).pending@.len(),
            compaction_due(
                old(self).read_offset as nat,
                old(self).pending@.len(),
                old(self).hop_size_samples as nat,
            ) ==> {
                &&& final(self).pending@ == old(self).pending@.skip(old(self).read_offset as int)
                &&& final(self).read_offset == 0
            },
            !compaction_due(
                old(self).read_offset as nat,
                old(self).pending@.len(),
                old(self).hop_size_samples as nat,
            ) ==> {
                &&& final(self).pending@ == old(self).pending@
                &&& final(self).read_offset == old(self).read_offset
            },
    {
        if self.read_offset == 0 {
            return;
        }
        let hop = self.hop_size_samples;
        let four_hops = if hop <= usize::MAX / 4 {
            hop * 4
        } else {
            usize::MAX
        };
        if self.read_offset >= four_hops || self.read_offset >= self.pending.len() / 2 {
            let ghost before = self.pending@.skip(self.read_offset as int);
            drop_front(&mut self.pending, self.read_offset);
            self.read_offset = 0;
            assert(self.pending@.skip(0) =~= before);
        }
    }

    /// Applies the pending limit: discards the consumed prefix, then drops
    /// `drop_count` samples from the front; returns the dropped samples and
    /// the whole hops they make up.
    fn enforce_pending_limit(&mut self) -> (dropped: (usize, usize))
        requires
            old(self).read_offset <= old(self).pending@.len(),
        ensures
            dropped.0 == drop_count(
                old(self)@.pending.len(),
                old(self)@.limit,
                old(self)@.hop_size,
            ),
            dropped.1 == dropped_frame_count(dropped.0 as nat, old(self)@.hop_size),
            final(self)@ == (StreamState { pending: old(self)@.pending.skip(dropped.0 as int), ..old(self)@ }),
            final(self).streaming_config == old(self).streaming_config,
            final(self).read_offset <= final(self).pending@.len(),
            final(self).pending@.len() <= old(self).pending@.len(),
    {
        let ghost logical = self@.pending;
        let limit = match self.streaming_config.max_pending_samples {
            None => {
                assert(logical.skip(0) =~= logical);
                return (0, 0);
            },
            Some(limit) => limit,
        };
        if self.read_offset > 0 {
            drop_front(&mut self.pending, self.read_offset);
            self.read_offset = 0;
        }
        assert(self.pending@.skip(0) =~= logical);
        assert(self.pending@ =~= logical);
        let len = self.pending.len();
        let hop = self.hop_size_samples;
        if len <= limit || hop == 0 {
            return (0, 0);
        }
        let mut dropped_samples = len - limit;
        let remainder = dropped_samples % hop;
        if remainder != 0 {
            let up = hop - remainder;
            if up <= len - dropped_samples {
                dropped_samples = dropped_samples + up;
            } else {
                dropped_samples = len;
            }
        }
        if dropped_samples == 0 {
            return (0, 0);
        }
        drop_front(&mut self.pending, dropped_samples);
        let dropped_frames = dropped_samples / hop;
        assert(self.pending@.skip(0) =~= logical.skip(dropped_samples as int));
        (dropped_samples, dropped_frames)
    }

    /// Whether a push of `input_len` samples is one the buffer can take (see
    /// `StreamState::accepts`).
    pub fn can_accept(&self, input_len: usize) -> (ok: bool)
        requires
            self.wf(),
        ensures
            ok == self@.accepts(input_len as nat),
    {
        if input_len > usize::MAX - self.total_input_samples {
            return false;
        }
        let len = (self.pending.len() - self.read_offset) + input_len;
        let frame = self.frame_size_samples;
        let hop = self.hop_size_samples;
        if frame == 0 || hop == 0 || len < frame {
            assert(0 * (hop as nat) == 0) by (nonlinear_arith);
            return true;
        }
        let count = (len - frame) / hop + 1;
        proof {
            lemma_mul_le_iff_le_div(count as nat, hop as nat, len as nat);
        }
        count <= len / hop
    }

    /// A well-formed buffer is in a valid state.
    pub proof fn lemma_wf_valid(&self)
        requires
            self.wf(),
        ensures
            self@.valid(),
    {
    }

    /// Samples pending: received but neither consumed nor dropped.
    pub fn pending_samples(&self) -> (n: usize)
        requires
            self.wf(),
        ensures
            n == self@.pending.len(),
    {
        self.pending.len() - self.read_offset
    }

    pub fn total_input_samples(&self) -> (n: usize)
        ensures
            n == self@.total_input,
    {
        self.total_input_samples
    }

    pub fn total_emitted_frames(&self) -> (n: usize)
        ensures
            n == self@.total_emitted_frames,
    {
        self.total_emitted_frames
    }

    pub fn total_consumed_samples(&self) -> (n: usize)
        ensures
            n == self@.total_consumed,
    {
        self.total_consumed_samples
    }

    pub fn total_dropped_samples(&self) -> (n: usize)
        ensures
            n == self@.total_dropped_samples,
    {
        self.total_dropped_samples
    }

    pub fn total_dropped_frames(&self) -> (n: usize)
        ensures
            n == self@.total_dropped_frames,
    {
        self.total_dropped_frames
    }

    /// The largest number of samples ever pending right after a push appended
    /// its input.
    pub fn peak_pending_samples(&self) -> (n: usize)
        ensures
            n == self@.peak_pending,
    {
        self.peak_pending_samples
    }

    /// Same as `peak_pending_samples`.
    pub fn max_pending_samples(&self) -> (n: usize)
        ensures
            n == self@.peak_pending,
    {
        self.peak_pending_samples
    }
}

/// Pushes `chunks` one after another, starting from `st`.
pub open spec fn push_all<T>(st: StreamState<T>, chunks: Seq<Seq<T>>) -> StreamState<T>
    decreases chunks.len(),
{
    if chunks.len() == 0 {
        st
    } else {
        push_all(st, chunks.drop_last()).after_push(chunks.last())
    }
}

/// All frames emitted while pushing `chunks` one after another from `st`.
pub open spec fn emitted_all<T>(st: StreamState<T>, chunks: Seq<Seq<T>>) -> Seq<Seq<T>>
    decreases chunks.len(),
{
    if chunks.len() == 0 {
        Seq::empty()
    } else {
        emitted_all(st, chunks.drop_last()) + push_all(st, chunks.drop_last()).emitted(
            chunks.last(),
        )
    }
}

/// Every push in the sequence is one the buffer can take.
pub open spec fn accepts_all<T>(st: StreamState<T>, chunks: Seq<Seq<T>>) -> bool
    decreases chunks.len(),
{
    chunks.len() == 0 || (accepts_all(st, chunks.drop_last()) && push_all(
        st,
        chunks.drop_last(),
    ).accepts(chunks.last().len()))
}

/// Two states that agree on everything but the peak.
pub open spec fn same_but_peak<T>(a: StreamState<T>, b: StreamState<T>) -> bool {
    &&& a.pending == b.pending
    &&& a.frame_size == b.frame_size
    &&& a.hop_size == b.hop_size
    &&& a.limit == b.limit
    &&& a.total_input == b.total_input
    &&& a.total_emitted_frames == b.total_emitted_frames
    &&& a.total_consumed == b.total_consumed
    &&& a.total_dropped_samples == b.total_dropped_samples
    &&& a.total_dropped_frames == b.total_dropped_frames
}

/// A push keeps the accounting: every sample received is consumed, dropped
/// or pending; each emitted frame consumed exactly one hop; each dropped frame
/// is a hop of dropped samples; the peak covers what is pending.
pub proof fn lemma_push_keeps_accounting<T>(st: StreamState<T>, input: Seq<T>)
    requires
        st.valid(),
        st.accepts(input.len()),
    ensures
        st.after_push(input).valid(),
{
    let next = st.after_push(input);
    let h = st.hop_size;
    let n = st.frames_ready(input);
    let d = st.dropped_by(input);
    let f = st.frame_size;
    let joined = st.joined(input);
    if f > 0 && h > 0 {
        lemma_frame_fits(joined.len(), f, h, n);
        lemma_frame_fits(next.pending.len(), f, h, 0);
    }
    assert(st.total_emitted_frames * h + n * h == (st.total_emitted_frames + n) * h)
        by (nonlinear_arith);
    if h > 0 {
        assert((d / h) * h <= d) by (nonlinear_arith)
            requires
                h > 0,
        ;
        assert(st.total_dropped_frames * h + (d / h) * h == (st.total_dropped_frames + d / h) * h)
            by (nonlinear_arith);
    }
}

/// With a pending limit and a non-empty hop, a push never leaves more than
/// the limit pending.
pub proof fn lemma_limit_bounds_pending<T>(st: StreamState<T>, input: Seq<T>, limit: usize)
    requires
        st.limit == Some(limit),
        st.hop_size > 0,
        st.accepts(input.len()),
    ensures
        st.after_push(input).pending.len() <= limit,
{
    let len = st.unconsumed(input).len();
    if len > limit {
        let x = (len - limit) as nat;
        let h = st.hop_size;
        assert(round_up_to_multiple(x, h) >= x);
    }
}

/// Without a pending limit nothing is ever dropped.
pub proof fn lemma_unbounded_never_drops<T>(st: StreamState<T>, input: Seq<T>)
    requires
        st.limit == None::<usize>,
    ensures
        st.dropped_by(input) == 0,
        st.after_push(input).total_dropped_samples == st.total_dropped_samples,
        st.after_push(input).total_dropped_frames == st.total_dropped_frames,
        st.after_push(input).pending == st.unconsumed(input),
{
    assert(st.unconsumed(input).skip(0) =~= st.unconsumed(input));
}

/// The peak never decreases and covers the samples pending after the push
/// appended its input.
pub proof fn lemma_peak_tracks_pending<T>(st: StreamState<T>, input: Seq<T>)
    ensures
        st.after_push(input).peak_pending >= st.peak_pending,
        st.after_push(input).peak_pending >= st.pending.len() + input.len(),
{
}

/// Every emitted frame holds exactly one frame's worth of samples.
pub proof fn lemma_emitted_frame_length<T>(st: StreamState<T>, input: Seq<T>, i: int)
    requires
        0 <= i < st.emitted(input).len(),
    ensures
        st.emitted(input)[i].len() == st.frame_size,
{
    lemma_frame_fits(st.joined(input).len(), st.frame_size, st.hop_size, i as nat);
}

/// When the hop is no longer than the frame, a push is refused only if the
/// running input total would overflow: the hop after the last frame can never
/// pass the end of the pending samples.
pub proof fn lemma_short_hop_accepts<T>(st: StreamState<T>, input_len: nat)
    requires
        st.hop_size <= st.frame_size,
        st.total_input + input_len <= usize::MAX,
    ensures
        st.accepts(input_len),
{
    let len = st.pending.len() + input_len;
    let n = frame_count(len, st.frame_size, st.hop_size);
    if n > 0 {
        lemma_frame_fits(len, st.frame_size, st.hop_size, (n - 1) as nat);
        assert(n * st.hop_size == ((n - 1) as nat) * st.hop_size + st.hop_size)
            by (nonlinear_arith)
            requires
                n > 0,
        ;
    } else {
        assert(0 * st.hop_size == 0) by (nonlinear_arith);
    }
}

/// Without a limit, pushing `x` and then `y` emits the same frames as pushing
/// `x + y` at once, and ends in the same state but for the peak, which is no
/// larger.
pub proof fn lemma_split_push<T>(st: StreamState<T>, x: Seq<T>, y: Seq<T>)
    requires
        st.limit == None::<usize>,
        st.accepts(x.len()),
        st.after_push(x).accepts(y.len()),
    ensures
        st.accepts((x + y).len()),
        st.emitted(x) + st.after_push(x).emitted(y) == st.emitted(x + y),
        same_but_peak(st.after_push(x).after_push(y), st.after_push(x + y)),
        st.after_push(x).after_push(y).peak_pending <= st.after_push(x + y).peak_pending,
{
    let f = st.frame_size;
    let h = st.hop_size;
    let a = st.joined(x);
    let c = st.joined(x + y);
    assert(c =~= a + y);
    let n = st.frames_ready(x);
    let mid = st.after_push(x);
    lemma_unbounded_never_drops(st, x);
    lemma_unbounded_never_drops(st, x + y);
    lemma_unbounded_never_drops(mid, y);
    assert(mid.pending == a.skip((n * h) as int));
    let b = mid.joined(y);
    assert(b =~= c.skip((n * h) as int));
    let m = mid.frames_ready(y);
    let k = st.frames_ready(x + y);
    if f == 0 || h == 0 {
        assert(st.emitted(x) =~= Seq::<Seq<T>>::empty());
        assert(mid.emitted(y) =~= Seq::<Seq<T>>::empty());
        assert(st.emitted(x + y) =~= Seq::<Seq<T>>::empty());
        assert(mid.after_push(y).pending =~= st.after_push(x + y).pending);
        return;
    }
    assert(n * h <= a.len());
    // Frame `n + j` of `c` is frame `j` of `b`: no frame `m` in `b` means no
    // frame `n + m` in `c`, and frame `m - 1` in `b` is frame `n + m - 1` in `c`.
    lemma_frame_fits(b.len(), f, h, m);
    lemma_frame_fits(c.len(), f, h, n + m);
    assert((n + m) * h == n * h + m * h) by (nonlinear_arith);
    if m > 0 {
        let j = (m - 1) as nat;
        lemma_frame_fits(b.len(), f, h, j);
        lemma_frame_fits(c.len(), f, h, n + j);
        assert((n + j) * h == n * h + j * h) by (nonlinear_arith);
    } else if n > 0 {
        // The first `n` frames of `c` are those of `a`.
        lemma_frame_fits(a.len(), f, h, (n - 1) as nat);
        lemma_frame_fits(c.len(), f, h, (n - 1) as nat);
    }
    assert(k == n + m);
    assert forall|i: int| 0 <= i < k implies (st.emitted(x) + mid.emitted(y))[i] == st.emitted(
        x + y,
    )[i] by {
        if i < n {
            lemma_frame_fits(a.len(), f, h, i as nat);
            assert(a.subrange(i * h, i * h + f) =~= c.subrange(i * h, i * h + f));
        } else {
            let j = i - n;
            lemma_frame_fits(b.len(), f, h, j as nat);
            assert(i * h == n * h + j * h) by (nonlinear_arith)
                requires
                    j == i - n,
            ;
            assert(b.subrange(j * h, j * h + f) =~= c.subrange(i * h, i * h + f));
        }
    }
    assert(st.emitted(x) + mid.emitted(y) =~= st.emitted(x + y));
    assert(n * h + m * h == k * h) by (nonlinear_arith)
        requires
            k == n + m,
    ;
    assert(mid.after_push(y).pending =~= st.after_push(x + y).pending);
}

/// Without a limit, pushing any sequence of chunks emits the same frames as
/// pushing their concatenation at once, and ends in the same state but for
/// the peak.
pub proof fn lemma_chunked_push<T>(st: StreamState<T>, chunks: Seq<Seq<T>>)
    requires
        st.valid(),
        st.limit == None::<usize>,
        accepts_all(st, chunks),
    ensures
        st.accepts(chunks.flatten().len()),
        emitted_all(st, chunks) == st.emitted(chunks.flatten()),
        same_but_peak(push_all(st, chunks), st.after_push(chunks.flatten())),
    decreases chunks.len(),
{
    if chunks.len() == 0 {
        let none = Seq::<T>::empty();
        assert(chunks.flatten() =~= none);
        assert(st.joined(none) =~= st.pending);
        assert(st.emitted(none) =~= Seq::<Seq<T>>::empty());
        assert(0 * st.hop_size == 0) by (nonlinear_arith);
        lemma_unbounded_never_drops(st, none);
        assert(st.after_push(none).pending =~= st.pending);
    } else {
        let init = chunks.drop_last();
        let last = chunks.last();
        assert(chunks =~= init.push(last));
        init.lemma_flatten_push(last);
        lemma_chunked_push(st, init);
        let flat = init.flatten();
        assert(push_all(st, init).accepts(last.len()));
        lemma_split_push(st, flat, last);
        assert(push_all(st, init).emitted(last) == st.after_push(flat).emitted(last));
    }
}

/// `c * h <= len` exactly when `c <= len / h`.
pub proof fn lemma_mul_le_iff_le_div(c: nat, h: nat, len: nat)
    requires
        h > 0,
    ensures
        (c * h <= len) <==> (c <= len / h),
{
    let q = len / h;
    let r = len % h;
    assert(len == q * h + r && r < h) by (nonlinear_arith)
        requires
            h > 0,
            q == len / h,
            r == len % h,
    ;
    if c <= q {
        assert(c * h <= q * h) by (nonlinear_arith)
            requires
                c <= q,
        ;
    } else {
        assert(c * h >= q * h + h) by (nonlinear_arith)
            requires
                c >= q + 1,
        ;
    }
}

/// From an empty, unbounded buffer, pushing any sequence of chunks emits
/// exactly the frames that framing the concatenated input in one go yields,
/// and leaves pending what follows the last consumed hop.
pub proof fn lemma_stream_matches_batch<T>(st: StreamState<T>, chunks: Seq<Seq<T>>)
    requires
        st.valid(),
        st.limit == None::<usize>,
        st.pending == Seq::<T>::empty(),
        accepts_all(st, chunks),
    ensures
        emitted_all(st, chunks) == window_frames(chunks.flatten(), st.frame_size, st.hop_size),
        push_all(st, chunks).total_emitted_frames == st.total_emitted_frames + frame_count(
            chunks.flatten().len(),
            st.frame_size,
            st.hop_size,
        ),
        push_all(st, chunks).pending == chunks.flatten().skip(
            (frame_count(chunks.flatten().len(), st.frame_size, st.hop_size)
                * st.hop_size) as int,
        ),
{
    lemma_chunked_push(st, chunks);
    assert(st.joined(chunks.flatten()) =~= chunks.flatten());
    lemma_unbounded_never_drops(st, chunks.flatten());
}

/// Above the limit, with a non-empty hop, the samples dropped are the
/// smallest whole number of hops that covers the excess, capped at
/// everything pending: at least the excess, less than the excess plus one
/// hop, at most what is pending, and a whole number of hops unless it is
/// everything pending. Within the limit, without a limit, or without a hop,
/// nothing is dropped.
pub proof fn lemma_drop_is_smallest_whole_hops(len: nat, limit: Option<usize>, hop: nat)
    ensures
        drop_count(len, limit, hop) <= len,
        (limit is None || hop == 0 || len <= limit->0) ==> drop_count(len, limit, hop) == 0,
        (limit is Some && hop > 0 && len > limit->0) ==> {
            let d = drop_count(len, limit, hop);
            let excess = (len - limit->0) as nat;
            &&& d >= excess
            &&& d < excess + hop
            &&& (d % hop == 0 || d == len)
        },
{
    if let Some(l) = limit {
        if hop > 0 && len > l {
            let x = (len - l) as nat;
            let q = x / hop;
            let r = x % hop;
            assert(x == q * hop + r && r < hop) by (nonlinear_arith)
                requires
                    hop > 0,
                    q == x / hop,
                    r == x % hop,
            ;
            if r != 0 {
                let up = (x + (hop - r)) as nat;
                assert(up == (q + 1) * hop) by (nonlinear_arith)
                    requires
                        x == q * hop + r,
                        up == x + (hop - r),
                ;
                assert(up % hop == 0) by (nonlinear_arith)
                    requires
                        up == (q + 1) * hop,
                        hop > 0,
                ;
            }
        }
    }
}

/// The dropped frame count is the number of whole hops in the dropped
/// samples: that many hops fit, one more does not.
pub proof fn lemma_dropped_frames_are_whole_hops(dropped: nat, hop: nat)
    requires
        hop > 0,
    ensures
        dropped_frame_count(dropped, hop) * hop <= dropped,
        dropped < (dropped_frame_count(dropped, hop) + 1) * hop,
{
    let q = dropped / hop;
    assert(q * hop <= dropped && dropped < (q + 1) * hop) by (nonlinear_arith)
        requires
            hop > 0,
            q == dropped / hop,
    ;
}

} // verus!
