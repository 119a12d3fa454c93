use vstd::prelude::*;

verus! {

/// A feature matrix: one row of feature values per frame, with the framing
/// parameters it was computed with.
#[derive(Debug, Clone, PartialEq)]
pub struct FeatureMatrix<T> {
    pub values: Vec<Vec<T>>,
    pub num_frames: usize,
    pub num_bins: usize,
    pub frame_size_samples: usize,
    pub hop_size_samples: usize,
    pub sample_rate_hz: u32,
}

/// Length of the first row, or zero when there is none.
pub open spec fn leading_row_len<T>(rows: Seq<Vec<T>>) -> nat {
    if rows.len() == 0 {
        0
    } else {
        rows[0]@.len()
    }
}

impl<T> FeatureMatrix<T> {
    /// Wraps `values`: the frame count is the number of rows and the bin count
    /// the length of the first row (zero without rows).
    pub fn from_rows(
        values: Vec<Vec<T>>,
        frame_size_samples: usize,
        hop_size_samples: usize,
        sample_rate_hz: u32,
    ) -> (matrix: Self)
        ensures
            matrix.values@ == values@,
            matrix.num_frames == values@.len(),
            matrix.num_bins == leading_row_len(values@),
            matrix.frame_size_samples == frame_size_samples,
            matrix.hop_size_samples == hop_size_samples,
            matrix.sample_rate_hz == sample_rate_hz,
    {
        let num_frames = values.len();
        let num_bins = if values.len() == 0 {
            0
        } else {
            values[0].len()
        };
        FeatureMatrix {
            values,
            num_frames,
            num_bins,
            frame_size_samples,
            hop_size_samples,
            sample_rate_hz,
        }
    }
}

/// Feature matrices of several buffers, with their totals.
#[derive(Debug, Clone, PartialEq)]
pub struct BatchFeatureSet<T> {
    pub items: Vec<FeatureMatrix<T>>,
    pub num_items: usize,
    pub total_frames: usize,
    pub num_bins: usize,
    pub sample_rate_hz: u32,
}

/// Sum of the frame counts of `items`.
pub open spec fn total_frames<T>(items: Seq<FeatureMatrix<T>>) -> nat
    decreases items.len(),
{
    if items.len() == 0 {
        0
    } else {
        total_frames(items.drop_last()) + items.last().num_frames as nat
    }
}

/// Bin count of the first item that has bins, or zero when none has.
pub open spec fn first_bin_count<T>(items: Seq<FeatureMatrix<T>>) -> nat
    decreases items.len(),
{
    if items.len() == 0 {
        0
    } else if items[0].num_bins > 0 {
        items[0].num_bins as nat
    } else {
        first_bin_count(items.drop_first())
    }
}

impl<T> BatchFeatureSet<T> {
    /// Gathers `items` in order with their count, their total frame count and
    /// the bin count of the first item that has bins; `None` exactly when the
    /// total frame count does not fit a `usize`.
    pub fn from_items(items: Vec<FeatureMatrix<T>>, sample_rate_hz: u32) -> (set: Option<Self>)
        ensures
            set is None <==> total_frames(items@) > usize::MAX,
            set matches Some(s) ==> {
                &&& s.items@ == items@
                &&& s.num_items == items@.len()
                &&& s.total_frames == total_frames(items@)
                &&& s.num_bins == first_bin_count(items@)
                &&& s.sample_rate_hz == sample_rate_hz
            },
    {
        let mut sum: usize = 0;
        let mut i: usize = 0;
        while i < items.len()
            invariant
                i <= items@.len(),
                sum == total_frames(items@.subrange(0, i as int)),
            decreases items@.len() - i,
        {
            assert(items@.subrange(0, i + 1).drop_last() =~= items@.subrange(0, i as int));
            let n = items[i].num_frames;
            if n > usize::MAX - sum {
                proof {
                    lemma_total_frames_prefix(items@, (i + 1) as nat);
                }
                return None;
            }
            sum = sum + n;
            i = i + 1;
        }
        assert(items@.subrange(0, i as int) =~= items@);
        let mut num_bins: usize = 0;
        let mut j: usize = 0;
        while j < items.len()
            invariant_except_break
                num_bins == 0,
            invariant
                j <= items@.len(),
                first_bin_count(items@) == first_bin_count(items@.subrange(j as int, items@.len() as int)),
            ensures
                num_bins == first_bin_count(items@),
            decreases items@.len() - j,
        {
            let ghost rest = items@.subrange(j as int, items@.len() as int);
            assert(rest.drop_first() =~= items@.subrange(j + 1, items@.len() as int));
            assert(rest[0] == items@[j as int]);
            if items[j].num_bins > 0 {
                num_bins = items[j].num_bins;
                break;
            }
            j = j + 1;
            proof {
                if j == items@.len() {
                    assert(items@.subrange(j as int, items@.len() as int).len() == 0);
                }
            }
        }
        let num_items = items.len();
        Some(BatchFeatureSet { items, num_items, total_frames: sum, num_bins, sample_rate_hz })
    }
}

/// A prefix never has more frames than the whole.
pub proof fn lemma_total_frames_prefix<T>(items: Seq<FeatureMatrix<T>>, k: nat)
    requires
        k <= items.len(),
    ensures
        total_frames(items.subrange(0, k as int)) <= total_frames(items),
    decreases items.len() - k,
{
    if k < items.len() {
        lemma_total_frames_prefix(items, k + 1);
        assert(items.subrange(0, (k + 1) as int).drop_last() =~= items.subrange(0, k as int));
    } else {
        assert(items.subrange(0, k as int) =~= items);
    }
}

/// The bin count of a set of rows is the length of its first row, or zero
/// when there are no rows; rows all of one length give that length.
pub proof fn lemma_leading_row_len_is_first_row<T>(rows: Seq<Vec<T>>, width: nat)
    ensures
        rows.len() == 0 ==> leading_row_len(rows) == 0,
        rows.len() > 0 ==> leading_row_len(rows) == rows[0]@.len(),
        (rows.len() > 0 && forall|i: int| 0 <= i < rows.len() ==> (#[trigger] rows[i])@.len()
            == width) ==> leading_row_len(rows) == width,
{
    if rows.len() > 0 {
        assert(rows[0]@.len() == rows[0]@.len());
    }
}

/// The batch bin count is the bin count of the earliest item that has bins,
/// and zero exactly when no item has any.
pub proof fn lemma_first_bin_count_is_earliest<T>(items: Seq<FeatureMatrix<T>>)
    ensures
        (forall|i: int| 0 <= i < items.len() ==> (#[trigger] items[i]).num_bins == 0) ==> first_bin_count(items) == 0,
        (exists|i: int| 0 <= i < items.len() && (#[trigger] items[i]).num_bins > 0) ==> exists|j: int|
            {
                &&& 0 <= j < items.len()
                &&& (#[trigger] items[j]).num_bins > 0
                &&& first_bin_count(items) == items[j].num_bins
                &&& forall|i: int| 0 <= i < j ==> (#[trigger] items[i]).num_bins == 0
            },
    decreases items.len(),
{
    if items.len() > 0 {
        let rest = items.drop_first();
        lemma_first_bin_count_is_earliest(rest);
        if items[0].num_bins > 0 {
            assert(items[0].num_bins > 0);
        } else {
            assert forall|i: int| 0 <= i < rest.len() implies #[trigger] rest[i] == items[i + 1] by {}
            if exists|i: int| 0 <= i < items.len() && (#[trigger] items[i]).num_bins > 0 {
                let i = choose|i: int| 0 <= i < items.len() && (#[trigger] items[i]).num_bins > 0;
                assert(rest[i - 1].num_bins > 0);
                let j = choose|j: int|
                    {
                        &&& 0 <= j < rest.len()
                        &&& (#[trigger] rest[j]).num_bins > 0
                        &&& first_bin_count(rest) == rest[j].num_bins
                        &&& forall|k: int| 0 <= k < j ==> (#[trigger] rest[k]).num_bins == 0
                    };
                assert(items[j + 1].num_bins > 0);
                assert forall|k: int| 0 <= k < j + 1 implies (#[trigger] items[k]).num_bins == 0 by {
                    if k > 0 {
                        assert(rest[k - 1].num_bins == 0);
                    }
                }
            } else {
                assert forall|i: int| 0 <= i < rest.len() implies (#[trigger] rest[i]).num_bins == 0 by {
                    assert(items[i + 1].num_bins == 0);
                }
            }
        }
    }
}

} // verus!
