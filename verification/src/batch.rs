use crate::item::{FSRSItem, FSRSReview};
use vstd::prelude::*;

verus! {

/// The value that stands in a history tensor where an item has no review.
pub const PAD: u32 = 0;

/// The number of reviews before the current one.
pub open spec fn history_len(item: Seq<FSRSReview>) -> nat {
    if item.len() == 0 {
        0
    } else {
        (item.len() - 1) as nat
    }
}

/// The length of the longest history among `items`, 0 where there is none.
pub open spec fn pad_size(items: Seq<Seq<FSRSReview>>) -> nat
    decreases items.len(),
{
    if items.len() == 0 {
        0
    } else {
        let rest = pad_size(items.drop_last());
        let own = history_len(items.last());
        if own > rest {
            own
        } else {
            rest
        }
    }
}

/// The interval of the review at time step `t` of an item's history, and
/// `PAD` past the end of the history.
pub open spec fn padded_delta_t(item: Seq<FSRSReview>, t: int) -> u32 {
    if 0 <= t < history_len(item) {
        item[t].delta_t
    } else {
        PAD
    }
}

/// The rating of the review at time step `t` of an item's history, and
/// `PAD` past the end of the history.
pub open spec fn padded_rating(item: Seq<FSRSReview>, t: int) -> u32 {
    if 0 <= t < history_len(item) {
        item[t].rating
    } else {
        PAD
    }
}

/// The recall outcome of a rating: 0 for a lapse (rating 1), else 1.
pub open spec fn label_of(rating: u32) -> u32 {
    if rating == 1 {
        0
    } else {
        1
    }
}

/// What a batch holds, as mathematical sequences. The two history tensors
/// are time-major: `t_historys[t][i]` belongs to time step `t` of item `i`.
pub struct BatchView {
    pub t_historys: Seq<Seq<u32>>,
    pub r_historys: Seq<Seq<u32>>,
    pub delta_ts: Seq<u32>,
    pub labels: Seq<u32>,
}

/// The batch made of `items`: histories padded to `pad_size(items)` time
/// steps, the interval of each current review, and its recall outcome.
pub open spec fn batch_of(items: Seq<Seq<FSRSReview>>) -> BatchView {
    BatchView {
        t_historys: Seq::new(
            pad_size(items),
            |t: int| Seq::new(items.len(), |i: int| padded_delta_t(items[i], t)),
        ),
        r_historys: Seq::new(
            pad_size(items),
            |t: int| Seq::new(items.len(), |i: int| padded_rating(items[i], t)),
        ),
        delta_ts: Seq::new(items.len(), |i: int| items[i].last().delta_t),
        labels: Seq::new(items.len(), |i: int| label_of(items[i].last().rating)),
    }
}

/// A batch of items as rectangular tables of integers.
#[derive(Debug)]
pub struct FSRSBatch {
    /// Intervals of the histories, one row per time step, one column per item.
    pub t_historys: Vec<Vec<u32>>,
    /// Ratings of the histories, laid out like `t_historys`.
    pub r_historys: Vec<Vec<u32>>,
    /// The interval before each item's current review.
    pub delta_ts: Vec<u32>,
    /// 1 where the current review was a success, 0 where it was a lapse.
    pub labels: Vec<u32>,
}

impl FSRSBatch {
    /// The number of items in the batch.
    pub open spec fn batch_size(&self) -> nat {
        self.delta_ts@.len()
    }

    /// The number of time steps in the history tensors.
    pub open spec fn pad_size(&self) -> nat {
        self.t_historys@.len()
    }

    /// The tensors of a batch fit together: both history tensors have the
    /// same number of time steps, and every row of them, like the two other
    /// tensors, has one entry for each item.
    pub open spec fn well_formed(&self) -> bool {
        &&& self.r_historys@.len() == self.pad_size()
        &&& self.labels@.len() == self.batch_size()
        &&& forall|t: int|
            0 <= t < self.pad_size() ==> (#[trigger] self.t_historys@[t])@.len()
                == self.batch_size()
        &&& forall|t: int|
            0 <= t < self.pad_size() ==> (#[trigger] self.r_historys@[t])@.len()
                == self.batch_size()
    }
}

impl View for FSRSBatch {
    type V = BatchView;

    open spec fn view(&self) -> BatchView {
        BatchView {
            t_historys: self.t_historys.deep_view(),
            r_historys: self.r_historys.deep_view(),
            delta_ts: self.delta_ts@,
            labels: self.labels@,
        }
    }
}

/// A copy of a table, row by row.
fn clone_table(table: &Vec<Vec<u32>>) -> (copy: Vec<Vec<u32>>)
    ensures
        copy.deep_view() == table.deep_view(),
{
    let mut copy: Vec<Vec<u32>> = Vec::with_capacity(table.len());
    let mut t: usize = 0;
    while t < table.len()
        invariant
            t <= table.len(),
            copy@.len() == t,
            forall|k: int| 0 <= k < t ==> (#[trigger] copy@[k])@ == table@[k]@,
        decreases table.len() - t,
    {
        let row = table[t].clone();
        copy.push(row);
        t += 1;
    }
    copy
}

impl Clone for FSRSBatch {
    fn clone(&self) -> (copy: Self)
        ensures
            copy@ == self@,
    {
        let delta_ts = self.delta_ts.clone();
        let labels = self.labels.clone();
        FSRSBatch {
            t_historys: clone_table(&self.t_historys),
            r_historys: clone_table(&self.r_historys),
            delta_ts,
            labels,
        }
    }
}

/// Turns lists of items into batches, for the device it was made with.
pub struct FSRSBatcher<D> {
    device: D,
}

/// The longest history among `items`.
fn longest_history(items: &Vec<FSRSItem>) -> (pad: usize)
    requires
        forall|i: int| 0 <= i < items@.len() ==> items@[i].well_formed(),
    ensures
        pad == pad_size(items.deep_view()),
{
    let mut pad: usize = 0;
    let mut i: usize = 0;
    while i < items.len()
        invariant
            i <= items.len(),
            forall|k: int| 0 <= k < items@.len() ==> items@[k].well_formed(),
            pad == pad_size(items.deep_view().take(i as int)),
        decreases items.len() - i,
    {
        let own = items[i].reviews.len() - 1;
        proof {
            let views = items.deep_view();
            assert(views.take(i + 1).drop_last() =~= views.take(i as int));
        }
        if own > pad {
            pad = own;
        }
        i += 1;
    }
    proof {
        assert(items.deep_view().take(i as int) =~= items.deep_view());
    }
    pad
}

/// The intervals and the ratings of an item's history, each filled up with
/// `PAD` to `pad` entries.
fn padded_history(item: &FSRSItem, pad: usize) -> (rows: (Vec<u32>, Vec<u32>))
    requires
        item.well_formed(),
        history_len(item@) <= pad,
    ensures
        rows.0@ == Seq::new(pad as nat, |t: int| padded_delta_t(item@, t)),
        rows.1@ == Seq::new(pad as nat, |t: int| padded_rating(item@, t)),
{
    let history = item.history();
    let mut delta_t: Vec<u32> = Vec::with_capacity(pad);
    let mut rating: Vec<u32> = Vec::with_capacity(pad);
    let mut t: usize = 0;
    while t < pad
        invariant
            t <= pad,
            item.well_formed(),
            history@ == item@.drop_last(),
            delta_t@ == Seq::new(t as nat, |k: int| padded_delta_t(item@, k)),
            rating@ == Seq::new(t as nat, |k: int| padded_rating(item@, k)),
        decreases pad - t,
    {
        if t < history.len() {
            delta_t.push(history[t].delta_t);
            rating.push(history[t].rating);
        } else {
            delta_t.push(PAD);
            rating.push(PAD);
        }
        t += 1;
    }
    (delta_t, rating)
}

/// Swaps rows and columns of a table whose rows all have `width` entries.
fn transpose(rows: &Vec<Vec<u32>>, width: usize) -> (columns: Vec<Vec<u32>>)
    requires
        forall|i: int| 0 <= i < rows@.len() ==> (#[trigger] rows@[i])@.len() == width,
    ensures
        columns.deep_view() == Seq::new(
            width as nat,
            |t: int| Seq::new(rows@.len(), |i: int| rows@[i]@[t]),
        ),
{
    let mut columns: Vec<Vec<u32>> = Vec::with_capacity(width);
    let mut t: usize = 0;
    while t < width
        invariant
            t <= width,
            columns@.len() == t,
            forall|i: int| 0 <= i < rows@.len() ==> (#[trigger] rows@[i])@.len() == width,
            columns.deep_view() == Seq::new(
                t as nat,
                |k: int| Seq::new(rows@.len(), |i: int| rows@[i]@[k]),
            ),
        decreases width - t,
    {
        let mut column: Vec<u32> = Vec::with_capacity(rows.len());
        let mut i: usize = 0;
        while i < rows.len()
            invariant
                i <= rows.len(),
                t < width,
                forall|k: int| 0 <= k < rows@.len() ==> (#[trigger] rows@[k])@.len() == width,
                column@ == Seq::new(i as nat, |k: int| rows@[k]@[t as int]),
            decreases rows.len() - i,
        {
            column.push(rows[i][t]);
            i += 1;
        }
        let ghost before = columns.deep_view();
        columns.push(column);
        t += 1;
        assert forall|k: int| 0 <= k < t implies columns.deep_view()[k] == Seq::new(
            rows@.len(),
            |i: int| rows@[i]@[k],
        ) by {
            if k < t - 1 {
                assert(columns.deep_view()[k] == before[k]);
            }
        }
    }
    columns
}

impl<D> FSRSBatcher<D> {
    /// The device that the batches are meant for.
    pub closed spec fn spec_device(&self) -> D {
        self.device
    }

    /// A batcher for `device`.
    pub fn new(device: D) -> (batcher: Self)
        ensures
            batcher.spec_device() == device,
    {
        Self { device }
    }

    /// The device that the batches are meant for.
    pub fn device(&self) -> (device: &D)
        ensures
            *device == self.spec_device(),
    {
        &self.device
    }

    /// Pads the histories of `items` to the longest among them and lays
    /// them out by time step, beside the interval and the recall outcome
    /// of each current review.
    pub fn batch(&self, items: Vec<FSRSItem>) -> (batch: FSRSBatch)
        requires
            forall|i: int| 0 <= i < items@.len() ==> items@[i].well_formed(),
        ensures
            batch@ == batch_of(items.deep_view()),
            batch.well_formed(),
            batch.batch_size() == items@.len(),
            batch.pad_size() == pad_size(items.deep_view()),
            forall|t: int, i: int|
                0 <= i < items@.len() && history_len(items@[i]@) <= t < batch.pad_size()
                    ==> #[trigger] batch.t_historys@[t]@[i] == PAD,
            forall|t: int, i: int|
                0 <= i < items@.len() && history_len(items@[i]@) <= t < batch.pad_size()
                    ==> #[trigger] batch.r_historys@[t]@[i] == PAD,
            forall|i: int|
                0 <= i < items@.len() ==> (#[trigger] batch.labels@[i] == 0
                    <==> items@[i]@.last().rating == 1),
    {
        let ghost views = items.deep_view();
        let pad = longest_history(&items);
        let mut time_histories: Vec<Vec<u32>> = Vec::with_capacity(items.len());
        let mut rating_histories: Vec<Vec<u32>> = Vec::with_capacity(items.len());
        let mut delta_ts: Vec<u32> = Vec::with_capacity(items.len());
        let mut labels: Vec<u32> = Vec::with_capacity(items.len());
        let mut i: usize = 0;
        while i < items.len()
            invariant
                i <= items.len(),
                views == items.deep_view(),
                pad == pad_size(views),
                forall|k: int| 0 <= k < items@.len() ==> items@[k].well_formed(),
                time_histories@.len() == i,
                rating_histories@.len() == i,
                forall|k: int|
                    0 <= k < i ==> (#[trigger] time_histories@[k])@ == Seq::new(
                        pad as nat,
                        |t: int| padded_delta_t(views[k], t),
                    ),
                forall|k: int|
                    0 <= k < i ==> (#[trigger] rating_histories@[k])@ == Seq::new(
                        pad as nat,
                        |t: int| padded_rating(views[k], t),
                    ),
                delta_ts@ == Seq::new(i as nat, |k: int| views[k].last().delta_t),
                labels@ == Seq::new(i as nat, |k: int| label_of(views[k].last().rating)),
            decreases items.len() - i,
        {
            let item = &items[i];
            proof {
                lemma_pad_size_bounds(views, i as int);
            }
            let (delta_t, rating) = padded_history(item, pad);
            time_histories.push(delta_t);
            rating_histories.push(rating);
            let current = item.current();
            delta_ts.push(current.delta_t);
            let label: u32 = match current.rating {
                1 => 0,
                _ => 1,
            };
            labels.push(label);
            i += 1;
        }
        let t_historys = transpose(&time_histories, pad);
        let r_historys = transpose(&rating_histories, pad);
        let batch = FSRSBatch { t_historys, r_historys, delta_ts, labels };
        proof {
            let expected = batch_of(views);
            assert(batch@.t_historys =~~= expected.t_historys);
            assert(batch@.r_historys =~~= expected.r_historys);
            assert forall|t: int| 0 <= t < pad implies (#[trigger] batch.t_historys@[t])@
                == expected.t_historys[t] by {
                assert(batch.t_historys@[t]@ =~= batch.t_historys.deep_view()[t]);
            }
            assert forall|t: int| 0 <= t < pad implies (#[trigger] batch.r_historys@[t])@
                == expected.r_historys[t] by {
                assert(batch.r_historys@[t]@ =~= batch.r_historys.deep_view()[t]);
            }
        }
        batch
    }
}

/// The history tensors of a batch have one row for each time step up to the
/// longest history and one column for each item; the two other tensors have
/// one entry for each item.
pub proof fn lemma_batch_shape(items: Seq<Seq<FSRSReview>>)
    ensures
        batch_of(items).t_historys.len() == pad_size(items),
        batch_of(items).r_historys.len() == pad_size(items),
        forall|t: int|
            0 <= t < pad_size(items) ==> (#[trigger] batch_of(items).t_historys[t]).len()
                == items.len(),
        forall|t: int|
            0 <= t < pad_size(items) ==> (#[trigger] batch_of(items).r_historys[t]).len()
                == items.len(),
        batch_of(items).delta_ts.len() == items.len(),
        batch_of(items).labels.len() == items.len(),
{
}

/// Up to the end of an item's history its column holds its reviews, and past
/// the end it holds the pad value.
pub proof fn lemma_batch_padding(items: Seq<Seq<FSRSReview>>, t: int, i: int)
    requires
        0 <= i < items.len(),
        0 <= t < pad_size(items),
    ensures
        t < history_len(items[i]) ==> batch_of(items).t_historys[t][i] == items[i][t].delta_t
            && batch_of(items).r_historys[t][i] == items[i][t].rating,
        t >= history_len(items[i]) ==> batch_of(items).t_historys[t][i] == PAD && batch_of(
            items,
        ).r_historys[t][i] == PAD,
{
}

/// The label of an item is 0 if and only if its current rating is 1, and is
/// 1 otherwise.
pub proof fn lemma_label_zero_iff_lapse(items: Seq<Seq<FSRSReview>>, i: int)
    requires
        0 <= i < items.len(),
    ensures
        batch_of(items).labels[i] == 0 <==> items[i].last().rating == 1,
        batch_of(items).labels[i] == 1 <==> items[i].last().rating != 1,
{
}

/// Where the ratings in an item's history are grades from 1 to 4, its column
/// of the rating tensor holds the pad value exactly past the end of its
/// history: the rating tensor tells a review from padding, which the interval
/// tensor does not, since an interval may be 0 days.
pub proof fn lemma_rating_marks_padding(items: Seq<Seq<FSRSReview>>, t: int, i: int)
    requires
        0 <= i < items.len(),
        0 <= t < pad_size(items),
        forall|k: int|
            0 <= k < history_len(items[i]) ==> (#[trigger] items[i][k]).rating_in_range(),
    ensures
        batch_of(items).r_historys[t][i] == PAD <==> t >= history_len(items[i]),
{
}

/// The pad size is the length of the longest history: no history is longer,
/// and some item has a history of that length. Where every item holds a
/// review, this is the largest number of reviews in an item, less one. Where
/// there are no items it is 0.
pub proof fn lemma_pad_size_is_longest_history(items: Seq<Seq<FSRSReview>>)
    ensures
        forall|i: int| 0 <= i < items.len() ==> history_len(#[trigger] items[i]) <= pad_size(items),
        items.len() > 0 ==> exists|i: int|
            0 <= i < items.len() && history_len(#[trigger] items[i]) == pad_size(items),
        items.len() == 0 ==> pad_size(items) == 0,
    decreases items.len(),
{
    assert forall|i: int| 0 <= i < items.len() implies history_len(#[trigger] items[i])
        <= pad_size(items) by {
        lemma_pad_size_bounds(items, i);
    }
    if items.len() > 0 {
        let rest = items.drop_last();
        lemma_pad_size_is_longest_history(rest);
        if rest.len() > 0 && history_len(items.last()) <= pad_size(rest) {
            let i = choose|i: int|
                0 <= i < rest.len() && history_len(#[trigger] rest[i]) == pad_size(rest);
            assert(history_len(items[i]) == pad_size(items));
        } else {
            assert(history_len(items[items.len() - 1]) == pad_size(items));
        }
    }
}

/// No history among `items` is longer than `pad_size(items)`.
pub proof fn lemma_pad_size_bounds(items: Seq<Seq<FSRSReview>>, i: int)
    requires
        0 <= i < items.len(),
    ensures
        history_len(items[i]) <= pad_size(items),
    decreases items.len(),
{
    if i < items.len() - 1 {
        lemma_pad_size_bounds(items.drop_last(), i);
    }
}

} // verus!
