//! Data preparation for fitting a spaced-repetition memory model: review
//! histories, the removal of rare first intervals before the initial fit,
//! and the padding of histories into rectangular batches.

mod batch;
mod dataset;
mod item;
mod outlier;
mod seq_filter;
mod split;
mod tally;

pub use batch::{
    batch_of, history_len, label_of, lemma_batch_padding, lemma_batch_shape,
    lemma_label_zero_iff_lapse, lemma_pad_size_bounds, lemma_pad_size_is_longest_history,
    lemma_rating_marks_padding, pad_size, padded_delta_t, padded_rating, BatchView, FSRSBatch,
    FSRSBatcher, PAD,
};
pub use dataset::FSRSDataset;
pub use item::{FSRSItem, FSRSReview};
pub use outlier::{
    bucket_removed, bucket_size, filter_outlier, first_rating, group_size, in_bucket,
    in_lower_buckets, in_tail, is_outlier, lemma_buckets_go_whole, lemma_group_splits,
    lemma_ranking_is_total_preorder, lemma_removal_walks_up_from_lowest_rank,
    lemma_removed_ranked_below_retained, lemma_removed_within_budget, lemma_tail_size_monotone,
    next_interval, ranked_at_or_below, rated, removal_budget, removed_below, removed_from,
    removed_in_lower_buckets, retained, tail_size, without_outliers,
};
pub use seq_filter::{
    lemma_filter_agree, lemma_filter_len_disjoint, lemma_filter_len_monotone, lemma_filter_twice,
};
pub use split::{not_two_reviews, split_data, two_reviews};
