use crate::item::{FSRSItem, FSRSReview};
use crate::seq_filter::{
    lemma_filter_agree, lemma_filter_len_disjoint, lemma_filter_len_monotone, lemma_filter_twice,
};
use crate::tally::{find_bucket, indexes, mark_removed, tallies, tally};
use vstd::prelude::*;

verus! {

/// The rating of an item's first review.
pub open spec fn first_rating(item: Seq<FSRSReview>) -> u32 {
    item.first().rating
}

/// The interval before an item's current review. For an item of two
/// reviews this is the first interval the card was given.
pub open spec fn next_interval(item: Seq<FSRSReview>) -> u32 {
    item.last().delta_t
}

/// The items whose first rating is `rating`: a rating group.
pub open spec fn rated(rating: u32) -> spec_fn(Seq<FSRSReview>) -> bool {
    |item: Seq<FSRSReview>| first_rating(item) == rating
}

/// The items of a rating group whose next interval is `delta_t`: a bucket.
pub open spec fn in_bucket(rating: u32, delta_t: u32) -> spec_fn(Seq<FSRSReview>) -> bool {
    |item: Seq<FSRSReview>| first_rating(item) == rating && next_interval(item) == delta_t
}

/// The number of items in a rating group.
pub open spec fn group_size(items: Seq<Seq<FSRSReview>>, rating: u32) -> nat {
    items.filter(rated(rating)).len()
}

/// The number of items in a bucket.
pub open spec fn bucket_size(items: Seq<Seq<FSRSReview>>, rating: u32, delta_t: u32) -> nat {
    items.filter(in_bucket(rating, delta_t)).len()
}

/// Within a rating group the buckets are ranked by size, the largest
/// first, and buckets of one size by interval, the shortest first. This
/// says that the bucket of interval `a` stands at the rank of the bucket of
/// interval `b` or below it.
pub open spec fn ranked_at_or_below(
    items: Seq<Seq<FSRSReview>>,
    rating: u32,
    a: u32,
    b: u32,
) -> bool {
    let size_a = bucket_size(items, rating, a);
    let size_b = bucket_size(items, rating, b);
    size_a < size_b || (size_a == size_b && a >= b)
}

/// The items of a rating group in the bucket of interval `delta_t` and in
/// the buckets ranked below it.
pub open spec fn in_tail(items: Seq<Seq<FSRSReview>>, rating: u32, delta_t: u32) -> spec_fn(
    Seq<FSRSReview>,
) -> bool {
    |item: Seq<FSRSReview>|
        first_rating(item) == rating && ranked_at_or_below(
            items,
            rating,
            next_interval(item),
            delta_t,
        )
}

/// The number of items in a bucket and in all buckets ranked below it.
pub open spec fn tail_size(items: Seq<Seq<FSRSReview>>, rating: u32, delta_t: u32) -> nat {
    items.filter(in_tail(items, rating, delta_t)).len()
}

/// How many items a rating group may lose: a twentieth of it, rounded down.
pub open spec fn removal_budget(items: Seq<Seq<FSRSReview>>, rating: u32) -> nat {
    group_size(items, rating) / 20
}

/// A bucket is removed when it, together with every bucket ranked below
/// it, fits into the removal budget of its rating group.
pub open spec fn bucket_removed(items: Seq<Seq<FSRSReview>>, rating: u32, delta_t: u32) -> bool {
    tail_size(items, rating, delta_t) <= removal_budget(items, rating)
}

/// An item is an outlier among `items` when its bucket is removed.
pub open spec fn is_outlier(items: Seq<Seq<FSRSReview>>, item: Seq<FSRSReview>) -> bool {
    bucket_removed(items, first_rating(item), next_interval(item))
}

/// The items that are no outliers among `items`.
pub open spec fn retained(items: Seq<Seq<FSRSReview>>) -> spec_fn(Seq<FSRSReview>) -> bool {
    |item: Seq<FSRSReview>| !is_outlier(items, item)
}

/// The outliers of one rating group.
pub open spec fn removed_from(items: Seq<Seq<FSRSReview>>, rating: u32) -> spec_fn(
    Seq<FSRSReview>,
) -> bool {
    |item: Seq<FSRSReview>| first_rating(item) == rating && is_outlier(items, item)
}

/// The items of a rating group in the buckets ranked below the bucket of
/// interval `delta_t`.
pub open spec fn in_lower_buckets(
    items: Seq<Seq<FSRSReview>>,
    rating: u32,
    delta_t: u32,
) -> spec_fn(Seq<FSRSReview>) -> bool {
    |item: Seq<FSRSReview>|
        first_rating(item) == rating && next_interval(item) != delta_t && ranked_at_or_below(
            items,
            rating,
            next_interval(item),
            delta_t,
        )
}

/// The outliers in the buckets ranked below the bucket of interval `delta_t`.
pub open spec fn removed_in_lower_buckets(
    items: Seq<Seq<FSRSReview>>,
    rating: u32,
    delta_t: u32,
) -> spec_fn(Seq<FSRSReview>) -> bool {
    |item: Seq<FSRSReview>|
        in_lower_buckets(items, rating, delta_t)(item) && is_outlier(items, item)
}

/// How many items a walk through the buckets of a rating group, from the
/// lowest rank upward, has removed when it comes to the bucket of interval
/// `delta_t`.
pub open spec fn removed_below(items: Seq<Seq<FSRSReview>>, rating: u32, delta_t: u32) -> nat {
    items.filter(removed_in_lower_buckets(items, rating, delta_t)).len()
}

/// `items` without its outliers, in the order of `items`.
pub open spec fn without_outliers(items: Seq<Seq<FSRSReview>>) -> Seq<Seq<FSRSReview>> {
    items.filter(retained(items))
}

/// The ranking of the buckets of a rating group is total and transitive.
pub proof fn lemma_ranking_is_total_preorder(
    items: Seq<Seq<FSRSReview>>,
    rating: u32,
    a: u32,
    b: u32,
    c: u32,
)
    ensures
        ranked_at_or_below(items, rating, a, b) || ranked_at_or_below(items, rating, b, a),
        ranked_at_or_below(items, rating, a, b) && ranked_at_or_below(items, rating, b, c)
            ==> ranked_at_or_below(items, rating, a, c),
        ranked_at_or_below(items, rating, a, b) && ranked_at_or_below(items, rating, b, a) ==> a
            == b,
{
}

/// A bucket's tail holds the tail of every bucket ranked at or below it.
pub proof fn lemma_tail_size_monotone(items: Seq<Seq<FSRSReview>>, rating: u32, a: u32, b: u32)
    requires
        ranked_at_or_below(items, rating, a, b),
    ensures
        tail_size(items, rating, a) <= tail_size(items, rating, b),
{
    lemma_filter_len_monotone(items, in_tail(items, rating, a), in_tail(items, rating, b));
}

/// Removal starts from the rarest bucket: a bucket that is removed stands
/// below every bucket of its rating group that is not, so it is no larger
/// than any of them.
pub proof fn lemma_removed_ranked_below_retained(
    items: Seq<Seq<FSRSReview>>,
    rating: u32,
    removed: u32,
    kept: u32,
)
    requires
        bucket_removed(items, rating, removed),
        !bucket_removed(items, rating, kept),
    ensures
        ranked_at_or_below(items, rating, removed, kept),
        bucket_size(items, rating, removed) <= bucket_size(items, rating, kept),
        removed != kept,
{
    if !ranked_at_or_below(items, rating, removed, kept) {
        lemma_tail_size_monotone(items, rating, kept, removed);
    }
}

/// Removal is a walk through the buckets of a rating group from the lowest
/// rank upward: a bucket is removed exactly when its size, added to what the
/// walk has removed below it, stays within the budget of the group.
pub proof fn lemma_removal_walks_up_from_lowest_rank(
    items: Seq<Seq<FSRSReview>>,
    rating: u32,
    delta_t: u32,
)
    ensures
        bucket_removed(items, rating, delta_t) <==> removed_below(items, rating, delta_t)
            + bucket_size(items, rating, delta_t) <= removal_budget(items, rating),
    decreases tail_size(items, rating, delta_t),
{
    let lower = in_lower_buckets(items, rating, delta_t);
    let removed_lower = removed_in_lower_buckets(items, rating, delta_t);
    lemma_filter_len_disjoint(
        items,
        lower,
        in_bucket(rating, delta_t),
        in_tail(items, rating, delta_t),
    );
    if forall|i: int| 0 <= i < items.len() && lower(items[i]) ==> is_outlier(items, items[i]) {
        lemma_filter_agree(items, removed_lower, lower);
    } else {
        let i = choose|i: int|
            0 <= i < items.len() && lower(items[i]) && !is_outlier(items, items[i]);
        let kept = next_interval(items[i]);
        assert(bucket_size(items, rating, kept) >= 1) by {
            items.lemma_filter_contains(in_bucket(rating, kept), i);
        }
        lemma_filter_len_monotone(items, in_tail(items, rating, kept), lower);
        lemma_removal_walks_up_from_lowest_rank(items, rating, kept);
        lemma_filter_len_monotone(
            items,
            removed_in_lower_buckets(items, rating, kept),
            removed_lower,
        );
    }
}

/// A bucket goes or stays as a whole.
pub proof fn lemma_buckets_go_whole(items: Seq<Seq<FSRSReview>>, rating: u32, delta_t: u32)
    ensures
        bucket_size(without_outliers(items), rating, delta_t) == if bucket_removed(
            items,
            rating,
            delta_t,
        ) {
            0
        } else {
            bucket_size(items, rating, delta_t)
        },
{
    let bucket = in_bucket(rating, delta_t);
    let kept_in_bucket = |item: Seq<FSRSReview>| !is_outlier(items, item) && bucket(item);
    lemma_filter_twice(items, retained(items), bucket, kept_in_bucket);
    if bucket_removed(items, rating, delta_t) {
        items.lemma_all_neg_filter_empty(kept_in_bucket);
    } else {
        lemma_filter_agree(items, kept_in_bucket, bucket);
    }
}

/// Among the first `n` of `items`, either no item is an outlier of the
/// rating group, or some removed bucket stands at or above the buckets of all
/// outliers of the group.
proof fn lemma_highest_removed(items: Seq<Seq<FSRSReview>>, rating: u32, n: int) -> (top: Option<
    u32,
>)
    requires
        0 <= n <= items.len(),
    ensures
        match top {
            None => forall|i: int| 0 <= i < n ==> !removed_from(items, rating)(items[i]),
            Some(delta_t) => bucket_removed(items, rating, delta_t) && forall|i: int|
                0 <= i < n && removed_from(items, rating)(items[i]) ==> ranked_at_or_below(
                    items,
                    rating,
                    next_interval(items[i]),
                    delta_t,
                ),
        },
    decreases n,
{
    if n == 0 {
        None
    } else {
        let before = lemma_highest_removed(items, rating, n - 1);
        let item = items[n - 1];
        if removed_from(items, rating)(item) {
            match before {
                None => Some(next_interval(item)),
                Some(delta_t) => {
                    if ranked_at_or_below(items, rating, next_interval(item), delta_t) {
                        before
                    } else {
                        Some(next_interval(item))
                    }
                },
            }
        } else {
            before
        }
    }
}

/// A rating group loses at most a twentieth of its items, rounded down.
pub proof fn lemma_removed_within_budget(items: Seq<Seq<FSRSReview>>, rating: u32)
    ensures
        items.filter(removed_from(items, rating)).len() <= group_size(items, rating) / 20,
        group_size(items, rating) - group_size(without_outliers(items), rating) <= group_size(
            items,
            rating,
        ) / 20,
{
    let removed = removed_from(items, rating);
    match lemma_highest_removed(items, rating, items.len() as int) {
        None => {
            items.lemma_all_neg_filter_empty(removed);
        },
        Some(delta_t) => {
            lemma_filter_len_monotone(items, removed, in_tail(items, rating, delta_t));
        },
    }
    lemma_group_splits(items, rating);
}

/// The items of a rating group that are retained and those that are removed
/// make up the group.
pub proof fn lemma_group_splits(items: Seq<Seq<FSRSReview>>, rating: u32)
    ensures
        group_size(items, rating) == group_size(without_outliers(items), rating) + items.filter(
            removed_from(items, rating),
        ).len(),
{
    let kept_in_group = |item: Seq<FSRSReview>|
        first_rating(item) == rating && !is_outlier(items, item);
    lemma_filter_len_disjoint(items, kept_in_group, removed_from(items, rating), rated(rating));
    lemma_filter_twice(items, retained(items), rated(rating), kept_in_group);
}

/// Drops the items of rare intervals. The items are grouped by the rating of
/// their first review, and each group by the interval before the current
/// review. In each group the rarest buckets go, as many as fit into a
/// twentieth of the group; what is left comes back in the order it came in.
pub fn filter_outlier(items: Vec<FSRSItem>) -> (kept: Vec<FSRSItem>)
    requires
        forall|i: int| 0 <= i < items@.len() ==> items@[i].well_formed(),
    ensures
        kept.deep_view() == without_outliers(items.deep_view()),
        forall|rating: u32|
            group_size(items.deep_view(), rating) - #[trigger] group_size(
                kept.deep_view(),
                rating,
            ) <= group_size(items.deep_view(), rating) / 20,
        forall|rating: u32, gone: u32, left: u32|
            #![trigger
                bucket_size(kept.deep_view(), rating, gone),
                bucket_size(kept.deep_view(), rating, left),
            ]
            bucket_size(kept.deep_view(), rating, gone) == 0 && bucket_size(
                kept.deep_view(),
                rating,
                left,
            ) > 0 ==> bucket_size(items.deep_view(), rating, gone) <= bucket_size(
                items.deep_view(),
                rating,
                left,
            ),
{
    let ghost views = items.deep_view();
    let ghost all = items@;
    let (table, index) = tally(&items);
    assert(views.len() == items.len());
    let removed = mark_removed(&table, Ghost(views));
    let mut kept: Vec<FSRSItem> = Vec::new();
    proof {
        reveal(Seq::filter);
    }
    for item in it: items
        invariant
            it.seq() == all,
            views.len() == all.len(),
            forall|k: int| 0 <= k < all.len() ==> views[k] == #[trigger] all[k]@,
            forall|k: int| 0 <= k < all.len() ==> all[k].well_formed(),
            tallies(table@, views),
            indexes(index@, table@),
            removed@.len() == table@.len(),
            forall|j: int|
                0 <= j < table@.len() ==> #[trigger] removed@[j] == bucket_removed(
                    views,
                    table@[j].rating,
                    table@[j].delta_t,
                ),
            kept.deep_view() == views.take(it.index() as int).filter(retained(views)),
    {
        let ghost i = it.index() as int;
        let found = find_bucket(&table, &index, item.reviews[0].rating, item.current().delta_t);
        let outlier = match found {
            Some(line) => removed[line],
            None => false,
        };
        proof {
            assert(views.take(i + 1) =~= views.take(i).push(views[i]));
            views.take(i).lemma_filter_push(views[i], retained(views));
        }
        if !outlier {
            kept.push(item);
        }
    }
    proof {
        assert(views.take(all.len() as int) =~= views);
        assert forall|rating: u32|
            group_size(views, rating) - #[trigger] group_size(kept.deep_view(), rating)
                <= group_size(views, rating) / 20 by {
            lemma_removed_within_budget(views, rating);
        }
        assert forall|rating: u32, gone: u32, left: u32|
            bucket_size(kept.deep_view(), rating, gone) == 0 && bucket_size(
                kept.deep_view(),
                rating,
                left,
            ) > 0 implies bucket_size(views, rating, gone) <= bucket_size(views, rating, left) by {
            lemma_buckets_go_whole(views, rating, gone);
            lemma_buckets_go_whole(views, rating, left);
            if bucket_removed(views, rating, gone) {
                lemma_removed_ranked_below_retained(views, rating, gone, left);
            }
        }
    }
    kept
}

} // verus!
