use crate::item::{FSRSItem, FSRSReview};
use crate::outlier::{filter_outlier, without_outliers};
use vstd::prelude::*;

verus! {

/// The items of exactly two reviews: one review of history and the current one.
pub open spec fn two_reviews() -> spec_fn(Seq<FSRSReview>) -> bool {
    |item: Seq<FSRSReview>| item.len() == 2
}

/// The items of any other number of reviews.
pub open spec fn not_two_reviews() -> spec_fn(Seq<FSRSReview>) -> bool {
    |item: Seq<FSRSReview>| item.len() != 2
}

/// Splits `items` into the set for the initial fit and the set for training.
/// The first holds the items of exactly two reviews, without their outliers;
/// the second holds all other items. Both keep the order of `items`.
pub fn split_data(items: Vec<FSRSItem>) -> (sets: (Vec<FSRSItem>, Vec<FSRSItem>))
    ensures
        sets.0.deep_view() == without_outliers(items.deep_view().filter(two_reviews())),
        sets.1.deep_view() == items.deep_view().filter(not_two_reviews()),
{
    let ghost views = items.deep_view();
    let ghost all = items@;
    let mut pretrainset: Vec<FSRSItem> = Vec::new();
    let mut trainset: Vec<FSRSItem> = Vec::new();
    proof {
        reveal(Seq::filter);
    }
    for item in it: items
        invariant
            it.seq() == all,
            views.len() == all.len(),
            forall|k: int| 0 <= k < all.len() ==> views[k] == #[trigger] all[k]@,
            pretrainset.deep_view() == views.take(it.index() as int).filter(two_reviews()),
            trainset.deep_view() == views.take(it.index() as int).filter(not_two_reviews()),
            forall|k: int|
                0 <= k < pretrainset@.len() ==> (#[trigger] pretrainset@[k]).well_formed(),
    {
        let ghost i = it.index() as int;
        proof {
            assert(views.take(i + 1) =~= views.take(i).push(views[i]));
            views.take(i).lemma_filter_push(views[i], two_reviews());
            views.take(i).lemma_filter_push(views[i], not_two_reviews());
            assert(views[i] == item@);
        }
        if item.reviews.len() == 2 {
            pretrainset.push(item);
        } else {
            trainset.push(item);
        }
    }
    proof {
        assert(views.take(all.len() as int) =~= views);
    }
    (filter_outlier(pretrainset), trainset)
}

} // verus!
