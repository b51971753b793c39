use vstd::prelude::*;
use vstd::slice::slice_subrange;

verus! {

/// One review of a card.
#[derive(Debug, PartialEq)]
pub struct FSRSReview {
    /// The grade given, 1 to 4; 1 means the card was forgotten.
    pub rating: u32,
    /// The number of days that passed since the previous review.
    pub delta_t: u32,
}

/// The reviews of one card in chronological order. The last review is the
/// one to be predicted; the reviews before it are its history.
#[derive(Debug, PartialEq)]
pub struct FSRSItem {
    /// At least one review, the oldest first.
    pub reviews: Vec<FSRSReview>,
}

impl FSRSReview {
    /// The rating is one of the four grades.
    pub open spec fn rating_in_range(&self) -> bool {
        1 <= self.rating <= 4
    }
}

impl Clone for FSRSReview {
    fn clone(&self) -> (res: Self)
        ensures
            res == *self,
    {
        FSRSReview { rating: self.rating, delta_t: self.delta_t }
    }
}

impl View for FSRSItem {
    type V = Seq<FSRSReview>;

    open spec fn view(&self) -> Seq<FSRSReview> {
        self.reviews@
    }
}

impl DeepView for FSRSItem {
    type V = Seq<FSRSReview>;

    open spec fn deep_view(&self) -> Seq<FSRSReview> {
        self.reviews@
    }
}

impl Clone for FSRSItem {
    fn clone(&self) -> (res: Self)
        ensures
            res@ == self@,
    {
        let mut reviews: Vec<FSRSReview> = Vec::with_capacity(self.reviews.len());
        let mut i: usize = 0;
        while i < self.reviews.len()
            invariant
                i <= self.reviews.len(),
                reviews@ == self.reviews@.take(i as int),
            decreases self.reviews.len() - i,
        {
            reviews.push(self.reviews[i].clone());
            i += 1;
        }
        FSRSItem { reviews }
    }
}

impl FSRSItem {
    /// An item is well formed when it holds at least one review.
    pub open spec fn well_formed(&self) -> bool {
        self.reviews@.len() >= 1
    }

    /// Whether the item is well formed, for callers that cannot know.
    pub fn is_well_formed(&self) -> (b: bool)
        ensures
            b == self.well_formed(),
    {
        self.reviews.len() >= 1
    }

    /// The reviews done before the current one.
    pub fn history(&self) -> (h: &[FSRSReview])
        requires
            self.well_formed(),
        ensures
            h@ == self@.drop_last(),
    {
        slice_subrange(self.reviews.as_slice(), 0, self.reviews.len() - 1)
    }

    /// The review to be predicted: the last one.
    pub fn current(&self) -> (r: &FSRSReview)
        requires
            self.well_formed(),
        ensures
            *r == self@.last(),
    {
        &self.reviews[self.reviews.len() - 1]
    }
}

} // verus!
