use crate::item::{FSRSItem, FSRSReview};
use vstd::prelude::*;
use vstd::std_specs::convert::FromSpecImpl;

verus! {

/// A list of items, read by position.
pub struct FSRSDataset {
    items: Vec<FSRSItem>,
}

impl View for FSRSDataset {
    type V = Seq<Seq<FSRSReview>>;

    closed spec fn view(&self) -> Seq<Seq<FSRSReview>> {
        self.items.deep_view()
    }
}

impl FSRSDataset {
    /// The number of items.
    pub fn len(&self) -> (n: usize)
        ensures
            n == self@.len(),
    {
        self.items.len()
    }

    /// A copy of the item at `index`, if there is one.
    pub fn get(&self, index: usize) -> (item: Option<FSRSItem>)
        ensures
            match item {
                Some(found) => index < self@.len() && found@ == self@[index as int],
                None => index >= self@.len(),
            },
    {
        if index < self.items.len() {
            Some(self.items[index].clone())
        } else {
            None
        }
    }
}

impl From<Vec<FSRSItem>> for FSRSDataset {
    fn from(items: Vec<FSRSItem>) -> (dataset: Self)
        ensures
            dataset@ == items.deep_view(),
    {
        Self { items }
    }
}

impl FromSpecImpl<Vec<FSRSItem>> for FSRSDataset {
    open spec fn obeys_from_spec() -> bool {
        true
    }

    closed spec fn from_spec(items: Vec<FSRSItem>) -> Self {
        FSRSDataset { items }
    }
}

} // verus!
