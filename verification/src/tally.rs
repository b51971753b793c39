use crate::item::{FSRSItem, FSRSReview};
use crate::outlier::{
    bucket_removed, bucket_size, first_rating, in_bucket, in_tail, next_interval,
    ranked_at_or_below, rated,
};
use crate::seq_filter::{lemma_filter_agree, lemma_filter_len_disjoint};
use std::collections::HashMap;
use vstd::prelude::*;
use vstd::std_specs::hash::group_hash_axioms;

verus! {

/// One line of a tally: a bucket and the number of items found in it.
pub(crate) struct Bucket {
    pub(crate) rating: u32,
    pub(crate) delta_t: u32,
    pub(crate) size: usize,
}

/// The tally has a line for this bucket.
pub(crate) open spec fn has_bucket(table: Seq<Bucket>, rating: u32, delta_t: u32) -> bool {
    exists|j: int|
        0 <= j < table.len() && (#[trigger] table[j]).rating == rating && table[j].delta_t
            == delta_t
}

/// The key under which the index holds a bucket: the rating in the upper
/// half of the number, the interval in the lower half.
pub(crate) open spec fn bucket_code(rating: u32, delta_t: u32) -> u64 {
    (rating * 0x1_0000_0000 + delta_t) as u64
}

/// The index leads from the code of each bucket in the tally to its line,
/// and holds no other code.
pub(crate) open spec fn indexes(index: Map<u64, usize>, table: Seq<Bucket>) -> bool {
    &&& forall|j: int|
        0 <= j < table.len() ==> {
            let code = bucket_code((#[trigger] table[j]).rating, table[j].delta_t);
            index.contains_key(code) && index[code] == j
        }
    &&& forall|code: u64| #[trigger]
        index.contains_key(code) ==> index[code] < table.len() && bucket_code(
            table[index[code] as int].rating,
            table[index[code] as int].delta_t,
        ) == code
}

/// No bucket has two lines in the tally.
pub(crate) open spec fn distinct_buckets(table: Seq<Bucket>) -> bool {
    forall|j: int, k: int|
        #![trigger table[j], table[k]]
        0 <= j < k < table.len() ==> !(table[j].rating == table[k].rating && table[j].delta_t
            == table[k].delta_t)
}

/// Each line of the tally holds the size of its bucket among `items`.
pub(crate) open spec fn exact_sizes(table: Seq<Bucket>, items: Seq<Seq<FSRSReview>>) -> bool {
    forall|j: int|
        0 <= j < table.len() ==> (#[trigger] table[j]).size == bucket_size(
            items,
            table[j].rating,
            table[j].delta_t,
        )
}

/// The tally of `items`: one line for each bucket that holds an item, with
/// the size of the bucket.
pub(crate) open spec fn tallies(table: Seq<Bucket>, items: Seq<Seq<FSRSReview>>) -> bool {
    &&& distinct_buckets(table)
    &&& exact_sizes(table, items)
    &&& forall|i: int|
        0 <= i < items.len() ==> has_bucket(
            table,
            first_rating(#[trigger] items[i]),
            next_interval(items[i]),
        )
}

/// The sizes in the tally, added up over the chosen buckets.
pub(crate) open spec fn sum_sizes(table: Seq<Bucket>, chosen: spec_fn(u32, u32) -> bool) -> nat
    decreases table.len(),
{
    if table.len() == 0 {
        0
    } else {
        let last = table.last();
        sum_sizes(table.drop_last(), chosen) + if chosen(last.rating, last.delta_t) {
            last.size as nat
        } else {
            0
        }
    }
}

/// The items whose bucket is chosen and has a line in the tally.
pub(crate) open spec fn counted(table: Seq<Bucket>, chosen: spec_fn(u32, u32) -> bool) -> spec_fn(
    Seq<FSRSReview>,
) -> bool {
    |item: Seq<FSRSReview>|
        chosen(first_rating(item), next_interval(item)) && has_bucket(
            table,
            first_rating(item),
            next_interval(item),
        )
}

/// The buckets of a rating group.
pub(crate) open spec fn group_of(rating: u32) -> spec_fn(u32, u32) -> bool {
    |r: u32, d: u32| r == rating
}

/// A bucket of a rating group and the buckets ranked below it.
pub(crate) open spec fn tail_of(items: Seq<Seq<FSRSReview>>, rating: u32, delta_t: u32) -> spec_fn(
    u32,
    u32,
) -> bool {
    |r: u32, d: u32| r == rating && ranked_at_or_below(items, rating, d, delta_t)
}

/// Adding up the sizes of the chosen lines counts the items in them.
proof fn lemma_sum_sizes(
    items: Seq<Seq<FSRSReview>>,
    table: Seq<Bucket>,
    chosen: spec_fn(u32, u32) -> bool,
)
    requires
        distinct_buckets(table),
        exact_sizes(table, items),
    ensures
        sum_sizes(table, chosen) == items.filter(counted(table, chosen)).len(),
    decreases table.len(),
{
    if table.len() == 0 {
        items.lemma_all_neg_filter_empty(counted(table, chosen));
    } else {
        let rest = table.drop_last();
        let last = table.last();
        lemma_sum_sizes(items, rest, chosen);
        let in_last = |item: Seq<FSRSReview>|
            chosen(last.rating, last.delta_t) && in_bucket(last.rating, last.delta_t)(item);
        assert forall|i: int| 0 <= i < items.len() implies !(counted(rest, chosen)(items[i])
            && in_last(items[i])) && counted(table, chosen)(items[i]) == (counted(rest, chosen)(
            items[i],
        ) || in_last(items[i])) by {
            let r = first_rating(items[i]);
            let d = next_interval(items[i]);
            if has_bucket(table, r, d) {
                let j = choose|j: int|
                    0 <= j < table.len() && (#[trigger] table[j]).rating == r
                        && table[j].delta_t == d;
                if j < rest.len() {
                    assert(rest[j] == table[j]);
                }
            }
        }
        lemma_filter_len_disjoint(
            items,
            counted(rest, chosen),
            in_last,
            counted(table, chosen),
        );
        if chosen(last.rating, last.delta_t) {
            lemma_filter_agree(items, in_last, in_bucket(last.rating, last.delta_t));
        } else {
            items.lemma_all_neg_filter_empty(in_last);
        }
    }
}

/// The code of a bucket.
fn code_of(rating: u32, delta_t: u32) -> (code: u64)
    ensures
        code == bucket_code(rating, delta_t),
{
    rating as u64 * 0x1_0000_0000 + delta_t as u64
}

/// The line of the tally for a bucket, if it has one.
pub(crate) fn find_bucket(
    table: &Vec<Bucket>,
    index: &HashMap<u64, usize>,
    rating: u32,
    delta_t: u32,
) -> (found: Option<usize>)
    requires
        indexes(index@, table@),
    ensures
        match found {
            Some(j) => j < table@.len() && table@[j as int].rating == rating
                && table@[j as int].delta_t == delta_t,
            None => !has_bucket(table@, rating, delta_t),
        },
{
    broadcast use group_hash_axioms;

    match index.get(&code_of(rating, delta_t)) {
        Some(line) => Some(*line),
        None => None,
    }
}

/// A tally stays one when an item is added to the line of its bucket, or to
/// a new line at the end where the bucket had none.
proof fn lemma_tally_grows(
    before: Seq<Bucket>,
    after: Seq<Bucket>,
    seen: Seq<Seq<FSRSReview>>,
    item: Seq<FSRSReview>,
    line: int,
)
    requires
        tallies(before, seen),
        0 <= line < after.len(),
        after[line].rating == first_rating(item),
        after[line].delta_t == next_interval(item),
        forall|k: int| 0 <= k < before.len() && k != line ==> #[trigger] after[k] == before[k],
        line < before.len() ==> {
            &&& after.len() == before.len()
            &&& before[line].rating == after[line].rating
            &&& before[line].delta_t == after[line].delta_t
            &&& after[line].size == before[line].size + 1
        },
        line >= before.len() ==> {
            &&& after.len() == before.len() + 1
            &&& after[line].size == 1
            &&& !has_bucket(before, first_rating(item), next_interval(item))
        },
    ensures
        tallies(after, seen.push(item)),
{
    let next = seen.push(item);
    let rating = first_rating(item);
    let delta_t = next_interval(item);
    assert forall|r: u32, d: u32| #[trigger]
        has_bucket(before, r, d) implies has_bucket(after, r, d) by {
        let w = choose|w: int|
            0 <= w < before.len() && (#[trigger] before[w]).rating == r && before[w].delta_t == d;
        assert(after[w].rating == r && after[w].delta_t == d);
    }
    if line >= before.len() {
        seen.lemma_all_neg_filter_empty(in_bucket(rating, delta_t));
    }
    assert forall|k: int| 0 <= k < after.len() implies (#[trigger] after[k]).size == bucket_size(
        next,
        after[k].rating,
        after[k].delta_t,
    ) by {
        seen.lemma_filter_len_push(in_bucket(after[k].rating, after[k].delta_t), item);
    }
}

/// Counts the items of each bucket, and notes in an index where each bucket
/// stands in the tally.
pub(crate) fn tally(items: &Vec<FSRSItem>) -> (tally: (Vec<Bucket>, HashMap<u64, usize>))
    requires
        forall|i: int| 0 <= i < items@.len() ==> items@[i].well_formed(),
    ensures
        tallies(tally.0@, items.deep_view()),
        indexes(tally.1@, tally.0@),
{
    broadcast use group_hash_axioms;

    let ghost views = items.deep_view();
    let mut table: Vec<Bucket> = Vec::new();
    let mut index: HashMap<u64, usize> = HashMap::new();
    let mut i: usize = 0;
    while i < items.len()
        invariant
            i <= items.len(),
            views == items.deep_view(),
            forall|k: int| 0 <= k < items@.len() ==> items@[k].well_formed(),
            tallies(table@, views.take(i as int)),
            indexes(index@, table@),
        decreases items.len() - i,
    {
        let item = &items[i];
        let rating = item.reviews[0].rating;
        let delta_t = item.current().delta_t;
        let ghost seen = views.take(i as int);
        let ghost before = table@;
        match find_bucket(&table, &index, rating, delta_t) {
            Some(line) => {
                let size = table[line].size + 1;
                table.set(line, Bucket { rating, delta_t, size });
                proof {
                    lemma_tally_grows(before, table@, seen, views[i as int], line as int);
                }
            },
            None => {
                let line = table.len();
                table.push(Bucket { rating, delta_t, size: 1 });
                index.insert(code_of(rating, delta_t), line);
                proof {
                    lemma_tally_grows(before, table@, seen, views[i as int], line as int);
                }
            },
        }
        proof {
            assert(views.take(i + 1) =~= seen.push(views[i as int]));
        }
        i += 1;
    }
    proof {
        assert(views.take(i as int) =~= views);
    }
    (table, index)
}

/// Decides for each line of the tally whether its bucket is removed.
pub(crate) fn mark_removed(
    table: &Vec<Bucket>,
    Ghost(items): Ghost<Seq<Seq<FSRSReview>>>,
) -> (removed: Vec<bool>)
    requires
        tallies(table@, items),
        items.len() <= usize::MAX,
    ensures
        removed@.len() == table@.len(),
        forall|j: int|
            0 <= j < table@.len() ==> #[trigger] removed@[j] == bucket_removed(
                items,
                table@[j].rating,
                table@[j].delta_t,
            ),
{
    let mut removed: Vec<bool> = Vec::with_capacity(table.len());
    let mut j: usize = 0;
    while j < table.len()
        invariant
            j <= table.len(),
            tallies(table@, items),
            items.len() <= usize::MAX,
            removed@.len() == j,
            forall|k: int|
                0 <= k < j ==> #[trigger] removed@[k] == bucket_removed(
                    items,
                    table@[k].rating,
                    table@[k].delta_t,
                ),
        decreases table.len() - j,
    {
        let rating = table[j].rating;
        let delta_t = table[j].delta_t;
        let size = table[j].size;
        let ghost group = group_of(rating);
        let ghost tail = tail_of(items, rating, delta_t);
        let mut group_total: usize = 0;
        let mut tail_total: usize = 0;
        let mut k: usize = 0;
        while k < table.len()
            invariant
                k <= table.len(),
                j < table.len(),
                tallies(table@, items),
                items.len() <= usize::MAX,
                rating == table@[j as int].rating,
                delta_t == table@[j as int].delta_t,
                size == table@[j as int].size,
                group == group_of(rating),
                tail == tail_of(items, rating, delta_t),
                group_total == sum_sizes(table@.take(k as int), group),
                tail_total == sum_sizes(table@.take(k as int), tail),
            decreases table.len() - k,
        {
            proof {
                let part = table@.take(k + 1);
                assert(part.drop_last() =~= table@.take(k as int));
                lemma_sum_sizes(items, part, group);
                lemma_sum_sizes(items, part, tail);
            }
            if table[k].rating == rating {
                group_total += table[k].size;
                if table[k].size < size || (table[k].size == size && table[k].delta_t >= delta_t) {
                    tail_total += table[k].size;
                }
            }
            k += 1;
        }
        proof {
            assert(table@.take(k as int) =~= table@);
            lemma_sum_sizes(items, table@, group);
            lemma_sum_sizes(items, table@, tail);
            lemma_filter_agree(items, counted(table@, group), rated(rating));
            lemma_filter_agree(items, counted(table@, tail), in_tail(items, rating, delta_t));
        }
        removed.push(tail_total <= group_total / 20);
        j += 1;
    }
    removed
}

} // verus!
