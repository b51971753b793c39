use fsrs::{filter_outlier, split_data, FSRSItem, FSRSReview};
use std::collections::BTreeMap;

fn pair(rating: u32, delta_t: u32) -> FSRSItem {
    FSRSItem {
        reviews: vec![
            FSRSReview { rating, delta_t: 0 },
            FSRSReview { rating: 3, delta_t },
        ],
    }
}

/// `count` items of one bucket.
fn bucket(rating: u32, delta_t: u32, count: usize) -> Vec<FSRSItem> {
    (0..count).map(|_| pair(rating, delta_t)).collect()
}

fn count_of(items: &[FSRSItem], rating: u32, delta_t: u32) -> usize {
    items
        .iter()
        .filter(|item| {
            item.reviews[0].rating == rating && item.reviews.last().unwrap().delta_t == delta_t
        })
        .count()
}

fn count_rated(items: &[FSRSItem], rating: u32) -> usize {
    items
        .iter()
        .filter(|item| item.reviews[0].rating == rating)
        .count()
}

#[test]
fn rarest_buckets_go_while_they_fit_into_a_twentieth() {
    let mut items = Vec::new();
    items.extend(bucket(3, 1, 95));
    items.extend(bucket(3, 2, 3));
    items.extend(bucket(3, 5, 1));
    items.extend(bucket(3, 7, 1));
    let kept = filter_outlier(items);
    assert_eq!(kept, bucket(3, 1, 95));
}

#[test]
fn a_bucket_that_does_not_fit_as_a_whole_stays() {
    let mut items = Vec::new();
    items.extend(bucket(3, 1, 94));
    items.extend(bucket(3, 2, 4));
    items.extend(bucket(3, 5, 1));
    items.extend(bucket(3, 7, 1));
    let kept = filter_outlier(items);
    assert_eq!(kept.len(), 98);
    assert_eq!(count_of(&kept, 3, 1), 94);
    assert_eq!(count_of(&kept, 3, 2), 4);
    assert_eq!(count_of(&kept, 3, 5), 0);
    assert_eq!(count_of(&kept, 3, 7), 0);
}

#[test]
fn budget_is_a_twentieth_rounded_down() {
    let mut items = bucket(2, 1, 37);
    items.extend(bucket(2, 9, 2));
    assert_eq!(filter_outlier(items.clone()), items);

    let mut items = bucket(2, 1, 38);
    items.extend(bucket(2, 9, 2));
    assert_eq!(filter_outlier(items), bucket(2, 1, 38));

    let mut items = bucket(2, 1, 19);
    items.push(pair(2, 9));
    assert_eq!(filter_outlier(items), bucket(2, 1, 19));
}

#[test]
fn under_twenty_items_nothing_goes() {
    let mut items = bucket(4, 3, 18);
    items.push(pair(4, 100));
    assert_eq!(filter_outlier(items.clone()), items);
}

#[test]
fn of_two_buckets_of_one_size_the_longer_interval_goes_first() {
    let mut items = Vec::new();
    items.extend(bucket(1, 3, 2));
    items.extend(bucket(1, 9, 2));
    items.extend(bucket(1, 1, 46));
    let kept = filter_outlier(items);
    assert_eq!(count_of(&kept, 1, 9), 0);
    assert_eq!(count_of(&kept, 1, 3), 2);
    assert_eq!(count_of(&kept, 1, 1), 46);
    assert_eq!(kept.len(), 48);
}

#[test]
fn rating_groups_are_filtered_apart() {
    let mut items = Vec::new();
    items.extend(bucket(1, 1, 20));
    items.extend(bucket(3, 1, 10));
    items.push(pair(1, 4));
    items.push(pair(3, 4));
    let kept = filter_outlier(items);
    assert_eq!(count_of(&kept, 1, 4), 0);
    assert_eq!(count_of(&kept, 3, 4), 1);
    assert_eq!(count_rated(&kept, 1), 20);
    assert_eq!(count_rated(&kept, 3), 11);
}

#[test]
fn what_stays_keeps_its_order() {
    let mut items = Vec::new();
    for k in 0..60u32 {
        items.push(pair(3, 1 + k % 2));
        if k == 17 {
            items.push(pair(3, 50));
        }
        if k == 40 {
            items.push(pair(3, 60));
        }
    }
    let expected: Vec<FSRSItem> = items
        .iter()
        .filter(|item| item.reviews[1].delta_t < 50)
        .cloned()
        .collect();
    assert_eq!(expected.len(), 60);
    assert_eq!(filter_outlier(items), expected);
}

#[test]
fn no_items_give_no_items() {
    assert_eq!(filter_outlier(Vec::new()), Vec::new());
}

#[test]
fn bucket_is_told_by_first_rating_and_last_interval() {
    let long = |delta_t: u32| FSRSItem {
        reviews: vec![
            FSRSReview { rating: 2, delta_t: 0 },
            FSRSReview { rating: 4, delta_t: 77 },
            FSRSReview { rating: 1, delta_t },
        ],
    };
    let mut items: Vec<FSRSItem> = (0..40).map(|_| long(5)).collect();
    items.push(long(6));
    items.push(FSRSItem {
        reviews: vec![FSRSReview { rating: 2, delta_t: 5 }],
    });
    let kept = filter_outlier(items);
    assert_eq!(kept.len(), 41);
    assert_eq!(count_of(&kept, 2, 6), 0);
    assert_eq!(count_of(&kept, 2, 5), 41);
}

#[test]
fn each_group_loses_at_most_a_twentieth_and_only_its_rarest() {
    let sizes: [(u32, u32, usize); 12] = [
        (1, 1, 120),
        (1, 2, 31),
        (1, 3, 4),
        (1, 4, 2),
        (1, 7, 2),
        (1, 30, 1),
        (3, 1, 15),
        (3, 2, 300),
        (3, 3, 9),
        (3, 5, 9),
        (3, 8, 3),
        (4, 21, 7),
    ];
    let mut items = Vec::new();
    for round in 0..300 {
        for &(rating, delta_t, count) in sizes.iter() {
            if round < count {
                items.push(pair(rating, delta_t));
            }
        }
    }
    let kept = filter_outlier(items.clone());
    for rating in 1..=4 {
        let total = count_rated(&items, rating);
        let removed = total - count_rated(&kept, rating);
        assert!(removed <= total / 20);
    }
    for &(rating, delta_t, count) in sizes.iter() {
        let left = count_of(&kept, rating, delta_t);
        assert!(left == 0 || left == count);
        if left == 0 {
            for &(other_rating, other_delta_t, other_count) in sizes.iter() {
                if other_rating == rating && count_of(&kept, rating, other_delta_t) > 0 {
                    assert!(count <= other_count);
                }
            }
        }
    }
    assert_eq!(count_of(&kept, 1, 30), 0);
    assert_eq!(count_of(&kept, 1, 7), 0);
    assert_eq!(count_of(&kept, 1, 4), 0);
    assert_eq!(count_of(&kept, 1, 3), 4);
    assert_eq!(count_of(&kept, 3, 8), 0);
    assert_eq!(count_of(&kept, 3, 5), 0);
    assert_eq!(count_of(&kept, 3, 3), 9);
    assert_eq!(count_of(&kept, 4, 21), 7);
    assert_eq!(kept.len(), items.len() - 5 - 12);
}

#[test]
fn split_sends_items_of_two_reviews_to_the_first_set() {
    let three = |delta_t: u32| FSRSItem {
        reviews: vec![
            FSRSReview { rating: 3, delta_t: 0 },
            FSRSReview { rating: 3, delta_t: 4 },
            FSRSReview { rating: 4, delta_t },
        ],
    };
    let one = FSRSItem {
        reviews: vec![FSRSReview { rating: 1, delta_t: 0 }],
    };
    let items = vec![
        pair(3, 4),
        three(10),
        pair(1, 1),
        one.clone(),
        three(12),
        pair(3, 5),
    ];
    let (pretrainset, trainset) = split_data(items);
    assert_eq!(pretrainset, vec![pair(3, 4), pair(1, 1), pair(3, 5)]);
    assert_eq!(trainset, vec![three(10), one, three(12)]);
}

#[test]
fn split_filters_only_the_first_set() {
    let three = |delta_t: u32| FSRSItem {
        reviews: vec![
            FSRSReview { rating: 3, delta_t: 0 },
            FSRSReview { rating: 3, delta_t: 4 },
            FSRSReview { rating: 4, delta_t },
        ],
    };
    let mut items = Vec::new();
    for k in 0..40 {
        items.push(pair(3, 2));
        items.push(three(2));
        if k == 7 {
            items.push(pair(3, 90));
            items.push(three(90));
        }
    }
    let (pretrainset, trainset) = split_data(items);
    assert_eq!(pretrainset, bucket(3, 2, 40));
    assert_eq!(trainset.len(), 41);
    assert_eq!(trainset[8], three(90));
}

#[test]
fn split_of_no_items_gives_two_empty_sets() {
    let (pretrainset, trainset) = split_data(Vec::new());
    assert!(pretrainset.is_empty());
    assert!(trainset.is_empty());
}

/// A small generator of numbers that look random and are the same in every run.
struct Numbers(u64);

impl Numbers {
    fn next(&mut self, below: u32) -> u32 {
        self.0 = self
            .0
            .wrapping_mul(6364136223846793005)
            .wrapping_add(1442695040888963407);
        ((self.0 >> 33) % below as u64) as u32
    }
}

/// The filter written as a walk: each rating group is cut into buckets by
/// interval, the buckets are ranked by size, largest first, and by interval,
/// shortest first; from the last rank upward a bucket goes while the items
/// gone so far and its own stay within a twentieth of the group.
fn filter_by_walk(items: &[FSRSItem]) -> Vec<FSRSItem> {
    let mut groups: BTreeMap<u32, BTreeMap<u32, Vec<FSRSItem>>> = BTreeMap::new();
    for item in items {
        groups
            .entry(item.reviews[0].rating)
            .or_default()
            .entry(item.reviews.last().unwrap().delta_t)
            .or_default()
            .push(item.clone());
    }
    let mut kept = Vec::new();
    for buckets in groups.values() {
        let mut ranked: Vec<(&u32, &Vec<FSRSItem>)> = buckets.iter().collect();
        ranked.sort_by_key(|(delta_t, bucket)| (usize::MAX - bucket.len(), **delta_t));
        let total: usize = ranked.iter().map(|(_, bucket)| bucket.len()).sum();
        let mut gone = 0;
        for (_, bucket) in ranked.iter().rev() {
            if gone + bucket.len() > total / 20 {
                kept.extend_from_slice(bucket);
            } else {
                gone += bucket.len();
            }
        }
    }
    kept
}

fn sorted_keys(items: &[FSRSItem]) -> Vec<Vec<(u32, u32)>> {
    let mut keys: Vec<Vec<(u32, u32)>> = items
        .iter()
        .map(|item| item.reviews.iter().map(|r| (r.rating, r.delta_t)).collect())
        .collect();
    keys.sort();
    keys
}

#[test]
fn filter_agrees_with_the_walk_through_ranked_buckets() {
    let mut numbers = Numbers(2024);
    for round in 0..200 {
        let count = 1 + numbers.next(400) as usize;
        let spread = 1 + numbers.next(12);
        let mut items = Vec::with_capacity(count);
        for _ in 0..count {
            let rating = 1 + numbers.next(4);
            // Most intervals are short, a few are long.
            let delta_t = if numbers.next(10) < 8 {
                1 + numbers.next(spread)
            } else {
                1 + numbers.next(40 * spread)
            };
            items.push(pair(rating, delta_t));
        }
        let kept = filter_outlier(items.clone());
        let walked = filter_by_walk(&items);
        assert_eq!(sorted_keys(&kept), sorted_keys(&walked), "round {}", round);

        let in_order: Vec<FSRSItem> = items
            .iter()
            .filter(|item| {
                count_of(&kept, item.reviews[0].rating, item.reviews[1].delta_t) > 0
            })
            .cloned()
            .collect();
        assert_eq!(kept, in_order, "round {}", round);
    }
}

#[test]
fn filter_handles_the_largest_rating_and_interval() {
    let mut items = bucket(u32::MAX, u32::MAX, 30);
    items.extend(bucket(u32::MAX, 0, 1));
    items.extend(bucket(0, u32::MAX, 1));
    let kept = filter_outlier(items);
    assert_eq!(count_of(&kept, u32::MAX, u32::MAX), 30);
    assert_eq!(count_of(&kept, u32::MAX, 0), 0);
    assert_eq!(count_of(&kept, 0, u32::MAX), 1);
    assert_eq!(kept.len(), 31);
}

#[test]
fn a_group_of_equal_buckets_loses_those_of_the_longest_intervals() {
    let mut items = Vec::new();
    for delta_t in 1..=50 {
        items.extend(bucket(3, delta_t, 2));
    }
    let kept = filter_outlier(items);
    assert_eq!(kept.len(), 96);
    assert_eq!(count_of(&kept, 3, 50), 0);
    assert_eq!(count_of(&kept, 3, 49), 0);
    assert_eq!(count_of(&kept, 3, 48), 2);
    assert_eq!(count_of(&kept, 3, 1), 2);
}
