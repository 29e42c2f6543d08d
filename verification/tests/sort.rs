//! The order of the torrent list.
use std::cmp::Ordering;

use rill::sort::{compare, in_order, SortKey, SortOrder};

fn key(name: &str, total: u64, downloaded: u64, added: i64) -> SortKey {
    SortKey {
        name: name.to_string(),
        total,
        downloaded,
        added: (added, added as u64),
    }
}

const ORDERS: [SortOrder; 4] = [
    SortOrder::Added,
    SortOrder::Name,
    SortOrder::Size,
    SortOrder::Progress,
];

#[test]
fn an_order_falls_back_to_the_one_the_torrents_were_added_in() {
    let old = key("Zulu", 100, 50, 1);
    let new = key("Alpha", 100, 50, 2);

    assert_eq!(compare(SortOrder::Added, &old, &new), Ordering::Less);
    assert_eq!(compare(SortOrder::Name, &old, &new), Ordering::Greater);
    // Same name, same size, same progress: the older one comes first.
    let same = key("Zulu", 100, 50, 3);
    for order in ORDERS {
        assert_eq!(compare(order, &old, &same), Ordering::Less, "{order:?}");
    }
}

#[test]
fn the_biggest_and_the_most_complete_torrents_come_first() {
    let big = key("Big", 900, 90, 1);
    let small = key("Small", 100, 90, 2);

    assert_eq!(compare(SortOrder::Size, &big, &small), Ordering::Less);
    // 10% against 90%.
    assert_eq!(
        compare(SortOrder::Progress, &big, &small),
        Ordering::Greater
    );

    // A torrent whose size is not known yet is last by size and by progress.
    let unknown = key("Unknown", 0, 0, 3);
    assert_eq!(
        compare(SortOrder::Size, &unknown, &small),
        Ordering::Greater
    );
    assert_eq!(
        compare(SortOrder::Progress, &unknown, &big),
        Ordering::Greater
    );
}

#[test]
fn an_unknown_stored_order_is_the_default_one() {
    assert_eq!(SortOrder::from_key("nonsense"), SortOrder::Added);
    assert_eq!(SortOrder::default(), SortOrder::Added);
    for order in ORDERS {
        assert_eq!(SortOrder::from_key(order.key()), order);
    }
}

#[test]
fn names_are_compared_without_regard_to_case() {
    let upper = key("ÄPFEL", 0, 0, 1);
    let lower = key("äpfel", 0, 0, 2);
    let other = key("Birnen", 0, 0, 3);
    assert_eq!(compare(SortOrder::Name, &upper, &lower), Ordering::Less);
    assert_eq!(compare(SortOrder::Name, &lower, &upper), Ordering::Greater);
    assert_eq!(compare(SortOrder::Name, &other, &upper), Ordering::Less);
}

#[test]
fn a_row_stays_in_place_until_it_passes_a_neighbour() {
    let first = key("a", 300, 0, 1);
    let middle = key("b", 200, 0, 2);
    let last = key("c", 100, 0, 3);
    assert!(in_order(SortOrder::Size, Some(&first), &middle, Some(&last)));
    assert!(!in_order(SortOrder::Size, Some(&last), &middle, None));
    assert!(!in_order(SortOrder::Size, None, &middle, Some(&first)));
    assert!(in_order(SortOrder::Added, Some(&last), &middle, Some(&first)));
    assert!(in_order(SortOrder::Name, None, &middle, None));
}
