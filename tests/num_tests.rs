use snake::num::{range, Num};

#[test]
fn range_counts_up_to_stop() {
    let mut r = range(0usize, 5usize);
    let mut seen = Vec::new();
    while let Some(v) = r.next() {
        seen.push(v);
    }
    assert_eq!(seen, vec![0, 1, 2, 3, 4]);
    assert_eq!(r.next(), None);
}

#[test]
fn empty_range_yields_nothing() {
    let mut r = range(7u32, 7u32);
    assert_eq!(r.next(), None);
    let mut s = range(3isize, -2isize);
    assert_eq!(s.next(), None);
}

#[test]
fn range_of_signed_values() {
    let mut r = range(-2isize, 1isize);
    assert_eq!(r.next(), Some(-2));
    assert_eq!(r.next(), Some(-1));
    assert_eq!(r.next(), Some(0));
    assert_eq!(r.next(), None);
}

#[test]
fn range_ending_at_the_largest_value() {
    let mut r = range(u32::MAX - 1, u32::MAX);
    assert_eq!(r.next(), Some(u32::MAX - 1));
    assert_eq!(r.next(), None);
}

#[test]
fn num_compare_add_one() {
    assert_eq!(Num::cmp(&3usize, &4usize), -1);
    assert_eq!(Num::cmp(&4u32, &4u32), 0);
    assert_eq!(Num::cmp(&5isize, &-4isize), 1);
    assert_eq!(Num::add(&3usize, &4usize), 7);
    assert_eq!(Num::add(&-3isize, &1isize), -2);
    assert_eq!(<u32 as Num>::one(), 1);
}
