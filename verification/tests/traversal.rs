//! Iterating over a list.

use chunked_list::{Iter, List};

fn first_of<'a, const CAPACITY: usize>(mut it: Iter<'a, u8, CAPACITY>) -> Option<&'a u8> {
    it.next()
}

#[test]
fn empty_list_yields_nothing() {
    let list: List<i32, 3> = List::new();
    let mut it = list.iter();
    assert_eq!(it.next(), None);
    assert_eq!(it.next(), None);
}

#[test]
fn yields_each_element_then_none_for_good() {
    let list: List<i32, 2> = List::from_iter(vec![1, 2, 3]);
    let mut it = list.iter();
    assert_eq!(it.next(), Some(&1));
    assert_eq!(it.next(), Some(&2));
    assert_eq!(it.next(), Some(&3));
    assert_eq!(it.next(), None);
    assert_eq!(it.next(), None);
    assert_eq!(it.next(), None);
}

#[test]
fn each_traversal_starts_afresh() {
    let list: List<i32, 2> = List::from_iter(vec![1, 2, 3]);
    let mut first = list.iter();
    assert_eq!(first.next(), Some(&1));
    assert_eq!(first.next(), Some(&2));
    let mut second = list.iter();
    assert_eq!(second.next(), Some(&1));
    assert_eq!(first.next(), Some(&3));
    assert_eq!(second.next(), Some(&2));
    assert_eq!(first.next(), None);
    assert_eq!(second.next(), Some(&3));
    assert_eq!(second.next(), None);
}

#[test]
fn traversal_crosses_chunks_of_different_lengths() {
    let mut list: List<u32, 3> = List::from_iter(vec![0]);
    list.append(List::from_iter(vec![1, 2, 3, 4]));
    list.append(List::from_iter(vec![5, 6]));
    let mut seen = Vec::new();
    let mut it = list.iter();
    while let Some(x) = it.next() {
        seen.push(*x);
    }
    assert_eq!(seen, vec![0, 1, 2, 3, 4, 5, 6]);
}

#[test]
fn traversal_length_is_the_number_of_elements_put_in() {
    let mut list: List<u32, 6> = List::new();
    let mut put_in = 0;
    for round in 0..10u32 {
        list.push(round);
        put_in += 1;
        list.extend(vec![round; 3]);
        put_in += 3;
        list.append(List::from_iter(vec![round; 5]));
        put_in += 5;
    }
    let mut seen = 0;
    let mut it = list.iter();
    while it.next().is_some() {
        seen += 1;
    }
    assert_eq!(seen, put_in);
}

#[test]
fn yielded_references_outlive_the_traversal() {
    let list: List<String, 2> = List::from_iter(vec!["x".to_string(), "y".to_string()]);
    let first: &String = {
        let mut it = list.iter();
        it.next().unwrap()
    };
    assert_eq!(first, "x");
}

#[test]
fn a_traversal_can_be_handed_on() {
    let list: List<u8, 4> = List::from_iter(vec![5, 6, 7, 8, 9]);
    assert_eq!(first_of(list.iter()), Some(&5));
    let mut it = list.iter();
    it.next();
    it.next();
    assert_eq!(first_of(it), Some(&7));
}

fn shareable<S: Send + Sync>(_value: &S) -> bool {
    true
}

#[test]
fn list_of_shareable_elements_is_shareable() {
    let list: List<u64, 4> = List::from_iter(vec![1, 2, 3]);
    assert!(shareable(&list));
    assert!(shareable(&list.iter()));
}
