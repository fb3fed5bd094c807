//! Appending one list to another.

use chunked_list::List;

fn elements<T: Clone, const CAPACITY: usize>(list: &List<T, CAPACITY>) -> Vec<T> {
    let mut out = Vec::new();
    let mut it = list.iter();
    while let Some(elem) = it.next() {
        out.push(elem.clone());
    }
    out
}

fn chunk_lens<T, const CAPACITY: usize>(list: &List<T, CAPACITY>) -> Vec<usize> {
    let mut out = Vec::new();
    for index in 0..list.chunk_count() {
        out.push(list.chunk_len(index));
    }
    out
}

#[test]
fn append_to_empty_list() {
    let mut a: List<i32, 4> = List::new();
    let b: List<i32, 4> = List::from_iter(vec![1, 2, 3]);
    a.append(b);
    assert_eq!(elements(&a), vec![1, 2, 3]);
    assert_eq!(chunk_lens(&a), vec![3]);
}

#[test]
fn append_to_non_empty_list() {
    let mut a: List<i32, 4> = List::from_iter(vec![0]);
    let b: List<i32, 4> = List::from_iter(vec![1, 2, 3]);
    a.append(b);
    assert_eq!(elements(&a), vec![0, 1, 2, 3]);
    assert_eq!(chunk_lens(&a), vec![1, 3]);
}

#[test]
fn append_empty_list() {
    let mut a: List<i32, 2> = List::from_iter(vec![1, 2, 3]);
    a.append(List::new());
    assert_eq!(elements(&a), vec![1, 2, 3]);
    assert_eq!(chunk_lens(&a), vec![2, 1]);
}

#[test]
fn append_empty_to_empty() {
    let mut a: List<i32, 2> = List::new();
    a.append(List::new());
    assert_eq!(a.chunk_count(), 0);
    assert_eq!(elements(&a), Vec::<i32>::new());
    a.push(9);
    assert_eq!(elements(&a), vec![9]);
}

#[test]
fn append_keeps_order_for_many_sizes() {
    for front in 0..12u32 {
        for back in 0..12u32 {
            let mut a: List<u32, 5> = List::from_iter((0..front).collect());
            let b: List<u32, 5> = List::from_iter((100..100 + back).collect());
            a.append(b);
            let mut expected: Vec<u32> = (0..front).collect();
            expected.extend(100..100 + back);
            assert_eq!(elements(&a), expected);
        }
    }
}

#[test]
fn append_keeps_every_chunk_as_it_was() {
    let mut a: List<u32, 37> = List::from_iter((0..103).collect());
    let b: List<u32, 37> = List::from_iter((598..700).collect());
    a.append(b);
    assert_eq!(chunk_lens(&a), vec![37, 37, 29, 37, 37, 28]);
}

#[test]
fn append_single_stores_what_push_stores() {
    for count in 0..9u32 {
        let mut appended: List<u32, 3> = List::from_iter((0..count).collect());
        let mut single: List<u32, 3> = List::new();
        single.push(77);
        appended.append(single);
        let mut pushed: List<u32, 3> = List::from_iter((0..count).collect());
        pushed.push(77);
        assert_eq!(elements(&appended), elements(&pushed));
        if count % 3 == 0 {
            assert_eq!(chunk_lens(&appended), chunk_lens(&pushed));
        }
    }
}

#[test]
fn append_single_opens_a_chunk_where_push_fills_the_tail() {
    let mut appended: List<u32, 3> = List::from_iter(vec![1]);
    appended.append(List::from_iter(vec![2]));
    let mut pushed: List<u32, 3> = List::from_iter(vec![1]);
    pushed.push(2);
    assert_eq!(chunk_lens(&appended), vec![1, 1]);
    assert_eq!(chunk_lens(&pushed), vec![2]);
    assert_eq!(elements(&appended), vec![1, 2]);
    assert_eq!(elements(&pushed), vec![1, 2]);
}

#[test]
fn push_after_append_goes_into_the_new_tail() {
    let mut a: List<u32, 3> = List::from_iter(vec![0]);
    a.append(List::from_iter(vec![1, 2]));
    a.push(3);
    assert_eq!(chunk_lens(&a), vec![1, 3]);
    a.push(4);
    assert_eq!(chunk_lens(&a), vec![1, 3, 1]);
    assert_eq!(elements(&a), vec![0, 1, 2, 3, 4]);
}

#[test]
fn repeated_appends() {
    let mut all: List<u32, 4> = List::new();
    let mut expected = Vec::new();
    for round in 0..6u32 {
        let part: Vec<u32> = (0..round).map(|x| round * 10 + x).collect();
        expected.extend(part.iter().copied());
        all.append(List::from_iter(part));
    }
    assert_eq!(elements(&all), expected);
    assert_eq!(chunk_lens(&all), vec![1, 2, 3, 4, 4, 1]);
}
