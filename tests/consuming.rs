use nomvec::{IntoIter, Vec as NomVec};
use std::rc::Rc;

fn from_values(vals: &[i32]) -> NomVec<i32> {
    let mut v = NomVec::new();
    for &x in vals {
        v.push(x);
    }
    v
}

#[test]
fn front_yields_in_order() {
    let mut it = from_values(&[3, 1, 4, 1, 5]).into_iter();
    let mut out = Vec::new();
    while let Some(x) = it.next() {
        out.push(x);
    }
    assert_eq!(out, vec![3, 1, 4, 1, 5]);
    assert_eq!(it.next_back(), None);
}

#[test]
fn back_yields_in_reverse() {
    let mut it = from_values(&[3, 1, 4, 1, 5]).into_iter();
    let mut out = Vec::new();
    while let Some(x) = it.next_back() {
        out.push(x);
    }
    assert_eq!(out, vec![5, 1, 4, 1, 3]);
    assert_eq!(it.next(), None);
}

#[test]
fn interleaved_yields_each_once() {
    let vals: Vec<i32> = (0..9).collect();
    let mut it = from_values(&vals).into_iter();
    let mut front = Vec::new();
    let mut back = Vec::new();
    let mut from_front = true;
    loop {
        let got = if from_front { it.next() } else { it.next_back() };
        match got {
            Some(x) => {
                if from_front {
                    front.push(x)
                } else {
                    back.push(x)
                }
            }
            None => break,
        }
        from_front = !from_front;
    }
    back.reverse();
    front.extend(back);
    assert_eq!(front, vals);
}

#[test]
fn size_hint_counts_what_is_left() {
    let mut it: IntoIter<i32> = from_values(&[1, 2, 3, 4]).into_iter();
    assert_eq!(it.size_hint(), (4, Some(4)));
    it.next();
    assert_eq!(it.size_hint(), (3, Some(3)));
    it.next_back();
    assert_eq!(it.size_hint(), (2, Some(2)));
    it.next();
    it.next();
    assert_eq!(it.size_hint(), (0, Some(0)));
    assert_eq!(it.next(), None);
}

#[test]
fn empty_iterator_is_exhausted() {
    let v: NomVec<i32> = NomVec::new();
    let mut it = v.into_iter();
    assert_eq!(it.size_hint(), (0, Some(0)));
    assert_eq!(it.next(), None);
    assert_eq!(it.next_back(), None);
}

#[test]
fn dropping_partly_consumed_iterator_drops_the_rest() {
    let tracker = Rc::new(());
    let mut v = NomVec::new();
    for _ in 0..5 {
        v.push(Rc::clone(&tracker));
    }
    assert_eq!(Rc::strong_count(&tracker), 6);
    let mut it = v.into_iter();
    let a = it.next().unwrap();
    let b = it.next_back().unwrap();
    assert_eq!(Rc::strong_count(&tracker), 6);
    drop(it);
    assert_eq!(Rc::strong_count(&tracker), 3);
    drop(a);
    drop(b);
    assert_eq!(Rc::strong_count(&tracker), 1);
}

#[test]
fn dropping_the_sequence_drops_its_elements() {
    let tracker = Rc::new(());
    let mut v = NomVec::new();
    for _ in 0..3 {
        v.push(Rc::clone(&tracker));
    }
    let popped = v.pop().unwrap();
    assert_eq!(Rc::strong_count(&tracker), 4);
    drop(v);
    assert_eq!(Rc::strong_count(&tracker), 2);
    drop(popped);
    assert_eq!(Rc::strong_count(&tracker), 1);
}

#[test]
fn moved_out_values_are_not_dropped_again() {
    let tracker = Rc::new(());
    let mut v = NomVec::new();
    for _ in 0..4 {
        v.push(Rc::clone(&tracker));
    }
    let mid = v.remove(1);
    v.insert(0, mid);
    let mut it = v.into_iter();
    let mut taken = Vec::new();
    while let Some(x) = it.next() {
        taken.push(x);
    }
    drop(it);
    assert_eq!(Rc::strong_count(&tracker), 5);
    drop(taken);
    assert_eq!(Rc::strong_count(&tracker), 1);
}
