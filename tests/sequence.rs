use nomvec::Vec as NomVec;

fn contents(v: &NomVec<i32>) -> Vec<i32> {
    let mut out = Vec::new();
    for i in 0..v.len() {
        out.push(*v.get(i));
    }
    out
}

fn from_values(vals: &[i32]) -> NomVec<i32> {
    let mut v = NomVec::new();
    for &x in vals {
        v.push(x);
    }
    v
}

#[test]
fn new_is_empty() {
    let v: NomVec<i32> = NomVec::new();
    assert_eq!(v.len(), 0);
    assert!(v.is_empty());
    assert_eq!(v.capacity(), 0);
}

#[test]
fn pushes_read_back_in_order() {
    let vals: Vec<i32> = (0..100).map(|i| i * 3 - 7).collect();
    let v = from_values(&vals);
    assert_eq!(v.len(), 100);
    assert_eq!(contents(&v), vals);
}

#[test]
fn push_then_pop_round_trip() {
    let mut v = from_values(&[4, 8, 15]);
    v.push(16);
    assert_eq!(v.pop(), Some(16));
    assert_eq!(v.len(), 3);
    assert_eq!(contents(&v), vec![4, 8, 15]);
}

#[test]
fn pop_on_empty_gives_none() {
    let mut v: NomVec<i32> = NomVec::new();
    assert_eq!(v.pop(), None);
    assert_eq!(v.len(), 0);
}

#[test]
fn insert_then_remove_round_trip() {
    for i in 0..=4 {
        let mut v = from_values(&[10, 20, 30, 40]);
        v.insert(i, 99);
        assert_eq!(*v.get(i), 99);
        assert_eq!(v.len(), 5);
        assert_eq!(v.remove(i), 99);
        assert_eq!(contents(&v), vec![10, 20, 30, 40]);
    }
}

#[test]
fn insert_at_end_appends() {
    let mut v = from_values(&[1, 2]);
    v.insert(2, 3);
    assert_eq!(contents(&v), vec![1, 2, 3]);
}

#[test]
fn insert_into_empty() {
    let mut v: NomVec<i32> = NomVec::new();
    v.insert(0, 7);
    assert_eq!(contents(&v), vec![7]);
    assert_eq!(v.capacity(), 1);
}

#[test]
fn remove_deletes_one_element_keeping_order() {
    let vals = [5, 6, 7, 8, 9];
    for i in 0..vals.len() {
        let mut v = from_values(&vals);
        assert_eq!(v.remove(i), vals[i]);
        let mut expected = vals.to_vec();
        expected.remove(i);
        assert_eq!(contents(&v), expected);
    }
}

#[test]
fn get_mut_writes_in_place() {
    let mut v = from_values(&[1, 2, 3]);
    *v.get_mut(1) = 20;
    assert_eq!(contents(&v), vec![1, 20, 3]);
}

#[test]
fn capacity_doubles_on_growth() {
    let mut v: NomVec<u64> = NomVec::new();
    let expected = [1, 2, 4, 4, 8, 8, 8, 8, 16];
    for (i, &cap) in expected.iter().enumerate() {
        v.push(i as u64);
        assert_eq!(v.capacity(), cap);
    }
}

#[test]
fn insert_and_remove_never_shrink() {
    let mut v = from_values(&[1, 2, 3]);
    assert_eq!(v.capacity(), 4);
    v.insert(0, 0);
    assert_eq!(v.capacity(), 4);
    v.insert(2, 5);
    assert_eq!(v.capacity(), 8);
    while v.len() > 0 {
        v.remove(0);
        assert_eq!(v.capacity(), 8);
    }
    assert_eq!(v.pop(), None);
    assert_eq!(v.capacity(), 8);
}

#[test]
fn end_to_end() {
    let mut v = from_values(&[1, 2, 3, 4, 5]);
    assert_eq!(v.remove(2), 3);
    assert_eq!(contents(&v), vec![1, 2, 4, 5]);
    assert_eq!(v.pop(), Some(5));
    assert_eq!(contents(&v), vec![1, 2, 4]);
    let mut it = v.into_iter();
    assert_eq!(it.next(), Some(1));
    assert_eq!(it.next_back(), Some(4));
    assert_eq!(it.next(), Some(2));
    assert_eq!(it.next(), None);
}
