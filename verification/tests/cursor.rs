use toy_vec::{Iter, ToyVec};

fn filled(values: &[i32]) -> ToyVec<i32> {
    let mut v = ToyVec::new();
    for x in values {
        v.push(*x);
    }
    v
}

fn drain<'a>(it: &mut Iter<'a, i32>) -> Vec<i32> {
    let mut out = Vec::new();
    while let Some(x) = it.next() {
        out.push(*x);
    }
    out
}

#[test]
fn cursor_over_empty_is_exhausted() {
    let v: ToyVec<i32> = ToyVec::new();
    let mut it = v.iter();
    assert_eq!(it.next(), None);
    assert_eq!(it.next(), None);

    let v: ToyVec<i32> = ToyVec::with_capacity(4);
    let mut it = v.iter();
    assert_eq!(it.next(), None);
}

#[test]
fn cursor_reads_back_what_was_pushed() {
    for n in [1usize, 2, 3, 4, 5, 8, 9, 100, 257] {
        let values: Vec<i32> = (0..n as i32).map(|x| x * 7 - 3).collect();
        let v = filled(&values);
        let mut it = v.iter();
        assert_eq!(drain(&mut it), values);
    }
}

#[test]
fn cursor_gives_exactly_len_items_then_nothing() {
    let v = filled(&[4, 5, 6]);
    let mut it = v.iter();
    assert_eq!(it.next(), Some(&4));
    assert_eq!(it.next(), Some(&5));
    assert_eq!(it.next(), Some(&6));
    for _ in 0..10 {
        assert_eq!(it.next(), None);
    }
}

#[test]
fn cursor_skips_placeholder_slots() {
    let mut v: ToyVec<i32> = ToyVec::with_capacity(10);
    v.push(1);
    v.push(2);
    let mut it = v.iter();
    assert_eq!(drain(&mut it), vec![1, 2]);
}

#[test]
fn fresh_cursor_starts_over() {
    let v = filled(&[1, 2, 3]);
    let mut first = v.iter();
    assert_eq!(drain(&mut first), vec![1, 2, 3]);
    assert_eq!(first.next(), None);
    let mut second = v.iter();
    assert_eq!(drain(&mut second), vec![1, 2, 3]);
}

#[test]
fn cursors_and_reads_coexist() {
    let v = filled(&[10, 20, 30]);
    let mut a = v.iter();
    let mut b = v.iter();
    assert_eq!(a.next(), Some(&10));
    assert_eq!(v.get(2), Some(&30));
    assert_eq!(b.next(), Some(&10));
    assert_eq!(a.next(), Some(&20));
    assert_eq!(v.len(), 3);
    assert_eq!(b.next(), Some(&20));
    assert_eq!(a.next(), Some(&30));
    assert_eq!(a.next(), None);
    assert_eq!(b.next(), Some(&30));
    assert_eq!(b.next(), None);
}

#[test]
fn push_resumes_after_cursor_is_released() {
    let mut v: ToyVec<String> = ToyVec::new();
    v.push("Java Finch".to_string());
    v.push("Budgerigar".to_string());
    {
        let mut iter = v.iter();
        assert_eq!(iter.next(), Some(&"Java Finch".to_string()));
    }
    v.push("Canary".to_string());
    assert_eq!(v.len(), 3);
    assert_eq!(v.capacity(), 4);
    let mut iter = v.iter();
    assert_eq!(iter.next(), Some(&"Java Finch".to_string()));
    assert_eq!(iter.next(), Some(&"Budgerigar".to_string()));
    assert_eq!(iter.next(), Some(&"Canary".to_string()));
    assert_eq!(iter.next(), None);
}

#[test]
fn items_outlive_the_cursor_that_gave_them() {
    let v = filled(&[7, 8]);
    let first = {
        let mut it = v.iter();
        it.next()
    };
    assert_eq!(first, Some(&7));
}
