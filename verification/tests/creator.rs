use cmu_sequence::{array_sequence::ArraySequence, Sequence};
use std::sync::Arc;

#[derive(Default, Debug, Clone, Copy, PartialEq, Eq, PartialOrd, Ord)]
struct TestStruct {
    i: i32,
    x: usize,
    y: char,
    z: Option<bool>,
}

#[derive(Default, Debug, Clone, Copy, PartialEq, Eq, PartialOrd, Ord)]
struct TestStructRef<'a> {
    s: &'a str,
    r: Option<char>,
}

#[test]
fn singleton_basics() {
    let singleton = ArraySequence::singleton(3);
    assert_eq!(*singleton.nth(0), 3);
}

#[test]
fn tabulate_basics() {
    assert_eq!(
        ArraySequence::tabulate(5, |i| i),
        vec![0, 1, 2, 3, 4].into()
    );

    assert_eq!(
        ArraySequence::tabulate(5, |i| 2 * i + 1),
        vec![1, 3, 5, 7, 9].into()
    );

    assert_eq!(
        ArraySequence::tabulate(5, |_| "Hello"),
        vec!["Hello", "Hello", "Hello", "Hello", "Hello",].into()
    );
}

#[test]
fn tabulate_slice() {
    let slice = [1, 2, 3, 4, 5];
    assert_eq!(
        ArraySequence::tabulate(5, |i| &slice[..=i]),
        vec![
            &slice[..1],
            &slice[..2],
            &slice[..3],
            &slice[..4],
            &slice[..5]
        ]
        .into()
    )
}

#[test]
fn tabulate_arc() {
    let arc = Arc::new(42);
    assert_eq!(
        ArraySequence::tabulate(3, |_| &arc),
        vec![&Arc::new(42), &Arc::new(42), &Arc::new(42)].into()
    )
}

#[test]
fn tabulate_tuple() {
    assert_eq!(
        ArraySequence::tabulate(5, |i| (i as i32, -(i as i32))),
        vec![(0, 0), (1, -1), (2, -2), (3, -3), (4, -4)].into()
    )
}

#[test]
fn tabulate_struct() {
    assert_eq!(
        ArraySequence::tabulate(3, |_| TestStruct::default()),
        vec![
            TestStruct::default(),
            TestStruct::default(),
            TestStruct::default(),
        ]
        .into()
    )
}

#[test]
fn tabulate_ref() {
    let hello_str = "Hello World";
    assert_eq!(
        ArraySequence::tabulate(6, |i| &hello_str[0..(i * 2)]),
        vec!["", "He", "Hell", "Hello ", "Hello Wo", "Hello Worl",].into()
    )
}

#[test]
fn tabulate_struct_ref() {
    let hello_str = "Hello World";
    assert_eq!(
        ArraySequence::tabulate(2, |i| TestStructRef {
            s: &hello_str[i + 2..i + 5],
            r: std::char::from_digit((i * 1000) as u32, 10)
        }),
        vec![
            TestStructRef {
                s: "llo",
                r: Some('0')
            },
            TestStructRef { s: "lo ", r: None }
        ]
        .into()
    )
}

#[test]
fn singleton_has_one_element() {
    let s = ArraySequence::singleton('x');
    assert_eq!(s.length(), 1);
    assert_eq!(Vec::from(s), vec!['x']);
}

#[test]
fn tabulate_of_no_element_is_empty() {
    let s: ArraySequence<u8> = ArraySequence::tabulate(0, |i| i as u8);
    assert_eq!(s.length(), 0);
    assert_eq!(s, ArraySequence::default());
}

#[test]
fn tabulate_holds_at_each_place_what_the_function_gives() {
    let f = |i: usize| 3 * i + 7;
    let s = ArraySequence::tabulate(40, f);
    assert_eq!(s.length(), 40);
    for i in 0..40 {
        assert_eq!(*s.nth(i), f(i));
    }
}

#[test]
fn from_vec_and_back_keeps_the_elements() {
    let v = vec![9, 8, 7, 7, 1];
    let s = ArraySequence::from(v.clone());
    assert_eq!(s.length(), 5);
    assert_eq!(*s.nth(0), 9);
    assert_eq!(*s.nth(4), 1);
    let slice: &[i32] = s.as_ref();
    assert_eq!(slice, &[9, 8, 7, 7, 1]);
    let back: Vec<i32> = s.into();
    assert_eq!(back, v);
}

#[test]
fn default_is_empty_and_clone_is_equal() {
    let empty: ArraySequence<i64> = ArraySequence::default();
    assert_eq!(empty.length(), 0);
    let s = ArraySequence::from(vec![4_i64, 5, 6]);
    let c = s.clone();
    assert_eq!(c, s);
    assert_eq!(Vec::from(c), vec![4, 5, 6]);
}
