use cmu_sequence::{array_sequence::ArraySequence, Sequence};

#[derive(Clone, Copy, PartialEq, Eq, PartialOrd, Ord)]
struct CompareStruct {
    i: i32,
    u: usize,
    a: [u8; 5],
}

#[test]
fn test_is_sorted() {
    assert!(ArraySequence::from(vec![1, 2, 3, 4, 5]).is_sorted());
    assert!(!ArraySequence::from(vec![1, 2, 4, 3, 5]).is_sorted());
}

#[test]
fn test_sorted_struct() {
    let test = ArraySequence::from(vec![
        CompareStruct {
            i: -1,
            u: 42,
            a: [1, 2, 3, 4, 5],
        },
        CompareStruct {
            i: -1,
            u: 52,
            a: [1, 2, 3, 4, 5],
        },
        CompareStruct {
            i: 0,
            u: 42,
            a: [1, 2, 3, 4, 5],
        },
        CompareStruct {
            i: 0,
            u: 42,
            a: [1, 2, 6, 4, 5],
        },
        CompareStruct {
            i: 10,
            u: 40,
            a: [0, 2, 3, 4, 5],
        },
    ]);
    assert!(test.is_sorted());

    let test_bad = ArraySequence::from(vec![
        CompareStruct {
            i: -1,
            u: 42,
            a: [1, 2, 3, 4, 5],
        },
        CompareStruct {
            i: 0,
            u: 42,
            a: [1, 2, 3, 4, 6],
        },
        CompareStruct {
            i: 0,
            u: 42,
            a: [1, 2, 3, 4, 5],
        },
        CompareStruct {
            i: 0,
            u: 42,
            a: [1, 2, 6, 4, 5],
        },
        CompareStruct {
            i: 10,
            u: 40,
            a: [0, 2, 3, 4, 5],
        },
    ]);
    assert!(!test_bad.is_sorted());
}

#[test]
fn empty_and_single_are_sorted() {
    let empty: ArraySequence<i32> = ArraySequence::from(vec![]);
    assert!(empty.is_sorted());
    assert!(ArraySequence::singleton(17).is_sorted());
}

#[test]
fn equal_neighbours_are_sorted() {
    assert!(ArraySequence::from(vec![2, 2, 2]).is_sorted());
    assert!(ArraySequence::from(vec![1, 2, 2, 3]).is_sorted());
}

#[test]
fn one_descent_is_not_sorted() {
    assert!(!ArraySequence::from(vec![2, 1]).is_sorted());
    assert!(!ArraySequence::from(vec![1, 2, 3, 2]).is_sorted());
    assert!(!ArraySequence::from(vec![5, 1, 2, 3]).is_sorted());
}

#[test]
fn nth_and_length() {
    let s = ArraySequence::from(vec![10, 20, 30]);
    assert_eq!(s.length(), 3);
    assert_eq!(*s.nth(0), 10);
    assert_eq!(*s.nth(1), 20);
    assert_eq!(*s.nth(2), 30);
}

#[test]
fn iterate_folds_from_the_left() {
    let s = ArraySequence::from(vec![1, 2, 3, 4]);
    assert_eq!(s.iterate(0, |acc, x| acc + *x), 10);
    assert_eq!(s.iterate(100, |acc, x| acc - *x), 90);
    // The order shows in a fold that is not associative.
    assert_eq!(s.iterate(0, |acc, x| 2 * acc + *x), 26);
}

#[test]
fn iterate_may_accumulate_into_another_type() {
    let s = ArraySequence::from(vec![1, 2, 3]);
    let text = s.iterate(String::new(), |acc, x| format!("{}{},", acc, x));
    assert_eq!(text, "1,2,3,");
    let empty: ArraySequence<i32> = ArraySequence::default();
    assert_eq!(empty.iterate(7_u64, |acc, _| acc + 1), 7);
}

#[test]
fn reduce_of_empty_is_the_base() {
    let empty: ArraySequence<i32> = ArraySequence::default();
    assert_eq!(empty.reduce(100, |a, b| a + b), 100);
}

#[test]
fn reduce_leaves_the_base_out() {
    assert_eq!(ArraySequence::from(vec![5]).reduce(100, |a, b| a + b), 5);
    assert_eq!(
        ArraySequence::from(vec![1, 2, 3, 4]).reduce(100, |a, b| a + b),
        10
    );
}

#[test]
fn reduce_folds_from_the_left_seeded_by_the_first() {
    // ((10 - 3) - 2) - 1
    assert_eq!(
        ArraySequence::from(vec![10, 3, 2, 1]).reduce(0, |a, b| a - b),
        4
    );
}

#[test]
fn enumerate_pairs_each_element_with_its_place() {
    let s = ArraySequence::from(vec!['a', 'b', 'c']);
    let pairs = s.enumerate();
    assert_eq!(pairs, vec![(0, 'a'), (1, 'b'), (2, 'c')].into());
    // The sequence itself is as it was.
    assert_eq!(s, vec!['a', 'b', 'c'].into());
    let empty: ArraySequence<char> = ArraySequence::default();
    assert_eq!(empty.enumerate().length(), 0);
}
