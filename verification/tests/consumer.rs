use cmu_sequence::{array_sequence::ArraySequence, Sequence};

#[test]
fn split_at_parts_the_sequence() {
    let s = ArraySequence::from(vec![1, 2, 3, 4, 5]);
    let (a, b) = s.split_at(2);
    assert_eq!(a, vec![1, 2].into());
    assert_eq!(b, vec![3, 4, 5].into());
}

#[test]
fn split_at_the_ends() {
    let (a, b) = ArraySequence::from(vec![1, 2, 3]).split_at(0);
    assert_eq!(a.length(), 0);
    assert_eq!(b, vec![1, 2, 3].into());
    let (c, d) = ArraySequence::from(vec![1, 2, 3]).split_at(3);
    assert_eq!(c, vec![1, 2, 3].into());
    assert_eq!(d.length(), 0);
}

#[test]
fn split_at_then_append_gives_the_sequence_back() {
    let whole = vec!['s', 'e', 'q', 'u', 'e', 'n', 'c', 'e'];
    for mid in 0..=whole.len() {
        let (mut a, b) = ArraySequence::from(whole.clone()).split_at(mid);
        assert_eq!(a.length(), mid);
        assert_eq!(b.length(), whole.len() - mid);
        a.append(b);
        assert_eq!(a, whole.clone().into());
    }
}
