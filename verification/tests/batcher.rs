use mmtk::util::batcher::make_typical_batches;

#[test]
fn test_not_full() {
    let batches = make_typical_batches(5, 3, false);
    assert!(batches.is_empty());
}

#[test]
fn test_full() {
    let batches = make_typical_batches(5, 5, false);
    assert_eq!(batches.as_slice(), vec![vec![0, 1, 2, 3, 4]].as_slice());
}

#[test]
fn test_multiple_batches() {
    let batches = make_typical_batches(3, 9, false);

    assert_eq!(
        batches.as_slice(),
        vec![vec![0, 1, 2], vec![3, 4, 5], vec![6, 7, 8]].as_slice()
    );
}

#[test]
fn test_remainder() {
    let batches = make_typical_batches(3, 8, false);

    assert_eq!(
        batches.as_slice(),
        vec![vec![0, 1, 2], vec![3, 4, 5]].as_slice()
    );
}

#[test]
fn test_remainder_finish() {
    let batches = make_typical_batches(3, 8, true);

    assert_eq!(
        batches.as_slice(),
        vec![vec![0, 1, 2], vec![3, 4, 5], vec![6, 7]].as_slice()
    );
}

#[test]
fn test_one_batch_finish() {
    let batches = make_typical_batches(5, 4, true);

    assert_eq!(batches.as_slice(), vec![vec![0, 1, 2, 3]].as_slice());
}

#[test]
fn test_empty_batch_finish() {
    let batches = make_typical_batches(5, 0, true);

    assert!(batches.is_empty());
}
