use digit_net::training::{arg_max, batch_ranges, count_hits, epoch_batches};

#[test]
fn batches_drop_the_remainder() {
    let batches = batch_ranges(11, 5);
    assert_eq!(batches.len(), 2);
    assert_eq!((batches[0].start, batches[0].end), (0, 5));
    assert_eq!((batches[1].start, batches[1].end), (5, 10));
    let mut touched = vec![0usize; 11];
    for b in &batches {
        for s in b.start..b.end {
            touched[s] += 1;
        }
    }
    assert_eq!(touched, vec![1, 1, 1, 1, 1, 1, 1, 1, 1, 1, 0]);
}

#[test]
fn batches_exact_and_too_few() {
    assert_eq!(batch_ranges(10, 5).len(), 2);
    assert_eq!(batch_ranges(4, 5).len(), 0);
    assert_eq!(batch_ranges(0, 1).len(), 0);
    let ones = batch_ranges(3, 1);
    assert_eq!(ones.iter().map(|b| (b.start, b.end)).collect::<Vec<_>>(), vec![(0, 1), (1, 2), (2, 3)]);
}

#[test]
fn epochs_cycle_through_batches() {
    assert_eq!(epoch_batches(7, 3), vec![0, 1, 2, 0, 1, 2, 0]);
    assert_eq!(epoch_batches(2, 5), vec![0, 1]);
    assert_eq!(epoch_batches(0, 0), Vec::<usize>::new());
}

#[test]
fn arg_max_takes_the_first_largest() {
    assert_eq!(arg_max(&vec![0.1, 0.9, 0.3, 0.9], |a: f64, b: f64| a > b), 1);
    assert_eq!(arg_max(&vec![5.0], |a: f64, b: f64| a > b), 0);
    assert_eq!(arg_max(&Vec::<f64>::new(), |a: f64, b: f64| a > b), 0);
    assert_eq!(arg_max(&vec![3u8, 1, 2], |a: u8, b: u8| a > b), 0);
    assert_eq!(arg_max(&vec![1u8, 2, 7, 7, 0], |a: u8, b: u8| a > b), 2);
}

#[test]
fn hits_are_counted_where_the_target_is_one() {
    let targets = vec![vec![0.0, 1.0, 0.0], vec![1.0, 0.0, 0.0], vec![0.0, 0.0, 1.0], vec![0.0, 1.0, 0.0]];
    assert_eq!(count_hits(&vec![1, 2, 2, 1], &targets, |t: f64| t == 1.0), 3);
    assert_eq!(count_hits(&vec![0, 1, 0, 0], &targets, |t: f64| t == 1.0), 0);
    assert_eq!(count_hits(&vec![], &Vec::<Vec<f64>>::new(), |t: f64| t == 1.0), 0);
}
