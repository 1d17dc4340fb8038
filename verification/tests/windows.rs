use hrtb_lending_iterator::{ExactSizeLendingIterator, LendingIterator, SliceExt};

#[test]
fn windows_are_the_slices_of_the_sequence() {
    let mut v = [0, 1, 2, 3, 4];
    let mut windows = v.windows_mut::<3>();
    assert_eq!(windows.next(), Some(&mut [0, 1, 2]));
    assert_eq!(windows.next(), Some(&mut [1, 2, 3]));
    assert_eq!(windows.next(), Some(&mut [2, 3, 4]));
    assert_eq!(windows.next(), None);
    assert_eq!(windows.next(), None);
    assert_eq!(v, [0, 1, 2, 3, 4]);
}

#[test]
fn there_are_as_many_windows_as_fit() {
    let mut v = [9u8; 7];
    for size in 1..=7 {
        let count = match size {
            1 => v.windows_mut::<1>().fold(0, |n, _| n + 1),
            2 => v.windows_mut::<2>().fold(0, |n, _| n + 1),
            3 => v.windows_mut::<3>().fold(0, |n, _| n + 1),
            4 => v.windows_mut::<4>().fold(0, |n, _| n + 1),
            5 => v.windows_mut::<5>().fold(0, |n, _| n + 1),
            6 => v.windows_mut::<6>().fold(0, |n, _| n + 1),
            _ => v.windows_mut::<7>().fold(0, |n, _| n + 1),
        };
        assert_eq!(count, 7 - size + 1);
    }
}

#[test]
fn a_window_as_long_as_the_slice_is_the_slice() {
    let mut v = [1, 2, 3];
    let mut windows = v.windows_mut::<3>();
    assert_eq!(windows.next(), Some(&mut [1, 2, 3]));
    assert_eq!(windows.next(), None);
}

#[test]
fn a_window_longer_than_the_slice_never_comes() {
    let mut v = [1, 2, 3];
    let mut windows = v.windows_mut::<4>();
    assert_eq!(windows.next(), None);
    assert_eq!(windows.next(), None);

    let mut empty: [i32; 0] = [];
    assert_eq!(empty.windows_mut::<1>().next(), None);
}

#[test]
fn what_is_written_to_a_window_shows_in_the_next() {
    let mut v = [0, 1, 2, 3, 4];
    let mut windows = v.windows_mut::<3>();
    while let Some(w) = windows.next() {
        w[0] = w[2] - w[1];
    }
    assert_eq!(v, [1, 1, 1, 3, 4]);

    let mut v = [1, 0, 0, 0];
    let mut windows = v.windows_mut::<2>();
    while let Some(w) = windows.next() {
        w[1] = w[0] + 1;
    }
    assert_eq!(v, [1, 2, 3, 4]);
}

#[test]
fn the_length_counts_the_windows_to_come() {
    let mut v = [0, 1, 2, 3, 4];
    let mut windows = v.windows_mut::<3>();
    assert_eq!(windows.len(), 3);
    assert!(!windows.is_empty());
    windows.next();
    assert_eq!(windows.len(), 2);
    windows.next();
    windows.next();
    assert_eq!(windows.len(), 0);
    assert!(windows.is_empty());
    windows.next();
    assert_eq!(windows.len(), 0);

    let mut short = [0, 1];
    assert_eq!(short.windows_mut::<3>().len(), 0);
    assert!(short.windows_mut::<3>().is_empty());
}

#[test]
fn windows_work_on_vectors_and_parts_of_slices() {
    let mut v = vec![1, 2, 3, 4];
    let mut windows = v[1..].windows_mut::<2>();
    assert_eq!(windows.next(), Some(&mut [2, 3]));
    assert_eq!(windows.next(), Some(&mut [3, 4]));
    assert_eq!(windows.next(), None);
}
