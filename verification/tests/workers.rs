use pitch::workers::{worker_range, WORKERS};

#[test]
fn four_workers_share_the_frames() {
    assert_eq!(WORKERS, 4);
    let shares: Vec<(usize, usize)> = (0..4).map(|w| worker_range(w, 4, 10)).collect();
    assert_eq!(shares, vec![(0, 2), (2, 5), (5, 7), (7, 10)]);
}

#[test]
fn fewer_frames_than_workers_leave_empty_shares() {
    let shares: Vec<(usize, usize)> = (0..4).map(|w| worker_range(w, 4, 3)).collect();
    assert_eq!(shares, vec![(0, 0), (0, 1), (1, 2), (2, 3)]);
    let none: Vec<(usize, usize)> = (0..4).map(|w| worker_range(w, 4, 0)).collect();
    assert_eq!(none, vec![(0, 0), (0, 0), (0, 0), (0, 0)]);
}

#[test]
fn shares_cover_every_frame_once_and_in_order() {
    for workers in 1usize..9 {
        for items in 0usize..50 {
            let mut next = 0;
            for w in 0..workers {
                let (start, end) = worker_range(w, workers, items);
                assert_eq!(start, w * items / workers);
                assert_eq!(end, (w + 1) * items / workers);
                assert_eq!(start, next);
                assert!(start <= end);
                next = end;
            }
            assert_eq!(next, items);
        }
    }
}

#[test]
fn shares_of_the_longest_list_do_not_overflow() {
    assert_eq!(worker_range(3, 4, usize::MAX), (usize::MAX / 4 * 3 + 2, usize::MAX));
    assert_eq!(worker_range(0, 4, usize::MAX).0, 0);
}
