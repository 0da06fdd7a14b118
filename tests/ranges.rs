use download_manager::downloader::entry::{calculate_ranges, min};

fn assert_partition(total: usize, par: usize) {
    let v = calculate_ranges(total, par);
    assert!(!v.is_empty());
    assert!(v.len() <= par);
    assert_eq!(v[0].0, 0);
    assert_eq!(v[v.len() - 1].1, total - 1);
    let mut sum = 0;
    for (i, r) in v.iter().enumerate() {
        assert!(r.0 <= r.1);
        if i > 0 {
            assert_eq!(r.0, v[i - 1].1 + 1);
        }
        sum += r.1 - r.0 + 1;
    }
    assert_eq!(sum, total);
}

#[test]
fn thousand_bytes_four_workers() {
    let v = calculate_ranges(1000, 4);
    assert_eq!(v, vec![(0, 249), (250, 499), (500, 749), (750, 999)]);
    let total: usize = v.iter().map(|r| r.1 - r.0 + 1).sum();
    assert_eq!(total, 1000);
    assert!(v.iter().all(|r| r.1 - r.0 + 1 == 250));
}

#[test]
fn ten_bytes_four_workers_tail_takes_rest() {
    let v = calculate_ranges(10, 4);
    assert_eq!(v, vec![(0, 1), (2, 3), (4, 5), (6, 9)]);
    let total: usize = v.iter().map(|r| r.1 - r.0 + 1).sum();
    assert_eq!(total, 10);
}

#[test]
fn zero_bytes_give_no_range() {
    assert!(calculate_ranges(0, 4).is_empty());
}

#[test]
fn fewer_bytes_than_workers() {
    assert_eq!(calculate_ranges(3, 4), vec![(0, 0), (1, 1), (2, 2)]);
}

#[test]
fn one_worker_takes_everything() {
    assert_eq!(calculate_ranges(7, 1), vec![(0, 6)]);
}

#[test]
fn ranges_partition_many_sizes() {
    for total in 1..60 {
        for par in 1..9 {
            assert_partition(total, par);
        }
    }
    assert_partition(usize::MAX, 7);
}

#[test]
fn min_picks_smaller() {
    assert_eq!(min(3, 5), 3);
    assert_eq!(min(5, 3), 3);
    assert_eq!(min(4, 4), 4);
}
