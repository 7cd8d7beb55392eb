use waterfall::{Bucket, Mark, Snapshot};

fn row(values: &[u64]) -> Vec<Bucket> {
    values.iter().map(|v| Bucket { value: *v, count: 0 }).collect()
}

fn snapshot_of(rows: Vec<Vec<Bucket>>) -> Snapshot {
    Snapshot { slices: rows }
}

#[test]
fn first_row_starts_with_the_time_mark() {
    let s = snapshot_of(vec![row(&[0, 1, 2])]);
    let plan = s.marks();
    assert_eq!(plan, vec![Mark::Time { y: 0 }]);
    assert_eq!(plan[0].text(), "00:00");
    assert_eq!((plan[0].column(), plan[0].row()), (0, 0));
}

#[test]
fn first_mark_does_not_depend_on_the_buckets() {
    for values in [vec![0u64], vec![u64::MAX], vec![200, 500], vec![5, 4, 3, 2, 1]] {
        let mut buckets = row(&values);
        buckets[0].count = 99;
        let plan = snapshot_of(vec![buckets]).marks();
        assert_eq!(plan[0], Mark::Time { y: 0 });
        assert_eq!(plan[0].text(), "00:00");
    }
}

#[test]
fn no_slices_no_marks() {
    assert_eq!(snapshot_of(Vec::new()).marks(), Vec::new());
}

#[test]
fn row_without_buckets_has_no_marks() {
    assert_eq!(snapshot_of(vec![Vec::new()]).marks(), Vec::new());
    assert_eq!(snapshot_of(vec![Vec::new(), row(&[1000])]).marks(), Vec::new());
}

#[test]
fn latency_marks_where_a_bucket_reaches_the_next_threshold() {
    let s = snapshot_of(vec![row(&[0, 100, 199, 200, 300, 499, 500, 999, 1000])]);
    assert_eq!(
        s.marks(),
        vec![
            Mark::Time { y: 0 },
            Mark::Latency { x: 3, y: 0, label: 0 },
            Mark::Latency { x: 6, y: 0, label: 1 },
            Mark::Latency { x: 8, y: 0, label: 2 },
        ]
    );
}

#[test]
fn latency_mark_text_and_corner() {
    let s = snapshot_of(vec![row(&[0, 250, 700])]);
    let plan = s.marks();
    assert_eq!(
        plan,
        vec![
            Mark::Time { y: 0 },
            Mark::Latency { x: 1, y: 0, label: 0 },
            Mark::Latency { x: 2, y: 0, label: 1 },
        ]
    );
    assert_eq!(plan[1].text(), "200nS");
    assert_eq!(plan[2].text(), "500nS");
    assert_eq!((plan[1].column(), plan[1].row()), (1, 0));
    assert_eq!((plan[2].column(), plan[2].row()), (2, 0));
}

#[test]
fn one_bucket_takes_one_threshold() {
    // The first bucket is above several thresholds, but each bucket uses up
    // at most one of them.
    let s = snapshot_of(vec![row(&[5000, 5000, 5000])]);
    assert_eq!(
        s.marks(),
        vec![
            Mark::Time { y: 0 },
            Mark::Latency { x: 0, y: 0, label: 0 },
            Mark::Latency { x: 1, y: 0, label: 1 },
            Mark::Latency { x: 2, y: 0, label: 2 },
        ]
    );
}

#[test]
fn only_minute_rows_are_annotated() {
    let mut rows = Vec::new();
    for _ in 0..121 {
        rows.push(row(&[0, 250]));
    }
    let plan = snapshot_of(rows).marks();
    assert_eq!(
        plan,
        vec![
            Mark::Time { y: 0 },
            Mark::Latency { x: 1, y: 0, label: 0 },
            Mark::Time { y: 60 },
            Mark::Time { y: 120 },
        ]
    );
    assert_eq!(plan[2].text(), "00:01");
    assert_eq!(plan[3].text(), "00:02");
}

#[test]
fn thresholds_between_minute_rows_wait_for_the_next_one() {
    let mut rows = vec![row(&[0, 100])];
    for _ in 1..60 {
        rows.push(row(&[0, 1_000_000]));
    }
    rows.push(row(&[0, 600]));
    let plan = snapshot_of(rows).marks();
    assert_eq!(
        plan,
        vec![
            Mark::Time { y: 0 },
            Mark::Time { y: 60 },
            Mark::Latency { x: 1, y: 60, label: 0 },
        ]
    );
}

#[test]
fn the_cursor_carries_over_to_later_rows() {
    let mut rows = vec![row(&[0, 250, 700])];
    for _ in 1..60 {
        rows.push(row(&[0, 0, 0]));
    }
    rows.push(row(&[0, 250, 1500]));
    let plan = snapshot_of(rows).marks();
    assert_eq!(
        plan,
        vec![
            Mark::Time { y: 0 },
            Mark::Latency { x: 1, y: 0, label: 0 },
            Mark::Latency { x: 2, y: 0, label: 1 },
            Mark::Time { y: 60 },
            Mark::Latency { x: 2, y: 60, label: 2 },
        ]
    );
    assert_eq!(plan[4].text(), "1uS");
}

#[test]
fn the_table_is_used_up_after_twenty_marks() {
    let values: Vec<u64> = (0..30).map(|_| u64::MAX).collect();
    let plan = snapshot_of(vec![row(&values)]).marks();
    assert_eq!(plan.len(), 21);
    assert_eq!(plan[0], Mark::Time { y: 0 });
    for l in 0..20 {
        assert_eq!(plan[l + 1], Mark::Latency { x: l, y: 0, label: l });
    }
    assert_eq!(plan[20].text(), "500mS");
}

#[test]
fn time_mark_comes_before_the_latency_mark_of_the_first_bucket() {
    let plan = snapshot_of(vec![row(&[200])]).marks();
    assert_eq!(plan, vec![Mark::Time { y: 0 }, Mark::Latency { x: 0, y: 0, label: 0 }]);
}
