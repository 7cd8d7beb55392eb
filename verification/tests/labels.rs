use waterfall::{label, time_text, LABEL_COUNT};

#[test]
fn label_table_has_twenty_ascending_entries() {
    let thresholds: Vec<u64> = (0..LABEL_COUNT).map(|l| label(l).threshold).collect();
    assert_eq!(
        thresholds,
        vec![
            200,
            500,
            1_000,
            2_000,
            5_000,
            10_000,
            20_000,
            50_000,
            100_000,
            200_000,
            500_000,
            1_000_000,
            2_000_000,
            5_000_000,
            10_000_000,
            20_000_000,
            50_000_000,
            100_000_000,
            200_000_000,
            500_000_000,
        ]
    );
    for l in 1..LABEL_COUNT {
        assert!(thresholds[l - 1] < thresholds[l]);
    }
}

#[test]
fn label_table_texts() {
    let texts: Vec<&str> = (0..LABEL_COUNT).map(|l| label(l).text).collect();
    assert_eq!(
        texts,
        vec![
            "200nS", "500nS", "1uS", "2uS", "5uS", "10uS", "20uS", "50uS", "100uS", "200uS",
            "500uS", "1mS", "2mS", "5mS", "10mS", "20mS", "50mS", "100mS", "200mS", "500mS",
        ]
    );
}

#[test]
fn time_label_of_the_first_row() {
    assert_eq!(time_text(0), "00:00");
    assert_eq!(time_text(59), "00:00");
}

#[test]
fn time_label_counts_total_minutes() {
    assert_eq!(time_text(60), "00:01");
    assert_eq!(time_text(120), "00:02");
    assert_eq!(time_text(599), "00:09");
    assert_eq!(time_text(600), "00:10");
    assert_eq!(time_text(3540), "00:59");
    assert_eq!(time_text(3600), "01:60");
    assert_eq!(time_text(5999), "01:99");
    assert_eq!(time_text(6000), "01:100");
    assert_eq!(time_text(36000), "10:600");
}

#[test]
fn time_label_matches_zero_padded_formatting() {
    for y in [0usize, 1, 60, 61, 3599, 3600, 7260, 86_400, 360_000, 1_000_000_007] {
        assert_eq!(time_text(y), format!("{:02}:{:02}", y / 3600, y / 60));
    }
    let y = usize::MAX;
    assert_eq!(time_text(y), format!("{:02}:{:02}", y / 3600, y / 60));
}
