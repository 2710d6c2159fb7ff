use bgutil_rs::stage::{ParseError, Stage};
use bgutil_rs::timerange::TimeRange;

#[test]
fn parse_simple_stage() {
    let s = Stage::parse("11520*60s").unwrap();
    assert_eq!(s.points, 11520);
    assert_eq!(s.precision, 60);
    assert_eq!(s.factor, 's');
}

#[test]
fn parse_all_units() {
    assert_eq!(Stage::parse("1*1s").unwrap().precision_as_seconds(), 1);
    assert_eq!(Stage::parse("1*1m").unwrap().precision_as_seconds(), 60);
    assert_eq!(Stage::parse("1*1h").unwrap().precision_as_seconds(), 3600);
    assert_eq!(Stage::parse("1*1d").unwrap().precision_as_seconds(), 86400);
    assert_eq!(Stage::parse("1*1w").unwrap().precision_as_seconds(), 604800);
    assert_eq!(Stage::parse("1*1y").unwrap().precision_as_seconds(), 31536000);
}

#[test]
fn parse_precision_scales_with_magnitude() {
    assert_eq!(Stage::parse("720*3600s").unwrap().precision_as_seconds(), 3600);
    assert_eq!(Stage::parse("10*2m").unwrap().precision_as_seconds(), 120);
}

#[test]
fn parse_rejects_malformed() {
    for bad in [
        "", "x", "12", "12*", "12*s", "12*60", "12*60z", "*60s", "a*60s", "12**60s", "1*2*3s",
        "12*6a0s", "-1*60s", "12*60sy",
    ] {
        assert_eq!(Stage::parse(bad), Err(ParseError::Malformed), "input: {:?}", bad);
    }
}

#[test]
fn parse_rejects_overflowing_numbers() {
    assert_eq!(Stage::parse("4294967296*60s"), Err(ParseError::Malformed));
    assert_eq!(Stage::parse("1*4294967296s"), Err(ParseError::Malformed));
    let s = Stage::parse("4294967295*60s").unwrap();
    assert_eq!(s.points, u32::MAX);
}

#[test]
fn format_round_trips_canonical_specs() {
    for spec in ["11520*60s", "720*3600s", "730*86400s", "1*1y", "0*5m"] {
        let s = Stage::parse(spec).unwrap();
        assert_eq!(s.to_string(), spec);
    }
}

#[test]
fn format_canonicalizes_leading_zeros() {
    // "07*1s" matches the grammar but is not canonical: it parses, and
    // formatting yields the canonical spelling.
    let s = Stage::parse("07*1s").unwrap();
    assert_eq!(s.points, 7);
    assert_eq!(s.to_string(), "7*1s");
}

#[test]
fn stage_equality_is_field_equality() {
    let a = Stage::parse("11520*60s").unwrap();
    let b = Stage::parse("11520*60s").unwrap();
    let c = Stage::parse("11520*60m").unwrap();
    assert_eq!(a, b);
    assert_ne!(a, c);
}

#[test]
fn table_name_encodes_stage() {
    let s = Stage::parse("11520*60s").unwrap();
    assert_eq!(s.table_name(), "datapoints_11520p_60s_0");
    let s = Stage::parse("730*86400s").unwrap();
    assert_eq!(s.table_name(), "datapoints_730p_86400s_0");
}

#[test]
fn partition_size_follows_the_sizing_rule() {
    // 60s precision: capped at 25000 points (1.5e9 ms) but the expected-read
    // width 120,000,000 ms already exceeds the 6-hour floor.
    let s = Stage::parse("11520*60s").unwrap();
    assert_eq!(s.table_row_size_ms(), 120_000_000);
    // 1s precision: the expected read (2,000,000 ms) is under the 6-hour
    // floor, so the floor wins.
    let s = Stage::parse("60*1s").unwrap();
    assert_eq!(s.table_row_size_ms(), 21_600_000);
    // 86400s precision: the 25000-point cap (2.16e12) is far above the
    // expected read (1.728e11), so the expected read wins.
    let s = Stage::parse("730*86400s").unwrap();
    assert_eq!(s.table_row_size_ms(), 172_800_000_000);
}

#[test]
fn time_offset_locates_partition_and_row() {
    let s = Stage::parse("11520*60s").unwrap();
    assert_eq!(s.time_offset_ms(120), (0, 2));
    assert_eq!(s.time_offset_ms(240), (0, 4));
    // One partition is 120,000,000 ms = 120,000 s wide.
    assert_eq!(s.time_offset_ms(120_000), (120_000_000, 0));
    assert_eq!(s.time_offset_ms(120_060), (120_000_000, 1));
}

#[test]
fn expand_single_partition_window() {
    let s = Stage::parse("11520*60s").unwrap();
    let tr = TimeRange::new(&s, 120, 240);
    assert_eq!(tr.ranges(), vec![(0, 2, 4)]);
}

#[test]
fn expand_multi_partition_windows() {
    let s = Stage::parse("11520*60s").unwrap();
    let tr = TimeRange::new(&s, 120, 691200 + 240);
    let trs = 120_000_000;
    assert_eq!(
        tr.ranges(),
        vec![
            (0, 2, trs),
            (trs, 0, trs),
            (2 * trs, 0, trs),
            (3 * trs, 0, trs),
            (4 * trs, 0, trs),
            (5 * trs, 0, 1524),
        ]
    );
}

#[test]
fn expand_windows_are_contiguous() {
    let s = Stage::parse("60*1s").unwrap();
    let tr = TimeRange::new(&s, 1000, 100_000);
    let windows = tr.ranges();
    let trs = s.table_row_size_ms();
    assert!(windows.len() > 1);
    for pair in windows.windows(2) {
        assert_eq!(pair[1].0, pair[0].0 + trs);
        assert_eq!(pair[1].1, 0);
        assert_eq!(pair[0].2, trs);
    }
    assert_eq!(windows[0].0, s.time_offset_ms(1000).0);
    assert_eq!(windows[0].1, s.time_offset_ms(1000).1);
    let last = windows[windows.len() - 1];
    assert_eq!(last.0, s.time_offset_ms(100_000).0);
    assert_eq!(last.2, s.time_offset_ms(100_000).1);
}

#[test]
fn expand_empty_interval_is_one_point_window() {
    let s = Stage::parse("11520*60s").unwrap();
    let tr = TimeRange::new(&s, 240, 240);
    assert_eq!(tr.ranges(), vec![(0, 4, 4)]);
}

#[test]
fn total_points_sums_stages() {
    let stages = vec![
        Stage::parse("11520*60s").unwrap(),
        Stage::parse("720*3600s").unwrap(),
        Stage::parse("730*86400s").unwrap(),
    ];
    assert_eq!(bgutil_rs::stage::total_points(&stages), Some(12970));
    assert_eq!(bgutil_rs::stage::total_points(&Vec::new()), Some(0));
}
