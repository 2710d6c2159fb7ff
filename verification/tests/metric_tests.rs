use bgutil_rs::metric::Metric;
use bgutil_rs::stage::Stage;

fn sample_metric(retention: &str) -> Metric {
    Metric::new(
        "74d01a2c-0000-4000-8000-00805f9b34fb".to_string(),
        "a.b.c".to_string(),
        vec![
            ("aggregator".to_string(), "average".to_string()),
            ("retention".to_string(), retention.to_string()),
        ],
        1_700_000_000,
        1_700_000_500,
    )
}

#[test]
fn getters_return_the_record_fields() {
    let m = sample_metric("11520*60s");
    assert_eq!(m.id().as_str(), "74d01a2c-0000-4000-8000-00805f9b34fb");
    assert_eq!(m.name().as_str(), "a.b.c");
    assert_eq!(m.updated_on(), 1_700_000_500);
}

#[test]
fn config_returns_first_match() {
    let m = sample_metric("11520*60s");
    assert_eq!(m.config("aggregator".to_string()), Ok("average".to_string()));
    assert_eq!(m.config("retention".to_string()), Ok("11520*60s".to_string()));
}

#[test]
fn config_missing_key_is_an_error() {
    let m = sample_metric("11520*60s");
    assert_eq!(m.config("nope".to_string()), Err("Invalid key".to_string()));
}

#[test]
fn stages_parses_every_colon_separated_stage() {
    let m = sample_metric("11520*60s:720*3600s:730*86400s");
    let stages = m.stages().unwrap();
    assert_eq!(stages.len(), 3);
    assert_eq!(stages[0], Stage { points: 11520, precision: 60, factor: 's' });
    assert_eq!(stages[1], Stage { points: 720, precision: 3600, factor: 's' });
    assert_eq!(stages[2], Stage { points: 730, precision: 86400, factor: 's' });
}

#[test]
fn stages_single_stage() {
    let m = sample_metric("11520*60s");
    let stages = m.stages().unwrap();
    assert_eq!(stages.len(), 1);
    assert_eq!(stages[0].points, 11520);
}

#[test]
fn stages_malformed_retention_is_an_error() {
    let m = sample_metric("60s");
    assert_eq!(m.stages(), Err("invalid retention string".to_string()));
    let m = sample_metric("11520*60s:bogus");
    assert_eq!(m.stages(), Err("invalid retention string".to_string()));
}

#[test]
fn stages_without_retention_key_is_an_error() {
    let m = Metric::new(
        String::new(),
        "a".to_string(),
        vec![("aggregator".to_string(), "average".to_string())],
        0,
        0,
    );
    assert_eq!(m.stages(), Err("Invalid key".to_string()));
}
