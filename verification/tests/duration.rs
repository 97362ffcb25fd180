use mogwai_server::duration::parse_duration;
use mogwai_server::serve::resolve_run_duration;

#[test]
fn parse_duration_units_and_multi_digit() {
    assert_eq!(parse_duration("1s").expect("s"), 1_000_000_000);
    assert_eq!(parse_duration("1m").expect("m"), 60_000_000_000);
    assert_eq!(parse_duration("1h").expect("h"), 3_600_000_000_000);
    assert_eq!(parse_duration("1d").expect("d"), 86_400_000_000_000);
    assert_eq!(parse_duration("1w").expect("w"), 604_800_000_000_000);
    assert_eq!(parse_duration("1mo").expect("mo"), 30 * 86_400_000_000_000);
    assert_eq!(parse_duration("1y").expect("y"), 365 * 86_400_000_000_000);
    assert_eq!(
        parse_duration("12h").expect("multi-digit"),
        12 * 3_600_000_000_000
    );
}

#[test]
fn parse_duration_rejects_malformed_input() {
    assert!(parse_duration("").is_err());
    assert!(parse_duration("0d").is_err());
    assert!(parse_duration("1").is_err());
    assert!(parse_duration("d").is_err());
    assert!(parse_duration("1 d").is_err());
    assert!(parse_duration("1D").is_err());
    assert!(parse_duration("1x").is_err());
    assert!(parse_duration("99999999999999999999d").is_err());
    assert!(parse_duration(&format!("{}d", u64::MAX)).is_err());
}

#[test]
fn an_explicit_zero_duration_overrides_a_finite_config() {
    assert_eq!(resolve_run_duration(Some(None), 600_000_000_000), None);
    assert_eq!(
        resolve_run_duration(None, 600_000_000_000),
        Some(600_000_000_000)
    );
}
