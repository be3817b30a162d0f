use speedtest::iperf::results_json;
use speedtest::params::parse_parameters;
use std::time::Duration;

#[test]
fn parses_supported_parameters() {
    let parameters =
        parse_parameters(r#"{"tcp":true,"parallel":4,"reverse":true,"len":65536,"time":10}"#).unwrap();
    assert_eq!(parameters.streams, 4);
    assert!(parameters.reverse);
    assert_eq!(parameters.block_size, 65536);
}

#[test]
fn honors_long_test_duration_and_rejects_invalid_limits() {
    let parameters = parse_parameters(r#"{"tcp":true,"time":300,"omit":5}"#).unwrap();
    assert_eq!(parameters.test_timeout, Duration::from_secs(335));
    for json in [
        r#"{"tcp":true,"time":-1}"#,
        r#"{"tcp":true,"omit":-1}"#,
        r#"{"tcp":true,"time":86401}"#,
        r#"{"tcp":true,"time":9223372036854775807,"omit":1}"#,
    ] {
        assert!(parse_parameters(json).is_err());
    }
}

#[test]
fn ignores_key_text_inside_strings_and_nested_values() {
    let parameters = parse_parameters(
        r#"{"note":"\"parallel\":99","nested":{"parallel":88},"tcp":true,"parallel":2}"#,
    )
    .unwrap();
    assert_eq!(parameters.streams, 2);
}

#[test]
fn rejects_negative_and_malformed_parameters() {
    assert!(parse_parameters(r#"{"tcp":true,"parallel":-1}"#).is_err());
    assert!(parse_parameters(r#"{"tcp":true,"len":-1}"#).is_err());
    assert!(parse_parameters(r#"{"tcp":true,}"#).is_err());
}

#[test]
fn uses_iperf_legacy_parallel_stream_ids() {
    let json = String::from_utf8(results_json(&[1, 2, 3, 4], b"1.000000", false)).unwrap();
    assert!(json.contains(r#""id":1"#));
    assert!(json.contains(r#""id":3"#));
    assert!(json.contains(r#""id":4"#));
    assert!(json.contains(r#""id":5"#));
    assert!(!json.contains(r#""id":2"#));
}
