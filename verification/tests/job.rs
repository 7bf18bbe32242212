use lab_core::collections::{vars_insert, vars_new};
use lab_core::model::job::{duration_fits, parse_duration, secondary_hostname, AllowFailure, ServiceConfig};
use lab_core::model::variables::VariableValue;

#[test]
fn test_parse_duration() {
    assert_eq!(parse_duration("3600").unwrap(), 3600);
    assert_eq!(parse_duration("1h").unwrap(), 3600);
    assert_eq!(parse_duration("1h30m").unwrap(), 5400);
    assert_eq!(parse_duration("30m").unwrap(), 1800);
    assert_eq!(parse_duration("90s").unwrap(), 90);
}

#[test]
fn test_service_hostname() {
    let svc = ServiceConfig::Simple("postgres:14".to_string());
    assert_eq!(svc.hostname(), "postgres");

    let svc = ServiceConfig::Simple("registry.example.com/my/postgres:14".to_string());
    assert_eq!(svc.hostname(), "registry.example.com__my__postgres");

    let mut vars = vars_new();
    vars_insert(&mut vars, "X".to_string(), VariableValue::from("1"));
    let svc = ServiceConfig::Detailed {
        name: "postgres:14".to_string(),
        alias: Some("db".to_string()),
        entrypoint: None,
        command: None,
        variables: vars,
    };
    assert_eq!(svc.hostname(), "db");
}

#[test]
fn test_allow_failure() {
    let af = AllowFailure::Bool(true);
    assert!(af.is_allowed(1));
    assert!(af.is_allowed(0));

    let af = AllowFailure::Bool(false);
    assert!(!af.is_allowed(1));

    let af = AllowFailure::ExitCodes { exit_codes: vec![137, 143] };
    assert!(af.is_allowed(137));
    assert!(!af.is_allowed(1));
}

#[test]
fn test_secondary_hostname() {
    assert_eq!(secondary_hostname("postgres:14"), "postgres");
    assert_eq!(secondary_hostname("registry.example.com/my/postgres:14"), "registry.example.com-my-postgres");
    assert_eq!(secondary_hostname("redis"), "redis");
}

#[test]
fn parse_duration_errors() {
    assert_eq!(parse_duration("").unwrap_err(), "invalid duration: ");
    assert_eq!(parse_duration("5x").unwrap_err(), "unknown duration unit: x");
    assert_eq!(parse_duration(" 2h 5m 3s ").unwrap(), 7503);
}

#[test]
fn parse_duration_unit_words() {
    assert_eq!(parse_duration("30 minutes").unwrap(), 1800);
    assert_eq!(parse_duration("1h 30m").unwrap(), 5400);
    assert_eq!(parse_duration("2 hours 5 secs").unwrap(), 7205);
    assert_eq!(parse_duration("1 hour").unwrap(), 3600);
    assert_eq!(parse_duration("45 seconds").unwrap(), 45);
    assert_eq!(parse_duration("3 weeks").unwrap_err(), "unknown duration unit: weeks");
    assert_eq!(parse_duration("minutes").unwrap_err(), "invalid duration: minutes");
}

#[test]
fn duration_fits_tells_overflow() {
    assert!(duration_fits("30 minutes"));
    assert!(duration_fits("99999999999999999999999"));
    assert!(duration_fits("5124095576030431h"));
    assert!(!duration_fits("5124095576030432h"));
    assert!(!duration_fits("18446744073709551615s 1s"));
    assert!(duration_fits("18446744073709551615s"));
    assert!(duration_fits("3 weeks"));
}
