use lab_core::model::job::RetryConfig;

#[test]
fn test_retry_when_filtering() {
    let detailed = RetryConfig::Detailed {
        max: 2,
        when_retry: vec!["script_failure".into(), "stuck_or_timeout_failure".into()],
    };

    assert!(detailed.should_retry("script_failure"));
    assert!(detailed.should_retry("stuck_or_timeout_failure"));
    assert!(!detailed.should_retry("runner_system_failure"));
    assert!(!detailed.should_retry("api_failure"));

    let always = RetryConfig::Detailed { max: 1, when_retry: vec!["always".into()] };
    assert!(always.should_retry("script_failure"));
    assert!(always.should_retry("anything"));

    let empty = RetryConfig::Detailed { max: 1, when_retry: vec![] };
    assert!(empty.should_retry("script_failure"));

    let simple = RetryConfig::Count(2);
    assert!(simple.should_retry("anything"));
}

#[test]
fn retry_max_retries() {
    assert_eq!(RetryConfig::Count(3).max_retries(), 3);
    assert_eq!(RetryConfig::Detailed { max: 2, when_retry: vec![] }.max_retries(), 2);
}
