use scrut::config::{env_equal, env_get, DocumentConfig, OutputStreamControl, TestCaseConfig};

#[test]
fn test_default_document_config_is_empty() {
    let config: DocumentConfig = Default::default();
    assert!(config.is_empty(), "default is empty")
}

#[test]
fn default_testcase_config_is_empty() {
    let config: TestCaseConfig = Default::default();
    assert!(config.is_empty());
}

#[test]
fn cram_testcase_config_is_not_empty() {
    let config = TestCaseConfig::default_cram();
    assert!(!config.is_empty());
    assert_eq!(Some(OutputStreamControl::Combined), config.output_stream);
    assert_eq!(Some(true), config.keep_crlf);
}

#[test]
fn document_config_with_shell_is_not_empty() {
    let mut config = DocumentConfig::empty();
    config.shell = Some("bash".to_string());
    assert!(!config.is_empty());
}

#[test]
fn document_config_with_defaults_is_not_empty() {
    let mut config = DocumentConfig::empty();
    config.defaults.timeout = Some(1000);
    assert!(!config.is_empty());
}

#[test]
fn overrides_replace_what_they_set() {
    let base = TestCaseConfig {
        timeout: Some(5),
        keep_crlf: Some(true),
        environment: vec![("A".to_string(), "1".to_string()), ("B".to_string(), "2".to_string())],
        ..TestCaseConfig::empty()
    };
    let over = TestCaseConfig {
        keep_crlf: Some(false),
        skip_code: Some(3),
        environment: vec![("A".to_string(), "9".to_string())],
        ..TestCaseConfig::empty()
    };
    let r = base.with_overrides_from(&over);
    assert_eq!(Some(5), r.timeout);
    assert_eq!(Some(false), r.keep_crlf);
    assert_eq!(Some(3), r.skip_code);
    assert_eq!(Some("9".to_string()), env_get(&r.environment, "A"));
    assert_eq!(Some("2".to_string()), env_get(&r.environment, "B"));
    let d = base.with_defaults_from(&over);
    assert_eq!(Some(true), d.keep_crlf);
    assert_eq!(Some(3), d.skip_code);
    assert_eq!(Some("1".to_string()), env_get(&d.environment, "A"));
}

#[test]
fn environments_compare_as_maps() {
    let a = vec![("A".to_string(), "1".to_string()), ("B".to_string(), "2".to_string())];
    let b = vec![("B".to_string(), "2".to_string()), ("A".to_string(), "0".to_string()), ("A".to_string(), "1".to_string())];
    let c = vec![("A".to_string(), "1".to_string())];
    assert!(env_equal(&a, &b));
    assert!(!env_equal(&a, &c));
    assert_eq!(None, env_get(&a, "C"));
}
