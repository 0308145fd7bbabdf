use llm_lint::config::{
    config_source, merge_config, merge_config_simple, Config, ConfigError, ConfigFile, ConfigSource,
};

fn empty_file() -> ConfigFile {
    ConfigFile {
        include_rules: None,
        fail_threshold: None,
        max_file_lines_warning: None,
        max_file_lines_high: None,
        max_function_lines_warning: None,
        max_function_lines_high: None,
        include_extensions: None,
        large_file_extensions: None,
        exclude_dirs: None,
        exclude_files: None,
        exclude_severities: None,
        verbose: None,
    }
}

#[test]
fn defaults_match_the_documented_values() {
    let c = Config::default();
    assert_eq!(c.max_file_lines_warning, 400);
    assert_eq!(c.max_file_lines_high, 800);
    assert_eq!(c.max_function_lines_warning, 50);
    assert_eq!(c.max_function_lines_high, 100);
    assert_eq!(c.fail_threshold, 20);
    assert_eq!(c.include_extensions, vec![".py", ".js", ".ts", ".tsx", ".jsx", ".vue", ".html"]);
    assert!(c.exclude_dirs.contains(&"node_modules".to_string()));
    assert!(c.include_rules.is_none());
    assert!(!c.verbose);
}

#[test]
fn loads_fail_threshold_from_llm_lint_toml() {
    let mut f = empty_file();
    f.fail_threshold = Some(99);
    f.max_file_lines_warning = Some(111);
    let cfg = merge_config_simple(Some(f), None, false, None, None).expect("merge");
    assert_eq!(cfg.fail_threshold, 99);
    assert_eq!(cfg.max_file_lines_warning, 111);
}

#[test]
fn cli_overrides_win_over_file() {
    let mut f = empty_file();
    f.fail_threshold = Some(99);
    f.verbose = Some(false);
    f.max_function_lines_warning = Some(70);
    let cfg = merge_config_simple(Some(f), Some(5), true, Some(300), Some(30)).expect("merge");
    assert_eq!(cfg.fail_threshold, 5);
    assert!(cfg.verbose);
    assert_eq!(cfg.max_file_lines_warning, 300);
    assert_eq!(cfg.max_function_lines_warning, 30);
}

#[test]
fn file_lists_are_trimmed_and_blank_entries_dropped() {
    let mut f = empty_file();
    f.include_extensions = Some(vec![" .py ".into(), "   ".into(), ".rs".into()]);
    f.exclude_severities = Some(vec!["LOW".into(), "Medium".into()]);
    f.include_rules = Some(vec!["large-file".into()]);
    let cfg = merge_config(Config::default(), Some(f), None, None, None, None).expect("merge");
    assert_eq!(cfg.include_extensions, vec![".py", ".rs"]);
    assert_eq!(cfg.exclude_severities, vec!["low", "medium"]);
    assert_eq!(cfg.include_rules, Some(vec!["large-file".to_string()]));
}

#[test]
fn invalid_excluded_severity_is_an_error() {
    let mut f = empty_file();
    f.exclude_severities = Some(vec!["low".into(), "Critical".into(), "bogus".into()]);
    match merge_config(Config::default(), Some(f), None, None, None, None) {
        Err(ConfigError::Invalid(m)) => assert_eq!(
            m,
            "Config 'exclude-severities' must be only low, medium, high; invalid: critical"
        ),
        other => panic!("unexpected {:?}", other),
    }
}

#[test]
fn no_file_keeps_defaults() {
    let cfg = merge_config_simple(None, None, false, None, None).expect("merge");
    assert_eq!(cfg.fail_threshold, 20);
    assert!(!cfg.verbose);
}

#[test]
fn config_error_messages() {
    assert_eq!(ConfigError::Io("a".into(), "b".into()).message(), "failed to read a: b");
    assert_eq!(ConfigError::Json("a".into(), "b".into()).message(), "invalid JSON in a: b");
    assert_eq!(ConfigError::Toml("a".into(), "b".into()).message(), "invalid TOML in a: b");
    assert_eq!(ConfigError::Invalid("x".into()).message(), "x");
}

#[test]
fn empty_toml_file_falls_back_to_json() {
    // llm-lint.toml holds only blank lines; llm-lint.json exists.
    assert_eq!(config_source(Some("   \n  \n"), true), ConfigSource::Json);
    // llm-lint.json holds {"fail-threshold": 42}.
    let mut f = empty_file();
    f.fail_threshold = Some(42);
    let cfg = merge_config_simple(Some(f), None, false, None, None).expect("merge");
    assert_eq!(cfg.fail_threshold, 42);
}

#[test]
fn toml_takes_precedence_over_json_when_nonempty() {
    assert_eq!(
        config_source(Some("fail_threshold = 1\n"), true),
        ConfigSource::Toml("fail_threshold = 1".to_string())
    );
    // llm-lint.toml holds fail_threshold = 1.
    let mut f = empty_file();
    f.fail_threshold = Some(1);
    let cfg = merge_config_simple(Some(f), None, false, None, None).expect("merge");
    assert_eq!(cfg.fail_threshold, 1);
}

#[test]
fn no_config_file_uses_defaults() {
    assert_eq!(config_source(None, false), ConfigSource::Defaults);
    assert_eq!(config_source(Some(""), false), ConfigSource::Defaults);
    assert_eq!(config_source(None, true), ConfigSource::Json);
}
