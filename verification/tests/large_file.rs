use llm_lint::config::Config;
use llm_lint::scanner::{scan, SourceFile};

fn big_py_lines(n: usize) -> String {
    let mut s = String::new();
    for i in 0..n {
        s.push_str(&format!("# line {i}\n"));
    }
    s
}

#[test]
fn large_file_rule_warns_over_threshold() {
    let mut config = Config::default();
    config.exclude_dirs = vec![];
    config.include_extensions = vec![".py".into()];
    config.large_file_extensions = vec![".py".into()];
    config.max_file_lines_warning = 400;
    config.max_file_lines_high = 800;
    config.fail_threshold = 100;

    let files = vec![SourceFile { path: "/repo/big.py".into(), bytes: big_py_lines(450).into_bytes() }];
    let result = scan(&files, &config).expect("scan");
    assert_eq!(result.findings.len(), 1);
    assert_eq!(result.findings[0].rule_id, "large-file");
    assert_eq!(result.findings[0].severity, "medium");
}

#[test]
fn unknown_include_rule_errors() {
    let mut config = Config::default();
    config.exclude_dirs = vec![];
    config.include_extensions = vec![".py".into()];
    config.include_rules = Some(vec!["large-file".into(), "not-a-rule".into()]);

    let files = vec![SourceFile { path: "/repo/a.py".into(), bytes: b"x = 1\n".to_vec() }];
    let err = scan(&files, &config).expect_err("expected unknown rule");
    assert!(err.message().contains("not-a-rule"), "got {}", err.message());
}
