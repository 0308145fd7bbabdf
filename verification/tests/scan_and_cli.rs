use llm_lint::cli::{
    finding_loc, message_wrap_width, resolve_git_diff_ref, severity_color, severity_order,
    status_color, GitDiffOpts, TermColor,
};
use llm_lint::config::Config;
use llm_lint::git_scope::{
    changed_paths_from_output, diff_args, git_changed_paths, git_failure_message, git_repo_root,
    repo_root_from_output, scan_paths_from_git_diff, toplevel_args,
};
use llm_lint::parsers::python::{normalize_python_body_hash, parse_python};
use llm_lint::parsers::text::{find_block_end, parse_text, sha256_lines};
use llm_lint::report::{issues_label, summary_row, terminal_report};
use llm_lint::scanner::{
    detect_language, file_context_from_bytes, resolve_enabled_rule_ids, scan, ScanError,
    SourceFile,
};
use llm_lint::walker::{dir_is_excluded, path_matches_scan, walk_repo, ScanCandidate};
use llm_lint::{Finding, ScanResult};

fn lines(text: &str) -> Vec<String> {
    text.lines().map(|l| l.to_string()).collect()
}

fn finding(path: &str, severity: &str, line: Option<u32>, rule: &str) -> Finding {
    Finding {
        rule_id: rule.into(),
        severity: severity.into(),
        file_path: path.into(),
        line_start: line,
        line_end: line,
        message: String::new(),
        score: 1,
    }
}

#[test]
fn text_parser_finds_js_functions_and_their_blocks() {
    let src = lines("function a(x) {\n  return {\n    y: x\n  };\n}\nconst b = async (y) => {\n  y;\n}\nlet c = 1;\n");
    assert_eq!(find_block_end(&src, 0), 5);
    let fs = parse_text("/r/a.js", &src);
    assert_eq!(fs.len(), 2);
    assert_eq!((fs[0].name.as_str(), fs[0].line_start, fs[0].line_end), ("a", 1, 5));
    assert_eq!((fs[1].name.as_str(), fs[1].line_start, fs[1].line_end), ("b", 6, 8));
    assert_eq!(fs[0].body_hash, sha256_lines(&src, 0, 5));
    assert_eq!(fs[0].file_path, "/r/a.js");
}

#[test]
fn python_parser_finds_nested_functions_in_order() {
    let src = lines("def outer():\n    def inner():\n        return 1\n    return inner\n\nclass C:\n    def m(self):\n        pass\n");
    let fs = parse_python("/r/m.py", &src);
    let got: Vec<(&str, u32, u32)> = fs.iter().map(|f| (f.name.as_str(), f.line_start, f.line_end)).collect();
    assert_eq!(got, vec![("outer", 1, 4), ("inner", 2, 3), ("m", 7, 8)]);
    assert_eq!(fs[1].body_hash, normalize_python_body_hash(&src, 2, 3));
    assert_eq!(normalize_python_body_hash(&src, 100, 120), "");
}

#[test]
fn identical_bodies_hash_alike_whatever_the_indentation() {
    let a = lines("def f():\n    x = 1\n");
    let b = lines("    def f():\n        x = 1\n");
    assert_eq!(sha256_lines(&a, 0, 2), sha256_lines(&b, 0, 2));
    assert_ne!(sha256_lines(&a, 0, 2), sha256_lines(&a, 0, 1));
    assert_eq!(normalize_python_body_hash(&a, 1, 2), normalize_python_body_hash(&b, 1, 2));
    assert_eq!(normalize_python_body_hash(&a, 1, 2), sha256_lines(&a, 0, 2));
    // A line holding a line break counts as two lines once joined.
    let c = vec!["def f():\n    x = 1".to_string()];
    assert_eq!(normalize_python_body_hash(&c, 1, 1), sha256_lines(&a, 0, 2));
}

#[test]
fn resolve_rules_lists_unknown_ids_sorted() {
    let mut c = Config::default();
    c.include_rules = Some(vec!["zzz".into(), "large-file".into(), "aaa".into(), "zzz".into()]);
    match resolve_enabled_rule_ids(&c) {
        Err(ScanError::UnknownRules(s)) => assert_eq!(s, "aaa, zzz"),
        other => panic!("unexpected {:?}", other),
    }
    c.include_rules = Some(vec![]);
    assert_eq!(resolve_enabled_rule_ids(&c).unwrap().len(), 0);
    c.include_rules = None;
    assert_eq!(resolve_enabled_rule_ids(&c).unwrap().len(), 6);
}

#[test]
fn scan_excludes_severities_and_sets_pass() {
    let mut c = Config::default();
    c.include_rules = Some(vec!["helper-sprawl".into(), "fallback-defaults".into()]);
    c.fail_threshold = 5;
    let files = vec![SourceFile { path: "/r/utils.py".into(), bytes: b"v = os.getenv('A', None)\n".to_vec() }];
    let r = scan(&files, &c).unwrap();
    assert_eq!(r.files_scanned, 1);
    assert_eq!(r.findings.len(), 2);
    assert_eq!(r.total_score, 6);
    assert!(!r.passed);
    c.exclude_severities = vec!["medium".into()];
    let r = scan(&files, &c).unwrap();
    assert_eq!(r.findings.len(), 1);
    assert_eq!(r.findings[0].severity, "low");
    assert_eq!(r.total_score, 2);
    assert!(r.passed);
}

#[test]
fn scan_error_messages() {
    assert_eq!(ScanError::UnknownRules("x".into()).message(), "unknown rule id(s) in config include list: x");
    assert_eq!(ScanError::Git("bad".into()).message(), "git: bad");
    assert_eq!(ScanError::ReadFile { path: "p".into(), message: "m".into() }.message(), "failed to read p: m");
}

#[test]
fn language_and_context() {
    assert_eq!(detect_language("/r/a.PY"), "python");
    assert_eq!(detect_language("/r/a.js"), "text");
    let ctx = file_context_from_bytes("/r/a.js".into(), b"function f() {\xff}\r\n");
    assert_eq!(ctx.lines, vec!["function f() {\u{fffd}}"]);
    assert_eq!(ctx.language, "text");
    assert_eq!(ctx.functions.len(), 1);
}

#[test]
fn walker_filters_and_sorts() {
    let c = Config::default();
    let k = |p: &str, rel: Option<&str>, is_file: bool| ScanCandidate { path: p.into(), is_file, rel: rel.map(|s| s.to_string()) };
    assert!(path_matches_scan(&k("/r/src/a.PY", Some("src/a.PY"), true), &c));
    assert!(!path_matches_scan(&k("/r/src/a.py", Some("src/a.py"), false), &c));
    assert!(!path_matches_scan(&k("/r/node_modules/a.py", Some("node_modules/a.py"), true), &c));
    assert!(!path_matches_scan(&k("/r/a.rs", Some("a.rs"), true), &c));
    assert!(!path_matches_scan(&k("/x/a.py", None, true), &c));
    let mut c2 = Config::default();
    c2.exclude_files = vec!["gen.py".into(), "src/b.py".into()];
    assert!(!path_matches_scan(&k("/r/gen.py", Some("gen.py"), true), &c2));
    assert!(!path_matches_scan(&k("/r/src/b.py", Some("src/b.py"), true), &c2));
    assert!(dir_is_excluded(".git", &c));
    assert!(!dir_is_excluded("src", &c));
    let walked = walk_repo(&vec![k("/r/z.py", Some("z.py"), true), k("/r/a.js", Some("a.js"), true), k("/r/t.txt", Some("t.txt"), true)], &c);
    assert_eq!(walked, vec!["/r/a.js", "/r/z.py"]);
}

#[test]
fn git_output_handling() {
    assert_eq!(git_repo_root("/home/r\n").unwrap(), "/home/r");
    assert_eq!(git_repo_root("  \n").unwrap_err(), "git rev-parse --show-toplevel returned empty output");
    assert_eq!(git_changed_paths("a.py\n\n  b.js \r\n"), vec!["a.py", "b.js"]);
    let c = Config::default();
    let k = |p: &str, rel: &str| Some(ScanCandidate { path: p.into(), is_file: true, rel: Some(rel.into()) });
    let picked = scan_paths_from_git_diff(&vec![k("/r/b.py", "b.py"), None, k("/r/a.py", "a.py"), k("/r/b.py", "b.py")], &c);
    assert_eq!(picked, vec!["/r/a.py", "/r/b.py"]);
}

#[test]
fn cli_decisions() {
    let opts = |b: bool, c: Option<&str>| GitDiffOpts { branch: b, changed_since: c.map(|s| s.to_string()) };
    assert_eq!(resolve_git_diff_ref(&opts(true, None)).unwrap(), Some("main".to_string()));
    assert_eq!(resolve_git_diff_ref(&opts(false, Some(" dev "))).unwrap(), Some("dev".to_string()));
    assert_eq!(resolve_git_diff_ref(&opts(false, Some("  "))).unwrap_err(), "--changed-since requires a non-empty ref");
    assert_eq!(resolve_git_diff_ref(&opts(false, None)).unwrap(), None);
    let mut f = finding("/r/a.py", "high", None, "x");
    assert_eq!(finding_loc(&f), "file");
    f.line_start = Some(3);
    assert_eq!(finding_loc(&f), "3");
    f.line_end = Some(3);
    assert_eq!(finding_loc(&f), "3");
    f.line_end = Some(9);
    assert_eq!(finding_loc(&f), "3-9");
    assert_eq!(severity_order("HIGH"), 0);
    assert_eq!(severity_order("medium"), 1);
    assert_eq!(severity_order("low"), 2);
    assert_eq!(severity_order("other"), 3);
    assert_eq!(severity_color("High"), TermColor::Red);
    assert_eq!(severity_color("low"), TermColor::DarkGrey);
    assert_eq!(status_color("healthy"), TermColor::Green);
    assert_eq!(status_color("fail"), TermColor::Red);
    assert_eq!(message_wrap_width(None), 64);
    assert_eq!(message_wrap_width(Some(10)), 40);
    assert_eq!(message_wrap_width(Some(500)), 120);
    assert_eq!(issues_label(1), "issue");
    assert_eq!(issues_label(2), "issues");
}

#[test]
fn terminal_report_groups_and_orders() {
    let fs = vec![
        finding("/r/b/x.py", "low", Some(1), "helper-sprawl"),
        finding("/r/a.py", "medium", Some(9), "large-function"),
        finding("/r/a.py", "high", Some(20), "exposed-secrets"),
        finding("/r/a.py", "medium", Some(9), "fallback-defaults"),
        finding("/r/a.py", "high", None, "large-file"),
    ];
    let report = terminal_report(&fs);
    assert_eq!(report.len(), 2);
    assert_eq!(report[0].dir, "/r");
    assert_eq!(report[1].dir, "/r/b");
    assert_eq!(report[0].files[0].name, "a.py");
    let order: Vec<&str> = report[0].files[0].findings.iter().map(|f| f.rule_id.as_str()).collect();
    assert_eq!(order, vec!["large-file", "exposed-secrets", "fallback-defaults", "large-function"]);
}

#[test]
fn empty_include_list_runs_no_rule() {
    let mut c = Config::default();
    c.exclude_dirs = vec![];
    c.include_extensions = vec![".py".into()];
    c.include_rules = Some(vec![]);
    let files = vec![SourceFile { path: "/r/utils.py".into(), bytes: b"x = 1\n".to_vec() }];
    let r = scan(&files, &c).expect("scan");
    assert_eq!(r.files_scanned, 1);
    assert!(r.findings.is_empty());
    assert_eq!(r.total_score, 0);
    assert!(r.passed);
    c.include_rules = None;
    let r = scan(&files, &c).expect("scan");
    assert!(r.findings.iter().any(|f| f.rule_id == "helper-sprawl"));
}

#[test]
fn git_failure_messages() {
    assert_eq!(git_failure_message(b"  fatal: bad revision\n", b"out", "exit status: 128"), "fatal: bad revision");
    assert_eq!(git_failure_message(b" \n", b" some output ", "exit status: 1"), "some output");
    assert_eq!(git_failure_message(b"", b"\n", "exit status: 1"), "git exited with status exit status: 1");
    assert_eq!(git_failure_message(b"\xff", b"", "exit status: 2"), "\u{fffd}");
}

#[test]
fn summary_row_of_a_result() {
    let one = ScanResult { findings: vec![finding("/r/a.py", "high", None, "large-file")], total_score: 10, files_scanned: 3, passed: true };
    let r = summary_row(&one);
    assert_eq!((r.files, r.issues.as_str(), r.score, r.status.as_str()), (3, "1 issue", 10, "WARNING"));
    let none = ScanResult { findings: vec![], total_score: 0, files_scanned: 0, passed: true };
    let r = summary_row(&none);
    assert_eq!((r.issues.as_str(), r.status.as_str()), ("0 issues", "HEALTHY"));
    let many = ScanResult { findings: vec![finding("/r/a.py", "high", None, "x"), finding("/r/a.py", "low", None, "y")], total_score: 25, files_scanned: 1, passed: false };
    assert_eq!(summary_row(&many).status, "FAIL");
    assert_eq!(summary_row(&many).issues, "2 issues");
}

#[test]
fn git_runs_and_their_outputs() {
    assert_eq!(toplevel_args(), vec!["rev-parse", "--show-toplevel"]);
    assert_eq!(diff_args("main"), vec!["diff", "--name-only", "--diff-filter=ACMR", "main", "--"]);
    assert_eq!(repo_root_from_output(true, b"/home/r\n", b"", "exit status: 0"), Ok("/home/r".to_string()));
    assert_eq!(
        repo_root_from_output(true, b" \n", b"", "exit status: 0"),
        Err("git rev-parse --show-toplevel returned empty output".to_string())
    );
    assert_eq!(
        repo_root_from_output(false, b"", b"fatal: not a git repository\n", "exit status: 128"),
        Err("fatal: not a git repository".to_string())
    );
    assert_eq!(
        changed_paths_from_output(true, b"a.py\n\n  b/c.js \n", b"", "exit status: 0"),
        Ok(vec!["a.py".to_string(), "b/c.js".to_string()])
    );
    assert_eq!(
        changed_paths_from_output(false, b"", b"", "exit status: 1"),
        Err("git exited with status exit status: 1".to_string())
    );
}
