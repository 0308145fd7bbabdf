use llm_lint::digest::sha256_hex_of;
use llm_lint::paths::{components_of, extension_of, file_name_of, file_stem_of, sort_paths};
use llm_lint::cli::{severity_color, severity_order, TermColor};
use llm_lint::parsers::text::parse_text;
use llm_lint::pragma::line_ignores_rule;
use llm_lint::scanner::file_context_from_bytes;
use llm_lint::text::{
    fmt_i64, fmt_u64, hex_string, join_strings, lines_of, split_on, str_eq_ignore_ascii_case,
    trim_str,
};

#[test]
fn trim_removes_unicode_whitespace_at_both_ends() {
    assert_eq!(trim_str("  a b \t\n"), "a b");
    assert_eq!(trim_str("\u{3000}x\u{a0}"), "x");
    assert_eq!(trim_str("   "), "");
}

#[test]
fn lines_follow_str_lines() {
    assert_eq!(lines_of("a\nb\r\nc"), vec!["a", "b", "c"]);
    assert_eq!(lines_of("a\n"), vec!["a"]);
    assert_eq!(lines_of("a\n\n"), vec!["a", ""]);
    assert_eq!(lines_of(""), Vec::<String>::new());
    assert_eq!(lines_of("x\r"), vec!["x\r"]);
    for s in ["a\nb\r\nc", "\n\n", "x\ry\n", "no newline"] {
        let expected: Vec<String> = s.lines().map(|l| l.to_string()).collect();
        assert_eq!(lines_of(s), expected);
    }
}

#[test]
fn split_and_join_are_inverse() {
    assert_eq!(split_on("a,,b", ','), vec!["a", "", "b"]);
    assert_eq!(split_on("", ','), vec![""]);
    let parts = split_on("x, y, z", ',');
    assert_eq!(join_strings(&parts, ","), "x, y, z");
    assert_eq!(join_strings(&vec![], ", "), "");
}

#[test]
fn decimal_and_hex_formatting() {
    assert_eq!(fmt_u64(0), "0");
    assert_eq!(fmt_u64(450), "450");
    assert_eq!(fmt_i64(-12), "-12");
    assert_eq!(fmt_i64(i64::MIN), i64::MIN.to_string());
    assert_eq!(hex_string(&vec![0x00, 0xab, 0x0f]), "00ab0f");
}

#[test]
fn sha256_of_text_in_hex() {
    assert_eq!(
        sha256_hex_of(""),
        "e3b0c44298fc1c149afbf4c8996fb92427ae41e4649b934ca495991b7852b855"
    );
    assert_eq!(
        sha256_hex_of("abc"),
        "ba7816bf8f01cfea414140de5dae2223b00361a396177a9cb410ff61f20015ad"
    );
}

#[test]
fn case_helpers() {
    assert!(str_eq_ignore_ascii_case(".PY", ".py"));
    assert!(!str_eq_ignore_ascii_case(".py", ".pyc"));
    // Severities are compared lower-cased.
    assert_eq!(severity_order("HiGh"), 0);
    assert_eq!(severity_order("MEDIUM"), 1);
    assert_eq!(severity_color("LOW"), TermColor::DarkGrey);
    assert_eq!(severity_color("HİGH"), TermColor::Reset);
}

#[test]
fn invalid_utf8_is_replaced() {
    let ctx = file_context_from_bytes("/r/a.txt".into(), &[0x61, 0xff, 0x62]);
    assert_eq!(ctx.lines, vec!["a\u{fffd}b"]);
}

#[test]
fn regular_expressions_through_their_callers() {
    // capture of group 1 of the leftmost match
    let fs = parse_text("/r/a.js", &vec!["export async function loadAll(x) {".to_string(), "}".to_string()]);
    assert_eq!(fs.len(), 1);
    assert_eq!(fs[0].name, "loadAll");
    // every match of the pragma, not only the first
    assert!(line_ignores_rule("# llm-lint: ignore a # llm-lint: ignore b", "b"));
    assert!(!line_ignores_rule("no pragma here", "b"));
}

#[test]
fn path_parts() {
    assert_eq!(components_of("/a//b/c.py"), vec!["a", "b", "c.py"]);
    assert_eq!(file_name_of("/a/b/c.py"), "c.py");
    assert_eq!(file_name_of("/"), "");
    assert_eq!(extension_of("c.py"), Some("py".to_string()));
    assert_eq!(extension_of("a.tar.gz"), Some("gz".to_string()));
    assert_eq!(extension_of(".bashrc"), None);
    assert_eq!(extension_of("noext"), None);
    assert_eq!(extension_of("foo."), Some(String::new()));
    assert_eq!(file_stem_of("a.tar.gz"), "a.tar");
    assert_eq!(file_stem_of(".bashrc"), ".bashrc");
    assert_eq!(file_stem_of("utils.py"), "utils");
}

#[test]
fn sort_paths_orders_by_component() {
    let sorted = sort_paths(vec!["/r/a.b".into(), "/r/a/b".into(), "/r/ab".into(), "/r/a".into()]);
    assert_eq!(sorted, vec!["/r/a", "/r/a/b", "/r/a.b", "/r/ab"]);
    let mut std_sorted: Vec<std::path::PathBuf> = sorted.iter().map(std::path::PathBuf::from).collect();
    std_sorted.sort();
    let again: Vec<String> = std_sorted.iter().map(|p| p.display().to_string()).collect();
    assert_eq!(again, sorted);
}
