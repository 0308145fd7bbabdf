use llm_lint::scoring::{compute_score, grade};
use llm_lint::Finding;

fn finding(score: i32) -> Finding {
    Finding {
        rule_id: "large-file".into(),
        severity: "medium".into(),
        file_path: "a.py".into(),
        line_start: None,
        line_end: None,
        message: String::new(),
        score,
    }
}

#[test]
fn compute_score_sums_finding_scores() {
    assert_eq!(compute_score(&[finding(5), finding(10), finding(2)]), 17);
    assert_eq!(compute_score(&[]), 0);
}

#[test]
fn grade_thresholds() {
    assert_eq!(grade(0), "healthy");
    assert_eq!(grade(9), "healthy");
    assert_eq!(grade(10), "warning");
    assert_eq!(grade(19), "warning");
    assert_eq!(grade(20), "fail");
}
