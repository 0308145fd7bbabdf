//! Decisions behind the command line: which git ref to compare against, how a
//! finding's location and severity are shown, and how wide messages wrap.

use vstd::prelude::*;
use crate::models::Finding;
use crate::text::{decimal, fmt_u64, lowercase, str_eq, to_lowercase, trim, trim_str};

verus! {

/// The git-diff options: `--branch`, or `--changed-since REF`.
#[derive(Debug, Clone)]
pub struct GitDiffOpts {
    pub branch: bool,
    pub changed_since: Option<String>,
}

/// The message for an empty `--changed-since`.
pub open spec fn empty_ref_message() -> Seq<char> {
    "--changed-since requires a non-empty ref"@
}

/// The git ref to compare against: `main` for `--branch`; the trimmed ref of
/// `--changed-since`, which must not be empty; none otherwise.
pub fn resolve_git_diff_ref(opts: &GitDiffOpts) -> (r: Result<Option<String>, String>)
    ensures
        opts.branch ==> (r matches Ok(Some(s)) && s@ == "main"@),
        !opts.branch ==> match opts.changed_since {
            Some(c) => if trim(c@).len() == 0 {
                (r matches Err(m) && m@ == empty_ref_message())
            } else {
                (r matches Ok(Some(s)) && s@ == trim(c@))
            },
            None => r matches Ok(None),
        },
{
    if opts.branch {
        return Ok(Some("main".to_owned()));
    }
    match &opts.changed_since {
        Some(c) => {
            let t = trim_str(c.as_str());
            if t.as_str().is_empty() {
                return Err("--changed-since requires a non-empty ref".to_owned());
            }
            Ok(Some(t))
        },
        None => Ok(None),
    }
}

/// How a finding's location is shown: `file` without a start line; the start line
/// alone without an end line or when both are equal; `start-end` otherwise.
pub open spec fn location_text(line_start: Option<u32>, line_end: Option<u32>) -> Seq<char> {
    match line_start {
        None => "file"@,
        Some(a) => match line_end {
            None => decimal(a as nat),
            Some(b) => if a == b {
                decimal(a as nat)
            } else {
                decimal(a as nat) + "-"@ + decimal(b as nat)
            },
        },
    }
}

/// How a finding's location is shown.
pub fn finding_loc(f: &Finding) -> (r: String)
    ensures
        r@ == location_text(f.line_start, f.line_end),
{
    match (f.line_start, f.line_end) {
        (None, _) => "file".to_owned(),
        (Some(a), None) => fmt_u64(a as u64),
        (Some(a), Some(b)) => {
            if a == b {
                fmt_u64(a as u64)
            } else {
                let mut s = fmt_u64(a as u64);
                s.append("-");
                s.append(fmt_u64(b as u64).as_str());
                s
            }
        },
    }
}

/// The rank of a severity in listings: `high` first, then `medium`, then `low`,
/// then anything else (compared lower-cased).
pub open spec fn severity_rank(s: Seq<char>) -> u8 {
    let l = lowercase(s);
    if l == "high"@ {
        0
    } else if l == "medium"@ {
        1
    } else if l == "low"@ {
        2
    } else {
        3
    }
}

/// The rank of a severity in listings.
pub fn severity_order(s: &str) -> (r: u8)
    ensures
        r == severity_rank(s@),
{
    let l = to_lowercase(s);
    if str_eq(l.as_str(), "high") {
        0
    } else if str_eq(l.as_str(), "medium") {
        1
    } else if str_eq(l.as_str(), "low") {
        2
    } else {
        3
    }
}

/// The colours the terminal report uses.
#[derive(Debug, Clone, Copy, PartialEq, Eq, Structural)]
pub enum TermColor {
    Red,
    Yellow,
    DarkGrey,
    Green,
    Reset,
}

/// The colour of a severity: red for high, yellow for medium, dark grey for low
/// (compared lower-cased), the terminal's own otherwise.
pub open spec fn severity_color_of(s: Seq<char>) -> TermColor {
    let l = lowercase(s);
    if l == "high"@ {
        TermColor::Red
    } else if l == "medium"@ {
        TermColor::Yellow
    } else if l == "low"@ {
        TermColor::DarkGrey
    } else {
        TermColor::Reset
    }
}

/// The colour of a severity.
pub fn severity_color(sev: &str) -> (r: TermColor)
    ensures
        r == severity_color_of(sev@),
{
    let l = to_lowercase(sev);
    if str_eq(l.as_str(), "high") {
        TermColor::Red
    } else if str_eq(l.as_str(), "medium") {
        TermColor::Yellow
    } else if str_eq(l.as_str(), "low") {
        TermColor::DarkGrey
    } else {
        TermColor::Reset
    }
}

/// The colour of a status label: green for `healthy`, yellow for `warning`, red
/// otherwise.
pub open spec fn status_color_of(status: Seq<char>) -> TermColor {
    if status == "healthy"@ {
        TermColor::Green
    } else if status == "warning"@ {
        TermColor::Yellow
    } else {
        TermColor::Red
    }
}

/// The colour of a status label.
pub fn status_color(status: &str) -> (r: TermColor)
    ensures
        r == status_color_of(status@),
{
    if str_eq(status, "healthy") {
        TermColor::Green
    } else if str_eq(status, "warning") {
        TermColor::Yellow
    } else {
        TermColor::Red
    }
}

/// The width messages wrap at for a terminal `columns` wide (100 when its size is
/// unknown): 36 less than that, kept between 40 and 120.
pub open spec fn wrap_width(columns: Option<u16>) -> usize {
    let w: int = match columns {
        Some(c) => c as int,
        None => 100,
    };
    let s: int = if w >= 36 { w - 36 } else { 0 };
    (if s < 40 { 40 } else if s > 120 { 120 } else { s }) as usize
}

/// The width messages wrap at for a terminal `columns` wide.
pub fn message_wrap_width(columns: Option<u16>) -> (r: usize)
    ensures
        r == wrap_width(columns),
{
    let w: usize = match columns {
        Some(c) => c as usize,
        None => 100,
    };
    let s = w.saturating_sub(36);
    if s < 40 {
        40
    } else if s > 120 {
        120
    } else {
        s
    }
}

} // verus!
