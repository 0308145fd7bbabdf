//! The data the scan works on and produces.

use vstd::prelude::*;

verus! {

/// One reported problem.
#[derive(Debug)]
pub struct Finding {
    pub rule_id: String,
    pub severity: String,
    pub file_path: String,
    pub line_start: Option<u32>,
    pub line_end: Option<u32>,
    pub message: String,
    pub score: i32,
}

/// A [`Finding`] with its strings taken as character sequences.
pub struct FindingView {
    pub rule_id: Seq<char>,
    pub severity: Seq<char>,
    pub file_path: Seq<char>,
    pub line_start: Option<u32>,
    pub line_end: Option<u32>,
    pub message: Seq<char>,
    pub score: i32,
}

impl View for Finding {
    type V = FindingView;

    open spec fn view(&self) -> FindingView {
        FindingView {
            rule_id: self.rule_id@,
            severity: self.severity@,
            file_path: self.file_path@,
            line_start: self.line_start,
            line_end: self.line_end,
            message: self.message@,
            score: self.score,
        }
    }
}

impl Clone for Finding {
    fn clone(&self) -> (r: Self)
        ensures
            r == *self,
    {
        Finding {
            rule_id: self.rule_id.clone(),
            severity: self.severity.clone(),
            file_path: self.file_path.clone(),
            line_start: self.line_start,
            line_end: self.line_end,
            message: self.message.clone(),
            score: self.score,
        }
    }
}

impl Finding {
    /// A finding with the given fields.
    pub(crate) fn make(
        rule_id: &str,
        severity: &str,
        file_path: &str,
        line_start: Option<u32>,
        line_end: Option<u32>,
        message: String,
        score: i32,
    ) -> (r: Finding)
        ensures
            r@ == (FindingView {
                rule_id: rule_id@,
                severity: severity@,
                file_path: file_path@,
                line_start,
                line_end,
                message: message@,
                score,
            }),
    {
        Finding {
            rule_id: rule_id.to_owned(),
            severity: severity.to_owned(),
            file_path: file_path.to_owned(),
            line_start,
            line_end,
            message,
            score,
        }
    }
}

/// The views of a sequence of findings.
pub open spec fn finding_views(s: Seq<Finding>) -> Seq<FindingView> {
    s.map_values(|f: Finding| f@)
}

/// Every finding of `fs` carries the rule id `id`.
pub open spec fn all_from_rule(fs: Seq<FindingView>, id: Seq<char>) -> bool {
    forall|i: int| 0 <= i < fs.len() ==> (#[trigger] fs[i]).rule_id == id
}

/// The outcome of a scan.
#[derive(Debug, Clone)]
pub struct ScanResult {
    pub findings: Vec<Finding>,
    pub total_score: i32,
    pub files_scanned: usize,
    pub passed: bool,
}

/// A function found in a file.
#[derive(Debug)]
pub struct FunctionInfo {
    pub name: String,
    pub file_path: String,
    pub line_start: u32,
    pub line_end: u32,
    pub body_hash: String,
}

/// A [`FunctionInfo`] with its strings taken as character sequences.
pub struct FunctionView {
    pub name: Seq<char>,
    pub file_path: Seq<char>,
    pub line_start: u32,
    pub line_end: u32,
    pub body_hash: Seq<char>,
}

impl View for FunctionInfo {
    type V = FunctionView;

    open spec fn view(&self) -> FunctionView {
        FunctionView {
            name: self.name@,
            file_path: self.file_path@,
            line_start: self.line_start,
            line_end: self.line_end,
            body_hash: self.body_hash@,
        }
    }
}

impl Clone for FunctionInfo {
    fn clone(&self) -> (r: Self)
        ensures
            r == *self,
    {
        FunctionInfo {
            name: self.name.clone(),
            file_path: self.file_path.clone(),
            line_start: self.line_start,
            line_end: self.line_end,
            body_hash: self.body_hash.clone(),
        }
    }
}

/// The views of a sequence of functions.
pub open spec fn function_views(s: Seq<FunctionInfo>) -> Seq<FunctionView> {
    s.map_values(|f: FunctionInfo| f@)
}

/// Per-file content for rules: the path, its lines, its language and the
/// functions found in it.
#[derive(Debug, Clone)]
pub struct FileContext {
    pub path: String,
    pub lines: Vec<String>,
    pub language: String,
    pub functions: Vec<FunctionInfo>,
}

/// A [`FileContext`] with its strings taken as character sequences.
pub struct FileContextView {
    pub path: Seq<char>,
    pub lines: Seq<Seq<char>>,
    pub language: Seq<char>,
    pub functions: Seq<FunctionView>,
}

impl View for FileContext {
    type V = FileContextView;

    open spec fn view(&self) -> FileContextView {
        FileContextView {
            path: self.path@,
            lines: crate::text::views(self.lines@),
            language: self.language@,
            functions: function_views(self.functions@),
        }
    }
}

/// The views of a sequence of file contexts.
pub open spec fn context_views(s: Seq<FileContext>) -> Seq<FileContextView> {
    s.map_values(|c: FileContext| c@)
}

/// The functions of all the files, file by file, each file's in order.
pub open spec fn all_functions(ctxs: Seq<FileContextView>) -> Seq<FunctionView>
    decreases ctxs.len(),
{
    if ctxs.len() == 0 {
        Seq::empty()
    } else {
        all_functions(ctxs.drop_last()) + ctxs.last().functions
    }
}

/// The functions of all the files, file by file.
pub fn all_functions_of(contexts: &Vec<FileContext>) -> (r: Vec<FunctionInfo>)
    ensures
        function_views(r@) == all_functions(context_views(contexts@)),
{
    let ghost cs = context_views(contexts@);
    let mut out: Vec<FunctionInfo> = Vec::new();
    let mut c: usize = 0;
    while c < contexts.len()
        invariant
            c <= contexts@.len(),
            cs == context_views(contexts@),
            function_views(out@) == all_functions(cs.take(c as int)),
        decreases contexts.len() - c,
    {
        let ctx = &contexts[c];
        assert(cs.take(c + 1).drop_last() == cs.take(c as int));
        assert(cs.take(c + 1).last() == ctx@);
        let ghost base = function_views(out@);
        let mut j: usize = 0;
        while j < ctx.functions.len()
            invariant
                j <= ctx.functions@.len(),
                function_views(out@) == base + function_views(ctx.functions@).take(j as int),
            decreases ctx.functions.len() - j,
        {
            let ghost before = function_views(out@);
            out.push(ctx.functions[j].clone());
            assert(function_views(out@) =~= before.push(ctx.functions@[j as int]@));
            assert(function_views(ctx.functions@).take(j + 1) =~= function_views(ctx.functions@).take(j as int).push(ctx.functions@[j as int]@));
            j += 1;
        }
        assert(function_views(ctx.functions@).take(ctx.functions@.len() as int) == function_views(ctx.functions@));
        c += 1;
    }
    assert(cs.take(contexts@.len() as int) == cs);
    out
}

} // verus!
