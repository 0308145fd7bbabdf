//! Functions in JavaScript-like sources, found line by line with regular
//! expressions; a function's body runs to the line where its braces balance.

use vstd::prelude::*;
use crate::digest::{sha256_hex, sha256_hex_of};
use crate::models::{function_views, FunctionInfo, FunctionView};
use crate::pattern::{opt_view, regex_capture, regex_valid, Pattern};
use crate::text::{chars_of, join, join_strings, normalized, trimmed_nonempty, views};

verus! {

/// The expressions that recognise the first line of a function; group 1 is its name.
pub open spec fn function_patterns() -> Seq<Seq<char>> {
    seq![
        r"^\s*(?:export\s+)?(?:async\s+)?function\s+(\w+)\s*\("@,
        r"^\s*(?:export\s+)?(?:const|let|var)\s+(\w+)\s*=\s*(?:async\s+)?\("@,
        r"^\s*(?:export\s+)?(?:const|let|var)\s+(\w+)\s*=\s*(?:async\s+)?function"@,
        r"^\s*(\w+)\s*=\s*(?:async\s+)?\("@,
    ]
}

/// The expressions that recognise the first line of a function.
pub fn patterns() -> (r: Vec<Option<Pattern>>)
    ensures
        r@.len() == function_patterns().len(),
        forall|j: int| 0 <= j < r@.len() ==> {
            &&& (#[trigger] r@[j] is Some <==> regex_valid(function_patterns()[j]))
            &&& (r@[j] matches Some(p) ==> p.source() == function_patterns()[j])
        },
{
    let r = vec![
        Pattern::compile(r"^\s*(?:export\s+)?(?:async\s+)?function\s+(\w+)\s*\("),
        Pattern::compile(r"^\s*(?:export\s+)?(?:const|let|var)\s+(\w+)\s*=\s*(?:async\s+)?\("),
        Pattern::compile(r"^\s*(?:export\s+)?(?:const|let|var)\s+(\w+)\s*=\s*(?:async\s+)?function"),
        Pattern::compile(r"^\s*(\w+)\s*=\s*(?:async\s+)?\("),
    ];
    r
}

/// The name the first of `pats` (from index `j` on) gives for `line`: an
/// expression that compiles and matches, and whose group 1 holds a non-empty name.
pub open spec fn function_name_from(pats: Seq<Seq<char>>, line: Seq<char>, j: int) -> Option<Seq<char>>
    decreases pats.len() - j,
{
    if j < 0 || j >= pats.len() {
        None
    } else {
        let name = if regex_valid(pats[j]) {
            match regex_capture(pats[j], line, 1) {
                Some(Some(g)) => g,
                _ => Seq::empty(),
            }
        } else {
            Seq::empty()
        };
        if name.len() > 0 {
            Some(name)
        } else {
            function_name_from(pats, line, j + 1)
        }
    }
}

/// The name of the function that starts on `line`, if one does.
pub open spec fn function_name(line: Seq<char>) -> Option<Seq<char>> {
    function_name_from(function_patterns(), line, 0)
}

/// The number of occurrences of `c` in `s`.
pub open spec fn count_char(s: Seq<char>, c: char) -> nat
    decreases s.len(),
{
    if s.len() == 0 {
        0
    } else {
        count_char(s.drop_last(), c) + if s.last() == c { 1nat } else { 0nat }
    }
}

/// The brace depth after `line`, from depth `depth`: opening braces added and
/// closing braces taken away, each count cast to `i32` and the arithmetic wrapping
/// as in a release build.
pub open spec fn depth_after(depth: i32, line: Seq<char>) -> i32 {
    vstd::wrapping::i32_specs::wrapping_sub(
        vstd::wrapping::i32_specs::wrapping_add(depth, count_char(line, '{') as i32),
        count_char(line, '}') as i32,
    )
}

/// From line `i` at depth `depth`: the index just past the first line after which
/// the depth is no longer positive, or the number of lines when there is none.
pub open spec fn block_end_from(lines: Seq<Seq<char>>, i: int, depth: i32) -> int
    decreases lines.len() - i,
{
    if i < 0 || i >= lines.len() {
        lines.len() as int
    } else {
        let d = depth_after(depth, lines[i]);
        if d <= 0 {
            i + 1
        } else {
            block_end_from(lines, i + 1, d)
        }
    }
}

/// Where the block that starts on line `start` ends (exclusive).
pub open spec fn block_end(lines: Seq<Seq<char>>, start: int) -> int {
    block_end_from(lines, start, 0)
}

/// A block that starts on an existing line ends after it, and at most at the end.
pub proof fn lemma_block_end_bounds(lines: Seq<Seq<char>>, i: int, depth: i32)
    requires
        0 <= i < lines.len(),
    ensures
        i < block_end_from(lines, i, depth) <= lines.len(),
    decreases lines.len() - i,
{
    let d = depth_after(depth, lines[i]);
    if d > 0 {
        if i + 1 < lines.len() {
            lemma_block_end_bounds(lines, i + 1, d);
        } else {
            assert(block_end_from(lines, i + 1, d) == lines.len());
        }
    }
}

/// The body hash of some lines: the SHA-256 of their trimmed, non-blank lines
/// joined with `\n`, in lower-case hexadecimal.
pub open spec fn lines_hash(lines: Seq<Seq<char>>) -> Seq<char> {
    sha256_hex(join(normalized(lines), "\n"@))
}

/// The body hash of `lines[from..to]`.
pub fn sha256_lines(lines: &Vec<String>, from: usize, to: usize) -> (r: String)
    requires
        from <= to <= lines@.len(),
    ensures
        r@ == lines_hash(views(lines@).subrange(from as int, to as int)),
{
    let mut slice: Vec<String> = Vec::new();
    let mut i = from;
    while i < to
        invariant
            from <= i <= to <= lines@.len(),
            views(slice@) == views(lines@).subrange(from as int, i as int),
        decreases to - i,
    {
        let ghost before = views(slice@);
        slice.push(lines[i].clone());
        assert(views(slice@) =~= before.push(lines@[i as int]@));
        assert(views(lines@).subrange(from as int, i + 1) =~= views(lines@).subrange(from as int, i as int).push(lines@[i as int]@));
        i += 1;
    }
    let kept = trimmed_nonempty(&slice);
    let joined = join_strings(&kept, "\n");
    sha256_hex_of(joined.as_str())
}

/// The number of occurrences of `c` in `s`.
fn count_occurrences(s: &str, c: char) -> (r: usize)
    ensures
        r == count_char(s@, c),
{
    let v = chars_of(s);
    let mut n: usize = 0;
    let mut i: usize = 0;
    while i < v.len()
        invariant
            i <= v@.len(),
            v@ == s@,
            n == count_char(v@.take(i as int), c),
            n <= i,
        decreases v.len() - i,
    {
        assert(v@.take(i + 1).drop_last() == v@.take(i as int));
        if v[i] == c {
            n += 1;
        }
        i += 1;
    }
    assert(v@.take(v@.len() as int) == v@);
    n
}

/// Where the block that starts on line `start_idx` ends (exclusive): just past the
/// first line after which the brace depth is no longer positive, or the number of
/// lines.
pub fn find_block_end(lines: &Vec<String>, start_idx: usize) -> (r: usize)
    ensures
        r == block_end(views(lines@), start_idx as int),
{
    let ghost ls = views(lines@);
    let mut depth: i32 = 0;
    let mut i = start_idx;
    while i < lines.len()
        invariant
            start_idx <= i,
            ls == views(lines@),
            block_end(ls, start_idx as int) == block_end_from(ls, i as int, depth),
        decreases lines.len() - i,
    {
        let line = lines[i].as_str();
        assert(ls[i as int] == line@);
        let opens = count_occurrences(line, '{');
        let closes = count_occurrences(line, '}');
        depth = depth.wrapping_add(#[verifier::truncate] (opens as i32));
        depth = depth.wrapping_sub(#[verifier::truncate] (closes as i32));
        if depth <= 0 {
            return i + 1;
        }
        i += 1;
    }
    lines.len()
}


/// The functions found from line `i` on in the file at `path` with `lines`: where
/// a line starts a function, the function runs to the end of its block and the
/// search goes on after it; otherwise the search goes on at the next line.
pub open spec fn text_functions_from(path: Seq<char>, lines: Seq<Seq<char>>, i: int) -> Seq<FunctionView>
    decreases lines.len() - i,
{
    if i < 0 || i >= lines.len() {
        Seq::empty()
    } else {
        match function_name(lines[i]) {
            Some(name) => {
                let end = block_end(lines, i);
                proof {
                    lemma_block_end_bounds(lines, i, 0);
                }
                seq![
                    FunctionView {
                        name,
                        file_path: path,
                        line_start: (i + 1) as u32,
                        line_end: end as u32,
                        body_hash: lines_hash(lines.subrange(i, end)),
                    },
                ] + text_functions_from(path, lines, end)
            },
            None => text_functions_from(path, lines, i + 1),
        }
    }
}

/// A name found for a line is never empty.
proof fn lemma_function_name_nonempty(pats: Seq<Seq<char>>, line: Seq<char>, j: int)
    ensures
        function_name_from(pats, line, j) matches Some(n) ==> n.len() > 0,
    decreases pats.len() - j,
{
    if 0 <= j < pats.len() {
        lemma_function_name_nonempty(pats, line, j + 1);
    }
}

/// The functions found from line `i` on start at or after line `i + 1`, each
/// after the end of the one before, and each ends at or after its start (for
/// files with fewer than `u32::MAX` lines, where line numbers do not wrap). Each
/// has a non-empty name and the file's path.
pub proof fn lemma_text_functions_ordered(path: Seq<char>, lines: Seq<Seq<char>>, i: int)
    requires
        0 <= i,
        lines.len() < u32::MAX,
    ensures
        forall|k: int| 0 <= k < text_functions_from(path, lines, i).len() ==> {
            &&& i + 1 <= (#[trigger] text_functions_from(path, lines, i)[k]).line_start
            &&& text_functions_from(path, lines, i)[k].line_start <= text_functions_from(path, lines, i)[k].line_end <= lines.len()
            &&& text_functions_from(path, lines, i)[k].name.len() > 0
            &&& text_functions_from(path, lines, i)[k].file_path == path
        },
        forall|a: int, b: int| 0 <= a < b < text_functions_from(path, lines, i).len() ==> (#[trigger] text_functions_from(path, lines, i)[a]).line_end < (#[trigger] text_functions_from(path, lines, i)[b]).line_start,
    decreases lines.len() - i,
{
    if i < lines.len() {
        match function_name(lines[i]) {
            Some(name) => {
                let end = block_end(lines, i);
                lemma_block_end_bounds(lines, i, 0);
                lemma_text_functions_ordered(path, lines, end);
                let rest = text_functions_from(path, lines, end);
                let all = text_functions_from(path, lines, i);
                assert(all == seq![all[0]] + rest);
                assert(i + 1 <= end <= lines.len());
                assert(all[0].line_start == (i + 1) as u32);
                assert(all[0].line_end == end as u32);
                lemma_function_name_nonempty(function_patterns(), lines[i], 0);
                assert forall|k: int| 0 <= k < all.len() implies {
                    &&& i + 1 <= (#[trigger] all[k]).line_start
                    &&& all[k].line_start <= all[k].line_end <= lines.len()
                    &&& all[k].name.len() > 0
                    &&& all[k].file_path == path
                } by {
                    if k > 0 {
                        assert(all[k] == rest[k - 1]);
                    }
                }
                assert forall|a: int, b: int| 0 <= a < b < all.len() implies (#[trigger] all[a]).line_end < (#[trigger] all[b]).line_start by {
                    assert(all[b] == rest[b - 1]);
                    if a > 0 {
                        assert(all[a] == rest[a - 1]);
                    }
                }
            },
            None => {
                lemma_text_functions_ordered(path, lines, i + 1);
                assert(text_functions_from(path, lines, i) == text_functions_from(path, lines, i + 1));
            },
        }
    }
}

/// The functions of a JavaScript-like file at `path` with `lines`.
pub open spec fn text_functions(path: Seq<char>, lines: Seq<Seq<char>>) -> Seq<FunctionView> {
    text_functions_from(path, lines, 0)
}

/// The name of the function that starts on `line`, if one does.
fn first_function_name(pats: &Vec<Option<Pattern>>, line: &str) -> (r: Option<String>)
    requires
        pats@.len() == function_patterns().len(),
        forall|j: int| 0 <= j < pats@.len() ==> {
            &&& (#[trigger] pats@[j] is Some <==> regex_valid(function_patterns()[j]))
            &&& (pats@[j] matches Some(p) ==> p.source() == function_patterns()[j])
        },
    ensures
        opt_view(r) == function_name(line@),
{
    let mut j: usize = 0;
    while j < pats.len()
        invariant
            j <= pats@.len() == function_patterns().len(),
            forall|k: int| 0 <= k < pats@.len() ==> {
                &&& (#[trigger] pats@[k] is Some <==> regex_valid(function_patterns()[k]))
                &&& (pats@[k] matches Some(p) ==> p.source() == function_patterns()[k])
            },
            function_name(line@) == function_name_from(function_patterns(), line@, j as int),
        decreases pats.len() - j,
    {
        match &pats[j] {
            Some(p) => {
                match p.capture(line, 1) {
                    Some(Some(g)) => {
                        if !g.as_str().is_empty() {
                            return Some(g);
                        }
                    },
                    _ => {},
                }
            },
            None => {},
        }
        j += 1;
    }
    None
}

/// The functions of a JavaScript-like file at `path` with `lines`.
pub fn parse_text(path: &str, lines: &Vec<String>) -> (r: Vec<FunctionInfo>)
    ensures
        function_views(r@) == text_functions(path@, views(lines@)),
{
    let pats = patterns();
    let ghost ls = views(lines@);
    let mut functions: Vec<FunctionInfo> = Vec::new();
    let mut i: usize = 0;
    while i < lines.len()
        invariant
            i <= lines@.len(),
            ls == views(lines@),
            pats@.len() == function_patterns().len(),
            forall|j: int| 0 <= j < pats@.len() ==> {
                &&& (#[trigger] pats@[j] is Some <==> regex_valid(function_patterns()[j]))
                &&& (pats@[j] matches Some(p) ==> p.source() == function_patterns()[j])
            },
            function_views(functions@) + text_functions_from(path@, ls, i as int) == text_functions(path@, ls),
        decreases lines.len() - i,
    {
        let line = lines[i].as_str();
        assert(ls[i as int] == line@);
        match first_function_name(&pats, line) {
            Some(name) => {
                let end_idx = find_block_end(lines, i);
                proof {
                    lemma_block_end_bounds(ls, i as int, 0);
                }
                let body_hash = sha256_lines(lines, i, end_idx);
                let f = FunctionInfo {
                    name,
                    file_path: path.to_owned(),
                    line_start: #[verifier::truncate] ((i + 1) as u32),
                    line_end: #[verifier::truncate] (end_idx as u32),
                    body_hash,
                };
                let ghost before = function_views(functions@);
                functions.push(f);
                proof {
                    let head = seq![f@];
                    assert(text_functions_from(path@, ls, i as int) == head + text_functions_from(path@, ls, end_idx as int));
                    assert(function_views(functions@) =~= before + head);
                    assert(before + (head + text_functions_from(path@, ls, end_idx as int)) =~= (before + head) + text_functions_from(path@, ls, end_idx as int));
                }
                i = end_idx;
            },
            None => {
                i += 1;
            },
        }
    }
    proof {
        assert(text_functions_from(path@, ls, i as int) == Seq::<FunctionView>::empty());
        assert(function_views(functions@) =~= function_views(functions@) + Seq::<FunctionView>::empty());
    }
    functions
}

} // verus!
