//! Functions in Python sources, found in the syntax tree that `tree-sitter`
//! builds with the `tree-sitter-python` grammar.
//!
//! The tree is read node by node in pre-order as plain values ([`SyntaxNode`]);
//! the functions are then found in that list.

use vstd::prelude::*;
use crate::models::{function_views, FunctionInfo, FunctionView};
use crate::digest::{sha256_hex, sha256_hex_of};
use crate::text::{
    join, join_strings, lemma_normalized_lines_of_joined, lines, lines_of, normalized, str_eq,
    trimmed_nonempty, views,
};

verus! {

#[verifier::external_type_specification]
#[verifier::external_body]
pub struct ExTree(tree_sitter::Tree);

/// Whether tree-sitter, with the Python grammar loaded, gives a tree for `source`.
pub uninterp spec fn python_parse_ok(source: Seq<char>) -> bool;

/// How many nodes the tree for `source` has, the root included
/// (`Node::descendant_count` of the root).
pub uninterp spec fn python_node_count(source: Seq<char>) -> nat;

// Each of the four names below is what one node accessor returns for the node of
// the tree for `source` at pre-order position `index`, as tree-sitter numbers
// descendants and `TreeCursor::goto_descendant` reaches them.

/// The node's kind (`Node::kind`).
pub uninterp spec fn python_node_kind(source: Seq<char>, index: nat) -> Seq<char>;

/// The text of the node's `name` field when it has one whose text is valid UTF-8
/// (`Node::child_by_field_name("name")`, then `Node::utf8_text`).
pub uninterp spec fn python_node_name(source: Seq<char>, index: nat) -> Option<Seq<char>>;

/// The node's start row (`Node::start_position().row`).
pub uninterp spec fn python_node_start_row(source: Seq<char>, index: nat) -> usize;

/// The node's end row (`Node::end_position().row`).
pub uninterp spec fn python_node_end_row(source: Seq<char>, index: nat) -> usize;

/// A Python source together with the tree tree-sitter parsed from it.
pub struct PythonTree {
    source: String,
    tree: tree_sitter::Tree,
}

impl PythonTree {
    /// The text the tree was parsed from.
    pub closed spec fn source(&self) -> Seq<char> {
        self.source@
    }

    /// Parses `source` with a `tree_sitter::Parser` set to the
    /// `tree_sitter_python::LANGUAGE` grammar (`Parser::set_language`,
    /// `Parser::parse`).
    #[verifier::external_body]
    pub(crate) fn parse(source: &str) -> (r: Option<PythonTree>)
        ensures
            r is Some <==> python_parse_ok(source@),
            r matches Some(t) ==> t.source() == source@,
    {
        let mut parser = tree_sitter::Parser::new();
        let lang: tree_sitter::Language = tree_sitter_python::LANGUAGE.into();
        if parser.set_language(&lang).is_err() {
            return None;
        }
        match parser.parse(source.as_bytes(), None) {
            Some(tree) => Some(PythonTree { source: source.to_owned(), tree }),
            None => None,
        }
    }

    /// The number of nodes of the tree (`Node::descendant_count` of the root).
    #[verifier::external_body]
    pub(crate) fn node_count(&self) -> (r: usize)
        ensures
            r == python_node_count(self.source()),
    {
        self.tree.root_node().descendant_count()
    }

    /// The node at pre-order position `index` as plain values
    /// (`TreeCursor::goto_descendant`, `Node::kind`, `Node::child_by_field_name`,
    /// `Node::utf8_text`, `Node::start_position`, `Node::end_position`).
    #[verifier::external_body]
    pub(crate) fn node_at(&self, index: usize) -> (r: SyntaxNode)
        requires
            index < python_node_count(self.source()),
        ensures
            r.kind@ == python_node_kind(self.source(), index as nat),
            crate::pattern::opt_view(r.name) == python_node_name(self.source(), index as nat),
            r.start_row == python_node_start_row(self.source(), index as nat),
            r.end_row == python_node_end_row(self.source(), index as nat),
    {
        let mut cursor = self.tree.walk();
        cursor.goto_descendant(index);
        let node = cursor.node();
        let name = match node.child_by_field_name("name") {
            Some(n) => match n.utf8_text(self.source.as_bytes()) {
                Ok(t) => Some(t.to_owned()),
                Err(_) => None,
            },
            None => None,
        };
        let (start_row, end_row) = (node.start_position().row, node.end_position().row);
        SyntaxNode { kind: node.kind().to_owned(), name, start_row, end_row }
    }
}

/// One node of a syntax tree as plain values: its kind, the text of its `name`
/// field if it has one, and the rows it starts and ends on.
#[derive(Debug, Clone)]
pub struct SyntaxNode {
    pub kind: String,
    pub name: Option<String>,
    pub start_row: usize,
    pub end_row: usize,
}


/// A [`SyntaxNode`] with its strings taken as character sequences.
pub struct SyntaxNodeView {
    pub kind: Seq<char>,
    pub name: Option<Seq<char>>,
    pub start_row: usize,
    pub end_row: usize,
}

impl View for SyntaxNode {
    type V = SyntaxNodeView;

    open spec fn view(&self) -> SyntaxNodeView {
        SyntaxNodeView {
            kind: self.kind@,
            name: crate::pattern::opt_view(self.name),
            start_row: self.start_row,
            end_row: self.end_row,
        }
    }
}

/// The node of the tree for `source` at pre-order position `index`.
pub open spec fn python_node_view(source: Seq<char>, index: nat) -> SyntaxNodeView {
    SyntaxNodeView {
        kind: python_node_kind(source, index),
        name: python_node_name(source, index),
        start_row: python_node_start_row(source, index),
        end_row: python_node_end_row(source, index),
    }
}

/// The views of a sequence of syntax nodes.
pub open spec fn node_views(s: Seq<SyntaxNode>) -> Seq<SyntaxNodeView> {
    s.map_values(|n: SyntaxNode| n@)
}

/// What `textwrap::dedent` returns for a text.
pub uninterp spec fn dedent_of(text: Seq<char>) -> Seq<char>;

/// Removes the whitespace prefix common to the non-blank lines of `text` by calling
/// `textwrap::dedent`. The result is given by the name [`dedent_of`]; beside it
/// one fact is stated that the crate's source shows: each line of the result is
/// the line of `text` at the same place with that whitespace prefix removed, or
/// empty where the line of `text` was blank, so once lines are trimmed and blank
/// ones dropped nothing has changed.
#[verifier::external_body]
fn dedent(text: &str) -> (r: String)
    ensures
        r@ == dedent_of(text@),
        normalized(lines(r@)) == normalized(lines(text@)),
{
    textwrap::dedent(text)
}

/// The hash of a function body given as `slice`: its lines joined with `\n`,
/// dedented, split into lines again, trimmed with blank ones dropped, joined with
/// `\n`, as SHA-256 in lower-case hexadecimal. Dedenting changes nothing once lines
/// are trimmed, so it does not appear here.
pub open spec fn body_hash_of(slice: Seq<Seq<char>>) -> Seq<char> {
    sha256_hex(join(normalized(lines(join(slice, "\n"@))), "\n"@))
}

/// A function body's hash depends only on its lines trimmed with blank ones
/// dropped: two bodies whose lines (none holding a line break) are the same once
/// trimmed and once blank lines are left out get the same hash, whatever their
/// indentation, trailing whitespace or blank lines.
pub proof fn lemma_body_hash_ignores_layout(a: Seq<Seq<char>>, b: Seq<Seq<char>>)
    requires
        forall|i: int| 0 <= i < a.len() ==> !(#[trigger] a[i]).contains('\n'),
        forall|i: int| 0 <= i < b.len() ==> !(#[trigger] b[i]).contains('\n'),
        normalized(a) == normalized(b),
    ensures
        body_hash_of(a) == body_hash_of(b),
{
    lemma_normalized_lines_of_joined(a);
    lemma_normalized_lines_of_joined(b);
}

/// The same for functions of files: two line ranges that exist, whose lines (none
/// holding a line break) are the same once trimmed and once blank lines are left
/// out, get the same body hash.
pub proof fn lemma_python_body_hash_ignores_layout(
    la: Seq<Seq<char>>,
    sa: u32,
    ea: u32,
    lb: Seq<Seq<char>>,
    sb: u32,
    eb: u32,
)
    requires
        1 <= sa <= ea <= la.len(),
        1 <= sb <= eb <= lb.len(),
        forall|i: int| 0 <= i < la.len() ==> !(#[trigger] la[i]).contains('\n'),
        forall|i: int| 0 <= i < lb.len() ==> !(#[trigger] lb[i]).contains('\n'),
        normalized(la.subrange(sa - 1, ea as int)) == normalized(lb.subrange(sb - 1, eb as int)),
    ensures
        python_body_hash(la, sa, ea) == python_body_hash(lb, sb, eb),
{
    let a = la.subrange(sa - 1, ea as int);
    let b = lb.subrange(sb - 1, eb as int);
    assert forall|i: int| 0 <= i < a.len() implies !(#[trigger] a[i]).contains('\n') by {
        assert(a[i] == la[i + sa - 1]);
    }
    assert forall|i: int| 0 <= i < b.len() implies !(#[trigger] b[i]).contains('\n') by {
        assert(b[i] == lb[i + sb - 1]);
    }
    lemma_body_hash_ignores_layout(a, b);
}

/// The body hash of the function on lines `line_start..=line_end` (1-based): the
/// hash of those lines that exist, or nothing when none do.
pub open spec fn python_body_hash(lines: Seq<Seq<char>>, line_start: u32, line_end: u32) -> Seq<char> {
    let start: int = if line_start >= 1 { line_start - 1 } else { 0 };
    let end: int = if line_end as int <= lines.len() { line_end as int } else { lines.len() as int };
    if start >= lines.len() || start >= end {
        Seq::empty()
    } else {
        body_hash_of(lines.subrange(start, end))
    }
}

/// The 1-based line of a 0-based row, `(row + 1) as u32` as a release build
/// computes it.
pub open spec fn row_line(row: usize) -> u32 {
    vstd::wrapping::usize_specs::wrapping_add(row, 1) as u32
}

/// The functions among the syntax nodes `nodes` of the file at `path` with `lines`:
/// each `function_definition` node that has a name, in order.
pub open spec fn python_functions(path: Seq<char>, lines: Seq<Seq<char>>, nodes: Seq<SyntaxNodeView>) -> Seq<FunctionView>
    decreases nodes.len(),
{
    if nodes.len() == 0 {
        Seq::empty()
    } else {
        let rest = python_functions(path, lines, nodes.drop_last());
        let n = nodes.last();
        if n.kind == "function_definition"@ && n.name is Some {
            let ls = row_line(n.start_row);
            let le = row_line(n.end_row);
            rest.push(
                FunctionView {
                    name: n.name->0,
                    file_path: path,
                    line_start: ls,
                    line_end: le,
                    body_hash: python_body_hash(lines, ls, le),
                },
            )
        } else {
            rest
        }
    }
}

/// The body hash of the function on lines `line_start..=line_end` (1-based).
pub fn normalize_python_body_hash(lines: &Vec<String>, line_start: u32, line_end: u32) -> (r: String)
    ensures
        r@ == python_body_hash(views(lines@), line_start, line_end),
{
    let start_idx = line_start.saturating_sub(1) as usize;
    let end_idx = line_end as usize;
    if start_idx >= lines.len() {
        return String::new();
    }
    let end_idx = if end_idx < lines.len() { end_idx } else { lines.len() };
    if start_idx >= end_idx {
        return String::new();
    }
    let mut slice: Vec<String> = Vec::new();
    let mut i = start_idx;
    while i < end_idx
        invariant
            start_idx <= i <= end_idx <= lines@.len(),
            views(slice@) == views(lines@).subrange(start_idx as int, i as int),
        decreases end_idx - i,
    {
        let ghost before = views(slice@);
        slice.push(lines[i].clone());
        assert(views(slice@) =~= before.push(lines@[i as int]@));
        assert(views(lines@).subrange(start_idx as int, i + 1) =~= views(lines@).subrange(
            start_idx as int,
            i as int,
        ).push(lines@[i as int]@));
        i += 1;
    }
    let joined = join_strings(&slice, "\n");
    let dedented = dedent(joined.as_str());
    let kept = trimmed_nonempty(&lines_of(dedented.as_str()));
    let normal = join_strings(&kept, "\n");
    sha256_hex_of(normal.as_str())
}

/// The functions among the syntax nodes of the file at `path` with `lines`.
pub fn collect_functions(nodes: &Vec<SyntaxNode>, path: &str, lines: &Vec<String>) -> (r: Vec<FunctionInfo>)
    ensures
        function_views(r@) == python_functions(path@, views(lines@), node_views(nodes@)),
{
    let ghost nv = node_views(nodes@);
    let mut out: Vec<FunctionInfo> = Vec::new();
    let mut i: usize = 0;
    while i < nodes.len()
        invariant
            i <= nodes@.len(),
            nv == node_views(nodes@),
            function_views(out@) == python_functions(path@, views(lines@), nv.take(i as int)),
        decreases nodes.len() - i,
    {
        let n = &nodes[i];
        assert(nv.take(i + 1).drop_last() == nv.take(i as int));
        assert(nv.take(i + 1).last() == n@);
        if str_eq(n.kind.as_str(), "function_definition") {
            match &n.name {
                Some(name) => {
                    let line_start = #[verifier::truncate] (n.start_row.wrapping_add(1) as u32);
                    let line_end = #[verifier::truncate] (n.end_row.wrapping_add(1) as u32);
                    let body_hash = normalize_python_body_hash(lines, line_start, line_end);
                    let f = FunctionInfo {
                        name: name.clone(),
                        file_path: path.to_owned(),
                        line_start,
                        line_end,
                        body_hash,
                    };
                    let ghost before = function_views(out@);
                    out.push(f);
                    assert(function_views(out@) =~= before.push(f@));
                },
                None => {},
            }
        }
        i += 1;
    }
    assert(nv.take(nodes@.len() as int) == nv);
    out
}

/// The nodes of the tree for `source`, in pre-order.
pub open spec fn python_nodes(source: Seq<char>) -> Seq<SyntaxNodeView> {
    Seq::new(python_node_count(source), |i: int| python_node_view(source, i as nat))
}

/// The functions of a Python file at `path` with `lines`: the source is the lines
/// joined with `\n`; when tree-sitter gives a tree for it, the functions are those
/// [`python_functions`] reads from its nodes in pre-order, otherwise there are none.
pub open spec fn python_file_functions(path: Seq<char>, lines: Seq<Seq<char>>) -> Seq<FunctionView> {
    let source = join(lines, "\n"@);
    if python_parse_ok(source) {
        python_functions(path, lines, python_nodes(source))
    } else {
        Seq::empty()
    }
}

/// The functions of a Python file at `path` with `lines`.
pub fn parse_python(path: &str, lines: &Vec<String>) -> (r: Vec<FunctionInfo>)
    ensures
        function_views(r@) == python_file_functions(path@, views(lines@)),
{
    let source = join_strings(lines, "\n");
    let tree = match PythonTree::parse(source.as_str()) {
        Some(t) => t,
        None => {
            let r: Vec<FunctionInfo> = Vec::new();
            assert(function_views(r@) =~= Seq::<FunctionView>::empty());
            return r;
        },
    };
    let count = tree.node_count();
    let ghost want = python_nodes(source@);
    let mut nodes: Vec<SyntaxNode> = Vec::new();
    let mut i: usize = 0;
    while i < count
        invariant
            i <= count == python_node_count(source@),
            tree.source() == source@,
            want == python_nodes(source@),
            node_views(nodes@) == want.take(i as int),
        decreases count - i,
    {
        let n = tree.node_at(i);
        let ghost before = node_views(nodes@);
        nodes.push(n);
        assert(node_views(nodes@) =~= before.push(n@));
        assert(want.take(i + 1) =~= want.take(i as int).push(want[i as int]));
        i += 1;
    }
    assert(want.take(count as int) =~= want);
    collect_functions(&nodes, path, lines)
}

} // verus!
