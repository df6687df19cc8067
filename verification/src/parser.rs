//! Parser façade: what the crate computes directly on source text and on
//! an already-built syntax tree.
//!
//! The grammar itself lives outside; see `tree` for the node model.  Here
//! live the syntax-error walk over a tree and the text-based fallback that
//! recovers a call context while the tree is broken mid-typing.

use vstd::prelude::*;
use vstd::string::*;

use crate::text::{push_char, spec_lines, split_lines};
use crate::tree::{spec_node_range, spec_node_text, NodeData, SyntaxTree};
use crate::types::{Diagnostic, Range, Severity};

verus! {

// ---------------------------------------------------------------------------
// Diagnostics as abstract values
// ---------------------------------------------------------------------------

/// The abstract contents of one diagnostic.
pub ghost struct DiagV {
    pub range: Range,
    pub severity: Severity,
    pub code: Seq<char>,
    pub message: Seq<char>,
}

pub open spec fn diag_view(d: Diagnostic) -> DiagV {
    DiagV { range: d.range, severity: d.severity, code: d.code@, message: d.message@ }
}

pub open spec fn diags_view(s: Seq<Diagnostic>) -> Seq<DiagV> {
    s.map_values(|d: Diagnostic| diag_view(d))
}

pub proof fn lemma_diags_push(s: Seq<Diagnostic>, d: Diagnostic)
    ensures
        diags_view(s.push(d)) == diags_view(s).push(diag_view(d)),
{
    assert(diags_view(s.push(d)) =~= diags_view(s).push(diag_view(d)));
}

// ---------------------------------------------------------------------------
// Syntax-error diagnostics
// ---------------------------------------------------------------------------

/// At most the first `n` characters of a text.
pub open spec fn spec_take(s: Seq<char>, n: int) -> Seq<char> {
    if s.len() <= n {
        s
    } else {
        s.subrange(0, n)
    }
}

/// The diagnostic reported for an ERROR node.
pub open spec fn spec_unexpected_diag(n: NodeData, src: Seq<char>) -> DiagV {
    DiagV {
        range: spec_node_range(n),
        severity: Severity::Error,
        code: Seq::<char>::empty(),
        message: "Syntax error: unexpected `"@ + spec_take(spec_node_text(n, src), 50) + "`"@,
    }
}

/// The diagnostic reported for a MISSING node.
pub open spec fn spec_missing_diag(n: NodeData) -> DiagV {
    DiagV {
        range: spec_node_range(n),
        severity: Severity::Error,
        code: Seq::<char>::empty(),
        message: "Syntax error: missing `"@ + n.kind@ + "`"@,
    }
}

/// All syntax diagnostics below node `i`, in document order: an ERROR or
/// MISSING node reports itself and hides its descendants.
pub open spec fn spec_error_diags(tree: SyntaxTree, i: int, src: Seq<char>) -> Seq<DiagV>
    decreases tree.spec_len() - i, tree.spec_nodes()[i].children@.len() + 1
        when tree.wf() && 0 <= i < tree.spec_len()
    via spec_error_diags_decreases
{
    let n = tree.spec_nodes()[i];
    if n.error {
        seq![spec_unexpected_diag(n, src)]
    } else if n.missing {
        seq![spec_missing_diag(n)]
    } else {
        spec_error_diags_children(tree, i, 0, src)
    }
}

/// Diagnostics of the children of `i` from child position `k` on.
pub open spec fn spec_error_diags_children(
    tree: SyntaxTree,
    i: int,
    k: int,
    src: Seq<char>,
) -> Seq<DiagV>
    decreases tree.spec_len() - i, tree.spec_nodes()[i].children@.len() - k
        when tree.wf() && 0 <= i < tree.spec_len() && 0 <= k
    via spec_error_diags_children_decreases
{
    let n = tree.spec_nodes()[i];
    if k >= n.children@.len() {
        Seq::<DiagV>::empty()
    } else {
        spec_error_diags(tree, n.children@[k] as int, src) + spec_error_diags_children(
            tree,
            i,
            k + 1,
            src,
        )
    }
}

#[via_fn]
proof fn spec_error_diags_decreases(tree: SyntaxTree, i: int, src: Seq<char>) {
}

#[via_fn]
proof fn spec_error_diags_children_decreases(tree: SyntaxTree, i: int, k: int, src: Seq<char>) {
}

/// Walk the tree below `i`, collecting syntax diagnostics.
fn collect_errors(tree: &SyntaxTree, i: usize, source: &str, diags: &mut Vec<Diagnostic>)
    requires
        tree.wf(),
        0 <= i < tree.spec_len(),
    ensures
        diags_view(final(diags)@) == diags_view(old(diags)@) + spec_error_diags(
            *tree,
            i as int,
            source@,
        ),
    decreases tree.spec_len() - i,
{
    let n = tree.node(i);
    if n.error {
        let text = crate::tree::node_text(tree, i, source);
        let tlen = text.as_str().unicode_len();
        let shown = if tlen <= 50 {
            text.as_str().substring_char(0, tlen)
        } else {
            text.as_str().substring_char(0, 50)
        };
        let mut message = String::new();
        message.append("Syntax error: unexpected `");
        message.append(shown);
        message.append("`");
        let d = Diagnostic {
            range: crate::tree::node_range(n),
            severity: Severity::Error,
            code: String::new(),
            message,
        };
        let ghost pre = diags@;
        diags.push(d);
        proof {
            lemma_diags_push(pre, diags@.last());
            assert(diags@.last().message@ =~= spec_unexpected_diag(
                tree.spec_nodes()[i as int],
                source@,
            ).message);
            assert(diags@.last().code@ =~= Seq::<char>::empty());
            assert(diags_view(diags@) =~= diags_view(pre) + spec_error_diags(
                *tree,
                i as int,
                source@,
            ));
        }
        return;
    }
    if n.missing {
        let mut message = String::new();
        message.append("Syntax error: missing `");
        message.append(n.kind.as_str());
        message.append("`");
        let d = Diagnostic {
            range: crate::tree::node_range(n),
            severity: Severity::Error,
            code: String::new(),
            message,
        };
        let ghost pre = diags@;
        diags.push(d);
        proof {
            lemma_diags_push(pre, diags@.last());
            assert(diags@.last().message@ =~= spec_missing_diag(
                tree.spec_nodes()[i as int],
            ).message);
            assert(diags@.last().code@ =~= Seq::<char>::empty());
            assert(diags_view(diags@) =~= diags_view(pre) + spec_error_diags(
                *tree,
                i as int,
                source@,
            ));
        }
        return;
    }
    let m = tree.node(i).children.len();
    let mut k: usize = 0;
    let ghost base = diags@;
    proof {
        assert(diags_view(diags@) =~= diags_view(base) + Seq::<DiagV>::empty());
    }
    while k < m
        invariant
            tree.wf(),
            0 <= i < tree.spec_len(),
            m == tree.spec_nodes()[i as int].children@.len(),
            k <= m,
            !tree.spec_nodes()[i as int].error,
            !tree.spec_nodes()[i as int].missing,
            diags_view(diags@) == diags_view(base) + spec_error_diags_prefix(
                *tree,
                i as int,
                k as int,
                source@,
            ),
        decreases m - k,
    {
        let c = tree.node(i).children[k];
        let ghost pre = diags@;
        collect_errors(tree, c, source, diags);
        proof {
            lemma_error_diags_prefix_snoc(*tree, i as int, k as int, source@);
            assert(diags_view(diags@) =~= diags_view(base) + spec_error_diags_prefix(
                *tree,
                i as int,
                k + 1,
                source@,
            ));
        }
        k += 1;
    }
    proof {
        lemma_error_diags_prefix_full(*tree, i as int, source@);
    }
}

/// Diagnostics of the children of `i` before child position `k`.
pub open spec fn spec_error_diags_prefix(tree: SyntaxTree, i: int, k: int, src: Seq<char>) -> Seq<
    DiagV,
>
    decreases k when tree.wf() && 0 <= i < tree.spec_len() && 0 <= k <= tree.spec_nodes()[i].children@.len()
{
    if k <= 0 {
        Seq::<DiagV>::empty()
    } else {
        spec_error_diags_prefix(tree, i, k - 1, src) + spec_error_diags(
            tree,
            tree.spec_nodes()[i].children@[k - 1] as int,
            src,
        )
    }
}

proof fn lemma_error_diags_prefix_snoc(tree: SyntaxTree, i: int, k: int, src: Seq<char>)
    requires
        tree.wf(),
        0 <= i < tree.spec_len(),
        0 <= k < tree.spec_nodes()[i].children@.len(),
    ensures
        spec_error_diags_prefix(tree, i, k + 1, src) == spec_error_diags_prefix(tree, i, k, src)
            + spec_error_diags(tree, tree.spec_nodes()[i].children@[k] as int, src),
{
}

proof fn lemma_error_diags_prefix_full(tree: SyntaxTree, i: int, src: Seq<char>)
    requires
        tree.wf(),
        0 <= i < tree.spec_len(),
    ensures
        spec_error_diags_prefix(tree, i, tree.spec_nodes()[i].children@.len() as int, src)
            == spec_error_diags_children(tree, i, 0, src),
{
    lemma_error_diags_prefix_mid(tree, i, 0, src);
}

proof fn lemma_error_diags_prefix_mid(tree: SyntaxTree, i: int, k: int, src: Seq<char>)
    requires
        tree.wf(),
        0 <= i < tree.spec_len(),
        0 <= k <= tree.spec_nodes()[i].children@.len(),
    ensures
        spec_error_diags_prefix(tree, i, tree.spec_nodes()[i].children@.len() as int, src)
            == spec_error_diags_prefix(tree, i, k, src) + spec_error_diags_children(
            tree,
            i,
            k,
            src,
        ),
    decreases tree.spec_nodes()[i].children@.len() - k,
{
    let m = tree.spec_nodes()[i].children@.len() as int;
    if k == m {
        assert(spec_error_diags_children(tree, i, k, src) =~= Seq::<DiagV>::empty());
        assert(spec_error_diags_prefix(tree, i, m, src) + Seq::<DiagV>::empty()
            =~= spec_error_diags_prefix(tree, i, m, src));
    } else {
        lemma_error_diags_prefix_mid(tree, i, k + 1, src);
        lemma_error_diags_prefix_snoc(tree, i, k, src);
        assert(spec_error_diags_prefix(tree, i, k, src) + (spec_error_diags(
            tree,
            tree.spec_nodes()[i].children@[k] as int,
            src,
        ) + spec_error_diags_children(tree, i, k + 1, src)) =~= (spec_error_diags_prefix(
            tree,
            i,
            k,
            src,
        ) + spec_error_diags(tree, tree.spec_nodes()[i].children@[k] as int, src))
            + spec_error_diags_children(tree, i, k + 1, src));
    }
}

/// Syntax diagnostics of a whole tree: ERROR nodes report their first
/// characters, MISSING nodes their kind; nothing below a reported node.
pub fn collect_diagnostics(tree: &SyntaxTree, source: &str) -> (r: Vec<Diagnostic>)
    requires
        tree.wf(),
    ensures
        diags_view(r@) == spec_error_diags(*tree, 0, source@),
{
    let mut diags: Vec<Diagnostic> = Vec::new();
    collect_errors(tree, 0, source, &mut diags);
    proof {
        assert(diags_view(diags@) =~= spec_error_diags(*tree, 0, source@));
    }
    diags
}

// ---------------------------------------------------------------------------
// Text-based call context
// ---------------------------------------------------------------------------

/// A recovered function-call context: the name before the unmatched opening
/// parenthesis and the zero-based active argument position.
pub struct CallContext {
    pub name: String,
    pub active_param: usize,
}

/// Characters an identifier may contain.
pub open spec fn spec_ident_char(c: char) -> bool {
    ('a' <= c && c <= 'z') || ('A' <= c && c <= 'Z') || ('0' <= c && c <= '9') || c == '_' || c
        == '$'
}

fn ident_char(c: char) -> (r: bool)
    ensures
        r == spec_ident_char(c),
{
    ('a' <= c && c <= 'z') || ('A' <= c && c <= 'Z') || ('0' <= c && c <= '9') || c == '_' || c
        == '$'
}

/// Where the identifier ending at `e` starts: scan left over identifier
/// characters.
pub open spec fn spec_name_start(src: Seq<char>, e: int) -> int
    decreases e when 0 <= e <= src.len()
{
    if e <= 0 {
        0
    } else if spec_ident_char(src[e - 1]) {
        spec_name_start(src, e - 1)
    } else {
        e
    }
}

/// What the backward scan from position `i` yields, given the open
/// parenthesis depth, commas seen at depth zero, and string state.
pub open spec fn spec_call_scan(
    src: Seq<char>,
    i: int,
    depth: int,
    commas: int,
    in_string: bool,
) -> Option<(Seq<char>, int)>
    decreases i when 0 <= i <= src.len()
{
    if i <= 0 {
        None
    } else {
        let j = i - 1;
        let c = src[j];
        if in_string {
            if c == '"' {
                if j > 0 && src[j - 1] == '"' {
                    spec_call_scan(src, j - 1, depth, commas, true)
                } else {
                    spec_call_scan(src, j, depth, commas, false)
                }
            } else {
                spec_call_scan(src, j, depth, commas, true)
            }
        } else if c == '"' {
            spec_call_scan(src, j, depth, commas, true)
        } else if c == ')' {
            spec_call_scan(src, j, depth + 1, commas, false)
        } else if c == '(' {
            if depth > 0 {
                spec_call_scan(src, j, depth - 1, commas, false)
            } else {
                let a = spec_name_start(src, j);
                if a == j {
                    None
                } else {
                    Some((src.subrange(a, j), commas))
                }
            }
        } else if c == ',' && depth == 0 {
            spec_call_scan(src, j, depth, commas + 1, false)
        } else {
            spec_call_scan(src, j, depth, commas, false)
        }
    }
}

/// Character offset of the start of `row`, counting each earlier line as
/// its length plus one newline.
pub open spec fn spec_row_offset(lines: Seq<Seq<char>>, row: int) -> int
    decreases row when row >= 0
{
    if row <= 0 || lines.len() == 0 {
        0
    } else {
        lines[0].len() + 1 + spec_row_offset(lines.drop_first(), row - 1)
    }
}

/// What the fallback yields for a cursor at `(row, col)`: `None` when the
/// computed offset lies outside the text, else the backward scan from it.
pub open spec fn spec_call_context(src: Seq<char>, row: int, col: int) -> Option<(Seq<char>, int)> {
    let off = spec_row_offset(spec_lines(src), row) + col;
    if off > src.len() {
        None
    } else {
        spec_call_scan(src, off, 0, 0, false)
    }
}

/// The combined length of the first `k` lines.
pub open spec fn sum_lens(lines: Seq<Seq<char>>, k: int) -> int
    decreases k when 0 <= k <= lines.len()
{
    if k <= 0 {
        0
    } else {
        lines[0].len() + sum_lens(lines.drop_first(), k - 1)
    }
}

pub proof fn lemma_sum_lens_snoc(lines: Seq<Seq<char>>, k: int)
    requires
        0 <= k < lines.len(),
    ensures
        sum_lens(lines, k + 1) == sum_lens(lines, k) + lines[k].len(),
    decreases k,
{
    if k > 0 {
        lemma_sum_lens_snoc(lines.drop_first(), k - 1);
        assert(lines.drop_first()[k - 1] == lines[k]);
        assert(sum_lens(lines, k + 1) == lines[0].len() + sum_lens(lines.drop_first(), k));
        assert(sum_lens(lines, k) == lines[0].len() + sum_lens(lines.drop_first(), k - 1));
    } else {
        assert(sum_lens(lines, 1) == lines[0].len() + sum_lens(lines.drop_first(), 0));
        assert(sum_lens(lines.drop_first(), 0) == 0);
        assert(sum_lens(lines, 0) == 0);
    }
}

/// Splitting conserves length: the parts plus one separator per cut give
/// back the original, so parts-plus-count is the length plus one.
pub proof fn lemma_split_sum_pub(s: Seq<char>, sep: char)
    ensures
        ({
            let parts = crate::text::spec_split(s, sep);
            sum_lens(parts, parts.len() as int) + parts.len() == s.len() + 1
        }),
{
    lemma_split_sum(s, sep);
}

proof fn lemma_split_sum(s: Seq<char>, sep: char)
    ensures
        ({
            let parts = crate::text::spec_split(s, sep);
            sum_lens(parts, parts.len() as int) + parts.len() == s.len() + 1
        }),
    decreases s.len(),
{
    crate::text::lemma_find(s, sep);
    let f = crate::text::spec_find(s, sep);
    let parts = crate::text::spec_split(s, sep);
    if f == -1 {
        assert(parts =~= seq![s]);
        assert(parts.drop_first() =~= Seq::<Seq<char>>::empty());
        assert(parts.len() == 1);
        assert(parts[0] == s);
        assert(sum_lens(parts, 1) == parts[0].len() + sum_lens(parts.drop_first(), 0));
        assert(sum_lens(parts.drop_first(), 0) == 0);
    } else {
        let rest = s.subrange(f + 1, s.len() as int);
        lemma_split_sum(rest, sep);
        let rparts = crate::text::spec_split(rest, sep);
        assert(parts =~= seq![s.subrange(0, f)] + rparts);
        assert(parts.drop_first() =~= rparts);
        assert(parts[0] == s.subrange(0, f));
        assert(parts.len() == 1 + rparts.len());
        assert(sum_lens(parts, parts.len() as int) == parts[0].len() + sum_lens(
            rparts,
            rparts.len() as int,
        ));
        assert(parts[0].len() == f);
        assert(rest.len() == s.len() - f - 1);
        assert(sum_lens(rparts, rparts.len() as int) + rparts.len() == rest.len() + 1);
        assert(sum_lens(parts, parts.len() as int) + parts.len() == s.len() + 1);
    }
}

/// Prefix sums of line lengths plus their count never exceed the total.
pub proof fn lemma_sum_lens_mono(lines: Seq<Seq<char>>, k: int, m: int)
    requires
        0 <= k <= m <= lines.len(),
    ensures
        sum_lens(lines, k) + k <= sum_lens(lines, m) + m,
        0 <= sum_lens(lines, k),
    decreases m,
{
    if k > 0 {
        lemma_sum_lens_mono(lines.drop_first(), k - 1, m - 1);
    } else if m > 0 {
        lemma_sum_lens_mono(lines.drop_first(), 0, m - 1);
    }
}

/// Splitting into at most `n` parts conserves length the same way.
pub proof fn lemma_splitn_sum(s: Seq<char>, n: int, sep: char)
    requires
        n >= 1,
    ensures
        ({
            let parts = crate::text::spec_splitn(s, n, sep);
            sum_lens(parts, parts.len() as int) + parts.len() == s.len() + 1
        }),
    decreases s.len(), n,
{
    crate::text::lemma_find(s, sep);
    let f = crate::text::spec_find(s, sep);
    let parts = crate::text::spec_splitn(s, n, sep);
    if n <= 1 || f == -1 {
        assert(parts =~= seq![s]);
        assert(parts.drop_first() =~= Seq::<Seq<char>>::empty());
        assert(parts[0] == s);
        assert(sum_lens(parts, 1) == s.len() + sum_lens(parts.drop_first(), 0));
    } else {
        let rest = s.subrange(f + 1, s.len() as int);
        lemma_splitn_sum(rest, n - 1, sep);
        let rparts = crate::text::spec_splitn(rest, n - 1, sep);
        assert(parts =~= seq![s.subrange(0, f)] + rparts);
        assert(parts.drop_first() =~= rparts);
        assert(parts[0] == s.subrange(0, f));
        assert(parts.len() == 1 + rparts.len());
        assert(sum_lens(parts, parts.len() as int) == parts[0].len() + sum_lens(
            rparts,
            rparts.len() as int,
        ));
    }
}

/// Each reported line is at most its split part.
proof fn lemma_lines_le_parts(parts: Seq<Seq<char>>, lines: Seq<Seq<char>>, k: int)
    requires
        lines.len() <= parts.len(),
        forall|i: int| 0 <= i < lines.len() ==> (#[trigger] lines[i]).len() <= parts[i].len(),
        0 <= k <= lines.len(),
    ensures
        sum_lens(lines, k) <= sum_lens(parts, k),
    decreases k,
{
    if k > 0 {
        lemma_lines_le_parts(parts.drop_first(), lines.drop_first(), k - 1);
    }
}

/// The first `k` lines of a text, counted with one newline each, fit in
/// the text plus one.
pub proof fn lemma_sum_lens_bound(src: Seq<char>, lines: Seq<Seq<char>>, k: int)
    requires
        lines == spec_lines(src),
        0 <= k <= lines.len(),
    ensures
        sum_lens(lines, k) + k <= src.len() + 1,
{
    if src.len() == 0 {
        assert(lines.len() == 0);
    } else {
        let parts = crate::text::spec_split(src, '\n');
        lemma_split_sum(src, '\n');
        let kept = if src.last() == '\n' {
            parts.drop_last()
        } else {
            parts
        };
        assert(lines =~= kept.map_values(|p: Seq<char>| crate::text::spec_trim_cr(p)));
        assert forall|i: int| 0 <= i < lines.len() implies (#[trigger] lines[i]).len()
            <= parts[i].len() by {
            assert(lines[i] == crate::text::spec_trim_cr(kept[i]));
            assert(kept[i] == parts[i]);
        }
        lemma_lines_le_parts(parts, lines, k);
        lemma_sum_lens_mono(parts, k, parts.len() as int);
    }
}

/// Recover `(function name, active parameter)` by scanning backward from
/// the cursor, honouring BR's doubled-quote string escaping and skipping
/// balanced parentheses.
pub fn find_function_call_context(source: &str, row: usize, col: usize) -> (r: Option<CallContext>)
    requires
        source@.len() < usize::MAX,
    ensures
        match r {
            Some(ctx) => spec_call_context(source@, row as int, col as int) matches Some(p)
                && p.0 == ctx.name@ && p.1 == ctx.active_param as int,
            None => spec_call_context(source@, row as int, col as int) is None,
        },
{
    let n = source.unicode_len();
    let lines = split_lines(source);
    let ghost slines = spec_lines(source@);
    let mut off: usize = 0;
    let mut k: usize = 0;
    let rows = if row < lines.len() {
        row
    } else {
        lines.len()
    };
    proof {
        lemma_sum_lens_bound(source@, slines, 0);
        assert(slines.skip(0) =~= slines);
    }
    while k < rows
        invariant
            n == source@.len(),
            n < usize::MAX,
            slines == spec_lines(source@),
            crate::text::strs_view(lines@) == slines,
            rows <= lines@.len(),
            lines@.len() == slines.len(),
            rows <= row,
            k <= rows,
            off + spec_row_offset(slines.skip(k as int), row - k) == spec_row_offset(
                slines,
                row as int,
            ),
            off == sum_lens(slines, k as int) + k,
            off <= n + 1,
        decreases rows - k,
    {
        let ll = lines[k].as_str().unicode_len();
        proof {
            assert(slines.skip(k as int)[0] == slines[k as int]);
            assert(slines[k as int] == lines@[k as int]@);
            assert(slines.skip(k as int).drop_first() =~= slines.skip(k + 1));
            assert(slines.skip(k as int).len() > 0);
            assert(spec_row_offset(slines.skip(k as int), row - k) == slines[k as int].len() + 1
                + spec_row_offset(slines.skip(k + 1), row - k - 1));
            lemma_sum_lens_snoc(slines, k as int);
            lemma_sum_lens_bound(source@, slines, k + 1);
        }
        off = off + ll + 1;
        k += 1;
    }
    proof {
        if rows < row {
            assert(slines.skip(rows as int).len() == 0);
        }
        assert(spec_row_offset(slines.skip(rows as int), row - rows) == 0);
        assert(off == spec_row_offset(slines, row as int));
    }
    if col > n {
        proof {
            assert(off + col > source@.len());
        }
        return None;
    }
    if off > n - col {
        proof {
            assert(off + col > source@.len());
        }
        return None;
    }
    let offset = off + col;
    // Backward scan
    let mut i: usize = offset;
    let mut depth: usize = 0;
    let mut commas: usize = 0;
    let mut in_string = false;
    while i > 0
        invariant
            n == source@.len(),
            i <= offset <= n,
            commas + i <= offset,
            depth + i <= offset,
            spec_call_scan(source@, i as int, depth as int, commas as int, in_string)
                == spec_call_scan(source@, offset as int, 0, 0, false),
            spec_call_context(source@, row as int, col as int) == spec_call_scan(
                source@,
                offset as int,
                0,
                0,
                false,
            ),
        decreases i,
    {
        let c = source.get_char(i - 1);
        if in_string {
            if c == '"' {
                if i >= 2 && source.get_char(i - 2) == '"' {
                    i -= 2;
                } else {
                    i -= 1;
                    in_string = false;
                }
            } else {
                i -= 1;
            }
        } else if c == '"' {
            i -= 1;
            in_string = true;
        } else if c == ')' {
            i -= 1;
            depth += 1;
        } else if c == '(' {
            if depth > 0 {
                i -= 1;
                depth -= 1;
            } else {
                // Unmatched opening parenthesis: take the identifier before it.
                let e = i - 1;
                let mut a: usize = e;
                while a > 0 && ident_char(source.get_char(a - 1))
                    invariant
                        n == source@.len(),
                        a <= e < n,
                        spec_name_start(source@, a as int) == spec_name_start(source@, e as int),
                    decreases a,
                {
                    a -= 1;
                }
                proof {
                    assert(spec_name_start(source@, e as int) == a as int);
                    assert(spec_call_scan(
                        source@,
                        i as int,
                        depth as int,
                        commas as int,
                        false,
                    ) == (if a == e {
                        None
                    } else {
                        Some((source@.subrange(a as int, e as int), commas as int))
                    }));
                }
                if a == e {
                    return None;
                }
                let name = crate::text::substring_owned(source, a, e);
                return Some(CallContext { name, active_param: commas });
            }
        } else if c == ',' && depth == 0 {
            i -= 1;
            commas += 1;
        } else {
            i -= 1;
        }
    }
    None
}

} // verus!
