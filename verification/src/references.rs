//! Finding every occurrence of the symbol under the cursor.
//!
//! Functions, labels, line numbers and identifiers each have their own
//! match rule; identifier references are additionally filtered by scope:
//! a parameter's references stay inside its function, and a module-level
//! name never picks up the parameters that shadow it.

use vstd::prelude::*;
use vstd::string::*;

use crate::text::{eq_ignore_case, lower_seq, spec_parse_u32, spec_trim, trim, parse_u32};
use crate::tree::{spec_node_range, spec_node_text, NodeData, SyntaxTree};
use crate::types::{Position, Range};

verus! {

/// Token kinds references can start from.
pub open spec fn spec_supported_ref_kind(kind: Seq<char>) -> bool {
    ||| kind == "function_name"@
    ||| kind == "label"@
    ||| kind == "label_reference"@
    ||| kind == "line_number"@
    ||| kind == "line_reference"@
    ||| kind == "stringidentifier"@
    ||| kind == "numberidentifier"@
}

pub fn supported_ref_kind(tree: &SyntaxTree, i: usize) -> (r: bool)
    requires
        tree.wf(),
        0 <= i < tree.spec_len(),
    ensures
        r == spec_supported_ref_kind(tree.spec_nodes()[i as int].kind@),
{
    tree.kind_is(i, "function_name") || tree.kind_is(i, "label") || tree.kind_is(
        i,
        "label_reference",
    ) || tree.kind_is(i, "line_number") || tree.kind_is(i, "line_reference") || tree.kind_is(
        i,
        "stringidentifier",
    ) || tree.kind_is(i, "numberidentifier")
}

/// The token a reference request starts from: the node at the position;
/// when that node is not a supported token and the column is positive,
/// the node one column to the left takes its place if that one is
/// supported.
pub open spec fn spec_resolve_ref(tree: SyntaxTree, line: int, character: int) -> Option<int> {
    match crate::tree::spec_node_at(tree, line, character) {
        None => None,
        Some(n) => {
            if spec_supported_ref_kind(tree.spec_nodes()[n].kind@) {
                Some(n)
            } else if character > 0 {
                match crate::tree::spec_node_at(tree, line, character - 1) {
                    Some(m) => {
                        if spec_supported_ref_kind(tree.spec_nodes()[m].kind@) {
                            Some(m)
                        } else {
                            Some(n)
                        }
                    },
                    None => Some(n),
                }
            } else {
                Some(n)
            }
        },
    }
}

pub fn resolve_ref_node(tree: &SyntaxTree, line: usize, character: usize) -> (r: Option<usize>)
    requires
        tree.wf(),
    ensures
        match r {
            Some(i) => spec_resolve_ref(*tree, line as int, character as int) == Some(i as int)
                && 0 <= i < tree.spec_len() && tree.spec_nodes()[i as int].named,
            None => spec_resolve_ref(*tree, line as int, character as int) is None,
        },
{
    let node = match crate::tree::node_at_position(tree, line, character) {
        Some(n) => n,
        None => {
            return None;
        },
    };
    if !supported_ref_kind(tree, node) && character > 0 {
        match crate::tree::node_at_position(tree, line, character - 1) {
            Some(n) => {
                if supported_ref_kind(tree, n) {
                    return Some(n);
                }
            },
            None => {},
        }
    }
    Some(node)
}

// ---------------------------------------------------------------------------
// Function references
// ---------------------------------------------------------------------------

/// Ranges of every `function_name` node whose text equals `name`
/// case-insensitively, in arena order from node `i` on.
pub open spec fn spec_function_refs(tree: SyntaxTree, src: Seq<char>, name: Seq<char>, i: int) -> Seq<Range>
    decreases tree.spec_len() - i when tree.wf() && 0 <= i <= tree.spec_len()
{
    if i >= tree.spec_len() {
        Seq::<Range>::empty()
    } else {
        let n = tree.spec_nodes()[i];
        let rest = spec_function_refs(tree, src, name, i + 1);
        if n.kind@ == "function_name"@ && lower_seq(spec_node_text(n, src)) == lower_seq(name) {
            seq![spec_node_range(n)] + rest
        } else {
            rest
        }
    }
}

/// Every reference to the function `name`, across the whole document.
pub fn find_function_refs_by_name(name: &str, tree: &SyntaxTree, source: &str) -> (r: Vec<Range>)
    requires
        tree.wf(),
    ensures
        r@ == spec_function_refs(*tree, source@, name@, 0),
{
    let n = tree.len();
    let mut out: Vec<Range> = Vec::new();
    let mut i: usize = 0;
    proof {
        assert(out@ + spec_function_refs(*tree, source@, name@, 0) =~= spec_function_refs(
            *tree,
            source@,
            name@,
            0,
        ));
    }
    while i < n
        invariant
            tree.wf(),
            n == tree.spec_len(),
            i <= n,
            out@ + spec_function_refs(*tree, source@, name@, i as int) == spec_function_refs(
                *tree,
                source@,
                name@,
                0,
            ),
        decreases n - i,
    {
        let ghost rest = spec_function_refs(*tree, source@, name@, i as int);
        if tree.kind_is(i, "function_name") {
            let t = crate::tree::node_text(tree, i, source);
            if eq_ignore_case(t.as_str(), name) {
                let ghost pre = out@;
                out.push(crate::tree::node_range(tree.node(i)));
                proof {
                    assert(out@ =~= pre.push(spec_node_range(tree.spec_nodes()[i as int])));
                    assert(pre.push(spec_node_range(tree.spec_nodes()[i as int]))
                        + spec_function_refs(*tree, source@, name@, i + 1) =~= pre + rest);
                }
            }
        }
        i += 1;
    }
    proof {
        assert(out@ + Seq::<Range>::empty() =~= out@);
    }
    out
}

// ---------------------------------------------------------------------------
// Label references
// ---------------------------------------------------------------------------

/// A label range without its trailing colon.
pub open spec fn spec_shrink_label(r: Range) -> Range {
    Range {
        start: r.start,
        end: Position {
            line: r.end.line,
            character: if r.end.character == 0 {
                0
            } else {
                (r.end.character - 1) as u32
            },
        },
    }
}

pub fn shrink_label(r: Range) -> (s: Range)
    ensures
        s == spec_shrink_label(r),
{
    Range {
        start: r.start,
        end: Position {
            line: r.end.line,
            character: if r.end.character == 0 {
                0
            } else {
                r.end.character - 1
            },
        },
    }
}

/// Ranges of every label definition (shrunk past the colon) and label
/// reference matching `name`, in arena order from `i` on.
pub open spec fn spec_label_refs(tree: SyntaxTree, src: Seq<char>, name: Seq<char>, i: int) -> Seq<Range>
    decreases tree.spec_len() - i when tree.wf() && 0 <= i <= tree.spec_len()
{
    if i >= tree.spec_len() {
        Seq::<Range>::empty()
    } else {
        let n = tree.spec_nodes()[i];
        let rest = spec_label_refs(tree, src, name, i + 1);
        if n.kind@ == "label"@ && lower_seq(spec_node_text(n, src)) == lower_seq(name + ":"@) {
            seq![spec_shrink_label(spec_node_range(n))] + rest
        } else if n.kind@ == "label_reference"@ && lower_seq(spec_node_text(n, src)) == lower_seq(
            name,
        ) {
            seq![spec_node_range(n)] + rest
        } else {
            rest
        }
    }
}

/// Every reference to the label `name` (given without its colon).
pub fn find_label_refs_by_name(name: &str, tree: &SyntaxTree, source: &str) -> (r: Vec<Range>)
    requires
        tree.wf(),
    ensures
        r@ == spec_label_refs(*tree, source@, name@, 0),
{
    let mut with_colon = String::new();
    with_colon.append(name);
    with_colon.append(":");
    proof {
        assert(with_colon@ =~= name@ + ":"@);
    }
    let n = tree.len();
    let mut out: Vec<Range> = Vec::new();
    let mut i: usize = 0;
    proof {
        assert(out@ + spec_label_refs(*tree, source@, name@, 0) =~= spec_label_refs(
            *tree,
            source@,
            name@,
            0,
        ));
    }
    while i < n
        invariant
            tree.wf(),
            n == tree.spec_len(),
            with_colon@ == name@ + ":"@,
            i <= n,
            out@ + spec_label_refs(*tree, source@, name@, i as int) == spec_label_refs(
                *tree,
                source@,
                name@,
                0,
            ),
        decreases n - i,
    {
        let ghost rest = spec_label_refs(*tree, source@, name@, i as int);
        let ghost pre = out@;
        if tree.kind_is(i, "label") {
            let t = crate::tree::node_text(tree, i, source);
            if eq_ignore_case(t.as_str(), with_colon.as_str()) {
                out.push(shrink_label(crate::tree::node_range(tree.node(i))));
                proof {
                    assert(out@ =~= pre.push(
                        spec_shrink_label(spec_node_range(tree.spec_nodes()[i as int])),
                    ));
                    assert(out@ + spec_label_refs(*tree, source@, name@, i + 1) =~= pre + rest);
                }
            }
        } else if tree.kind_is(i, "label_reference") {
            let t = crate::tree::node_text(tree, i, source);
            if eq_ignore_case(t.as_str(), name) {
                out.push(crate::tree::node_range(tree.node(i)));
                proof {
                    assert(out@ =~= pre.push(spec_node_range(tree.spec_nodes()[i as int])));
                    assert(out@ + spec_label_refs(*tree, source@, name@, i + 1) =~= pre + rest);
                }
            }
        }
        proof {
            reveal_strlit("label");
            reveal_strlit("label_reference");
            assert("label"@.len() == 5);
            assert("label_reference"@.len() == 15);
        }
        i += 1;
    }
    proof {
        assert(out@ + Seq::<Range>::empty() =~= out@);
    }
    out
}

// ---------------------------------------------------------------------------
// Line-number references
// ---------------------------------------------------------------------------

/// Ranges of every `line_number` or `line_reference` node whose trimmed
/// text reads as the number `target`, in arena order from `i` on.
pub open spec fn spec_line_refs(tree: SyntaxTree, src: Seq<char>, target: u32, i: int) -> Seq<Range>
    decreases tree.spec_len() - i when tree.wf() && 0 <= i <= tree.spec_len()
{
    if i >= tree.spec_len() {
        Seq::<Range>::empty()
    } else {
        let n = tree.spec_nodes()[i];
        let rest = spec_line_refs(tree, src, target, i + 1);
        if (n.kind@ == "line_number"@ || n.kind@ == "line_reference"@) && spec_parse_u32(
            spec_trim(spec_node_text(n, src)),
        ) == Some(target) {
            seq![spec_node_range(n)] + rest
        } else {
            rest
        }
    }
}

/// Every reference to the line numbered `target`.
pub fn find_line_refs_by_number(target: u32, tree: &SyntaxTree, source: &str) -> (r: Vec<Range>)
    requires
        tree.wf(),
    ensures
        r@ == spec_line_refs(*tree, source@, target, 0),
{
    let n = tree.len();
    let mut out: Vec<Range> = Vec::new();
    let mut i: usize = 0;
    proof {
        assert(out@ + spec_line_refs(*tree, source@, target, 0) =~= spec_line_refs(
            *tree,
            source@,
            target,
            0,
        ));
    }
    while i < n
        invariant
            tree.wf(),
            n == tree.spec_len(),
            i <= n,
            out@ + spec_line_refs(*tree, source@, target, i as int) == spec_line_refs(
                *tree,
                source@,
                target,
                0,
            ),
        decreases n - i,
    {
        let ghost rest = spec_line_refs(*tree, source@, target, i as int);
        if tree.kind_is(i, "line_number") || tree.kind_is(i, "line_reference") {
            let t = crate::tree::node_text(tree, i, source);
            let trimmed = trim(t.as_str());
            let matches_target = match parse_u32(trimmed) {
                Some(v) => v == target,
                None => false,
            };
            if matches_target {
                let ghost pre = out@;
                out.push(crate::tree::node_range(tree.node(i)));
                proof {
                    assert(out@ =~= pre.push(spec_node_range(tree.spec_nodes()[i as int])));
                    assert(out@ + spec_line_refs(*tree, source@, target, i + 1) =~= pre + rest);
                }
            }
        }
        i += 1;
    }
    proof {
        assert(out@ + Seq::<Range>::empty() =~= out@);
    }
    out
}

// ---------------------------------------------------------------------------
// Identifier references and scope
// ---------------------------------------------------------------------------

/// An identifier occurrence matching the cursor's: a node that fills the
/// `name` field of a parent of the same kind as the cursor's parent, and
/// reads the same case-insensitively.
pub open spec fn spec_ident_occurrence(
    tree: SyntaxTree,
    src: Seq<char>,
    parent_kind: Seq<char>,
    name: Seq<char>,
    j: int,
) -> bool {
    let n = tree.spec_nodes()[j];
    &&& n.field@ == "name"@
    &&& (n.parent matches Some(p) && tree.spec_nodes()[p as int].kind@ == parent_kind)
    &&& lower_seq(spec_node_text(n, src)) == lower_seq(name)
}

/// The identifier occurrences, as `(node, range)` pairs in arena order
/// from `i` on.
pub open spec fn spec_ident_occurrences(
    tree: SyntaxTree,
    src: Seq<char>,
    parent_kind: Seq<char>,
    name: Seq<char>,
    i: int,
) -> Seq<int>
    decreases tree.spec_len() - i when tree.wf() && 0 <= i <= tree.spec_len()
{
    if i >= tree.spec_len() {
        Seq::<int>::empty()
    } else {
        let rest = spec_ident_occurrences(tree, src, parent_kind, name, i + 1);
        if spec_ident_occurrence(tree, src, parent_kind, name, i) {
            seq![i] + rest
        } else {
            rest
        }
    }
}

fn ident_occurrences(
    tree: &SyntaxTree,
    source: &str,
    parent_kind: &str,
    name: &str,
) -> (r: Vec<usize>)
    requires
        tree.wf(),
    ensures
        r@.map_values(|x: usize| x as int) == spec_ident_occurrences(
            *tree,
            source@,
            parent_kind@,
            name@,
            0,
        ),
        forall|q: int| 0 <= q < r@.len() ==> 0 <= #[trigger] r@[q] < tree.spec_len(),
{
    let n = tree.len();
    let mut out: Vec<usize> = Vec::new();
    let mut i: usize = 0;
    proof {
        assert(out@.map_values(|x: usize| x as int) + spec_ident_occurrences(
            *tree,
            source@,
            parent_kind@,
            name@,
            0,
        ) =~= spec_ident_occurrences(*tree, source@, parent_kind@, name@, 0));
    }
    while i < n
        invariant
            tree.wf(),
            n == tree.spec_len(),
            i <= n,
            out@.map_values(|x: usize| x as int) + spec_ident_occurrences(
                *tree,
                source@,
                parent_kind@,
                name@,
                i as int,
            ) == spec_ident_occurrences(*tree, source@, parent_kind@, name@, 0),
            forall|q: int| 0 <= q < out@.len() ==> 0 <= #[trigger] out@[q] < tree.spec_len(),
        decreases n - i,
    {
        let ghost rest = spec_ident_occurrences(*tree, source@, parent_kind@, name@, i as int);
        let is_named_field = crate::text::str_eq(tree.node(i).field.as_str(), "name");
        let mut is_occ = false;
        if is_named_field {
            match tree.node(i).parent {
                Some(p) => {
                    if tree.kind_is(p, parent_kind) {
                        let t = crate::tree::node_text(tree, i, source);
                        if eq_ignore_case(t.as_str(), name) {
                            is_occ = true;
                        }
                    }
                },
                None => {},
            }
        }
        proof {
            assert(is_occ == spec_ident_occurrence(*tree, source@, parent_kind@, name@, i as int));
        }
        if is_occ {
            let ghost pre = out@;
            out.push(i);
            proof {
                assert(out@.map_values(|x: usize| x as int) =~= pre.map_values(
                    |x: usize| x as int,
                ).push(i as int));
                assert(out@.map_values(|x: usize| x as int) + spec_ident_occurrences(
                    *tree,
                    source@,
                    parent_kind@,
                    name@,
                    i + 1,
                ) =~= pre.map_values(|x: usize| x as int) + rest);
            }
        }
        i += 1;
    }
    proof {
        assert(out@.map_values(|x: usize| x as int) + Seq::<int>::empty() =~= out@.map_values(
            |x: usize| x as int,
        ));
    }
    out
}

/// One function's span: from its `def` statement to the terminator that
/// closes it.
#[derive(Clone, Copy, PartialEq, Eq, Structural, Debug)]
pub struct FunctionRange {
    pub def_start_byte: usize,
    pub body_end_byte: usize,
}

/// The `(def, fnend)` pairing over the document in arena order: each
/// `fnend` closes the latest unclosed `def` before it.
pub open spec fn spec_function_ranges(
    tree: SyntaxTree,
    i: int,
    pending: Option<int>,
) -> Seq<FunctionRange>
    decreases tree.spec_len() - i when tree.wf() && 0 <= i <= tree.spec_len()
{
    if i >= tree.spec_len() {
        Seq::<FunctionRange>::empty()
    } else {
        let n = tree.spec_nodes()[i];
        if n.kind@ == "def_statement"@ {
            spec_function_ranges(tree, i + 1, Some(n.start_byte as int))
        } else if n.kind@ == "fnend_statement"@ {
            match pending {
                Some(d) => seq![
                    FunctionRange {
                        def_start_byte: d as usize,
                        body_end_byte: n.start_byte,
                    },
                ] + spec_function_ranges(tree, i + 1, None),
                None => spec_function_ranges(tree, i + 1, None),
            }
        } else {
            spec_function_ranges(tree, i + 1, pending)
        }
    }
}

/// The function spans of the document.
pub fn get_function_ranges(tree: &SyntaxTree) -> (r: Vec<FunctionRange>)
    requires
        tree.wf(),
    ensures
        r@ == spec_function_ranges(*tree, 0, None),
{
    let n = tree.len();
    let mut out: Vec<FunctionRange> = Vec::new();
    let mut pending: Option<usize> = None;
    let mut i: usize = 0;
    proof {
        assert(out@ + spec_function_ranges(*tree, 0, None) =~= spec_function_ranges(
            *tree,
            0,
            None,
        ));
    }
    while i < n
        invariant
            tree.wf(),
            n == tree.spec_len(),
            i <= n,
            out@ + spec_function_ranges(
                *tree,
                i as int,
                match pending {
                    Some(d) => Some(d as int),
                    None => None,
                },
            ) == spec_function_ranges(*tree, 0, None),
        decreases n - i,
    {
        let ghost rest = spec_function_ranges(
            *tree,
            i as int,
            match pending {
                Some(d) => Some(d as int),
                None => None,
            },
        );
        if tree.kind_is(i, "def_statement") {
            pending = Some(tree.node(i).start_byte);
        } else if tree.kind_is(i, "fnend_statement") {
            match pending {
                Some(d) => {
                    let ghost pre = out@;
                    out.push(
                        FunctionRange { def_start_byte: d, body_end_byte: tree.node(i).start_byte },
                    );
                    proof {
                        assert(out@ =~= pre.push(out@.last()));
                        assert(out@ + spec_function_ranges(*tree, i + 1, None) =~= pre + rest);
                    }
                    pending = None;
                },
                None => {},
            }
        }
        i += 1;
    }
    proof {
        assert(out@ + Seq::<FunctionRange>::empty() =~= out@);
    }
    out
}

/// The first listed function span containing the byte, if any.
pub open spec fn spec_in_function(byte: int, ranges: Seq<FunctionRange>) -> Option<int>
    decreases ranges.len(),
{
    if ranges.len() == 0 {
        None
    } else if ranges[0].def_start_byte <= byte <= ranges[0].body_end_byte {
        Some(0)
    } else {
        match spec_in_function(byte, ranges.drop_first()) {
            Some(k) => Some(k + 1),
            None => None,
        }
    }
}

/// Which function span holds this byte offset?
pub fn in_function(byte_offset: usize, ranges: &Vec<FunctionRange>) -> (r: Option<usize>)
    ensures
        match r {
            Some(k) => spec_in_function(byte_offset as int, ranges@) == Some(k as int) && k
                < ranges@.len(),
            None => spec_in_function(byte_offset as int, ranges@) is None,
        },
{
    let n = ranges.len();
    let mut i: usize = 0;
    proof {
        assert(ranges@.skip(0) =~= ranges@);
    }
    while i < n
        invariant
            n == ranges@.len(),
            i <= n,
            match spec_in_function(byte_offset as int, ranges@.skip(i as int)) {
                Some(k) => spec_in_function(byte_offset as int, ranges@) == Some(k + i),
                None => spec_in_function(byte_offset as int, ranges@) is None,
            },
        decreases n - i,
    {
        proof {
            assert(ranges@.skip(i as int)[0] == ranges@[i as int]);
            assert(ranges@.skip(i as int).drop_first() =~= ranges@.skip(i + 1));
        }
        let fr = &ranges[i];
        if fr.def_start_byte <= byte_offset && byte_offset <= fr.body_end_byte {
            return Some(i);
        }
        i += 1;
    }
    None
}

/// Does the subtree below `p` hold an identifier occurrence matching the
/// cursor's parent kind and name?
pub open spec fn spec_subtree_has_ident(
    tree: SyntaxTree,
    src: Seq<char>,
    parent_kind: Seq<char>,
    name: Seq<char>,
    p: int,
) -> bool
    decreases tree.spec_len() - p, tree.spec_nodes()[p].children@.len() + 1
        when tree.wf() && 0 <= p < tree.spec_len()
{
    let n = tree.spec_nodes()[p];
    ((n.kind@ == "stringidentifier"@ || n.kind@ == "numberidentifier"@) && (n.parent matches Some(
        q,
    ) && tree.spec_nodes()[q as int].kind@ == parent_kind) && lower_seq(spec_node_text(n, src))
        == lower_seq(name)) || spec_subtree_has_ident_children(
        tree,
        src,
        parent_kind,
        name,
        p,
        0,
    )
}

pub open spec fn spec_subtree_has_ident_children(
    tree: SyntaxTree,
    src: Seq<char>,
    parent_kind: Seq<char>,
    name: Seq<char>,
    p: int,
    k: int,
) -> bool
    decreases tree.spec_len() - p, tree.spec_nodes()[p].children@.len() - k
        when tree.wf() && 0 <= p < tree.spec_len() && 0 <= k
    via spec_subtree_has_ident_children_decreases
{
    let ch = tree.spec_nodes()[p].children@;
    if k >= ch.len() {
        false
    } else {
        spec_subtree_has_ident(tree, src, parent_kind, name, ch[k] as int)
            || spec_subtree_has_ident_children(tree, src, parent_kind, name, p, k + 1)
    }
}

#[via_fn]
proof fn spec_subtree_has_ident_children_decreases(
    tree: SyntaxTree,
    src: Seq<char>,
    parent_kind: Seq<char>,
    name: Seq<char>,
    p: int,
    k: int,
) {
    if tree.wf() && 0 <= p < tree.spec_len() && 0 <= k < tree.spec_nodes()[p].children@.len() {
        assert(crate::tree::wf_nodes(tree.spec_nodes()));
        assert(0 <= p < tree.spec_nodes().len());
        assert(p < tree.spec_nodes()[p].children@[k] < tree.spec_len());
    }
}

fn subtree_has_ident(
    tree: &SyntaxTree,
    source: &str,
    parent_kind: &str,
    name: &str,
    p: usize,
) -> (r: bool)
    requires
        tree.wf(),
        0 <= p < tree.spec_len(),
    ensures
        r == spec_subtree_has_ident(*tree, source@, parent_kind@, name@, p as int),
    decreases tree.spec_len() - p,
{
    let is_ident = tree.kind_is(p, "stringidentifier") || tree.kind_is(p, "numberidentifier");
    if is_ident {
        let parent_matches = match tree.node(p).parent {
            Some(q) => tree.kind_is(q, parent_kind),
            None => false,
        };
        if parent_matches {
            let t = crate::tree::node_text(tree, p, source);
            if eq_ignore_case(t.as_str(), name) {
                return true;
            }
        }
    }
    let m = tree.node(p).children.len();
    let mut k: usize = 0;
    while k < m
        invariant
            tree.wf(),
            0 <= p < tree.spec_len(),
            m == tree.spec_nodes()[p as int].children@.len(),
            k <= m,
            !((tree.spec_nodes()[p as int].kind@ == "stringidentifier"@
                || tree.spec_nodes()[p as int].kind@ == "numberidentifier"@)
                && (tree.spec_nodes()[p as int].parent matches Some(q)
                && tree.spec_nodes()[q as int].kind@ == parent_kind@) && lower_seq(
                spec_node_text(tree.spec_nodes()[p as int], source@),
            ) == lower_seq(name@)),
            spec_subtree_has_ident_children(*tree, source@, parent_kind@, name@, p as int, k as int)
                == spec_subtree_has_ident(*tree, source@, parent_kind@, name@, p as int),
        decreases m - k,
    {
        let c = tree.node(p).children[k];
        if subtree_has_ident(tree, source, parent_kind, name, c) {
            return true;
        }
        k += 1;
    }
    false
}

/// Is the cursor's identifier a parameter of the function spanning
/// `[def_start, body_end]`: does some `parameter` node in that span hold
/// a matching identifier?
pub open spec fn spec_is_param_of(
    tree: SyntaxTree,
    src: Seq<char>,
    parent_kind: Seq<char>,
    name: Seq<char>,
    def_start: int,
    body_end: int,
    i: int,
) -> bool
    decreases tree.spec_len() - i when tree.wf() && 0 <= i <= tree.spec_len()
{
    if i >= tree.spec_len() {
        false
    } else {
        let n = tree.spec_nodes()[i];
        (n.kind@ == "parameter"@ && def_start <= n.start_byte <= body_end
            && spec_subtree_has_ident(tree, src, parent_kind, name, i)) || spec_is_param_of(
            tree,
            src,
            parent_kind,
            name,
            def_start,
            body_end,
            i + 1,
        )
    }
}

pub fn is_param_of_function(
    tree: &SyntaxTree,
    source: &str,
    parent_kind: &str,
    name: &str,
    def_start: usize,
    body_end: usize,
) -> (r: bool)
    requires
        tree.wf(),
    ensures
        r == spec_is_param_of(
            *tree,
            source@,
            parent_kind@,
            name@,
            def_start as int,
            body_end as int,
            0,
        ),
{
    let n = tree.len();
    let mut i: usize = 0;
    while i < n
        invariant
            tree.wf(),
            n == tree.spec_len(),
            i <= n,
            !spec_is_param_of(
                *tree,
                source@,
                parent_kind@,
                name@,
                def_start as int,
                body_end as int,
                0,
            ) || spec_is_param_of(
                *tree,
                source@,
                parent_kind@,
                name@,
                def_start as int,
                body_end as int,
                i as int,
            ),
            spec_is_param_of(
                *tree,
                source@,
                parent_kind@,
                name@,
                def_start as int,
                body_end as int,
                i as int,
            ) ==> spec_is_param_of(
                *tree,
                source@,
                parent_kind@,
                name@,
                def_start as int,
                body_end as int,
                0,
            ),
        decreases n - i,
    {
        if tree.kind_is(i, "parameter") {
            let sb = tree.node(i).start_byte;
            if def_start <= sb && sb <= body_end {
                if subtree_has_ident(tree, source, parent_kind, name, i) {
                    return true;
                }
            }
        }
        i += 1;
    }
    false
}

/// The ranges kept by the scope filter.  When the cursor identifier is a
/// parameter of the function at `cursor_fn`, only occurrences inside that
/// function's span stay; otherwise every occurrence that is itself a
/// parameter of the function containing it is dropped.
pub open spec fn spec_scope_filtered(
    tree: SyntaxTree,
    src: Seq<char>,
    parent_kind: Seq<char>,
    name: Seq<char>,
    ranges: Seq<FunctionRange>,
    cursor_param: Option<FunctionRange>,
    occs: Seq<int>,
) -> Seq<int>
    decreases occs.len(),
{
    if occs.len() == 0 {
        Seq::<int>::empty()
    } else {
        let j = occs[0];
        let rest = spec_scope_filtered(
            tree,
            src,
            parent_kind,
            name,
            ranges,
            cursor_param,
            occs.drop_first(),
        );
        let keep = match cursor_param {
            Some(fr) => 0 <= j < tree.spec_len() && fr.def_start_byte
                <= tree.spec_nodes()[j].start_byte <= fr.body_end_byte,
            None => !(0 <= j < tree.spec_len() && match spec_in_function(
                tree.spec_nodes()[j].start_byte as int,
                ranges,
            ) {
                Some(k) => spec_is_param_of(
                    tree,
                    src,
                    parent_kind,
                    name,
                    ranges[k].def_start_byte as int,
                    ranges[k].body_end_byte as int,
                    0,
                ),
                None => false,
            }),
        };
        if keep {
            seq![j] + rest
        } else {
            rest
        }
    }
}

/// Apply the scope rule to the identifier occurrences.
fn scope_filter(
    tree: &SyntaxTree,
    source: &str,
    parent_kind: &str,
    name: &str,
    ranges: &Vec<FunctionRange>,
    cursor_param: Option<FunctionRange>,
    occs: &Vec<usize>,
) -> (r: Vec<usize>)
    requires
        tree.wf(),
        forall|q: int| 0 <= q < occs@.len() ==> 0 <= #[trigger] occs@[q] < tree.spec_len(),
    ensures
        r@.map_values(|x: usize| x as int) == spec_scope_filtered(
            *tree,
            source@,
            parent_kind@,
            name@,
            ranges@,
            cursor_param,
            occs@.map_values(|x: usize| x as int),
        ),
        forall|q: int| 0 <= q < r@.len() ==> 0 <= #[trigger] r@[q] < tree.spec_len(),
{
    let ghost soccs = occs@.map_values(|x: usize| x as int);
    let n = occs.len();
    let mut out: Vec<usize> = Vec::new();
    let mut i: usize = 0;
    proof {
        assert(soccs.skip(0) =~= soccs);
        assert(out@.map_values(|x: usize| x as int) + spec_scope_filtered(
            *tree,
            source@,
            parent_kind@,
            name@,
            ranges@,
            cursor_param,
            soccs,
        ) =~= spec_scope_filtered(
            *tree,
            source@,
            parent_kind@,
            name@,
            ranges@,
            cursor_param,
            soccs,
        ));
    }
    while i < n
        invariant
            tree.wf(),
            n == occs@.len(),
            soccs == occs@.map_values(|x: usize| x as int),
            forall|q: int| 0 <= q < occs@.len() ==> 0 <= #[trigger] occs@[q] < tree.spec_len(),
            i <= n,
            out@.map_values(|x: usize| x as int) + spec_scope_filtered(
                *tree,
                source@,
                parent_kind@,
                name@,
                ranges@,
                cursor_param,
                soccs.skip(i as int),
            ) == spec_scope_filtered(
                *tree,
                source@,
                parent_kind@,
                name@,
                ranges@,
                cursor_param,
                soccs,
            ),
            forall|q: int| 0 <= q < out@.len() ==> 0 <= #[trigger] out@[q] < tree.spec_len(),
        decreases n - i,
    {
        let ghost rest = spec_scope_filtered(
            *tree,
            source@,
            parent_kind@,
            name@,
            ranges@,
            cursor_param,
            soccs.skip(i as int),
        );
        proof {
            assert(soccs.skip(i as int)[0] == soccs[i as int]);
            assert(soccs[i as int] == occs@[i as int] as int);
            assert(soccs.skip(i as int).drop_first() =~= soccs.skip(i + 1));
        }
        let j = occs[i];
        let keep = match cursor_param {
            Some(fr) => {
                let sb = tree.node(j).start_byte;
                fr.def_start_byte <= sb && sb <= fr.body_end_byte
            },
            None => {
                let sb = tree.node(j).start_byte;
                match in_function(sb, ranges) {
                    Some(k) => !is_param_of_function(
                        tree,
                        source,
                        parent_kind,
                        name,
                        ranges[k].def_start_byte,
                        ranges[k].body_end_byte,
                    ),
                    None => true,
                }
            },
        };
        if keep {
            let ghost pre = out@;
            out.push(j);
            proof {
                assert(out@.map_values(|x: usize| x as int) =~= pre.map_values(
                    |x: usize| x as int,
                ).push(j as int));
                assert(out@.map_values(|x: usize| x as int) + spec_scope_filtered(
                    *tree,
                    source@,
                    parent_kind@,
                    name@,
                    ranges@,
                    cursor_param,
                    soccs.skip(i + 1),
                ) =~= pre.map_values(|x: usize| x as int) + rest);
            }
        }
        i += 1;
    }
    proof {
        assert(soccs.skip(n as int).len() == 0);
        assert(out@.map_values(|x: usize| x as int) + Seq::<int>::empty() =~= out@.map_values(
            |x: usize| x as int,
        ));
    }
    out
}

/// `s` without its trailing run of the character `c`.
pub open spec fn spec_strip_trailing_char(s: Seq<char>, c: char) -> Seq<char>
    decreases s.len(),
{
    if s.len() > 0 && s.last() == c {
        spec_strip_trailing_char(s.drop_last(), c)
    } else {
        s
    }
}

pub fn strip_trailing_char<'a>(s: &'a str, c: char) -> (r: &'a str)
    ensures
        r@ == spec_strip_trailing_char(s@, c),
    decreases s@.len(),
{
    let n = s.unicode_len();
    if n > 0 && s.get_char(n - 1) == c {
        let rest = s.substring_char(0, n - 1);
        proof {
            assert(rest@ =~= s@.drop_last());
        }
        strip_trailing_char(rest, c)
    } else {
        s
    }
}

/// The node ranges of a list of occurrences.
pub open spec fn spec_occ_ranges(tree: SyntaxTree, occs: Seq<int>) -> Seq<Range> {
    occs.map_values(|j: int| spec_node_range(tree.spec_nodes()[j]))
}

/// The scope decision at the cursor: the function span whose parameter the
/// cursor identifier is, if it is one.
pub open spec fn spec_cursor_param(
    tree: SyntaxTree,
    src: Seq<char>,
    parent_kind: Seq<char>,
    name: Seq<char>,
    ranges: Seq<FunctionRange>,
    cursor_byte: int,
) -> Option<FunctionRange> {
    match spec_in_function(cursor_byte, ranges) {
        Some(k) => {
            if spec_is_param_of(
                tree,
                src,
                parent_kind,
                name,
                ranges[k].def_start_byte as int,
                ranges[k].body_end_byte as int,
                0,
            ) {
                Some(ranges[k])
            } else {
                None
            }
        },
        None => None,
    }
}

/// Every reference to the identifier at `node`, the scope rule applied.
pub fn find_variable_refs(tree: &SyntaxTree, source: &str, node: usize) -> (r: Vec<Range>)
    requires
        tree.wf(),
        0 <= node < tree.spec_len(),
    ensures
        ({
            match tree.spec_nodes()[node as int].parent {
                None => r@.len() == 0,
                Some(p) => {
                    let parent_kind = tree.spec_nodes()[p as int].kind@;
                    let name = spec_node_text(tree.spec_nodes()[node as int], source@);
                    let ranges = spec_function_ranges(*tree, 0, None);
                    let cursor_param = spec_cursor_param(
                        *tree,
                        source@,
                        parent_kind,
                        name,
                        ranges,
                        tree.spec_nodes()[node as int].start_byte as int,
                    );
                    r@ == spec_occ_ranges(
                        *tree,
                        spec_scope_filtered(
                            *tree,
                            source@,
                            parent_kind,
                            name,
                            ranges,
                            cursor_param,
                            spec_ident_occurrences(*tree, source@, parent_kind, name, 0),
                        ),
                    )
                },
            }
        }),
{
    let p = match tree.node(node).parent {
        Some(p) => p,
        None => {
            let r: Vec<Range> = Vec::new();
            return r;
        },
    };
    let parent_kind = crate::text::substring_owned(
        tree.node(p).kind.as_str(),
        0,
        tree.node(p).kind.as_str().unicode_len(),
    );
    proof {
        assert(parent_kind@ =~= tree.spec_nodes()[p as int].kind@);
    }
    let name = crate::tree::node_text(tree, node, source);
    let occs = ident_occurrences(tree, source, parent_kind.as_str(), name.as_str());
    let ranges = get_function_ranges(tree);
    let cursor_byte = tree.node(node).start_byte;
    let cursor_param = match in_function(cursor_byte, &ranges) {
        Some(k) => {
            if is_param_of_function(
                tree,
                source,
                parent_kind.as_str(),
                name.as_str(),
                ranges[k].def_start_byte,
                ranges[k].body_end_byte,
            ) {
                Some(ranges[k])
            } else {
                None
            }
        },
        None => None,
    };
    let kept = scope_filter(
        tree,
        source,
        parent_kind.as_str(),
        name.as_str(),
        &ranges,
        cursor_param,
        &occs,
    );
    let m = kept.len();
    let mut out: Vec<Range> = Vec::new();
    let mut i: usize = 0;
    while i < m
        invariant
            tree.wf(),
            m == kept@.len(),
            forall|q: int| 0 <= q < kept@.len() ==> 0 <= #[trigger] kept@[q] < tree.spec_len(),
            i <= m,
            out@ == spec_occ_ranges(*tree, kept@.map_values(|x: usize| x as int)).subrange(
                0,
                i as int,
            ),
        decreases m - i,
    {
        let ghost pre = out@;
        out.push(crate::tree::node_range(tree.node(kept[i])));
        proof {
            assert(out@ =~= spec_occ_ranges(*tree, kept@.map_values(|x: usize| x as int)).subrange(
                0,
                i + 1,
            ));
        }
        i += 1;
    }
    proof {
        let all = spec_occ_ranges(*tree, kept@.map_values(|x: usize| x as int));
        assert(all.subrange(0, m as int) =~= all);
    }
    out
}

/// What a reference request yields from a given cursor token.
pub open spec fn spec_refs_from(tree: SyntaxTree, src: Seq<char>, i: int) -> Seq<Range> {
    let kind = tree.spec_nodes()[i].kind@;
    let text = spec_node_text(tree.spec_nodes()[i], src);
    if kind == "function_name"@ {
        spec_function_refs(tree, src, text, 0)
    } else if kind == "label"@ || kind == "label_reference"@ {
        spec_label_refs(tree, src, spec_strip_trailing_char(text, ':'), 0)
    } else if kind == "line_number"@ || kind == "line_reference"@ {
        match spec_parse_u32(spec_trim(text)) {
            Some(v) => spec_line_refs(tree, src, v, 0),
            None => Seq::<Range>::empty(),
        }
    } else if kind == "stringidentifier"@ || kind == "numberidentifier"@ {
        match tree.spec_nodes()[i].parent {
            None => Seq::<Range>::empty(),
            Some(p) => {
                let parent_kind = tree.spec_nodes()[p as int].kind@;
                let ranges = spec_function_ranges(tree, 0, None);
                spec_occ_ranges(
                    tree,
                    spec_scope_filtered(
                        tree,
                        src,
                        parent_kind,
                        text,
                        ranges,
                        spec_cursor_param(
                            tree,
                            src,
                            parent_kind,
                            text,
                            ranges,
                            tree.spec_nodes()[i].start_byte as int,
                        ),
                        spec_ident_occurrences(tree, src, parent_kind, text, 0),
                    ),
                )
            },
        }
    } else {
        Seq::<Range>::empty()
    }
}

/// References from a known cursor token.
pub fn find_references_from(tree: &SyntaxTree, source: &str, node: usize) -> (r: Vec<Range>)
    requires
        tree.wf(),
        0 <= node < tree.spec_len(),
    ensures
        r@ == spec_refs_from(*tree, source@, node as int),
{
    if tree.kind_is(node, "function_name") {
        let name = crate::tree::node_text(tree, node, source);
        find_function_refs_by_name(name.as_str(), tree, source)
    } else if tree.kind_is(node, "label") || tree.kind_is(node, "label_reference") {
        let text = crate::tree::node_text(tree, node, source);
        let name = strip_trailing_char(text.as_str(), ':');
        find_label_refs_by_name(name, tree, source)
    } else if tree.kind_is(node, "line_number") || tree.kind_is(node, "line_reference") {
        let text = crate::tree::node_text(tree, node, source);
        let trimmed = trim(text.as_str());
        match parse_u32(trimmed) {
            Some(v) => find_line_refs_by_number(v, tree, source),
            None => Vec::new(),
        }
    } else if tree.kind_is(node, "stringidentifier") || tree.kind_is(node, "numberidentifier") {
        let r = find_variable_refs(tree, source, node);
        proof {
            if tree.spec_nodes()[node as int].parent is None {
                assert(r@ =~= spec_refs_from(*tree, source@, node as int));
            }
        }
        r
    } else {
        Vec::new()
    }
}

/// References from a cursor position: resolve the token under (or just
/// before) the cursor, then search by its kind.
pub fn find_references(tree: &SyntaxTree, source: &str, line: usize, character: usize) -> (r: Vec<
    Range,
>)
    requires
        tree.wf(),
    ensures
        r@ == match spec_resolve_ref(*tree, line as int, character as int) {
            Some(i) => spec_refs_from(*tree, source@, i),
            None => Seq::<Range>::empty(),
        },
{
    match resolve_ref_node(tree, line, character) {
        Some(node) => find_references_from(tree, source, node),
        None => {
            let r: Vec<Range> = Vec::new();
            proof {
                assert(r@ =~= Seq::<Range>::empty());
            }
            r
        },
    }
}

/// The user-function name under the cursor, if the resolved token is a
/// function name.
pub fn resolve_function_name_at(
    tree: &SyntaxTree,
    source: &str,
    line: usize,
    character: usize,
) -> (r: Option<String>)
    requires
        tree.wf(),
    ensures
        match spec_resolve_ref(*tree, line as int, character as int) {
            Some(i) => {
                if tree.spec_nodes()[i].kind@ == "function_name"@ {
                    r matches Some(name) && name@ == spec_node_text(
                        tree.spec_nodes()[i],
                        source@,
                    )
                } else {
                    r is None
                }
            },
            None => r is None,
        },
{
    match resolve_ref_node(tree, line, character) {
        Some(node) => {
            if tree.kind_is(node, "function_name") {
                Some(crate::tree::node_text(tree, node, source))
            } else {
                None
            }
        },
        None => None,
    }
}

// ---------------------------------------------------------------------------
// The scope law
// ---------------------------------------------------------------------------

/// Scope discipline.  When the cursor identifier is a parameter of the
/// function spanning `fr`, every reported occurrence lies within that
/// span; when it is not a parameter, no reported occurrence is a
/// parameter of the function containing it.
pub proof fn lemma_scope_discipline(
    tree: SyntaxTree,
    src: Seq<char>,
    parent_kind: Seq<char>,
    name: Seq<char>,
    ranges: Seq<FunctionRange>,
    cursor_param: Option<FunctionRange>,
    occs: Seq<int>,
)
    requires
        tree.wf(),
    ensures
        ({
            let kept = spec_scope_filtered(tree, src, parent_kind, name, ranges, cursor_param, occs);
            &&& (cursor_param matches Some(fr) ==> forall|q: int|
                0 <= q < kept.len() ==> fr.def_start_byte <= tree.spec_nodes()[#[trigger] kept[q]].start_byte
                    <= fr.body_end_byte)
            &&& (cursor_param is None ==> forall|q: int|
                0 <= q < kept.len() ==> !(0 <= #[trigger] kept[q] < tree.spec_len()
                    && match spec_in_function(
                    tree.spec_nodes()[kept[q]].start_byte as int,
                    ranges,
                ) {
                    Some(k) => spec_is_param_of(
                        tree,
                        src,
                        parent_kind,
                        name,
                        ranges[k].def_start_byte as int,
                        ranges[k].body_end_byte as int,
                        0,
                    ),
                    None => false,
                }))
        }),
    decreases occs.len(),
{
    if occs.len() > 0 {
        lemma_scope_discipline(
            tree,
            src,
            parent_kind,
            name,
            ranges,
            cursor_param,
            occs.drop_first(),
        );
    }
}

} // verus!
