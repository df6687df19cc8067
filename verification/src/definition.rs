//! Where the symbol under the cursor is defined.

use vstd::prelude::*;
use vstd::string::*;

use crate::references::{
    get_function_ranges, in_function, shrink_label, spec_cursor_param, spec_function_ranges,
    spec_in_function, spec_is_param_of, spec_shrink_label, spec_subtree_has_ident,
    strip_trailing_char, spec_strip_trailing_char, FunctionRange,
};
use crate::text::{eq_ignore_case, lower_seq, parse_u32, spec_parse_u32, spec_trim, trim};
use crate::tree::{spec_node_range, spec_node_text, SyntaxTree};
use crate::types::Range;

verus! {

/// The outcome of a definition request: a place in this document, a name
/// for the workspace index to resolve, or nothing.
pub enum DefinitionResult {
    Found(Range),
    LookupFunction(String),
    NoDefinition,
}

/// The first `def_statement` whose name token matches `name`
/// case-insensitively, from node `i` on: the name token's range.
pub open spec fn spec_function_def_at(tree: SyntaxTree, src: Seq<char>, name: Seq<char>, i: int) -> Option<Range>
    decreases tree.spec_len() - i when tree.wf() && 0 <= i <= tree.spec_len()
{
    if i >= tree.spec_len() {
        None
    } else {
        let here = if tree.spec_nodes()[i].kind@ == "def_statement"@ {
            match crate::diagnostics::spec_fn_name_node(tree, i, 0) {
                Some(g) => {
                    if lower_seq(spec_node_text(tree.spec_nodes()[g], src)) == lower_seq(name) {
                        Some(spec_node_range(tree.spec_nodes()[g]))
                    } else {
                        None
                    }
                },
                None => None,
            }
        } else {
            None
        };
        match here {
            Some(r) => Some(r),
            None => spec_function_def_at(tree, src, name, i + 1),
        }
    }
}

/// Find the local definition of function `name`.
pub fn find_function_def(tree: &SyntaxTree, source: &str, name: &str) -> (r: Option<Range>)
    requires
        tree.wf(),
    ensures
        r == spec_function_def_at(*tree, source@, name@, 0),
{
    let n = tree.len();
    let mut i: usize = 0;
    while i < n
        invariant
            tree.wf(),
            n == tree.spec_len(),
            i <= n,
            spec_function_def_at(*tree, source@, name@, i as int) == spec_function_def_at(
                *tree,
                source@,
                name@,
                0,
            ),
        decreases n - i,
    {
        if tree.kind_is(i, "def_statement") {
            match crate::diagnostics::fn_name_node(tree, i) {
                Some(g) => {
                    let t = crate::tree::node_text(tree, g, source);
                    if eq_ignore_case(t.as_str(), name) {
                        return Some(crate::tree::node_range(tree.node(g)));
                    }
                },
                None => {},
            }
        }
        i += 1;
    }
    None
}

/// The first matching label definition, its range shrunk past the colon.
pub open spec fn spec_label_def_at(tree: SyntaxTree, src: Seq<char>, name: Seq<char>, i: int) -> Option<Range>
    decreases tree.spec_len() - i when tree.wf() && 0 <= i <= tree.spec_len()
{
    if i >= tree.spec_len() {
        None
    } else {
        let n = tree.spec_nodes()[i];
        if n.kind@ == "label"@ && lower_seq(spec_node_text(n, src)) == lower_seq(name + ":"@) {
            Some(spec_shrink_label(spec_node_range(n)))
        } else {
            spec_label_def_at(tree, src, name, i + 1)
        }
    }
}

pub fn find_label_def(tree: &SyntaxTree, source: &str, name: &str) -> (r: Option<Range>)
    requires
        tree.wf(),
    ensures
        r == spec_label_def_at(*tree, source@, name@, 0),
{
    let mut with_colon = String::new();
    with_colon.append(name);
    with_colon.append(":");
    proof {
        assert(with_colon@ =~= name@ + ":"@);
    }
    let n = tree.len();
    let mut i: usize = 0;
    while i < n
        invariant
            tree.wf(),
            n == tree.spec_len(),
            with_colon@ == name@ + ":"@,
            i <= n,
            spec_label_def_at(*tree, source@, name@, i as int) == spec_label_def_at(
                *tree,
                source@,
                name@,
                0,
            ),
        decreases n - i,
    {
        if tree.kind_is(i, "label") {
            let t = crate::tree::node_text(tree, i, source);
            if eq_ignore_case(t.as_str(), with_colon.as_str()) {
                return Some(shrink_label(crate::tree::node_range(tree.node(i))));
            }
        }
        i += 1;
    }
    None
}

/// The first `line_number` node reading as `target`.
pub open spec fn spec_line_def_at(tree: SyntaxTree, src: Seq<char>, target: u32, i: int) -> Option<Range>
    decreases tree.spec_len() - i when tree.wf() && 0 <= i <= tree.spec_len()
{
    if i >= tree.spec_len() {
        None
    } else {
        let n = tree.spec_nodes()[i];
        if n.kind@ == "line_number"@ && spec_parse_u32(spec_trim(spec_node_text(n, src))) == Some(
            target,
        ) {
            Some(spec_node_range(n))
        } else {
            spec_line_def_at(tree, src, target, i + 1)
        }
    }
}

pub fn find_line_def(tree: &SyntaxTree, source: &str, target: u32) -> (r: Option<Range>)
    requires
        tree.wf(),
    ensures
        r == spec_line_def_at(*tree, source@, target, 0),
{
    let n = tree.len();
    let mut i: usize = 0;
    while i < n
        invariant
            tree.wf(),
            n == tree.spec_len(),
            i <= n,
            spec_line_def_at(*tree, source@, target, i as int) == spec_line_def_at(
                *tree,
                source@,
                target,
                0,
            ),
        decreases n - i,
    {
        if tree.kind_is(i, "line_number") {
            let t = crate::tree::node_text(tree, i, source);
            let trimmed = trim(t.as_str());
            let matches_target = match parse_u32(trimmed) {
                Some(v) => v == target,
                None => false,
            };
            if matches_target {
                return Some(crate::tree::node_range(tree.node(i)));
            }
        }
        i += 1;
    }
    None
}

/// The first `parameter` node within the span that holds a matching
/// identifier, from node `i` on; reports the matching identifier's range.
pub open spec fn spec_param_def_at(
    tree: SyntaxTree,
    src: Seq<char>,
    parent_kind: Seq<char>,
    name: Seq<char>,
    def_start: int,
    body_end: int,
    i: int,
) -> Option<int>
    decreases tree.spec_len() - i when tree.wf() && 0 <= i <= tree.spec_len()
{
    if i >= tree.spec_len() {
        None
    } else {
        let n = tree.spec_nodes()[i];
        if n.kind@ == "parameter"@ && def_start <= n.start_byte <= body_end
            && spec_subtree_has_ident(tree, src, parent_kind, name, i) {
            Some(i)
        } else {
            spec_param_def_at(tree, src, parent_kind, name, def_start, body_end, i + 1)
        }
    }
}

/// The first matching identifier in the subtree below `p`, found self
/// first, then the children left to right: its range.
pub open spec fn spec_ident_range_in(
    tree: SyntaxTree,
    src: Seq<char>,
    parent_kind: Seq<char>,
    name: Seq<char>,
    p: int,
) -> Option<Range>
    decreases tree.spec_len() - p, tree.spec_nodes()[p].children@.len() + 1
        when tree.wf() && 0 <= p < tree.spec_len()
{
    let n = tree.spec_nodes()[p];
    if (n.kind@ == "stringidentifier"@ || n.kind@ == "numberidentifier"@) && (n.parent matches Some(
        q,
    ) && tree.spec_nodes()[q as int].kind@ == parent_kind) && lower_seq(spec_node_text(n, src))
        == lower_seq(name) {
        Some(crate::tree::spec_node_range(n))
    } else {
        spec_ident_range_children(tree, src, parent_kind, name, p, 0)
    }
}

pub open spec fn spec_ident_range_children(
    tree: SyntaxTree,
    src: Seq<char>,
    parent_kind: Seq<char>,
    name: Seq<char>,
    p: int,
    k: int,
) -> Option<Range>
    decreases tree.spec_len() - p, tree.spec_nodes()[p].children@.len() - k
        when tree.wf() && 0 <= p < tree.spec_len() && 0 <= k
    via spec_ident_range_children_decreases
{
    let ch = tree.spec_nodes()[p].children@;
    if k >= ch.len() {
        None
    } else {
        match spec_ident_range_in(tree, src, parent_kind, name, ch[k] as int) {
            Some(r) => Some(r),
            None => spec_ident_range_children(tree, src, parent_kind, name, p, k + 1),
        }
    }
}

#[via_fn]
proof fn spec_ident_range_children_decreases(
    tree: SyntaxTree,
    src: Seq<char>,
    parent_kind: Seq<char>,
    name: Seq<char>,
    p: int,
    k: int,
) {
    if tree.wf() && 0 <= p < tree.spec_len() && 0 <= k < tree.spec_nodes()[p].children@.len() {
        assert(crate::tree::wf_nodes(tree.spec_nodes()));
        assert(0 <= p < tree.spec_nodes().len());
        assert(p < tree.spec_nodes()[p].children@[k] < tree.spec_len());
    }
}

/// The range search succeeds exactly when the subtree holds a match.
pub proof fn lemma_ident_range_iff(
    tree: SyntaxTree,
    src: Seq<char>,
    parent_kind: Seq<char>,
    name: Seq<char>,
    p: int,
)
    requires
        tree.wf(),
        0 <= p < tree.spec_len(),
    ensures
        (spec_ident_range_in(tree, src, parent_kind, name, p) is Some) == spec_subtree_has_ident(
            tree,
            src,
            parent_kind,
            name,
            p,
        ),
    decreases tree.spec_len() - p, tree.spec_nodes()[p].children@.len() + 1,
{
    let n = tree.spec_nodes()[p];
    if (n.kind@ == "stringidentifier"@ || n.kind@ == "numberidentifier"@) && (n.parent matches Some(
        q,
    ) && tree.spec_nodes()[q as int].kind@ == parent_kind) && lower_seq(spec_node_text(n, src))
        == lower_seq(name) {
    } else {
        lemma_ident_range_children_iff(tree, src, parent_kind, name, p, 0);
    }
}

proof fn lemma_ident_range_children_iff(
    tree: SyntaxTree,
    src: Seq<char>,
    parent_kind: Seq<char>,
    name: Seq<char>,
    p: int,
    k: int,
)
    requires
        tree.wf(),
        0 <= p < tree.spec_len(),
        0 <= k,
    ensures
        (spec_ident_range_children(tree, src, parent_kind, name, p, k) is Some)
            == crate::references::spec_subtree_has_ident_children(
            tree,
            src,
            parent_kind,
            name,
            p,
            k,
        ),
    decreases tree.spec_len() - p, tree.spec_nodes()[p].children@.len() - k,
{
    let ch = tree.spec_nodes()[p].children@;
    if k < ch.len() {
        assert(crate::tree::wf_nodes(tree.spec_nodes()));
        assert(0 <= p < tree.spec_nodes().len());
        assert(p < ch[k] < tree.spec_len());
        lemma_ident_range_iff(tree, src, parent_kind, name, ch[k] as int);
        lemma_ident_range_children_iff(tree, src, parent_kind, name, p, k + 1);
    }
}

/// The matching identifier's range inside the parameter subtree `p`.
fn ident_range_in_subtree(
    tree: &SyntaxTree,
    source: &str,
    parent_kind: &str,
    name: &str,
    p: usize,
) -> (r: Option<Range>)
    requires
        tree.wf(),
        0 <= p < tree.spec_len(),
    ensures
        r == spec_ident_range_in(*tree, source@, parent_kind@, name@, p as int),
    decreases tree.spec_len() - p,
{
    let is_ident = tree.kind_is(p, "stringidentifier") || tree.kind_is(p, "numberidentifier");
    if is_ident {
        let parent_matches = match tree.node(p).parent {
            Some(q) => tree.kind_is(q, parent_kind),
            None => false,
        };
        if parent_matches {
            let t = crate::tree::node_text(tree, p, source);
            if eq_ignore_case(t.as_str(), name) {
                return Some(crate::tree::node_range(tree.node(p)));
            }
        }
    }
    let m = tree.node(p).children.len();
    let mut k: usize = 0;
    while k < m
        invariant
            tree.wf(),
            0 <= p < tree.spec_len(),
            m == tree.spec_nodes()[p as int].children@.len(),
            k <= m,
            !((tree.spec_nodes()[p as int].kind@ == "stringidentifier"@
                || tree.spec_nodes()[p as int].kind@ == "numberidentifier"@)
                && (tree.spec_nodes()[p as int].parent matches Some(q)
                && tree.spec_nodes()[q as int].kind@ == parent_kind@) && lower_seq(
                spec_node_text(tree.spec_nodes()[p as int], source@),
            ) == lower_seq(name@)),
            spec_ident_range_children(
                *tree,
                source@,
                parent_kind@,
                name@,
                p as int,
                k as int,
            ) == spec_ident_range_in(*tree, source@, parent_kind@, name@, p as int),
        decreases m - k,
    {
        let c = tree.node(p).children[k];
        match ident_range_in_subtree(tree, source, parent_kind, name, c) {
            Some(r) => {
                return Some(r);
            },
            None => {},
        }
        k += 1;
    }
    None
}

/// The parameter definition for the identifier at `node`: the matching
/// identifier inside the first qualifying `parameter` node of the
/// function enclosing it, when that function declares one.
pub open spec fn spec_param_range(tree: SyntaxTree, src: Seq<char>, node: int) -> Option<Range> {
    match tree.spec_nodes()[node].parent {
        None => None,
        Some(p) => {
            let parent_kind = tree.spec_nodes()[p as int].kind@;
            let name = spec_node_text(tree.spec_nodes()[node], src);
            let ranges = spec_function_ranges(tree, 0, None);
            match spec_in_function(tree.spec_nodes()[node].start_byte as int, ranges) {
                None => None,
                Some(k) => match spec_param_def_at(
                    tree,
                    src,
                    parent_kind,
                    name,
                    ranges[k].def_start_byte as int,
                    ranges[k].body_end_byte as int,
                    0,
                ) {
                    Some(pn) => spec_ident_range_in(tree, src, parent_kind, name, pn),
                    None => None,
                },
            }
        },
    }
}

pub fn find_param_def(tree: &SyntaxTree, source: &str, node: usize) -> (r: Option<Range>)
    requires
        tree.wf(),
        0 <= node < tree.spec_len(),
    ensures
        r == spec_param_range(*tree, source@, node as int),
{
    let p = match tree.node(node).parent {
        Some(p) => p,
        None => {
            return None;
        },
    };
    let parent_kind = crate::text::substring_owned(
        tree.node(p).kind.as_str(),
        0,
        tree.node(p).kind.as_str().unicode_len(),
    );
    proof {
        assert(parent_kind@ =~= tree.spec_nodes()[p as int].kind@);
    }
    let name = crate::tree::node_text(tree, node, source);
    let ranges = get_function_ranges(tree);
    let fr = match in_function(tree.node(node).start_byte, &ranges) {
        Some(k) => ranges[k],
        None => {
            return None;
        },
    };
    let n = tree.len();
    let mut i: usize = 0;
    while i < n
        invariant
            tree.wf(),
            n == tree.spec_len(),
            0 <= node < tree.spec_len(),
            tree.spec_nodes()[node as int].parent matches Some(pp) && parent_kind@
                == tree.spec_nodes()[pp as int].kind@,
            name@ == spec_node_text(tree.spec_nodes()[node as int], source@),
            spec_in_function(
                tree.spec_nodes()[node as int].start_byte as int,
                spec_function_ranges(*tree, 0, None),
            ) matches Some(kk) && spec_function_ranges(*tree, 0, None)[kk] == fr,
            i <= n,
            spec_param_def_at(
                *tree,
                source@,
                parent_kind@,
                name@,
                fr.def_start_byte as int,
                fr.body_end_byte as int,
                i as int,
            ) == spec_param_def_at(
                *tree,
                source@,
                parent_kind@,
                name@,
                fr.def_start_byte as int,
                fr.body_end_byte as int,
                0,
            ),
        decreases n - i,
    {
        if tree.kind_is(i, "parameter") {
            let sb = tree.node(i).start_byte;
            if fr.def_start_byte <= sb && sb <= fr.body_end_byte {
                let found = ident_range_in_subtree(
                    tree,
                    source,
                    parent_kind.as_str(),
                    name.as_str(),
                    i,
                );
                proof {
                    lemma_ident_range_iff(*tree, source@, parent_kind@, name@, i as int);
                }
                match found {
                    Some(r) => {
                        return Some(r);
                    },
                    None => {},
                }
            }
        }
        i += 1;
    }
    None
}

/// The first `dim_statement` declaration of the identifier: a matching
/// name-field child of a reference or array node inside a `dim_statement`.
pub open spec fn spec_dim_def_at(tree: SyntaxTree, src: Seq<char>, name: Seq<char>, i: int) -> Option<Range>
    decreases tree.spec_len() - i when tree.wf() && 0 <= i <= tree.spec_len()
{
    if i >= tree.spec_len() {
        None
    } else {
        let n = tree.spec_nodes()[i];
        let parent_ok = n.parent matches Some(p) && {
            let pk = tree.spec_nodes()[p as int].kind@;
            (pk == "stringreference"@ || pk == "numberreference"@ || pk == "stringarray"@ || pk
                == "numberarray"@) && crate::tree::spec_inside(tree, p as int, "dim_statement"@)
        };
        if n.field@ == "name"@ && parent_ok && lower_seq(spec_node_text(n, src)) == lower_seq(
            name,
        ) {
            Some(spec_node_range(n))
        } else {
            spec_dim_def_at(tree, src, name, i + 1)
        }
    }
}

pub fn find_dim_def(tree: &SyntaxTree, source: &str, name: &str) -> (r: Option<Range>)
    requires
        tree.wf(),
    ensures
        r == spec_dim_def_at(*tree, source@, name@, 0),
{
    let n = tree.len();
    let mut i: usize = 0;
    while i < n
        invariant
            tree.wf(),
            n == tree.spec_len(),
            i <= n,
            spec_dim_def_at(*tree, source@, name@, i as int) == spec_dim_def_at(
                *tree,
                source@,
                name@,
                0,
            ),
        decreases n - i,
    {
        let is_name_field = crate::text::str_eq(tree.node(i).field.as_str(), "name");
        if is_name_field {
            let parent_ok = match tree.node(i).parent {
                Some(p) => {
                    let pk_ok = tree.kind_is(p, "stringreference") || tree.kind_is(
                        p,
                        "numberreference",
                    ) || tree.kind_is(p, "stringarray") || tree.kind_is(p, "numberarray");
                    pk_ok && crate::tree::has_ancestor_of_kind(tree, p, "dim_statement")
                },
                None => false,
            };
            if parent_ok {
                let t = crate::tree::node_text(tree, i, source);
                if eq_ignore_case(t.as_str(), name) {
                    return Some(crate::tree::node_range(tree.node(i)));
                }
            }
        }
        i += 1;
    }
    None
}

/// Find the definition of the symbol at the cursor.  A user function with
/// no local definition yields its name for the caller to resolve against
/// the workspace index.
pub fn find_definition(tree: &SyntaxTree, source: &str, line: usize, character: usize) -> (r: DefinitionResult)
    requires
        tree.wf(),
    ensures
        ({
            match spec_resolve_def(*tree, line as int, character as int) {
                None => r matches DefinitionResult::NoDefinition,
                Some(n) => {
                    let nd = tree.spec_nodes()[n];
                    let kind = nd.kind@;
                    let text = spec_node_text(nd, source@);
                    if kind == "function_name"@ {
                        if (nd.parent matches Some(p) && (tree.spec_nodes()[p as int].kind@
                            == "numeric_system_function"@ || tree.spec_nodes()[p as int].kind@
                            == "string_system_function"@)) {
                            r matches DefinitionResult::NoDefinition
                        } else {
                            match spec_function_def_at(*tree, source@, text, 0) {
                                Some(rg) => r == DefinitionResult::Found(rg),
                                None => r matches DefinitionResult::LookupFunction(nm) && nm@
                                    == text,
                            }
                        }
                    } else if kind == "label_reference"@ {
                        match spec_label_def_at(*tree, source@, text, 0) {
                            Some(rg) => r == DefinitionResult::Found(rg),
                            None => r matches DefinitionResult::NoDefinition,
                        }
                    } else if kind == "line_reference"@ {
                        match crate::text::spec_parse_u32(crate::text::spec_trim(text)) {
                            Some(v) => match spec_line_def_at(*tree, source@, v, 0) {
                                Some(rg) => r == DefinitionResult::Found(rg),
                                None => r matches DefinitionResult::NoDefinition,
                            },
                            None => r matches DefinitionResult::NoDefinition,
                        }
                    } else if kind == "stringidentifier"@ || kind == "numberidentifier"@ {
                        match spec_param_range(*tree, source@, n) {
                            Some(rg) => r == DefinitionResult::Found(rg),
                            None => match spec_dim_def_at(*tree, source@, text, 0) {
                                Some(rg) => r == DefinitionResult::Found(rg),
                                None => r matches DefinitionResult::NoDefinition,
                            },
                        }
                    } else {
                        r matches DefinitionResult::NoDefinition
                    }
                },
            }
        }),
{
    let node = match resolve_def_node(tree, line, character) {
        Some(n) => n,
        None => {
            return DefinitionResult::NoDefinition;
        },
    };
    if tree.kind_is(node, "function_name") {
        let is_system = match tree.node(node).parent {
            Some(p) => tree.kind_is(p, "numeric_system_function") || tree.kind_is(
                p,
                "string_system_function",
            ),
            None => false,
        };
        if is_system {
            return DefinitionResult::NoDefinition;
        }
        let name = crate::tree::node_text(tree, node, source);
        match find_function_def(tree, source, name.as_str()) {
            Some(r) => DefinitionResult::Found(r),
            None => DefinitionResult::LookupFunction(name),
        }
    } else if tree.kind_is(node, "label_reference") {
        let name = crate::tree::node_text(tree, node, source);
        match find_label_def(tree, source, name.as_str()) {
            Some(r) => DefinitionResult::Found(r),
            None => DefinitionResult::NoDefinition,
        }
    } else if tree.kind_is(node, "line_reference") {
        let t = crate::tree::node_text(tree, node, source);
        let trimmed = trim(t.as_str());
        match parse_u32(trimmed) {
            Some(v) => match find_line_def(tree, source, v) {
                Some(r) => DefinitionResult::Found(r),
                None => DefinitionResult::NoDefinition,
            },
            None => DefinitionResult::NoDefinition,
        }
    } else if tree.kind_is(node, "stringidentifier") || tree.kind_is(node, "numberidentifier") {
        match find_param_def(tree, source, node) {
            Some(r) => DefinitionResult::Found(r),
            None => {
                let name = crate::tree::node_text(tree, node, source);
                match find_dim_def(tree, source, name.as_str()) {
                    Some(r) => DefinitionResult::Found(r),
                    None => DefinitionResult::NoDefinition,
                }
            },
        }
    } else {
        DefinitionResult::NoDefinition
    }
}

/// Token kinds a definition request can start from.
pub open spec fn spec_supported_def_kind(kind: Seq<char>) -> bool {
    ||| kind == "function_name"@
    ||| kind == "label_reference"@
    ||| kind == "line_reference"@
    ||| kind == "stringidentifier"@
    ||| kind == "numberidentifier"@
}

fn supported_def_kind(tree: &SyntaxTree, i: usize) -> (r: bool)
    requires
        tree.wf(),
        0 <= i < tree.spec_len(),
    ensures
        r == spec_supported_def_kind(tree.spec_nodes()[i as int].kind@),
{
    tree.kind_is(i, "function_name") || tree.kind_is(i, "label_reference") || tree.kind_is(
        i,
        "line_reference",
    ) || tree.kind_is(i, "stringidentifier") || tree.kind_is(i, "numberidentifier")
}

/// The token a definition request starts from: the node at the position;
/// when that node is not a supported token and the column is positive,
/// the node one column to the left takes its place if that one is
/// supported.
pub open spec fn spec_resolve_def(tree: SyntaxTree, line: int, character: int) -> Option<int> {
    match crate::tree::spec_node_at(tree, line, character) {
        None => None,
        Some(n) => {
            if spec_supported_def_kind(tree.spec_nodes()[n].kind@) {
                Some(n)
            } else if character > 0 {
                match crate::tree::spec_node_at(tree, line, character - 1) {
                    Some(m) => {
                        if spec_supported_def_kind(tree.spec_nodes()[m].kind@) {
                            Some(m)
                        } else {
                            Some(n)
                        }
                    },
                    None => Some(n),
                }
            } else {
                Some(n)
            }
        },
    }
}

fn resolve_def_node(tree: &SyntaxTree, line: usize, character: usize) -> (r: Option<usize>)
    requires
        tree.wf(),
    ensures
        match r {
            Some(i) => spec_resolve_def(*tree, line as int, character as int) == Some(i as int)
                && 0 <= i < tree.spec_len(),
            None => spec_resolve_def(*tree, line as int, character as int) is None,
        },
{
    let node = match crate::tree::node_at_position(tree, line, character) {
        Some(n) => n,
        None => {
            return None;
        },
    };
    if !supported_def_kind(tree, node) && character > 0 {
        match crate::tree::node_at_position(tree, line, character - 1) {
            Some(n) => {
                if supported_def_kind(tree, n) {
                    return Some(n);
                }
            },
            None => {},
        }
    }
    Some(node)
}

} // verus!
