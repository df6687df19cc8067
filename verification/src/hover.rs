//! Hover text and signature help.

use vstd::prelude::*;
use vstd::string::*;

use crate::builtins::{spec_builtin_signature, BuiltinFunction};
use crate::extract::{spec_signature, spec_visible, FunctionDef};
use crate::parser::CallContext;
use crate::text::opt_view;
use crate::tree::{spec_node_range, spec_node_text, SyntaxTree};
use crate::types::Range;

verus! {

/// One signature offered to the editor: the rendered label, the span of
/// each parameter in it, per-parameter documentation, and the overall
/// documentation.
pub struct SignatureInformation {
    pub label: String,
    pub param_offsets: Vec<[usize; 2]>,
    pub param_docs: Vec<Option<String>>,
    pub documentation: Option<String>,
}

/// The markdown hover for one user function: the signature in a code
/// block, then the description when there is one.
pub open spec fn spec_user_hover(d: FunctionDef) -> Seq<char> {
    let sig = spec_signature(d.name@, spec_visible(d.params@));
    let base = "```br\n"@ + sig + "\n```"@;
    match d.documentation {
        Some(doc) => base + "\n\n---\n\n"@ + doc@,
        None => base,
    }
}

/// Hover text for one user function definition.
pub fn format_user_hover(d: &FunctionDef) -> (r: String)
    ensures
        r@ == spec_user_hover(*d),
{
    let sig = d.format_signature();
    let mut md = String::new();
    md.append("```br\n");
    md.append(sig.as_str());
    md.append("\n```");
    match &d.documentation {
        Some(doc) => {
            md.append("\n\n---\n\n");
            md.append(doc.as_str());
            proof {
                assert(md@ =~= spec_user_hover(*d));
            }
        },
        None => {
            proof {
                assert(md@ =~= spec_user_hover(*d));
            }
        },
    }
    md
}

/// The markdown hover for one built-in overload.
pub open spec fn spec_builtin_hover_one(b: BuiltinFunction) -> Seq<char> {
    let base = "```br\n"@ + spec_builtin_signature(b) + "\n```"@;
    match b.documentation {
        Some(doc) => base + "\n\n---\n\n"@ + doc@,
        None => base,
    }
}

pub fn format_builtin_doc(b: &BuiltinFunction) -> (r: String)
    ensures
        r@ == spec_builtin_hover_one(*b),
{
    let sig = b.format_signature();
    let mut md = String::new();
    md.append("```br\n");
    md.append(sig.as_str());
    md.append("\n```");
    match &b.documentation {
        Some(doc) => {
            md.append("\n\n---\n\n");
            md.append(doc.as_str());
            proof {
                assert(md@ =~= spec_builtin_hover_one(*b));
            }
        },
        None => {
            proof {
                assert(md@ =~= spec_builtin_hover_one(*b));
            }
        },
    }
    md
}

/// The hover for a built-in name: every overload's text, joined by rules.
pub open spec fn spec_builtin_hover(bs: Seq<BuiltinFunction>) -> Seq<char>
    decreases bs.len(),
{
    if bs.len() == 0 {
        Seq::<char>::empty()
    } else if bs.len() == 1 {
        spec_builtin_hover_one(bs[0])
    } else {
        spec_builtin_hover(bs.drop_last()) + "\n\n---\n\n"@ + spec_builtin_hover_one(bs.last())
    }
}

pub fn format_builtin_hover(bs: &Vec<&BuiltinFunction>) -> (r: String)
    ensures
        r@ == spec_builtin_hover(crate::builtins::deref_builtins(bs@)),
{
    let ghost sb = crate::builtins::deref_builtins(bs@);
    let n = bs.len();
    let mut out = String::new();
    let mut i: usize = 0;
    proof {
        assert(sb.subrange(0, 0).len() == 0);
        assert(out@ =~= spec_builtin_hover(sb.subrange(0, 0)));
    }
    while i < n
        invariant
            n == bs@.len(),
            sb == crate::builtins::deref_builtins(bs@),
            i <= n,
            out@ == spec_builtin_hover(sb.subrange(0, i as int)),
        decreases n - i,
    {
        if i > 0 {
            out.append("\n\n---\n\n");
        }
        let piece = format_builtin_doc(bs[i]);
        out.append(piece.as_str());
        proof {
            let cur = sb.subrange(0, i + 1);
            assert(cur.drop_last() =~= sb.subrange(0, i as int));
            assert(cur.last() == sb[i as int]);
            assert(sb[i as int] == *bs@[i as int]);
            assert(out@ =~= spec_builtin_hover(cur));
        }
        i += 1;
    }
    proof {
        assert(sb.subrange(0, n as int) =~= sb);
    }
    out
}

/// One signature record for a built-in overload.
pub fn build_builtin_signature(b: &BuiltinFunction) -> (r: SignatureInformation)
    ensures
        r.label@ == spec_builtin_signature(*b),
        r.param_offsets@.len() == b.params@.len(),
        r.param_docs@.len() == b.params@.len(),
        forall|i: int|
            0 <= i < r.param_docs@.len() ==> opt_view(#[trigger] r.param_docs@[i]) == opt_view(
                b.params@[i].documentation,
            ),
        opt_view(r.documentation) == opt_view(b.documentation),
{
    let pair = b.format_signature_with_offsets();
    let mut docs: Vec<Option<String>> = Vec::new();
    let m = b.params.len();
    let mut i: usize = 0;
    while i < m
        invariant
            m == b.params@.len(),
            i <= m,
            docs@.len() == i,
            forall|k: int|
                0 <= k < i ==> opt_view(#[trigger] docs@[k]) == opt_view(
                    b.params@[k].documentation,
                ),
        decreases m - i,
    {
        docs.push(crate::text::clone_opt_string(&b.params[i].documentation));
        i += 1;
    }
    SignatureInformation {
        label: pair.0,
        param_offsets: pair.1,
        param_docs: docs,
        documentation: crate::text::clone_opt_string(&b.documentation),
    }
}

/// One signature record for a user function definition.
pub fn build_user_signature(d: &FunctionDef) -> (r: SignatureInformation)
    ensures
        r.label@ == spec_signature(d.name@, spec_visible(d.params@)),
        opt_view(r.documentation) == opt_view(d.documentation),
{
    let pair = d.format_signature_with_offsets();
    let mut docs: Vec<Option<String>> = Vec::new();
    let m = d.params.len();
    let mut i: usize = 0;
    while i < m
        invariant
            m == d.params@.len(),
            i <= m,
            docs@.len() == i,
            forall|k: int|
                0 <= k < i ==> opt_view(#[trigger] docs@[k]) == opt_view(
                    d.params@[k].documentation,
                ),
        decreases m - i,
    {
        docs.push(crate::text::clone_opt_string(&d.params[i].documentation));
        i += 1;
    }
    SignatureInformation {
        label: pair.0,
        param_offsets: pair.1,
        param_docs: docs,
        documentation: crate::text::clone_opt_string(&d.documentation),
    }
}

/// The nearest `function_name` node at or above `i` in the tree.
pub open spec fn spec_hover_node(tree: SyntaxTree, i: int) -> Option<int>
    decreases i + 1 when tree.wf() && 0 <= i < tree.spec_len()
{
    if tree.spec_nodes()[i].kind@ == "function_name"@ {
        Some(i)
    } else {
        match tree.spec_nodes()[i].parent {
            Some(p) => spec_hover_node(tree, p as int),
            None => None,
        }
    }
}

/// Whether the parent of node `i` marks it as a system function.
pub open spec fn spec_system_parent(tree: SyntaxTree, i: int) -> bool {
    tree.spec_nodes()[i].parent matches Some(p) && (tree.spec_nodes()[p as int].kind@
        == "numeric_system_function"@ || tree.spec_nodes()[p as int].kind@
        == "string_system_function"@)
}

/// What the hover request finds under the cursor: the nearest enclosing
/// `function_name` node's text and range, and whether its parent marks
/// it as a system function.
pub fn hover_target(tree: &SyntaxTree, source: &str, line: usize, character: usize) -> (r: Option<
    (String, bool, Range),
>)
    requires
        tree.wf(),
    ensures
        ({
            match crate::tree::spec_node_at(*tree, line as int, character as int) {
                None => r is None,
                Some(n) => match spec_hover_node(*tree, n) {
                    None => r is None,
                    Some(i) => r matches Some(t) && t.0@ == spec_node_text(
                        tree.spec_nodes()[i],
                        source@,
                    ) && t.1 == spec_system_parent(*tree, i) && t.2 == spec_node_range(
                        tree.spec_nodes()[i],
                    ),
                },
            }
        }),
{
    let mut cur = match crate::tree::node_at_position(tree, line, character) {
        Some(n) => n,
        None => {
            return None;
        },
    };
    let ghost entry = cur as int;
    loop
        invariant
            tree.wf(),
            0 <= cur < tree.spec_len(),
            crate::tree::spec_node_at(*tree, line as int, character as int) == Some(entry),
            spec_hover_node(*tree, cur as int) == spec_hover_node(*tree, entry),
        decreases cur,
    {
        if tree.kind_is(cur, "function_name") {
            let name = crate::tree::node_text(tree, cur, source);
            let is_system = match tree.node(cur).parent {
                Some(p) => tree.kind_is(p, "numeric_system_function") || tree.kind_is(
                    p,
                    "string_system_function",
                ),
                None => false,
            };
            let range = crate::tree::node_range(tree.node(cur));
            proof {
                assert(spec_hover_node(*tree, cur as int) == Some(cur as int));
                assert(is_system == spec_system_parent(*tree, cur as int));
            }
            return Some((name, is_system, range));
        }
        match tree.node(cur).parent {
            Some(p) => {
                cur = p;
            },
            None => {
                return None;
            },
        }
    }
}

/// The nearest `arguments` node at or above `i` in the tree.
pub open spec fn spec_args_ancestor(tree: SyntaxTree, i: int) -> Option<int>
    decreases i + 1 when tree.wf() && 0 <= i < tree.spec_len()
{
    if tree.spec_nodes()[i].kind@ == "arguments"@ {
        Some(i)
    } else {
        match tree.spec_nodes()[i].parent {
            Some(p) => spec_args_ancestor(tree, p as int),
            None => None,
        }
    }
}

/// How many comma tokens among the children of `args`, from `k` on, end
/// at or before the cursor.
pub open spec fn spec_comma_count(
    tree: SyntaxTree,
    src: Seq<char>,
    args: int,
    line: int,
    character: int,
    k: int,
) -> int
    decreases tree.spec_nodes()[args].children@.len() - k
        when tree.wf() && 0 <= args < tree.spec_len() && 0 <= k
{
    let ch = tree.spec_nodes()[args].children@;
    if k >= ch.len() {
        0
    } else {
        let c = tree.spec_nodes()[ch[k] as int];
        (if !c.named && spec_node_text(c, src) == ","@ && c.end_row <= line && c.end_col
            <= character {
            1int
        } else {
            0int
        }) + spec_comma_count(tree, src, args, line, character, k + 1)
    }
}

/// The call context the tree gives at the cursor: the nearest enclosing
/// `arguments` node, its call parent's `function_name` child, and the
/// commas ending at or before the cursor.
pub open spec fn spec_tree_call_context(
    tree: SyntaxTree,
    src: Seq<char>,
    line: int,
    character: int,
) -> Option<(Seq<char>, int)> {
    match crate::tree::spec_node_at(tree, line, character) {
        None => None,
        Some(n) => match spec_args_ancestor(tree, n) {
            None => None,
            Some(a) => match tree.spec_nodes()[a].parent {
                None => None,
                Some(call) => match crate::extract::spec_child_of_kinds(
                    tree,
                    call as int,
                    0,
                    "function_name"@,
                    "function_name"@,
                ) {
                    None => None,
                    Some(nn) => Some(
                        (
                            spec_node_text(tree.spec_nodes()[nn], src),
                            spec_comma_count(tree, src, a, line, character, 0),
                        ),
                    ),
                },
            },
        },
    }
}

/// The call context at the cursor from the tree: the nearest enclosing
/// `arguments` node gives the callee's name, and the commas ending before
/// the cursor give the active parameter.  Falls back to the text scan
/// when the tree yields nothing.
pub fn signature_help_context(
    tree: &SyntaxTree,
    source: &str,
    line: usize,
    character: usize,
) -> (r: Option<CallContext>)
    requires
        tree.wf(),
        source@.len() < usize::MAX,
    ensures
        ({
            match spec_tree_call_context(*tree, source@, line as int, character as int) {
                Some(t) => r matches Some(c) && c.name@ == t.0 && c.active_param as int == t.1,
                None => match r {
                    Some(c) => crate::parser::spec_call_context(
                        source@,
                        line as int,
                        character as int,
                    ) matches Some(p) && p.0 == c.name@ && p.1 == c.active_param as int,
                    None => crate::parser::spec_call_context(
                        source@,
                        line as int,
                        character as int,
                    ) is None,
                },
            }
        }),
{
    let from_tree = tree_call_context(tree, source, line, character);
    match from_tree {
        Some(ctx) => Some(ctx),
        None => crate::parser::find_function_call_context(source, line, character),
    }
}

fn tree_call_context(
    tree: &SyntaxTree,
    source: &str,
    line: usize,
    character: usize,
) -> (r: Option<CallContext>)
    requires
        tree.wf(),
    ensures
        match spec_tree_call_context(*tree, source@, line as int, character as int) {
            Some(t) => r matches Some(c) && c.name@ == t.0 && c.active_param as int == t.1,
            None => r is None,
        },
{
    let mut cur = match crate::tree::node_at_position(tree, line, character) {
        Some(n) => n,
        None => {
            return None;
        },
    };
    let ghost entry = cur as int;
    loop
        invariant
            tree.wf(),
            0 <= cur < tree.spec_len(),
            crate::tree::spec_node_at(*tree, line as int, character as int) == Some(entry),
            spec_args_ancestor(*tree, cur as int) == spec_args_ancestor(*tree, entry),
        ensures
            0 <= cur < tree.spec_len(),
            crate::tree::spec_node_at(*tree, line as int, character as int) == Some(entry),
            spec_args_ancestor(*tree, entry) == Some(cur as int),
            tree.spec_nodes()[cur as int].kind@ == "arguments"@,
        decreases cur,
    {
        if tree.kind_is(cur, "arguments") {
            break;
        }
        match tree.node(cur).parent {
            Some(p) => {
                cur = p;
            },
            None => {
                return None;
            },
        }
    }
    let args = cur;
    let call = match tree.node(args).parent {
        Some(p) => p,
        None => {
            return None;
        },
    };
    let nn = match crate::extract::child_of_kinds(tree, call, "function_name", "function_name") {
        Some(nn) => nn,
        None => {
            return None;
        },
    };
    let name = crate::tree::node_text(tree, nn, source);
    // Count comma tokens that end at or before the cursor.
    let m = tree.node(args).children.len();
    let mut count: usize = 0;
    let mut k: usize = 0;
    while k < m
        invariant
            tree.wf(),
            0 <= args < tree.spec_len(),
            crate::tree::spec_node_at(*tree, line as int, character as int) == Some(entry),
            spec_args_ancestor(*tree, entry) == Some(args as int),
            tree.spec_nodes()[args as int].parent == Some(call),
            0 <= call < tree.spec_len(),
            crate::extract::spec_child_of_kinds(
                *tree,
                call as int,
                0,
                "function_name"@,
                "function_name"@,
            ) == Some(nn as int),
            0 <= nn < tree.spec_len(),
            name@ == spec_node_text(tree.spec_nodes()[nn as int], source@),
            m == tree.spec_nodes()[args as int].children@.len(),
            k <= m,
            count <= k,
            count + spec_comma_count(*tree, source@, args as int, line as int, character as int, k as int)
                == spec_comma_count(*tree, source@, args as int, line as int, character as int, 0),
        decreases m - k,
    {
        let c = tree.node(args).children[k];
        let ghost cn = tree.spec_nodes()[c as int];
        let mut hit = false;
        if !tree.node(c).named {
            let t = crate::tree::node_text(tree, c, source);
            if crate::text::str_eq(t.as_str(), ",") {
                let er = tree.node(c).end_row;
                let ec = tree.node(c).end_col;
                if er <= line && ec <= character {
                    count += 1;
                    hit = true;
                }
            }
        }
        proof {
            reveal_strlit(",");
            assert(hit == (!cn.named && spec_node_text(cn, source@) == ","@ && cn.end_row
                <= line && cn.end_col <= character));
        }
        k += 1;
    }
    proof {
        assert(spec_comma_count(
            *tree,
            source@,
            args as int,
            line as int,
            character as int,
            m as int,
        ) == 0);
    }
    Some(CallContext { name, active_param: count })
}

} // verus!
