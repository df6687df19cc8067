//! Renaming the symbol under the cursor.

use vstd::prelude::*;
use vstd::string::*;

use crate::builtins::BuiltinTable;
use crate::references::{
    find_function_refs_by_name, find_label_refs_by_name, find_variable_refs, shrink_label,
    spec_function_refs, spec_label_refs, spec_shrink_label, spec_strip_trailing_char,
    strip_trailing_char,
};
use crate::text::lower_seq;
use crate::tree::{spec_node_range, spec_node_text, SyntaxTree};
use crate::types::{Range, TextEdit};

verus! {

/// What a rename may start from: the token's range and its current text
/// as the placeholder.
pub struct PrepareRenameResult {
    pub range: Range,
    pub placeholder: String,
}

/// Token kinds a rename can start from.
pub open spec fn spec_supported_rename_kind(kind: Seq<char>) -> bool {
    ||| kind == "function_name"@
    ||| kind == "label"@
    ||| kind == "label_reference"@
    ||| kind == "stringidentifier"@
    ||| kind == "numberidentifier"@
}

fn supported_rename_kind(tree: &SyntaxTree, i: usize) -> (r: bool)
    requires
        tree.wf(),
        0 <= i < tree.spec_len(),
    ensures
        r == spec_supported_rename_kind(tree.spec_nodes()[i as int].kind@),
{
    tree.kind_is(i, "function_name") || tree.kind_is(i, "label") || tree.kind_is(
        i,
        "label_reference",
    ) || tree.kind_is(i, "stringidentifier") || tree.kind_is(i, "numberidentifier")
}

/// The token a rename starts from: the node at the position when its
/// kind is supported; else, for a positive column, the node one column to
/// the left when that one is supported; nothing otherwise.
pub open spec fn spec_resolve_rename(tree: SyntaxTree, line: int, character: int) -> Option<int> {
    match crate::tree::spec_node_at(tree, line, character) {
        None => None,
        Some(n) => {
            if spec_supported_rename_kind(tree.spec_nodes()[n].kind@) {
                Some(n)
            } else if character > 0 {
                match crate::tree::spec_node_at(tree, line, character - 1) {
                    Some(m) => {
                        if spec_supported_rename_kind(tree.spec_nodes()[m].kind@) {
                            Some(m)
                        } else {
                            None
                        }
                    },
                    None => None,
                }
            } else {
                None
            }
        },
    }
}

pub fn resolve_rename_node(tree: &SyntaxTree, line: usize, character: usize) -> (r: Option<usize>)
    requires
        tree.wf(),
    ensures
        match r {
            Some(i) => spec_resolve_rename(*tree, line as int, character as int) == Some(i as int)
                && 0 <= i < tree.spec_len() && spec_supported_rename_kind(
                tree.spec_nodes()[i as int].kind@,
            ),
            None => spec_resolve_rename(*tree, line as int, character as int) is None,
        },
{
    let node = match crate::tree::node_at_position(tree, line, character) {
        Some(n) => n,
        None => {
            return None;
        },
    };
    if supported_rename_kind(tree, node) {
        return Some(node);
    }
    if character > 0 {
        match crate::tree::node_at_position(tree, line, character - 1) {
            Some(n) => {
                if supported_rename_kind(tree, n) {
                    return Some(n);
                }
            },
            None => {},
        }
    }
    None
}

/// May the token be renamed, and with what range and placeholder?  System
/// function names are refused; labels lose their colon.
pub fn prepare_rename(
    tree: &SyntaxTree,
    source: &str,
    line: usize,
    character: usize,
    table: &BuiltinTable,
) -> (r: Option<PrepareRenameResult>)
    requires
        tree.wf(),
    ensures
        match spec_resolve_rename(*tree, line as int, character as int) {
            None => r is None,
            Some(i) => {
                let text = spec_node_text(tree.spec_nodes()[i], source@);
                if crate::builtins::builtin_filter(table.spec_funcs(), lower_seq(text)).len()
                    > 0 {
                    r is None
                } else if tree.spec_nodes()[i].kind@ == "label"@ {
                    r matches Some(res) && res.range == spec_shrink_label(
                        spec_node_range(tree.spec_nodes()[i]),
                    ) && res.placeholder@ == spec_strip_trailing_char(text, ':')
                } else {
                    r matches Some(res) && res.range == spec_node_range(tree.spec_nodes()[i])
                        && res.placeholder@ == text
                }
            },
        },
{
    let node = match resolve_rename_node(tree, line, character) {
        Some(n) => n,
        None => {
            return None;
        },
    };
    let text = crate::tree::node_text(tree, node, source);
    if tree.kind_is(node, "function_name") {
        let overloads = table.lookup(text.as_str());
        if overloads.len() > 0 {
            return None;
        }
        proof {
            assert(crate::builtins::deref_builtins(overloads@).len() == 0);
        }
        let res = PrepareRenameResult { range: crate::tree::node_range(tree.node(node)), placeholder: text };
        proof {
            assert(tree.spec_nodes()[node as int].kind@ == "function_name"@);
            reveal_strlit("function_name");
            reveal_strlit("label");
            assert("function_name"@.len() == 13);
            assert("label"@.len() == 5);
        }
        Some(res)
    } else if tree.kind_is(node, "label") {
        // A label text carries its colon, which no catalog name does, so
        // this lookup comes back empty; it still documents the rule that
        // only non-builtin tokens may be renamed.
        let lookup_hits = table.lookup(text.as_str());
        if lookup_hits.len() > 0 {
            return None;
        }
        proof {
            assert(crate::builtins::deref_builtins(lookup_hits@).len() == 0);
        }
        let name = strip_trailing_char(text.as_str(), ':');
        let placeholder = crate::text::substring_owned(name, 0, name.unicode_len());
        Some(PrepareRenameResult {
            range: shrink_label(crate::tree::node_range(tree.node(node))),
            placeholder,
        })
    } else {
        let lookup_hits = table.lookup(text.as_str());
        if lookup_hits.len() > 0 {
            return None;
        }
        proof {
            assert(crate::builtins::deref_builtins(lookup_hits@).len() == 0);
            assert(tree.spec_nodes()[node as int].kind@ != "label"@);
        }
        let res = PrepareRenameResult { range: crate::tree::node_range(tree.node(node)), placeholder: text };
        Some(res)
    }
}

/// One text edit per range, all writing `new_name`.
pub open spec fn spec_edits_of(ranges: Seq<Range>, new_name: Seq<char>) -> Seq<(Range, Seq<char>)> {
    ranges.map_values(|r: Range| (r, new_name))
}

pub open spec fn edits_view(v: Seq<TextEdit>) -> Seq<(Range, Seq<char>)> {
    v.map_values(|e: TextEdit| (e.range, e.new_text@))
}

/// Turn reference ranges into rename edits.
pub fn edits_for_ranges(ranges: &Vec<Range>, new_name: &str) -> (r: Vec<TextEdit>)
    ensures
        edits_view(r@) == spec_edits_of(ranges@, new_name@),
{
    let n = ranges.len();
    let mut out: Vec<TextEdit> = Vec::new();
    let mut i: usize = 0;
    proof {
        assert(edits_view(out@) =~= spec_edits_of(ranges@, new_name@).subrange(0, 0));
    }
    while i < n
        invariant
            n == ranges@.len(),
            i <= n,
            out@.len() == i,
            edits_view(out@) == spec_edits_of(ranges@, new_name@).subrange(0, i as int),
        decreases n - i,
    {
        let mut t = String::new();
        t.append(new_name);
        proof {
            assert(t@ =~= new_name@);
        }
        let ghost pre = out@;
        out.push(TextEdit { range: ranges[i], new_text: t });
        proof {
            assert(edits_view(out@) =~= edits_view(pre).push((out@.last().range, out@.last().new_text@)));
            assert(edits_view(out@) =~= spec_edits_of(ranges@, new_name@).subrange(0, i + 1));
        }
        i += 1;
    }
    proof {
        assert(spec_edits_of(ranges@, new_name@).subrange(0, n as int) =~= spec_edits_of(
            ranges@,
            new_name@,
        ));
    }
    out
}

/// The edits a rename produces: one per reference of the resolved token,
/// each writing `new_name`; system function names produce none.
pub fn compute_renames(
    tree: &SyntaxTree,
    source: &str,
    line: usize,
    character: usize,
    new_name: &str,
    table: &BuiltinTable,
) -> (r: Vec<TextEdit>)
    requires
        tree.wf(),
    ensures
        edits_view(r@) == match spec_resolve_rename(*tree, line as int, character as int) {
            None => Seq::<(Range, Seq<char>)>::empty(),
            Some(i) => {
                let text = spec_node_text(tree.spec_nodes()[i], source@);
                if tree.spec_nodes()[i].kind@ == "function_name"@
                    && crate::builtins::builtin_filter(
                    table.spec_funcs(),
                    lower_seq(text),
                ).len() > 0 {
                    Seq::<(Range, Seq<char>)>::empty()
                } else {
                    spec_edits_of(spec_renameable_refs(*tree, source@, i), new_name@)
                }
            },
        },
{
    let node = match resolve_rename_node(tree, line, character) {
        Some(n) => n,
        None => {
            let r: Vec<TextEdit> = Vec::new();
            proof {
                assert(edits_view(r@) =~= Seq::<(Range, Seq<char>)>::empty());
            }
            return r;
        },
    };
    let text = crate::tree::node_text(tree, node, source);
    let ranges: Vec<Range> = if tree.kind_is(node, "function_name") {
        let overloads = table.lookup(text.as_str());
        if overloads.len() > 0 {
            let r: Vec<TextEdit> = Vec::new();
            proof {
                assert(crate::builtins::deref_builtins(overloads@).len() > 0);
                assert(edits_view(r@) =~= Seq::<(Range, Seq<char>)>::empty());
            }
            return r;
        }
        proof {
            assert(crate::builtins::deref_builtins(overloads@).len() == 0);
        }
        find_function_refs_by_name(text.as_str(), tree, source)
    } else if tree.kind_is(node, "label") || tree.kind_is(node, "label_reference") {
        let name = strip_trailing_char(text.as_str(), ':');
        find_label_refs_by_name(name, tree, source)
    } else {
        find_variable_refs(tree, source, node)
    };
    let r = edits_for_ranges(&ranges, new_name);
    proof {
        assert(ranges@ == spec_renameable_refs(*tree, source@, node as int));
    }
    r
}

/// The references a rename rewrites from a given token.
pub open spec fn spec_renameable_refs(tree: SyntaxTree, src: Seq<char>, i: int) -> Seq<Range> {
    let kind = tree.spec_nodes()[i].kind@;
    let text = spec_node_text(tree.spec_nodes()[i], src);
    if kind == "function_name"@ {
        spec_function_refs(tree, src, text, 0)
    } else if kind == "label"@ || kind == "label_reference"@ {
        spec_label_refs(tree, src, spec_strip_trailing_char(text, ':'), 0)
    } else if kind == "stringidentifier"@ || kind == "numberidentifier"@ {
        match tree.spec_nodes()[i].parent {
            None => Seq::<Range>::empty(),
            Some(p) => {
                let parent_kind = tree.spec_nodes()[p as int].kind@;
                let ranges = crate::references::spec_function_ranges(tree, 0, None);
                crate::references::spec_occ_ranges(
                    tree,
                    crate::references::spec_scope_filtered(
                        tree,
                        src,
                        parent_kind,
                        text,
                        ranges,
                        crate::references::spec_cursor_param(
                            tree,
                            src,
                            parent_kind,
                            text,
                            ranges,
                            tree.spec_nodes()[i].start_byte as int,
                        ),
                        crate::references::spec_ident_occurrences(tree, src, parent_kind, text, 0),
                    ),
                )
            },
        }
    } else {
        Seq::<Range>::empty()
    }
}

} // verus!
