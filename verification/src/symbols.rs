//! Document symbols: functions, dim-declared variables and labels.

use vstd::prelude::*;
use vstd::string::*;

use crate::references::{shrink_label, spec_shrink_label};
use crate::tree::{spec_node_range, spec_node_text, SyntaxTree};
use crate::types::Range;

verus! {

/// The symbol kinds a document reports.
#[derive(Clone, Copy, PartialEq, Eq, Structural, Debug)]
pub enum SymbolKind {
    Function,
    Variable,
    Label,
}

/// One document symbol.
pub struct DocumentSymbol {
    pub name: String,
    /// A short classifying word, e.g. `function` or `string`.
    pub detail: String,
    pub kind: SymbolKind,
    pub range: Range,
    pub selection_range: Range,
}

pub ghost struct SymbolV {
    pub name: Seq<char>,
    pub detail: Seq<char>,
    pub kind: SymbolKind,
    pub range: Range,
    pub selection_range: Range,
}

pub open spec fn symbol_view(s: DocumentSymbol) -> SymbolV {
    SymbolV {
        name: s.name@,
        detail: s.detail@,
        kind: s.kind,
        range: s.range,
        selection_range: s.selection_range,
    }
}

pub open spec fn symbols_view(v: Seq<DocumentSymbol>) -> Seq<SymbolV> {
    v.map_values(|s: DocumentSymbol| symbol_view(s))
}

/// Order on symbols: by the start position of the full range.
pub open spec fn symbol_le(a: SymbolV, b: SymbolV) -> bool {
    a.range.start.line < b.range.start.line || (a.range.start.line == b.range.start.line
        && a.range.start.character <= b.range.start.character)
}

/// Stable insertion into a position-sorted symbol list.
pub open spec fn spec_symbol_insert(s: Seq<SymbolV>, x: SymbolV) -> Seq<SymbolV>
    decreases s.len(),
{
    if s.len() == 0 {
        seq![x]
    } else if symbol_le(s.last(), x) {
        s.push(x)
    } else {
        spec_symbol_insert(s.drop_last(), x).push(s.last())
    }
}

/// The symbols sorted by start position, stably.
pub open spec fn spec_sort_symbols(s: Seq<SymbolV>) -> Seq<SymbolV>
    decreases s.len(),
{
    if s.len() == 0 {
        Seq::<SymbolV>::empty()
    } else {
        spec_symbol_insert(spec_sort_symbols(s.drop_last()), s.last())
    }
}

proof fn lemma_symbol_insert_at(s: Seq<SymbolV>, x: SymbolV, pos: int)
    requires
        0 <= pos <= s.len(),
        forall|q: int| pos <= q < s.len() ==> !symbol_le(#[trigger] s[q], x),
        pos > 0 ==> symbol_le(s[pos - 1], x),
    ensures
        spec_symbol_insert(s, x) == s.subrange(0, pos) + seq![x] + s.subrange(pos, s.len() as int),
    decreases s.len(),
{
    if s.len() == 0 {
        assert(spec_symbol_insert(s, x) =~= s.subrange(0, 0) + seq![x] + s.subrange(0, 0));
    } else if symbol_le(s.last(), x) {
        assert(pos == s.len());
        assert(spec_symbol_insert(s, x) =~= s.subrange(0, pos) + seq![x] + s.subrange(
            pos,
            s.len() as int,
        ));
    } else {
        assert(pos < s.len());
        lemma_symbol_insert_at(s.drop_last(), x, pos);
        assert(spec_symbol_insert(s, x) =~= s.subrange(0, pos) + seq![x] + s.subrange(
            pos,
            s.len() as int,
        ));
    }
}

fn clone_symbol(s: &DocumentSymbol) -> (r: DocumentSymbol)
    ensures
        symbol_view(r) == symbol_view(*s),
{
    DocumentSymbol {
        name: s.name.clone(),
        detail: s.detail.clone(),
        kind: s.kind,
        range: s.range,
        selection_range: s.selection_range,
    }
}

/// Sort symbols by start position, keeping the original order of equals.
fn sort_symbols(syms: &Vec<DocumentSymbol>) -> (r: Vec<DocumentSymbol>)
    ensures
        symbols_view(r@) == spec_sort_symbols(symbols_view(syms@)),
{
    let ghost sall = symbols_view(syms@);
    let n = syms.len();
    let mut out: Vec<DocumentSymbol> = Vec::new();
    let mut i: usize = 0;
    proof {
        assert(sall.subrange(0, 0).len() == 0);
        assert(symbols_view(out@) =~= spec_sort_symbols(sall.subrange(0, 0)));
    }
    while i < n
        invariant
            sall == symbols_view(syms@),
            n == syms@.len(),
            i <= n,
            symbols_view(out@) == spec_sort_symbols(sall.subrange(0, i as int)),
        decreases n - i,
    {
        let x = clone_symbol(&syms[i]);
        let ghost xv = symbol_view(x);
        let ghost sorted = symbols_view(out@);
        let mut pos: usize = out.len();
        while pos > 0 && !(out[pos - 1].range.start.line < x.range.start.line || (out[pos
            - 1].range.start.line == x.range.start.line && out[pos - 1].range.start.character
            <= x.range.start.character))
            invariant
                sorted == symbols_view(out@),
                xv == symbol_view(x),
                pos <= out@.len(),
                forall|q: int| pos <= q < sorted.len() ==> !symbol_le(#[trigger] sorted[q], xv),
            decreases pos,
        {
            proof {
                assert(sorted[pos - 1] == symbol_view(out@[pos - 1]));
            }
            pos -= 1;
        }
        out.insert(pos, x);
        proof {
            lemma_symbol_insert_at(sorted, xv, pos as int);
            assert(symbols_view(out@) =~= sorted.subrange(0, pos as int) + seq![xv]
                + sorted.subrange(pos as int, sorted.len() as int));
            assert(symbols_view(out@) == spec_symbol_insert(sorted, xv));
            assert(sall.subrange(0, i + 1).drop_last() =~= sall.subrange(0, i as int));
            assert(sall.subrange(0, i + 1).last() == sall[i as int]);
            assert(sall[i as int] == symbol_view(syms@[i as int]));
        }
        i += 1;
    }
    proof {
        assert(sall.subrange(0, n as int) =~= sall);
    }
    out
}

/// The function symbols: one per named `def_statement`, the whole span
/// with the name token as selection.
pub open spec fn spec_function_symbols(tree: SyntaxTree, src: Seq<char>, i: int) -> Seq<SymbolV>
    decreases tree.spec_len() - i when tree.wf() && 0 <= i <= tree.spec_len()
{
    if i >= tree.spec_len() {
        Seq::<SymbolV>::empty()
    } else {
        let rest = spec_function_symbols(tree, src, i + 1);
        if tree.spec_nodes()[i].kind@ == "def_statement"@ {
            match crate::diagnostics::spec_fn_name_node(tree, i, 0) {
                Some(g) => {
                    let name = spec_node_text(tree.spec_nodes()[g], src);
                    if name.len() > 0 {
                        seq![
                            SymbolV {
                                name: name,
                                detail: "function"@,
                                kind: SymbolKind::Function,
                                range: spec_node_range(tree.spec_nodes()[i]),
                                selection_range: spec_node_range(tree.spec_nodes()[g]),
                            },
                        ] + rest
                    } else {
                        rest
                    }
                },
                None => rest,
            }
        } else {
            rest
        }
    }
}

/// The label symbols: one per `label` node with a non-empty name, the
/// selection range shrunk past the colon.
pub open spec fn spec_label_symbols(tree: SyntaxTree, src: Seq<char>, i: int) -> Seq<SymbolV>
    decreases tree.spec_len() - i when tree.wf() && 0 <= i <= tree.spec_len()
{
    if i >= tree.spec_len() {
        Seq::<SymbolV>::empty()
    } else {
        let rest = spec_label_symbols(tree, src, i + 1);
        if tree.spec_nodes()[i].kind@ == "label"@ {
            let name = crate::references::spec_strip_trailing_char(
                spec_node_text(tree.spec_nodes()[i], src),
                ':',
            );
            if name.len() > 0 {
                seq![
                    SymbolV {
                        name: name,
                        detail: "label"@,
                        kind: SymbolKind::Label,
                        range: spec_node_range(tree.spec_nodes()[i]),
                        selection_range: spec_shrink_label(
                            spec_node_range(tree.spec_nodes()[i]),
                        ),
                    },
                ] + rest
            } else {
                rest
            }
        } else {
            rest
        }
    }
}

/// Is the node a `name`-field child of a declared variable reference or
/// array inside a `dim_statement`?
pub open spec fn spec_dim_symbol_at(tree: SyntaxTree, i: int) -> Option<Seq<char>>
    recommends
        tree.wf(),
        0 <= i < tree.spec_len(),
{
    let n = tree.spec_nodes()[i];
    match n.parent {
        None => None,
        Some(p) => {
            let pk = tree.spec_nodes()[p as int].kind@;
            if n.field@ != "name"@ {
                None
            } else if !crate::tree::spec_inside(tree, p as int, "dim_statement"@) {
                None
            } else if pk == "stringreference"@ {
                Some("string"@)
            } else if pk == "numberreference"@ {
                Some("number"@)
            } else if pk == "stringarray"@ {
                Some("stringarray"@)
            } else if pk == "numberarray"@ {
                Some("numberarray"@)
            } else {
                None
            }
        },
    }
}

/// The dim-declared variable symbols in arena order.
pub open spec fn spec_dim_symbols(tree: SyntaxTree, src: Seq<char>, i: int) -> Seq<SymbolV>
    decreases tree.spec_len() - i when tree.wf() && 0 <= i <= tree.spec_len()
{
    if i >= tree.spec_len() {
        Seq::<SymbolV>::empty()
    } else {
        let rest = spec_dim_symbols(tree, src, i + 1);
        match spec_dim_symbol_at(tree, i) {
            Some(detail) => {
                let name = spec_node_text(tree.spec_nodes()[i], src);
                if name.len() > 0 {
                    seq![
                        SymbolV {
                            name: name,
                            detail: detail,
                            kind: SymbolKind::Variable,
                            range: spec_node_range(tree.spec_nodes()[i]),
                            selection_range: spec_node_range(tree.spec_nodes()[i]),
                        },
                    ] + rest
                } else {
                    rest
                }
            },
            None => rest,
        }
    }
}

/// The function, variable and label symbols of a document, sorted by
/// start position; symbols at one position keep the order function,
/// variable, label, each group in document order.
pub fn collect_document_symbols(tree: &SyntaxTree, source: &str) -> (r: Vec<DocumentSymbol>)
    requires
        tree.wf(),
    ensures
        symbols_view(r@) == spec_sort_symbols(
            spec_function_symbols(*tree, source@, 0) + spec_dim_symbols(*tree, source@, 0)
                + spec_label_symbols(*tree, source@, 0),
        ),
{
    let n = tree.len();
    let mut out: Vec<DocumentSymbol> = Vec::new();
    // Functions
    let mut i: usize = 0;
    proof {
        assert(symbols_view(out@) + spec_function_symbols(*tree, source@, 0)
            =~= spec_function_symbols(*tree, source@, 0));
    }
    while i < n
        invariant
            tree.wf(),
            n == tree.spec_len(),
            i <= n,
            symbols_view(out@) + spec_function_symbols(*tree, source@, i as int)
                == spec_function_symbols(*tree, source@, 0),
        decreases n - i,
    {
        let ghost rest = spec_function_symbols(*tree, source@, i as int);
        if tree.kind_is(i, "def_statement") {
            match crate::diagnostics::fn_name_node(tree, i) {
                Some(g) => {
                    let name = crate::tree::node_text(tree, g, source);
                    if name.as_str().unicode_len() > 0 {
                        let mut detail = String::new();
                        detail.append("function");
                        let ghost pre = out@;
                        out.push(
                            DocumentSymbol {
                                name,
                                detail,
                                kind: SymbolKind::Function,
                                range: crate::tree::node_range(tree.node(i)),
                                selection_range: crate::tree::node_range(tree.node(g)),
                            },
                        );
                        proof {
                            assert(symbols_view(out@) =~= symbols_view(pre).push(
                                symbol_view(out@.last()),
                            ));
                            assert(symbol_view(out@.last()).detail =~= "function"@);
                            assert(rest == seq![symbol_view(out@.last())]
                                + spec_function_symbols(*tree, source@, i + 1));
                            assert(symbols_view(pre).push(symbol_view(out@.last()))
                                + spec_function_symbols(*tree, source@, i + 1) =~= symbols_view(
                                pre,
                            ) + rest);
                        }
                    }
                },
                None => {},
            }
        }
        i += 1;
    }
    // Dim-declared variables
    let ghost base_vars = symbols_view(out@);
    let mut i: usize = 0;
    proof {
        assert(symbols_view(out@) + spec_dim_symbols(*tree, source@, 0) =~= base_vars
            + spec_dim_symbols(*tree, source@, 0));
    }
    while i < n
        invariant
            tree.wf(),
            n == tree.spec_len(),
            i <= n,
            symbols_view(out@) + spec_dim_symbols(*tree, source@, i as int) == base_vars
                + spec_dim_symbols(*tree, source@, 0),
        decreases n - i,
    {
        let ghost rest = spec_dim_symbols(*tree, source@, i as int);
        let mut detail_opt: Option<&'static str> = None;
        let is_name_field = crate::text::str_eq(tree.node(i).field.as_str(), "name");
        if is_name_field {
            match tree.node(i).parent {
                Some(p) => {
                    if crate::tree::has_ancestor_of_kind(tree, p, "dim_statement") {
                        if tree.kind_is(p, "stringreference") {
                            detail_opt = Some("string");
                        } else if tree.kind_is(p, "numberreference") {
                            detail_opt = Some("number");
                        } else if tree.kind_is(p, "stringarray") {
                            detail_opt = Some("stringarray");
                        } else if tree.kind_is(p, "numberarray") {
                            detail_opt = Some("numberarray");
                        }
                    }
                },
                None => {},
            }
        }
        proof {
            match detail_opt {
                Some(d) => {
                    assert(spec_dim_symbol_at(*tree, i as int) == Some(d@));
                },
                None => {
                    assert(spec_dim_symbol_at(*tree, i as int) is None);
                },
            }
        }
        match detail_opt {
            Some(d) => {
                let name = crate::tree::node_text(tree, i, source);
                if name.as_str().unicode_len() > 0 {
                    let mut detail = String::new();
                    detail.append(d);
                    let node_range = crate::tree::node_range(tree.node(i));
                    let ghost pre = out@;
                    out.push(
                        DocumentSymbol {
                            name,
                            detail,
                            kind: SymbolKind::Variable,
                            range: node_range,
                            selection_range: node_range,
                        },
                    );
                    proof {
                        assert(symbols_view(out@) =~= symbols_view(pre).push(
                            symbol_view(out@.last()),
                        ));
                        assert(symbol_view(out@.last()).detail =~= d@);
                        assert(rest == seq![symbol_view(out@.last())] + spec_dim_symbols(
                            *tree,
                            source@,
                            i + 1,
                        ));
                        assert(symbols_view(pre).push(symbol_view(out@.last()))
                            + spec_dim_symbols(*tree, source@, i + 1) =~= symbols_view(pre)
                            + rest);
                    }
                }
            },
            None => {},
        }
        i += 1;
    }
    // Labels
    let ghost base_labels = symbols_view(out@);
    let mut i: usize = 0;
    proof {
        assert(symbols_view(out@) + spec_label_symbols(*tree, source@, 0) =~= base_labels
            + spec_label_symbols(*tree, source@, 0));
    }
    while i < n
        invariant
            tree.wf(),
            n == tree.spec_len(),
            i <= n,
            symbols_view(out@) + spec_label_symbols(*tree, source@, i as int) == base_labels
                + spec_label_symbols(*tree, source@, 0),
        decreases n - i,
    {
        let ghost rest = spec_label_symbols(*tree, source@, i as int);
        if tree.kind_is(i, "label") {
            let text = crate::tree::node_text(tree, i, source);
            let name_str = crate::references::strip_trailing_char(text.as_str(), ':');
            if name_str.unicode_len() > 0 {
                let name = crate::text::substring_owned(name_str, 0, name_str.unicode_len());
                let mut detail = String::new();
                detail.append("label");
                let node_range = crate::tree::node_range(tree.node(i));
                let ghost pre = out@;
                out.push(
                    DocumentSymbol {
                        name,
                        detail,
                        kind: SymbolKind::Label,
                        range: node_range,
                        selection_range: shrink_label(node_range),
                    },
                );
                proof {
                    assert(symbols_view(out@) =~= symbols_view(pre).push(
                        symbol_view(out@.last()),
                    ));
                    assert(symbol_view(out@.last()).detail =~= "label"@);
                    assert(symbol_view(out@.last()).name =~= crate::references::spec_strip_trailing_char(
                        spec_node_text(tree.spec_nodes()[i as int], source@),
                        ':',
                    ));
                    assert(rest == seq![symbol_view(out@.last())] + spec_label_symbols(
                        *tree,
                        source@,
                        i + 1,
                    ));
                    assert(symbols_view(pre).push(symbol_view(out@.last()))
                        + spec_label_symbols(*tree, source@, i + 1) =~= symbols_view(pre) + rest);
                }
            }
        }
        i += 1;
    }
    proof {
        assert(symbols_view(out@) + Seq::<SymbolV>::empty() =~= symbols_view(out@));
    }
    sort_symbols(&out)
}

} // verus!
