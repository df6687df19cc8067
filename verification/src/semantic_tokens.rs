//! Semantic token classification and the protocol's delta encoding.

use vstd::prelude::*;
use vstd::string::*;

use crate::text::{lower_seq, spec_lines, spec_trim_end, strs_view};
use crate::tree::{spec_inside, NodeData, SyntaxTree};

verus! {

/// One raw token: absolute line and column, with the legend's type index
/// and modifier bitset.
#[derive(Clone, Copy, PartialEq, Eq, Structural, Debug)]
pub struct RawToken {
    pub line: u32,
    pub start: u32,
    pub length: u32,
    pub token_type: u32,
    pub modifiers: u32,
}

/// One delta-encoded token of the wire stream.
#[derive(Clone, Copy, PartialEq, Eq, Structural, Debug)]
pub struct SemanticToken {
    pub delta_line: u32,
    pub delta_start: u32,
    pub length: u32,
    pub token_type: u32,
    pub token_modifiers_bitset: u32,
}

/// Document order on raw tokens: by line, then by column.
pub open spec fn token_le(a: RawToken, b: RawToken) -> bool {
    a.line < b.line || (a.line == b.line && a.start <= b.start)
}

/// Stable insertion into a sorted token list.
pub open spec fn spec_token_insert(s: Seq<RawToken>, x: RawToken) -> Seq<RawToken>
    decreases s.len(),
{
    if s.len() == 0 {
        seq![x]
    } else if token_le(s.last(), x) {
        s.push(x)
    } else {
        spec_token_insert(s.drop_last(), x).push(s.last())
    }
}

/// The tokens sorted by position, stably.
pub open spec fn spec_sort_tokens(s: Seq<RawToken>) -> Seq<RawToken>
    decreases s.len(),
{
    if s.len() == 0 {
        Seq::<RawToken>::empty()
    } else {
        spec_token_insert(spec_sort_tokens(s.drop_last()), s.last())
    }
}

proof fn lemma_token_insert_at(s: Seq<RawToken>, x: RawToken, pos: int)
    requires
        0 <= pos <= s.len(),
        forall|q: int| pos <= q < s.len() ==> !token_le(#[trigger] s[q], x),
        pos > 0 ==> token_le(s[pos - 1], x),
    ensures
        spec_token_insert(s, x) == s.subrange(0, pos) + seq![x] + s.subrange(pos, s.len() as int),
    decreases s.len(),
{
    if s.len() == 0 {
        assert(spec_token_insert(s, x) =~= s.subrange(0, 0) + seq![x] + s.subrange(0, 0));
    } else if token_le(s.last(), x) {
        assert(pos == s.len());
        assert(spec_token_insert(s, x) =~= s.subrange(0, pos) + seq![x] + s.subrange(
            pos,
            s.len() as int,
        ));
    } else {
        assert(pos < s.len());
        lemma_token_insert_at(s.drop_last(), x, pos);
        assert(spec_token_insert(s, x) =~= s.subrange(0, pos) + seq![x] + s.subrange(
            pos,
            s.len() as int,
        ));
    }
}

/// Sort raw tokens by position, keeping the original order of equals.
pub fn sort_tokens(tokens: Vec<RawToken>) -> (r: Vec<RawToken>)
    ensures
        r@ == spec_sort_tokens(tokens@),
{
    let ghost sall = tokens@;
    let n = tokens.len();
    let mut out: Vec<RawToken> = Vec::new();
    let mut i: usize = 0;
    proof {
        assert(sall.subrange(0, 0).len() == 0);
        assert(out@ =~= spec_sort_tokens(sall.subrange(0, 0)));
    }
    while i < n
        invariant
            tokens@ == sall,
            n == sall.len(),
            i <= n,
            out@ == spec_sort_tokens(sall.subrange(0, i as int)),
        decreases n - i,
    {
        let x = tokens[i];
        let ghost sorted = out@;
        let mut pos: usize = out.len();
        while pos > 0 && !(out[pos - 1].line < x.line || (out[pos - 1].line == x.line
            && out[pos - 1].start <= x.start))
            invariant
                sorted == out@,
                pos <= out@.len(),
                forall|q: int| pos <= q < sorted.len() ==> !token_le(#[trigger] sorted[q], x),
            decreases pos,
        {
            pos -= 1;
        }
        out.insert(pos, x);
        proof {
            lemma_token_insert_at(sorted, x, pos as int);
            assert(out@ =~= sorted.subrange(0, pos as int) + seq![x] + sorted.subrange(
                pos as int,
                sorted.len() as int,
            ));
            assert(out@ == spec_token_insert(sorted, x));
            assert(sall.subrange(0, i + 1).drop_last() =~= sall.subrange(0, i as int));
            assert(sall.subrange(0, i + 1).last() == sall[i as int]);
        }
        i += 1;
    }
    proof {
        assert(sall.subrange(0, n as int) =~= sall);
    }
    out
}

/// The delta encoding of a position-sorted token list: each token's line
/// and column relative to the one before it.
pub open spec fn spec_deltas(s: Seq<RawToken>, prev_line: u32, prev_start: u32) -> Seq<
    SemanticToken,
>
    decreases s.len(),
{
    if s.len() == 0 {
        Seq::<SemanticToken>::empty()
    } else {
        let t = s[0];
        let dl: int = t.line - prev_line;
        let ds: int = if dl == 0 {
            t.start - prev_start
        } else {
            t.start as int
        };
        seq![
            SemanticToken {
                delta_line: dl as u32,
                delta_start: ds as u32,
                length: t.length,
                token_type: t.token_type,
                token_modifiers_bitset: t.modifiers,
            },
        ] + spec_deltas(s.drop_first(), t.line, t.start)
    }
}

/// Is the list sorted by position from `(prev_line, prev_start)` on?
pub open spec fn tokens_sorted_from(s: Seq<RawToken>, prev_line: u32, prev_start: u32) -> bool
    decreases s.len(),
{
    if s.len() == 0 {
        true
    } else {
        (s[0].line > prev_line || (s[0].line == prev_line && s[0].start >= prev_start))
            && tokens_sorted_from(s.drop_first(), s[0].line, s[0].start)
    }
}

/// A point at or after `(pl, ps)`.
pub open spec fn token_ge_point(t: RawToken, pl: u32, ps: u32) -> bool {
    t.line > pl || (t.line == pl && t.start >= ps)
}

/// Sortedness seen element by element.
proof fn lemma_sorted_views(s: Seq<RawToken>, pl: u32, ps: u32)
    requires
        tokens_sorted_from(s, pl, ps),
    ensures
        forall|q: int| 0 <= q < s.len() - 1 ==> token_le(#[trigger] s[q], s[q + 1]),
        forall|q: int| 0 <= q < s.len() ==> token_ge_point(#[trigger] s[q], pl, ps),
    decreases s.len(),
{
    if s.len() > 0 {
        lemma_sorted_views(s.drop_first(), s[0].line, s[0].start);
        assert forall|q: int| 0 <= q < s.len() - 1 implies token_le(#[trigger] s[q], s[q + 1]) by {
            if q > 0 {
                assert(s[q] == s.drop_first()[q - 1]);
                assert(s[q + 1] == s.drop_first()[q]);
            } else {
                if s.len() >= 2 {
                    assert(s.drop_first()[0] == s[1]);
                    assert(token_ge_point(s.drop_first()[0], s[0].line, s[0].start));
                }
            }
        }
        assert forall|q: int| 0 <= q < s.len() implies token_ge_point(#[trigger] s[q], pl, ps) by {
            if q > 0 {
                assert(s[q] == s.drop_first()[q - 1]);
                assert(token_ge_point(s.drop_first()[q - 1], s[0].line, s[0].start));
            }
        }
    }
}

/// Sortedness restricts to the prefix without the last element.
proof fn lemma_sorted_prefix(s: Seq<RawToken>, pl: u32, ps: u32)
    requires
        tokens_sorted_from(s, pl, ps),
        s.len() > 0,
    ensures
        tokens_sorted_from(s.drop_last(), pl, ps),
    decreases s.len(),
{
    if s.len() > 1 {
        assert(s.drop_last()[0] == s[0]);
        lemma_sorted_prefix(s.drop_first(), s[0].line, s[0].start);
        assert(s.drop_last().drop_first() =~= s.drop_first().drop_last());
    } else {
        assert(s.drop_last() =~= Seq::<RawToken>::empty());
    }
}

/// Appending an element at least as large keeps the list sorted.
proof fn lemma_sorted_push_ge(s: Seq<RawToken>, y: RawToken, pl: u32, ps: u32)
    requires
        tokens_sorted_from(s, pl, ps),
        s.len() == 0 || token_le(s.last(), y),
        token_ge_point(y, pl, ps),
    ensures
        tokens_sorted_from(s.push(y), pl, ps),
    decreases s.len(),
{
    reveal_with_fuel(tokens_sorted_from, 3);
    if s.len() == 0 {
        assert(s.push(y) =~= seq![y]);
        assert(seq![y].drop_first() =~= Seq::<RawToken>::empty());
    } else {
        assert(s.push(y)[0] == s[0]);
        assert(s.push(y).drop_first() =~= s.drop_first().push(y));
        if s.len() >= 2 {
            lemma_sorted_views(s.drop_first(), s[0].line, s[0].start);
            assert(s.drop_first().last() == s.last());
            assert(token_ge_point(s.last(), s[0].line, s[0].start));
        }
        assert(token_ge_point(y, s[0].line, s[0].start));
        lemma_sorted_push_ge(s.drop_first(), y, s[0].line, s[0].start);
    }
}

/// Inserting into a sorted list keeps it sorted.
proof fn lemma_insert_as_sorted(s: Seq<RawToken>, x: RawToken, pl: u32, ps: u32)
    requires
        tokens_sorted_from(s, pl, ps),
        token_ge_point(x, pl, ps),
    ensures
        tokens_sorted_from(spec_token_insert(s, x), pl, ps),
    decreases s.len(),
{
    reveal_with_fuel(tokens_sorted_from, 3);
    if s.len() == 0 {
        assert(spec_token_insert(s, x) =~= seq![x]);
        assert(seq![x].drop_first() =~= Seq::<RawToken>::empty());
    } else if token_le(s.last(), x) {
        lemma_sorted_push_ge(s, x, pl, ps);
    } else {
        let d = s.drop_last();
        lemma_sorted_prefix(s, pl, ps);
        lemma_insert_as_sorted(d, x, pl, ps);
        lemma_sorted_views(s, pl, ps);
        // The inserted front part ends at x or at the old last of d, both
        // at most the removed last element.
        if d.len() == 0 {
            assert(spec_token_insert(d, x) =~= seq![x]);
            assert(token_le(x, s.last()));
        } else if token_le(d.last(), x) {
            assert(spec_token_insert(d, x) == d.push(x));
            assert(spec_token_insert(d, x).last() == x);
            assert(token_le(x, s.last()));
        } else {
            assert(spec_token_insert(d, x) == spec_token_insert(d.drop_last(), x).push(d.last()));
            assert(spec_token_insert(d, x).last() == d.last());
            assert(d.last() == s[s.len() - 2]);
            assert(token_le(s[s.len() - 2], s[s.len() - 1]));
        }
        assert(token_ge_point(s[s.len() - 1], pl, ps));
        lemma_sorted_push_ge(
            spec_token_insert(d, x),
            s.last(),
            pl,
            ps,
        );
        assert(spec_token_insert(s, x) == spec_token_insert(d, x).push(s.last()));
        assert(tokens_sorted_from(spec_token_insert(s, x), pl, ps));
    }
}

proof fn lemma_sort_sorted_all(s: Seq<RawToken>)
    ensures
        tokens_sorted_from(spec_sort_tokens(s), 0, 0),
    decreases s.len(),
{
    if s.len() > 0 {
        lemma_sort_sorted_all(s.drop_last());
        lemma_insert_as_sorted(spec_sort_tokens(s.drop_last()), s.last(), 0, 0);
    }
}

/// Sort the raw tokens and delta-encode them for the wire.
pub fn encode_deltas(tokens: Vec<RawToken>) -> (r: Vec<SemanticToken>)
    ensures
        r@ == spec_deltas(spec_sort_tokens(tokens@), 0, 0),
{
    let ghost orig = tokens@;
    let sorted = sort_tokens(tokens);
    proof {
        lemma_sort_sorted_all(orig);
    }
    let n = sorted.len();
    let mut out: Vec<SemanticToken> = Vec::new();
    let mut prev_line: u32 = 0;
    let mut prev_start: u32 = 0;
    let mut i: usize = 0;
    proof {
        assert(sorted@.skip(0) =~= sorted@);
    }
    while i < n
        invariant
            n == sorted@.len(),
            i <= n,
            tokens_sorted_from(sorted@.skip(i as int), prev_line, prev_start),
            out@ + spec_deltas(sorted@.skip(i as int), prev_line, prev_start) == spec_deltas(
                sorted@,
                0,
                0,
            ),
        decreases n - i,
    {
        let ghost rest = spec_deltas(sorted@.skip(i as int), prev_line, prev_start);
        proof {
            assert(sorted@.skip(i as int)[0] == sorted@[i as int]);
            assert(sorted@.skip(i as int).drop_first() =~= sorted@.skip(i + 1));
        }
        let t = sorted[i];
        let dl = t.line - prev_line;
        let ds = if dl == 0 {
            t.start - prev_start
        } else {
            t.start
        };
        let ghost pre = out@;
        out.push(
            SemanticToken {
                delta_line: dl,
                delta_start: ds,
                length: t.length,
                token_type: t.token_type,
                token_modifiers_bitset: t.modifiers,
            },
        );
        proof {
            assert(out@ =~= pre.push(out@.last()));
            assert(rest == seq![out@.last()] + spec_deltas(
                sorted@.skip(i + 1),
                sorted@[i as int].line,
                sorted@[i as int].start,
            ));
            assert(out@ + spec_deltas(sorted@.skip(i + 1), sorted@[i as int].line, sorted@[i as int].start)
                =~= pre + rest);
        }
        prev_line = t.line;
        prev_start = t.start;
        i += 1;
    }
    proof {
        assert(spec_deltas(sorted@.skip(n as int), prev_line, prev_start).len() == 0);
        assert(out@ + Seq::<SemanticToken>::empty() =~= out@);
    }
    out
}

/// The legend index and modifier bitset of one node, given the parameter
/// and dim contexts; `None` for a node that gets no token of its own.
pub open spec fn spec_classify(tree: SyntaxTree, i: int, in_param: bool, in_dim: bool) -> Option<
    (u32, u32),
> {
    let n = tree.spec_nodes()[i];
    let kind = n.kind@;
    if kind == "function_name"@ {
        let m: u32 = match n.parent {
            Some(p) => {
                let pk = tree.spec_nodes()[p as int].kind@;
                if pk == "numeric_function_definition"@ || pk == "string_function_definition"@ {
                    1u32
                } else if pk == "numeric_system_function"@ || pk == "string_system_function"@ {
                    2u32
                } else {
                    0u32
                }
            },
            None => 0u32,
        };
        Some((0u32, m))
    } else if kind == "numberidentifier"@ || kind == "stringidentifier"@ {
        if in_param {
            Some((2u32, 0u32))
        } else {
            Some((1u32, if in_dim { 1u32 } else { 0u32 }))
        }
    } else if kind == "statement"@ && !n.named {
        Some((3u32, 0u32))
    } else if kind == "keyword"@ && !n.named {
        Some((3u32, 8u32))
    } else if kind == "comment"@ || kind == "multiline_comment"@ || kind == "doc_comment"@ {
        Some((4u32, 0u32))
    } else if kind == "string"@ || kind == "template_string"@ {
        Some((5u32, 0u32))
    } else if kind == "number"@ || kind == "int"@ {
        Some((6u32, 0u32))
    } else if (kind == "0"@ || kind == "1"@) && !n.named && spec_inside(
        tree,
        i,
        "option_statement"@,
    ) {
        Some((6u32, 0u32))
    } else if kind == "line_number"@ {
        Some((10u32, 0u32))
    } else if kind == "label"@ {
        Some((7u32, 4u32))
    } else if kind == "label_reference"@ || kind == "line_reference"@ {
        Some((7u32, 0u32))
    } else if kind == "error_condition"@ {
        Some((8u32, 0u32))
    } else if kind == "*"@ && !n.named && in_dim {
        Some((9u32, 0u32))
    } else {
        None
    }
}

/// Kinds whose whole text is one semantic unit: no recursion below them.
pub open spec fn spec_leaf_kind(kind: Seq<char>) -> bool {
    ||| kind == "comment"@
    ||| kind == "multiline_comment"@
    ||| kind == "doc_comment"@
    ||| kind == "string"@
    ||| kind == "template_string"@
    ||| kind == "number"@
    ||| kind == "line_number"@
    ||| kind == "label"@
    ||| kind == "label_reference"@
    ||| kind == "line_reference"@
    ||| kind == "error_condition"@
}

/// The keyword token for the hidden `mat` prefix of an array node or mat
/// statement: the source text before the first child, trailing whitespace
/// dropped, read case-insensitively.
pub open spec fn spec_mat_tokens(tree: SyntaxTree, src: Seq<char>, i: int) -> Seq<RawToken> {
    let n = tree.spec_nodes()[i];
    if n.kind@ == "numberarray"@ || n.kind@ == "stringarray"@ || n.kind@ == "mat_statement"@ {
        if n.children@.len() == 0 {
            Seq::<RawToken>::empty()
        } else {
            let c = tree.spec_nodes()[n.children@[0] as int];
            if c.start_byte <= n.start_byte {
                Seq::<RawToken>::empty()
            } else {
                let a = if n.start_byte as int <= src.len() {
                    n.start_byte as int
                } else {
                    src.len() as int
                };
                let b = if c.start_byte as int <= src.len() {
                    c.start_byte as int
                } else {
                    src.len() as int
                };
                let prefix = if a <= b {
                    src.subrange(a, b)
                } else {
                    Seq::<char>::empty()
                };
                if lower_seq(spec_trim_end(prefix)) == lower_seq("mat"@) {
                    seq![
                        RawToken {
                            line: n.start_row as u32,
                            start: n.start_col as u32,
                            length: 3u32,
                            token_type: 3u32,
                            modifiers: 8u32,
                        },
                    ]
                } else {
                    Seq::<RawToken>::empty()
                }
            }
        }
    } else {
        Seq::<RawToken>::empty()
    }
}

/// The tokens of one multi-line span, one per line: the first line from
/// the start column, middle lines whole, the last line to the end column.
pub open spec fn spec_multiline(
    lines: Seq<Seq<char>>,
    row: int,
    remaining: nat,
    start_row: int,
    start_col: int,
    end_row: int,
    end_col: int,
    tt: u32,
    m: u32,
) -> Seq<RawToken>
    decreases remaining,
{
    if remaining == 0 {
        Seq::<RawToken>::empty()
    } else {
        let cs: int = if row == start_row {
            start_col
        } else {
            0
        };
        let ce: int = if row == end_row {
            end_col
        } else if 0 <= row < lines.len() {
            lines[row].len() as int
        } else {
            0
        };
        (if ce > cs {
            seq![
                RawToken {
                    line: row as u32,
                    start: cs as u32,
                    length: (ce - cs) as u32,
                    token_type: tt,
                    modifiers: m,
                },
            ]
        } else {
            Seq::<RawToken>::empty()
        }) + spec_multiline(
            lines,
            row + 1,
            (remaining - 1) as nat,
            start_row,
            start_col,
            end_row,
            end_col,
            tt,
            m,
        )
    }
}

/// The tokens covering one node's span: a single token on one line, one
/// token per line otherwise.
pub open spec fn spec_span_tokens(lines: Seq<Seq<char>>, n: NodeData, tt: u32, m: u32) -> Seq<
    RawToken,
> {
    if n.start_row == n.end_row {
        if n.end_col > n.start_col {
            seq![
                RawToken {
                    line: n.start_row as u32,
                    start: n.start_col as u32,
                    length: (n.end_col - n.start_col) as u32,
                    token_type: tt,
                    modifiers: m,
                },
            ]
        } else {
            Seq::<RawToken>::empty()
        }
    } else if n.end_row > n.start_row {
        spec_multiline(
            lines,
            n.start_row as int,
            (n.end_row - n.start_row + 1) as nat,
            n.start_row as int,
            n.start_col as int,
            n.end_row as int,
            n.end_col as int,
            tt,
            m,
        )
    } else {
        Seq::<RawToken>::empty()
    }
}

/// Whether a string node has a named `range` child (a substring suffix
/// such as an index range after the closing quote).
pub open spec fn spec_has_named_range_child(tree: SyntaxTree, i: int) -> bool {
    let ch = tree.spec_nodes()[i].children@;
    exists|k: int|
        0 <= k < ch.len() && (#[trigger] tree.spec_nodes()[ch[k] as int]).named
            && tree.spec_nodes()[ch[k] as int].kind@ == "range"@
}

/// The token for the quoted part of a string node that carries a range
/// suffix: it ends where the first `range` child starts.
pub open spec fn spec_quoted_tokens(tree: SyntaxTree, i: int, tt: u32, m: u32) -> Seq<RawToken> {
    let n = tree.spec_nodes()[i];
    match crate::extract::spec_child_of_kinds(tree, i, 0, "range"@, "range"@) {
        Some(rc) => {
            let c = tree.spec_nodes()[rc];
            if n.start_row == c.start_row && c.start_col > n.start_col {
                seq![
                    RawToken {
                        line: n.start_row as u32,
                        start: n.start_col as u32,
                        length: (c.start_col - n.start_col) as u32,
                        token_type: tt,
                        modifiers: m,
                    },
                ]
            } else {
                Seq::<RawToken>::empty()
            }
        },
        None => Seq::<RawToken>::empty(),
    }
}

/// The raw tokens of the subtree below `i`, in walk order.
pub open spec fn spec_br_walk(
    tree: SyntaxTree,
    src: Seq<char>,
    i: int,
    in_param: bool,
    in_dim: bool,
) -> Seq<RawToken>
    decreases tree.spec_len() - i, tree.spec_nodes()[i].children@.len() + 1
        when tree.wf() && 0 <= i < tree.spec_len()
{
    let n = tree.spec_nodes()[i];
    let kind = n.kind@;
    let cip = in_param || kind == "parameter_list"@ || kind == "required_parameter"@ || kind
        == "optional_parameter"@ || kind == "parameter"@;
    let cid = in_dim || kind == "dim_statement"@;
    let mat = spec_mat_tokens(tree, src, i);
    match spec_classify(tree, i, in_param, in_dim) {
        None => mat + spec_br_walk_children(tree, src, i, 0, cip, cid),
        Some(tm) => {
            if (kind == "string"@ || kind == "template_string"@) && spec_has_named_range_child(
                tree,
                i,
            ) {
                mat + spec_quoted_tokens(tree, i, tm.0, tm.1) + spec_br_walk_children(
                    tree,
                    src,
                    i,
                    0,
                    cip,
                    cid,
                )
            } else {
                mat + spec_span_tokens(spec_lines(src), n, tm.0, tm.1) + (if spec_leaf_kind(kind) {
                    Seq::<RawToken>::empty()
                } else {
                    spec_br_walk_children(tree, src, i, 0, cip, cid)
                })
            }
        },
    }
}

/// The raw tokens of the children of `i` from child position `k` on.
pub open spec fn spec_br_walk_children(
    tree: SyntaxTree,
    src: Seq<char>,
    i: int,
    k: int,
    in_param: bool,
    in_dim: bool,
) -> Seq<RawToken>
    decreases tree.spec_len() - i, tree.spec_nodes()[i].children@.len() - k
        when tree.wf() && 0 <= i < tree.spec_len() && 0 <= k
    via spec_br_walk_children_decreases
{
    let ch = tree.spec_nodes()[i].children@;
    if k >= ch.len() {
        Seq::<RawToken>::empty()
    } else {
        spec_br_walk(tree, src, ch[k] as int, in_param, in_dim) + spec_br_walk_children(
            tree,
            src,
            i,
            k + 1,
            in_param,
            in_dim,
        )
    }
}

#[via_fn]
proof fn spec_br_walk_children_decreases(
    tree: SyntaxTree,
    src: Seq<char>,
    i: int,
    k: int,
    in_param: bool,
    in_dim: bool,
) {
    if tree.wf() && 0 <= i < tree.spec_len() && 0 <= k < tree.spec_nodes()[i].children@.len() {
        assert(crate::tree::wf_nodes(tree.spec_nodes()));
        assert(0 <= i < tree.spec_nodes().len());
        assert(i < tree.spec_nodes()[i].children@[k] < tree.spec_len());
    }
}

/// All raw tokens of a document, from a walk of the whole tree.
pub open spec fn spec_br_tokens(tree: SyntaxTree, src: Seq<char>) -> Seq<RawToken> {
    spec_br_walk(tree, src, 0, false, false)
}

/// The legend entry of one node, per `spec_classify`.
fn classify_node(tree: &SyntaxTree, i: usize, in_param: bool, in_dim: bool) -> (r: Option<
    (u32, u32),
>)
    requires
        tree.wf(),
        0 <= i < tree.spec_len(),
    ensures
        r == spec_classify(*tree, i as int, in_param, in_dim),
{
    let named = tree.node(i).named;
    if tree.kind_is(i, "function_name") {
        let m: u32 = match tree.node(i).parent {
            Some(p) => {
                if tree.kind_is(p, "numeric_function_definition") || tree.kind_is(
                    p,
                    "string_function_definition",
                ) {
                    1
                } else if tree.kind_is(p, "numeric_system_function") || tree.kind_is(
                    p,
                    "string_system_function",
                ) {
                    2
                } else {
                    0
                }
            },
            None => 0,
        };
        Some((0, m))
    } else if tree.kind_is(i, "numberidentifier") || tree.kind_is(i, "stringidentifier") {
        if in_param {
            Some((2, 0))
        } else {
            Some((1, if in_dim { 1 } else { 0 }))
        }
    } else if tree.kind_is(i, "statement") && !named {
        Some((3, 0))
    } else if tree.kind_is(i, "keyword") && !named {
        Some((3, 8))
    } else if tree.kind_is(i, "comment") || tree.kind_is(i, "multiline_comment") || tree.kind_is(
        i,
        "doc_comment",
    ) {
        Some((4, 0))
    } else if tree.kind_is(i, "string") || tree.kind_is(i, "template_string") {
        Some((5, 0))
    } else if tree.kind_is(i, "number") || tree.kind_is(i, "int") {
        Some((6, 0))
    } else if (tree.kind_is(i, "0") || tree.kind_is(i, "1")) && !named
        && crate::tree::has_ancestor_of_kind(tree, i, "option_statement") {
        Some((6, 0))
    } else if tree.kind_is(i, "line_number") {
        Some((10, 0))
    } else if tree.kind_is(i, "label") {
        Some((7, 4))
    } else if tree.kind_is(i, "label_reference") || tree.kind_is(i, "line_reference") {
        Some((7, 0))
    } else if tree.kind_is(i, "error_condition") {
        Some((8, 0))
    } else if tree.kind_is(i, "*") && !named && in_dim {
        Some((9, 0))
    } else {
        None
    }
}

fn leaf_kind(tree: &SyntaxTree, i: usize) -> (r: bool)
    requires
        tree.wf(),
        0 <= i < tree.spec_len(),
    ensures
        r == spec_leaf_kind(tree.spec_nodes()[i as int].kind@),
{
    tree.kind_is(i, "comment") || tree.kind_is(i, "multiline_comment") || tree.kind_is(
        i,
        "doc_comment",
    ) || tree.kind_is(i, "string") || tree.kind_is(i, "template_string") || tree.kind_is(
        i,
        "number",
    ) || tree.kind_is(i, "line_number") || tree.kind_is(i, "label") || tree.kind_is(
        i,
        "label_reference",
    ) || tree.kind_is(i, "line_reference") || tree.kind_is(i, "error_condition")
}

/// Emit the hidden `mat` keyword token of an array node, when present.
fn emit_mat(tree: &SyntaxTree, source: &str, i: usize, out: &mut Vec<RawToken>)
    requires
        tree.wf(),
        0 <= i < tree.spec_len(),
    ensures
        final(out)@ == old(out)@ + spec_mat_tokens(*tree, source@, i as int),
{
    let ghost toks = spec_mat_tokens(*tree, source@, i as int);
    let is_arr = tree.kind_is(i, "numberarray") || tree.kind_is(i, "stringarray") || tree.kind_is(
        i,
        "mat_statement",
    );
    if !is_arr {
        proof {
            assert(out@ + toks =~= out@);
        }
        return ;
    }
    if tree.node(i).children.len() == 0 {
        proof {
            assert(out@ + toks =~= out@);
        }
        return ;
    }
    let c = tree.node(i).children[0];
    let nsb = tree.node(i).start_byte;
    let csb = tree.node(c).start_byte;
    if csb <= nsb {
        proof {
            assert(out@ + toks =~= out@);
        }
        return ;
    }
    let len = source.unicode_len();
    let a = if nsb <= len {
        nsb
    } else {
        len
    };
    let b = if csb <= len {
        csb
    } else {
        len
    };
    let prefix = if a <= b {
        crate::text::substring_owned(source, a, b)
    } else {
        String::new()
    };
    let trimmed = crate::text::trim_end_str(prefix.as_str());
    if crate::text::eq_ignore_case(trimmed, "mat") {
        let t = RawToken {
            line: #[verifier::truncate] (tree.node(i).start_row as u32),
            start: #[verifier::truncate] (tree.node(i).start_col as u32),
            length: 3,
            token_type: 3,
            modifiers: 8,
        };
        out.push(t);
        proof {
            assert(toks =~= seq![t]);
            assert(out@ =~= old(out)@ + toks);
        }
    } else {
        proof {
            assert(out@ + toks =~= out@);
        }
    }
}

/// Emit the span tokens of node `i`, one per covered line.
fn emit_span(
    tree: &SyntaxTree,
    lines: &Vec<String>,
    source: &str,
    i: usize,
    tt: u32,
    m: u32,
    out: &mut Vec<RawToken>,
)
    requires
        tree.wf(),
        0 <= i < tree.spec_len(),
        strs_view(lines@) == spec_lines(source@),
    ensures
        final(out)@ == old(out)@ + spec_span_tokens(
            spec_lines(source@),
            tree.spec_nodes()[i as int],
            tt,
            m,
        ),
{
    let ghost n = tree.spec_nodes()[i as int];
    let ghost toks = spec_span_tokens(spec_lines(source@), n, tt, m);
    let sr = tree.node(i).start_row;
    let sc = tree.node(i).start_col;
    let er = tree.node(i).end_row;
    let ec = tree.node(i).end_col;
    if sr == er {
        if ec > sc {
            let t = RawToken {
                line: #[verifier::truncate] (sr as u32),
                start: #[verifier::truncate] (sc as u32),
                length: #[verifier::truncate] ((ec - sc) as u32),
                token_type: tt,
                modifiers: m,
            };
            out.push(t);
            proof {
                assert(toks =~= seq![t]);
                assert(out@ =~= old(out)@ + toks);
            }
        } else {
            proof {
                assert(out@ + toks =~= out@);
            }
        }
        return ;
    }
    if er < sr {
        proof {
            assert(out@ + toks =~= out@);
        }
        return ;
    }
    let span: usize = er - sr;
    let mut k: usize = 0;
    proof {
        assert(toks == spec_multiline(
            spec_lines(source@),
            sr as int,
            (span + 1) as nat,
            sr as int,
            sc as int,
            er as int,
            ec as int,
            tt,
            m,
        ));
    }
    while k < span
        invariant
            tree.wf(),
            strs_view(lines@) == spec_lines(source@),
            span == er - sr,
            sr < er,
            k <= span,
            toks == spec_span_tokens(spec_lines(source@), tree.spec_nodes()[i as int], tt, m),
            sr == tree.spec_nodes()[i as int].start_row && sc == tree.spec_nodes()[i as int].start_col,
            er == tree.spec_nodes()[i as int].end_row && ec == tree.spec_nodes()[i as int].end_col,
            out@ + spec_multiline(
                spec_lines(source@),
                sr + k as int,
                (span + 1 - k) as nat,
                sr as int,
                sc as int,
                er as int,
                ec as int,
                tt,
                m,
            ) == old(out)@ + toks,
        decreases span + 1 - k,
    {
        let row: usize = sr + k;
        let cs: usize = if row == sr {
            sc
        } else {
            0
        };
        let ce: usize = if row == er {
            ec
        } else if row < lines.len() {
            lines[row].as_str().unicode_len()
        } else {
            0
        };
        proof {
            if row != er && row < lines@.len() {
                assert(strs_view(lines@)[row as int] == lines@[row as int]@);
            }
        }
        if ce > cs {
            let t = RawToken {
                line: #[verifier::truncate] (row as u32),
                start: #[verifier::truncate] (cs as u32),
                length: #[verifier::truncate] ((ce - cs) as u32),
                token_type: tt,
                modifiers: m,
            };
            out.push(t);
        }
        k += 1;
    }
    // The last covered line, up to the end column.
    let ghost tailm = spec_multiline(
        spec_lines(source@),
        er as int,
        1nat,
        sr as int,
        sc as int,
        er as int,
        ec as int,
        tt,
        m,
    );
    proof {
        assert(spec_multiline(
            spec_lines(source@),
            er + 1,
            0nat,
            sr as int,
            sc as int,
            er as int,
            ec as int,
            tt,
            m,
        ) =~= Seq::<RawToken>::empty());
    }
    if ec > 0 {
        let t = RawToken {
            line: #[verifier::truncate] (er as u32),
            start: 0,
            length: #[verifier::truncate] (ec as u32),
            token_type: tt,
            modifiers: m,
        };
        out.push(t);
        proof {
            assert(tailm =~= seq![t]);
            assert(out@ =~= old(out)@ + toks);
        }
    } else {
        proof {
            assert(tailm =~= Seq::<RawToken>::empty());
            assert(out@ =~= old(out)@ + toks);
        }
    }
}

fn has_named_range_child(tree: &SyntaxTree, i: usize) -> (r: bool)
    requires
        tree.wf(),
        0 <= i < tree.spec_len(),
    ensures
        r == spec_has_named_range_child(*tree, i as int),
{
    let m = tree.node(i).children.len();
    let mut k: usize = 0;
    while k < m
        invariant
            tree.wf(),
            0 <= i < tree.spec_len(),
            m == tree.spec_nodes()[i as int].children@.len(),
            k <= m,
            forall|q: int|
                0 <= q < k ==> !((#[trigger] tree.spec_nodes()[tree.spec_nodes()[i as int].children@[q] as int]).named
                    && tree.spec_nodes()[tree.spec_nodes()[i as int].children@[q] as int].kind@
                    == "range"@),
        decreases m - k,
    {
        let c = tree.node(i).children[k];
        if tree.node(c).named && tree.kind_is(c, "range") {
            return true;
        }
        k += 1;
    }
    false
}

/// Emit the quoted-part token of a string node with a range suffix.
fn emit_quoted(tree: &SyntaxTree, i: usize, tt: u32, m: u32, out: &mut Vec<RawToken>)
    requires
        tree.wf(),
        0 <= i < tree.spec_len(),
    ensures
        final(out)@ == old(out)@ + spec_quoted_tokens(*tree, i as int, tt, m),
{
    let ghost toks = spec_quoted_tokens(*tree, i as int, tt, m);
    match crate::extract::child_of_kinds(tree, i, "range", "range") {
        Some(rc) => {
            let sr = tree.node(i).start_row;
            let sc = tree.node(i).start_col;
            if tree.node(rc).start_row == sr && tree.node(rc).start_col > sc {
                let t = RawToken {
                    line: #[verifier::truncate] (sr as u32),
                    start: #[verifier::truncate] (sc as u32),
                    length: #[verifier::truncate] ((tree.node(rc).start_col - sc) as u32),
                    token_type: tt,
                    modifiers: m,
                };
                out.push(t);
                proof {
                    assert(toks =~= seq![t]);
                    assert(out@ =~= old(out)@ + toks);
                }
            } else {
                proof {
                    assert(out@ + toks =~= out@);
                }
            }
        },
        None => {
            proof {
                assert(out@ + toks =~= out@);
            }
        },
    }
}

/// Walk the tree below `i`, collecting the document's raw tokens.
#[verifier::rlimit(80)]
fn br_walk(
    tree: &SyntaxTree,
    source: &str,
    lines: &Vec<String>,
    i: usize,
    in_param: bool,
    in_dim: bool,
    out: &mut Vec<RawToken>,
)
    requires
        tree.wf(),
        0 <= i < tree.spec_len(),
        strs_view(lines@) == spec_lines(source@),
    ensures
        final(out)@ == old(out)@ + spec_br_walk(*tree, source@, i as int, in_param, in_dim),
    decreases tree.spec_len() - i,
{
    let ghost walk = spec_br_walk(*tree, source@, i as int, in_param, in_dim);
    let cip = in_param || tree.kind_is(i, "parameter_list") || tree.kind_is(
        i,
        "required_parameter",
    ) || tree.kind_is(i, "optional_parameter") || tree.kind_is(i, "parameter");
    let cid = in_dim || tree.kind_is(i, "dim_statement");
    emit_mat(tree, source, i, out);
    let cls = classify_node(tree, i, in_param, in_dim);
    let mut recurse = true;
    match cls {
        None => {},
        Some(tm) => {
            let stringish = tree.kind_is(i, "string") || tree.kind_is(i, "template_string");
            if stringish && has_named_range_child(tree, i) {
                emit_quoted(tree, i, tm.0, tm.1, out);
            } else {
                emit_span(tree, lines, source, i, tm.0, tm.1, out);
                if leaf_kind(tree, i) {
                    recurse = false;
                }
            }
        },
    }
    let ghost mid = out@;
    if recurse {
        let m = tree.node(i).children.len();
        let mut k: usize = 0;
        proof {
            assert(mid + Seq::<RawToken>::empty() =~= mid);
        }
        while k < m
            invariant
                tree.wf(),
                0 <= i < tree.spec_len(),
                strs_view(lines@) == spec_lines(source@),
                m == tree.spec_nodes()[i as int].children@.len(),
                k <= m,
                out@ + spec_br_walk_children(*tree, source@, i as int, k as int, cip, cid) == mid
                    + spec_br_walk_children(*tree, source@, i as int, 0, cip, cid),
            decreases m - k,
        {
            let c = tree.node(i).children[k];
            br_walk(tree, source, lines, c, cip, cid, out);
            k += 1;
        }
        proof {
            assert(spec_br_walk_children(*tree, source@, i as int, m as int, cip, cid)
                =~= Seq::<RawToken>::empty());
            assert(out@ =~= mid + spec_br_walk_children(*tree, source@, i as int, 0, cip, cid));
        }
    }
    proof {
        assert(out@ =~= old(out)@ + walk);
    }
}

/// All raw tokens of a document: the walk of the whole tree, unsorted.
pub fn collect_br_tokens(tree: &SyntaxTree, source: &str) -> (r: Vec<RawToken>)
    requires
        tree.wf(),
    ensures
        r@ == spec_br_tokens(*tree, source@),
{
    let lines = crate::text::split_lines(source);
    let mut out: Vec<RawToken> = Vec::new();
    br_walk(tree, source, &lines, 0, false, false, &mut out);
    out
}

} // verus!
