//! The crate's own concrete-syntax-tree model.
//!
//! The grammar itself is an external collaborator: an opaque parser produces
//! a node tree, and the embedding program flattens that tree into plain
//! `NodeData` records (one per node, children listed by arena index).
//! `SyntaxTree::from_nodes` checks the records for structural
//! well-formedness once; every analysis in the crate is then verified
//! against that shape.

use vstd::prelude::*;
use vstd::string::*;

use crate::text::str_eq;
use crate::types::{Position, Range};

verus! {

/// One node of the concrete syntax tree, as plain data.
#[derive(Clone, Debug)]
pub struct NodeData {
    /// Grammar kind name, e.g. `def_statement`.
    pub kind: String,
    /// A named node (as opposed to an anonymous token).
    pub named: bool,
    /// An ERROR node.
    pub error: bool,
    /// A MISSING node inserted by error recovery.
    pub missing: bool,
    /// Field name under the parent, empty when none.
    pub field: String,
    pub start_byte: usize,
    pub end_byte: usize,
    pub start_row: usize,
    pub start_col: usize,
    pub end_row: usize,
    pub end_col: usize,
    /// Arena index of the parent; `None` only for the root.
    pub parent: Option<usize>,
    /// Arena indices of the children, in document order.
    pub children: Vec<usize>,
}

/// Structural well-formedness of a node arena: node 0 is the root, children
/// always point forward, parents always point backward.  Forward-pointing
/// children are what every walk's termination rests on.
pub open spec fn wf_nodes(nodes: Seq<NodeData>) -> bool {
    &&& nodes.len() >= 1
    &&& nodes[0].parent is None
    &&& forall|i: int, k: int|
        0 <= i < nodes.len() && 0 <= k < nodes[i].children@.len() ==> i < #[trigger] nodes[i].children@[k]
            < nodes.len()
    &&& forall|i: int|
        1 <= i < nodes.len() ==> ((#[trigger] nodes[i].parent) matches Some(p) && p < i)
}

/// A checked syntax tree.
pub struct SyntaxTree {
    pub nodes: Vec<NodeData>,
}

impl SyntaxTree {
    pub open spec fn wf(&self) -> bool {
        wf_nodes(self.nodes@)
    }

    pub open spec fn spec_nodes(&self) -> Seq<NodeData> {
        self.nodes@
    }

    pub open spec fn spec_len(&self) -> int {
        self.nodes@.len() as int
    }

    /// Validate a flat node list.  Returns the tree exactly when the list is
    /// well-formed.
    pub fn from_nodes(nodes: Vec<NodeData>) -> (r: Option<SyntaxTree>)
        ensures
            r matches Some(t) ==> t.wf() && t.spec_nodes() == nodes@,
            r is None ==> !wf_nodes(nodes@),
    {
        let n = nodes.len();
        if n == 0 {
            return None;
        }
        if nodes[0].parent.is_some() {
            return None;
        }
        let mut i: usize = 0;
        while i < n
            invariant
                n == nodes@.len(),
                i <= n,
                forall|j: int, k: int|
                    0 <= j < i && 0 <= k < nodes@[j].children@.len() ==> j
                        < #[trigger] nodes@[j].children@[k] < n,
                forall|j: int|
                    1 <= j < i ==> ((#[trigger] nodes@[j].parent) matches Some(p) && p < j),
            decreases n - i,
        {
            if i > 0 {
                match nodes[i].parent {
                    Some(p) => {
                        if p >= i {
                            return None;
                        }
                    },
                    None => {
                        return None;
                    },
                }
            }
            let m = nodes[i].children.len();
            let mut k: usize = 0;
            while k < m
                invariant
                    n == nodes@.len(),
                    i < n,
                    m == nodes@[i as int].children@.len(),
                    k <= m,
                    forall|q: int|
                        0 <= q < k ==> i < #[trigger] nodes@[i as int].children@[q] < n,
                decreases m - k,
            {
                let c = nodes[i].children[k];
                if c <= i || c >= n {
                    return None;
                }
                k += 1;
            }
            i += 1;
        }
        Some(SyntaxTree { nodes })
    }

    pub fn len(&self) -> (r: usize)
        ensures
            r == self.spec_len(),
    {
        self.nodes.len()
    }

    pub fn node(&self, i: usize) -> (n: &NodeData)
        requires
            0 <= i < self.spec_len(),
        ensures
            *n == self.spec_nodes()[i as int],
    {
        &self.nodes[i]
    }

    /// Does node `i` have the given kind?
    pub fn kind_is(&self, i: usize, kind: &str) -> (r: bool)
        requires
            0 <= i < self.spec_len(),
        ensures
            r == (self.spec_nodes()[i as int].kind@ == kind@),
    {
        str_eq(self.nodes[i].kind.as_str(), kind)
    }

    /// The index of node `i` in its parent's child list, if the parent
    /// indeed lists it.
    pub fn child_position(&self, parent: usize, i: usize) -> (r: Option<usize>)
        requires
            self.wf(),
            0 <= parent < self.spec_len(),
        ensures
            r matches Some(k) ==> 0 <= k < self.spec_nodes()[parent as int].children@.len()
                && self.spec_nodes()[parent as int].children@[k as int] == i,
    {
        let m = self.nodes[parent].children.len();
        let mut k: usize = 0;
        while k < m
            invariant
                0 <= parent < self.spec_len(),
                m == self.spec_nodes()[parent as int].children@.len(),
                k <= m,
            decreases m - k,
        {
            if self.nodes[parent].children[k] == i {
                return Some(k);
            }
            k += 1;
        }
        None
    }
}

/// Field-for-field likeness of two nodes.
pub open spec fn node_like(a: NodeData, b: NodeData) -> bool {
    &&& a.kind@ == b.kind@
    &&& a.named == b.named
    &&& a.error == b.error
    &&& a.missing == b.missing
    &&& a.field@ == b.field@
    &&& a.start_byte == b.start_byte
    &&& a.end_byte == b.end_byte
    &&& a.start_row == b.start_row
    &&& a.start_col == b.start_col
    &&& a.end_row == b.end_row
    &&& a.end_col == b.end_col
    &&& a.parent == b.parent
    &&& a.children@ == b.children@
}

impl SyntaxTree {
    /// A structural copy of the tree, node for node.
    pub fn clone_tree(&self) -> (r: SyntaxTree)
        requires
            self.wf(),
        ensures
            r.wf(),
            r.spec_len() == self.spec_len(),
            forall|i: int|
                0 <= i < r.spec_len() ==> node_like(
                    #[trigger] r.spec_nodes()[i],
                    self.spec_nodes()[i],
                ),
    {
        let n = self.nodes.len();
        let mut nodes: Vec<NodeData> = Vec::new();
        let mut i: usize = 0;
        while i < n
            invariant
                self.wf(),
                n == self.spec_len(),
                i <= n,
                nodes@.len() == i,
                forall|k: int|
                    0 <= k < i ==> node_like(#[trigger] nodes@[k], self.spec_nodes()[k]),
            decreases n - i,
        {
            let src = &self.nodes[i];
            let mut kind = String::new();
            kind.append(src.kind.as_str());
            let mut field = String::new();
            field.append(src.field.as_str());
            let mut children: Vec<usize> = Vec::new();
            let m = src.children.len();
            let mut k: usize = 0;
            while k < m
                invariant
                    0 <= i < self.spec_len(),
                    *src == self.spec_nodes()[i as int],
                    m == self.spec_nodes()[i as int].children@.len(),
                    k <= m,
                    children@ == self.spec_nodes()[i as int].children@.subrange(0, k as int),
                decreases m - k,
            {
                children.push(src.children[k]);
                proof {
                    assert(children@ =~= self.spec_nodes()[i as int].children@.subrange(
                        0,
                        k + 1,
                    ));
                }
                k += 1;
            }
            proof {
                assert(self.spec_nodes()[i as int].children@.subrange(0, m as int)
                    =~= self.spec_nodes()[i as int].children@);
                assert(kind@ =~= self.spec_nodes()[i as int].kind@);
                assert(field@ =~= self.spec_nodes()[i as int].field@);
            }
            nodes.push(
                NodeData {
                    kind,
                    named: src.named,
                    error: src.error,
                    missing: src.missing,
                    field,
                    start_byte: src.start_byte,
                    end_byte: src.end_byte,
                    start_row: src.start_row,
                    start_col: src.start_col,
                    end_row: src.end_row,
                    end_col: src.end_col,
                    parent: src.parent,
                    children,
                },
            );
            i += 1;
        }
        let r = SyntaxTree { nodes };
        proof {
            assert forall|a: int, b: int|
                0 <= a < r.spec_nodes().len() && 0 <= b < r.spec_nodes()[a].children@.len()
                    implies a < #[trigger] r.spec_nodes()[a].children@[b] < r.spec_nodes().len() by {
                assert(node_like(r.spec_nodes()[a], self.spec_nodes()[a]));
            }
            assert forall|a: int|
                1 <= a < r.spec_nodes().len() implies ((#[trigger] r.spec_nodes()[a].parent)
                matches Some(p) && p < a) by {
                assert(node_like(r.spec_nodes()[a], self.spec_nodes()[a]));
            }
            assert(r.spec_nodes()[0].parent is None) by {
                assert(node_like(r.spec_nodes()[0], self.spec_nodes()[0]));
            }
        }
        r
    }
}

/// Clamped text slice of a node: the characters between its byte extents,
/// cut to the source length (extents beyond the text give the empty string).
pub open spec fn spec_node_text(n: NodeData, source: Seq<char>) -> Seq<char> {
    let s = if n.start_byte as int <= source.len() {
        n.start_byte as int
    } else {
        source.len() as int
    };
    let e = if n.end_byte as int <= source.len() {
        n.end_byte as int
    } else {
        source.len() as int
    };
    if s <= e {
        source.subrange(s, e)
    } else {
        Seq::<char>::empty()
    }
}

/// The text of node `i` of the tree.
pub fn node_text(tree: &SyntaxTree, i: usize, source: &str) -> (r: String)
    requires
        0 <= i < tree.spec_len(),
    ensures
        r@ == spec_node_text(tree.spec_nodes()[i as int], source@),
{
    let len = source.unicode_len();
    let n = &tree.nodes[i];
    let s = if n.start_byte <= len {
        n.start_byte
    } else {
        len
    };
    let e = if n.end_byte <= len {
        n.end_byte
    } else {
        len
    };
    let mut out = String::new();
    if s <= e {
        let piece = source.substring_char(s, e);
        out.append(piece);
        proof {
            assert(out@ =~= source@.subrange(s as int, e as int));
        }
    }
    out
}

/// The position span of a node, rows and columns as the protocol counts them.
pub open spec fn spec_node_range(n: NodeData) -> Range {
    Range {
        start: Position { line: n.start_row as u32, character: n.start_col as u32 },
        end: Position { line: n.end_row as u32, character: n.end_col as u32 },
    }
}

pub fn node_range(n: &NodeData) -> (r: Range)
    ensures
        r == spec_node_range(*n),
{
    Range {
        start: Position {
            line: #[verifier::truncate] (n.start_row as u32),
            character: #[verifier::truncate] (n.start_col as u32),
        },
        end: Position {
            line: #[verifier::truncate] (n.end_row as u32),
            character: #[verifier::truncate] (n.end_col as u32),
        },
    }
}

/// Indices of all nodes of the given kind, in arena (document) order.
pub fn nodes_of_kind(tree: &SyntaxTree, kind: &str) -> (r: Vec<usize>)
    requires
        tree.wf(),
    ensures
        forall|k: int|
            0 <= k < r@.len() ==> 0 <= #[trigger] r@[k] < tree.spec_len()
                && tree.spec_nodes()[r@[k] as int].kind@ == kind@,
        forall|i: int|
            0 <= i < tree.spec_len() && tree.spec_nodes()[i].kind@ == kind@ ==> r@.contains(i as usize),
        forall|k1: int, k2: int| 0 <= k1 < k2 < r@.len() ==> r@[k1] < r@[k2],
{
    let n = tree.len();
    let mut out: Vec<usize> = Vec::new();
    let mut i: usize = 0;
    while i < n
        invariant
            tree.wf(),
            n == tree.spec_len(),
            i <= n,
            forall|k: int|
                0 <= k < out@.len() ==> 0 <= #[trigger] out@[k] < i
                    && tree.spec_nodes()[out@[k] as int].kind@ == kind@,
            forall|j: int|
                0 <= j < i && tree.spec_nodes()[j].kind@ == kind@ ==> out@.contains(j as usize),
            forall|k1: int, k2: int| 0 <= k1 < k2 < out@.len() ==> out@[k1] < out@[k2],
        decreases n - i,
    {
        if tree.kind_is(i, kind) {
            let ghost pre = out@;
            out.push(i);
            proof {
                assert forall|j: int|
                    0 <= j < i + 1 && tree.spec_nodes()[j].kind@ == kind@ implies out@.contains(
                    j as usize,
                ) by {
                    if j < i {
                        assert(pre.contains(j as usize));
                        let w = choose|w: int| 0 <= w < pre.len() && pre[w] == j as usize;
                        assert(out@[w] == j as usize);
                    } else {
                        assert(out@[out@.len() - 1] == i as usize);
                    }
                }
            }
        }
        i += 1;
    }
    out
}

/// Is child position `k` of node `i` a node of kind `kind`?
pub open spec fn child_has_kind(tree: SyntaxTree, i: int, k: int, kind: Seq<char>) -> bool {
    tree.spec_nodes()[tree.spec_nodes()[i].children@[k] as int].kind@ == kind
}

/// First child of `i` with the given kind, if any.
pub fn child_of_kind(tree: &SyntaxTree, i: usize, kind: &str) -> (r: Option<usize>)
    requires
        tree.wf(),
        0 <= i < tree.spec_len(),
    ensures
        r matches Some(c) ==> i < c < tree.spec_len() && tree.spec_nodes()[c as int].kind@ == kind@
            && (exists|p: int|
            0 <= p < tree.spec_nodes()[i as int].children@.len()
                && tree.spec_nodes()[i as int].children@[p] == c && (forall|q: int|
                0 <= q < p ==> !child_has_kind(*tree, i as int, q, kind@))),
        r is None ==> forall|q: int|
            0 <= q < tree.spec_nodes()[i as int].children@.len() ==> !child_has_kind(
                *tree,
                i as int,
                q,
                kind@,
            ),
{
    let m = tree.nodes[i].children.len();
    let mut k: usize = 0;
    while k < m
        invariant
            tree.wf(),
            0 <= i < tree.spec_len(),
            m == tree.spec_nodes()[i as int].children@.len(),
            k <= m,
            forall|q: int| 0 <= q < k ==> !child_has_kind(*tree, i as int, q, kind@),
        decreases m - k,
    {
        let c = tree.nodes[i].children[k];
        if tree.kind_is(c, kind) {
            proof {
                assert(tree.spec_nodes()[i as int].children@[k as int] == c);
            }
            return Some(c);
        }
        k += 1;
    }
    None
}

/// Is child position `k` of node `i` carrying field name `field`?
pub open spec fn child_has_field(tree: SyntaxTree, i: int, k: int, field: Seq<char>) -> bool {
    tree.spec_nodes()[tree.spec_nodes()[i].children@[k] as int].field@ == field
}

/// First child of `i` carrying the given field name, if any.
pub fn child_by_field(tree: &SyntaxTree, i: usize, field: &str) -> (r: Option<usize>)
    requires
        tree.wf(),
        0 <= i < tree.spec_len(),
    ensures
        r matches Some(c) ==> i < c < tree.spec_len() && tree.spec_nodes()[c as int].field@
            == field@ && (exists|p: int|
            0 <= p < tree.spec_nodes()[i as int].children@.len()
                && tree.spec_nodes()[i as int].children@[p] == c && (forall|q: int|
                0 <= q < p ==> !child_has_field(*tree, i as int, q, field@))),
        r is None ==> forall|q: int|
            0 <= q < tree.spec_nodes()[i as int].children@.len() ==> !child_has_field(
                *tree,
                i as int,
                q,
                field@,
            ),
{
    let m = tree.nodes[i].children.len();
    let mut k: usize = 0;
    while k < m
        invariant
            tree.wf(),
            0 <= i < tree.spec_len(),
            m == tree.spec_nodes()[i as int].children@.len(),
            k <= m,
            forall|q: int| 0 <= q < k ==> !child_has_field(*tree, i as int, q, field@),
        decreases m - k,
    {
        let c = tree.nodes[i].children[k];
        if str_eq(tree.nodes[c].field.as_str(), field) {
            proof {
                assert(tree.spec_nodes()[i as int].children@[k as int] == c);
            }
            return Some(c);
        }
        k += 1;
    }
    None
}

/// Does `i` have an ancestor (strictly above it) of the given kind?
pub open spec fn spec_inside(tree: SyntaxTree, i: int, kind: Seq<char>) -> bool
    decreases i when tree.wf() && 0 <= i < tree.spec_len()
{
    match tree.spec_nodes()[i].parent {
        Some(p) => tree.spec_nodes()[p as int].kind@ == kind || spec_inside(tree, p as int, kind),
        None => false,
    }
}

pub fn has_ancestor_of_kind(tree: &SyntaxTree, i: usize, kind: &str) -> (r: bool)
    requires
        tree.wf(),
        0 <= i < tree.spec_len(),
    ensures
        r == spec_inside(*tree, i as int, kind@),
    decreases i,
{
    match tree.nodes[i].parent {
        Some(p) => {
            if tree.kind_is(p, kind) {
                true
            } else {
                has_ancestor_of_kind(tree, p, kind)
            }
        },
        None => false,
    }
}

/// First child of `cur`, from position `k` on, whose span contains the
/// point.
pub open spec fn spec_containing_child(tree: SyntaxTree, cur: int, k: int, row: int, col: int) -> Option<int>
    decreases tree.spec_nodes()[cur].children@.len() - k
        when tree.wf() && 0 <= cur < tree.spec_len() && 0 <= k
{
    let ch = tree.spec_nodes()[cur].children@;
    if k >= ch.len() {
        None
    } else if spec_point_in(tree.spec_nodes()[ch[k] as int], row, col) {
        Some(ch[k] as int)
    } else {
        spec_containing_child(tree, cur, k + 1, row, col)
    }
}

pub proof fn lemma_containing_child_bounds(tree: SyntaxTree, cur: int, k: int, row: int, col: int)
    requires
        tree.wf(),
        0 <= cur < tree.spec_len(),
        0 <= k,
    ensures
        spec_containing_child(tree, cur, k, row, col) matches Some(c) ==> cur < c
            < tree.spec_len(),
    decreases tree.spec_nodes()[cur].children@.len() - k,
{
    if k < tree.spec_nodes()[cur].children@.len() {
        assert(wf_nodes(tree.spec_nodes()));
        assert(cur < tree.spec_nodes()[cur].children@[k] < tree.spec_len());
        lemma_containing_child_bounds(tree, cur, k + 1, row, col);
    }
}

/// The descent a point lookup performs: remember the deepest named node
/// seen, follow the first child containing the point for as long as one
/// exists.
pub open spec fn spec_descend(
    tree: SyntaxTree,
    cur: int,
    best: Option<int>,
    row: int,
    col: int,
) -> Option<int>
    decreases tree.spec_len() - cur when tree.wf() && 0 <= cur < tree.spec_len()
    via spec_descend_decreases
{
    let best2 = if tree.spec_nodes()[cur].named {
        Some(cur)
    } else {
        best
    };
    match spec_containing_child(tree, cur, 0, row, col) {
        Some(c) => spec_descend(tree, c, best2, row, col),
        None => best2,
    }
}

#[via_fn]
proof fn spec_descend_decreases(tree: SyntaxTree, cur: int, best: Option<int>, row: int, col: int) {
    if tree.wf() && 0 <= cur < tree.spec_len() {
        lemma_containing_child_bounds(tree, cur, 0, row, col);
    }
}

/// The node a point lookup yields: the deepest named node along the
/// first-containing-child descent from the root, or nothing when the
/// point lies outside the root.
pub open spec fn spec_node_at(tree: SyntaxTree, row: int, col: int) -> Option<int> {
    if tree.spec_len() > 0 && spec_point_in(tree.spec_nodes()[0], row, col) {
        spec_descend(tree, 0, None, row, col)
    } else {
        None
    }
}

/// The smallest named node whose position span contains `(row, col)`,
/// mirroring a descendant-for-point lookup: starting at the root, descend
/// into the first child whose span contains the point, for as long as one
/// exists; report the deepest named node seen.
pub fn node_at_position(tree: &SyntaxTree, row: usize, col: usize) -> (r: Option<usize>)
    requires
        tree.wf(),
    ensures
        match r {
            Some(i) => spec_node_at(*tree, row as int, col as int) == Some(i as int) && 0 <= i
                < tree.spec_len() && tree.spec_nodes()[i as int].named && spec_point_in(
                tree.spec_nodes()[i as int],
                row as int,
                col as int,
            ),
            None => spec_node_at(*tree, row as int, col as int) is None,
        },
{
    let mut cur: usize = 0;
    let mut best: Option<usize> = None;
    if !point_in_node(tree, 0, row, col) {
        return None;
    }
    loop
        invariant
            tree.wf(),
            0 <= cur < tree.spec_len(),
            best matches Some(b) ==> 0 <= b < tree.spec_len() && tree.spec_nodes()[b as int].named
                && spec_point_in(tree.spec_nodes()[b as int], row as int, col as int),
            spec_point_in(tree.spec_nodes()[cur as int], row as int, col as int),
            spec_descend(
                *tree,
                cur as int,
                match best {
                    Some(b) => Some(b as int),
                    None => None,
                },
                row as int,
                col as int,
            ) == spec_node_at(*tree, row as int, col as int),
        decreases tree.spec_len() - cur,
    {
        let ghost entry_best: Option<int> = match best {
            Some(b) => Some(b as int),
            None => None,
        };
        if tree.nodes[cur].named {
            best = Some(cur);
        }
        let ghost best2: Option<int> = match best {
            Some(b) => Some(b as int),
            None => None,
        };
        let m = tree.nodes[cur].children.len();
        let mut k: usize = 0;
        let mut next: Option<usize> = None;
        while k < m
            invariant_except_break
                next is None,
            invariant
                tree.wf(),
                0 <= cur < tree.spec_len(),
                m == tree.spec_nodes()[cur as int].children@.len(),
                k <= m,
                spec_containing_child(*tree, cur as int, k as int, row as int, col as int)
                    == spec_containing_child(*tree, cur as int, 0, row as int, col as int),
            ensures
                match next {
                    Some(c) => spec_containing_child(*tree, cur as int, 0, row as int, col as int)
                        == Some(c as int) && spec_point_in(
                        tree.spec_nodes()[c as int],
                        row as int,
                        col as int,
                    ),
                    None => spec_containing_child(
                        *tree,
                        cur as int,
                        0,
                        row as int,
                        col as int,
                    ) is None,
                },
            decreases m - k,
        {
            let c = tree.nodes[cur].children[k];
            if point_in_node(tree, c, row, col) {
                next = Some(c);
                proof {
                    assert(tree.spec_nodes()[cur as int].children@[k as int] == c);
                }
                break;
            }
            k += 1;
        }
        proof {
            lemma_containing_child_bounds(*tree, cur as int, 0, row as int, col as int);
            assert(spec_descend(*tree, cur as int, entry_best, row as int, col as int) == (
            match spec_containing_child(*tree, cur as int, 0, row as int, col as int) {
                Some(c) => spec_descend(*tree, c, best2, row as int, col as int),
                None => best2,
            }));
        }
        match next {
            Some(c) => {
                cur = c;
            },
            None => {
                return best;
            },
        }
    }
}

/// Is `(row, col)` within a node's position span (start inclusive, end
/// exclusive in document order)?
pub open spec fn spec_point_in(n: NodeData, row: int, col: int) -> bool {
    (row > n.start_row || (row == n.start_row && col >= n.start_col)) && (row < n.end_row || (row
        == n.end_row && col < n.end_col))
}

pub fn point_in_node(tree: &SyntaxTree, i: usize, row: usize, col: usize) -> (r: bool)
    requires
        0 <= i < tree.spec_len(),
    ensures
        r == spec_point_in(tree.spec_nodes()[i as int], row as int, col as int),
{
    let n = &tree.nodes[i];
    let after_start = row > n.start_row || (row == n.start_row && col >= n.start_col);
    let before_end = row < n.end_row || (row == n.end_row && col < n.end_col);
    after_start && before_end
}

} // verus!
