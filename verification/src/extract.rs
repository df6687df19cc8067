//! Function definition records and their textual rendering.
//!
//! A `FunctionDef` is what the definition extractor produces for every
//! `def` statement or `LIBRARY` import in a file; the workspace index and
//! the query layer consume them.

use vstd::prelude::*;
use vstd::string::*;

use crate::text::{lower_char, lower_char_exec, lower_seq, opt_view, push_char, str_eq};
use crate::types::Range;

verus! {

/// The four coarse BR value kinds.
#[derive(Clone, Copy, PartialEq, Eq, Structural, Debug)]
pub enum ParamKind {
    Numeric,
    String,
    NumericArray,
    StringArray,
}

/// One declared parameter of a user function.
#[derive(Clone, Debug)]
pub struct ParamInfo {
    pub name: String,
    pub kind: ParamKind,
    pub is_optional: bool,
    pub is_reference: bool,
    pub documentation: Option<String>,
}

/// One function definition (or `LIBRARY` import entry) found in a file.
#[derive(Clone, Debug)]
pub struct FunctionDef {
    /// Name in its original casing.
    pub name: String,
    /// Span of the whole definition.
    pub range: Range,
    /// Span of the name token only.
    pub selection_range: Range,
    /// Declared with the `LIBRARY` keyword.
    pub is_library: bool,
    /// Came from a `LIBRARY "path": fnA` import list, not a body.
    pub is_import_only: bool,
    pub params: Vec<ParamInfo>,
    /// Some parameter held a `[[Name]]` substitution; arity checks are off.
    pub has_param_substitution: bool,
    pub documentation: Option<String>,
    pub return_documentation: Option<String>,
}

pub open spec fn is_array_kind(k: ParamKind) -> bool {
    k == ParamKind::NumericArray || k == ParamKind::StringArray
}

/// Two parameter records that agree in every observable respect.
pub open spec fn param_like(a: ParamInfo, b: ParamInfo) -> bool {
    &&& a.name@ == b.name@
    &&& a.kind == b.kind
    &&& a.is_optional == b.is_optional
    &&& a.is_reference == b.is_reference
    &&& opt_view(a.documentation) == opt_view(b.documentation)
}

/// The rendered form of one parameter: `[name]` for optional, `mat name`
/// for arrays, `&name` for references, in that nesting order.
pub open spec fn spec_param_label(p: ParamInfo) -> Seq<char> {
    let open = if p.is_optional { "["@ } else { Seq::<char>::empty() };
    let mat = if is_array_kind(p.kind) { "mat "@ } else { Seq::<char>::empty() };
    let amp = if p.is_reference { "&"@ } else { Seq::<char>::empty() };
    let close = if p.is_optional { "]"@ } else { Seq::<char>::empty() };
    open + mat + amp + p.name@ + close
}

pub proof fn lemma_param_like_label(a: ParamInfo, b: ParamInfo)
    requires
        param_like(a, b),
    ensures
        spec_param_label(a) == spec_param_label(b),
{
}

impl ParamInfo {
    pub fn format_label(&self) -> (r: String)
        ensures
            r@ == spec_param_label(*self),
    {
        let mut s = String::new();
        if self.is_optional {
            s.append("[");
        }
        if matches!(self.kind, ParamKind::NumericArray | ParamKind::StringArray) {
            s.append("mat ");
        }
        if self.is_reference {
            s.append("&");
        }
        s.append(self.name.as_str());
        if self.is_optional {
            s.append("]");
        }
        proof {
            assert(s@ =~= spec_param_label(*self));
        }
        s
    }

    /// A field-by-field copy, like the original in every observable respect.
    pub fn clone_param(&self) -> (r: ParamInfo)
        ensures
            param_like(r, *self),
    {
        ParamInfo {
            name: self.name.clone(),
            kind: self.kind,
            is_optional: self.is_optional,
            is_reference: self.is_reference,
            documentation: crate::text::clone_opt_string(&self.documentation),
        }
    }
}

/// Does the name start with `___` (the hidden-parameter convention)?
pub open spec fn spec_is_hidden(name: Seq<char>) -> bool {
    name.len() >= 3 && name[0] == '_' && name[1] == '_' && name[2] == '_'
}

/// Number of visible parameters: everything before the first `___` name.
pub open spec fn spec_visible_len(params: Seq<ParamInfo>) -> int
    decreases params.len(),
{
    if params.len() == 0 {
        0
    } else if spec_is_hidden(params[0].name@) {
        0
    } else {
        1 + spec_visible_len(params.drop_first())
    }
}

pub proof fn lemma_visible_len_bounds(params: Seq<ParamInfo>)
    ensures
        0 <= spec_visible_len(params) <= params.len(),
    decreases params.len(),
{
    if params.len() > 0 && !spec_is_hidden(params[0].name@) {
        lemma_visible_len_bounds(params.drop_first());
    }
}

proof fn lemma_visible_prefix(params: Seq<ParamInfo>, i: int)
    requires
        0 <= i < params.len(),
        forall|k: int| 0 <= k < i ==> !spec_is_hidden(#[trigger] params[k].name@),
        spec_is_hidden(params[i].name@),
    ensures
        spec_visible_len(params) == i,
    decreases i,
{
    if i > 0 {
        lemma_visible_prefix(params.drop_first(), i - 1);
    }
}

proof fn lemma_visible_all(params: Seq<ParamInfo>)
    requires
        forall|k: int| 0 <= k < params.len() ==> !spec_is_hidden(#[trigger] params[k].name@),
    ensures
        spec_visible_len(params) == params.len(),
    decreases params.len(),
{
    if params.len() > 0 {
        lemma_visible_all(params.drop_first());
    }
}

fn name_is_hidden(name: &str) -> (r: bool)
    ensures
        r == spec_is_hidden(name@),
{
    let len = name.unicode_len();
    if len < 3 {
        return false;
    }
    name.get_char(0) == '_' && name.get_char(1) == '_' && name.get_char(2) == '_'
}

/// The joined `", "`-separated labels of a parameter sequence.
pub open spec fn spec_joined_labels(params: Seq<ParamInfo>) -> Seq<char>
    decreases params.len(),
{
    if params.len() == 0 {
        Seq::<char>::empty()
    } else if params.len() == 1 {
        spec_param_label(params[0])
    } else {
        spec_joined_labels(params.drop_last()) + ", "@ + spec_param_label(params.last())
    }
}

pub proof fn lemma_params_like_joined(a: Seq<ParamInfo>, b: Seq<ParamInfo>)
    requires
        a.len() == b.len(),
        forall|i: int| 0 <= i < a.len() ==> param_like(#[trigger] a[i], b[i]),
    ensures
        spec_joined_labels(a) == spec_joined_labels(b),
    decreases a.len(),
{
    if a.len() > 1 {
        lemma_params_like_joined(a.drop_last(), b.drop_last());
    }
}

/// `name` alone when nothing is visible, else `name(label, label, ...)`.
pub open spec fn spec_signature(name: Seq<char>, visible: Seq<ParamInfo>) -> Seq<char> {
    if visible.len() == 0 {
        name
    } else {
        name + "("@ + spec_joined_labels(visible) + ")"@
    }
}

/// The visible prefix of a full parameter sequence.
pub open spec fn spec_visible(params: Seq<ParamInfo>) -> Seq<ParamInfo> {
    params.subrange(0, spec_visible_len(params))
}

impl FunctionDef {
    /// Visible parameters: the prefix before the first `___`-named one.
    pub fn visible_params(&self) -> (r: Vec<ParamInfo>)
        ensures
            r@.len() == spec_visible_len(self.params@),
            forall|k: int|
                0 <= k < r@.len() ==> param_like(#[trigger] r@[k], self.params@[k]),
    {
        let mut out: Vec<ParamInfo> = Vec::new();
        let mut i: usize = 0;
        let n = self.params.len();
        while i < n
            invariant
                n == self.params@.len(),
                i <= n,
                out@.len() == i,
                forall|k: int| 0 <= k < i ==> param_like(#[trigger] out@[k], self.params@[k]),
                forall|k: int| 0 <= k < i ==> !spec_is_hidden(#[trigger] self.params@[k].name@),
            decreases n - i,
        {
            let p = &self.params[i];
            if name_is_hidden(p.name.as_str()) {
                proof {
                    lemma_visible_prefix(self.params@, i as int);
                }
                return out;
            }
            out.push(p.clone_param());
            i += 1;
        }
        proof {
            lemma_visible_all(self.params@);
        }
        out
    }

    pub fn format_signature(&self) -> (r: String)
        ensures
            r@ == spec_signature(self.name@, spec_visible(self.params@)),
    {
        let visible = self.visible_params();
        let r = format_signature_of(self.name.as_str(), &visible);
        proof {
            lemma_visible_len_bounds(self.params@);
            assert(forall|k: int|
                0 <= k < visible@.len() ==> param_like(
                    #[trigger] visible@[k],
                    spec_visible(self.params@)[k],
                ));
            lemma_params_like_joined(visible@, spec_visible(self.params@));
        }
        r
    }

    pub fn format_signature_with_offsets(&self) -> (r: (String, Vec<[usize; 2]>))
        ensures
            r.0@ == spec_signature(self.name@, spec_visible(self.params@)),
            r.1@.len() == spec_visible_len(self.params@),
            forall|i: int|
                0 <= i < r.1@.len() ==> {
                    let off = #[trigger] r.1@[i];
                    0 <= off[0] <= off[1] <= r.0@.len() && r.0@.subrange(
                        off[0] as int,
                        off[1] as int,
                    ) == spec_param_label(self.params@[i])
                },
    {
        let visible = self.visible_params();
        let r = format_signature_with_offsets_of(self.name.as_str(), &visible);
        proof {
            lemma_visible_len_bounds(self.params@);
            assert(forall|k: int|
                0 <= k < visible@.len() ==> param_like(
                    #[trigger] visible@[k],
                    spec_visible(self.params@)[k],
                ));
            lemma_params_like_joined(visible@, spec_visible(self.params@));
            assert forall|i: int| 0 <= i < r.1@.len() implies {
                let off = #[trigger] r.1@[i];
                0 <= off[0] <= off[1] <= r.0@.len() && r.0@.subrange(off[0] as int, off[1] as int)
                    == spec_param_label(self.params@[i])
            } by {
                lemma_param_like_label(visible@[i], self.params@[i]);
            }
        }
        r
    }
}

/// `name(label, ...)` over an explicit visible-parameter list.
pub(crate) fn format_signature_of(name: &str, visible: &Vec<ParamInfo>) -> (r: String)
    ensures
        r@ == spec_signature(name@, visible@),
{
    if visible.len() == 0 {
        let mut s = String::new();
        s.append(name);
        proof {
            assert(s@ =~= name@);
        }
        return s;
    }
    let mut s = String::new();
    s.append(name);
    s.append("(");
    let n = visible.len();
    let mut i: usize = 0;
    while i < n
        invariant
            n == visible@.len(),
            0 < n,
            i <= n,
            s@ == name@ + "("@ + spec_joined_labels(visible@.subrange(0, i as int)),
        decreases n - i,
    {
        if i > 0 {
            s.append(", ");
        }
        let label = visible[i].format_label();
        s.append(label.as_str());
        proof {
            let pre = visible@.subrange(0, i as int);
            let cur = visible@.subrange(0, i + 1);
            assert(cur.drop_last() =~= pre);
            assert(cur.last() == visible@[i as int]);
            assert(s@ =~= name@ + "("@ + spec_joined_labels(cur));
        }
        i += 1;
    }
    s.append(")");
    proof {
        assert(visible@.subrange(0, n as int) =~= visible@);
        assert(s@ =~= spec_signature(name@, visible@));
    }
    s
}

/// `name(label, ...)` plus the start and end offset of each label in it.
pub(crate) fn format_signature_with_offsets_of(name: &str, visible: &Vec<ParamInfo>) -> (r: (
    String,
    Vec<[usize; 2]>,
))
    ensures
        r.0@ == spec_signature(name@, visible@),
        r.1@.len() == visible@.len(),
        forall|i: int|
            0 <= i < r.1@.len() ==> {
                let off = #[trigger] r.1@[i];
                0 <= off[0] <= off[1] <= r.0@.len() && r.0@.subrange(off[0] as int, off[1] as int)
                    == spec_param_label(visible@[i])
            },
{
    if visible.len() == 0 {
        let mut s = String::new();
        s.append(name);
        proof {
            assert(s@ =~= name@);
        }
        return (s, Vec::new());
    }
    let mut s = String::new();
    s.append(name);
    s.append("(");
    let mut offsets: Vec<[usize; 2]> = Vec::new();
    let n = visible.len();
    let mut i: usize = 0;
    while i < n
        invariant
            n == visible@.len(),
            0 < n,
            i <= n,
            offsets@.len() == i,
            s@ == name@ + "("@ + spec_joined_labels(visible@.subrange(0, i as int)),
            forall|k: int|
                0 <= k < i ==> {
                    let off = #[trigger] offsets@[k];
                    0 <= off[0] <= off[1] <= s@.len() && s@.subrange(off[0] as int, off[1] as int)
                        == spec_param_label(visible@[k])
                },
        decreases n - i,
    {
        if i > 0 {
            s.append(", ");
        }
        let label = visible[i].format_label();
        let start = s.as_str().unicode_len();
        let ghost pre_s = s@;
        s.append(label.as_str());
        let end = s.as_str().unicode_len();
        let ghost pre_offsets = offsets@;
        offsets.push([start, end]);
        proof {
            let pre = visible@.subrange(0, i as int);
            let cur = visible@.subrange(0, i + 1);
            assert(cur.drop_last() =~= pre);
            assert(cur.last() == visible@[i as int]);
            assert(s@.subrange(start as int, end as int) =~= spec_param_label(visible@[i as int]));
            assert(s@ =~= name@ + "("@ + spec_joined_labels(cur));
            assert forall|k: int| 0 <= k < i + 1 implies {
                let off = #[trigger] offsets@[k];
                0 <= off[0] <= off[1] <= s@.len() && s@.subrange(off[0] as int, off[1] as int)
                    == spec_param_label(visible@[k])
            } by {
                if k < i {
                    assert(offsets@[k] == pre_offsets[k]);
                    assert(s@.subrange(offsets@[k][0] as int, offsets@[k][1] as int)
                        =~= pre_s.subrange(offsets@[k][0] as int, offsets@[k][1] as int));
                }
            }
        }
        i += 1;
    }
    let ghost pre_offsets = offsets@;
    let ghost pre_s = s@;
    s.append(")");
    proof {
        assert(visible@.subrange(0, n as int) =~= visible@);
        assert(s@ =~= spec_signature(name@, visible@));
        assert forall|k: int| 0 <= k < offsets@.len() implies {
            let off = #[trigger] offsets@[k];
            0 <= off[0] <= off[1] <= s@.len() && s@.subrange(off[0] as int, off[1] as int)
                == spec_param_label(visible@[k])
        } by {
            assert(s@.subrange(offsets@[k][0] as int, offsets@[k][1] as int) =~= pre_s.subrange(
                offsets@[k][0] as int,
                offsets@[k][1] as int,
            ));
        }
    }
    (s, offsets)
}

/// Normalised library path: backslashes to `/`, ASCII-lowered, and one
/// trailing `.brs` / `.wbs` / `.dll` extension removed.
pub open spec fn spec_normalize_library_path(raw: Seq<char>) -> Seq<char> {
    let slashed = raw.map_values(|c: char| if c == '\\' { '/' } else { c });
    let lowered = lower_seq(slashed);
    if lowered.len() >= 4 && lowered.subrange(lowered.len() - 4, lowered.len() as int) == ".brs"@ {
        lowered.subrange(0, lowered.len() - 4)
    } else if lowered.len() >= 4 && lowered.subrange(lowered.len() - 4, lowered.len() as int)
        == ".wbs"@ {
        lowered.subrange(0, lowered.len() - 4)
    } else if lowered.len() >= 4 && lowered.subrange(lowered.len() - 4, lowered.len() as int)
        == ".dll"@ {
        lowered.subrange(0, lowered.len() - 4)
    } else {
        lowered
    }
}

pub fn normalize_library_path(raw: &str) -> (r: String)
    ensures
        r@ == spec_normalize_library_path(raw@),
{
    let len = raw.unicode_len();
    let mut lowered = String::new();
    let mut i: usize = 0;
    let ghost slashed = raw@.map_values(|c: char| if c == '\\' { '/' } else { c });
    while i < len
        invariant
            len == raw@.len(),
            i <= len,
            slashed == raw@.map_values(|c: char| if c == '\\' { '/' } else { c }),
            lowered@ == lower_seq(slashed).subrange(0, i as int),
        decreases len - i,
    {
        let c = raw.get_char(i);
        let mapped = if c == '\\' {
            '/'
        } else {
            c
        };
        push_char(&mut lowered, lower_char_exec(mapped));
        proof {
            assert(lower_char(slashed[i as int]) == lower_char(mapped));
            assert(lowered@ =~= lower_seq(slashed).subrange(0, i + 1));
        }
        i += 1;
    }
    proof {
        assert(lowered@ =~= lower_seq(slashed));
    }
    let llen = lowered.as_str().unicode_len();
    if llen >= 4 {
        let tail = lowered.as_str().substring_char(llen - 4, llen);
        if str_eq(tail, ".brs") || str_eq(tail, ".wbs") || str_eq(tail, ".dll") {
            let kept = lowered.as_str().substring_char(0, llen - 4);
            let mut out = String::new();
            out.append(kept);
            proof {
                assert(out@ =~= lower_seq(slashed).subrange(0, llen - 4));
            }
            return out;
        }
    }
    lowered
}

// ---------------------------------------------------------------------------
// Abstract views of extraction results
// ---------------------------------------------------------------------------

/// The abstract contents of a parameter record.
pub ghost struct ParamInfoV {
    pub name: Seq<char>,
    pub kind: ParamKind,
    pub is_optional: bool,
    pub is_reference: bool,
    pub documentation: Option<Seq<char>>,
}

/// The abstract contents of a function definition record.
pub ghost struct FunctionDefV {
    pub name: Seq<char>,
    pub range: Range,
    pub selection_range: Range,
    pub is_library: bool,
    pub is_import_only: bool,
    pub params: Seq<ParamInfoV>,
    pub has_param_substitution: bool,
    pub documentation: Option<Seq<char>>,
    pub return_documentation: Option<Seq<char>>,
}

pub open spec fn param_view(p: ParamInfo) -> ParamInfoV {
    ParamInfoV {
        name: p.name@,
        kind: p.kind,
        is_optional: p.is_optional,
        is_reference: p.is_reference,
        documentation: opt_view(p.documentation),
    }
}

pub open spec fn def_view(d: FunctionDef) -> FunctionDefV {
    FunctionDefV {
        name: d.name@,
        range: d.range,
        selection_range: d.selection_range,
        is_library: d.is_library,
        is_import_only: d.is_import_only,
        params: d.params@.map_values(|p: ParamInfo| param_view(p)),
        has_param_substitution: d.has_param_substitution,
        documentation: opt_view(d.documentation),
        return_documentation: opt_view(d.return_documentation),
    }
}

pub open spec fn defs_view(s: Seq<FunctionDef>) -> Seq<FunctionDefV> {
    s.map_values(|d: FunctionDef| def_view(d))
}

pub proof fn lemma_defs_push(s: Seq<FunctionDef>, d: FunctionDef)
    ensures
        defs_view(s.push(d)) == defs_view(s).push(def_view(d)),
{
    assert(defs_view(s.push(d)) =~= defs_view(s).push(def_view(d)));
}

// ---------------------------------------------------------------------------
// Node-level helpers, each an exec mirror of a small recursion
// ---------------------------------------------------------------------------

use crate::tree::{NodeData, SyntaxTree};

/// First child of `i`, from position `k` on, whose kind is `a` or `b`.
pub open spec fn spec_child_of_kinds(tree: SyntaxTree, i: int, k: int, a: Seq<char>, b: Seq<char>) -> Option<int>
    decreases tree.spec_nodes()[i].children@.len() - k
        when tree.wf() && 0 <= i < tree.spec_len() && 0 <= k
{
    let ch = tree.spec_nodes()[i].children@;
    if k >= ch.len() {
        None
    } else if tree.spec_nodes()[ch[k] as int].kind@ == a || tree.spec_nodes()[ch[k] as int].kind@
        == b {
        Some(ch[k] as int)
    } else {
        spec_child_of_kinds(tree, i, k + 1, a, b)
    }
}

/// Scan the children of `i` for the first with kind `a` or `b`.
pub fn child_of_kinds(tree: &SyntaxTree, i: usize, a: &str, b: &str) -> (r: Option<usize>)
    requires
        tree.wf(),
        0 <= i < tree.spec_len(),
    ensures
        match r {
            Some(c) => spec_child_of_kinds(*tree, i as int, 0, a@, b@) == Some(c as int) && i < c
                < tree.spec_len(),
            None => spec_child_of_kinds(*tree, i as int, 0, a@, b@) is None,
        },
{
    let m = tree.node(i).children.len();
    let mut k: usize = 0;
    while k < m
        invariant
            tree.wf(),
            0 <= i < tree.spec_len(),
            m == tree.spec_nodes()[i as int].children@.len(),
            k <= m,
            spec_child_of_kinds(*tree, i as int, k as int, a@, b@) == spec_child_of_kinds(
                *tree,
                i as int,
                0,
                a@,
                b@,
            ),
        decreases m - k,
    {
        let c = tree.node(i).children[k];
        if tree.kind_is(c, a) || tree.kind_is(c, b) {
            return Some(c);
        }
        k += 1;
    }
    None
}

/// Does any child of `i` (from `k` on) have kind `a`?
pub open spec fn spec_has_child_kind(tree: SyntaxTree, i: int, k: int, a: Seq<char>) -> bool
    decreases tree.spec_nodes()[i].children@.len() - k
        when tree.wf() && 0 <= i < tree.spec_len() && 0 <= k
{
    let ch = tree.spec_nodes()[i].children@;
    if k >= ch.len() {
        false
    } else if tree.spec_nodes()[ch[k] as int].kind@ == a {
        true
    } else {
        spec_has_child_kind(tree, i, k + 1, a)
    }
}

pub fn has_child_kind(tree: &SyntaxTree, i: usize, a: &str) -> (r: bool)
    requires
        tree.wf(),
        0 <= i < tree.spec_len(),
    ensures
        r == spec_has_child_kind(*tree, i as int, 0, a@),
{
    let m = tree.node(i).children.len();
    let mut k: usize = 0;
    while k < m
        invariant
            tree.wf(),
            0 <= i < tree.spec_len(),
            m == tree.spec_nodes()[i as int].children@.len(),
            k <= m,
            spec_has_child_kind(*tree, i as int, k as int, a@) == spec_has_child_kind(
                *tree,
                i as int,
                0,
                a@,
            ),
        decreases m - k,
    {
        let c = tree.node(i).children[k];
        if tree.kind_is(c, a) {
            return true;
        }
        k += 1;
    }
    false
}

/// Does any anonymous child of `i` (from `k` on) read exactly `text`?
pub open spec fn spec_has_anon_child_text(
    tree: SyntaxTree,
    i: int,
    k: int,
    text: Seq<char>,
    src: Seq<char>,
) -> bool
    decreases tree.spec_nodes()[i].children@.len() - k
        when tree.wf() && 0 <= i < tree.spec_len() && 0 <= k
{
    let ch = tree.spec_nodes()[i].children@;
    if k >= ch.len() {
        false
    } else if !tree.spec_nodes()[ch[k] as int].named && crate::tree::spec_node_text(
        tree.spec_nodes()[ch[k] as int],
        src,
    ) == text {
        true
    } else {
        spec_has_anon_child_text(tree, i, k + 1, text, src)
    }
}

pub fn has_anon_child_text(tree: &SyntaxTree, i: usize, text: &str, source: &str) -> (r: bool)
    requires
        tree.wf(),
        0 <= i < tree.spec_len(),
    ensures
        r == spec_has_anon_child_text(*tree, i as int, 0, text@, source@),
{
    let m = tree.node(i).children.len();
    let mut k: usize = 0;
    while k < m
        invariant
            tree.wf(),
            0 <= i < tree.spec_len(),
            m == tree.spec_nodes()[i as int].children@.len(),
            k <= m,
            spec_has_anon_child_text(*tree, i as int, k as int, text@, source@)
                == spec_has_anon_child_text(*tree, i as int, 0, text@, source@),
        decreases m - k,
    {
        let c = tree.node(i).children[k];
        if !tree.node(c).named {
            let t = crate::tree::node_text(tree, c, source);
            if str_eq(t.as_str(), text) {
                return true;
            }
        }
        k += 1;
    }
    false
}

/// The identifier leaf found below `i` by a right-to-left depth-first
/// search for a `stringidentifier` or `numberidentifier` node.
pub open spec fn spec_find_ident(tree: SyntaxTree, i: int) -> Option<int>
    decreases tree.spec_len() - i, tree.spec_nodes()[i].children@.len() + 1
        when tree.wf() && 0 <= i < tree.spec_len()
{
    if tree.spec_nodes()[i].kind@ == "stringidentifier"@ || tree.spec_nodes()[i].kind@
        == "numberidentifier"@ {
        Some(i)
    } else {
        spec_find_ident_children(tree, i, tree.spec_nodes()[i].children@.len() as int - 1)
    }
}

/// Search the children of `i` from position `k` leftwards.
pub open spec fn spec_find_ident_children(tree: SyntaxTree, i: int, k: int) -> Option<int>
    decreases tree.spec_len() - i, k + 1
        when tree.wf() && 0 <= i < tree.spec_len() && k < tree.spec_nodes()[i].children@.len()
    via spec_find_ident_children_decreases
{
    if k < 0 {
        None
    } else {
        match spec_find_ident(tree, tree.spec_nodes()[i].children@[k] as int) {
            Some(c) => Some(c),
            None => spec_find_ident_children(tree, i, k - 1),
        }
    }
}

#[via_fn]
proof fn spec_find_ident_children_decreases(tree: SyntaxTree, i: int, k: int) {
    if tree.wf() && 0 <= i < tree.spec_len() && 0 <= k < tree.spec_nodes()[i].children@.len() {
        assert(crate::tree::wf_nodes(tree.spec_nodes()));
        assert(0 <= i < tree.spec_nodes().len());
        assert(0 <= k < tree.spec_nodes()[i].children@.len());
        assert(i < tree.spec_nodes()[i].children@[k] < tree.spec_len());
    }
}

pub fn find_ident(tree: &SyntaxTree, i: usize) -> (r: Option<usize>)
    requires
        tree.wf(),
        0 <= i < tree.spec_len(),
    ensures
        match r {
            Some(c) => spec_find_ident(*tree, i as int) == Some(c as int) && 0 <= c
                < tree.spec_len(),
            None => spec_find_ident(*tree, i as int) is None,
        },
    decreases tree.spec_len() - i,
{
    if tree.kind_is(i, "stringidentifier") || tree.kind_is(i, "numberidentifier") {
        return Some(i);
    }
    let m = tree.node(i).children.len();
    let mut k: usize = m;
    while k > 0
        invariant
            tree.wf(),
            0 <= i < tree.spec_len(),
            m == tree.spec_nodes()[i as int].children@.len(),
            k <= m,
            tree.spec_nodes()[i as int].kind@ != "stringidentifier"@,
            tree.spec_nodes()[i as int].kind@ != "numberidentifier"@,
            spec_find_ident_children(*tree, i as int, k as int - 1) == spec_find_ident(
                *tree,
                i as int,
            ),
        decreases k,
    {
        let c = tree.node(i).children[k - 1];
        match find_ident(tree, c) {
            Some(f) => {
                return Some(f);
            },
            None => {},
        }
        k -= 1;
    }
    None
}

// ---------------------------------------------------------------------------
// Doc comments (JSDoc-lite)
// ---------------------------------------------------------------------------

/// A parsed doc comment: free description, `@return` text, `@param` texts.
pub struct DocComment {
    pub description: Option<String>,
    pub return_doc: Option<String>,
    pub param_docs: Vec<(String, String)>,
}

/// The abstract contents of a parsed doc comment.
pub ghost struct DocCommentV {
    pub description: Option<Seq<char>>,
    pub return_doc: Option<Seq<char>>,
    pub param_docs: Seq<(Seq<char>, Seq<char>)>,
}

/// `s` with every copy of the prefix `p` peeled off the front.
pub open spec fn spec_strip_all_prefix(s: Seq<char>, p: Seq<char>) -> Seq<char>
    decreases s.len() when p.len() > 0
{
    if crate::text::spec_starts_with(s, p) && s.len() >= p.len() && p.len() > 0 {
        spec_strip_all_prefix(s.subrange(p.len() as int, s.len() as int), p)
    } else {
        s
    }
}

/// `s` with every copy of the suffix `p` peeled off the end.
pub open spec fn spec_strip_all_suffix(s: Seq<char>, p: Seq<char>) -> Seq<char>
    decreases s.len() when p.len() > 0
{
    if s.len() >= p.len() && p.len() > 0 && s.subrange(s.len() - p.len(), s.len() as int) == p {
        spec_strip_all_suffix(s.subrange(0, s.len() - p.len()), p)
    } else {
        s
    }
}

/// `s` without its leading run of the character `c`.
pub open spec fn spec_strip_leading_char(s: Seq<char>, c: char) -> Seq<char>
    decreases s.len(),
{
    if s.len() > 0 && s[0] == c {
        spec_strip_leading_char(s.drop_first(), c)
    } else {
        s
    }
}

/// First whitespace position in `s`, or `-1`.
pub open spec fn spec_find_ws(s: Seq<char>) -> int
    decreases s.len(),
{
    if s.len() == 0 {
        -1
    } else if crate::text::is_ws(s[0]) {
        0
    } else {
        let r = spec_find_ws(s.drop_first());
        if r == -1 {
            -1
        } else {
            r + 1
        }
    }
}

pub fn strip_all_prefix<'a>(s: &'a str, p: &str) -> (r: &'a str)
    requires
        p@.len() > 0,
    ensures
        r@ == spec_strip_all_prefix(s@, p@),
    decreases s@.len(),
{
    if crate::text::starts_with(s, p) {
        let n = s.unicode_len();
        let m = p.unicode_len();
        let rest = s.substring_char(m, n);
        strip_all_prefix(rest, p)
    } else {
        s
    }
}

pub fn strip_all_suffix<'a>(s: &'a str, p: &str) -> (r: &'a str)
    requires
        p@.len() > 0,
    ensures
        r@ == spec_strip_all_suffix(s@, p@),
    decreases s@.len(),
{
    let n = s.unicode_len();
    let m = p.unicode_len();
    if n >= m {
        let tail = s.substring_char(n - m, n);
        if crate::text::str_eq(tail, p) {
            let head = s.substring_char(0, n - m);
            return strip_all_suffix(head, p);
        }
    }
    s
}

pub fn strip_leading_char<'a>(s: &'a str, c: char) -> (r: &'a str)
    ensures
        r@ == spec_strip_leading_char(s@, c),
    decreases s@.len(),
{
    let n = s.unicode_len();
    if n > 0 && s.get_char(0) == c {
        let rest = s.substring_char(1, n);
        proof {
            assert(rest@ =~= s@.drop_first());
        }
        strip_leading_char(rest, c)
    } else {
        s
    }
}

pub fn find_ws(s: &str) -> (r: Option<usize>)
    ensures
        match r {
            Some(i) => spec_find_ws(s@) == i && 0 <= i < s@.len(),
            None => spec_find_ws(s@) == -1,
        },
{
    let n = s.unicode_len();
    let mut i: usize = 0;
    while i < n
        invariant
            n == s@.len(),
            i <= n,
            forall|k: int| 0 <= k < i ==> !crate::text::is_ws(#[trigger] s@[k]),
        decreases n - i,
    {
        if crate::text::is_ws_exec(s.get_char(i)) {
            proof {
                lemma_find_ws_is(s@, i as int);
            }
            return Some(i);
        }
        i += 1;
    }
    proof {
        lemma_find_ws_none(s@);
    }
    None
}

proof fn lemma_find_ws_is(s: Seq<char>, i: int)
    requires
        0 <= i < s.len(),
        crate::text::is_ws(s[i]),
        forall|k: int| 0 <= k < i ==> !crate::text::is_ws(#[trigger] s[k]),
    ensures
        spec_find_ws(s) == i,
    decreases i,
{
    if i > 0 {
        lemma_find_ws_is(s.drop_first(), i - 1);
    }
}

proof fn lemma_find_ws_none(s: Seq<char>)
    requires
        forall|k: int| 0 <= k < s.len() ==> !crate::text::is_ws(#[trigger] s[k]),
    ensures
        spec_find_ws(s) == -1,
    decreases s.len(),
{
    if s.len() > 0 {
        lemma_find_ws_none(s.drop_first());
    }
}

/// The state the doc-comment reader carries across lines.
pub ghost struct DocAcc {
    pub desc_lines: Seq<Seq<char>>,
    pub return_doc: Option<Seq<char>>,
    pub param_docs: Seq<(Seq<char>, Seq<char>)>,
    pub in_tags: bool,
}

pub open spec fn doc_init() -> DocAcc {
    DocAcc {
        desc_lines: Seq::<Seq<char>>::empty(),
        return_doc: None,
        param_docs: Seq::<(Seq<char>, Seq<char>)>::empty(),
        in_tags: false,
    }
}

/// One doc-comment line after cleaning: trimmed, leading stars dropped,
/// trimmed again.
pub open spec fn spec_clean_doc_line(line: Seq<char>) -> Seq<char> {
    crate::text::spec_trim(spec_strip_leading_char(crate::text::spec_trim(line), '*'))
}

/// One step of the doc-comment reader.
pub open spec fn doc_step(st: DocAcc, line: Seq<char>) -> DocAcc {
    let t = spec_clean_doc_line(line);
    if crate::text::spec_starts_with(t, "@param"@) {
        let rest = crate::text::spec_trim(spec_strip_all_prefix(t, "@param"@));
        let w = spec_find_ws(rest);
        if w >= 0 {
            DocAcc {
                in_tags: true,
                param_docs: st.param_docs.push(
                    (
                        crate::text::spec_trim(rest.subrange(0, w)),
                        crate::text::spec_trim(rest.subrange(w + 1, rest.len() as int)),
                    ),
                ),
                ..st
            }
        } else if rest.len() > 0 {
            DocAcc {
                in_tags: true,
                param_docs: st.param_docs.push((rest, Seq::<char>::empty())),
                ..st
            }
        } else {
            DocAcc { in_tags: true, ..st }
        }
    } else if crate::text::spec_starts_with(t, "@return"@) {
        let rest = crate::text::spec_trim(
            spec_strip_all_prefix(spec_strip_all_prefix(t, "@returns"@), "@return"@),
        );
        DocAcc { in_tags: true, return_doc: Some(rest), ..st }
    } else if !st.in_tags && t.len() > 0 {
        DocAcc { desc_lines: st.desc_lines.push(t), ..st }
    } else {
        st
    }
}

pub open spec fn doc_run_from(st: DocAcc, lines: Seq<Seq<char>>) -> DocAcc
    decreases lines.len(),
{
    if lines.len() == 0 {
        st
    } else {
        doc_run_from(doc_step(st, lines[0]), lines.drop_first())
    }
}

pub proof fn lemma_doc_run_snoc(st: DocAcc, lines: Seq<Seq<char>>, line: Seq<char>)
    ensures
        doc_run_from(st, lines.push(line)) == doc_step(doc_run_from(st, lines), line),
    decreases lines.len(),
{
    if lines.len() == 0 {
        assert(lines.push(line)[0] == line);
        assert(lines.push(line).drop_first() =~= Seq::<Seq<char>>::empty());
        assert(doc_run_from(doc_step(st, line), Seq::<Seq<char>>::empty()) == doc_step(st, line));
    } else {
        assert(lines.push(line)[0] == lines[0]);
        assert(lines.push(line).drop_first() =~= lines.drop_first().push(line));
        lemma_doc_run_snoc(doc_step(st, lines[0]), lines.drop_first(), line);
    }
}

/// Description lines joined with single spaces.
pub open spec fn spec_join_space(lines: Seq<Seq<char>>) -> Seq<char>
    decreases lines.len(),
{
    if lines.len() == 0 {
        Seq::<char>::empty()
    } else if lines.len() == 1 {
        lines[0]
    } else {
        spec_join_space(lines.drop_last()) + " "@ + lines.last()
    }
}

/// The inner text of a raw doc comment: `/**` and `*/` markers peeled,
/// then trimmed.
pub open spec fn spec_doc_inner(raw: Seq<char>) -> Seq<char> {
    crate::text::spec_trim(spec_strip_all_suffix(spec_strip_all_prefix(raw, "/**"@), "*/"@))
}

/// What parsing a raw doc comment yields.
pub open spec fn spec_parse_doc(raw: Seq<char>) -> DocCommentV {
    let acc = doc_run_from(doc_init(), crate::text::spec_lines(spec_doc_inner(raw)));
    DocCommentV {
        description: if acc.desc_lines.len() == 0 {
            None
        } else {
            Some(spec_join_space(acc.desc_lines))
        },
        return_doc: acc.return_doc,
        param_docs: acc.param_docs,
    }
}

pub open spec fn doc_view(d: DocComment) -> DocCommentV {
    DocCommentV {
        description: opt_view(d.description),
        return_doc: opt_view(d.return_doc),
        param_docs: d.param_docs@.map_values(|p: (String, String)| (p.0@, p.1@)),
    }
}

/// Parse a raw doc comment: lines before any tag form the description,
/// `@param NAME text` records a parameter text, `@return(s) text` the
/// return text.
pub fn parse_doc_comment(raw: &str) -> (r: DocComment)
    ensures
        doc_view(r) == spec_parse_doc(raw@),
{
    proof {
        reveal_strlit("/**");
        reveal_strlit("*/");
        reveal_strlit("@param");
        reveal_strlit("@returns");
        reveal_strlit("@return");
    }
    let stripped = strip_all_suffix(strip_all_prefix(raw, "/**"), "*/");
    let inner = crate::text::trim(stripped);
    let lines = crate::text::split_lines(inner);
    let ghost slines = crate::text::spec_lines(spec_doc_inner(raw@));
    let n = lines.len();
    let mut desc_lines: Vec<String> = Vec::new();
    let mut return_doc: Option<String> = None;
    let mut param_docs: Vec<(String, String)> = Vec::new();
    let mut in_tags = false;
    let mut i: usize = 0;
    while i < n
        invariant
            n == lines@.len(),
            crate::text::strs_view(lines@) == slines,
            i <= n,
            ({
                let acc = doc_run_from(doc_init(), slines.subrange(0, i as int));
                &&& crate::text::strs_view(desc_lines@) == acc.desc_lines
                &&& opt_view(return_doc) == acc.return_doc
                &&& param_docs@.map_values(|p: (String, String)| (p.0@, p.1@)) == acc.param_docs
                &&& in_tags == acc.in_tags
            }),
        decreases n - i,
    {
        let ghost done = slines.subrange(0, i as int);
        let ghost acc = doc_run_from(doc_init(), done);
        proof {
            assert(slines.subrange(0, i + 1) =~= done.push(slines[i as int]));
            lemma_doc_run_snoc(doc_init(), done, slines[i as int]);
            assert(lines@[i as int]@ == slines[i as int]);
        }
        proof {
            reveal_strlit("@param");
            reveal_strlit("@returns");
            reveal_strlit("@return");
        }
        let ghost next = doc_step(acc, slines[i as int]);
        let line = &lines[i];
        let t0 = crate::text::trim(line.as_str());
        let t1 = strip_leading_char(t0, '*');
        let t = crate::text::trim(t1);
        let ghost tv = spec_clean_doc_line(slines[i as int]);
        proof {
            assert(t@ == tv);
        }
        if crate::text::starts_with(t, "@param") {
            in_tags = true;
            let rest_raw = strip_all_prefix(t, "@param");
            let rest = crate::text::trim(rest_raw);
            match find_ws(rest) {
                Some(w) => {
                    let rlen = rest.unicode_len();
                    let name_part = crate::text::trim(rest.substring_char(0, w));
                    let doc_part = crate::text::trim(rest.substring_char(w + 1, rlen));
                    let name_owned = crate::text::substring_owned(
                        name_part,
                        0,
                        name_part.unicode_len(),
                    );
                    let doc_owned = crate::text::substring_owned(doc_part, 0, doc_part.unicode_len());
                    let ghost pre_pd = param_docs@;
                    param_docs.push((name_owned, doc_owned));
                    proof {
                        assert(rest@.subrange(0, w as int) =~= rest@.subrange(0, w as int));
                        assert(name_owned@ =~= crate::text::spec_trim(rest@.subrange(0, w as int)));
                        assert(doc_owned@ =~= crate::text::spec_trim(
                            rest@.subrange(w + 1, rest@.len() as int),
                        ));
                        assert(param_docs@.map_values(|p: (String, String)| (p.0@, p.1@))
                            =~= pre_pd.map_values(|p: (String, String)| (p.0@, p.1@)).push(
                            (name_owned@, doc_owned@),
                        ));
                    }
                },
                None => {
                    let rlen = rest.unicode_len();
                    if rlen > 0 {
                        let name_owned = crate::text::substring_owned(rest, 0, rlen);
                        let empty_doc = String::new();
                        let ghost pre_pd = param_docs@;
                        param_docs.push((name_owned, empty_doc));
                        proof {
                            assert(name_owned@ =~= rest@);
                            assert(param_docs@.map_values(|p: (String, String)| (p.0@, p.1@))
                                =~= pre_pd.map_values(|p: (String, String)| (p.0@, p.1@)).push(
                                (rest@, Seq::<char>::empty()),
                            ));
                        }
                    }
                },
            }
        } else if crate::text::starts_with(t, "@return") {
            in_tags = true;
            let rest_raw = strip_all_prefix(strip_all_prefix(t, "@returns"), "@return");
            let rest = crate::text::trim(rest_raw);
            return_doc = Some(crate::text::substring_owned(rest, 0, rest.unicode_len()));
            proof {
                assert(opt_view(return_doc) matches Some(v) && v =~= next.return_doc.unwrap());
            }
        } else if !in_tags && t.unicode_len() > 0 {
            let ghost pre_dl = desc_lines@;
            let kept = crate::text::substring_owned(t, 0, t.unicode_len());
            desc_lines.push(kept);
            proof {
                crate::text::lemma_strs_push(pre_dl, desc_lines@.last());
                assert(desc_lines@.last()@ =~= tv);
            }
        }
        i += 1;
    }
    proof {
        assert(slines.subrange(0, n as int) =~= slines);
    }
    let description = if desc_lines.len() == 0 {
        None
    } else {
        Some(join_with_space(&desc_lines))
    };
    DocComment { description, return_doc, param_docs }
}

/// Join strings with single spaces.
fn join_with_space(lines: &Vec<String>) -> (r: String)
    requires
        lines@.len() > 0,
    ensures
        r@ == spec_join_space(crate::text::strs_view(lines@)),
{
    let n = lines.len();
    let mut out = String::new();
    out.append(lines[0].as_str());
    proof {
        assert(out@ =~= crate::text::strs_view(lines@)[0]);
        assert(crate::text::strs_view(lines@).subrange(0, 1).len() == 1);
        assert(spec_join_space(crate::text::strs_view(lines@).subrange(0, 1)) == crate::text::strs_view(
            lines@,
        ).subrange(0, 1)[0]);
    }
    let mut i: usize = 1;
    while i < n
        invariant
            n == lines@.len(),
            1 <= i <= n,
            out@ == spec_join_space(crate::text::strs_view(lines@).subrange(0, i as int)),
        decreases n - i,
    {
        out.append(" ");
        out.append(lines[i].as_str());
        proof {
            let v = crate::text::strs_view(lines@);
            let cur = v.subrange(0, i + 1);
            assert(cur.drop_last() =~= v.subrange(0, i as int));
            assert(cur.last() == v[i as int]);
            assert(v[i as int] == lines@[i as int]@);
            assert(out@ =~= spec_join_space(cur));
        }
        i += 1;
    }
    proof {
        assert(crate::text::strs_view(lines@).subrange(0, n as int) =~= crate::text::strs_view(
            lines@,
        ));
    }
    out
}

// ---------------------------------------------------------------------------
// Parameter extraction
// ---------------------------------------------------------------------------

/// The parameter kind a typed parameter node's kind name stands for.
pub open spec fn spec_param_kind_of(kind: Seq<char>) -> Option<ParamKind> {
    if kind == "numeric_parameter"@ {
        Some(ParamKind::Numeric)
    } else if kind == "string_parameter"@ {
        Some(ParamKind::String)
    } else if kind == "string_array_parameter"@ || kind == "stringarray"@ {
        Some(ParamKind::StringArray)
    } else if kind == "number_array_parameter"@ || kind == "numberarray"@ {
        Some(ParamKind::NumericArray)
    } else {
        None
    }
}

/// The parameter read from wrapper node `pw`, scanning its named children
/// from position `k` for the first typed parameter node.
pub open spec fn spec_param_from(
    tree: SyntaxTree,
    pw: int,
    k: int,
    is_opt: bool,
    src: Seq<char>,
) -> Option<ParamInfoV>
    decreases tree.spec_nodes()[pw].children@.len() - k
        when tree.wf() && 0 <= pw < tree.spec_len() && 0 <= k
{
    let ch = tree.spec_nodes()[pw].children@;
    if k >= ch.len() {
        None
    } else {
        let c = ch[k] as int;
        if !tree.spec_nodes()[c].named {
            spec_param_from(tree, pw, k + 1, is_opt, src)
        } else {
            match spec_param_kind_of(tree.spec_nodes()[c].kind@) {
                Some(pk) => match spec_find_ident(tree, c) {
                    Some(id) => Some(
                        ParamInfoV {
                            name: crate::tree::spec_node_text(tree.spec_nodes()[id], src),
                            kind: pk,
                            is_optional: is_opt,
                            is_reference: spec_has_anon_child_text(tree, pw, 0, "&"@, src),
                            documentation: None,
                        },
                    ),
                    None => None,
                },
                None => spec_param_from(tree, pw, k + 1, is_opt, src),
            }
        }
    }
}

fn param_kind_of(tree: &SyntaxTree, c: usize) -> (r: Option<ParamKind>)
    requires
        tree.wf(),
        0 <= c < tree.spec_len(),
    ensures
        r == spec_param_kind_of(tree.spec_nodes()[c as int].kind@),
{
    if tree.kind_is(c, "numeric_parameter") {
        Some(ParamKind::Numeric)
    } else if tree.kind_is(c, "string_parameter") {
        Some(ParamKind::String)
    } else if tree.kind_is(c, "string_array_parameter") || tree.kind_is(c, "stringarray") {
        Some(ParamKind::StringArray)
    } else if tree.kind_is(c, "number_array_parameter") || tree.kind_is(c, "numberarray") {
        Some(ParamKind::NumericArray)
    } else {
        None
    }
}

/// Read one parameter out of its wrapper node.
fn extract_one_param(tree: &SyntaxTree, pw: usize, is_opt: bool, source: &str) -> (r: Option<
    ParamInfo,
>)
    requires
        tree.wf(),
        0 <= pw < tree.spec_len(),
    ensures
        match r {
            Some(p) => spec_param_from(*tree, pw as int, 0, is_opt, source@) == Some(param_view(p)),
            None => spec_param_from(*tree, pw as int, 0, is_opt, source@) is None,
        },
{
    let is_reference = has_anon_child_text(tree, pw, "&", source);
    let m = tree.node(pw).children.len();
    let mut k: usize = 0;
    while k < m
        invariant
            tree.wf(),
            0 <= pw < tree.spec_len(),
            m == tree.spec_nodes()[pw as int].children@.len(),
            k <= m,
            is_reference == spec_has_anon_child_text(*tree, pw as int, 0, "&"@, source@),
            spec_param_from(*tree, pw as int, k as int, is_opt, source@) == spec_param_from(
                *tree,
                pw as int,
                0,
                is_opt,
                source@,
            ),
        decreases m - k,
    {
        let c = tree.node(pw).children[k];
        if tree.node(c).named {
            match param_kind_of(tree, c) {
                Some(pk) => {
                    match find_ident(tree, c) {
                        Some(id) => {
                            let name = crate::tree::node_text(tree, id, source);
                            return Some(
                                ParamInfo {
                                    name,
                                    kind: pk,
                                    is_optional: is_opt,
                                    is_reference,
                                    documentation: None,
                                },
                            );
                        },
                        None => {
                            return None;
                        },
                    }
                },
                None => {},
            }
        }
        k += 1;
    }
    None
}

/// The parameters of a parameter list, scanning its children from `k`.
pub open spec fn spec_params_from(tree: SyntaxTree, pl: int, k: int, src: Seq<char>) -> Seq<
    ParamInfoV,
>
    decreases tree.spec_nodes()[pl].children@.len() - k
        when tree.wf() && 0 <= pl < tree.spec_len() && 0 <= k
{
    let ch = tree.spec_nodes()[pl].children@;
    if k >= ch.len() {
        Seq::<ParamInfoV>::empty()
    } else {
        let c = ch[k] as int;
        let kind = tree.spec_nodes()[c].kind@;
        if kind == "required_parameter"@ || kind == "optional_parameter"@ {
            let is_opt = kind == "optional_parameter"@;
            match spec_child_of_kinds(tree, c, 0, "parameter"@, "parameter"@) {
                Some(pn) => match spec_param_from(tree, pn, 0, is_opt, src) {
                    Some(p) => seq![p] + spec_params_from(tree, pl, k + 1, src),
                    None => spec_params_from(tree, pl, k + 1, src),
                },
                None => spec_params_from(tree, pl, k + 1, src),
            }
        } else {
            spec_params_from(tree, pl, k + 1, src)
        }
    }
}

pub open spec fn params_view(s: Seq<ParamInfo>) -> Seq<ParamInfoV> {
    s.map_values(|p: ParamInfo| param_view(p))
}

/// Read all parameters of a parameter list.
fn extract_params(tree: &SyntaxTree, pl: usize, source: &str) -> (r: Vec<ParamInfo>)
    requires
        tree.wf(),
        0 <= pl < tree.spec_len(),
    ensures
        params_view(r@) == spec_params_from(*tree, pl as int, 0, source@),
{
    let m = tree.node(pl).children.len();
    let mut out: Vec<ParamInfo> = Vec::new();
    let mut k: usize = 0;
    proof {
        assert(params_view(out@) + spec_params_from(*tree, pl as int, 0, source@)
            =~= spec_params_from(*tree, pl as int, 0, source@));
    }
    while k < m
        invariant
            tree.wf(),
            0 <= pl < tree.spec_len(),
            m == tree.spec_nodes()[pl as int].children@.len(),
            k <= m,
            params_view(out@) + spec_params_from(*tree, pl as int, k as int, source@)
                == spec_params_from(*tree, pl as int, 0, source@),
        decreases m - k,
    {
        let ghost rest = spec_params_from(*tree, pl as int, k as int, source@);
        let c = tree.node(pl).children[k];
        let req = tree.kind_is(c, "required_parameter");
        let opt = tree.kind_is(c, "optional_parameter");
        if req || opt {
            match child_of_kinds(tree, c, "parameter", "parameter") {
                Some(pn) => {
                    match extract_one_param(tree, pn, opt, source) {
                        Some(p) => {
                            let ghost pre = out@;
                            out.push(p);
                            proof {
                                assert(params_view(out@) =~= params_view(pre).push(
                                    param_view(out@.last()),
                                ));
                                assert(rest == seq![param_view(out@.last())] + spec_params_from(
                                    *tree,
                                    pl as int,
                                    k + 1,
                                    source@,
                                ));
                                assert(params_view(pre).push(param_view(out@.last()))
                                    + spec_params_from(*tree, pl as int, k + 1, source@)
                                    =~= params_view(pre) + rest);
                            }
                        },
                        None => {},
                    }
                },
                None => {},
            }
        }
        k += 1;
    }
    proof {
        assert(params_view(out@) + Seq::<ParamInfoV>::empty() =~= params_view(out@));
    }
    out
}

// ---------------------------------------------------------------------------
// Parameter substitutions
// ---------------------------------------------------------------------------

/// Does any named child of `b` (from `k`) have kind `param_substitution`?
pub open spec fn spec_sub_in_param(tree: SyntaxTree, b: int, k: int) -> bool
    decreases tree.spec_nodes()[b].children@.len() - k
        when tree.wf() && 0 <= b < tree.spec_len() && 0 <= k
{
    let ch = tree.spec_nodes()[b].children@;
    if k >= ch.len() {
        false
    } else {
        let c = ch[k] as int;
        (tree.spec_nodes()[c].named && tree.spec_nodes()[c].kind@ == "param_substitution"@)
            || spec_sub_in_param(tree, b, k + 1)
    }
}

/// Does any `parameter` child of `a` (from `k`) hold a substitution?
pub open spec fn spec_sub_in_wrap(tree: SyntaxTree, a: int, k: int) -> bool
    decreases tree.spec_nodes()[a].children@.len() - k
        when tree.wf() && 0 <= a < tree.spec_len() && 0 <= k
{
    let ch = tree.spec_nodes()[a].children@;
    if k >= ch.len() {
        false
    } else {
        let c = ch[k] as int;
        (tree.spec_nodes()[c].kind@ == "parameter"@ && spec_sub_in_param(tree, c, 0))
            || spec_sub_in_wrap(tree, a, k + 1)
    }
}

/// Does the parameter list hold any `[[Name]]` substitution?
pub open spec fn spec_has_substitution(tree: SyntaxTree, pl: int, k: int) -> bool
    decreases tree.spec_nodes()[pl].children@.len() - k
        when tree.wf() && 0 <= pl < tree.spec_len() && 0 <= k
{
    let ch = tree.spec_nodes()[pl].children@;
    if k >= ch.len() {
        false
    } else {
        let c = ch[k] as int;
        let kind = tree.spec_nodes()[c].kind@;
        ((kind == "required_parameter"@ || kind == "optional_parameter"@) && spec_sub_in_wrap(
            tree,
            c,
            0,
        )) || spec_has_substitution(tree, pl, k + 1)
    }
}

fn sub_in_param(tree: &SyntaxTree, b: usize) -> (r: bool)
    requires
        tree.wf(),
        0 <= b < tree.spec_len(),
    ensures
        r == spec_sub_in_param(*tree, b as int, 0),
{
    let m = tree.node(b).children.len();
    let mut k: usize = 0;
    while k < m
        invariant
            tree.wf(),
            0 <= b < tree.spec_len(),
            m == tree.spec_nodes()[b as int].children@.len(),
            k <= m,
            spec_sub_in_param(*tree, b as int, k as int) == spec_sub_in_param(*tree, b as int, 0),
        decreases m - k,
    {
        let c = tree.node(b).children[k];
        if tree.node(c).named && tree.kind_is(c, "param_substitution") {
            return true;
        }
        k += 1;
    }
    false
}

fn sub_in_wrap(tree: &SyntaxTree, a: usize) -> (r: bool)
    requires
        tree.wf(),
        0 <= a < tree.spec_len(),
    ensures
        r == spec_sub_in_wrap(*tree, a as int, 0),
{
    let m = tree.node(a).children.len();
    let mut k: usize = 0;
    while k < m
        invariant
            tree.wf(),
            0 <= a < tree.spec_len(),
            m == tree.spec_nodes()[a as int].children@.len(),
            k <= m,
            spec_sub_in_wrap(*tree, a as int, k as int) == spec_sub_in_wrap(*tree, a as int, 0),
        decreases m - k,
    {
        let c = tree.node(a).children[k];
        if tree.kind_is(c, "parameter") && sub_in_param(tree, c) {
            return true;
        }
        k += 1;
    }
    false
}

/// Does the parameter list hold any `[[Name]]` substitution token?
pub fn has_substitution(tree: &SyntaxTree, pl: usize) -> (r: bool)
    requires
        tree.wf(),
        0 <= pl < tree.spec_len(),
    ensures
        r == spec_has_substitution(*tree, pl as int, 0),
{
    let m = tree.node(pl).children.len();
    let mut k: usize = 0;
    while k < m
        invariant
            tree.wf(),
            0 <= pl < tree.spec_len(),
            m == tree.spec_nodes()[pl as int].children@.len(),
            k <= m,
            spec_has_substitution(*tree, pl as int, k as int) == spec_has_substitution(
                *tree,
                pl as int,
                0,
            ),
        decreases m - k,
    {
        let c = tree.node(pl).children[k];
        let wrap = tree.kind_is(c, "required_parameter") || tree.kind_is(c, "optional_parameter");
        if wrap && sub_in_wrap(tree, c) {
            return true;
        }
        k += 1;
    }
    false
}

// ---------------------------------------------------------------------------
// Locating a definition's doc comment
// ---------------------------------------------------------------------------

/// Position of node `i` in the child list of `p`, scanning from `k`.
pub open spec fn spec_child_pos(tree: SyntaxTree, p: int, k: int, i: int) -> Option<int>
    decreases tree.spec_nodes()[p].children@.len() - k
        when tree.wf() && 0 <= p < tree.spec_len() && 0 <= k
{
    let ch = tree.spec_nodes()[p].children@;
    if k >= ch.len() {
        None
    } else if ch[k] == i {
        Some(k)
    } else {
        spec_child_pos(tree, p, k + 1, i)
    }
}

fn child_pos(tree: &SyntaxTree, p: usize, i: usize) -> (r: Option<usize>)
    requires
        tree.wf(),
        0 <= p < tree.spec_len(),
    ensures
        match r {
            Some(k) => spec_child_pos(*tree, p as int, 0, i as int) == Some(k as int) && k
                < tree.spec_nodes()[p as int].children@.len(),
            None => spec_child_pos(*tree, p as int, 0, i as int) is None,
        },
{
    let m = tree.node(p).children.len();
    let mut k: usize = 0;
    while k < m
        invariant
            tree.wf(),
            0 <= p < tree.spec_len(),
            m == tree.spec_nodes()[p as int].children@.len(),
            k <= m,
            spec_child_pos(*tree, p as int, k as int, i as int) == spec_child_pos(
                *tree,
                p as int,
                0,
                i as int,
            ),
        decreases m - k,
    {
        if tree.node(p).children[k] == i {
            return Some(k);
        }
        k += 1;
    }
    None
}

/// The raw doc comment attached to a `def_statement`: a `doc_comment`
/// token on the line immediately before the definition's line.
pub open spec fn spec_find_doc_comment(tree: SyntaxTree, d: int, src: Seq<char>) -> Option<
    Seq<char>,
>
    recommends
        tree.wf(),
        0 <= d < tree.spec_len(),
{
    match tree.spec_nodes()[d].parent {
        None => None,
        Some(lp) => {
            if tree.spec_nodes()[lp as int].kind@ != "line"@ {
                None
            } else {
                match tree.spec_nodes()[lp as int].parent {
                    None => None,
                    Some(gp) => {
                        match spec_child_pos(tree, gp as int, 0, lp as int) {
                            None => None,
                            Some(pos) => {
                                if pos == 0 {
                                    None
                                } else {
                                    let prev = tree.spec_nodes()[gp as int].children@[pos - 1] as int;
                                    if tree.spec_nodes()[prev].kind@ != "line"@ {
                                        None
                                    } else {
                                        match spec_child_of_kinds(
                                            tree,
                                            prev,
                                            0,
                                            "doc_comment"@,
                                            "doc_comment"@,
                                        ) {
                                            Some(dc) => Some(
                                                crate::tree::spec_node_text(
                                                    tree.spec_nodes()[dc],
                                                    src,
                                                ),
                                            ),
                                            None => None,
                                        }
                                    }
                                }
                            },
                        }
                    },
                }
            }
        },
    }
}

fn find_doc_comment(tree: &SyntaxTree, d: usize, source: &str) -> (r: Option<String>)
    requires
        tree.wf(),
        0 <= d < tree.spec_len(),
    ensures
        match r {
            Some(t) => spec_find_doc_comment(*tree, d as int, source@) == Some(t@),
            None => spec_find_doc_comment(*tree, d as int, source@) is None,
        },
{
    let lp = match tree.node(d).parent {
        Some(lp) => lp,
        None => {
            return None;
        },
    };
    if !tree.kind_is(lp, "line") {
        return None;
    }
    let gp = match tree.node(lp).parent {
        Some(gp) => gp,
        None => {
            return None;
        },
    };
    let pos = match child_pos(tree, gp, lp) {
        Some(p) => p,
        None => {
            return None;
        },
    };
    if pos == 0 {
        return None;
    }
    let prev = tree.node(gp).children[pos - 1];
    if !tree.kind_is(prev, "line") {
        return None;
    }
    match child_of_kinds(tree, prev, "doc_comment", "doc_comment") {
        Some(dc) => Some(crate::tree::node_text(tree, dc, source)),
        None => None,
    }
}

// ---------------------------------------------------------------------------
// Attaching parameter docs
// ---------------------------------------------------------------------------

/// `params` with the first entry named `name` (case-insensitively) given
/// documentation `txt`.
pub open spec fn spec_set_first(
    params: Seq<ParamInfoV>,
    name: Seq<char>,
    txt: Seq<char>,
) -> Seq<ParamInfoV>
    decreases params.len(),
{
    if params.len() == 0 {
        params
    } else if lower_seq(params[0].name) == lower_seq(name) {
        seq![ParamInfoV { documentation: Some(txt), ..params[0] }] + params.drop_first()
    } else {
        seq![params[0]] + spec_set_first(params.drop_first(), name, txt)
    }
}

/// `params` with every doc pair applied in order.
pub open spec fn spec_attach_docs(
    params: Seq<ParamInfoV>,
    docs: Seq<(Seq<char>, Seq<char>)>,
) -> Seq<ParamInfoV>
    decreases docs.len(),
{
    if docs.len() == 0 {
        params
    } else {
        spec_attach_docs(spec_set_first(params, docs[0].0, docs[0].1), docs.drop_first())
    }
}

proof fn lemma_set_first_at(params: Seq<ParamInfoV>, name: Seq<char>, txt: Seq<char>, j: int)
    requires
        0 <= j < params.len(),
        lower_seq(params[j].name) == lower_seq(name),
        forall|q: int| 0 <= q < j ==> lower_seq((#[trigger] params[q]).name) != lower_seq(name),
    ensures
        spec_set_first(params, name, txt) == params.update(
            j,
            ParamInfoV { documentation: Some(txt), ..params[j] },
        ),
    decreases j,
{
    if j == 0 {
        assert(spec_set_first(params, name, txt) =~= params.update(
            0,
            ParamInfoV { documentation: Some(txt), ..params[0] },
        ));
    } else {
        lemma_set_first_at(params.drop_first(), name, txt, j - 1);
        assert(seq![params[0]] + params.drop_first().update(
            j - 1,
            ParamInfoV { documentation: Some(txt), ..params[j] },
        ) =~= params.update(j, ParamInfoV { documentation: Some(txt), ..params[j] }));
    }
}

proof fn lemma_set_first_none(params: Seq<ParamInfoV>, name: Seq<char>, txt: Seq<char>)
    requires
        forall|q: int|
            0 <= q < params.len() ==> lower_seq((#[trigger] params[q]).name) != lower_seq(name),
    ensures
        spec_set_first(params, name, txt) == params,
    decreases params.len(),
{
    if params.len() > 0 {
        lemma_set_first_none(params.drop_first(), name, txt);
        assert(seq![params[0]] + params.drop_first() =~= params);
    }
}

/// Set the documentation of the first parameter named `pname`.
fn attach_one(params: &mut Vec<ParamInfo>, pname: &str, pdoc: &str)
    ensures
        params_view(final(params)@) == spec_set_first(params_view(old(params)@), pname@, pdoc@),
{
    let ghost pre = params_view(params@);
    let m = params.len();
    let mut j: usize = 0;
    while j < m
        invariant
            m == params@.len(),
            j <= m,
            pre == params_view(params@),
            pre == params_view(old(params)@),
            forall|q: int|
                0 <= q < j ==> lower_seq((#[trigger] pre[q]).name) != lower_seq(pname@),
        decreases m - j,
    {
        if crate::text::eq_ignore_case(params[j].name.as_str(), pname) {
            let updated = ParamInfo {
                name: params[j].name.clone(),
                kind: params[j].kind,
                is_optional: params[j].is_optional,
                is_reference: params[j].is_reference,
                documentation: Some(pdoc.to_owned()),
            };
            let ghost upv = param_view(updated);
            params[j] = updated;
            proof {
                assert(params_view(params@) =~= pre.update(j as int, upv));
                assert(upv == ParamInfoV { documentation: Some(pdoc@), ..pre[j as int] });
                lemma_set_first_at(pre, pname@, pdoc@, j as int);
            }
            return;
        }
        j += 1;
    }
    proof {
        lemma_set_first_none(pre, pname@, pdoc@);
    }
}

/// Attach the doc texts to the matching parameters, first match wins.
fn attach_docs(params: &mut Vec<ParamInfo>, docs: &Vec<(String, String)>)
    ensures
        params_view(final(params)@) == spec_attach_docs(
            params_view(old(params)@),
            docs@.map_values(|p: (String, String)| (p.0@, p.1@)),
        ),
{
    let ghost sdocs = docs@.map_values(|p: (String, String)| (p.0@, p.1@));
    let n = docs.len();
    let mut i: usize = 0;
    proof {
        assert(sdocs.skip(0) =~= sdocs);
    }
    while i < n
        invariant
            n == docs@.len(),
            sdocs == docs@.map_values(|p: (String, String)| (p.0@, p.1@)),
            i <= n,
            spec_attach_docs(params_view(params@), sdocs.skip(i as int)) == spec_attach_docs(
                params_view(old(params)@),
                sdocs,
            ),
        decreases n - i,
    {
        let ghost pre = params_view(params@);
        proof {
            assert(sdocs.skip(i as int)[0] == sdocs[i as int]);
            assert(sdocs[i as int] == (docs@[i as int].0@, docs@[i as int].1@));
            assert(sdocs.skip(i as int).drop_first() =~= sdocs.skip(i + 1));
        }
        let pname = &docs[i].0;
        let pdoc = &docs[i].1;
        attach_one(params, pname.as_str(), pdoc.as_str());
        proof {
            assert(spec_attach_docs(pre, sdocs.skip(i as int)) == spec_attach_docs(
                spec_set_first(pre, pname@, pdoc@),
                sdocs.skip(i + 1),
            ));
        }
        i += 1;
    }
    proof {
        assert(sdocs.skip(n as int).len() == 0);
    }
}

// ---------------------------------------------------------------------------
// One definition
// ---------------------------------------------------------------------------

/// What extracting a `def_statement` yields: the name and spans of the
/// inner function definition, its parameters, flags and documentation.
pub open spec fn spec_extract_def(tree: SyntaxTree, d: int, src: Seq<char>) -> Option<FunctionDefV>
    recommends
        tree.wf(),
        0 <= d < tree.spec_len(),
{
    let is_library = spec_has_child_kind(tree, d, 0, "library_keyword"@);
    match spec_child_of_kinds(
        tree,
        d,
        0,
        "string_function_definition"@,
        "numeric_function_definition"@,
    ) {
        None => None,
        Some(fd) => match spec_child_of_kinds(tree, fd, 0, "function_name"@, "function_name"@) {
            None => None,
            Some(ni) => {
                let params0 = match spec_child_of_kinds(tree, fd, 0, "parameter_list"@, "parameter_list"@) {
                    Some(pl) => spec_params_from(tree, pl, 0, src),
                    None => Seq::<ParamInfoV>::empty(),
                };
                let has_sub = match spec_child_of_kinds(tree, fd, 0, "parameter_list"@, "parameter_list"@) {
                    Some(pl) => spec_has_substitution(tree, pl, 0),
                    None => false,
                };
                let (params, doc, ret) = match spec_find_doc_comment(tree, d, src) {
                    Some(raw) => {
                        let dc = spec_parse_doc(raw);
                        (spec_attach_docs(params0, dc.param_docs), dc.description, dc.return_doc)
                    },
                    None => (params0, None, None),
                };
                Some(
                    FunctionDefV {
                        name: crate::tree::spec_node_text(tree.spec_nodes()[ni], src),
                        range: crate::tree::spec_node_range(tree.spec_nodes()[d]),
                        selection_range: crate::tree::spec_node_range(tree.spec_nodes()[ni]),
                        is_library,
                        is_import_only: false,
                        params,
                        has_param_substitution: has_sub,
                        documentation: doc,
                        return_documentation: ret,
                    },
                )
            },
        },
    }
}

/// Extract one `def_statement`.
pub fn extract_one_def(tree: &SyntaxTree, d: usize, source: &str) -> (r: Option<FunctionDef>)
    requires
        tree.wf(),
        0 <= d < tree.spec_len(),
    ensures
        match r {
            Some(f) => spec_extract_def(*tree, d as int, source@) == Some(def_view(f)),
            None => spec_extract_def(*tree, d as int, source@) is None,
        },
{
    let is_library = has_child_kind(tree, d, "library_keyword");
    let fd = match child_of_kinds(
        tree,
        d,
        "string_function_definition",
        "numeric_function_definition",
    ) {
        Some(fd) => fd,
        None => {
            return None;
        },
    };
    let ni = match child_of_kinds(tree, fd, "function_name", "function_name") {
        Some(ni) => ni,
        None => {
            return None;
        },
    };
    let pl_opt = child_of_kinds(tree, fd, "parameter_list", "parameter_list");
    let mut params: Vec<ParamInfo> = match pl_opt {
        Some(pl) => extract_params(tree, pl, source),
        None => Vec::new(),
    };
    let has_param_substitution = match pl_opt {
        Some(pl) => has_substitution(tree, pl),
        None => false,
    };
    let ghost params0 = params_view(params@);
    proof {
        match spec_child_of_kinds(*tree, fd as int, 0, "parameter_list"@, "parameter_list"@) {
            Some(pl) => {
                assert(params0 == spec_params_from(*tree, pl, 0, source@));
            },
            None => {
                assert(params0 =~= Seq::<ParamInfoV>::empty());
            },
        }
    }
    let mut documentation: Option<String> = None;
    let mut return_documentation: Option<String> = None;
    match find_doc_comment(tree, d, source) {
        Some(raw) => {
            let dc = parse_doc_comment(raw.as_str());
            attach_docs(&mut params, &dc.param_docs);
            documentation = dc.description;
            return_documentation = dc.return_doc;
        },
        None => {},
    }
    let name = crate::tree::node_text(tree, ni, source);
    let range = crate::tree::node_range(tree.node(d));
    let selection_range = crate::tree::node_range(tree.node(ni));
    let f = FunctionDef {
        name,
        range,
        selection_range,
        is_library,
        is_import_only: false,
        params,
        has_param_substitution,
        documentation,
        return_documentation,
    };
    proof {
        let sd = spec_extract_def(*tree, d as int, source@);
        assert(sd is Some);
        match spec_find_doc_comment(*tree, d as int, source@) {
            Some(sraw) => {
                assert(def_view(f).params == sd.unwrap().params);
            },
            None => {
                assert(def_view(f).params == sd.unwrap().params);
            },
        }
        assert(def_view(f) == sd.unwrap());
    }
    Some(f)
}

// ---------------------------------------------------------------------------
// Library import entries
// ---------------------------------------------------------------------------

/// The import entry recorded for one `function_name` in a `LIBRARY` list.
pub open spec fn spec_import_entry(tree: SyntaxTree, lib: int, c: int, src: Seq<char>) -> FunctionDefV {
    FunctionDefV {
        name: crate::tree::spec_node_text(tree.spec_nodes()[c], src),
        range: crate::tree::spec_node_range(tree.spec_nodes()[lib]),
        selection_range: crate::tree::spec_node_range(tree.spec_nodes()[c]),
        is_library: true,
        is_import_only: true,
        params: Seq::<ParamInfoV>::empty(),
        has_param_substitution: false,
        documentation: None,
        return_documentation: None,
    }
}

/// Import entries of the `function_name` children of `lfl`, from `k` on.
pub open spec fn spec_lib_names(tree: SyntaxTree, lib: int, lfl: int, k: int, src: Seq<char>) -> Seq<FunctionDefV>
    decreases tree.spec_nodes()[lfl].children@.len() - k
        when tree.wf() && 0 <= lfl < tree.spec_len() && 0 <= k
{
    let ch = tree.spec_nodes()[lfl].children@;
    if k >= ch.len() {
        Seq::<FunctionDefV>::empty()
    } else {
        let c = ch[k] as int;
        if tree.spec_nodes()[c].kind@ == "function_name"@ {
            seq![spec_import_entry(tree, lib, c, src)] + spec_lib_names(tree, lib, lfl, k + 1, src)
        } else {
            spec_lib_names(tree, lib, lfl, k + 1, src)
        }
    }
}

/// Import entries of a whole `library_statement`, over its
/// `library_function_list` children from `k` on.
pub open spec fn spec_lib_imports(tree: SyntaxTree, lib: int, k: int, src: Seq<char>) -> Seq<FunctionDefV>
    decreases tree.spec_nodes()[lib].children@.len() - k
        when tree.wf() && 0 <= lib < tree.spec_len() && 0 <= k
{
    let ch = tree.spec_nodes()[lib].children@;
    if k >= ch.len() {
        Seq::<FunctionDefV>::empty()
    } else {
        let c = ch[k] as int;
        if tree.spec_nodes()[c].kind@ == "library_function_list"@ {
            spec_lib_names(tree, lib, c, 0, src) + spec_lib_imports(tree, lib, k + 1, src)
        } else {
            spec_lib_imports(tree, lib, k + 1, src)
        }
    }
}

fn collect_lib_names(
    tree: &SyntaxTree,
    lib: usize,
    lfl: usize,
    source: &str,
    out: &mut Vec<FunctionDef>,
)
    requires
        tree.wf(),
        0 <= lib < tree.spec_len(),
        0 <= lfl < tree.spec_len(),
    ensures
        defs_view(final(out)@) == defs_view(old(out)@) + spec_lib_names(
            *tree,
            lib as int,
            lfl as int,
            0,
            source@,
        ),
{
    let m = tree.node(lfl).children.len();
    let mut k: usize = 0;
    while k < m
        invariant
            tree.wf(),
            0 <= lib < tree.spec_len(),
            0 <= lfl < tree.spec_len(),
            m == tree.spec_nodes()[lfl as int].children@.len(),
            k <= m,
            defs_view(out@) + spec_lib_names(*tree, lib as int, lfl as int, k as int, source@)
                == defs_view(old(out)@) + spec_lib_names(
                *tree,
                lib as int,
                lfl as int,
                0,
                source@,
            ),
        decreases m - k,
    {
        let ghost rest = spec_lib_names(*tree, lib as int, lfl as int, k as int, source@);
        let c = tree.node(lfl).children[k];
        if tree.kind_is(c, "function_name") {
            let name = crate::tree::node_text(tree, c, source);
            let ghost pre = out@;
            out.push(
                FunctionDef {
                    name,
                    range: crate::tree::node_range(tree.node(lib)),
                    selection_range: crate::tree::node_range(tree.node(c)),
                    is_library: true,
                    is_import_only: true,
                    params: Vec::new(),
                    has_param_substitution: false,
                    documentation: None,
                    return_documentation: None,
                },
            );
            proof {
                lemma_defs_push(pre, out@.last());
                assert(def_view(out@.last()).params =~= Seq::<ParamInfoV>::empty());
                assert(def_view(out@.last()) == spec_import_entry(
                    *tree,
                    lib as int,
                    c as int,
                    source@,
                ));
                assert(rest == seq![def_view(out@.last())] + spec_lib_names(
                    *tree,
                    lib as int,
                    lfl as int,
                    k + 1,
                    source@,
                ));
                assert(defs_view(pre).push(def_view(out@.last())) + spec_lib_names(
                    *tree,
                    lib as int,
                    lfl as int,
                    k + 1,
                    source@,
                ) =~= defs_view(pre) + rest);
            }
        }
        k += 1;
    }
}

fn collect_library_imports(tree: &SyntaxTree, lib: usize, source: &str, out: &mut Vec<FunctionDef>)
    requires
        tree.wf(),
        0 <= lib < tree.spec_len(),
    ensures
        defs_view(final(out)@) == defs_view(old(out)@) + spec_lib_imports(
            *tree,
            lib as int,
            0,
            source@,
        ),
{
    let m = tree.node(lib).children.len();
    let mut k: usize = 0;
    while k < m
        invariant
            tree.wf(),
            0 <= lib < tree.spec_len(),
            m == tree.spec_nodes()[lib as int].children@.len(),
            k <= m,
            defs_view(out@) + spec_lib_imports(*tree, lib as int, k as int, source@) == defs_view(
                old(out)@,
            ) + spec_lib_imports(*tree, lib as int, 0, source@),
        decreases m - k,
    {
        let ghost rest = spec_lib_imports(*tree, lib as int, k as int, source@);
        let c = tree.node(lib).children[k];
        if tree.kind_is(c, "library_function_list") {
            let ghost pre = out@;
            collect_lib_names(tree, lib, c, source, out);
            proof {
                assert(rest == spec_lib_names(*tree, lib as int, c as int, 0, source@)
                    + spec_lib_imports(*tree, lib as int, k + 1, source@));
                assert((defs_view(pre) + spec_lib_names(*tree, lib as int, c as int, 0, source@))
                    + spec_lib_imports(*tree, lib as int, k + 1, source@) =~= defs_view(pre)
                    + rest);
            }
        }
        k += 1;
    }
}

// ---------------------------------------------------------------------------
// The definition walker
// ---------------------------------------------------------------------------

/// All definitions found below node `i`: `def_statement` nodes yield one
/// record each, `library_statement` nodes their import entries; the walk
/// does not descend below either.
pub open spec fn spec_defs(tree: SyntaxTree, i: int, src: Seq<char>) -> Seq<FunctionDefV>
    decreases tree.spec_len() - i, tree.spec_nodes()[i].children@.len() + 1
        when tree.wf() && 0 <= i < tree.spec_len()
{
    if tree.spec_nodes()[i].kind@ == "def_statement"@ {
        match spec_extract_def(tree, i, src) {
            Some(d) => seq![d],
            None => Seq::<FunctionDefV>::empty(),
        }
    } else if tree.spec_nodes()[i].kind@ == "library_statement"@ {
        spec_lib_imports(tree, i, 0, src)
    } else {
        spec_defs_children(tree, i, 0, src)
    }
}

pub open spec fn spec_defs_children(tree: SyntaxTree, i: int, k: int, src: Seq<char>) -> Seq<FunctionDefV>
    decreases tree.spec_len() - i, tree.spec_nodes()[i].children@.len() - k
        when tree.wf() && 0 <= i < tree.spec_len() && 0 <= k
    via spec_defs_children_decreases
{
    let ch = tree.spec_nodes()[i].children@;
    if k >= ch.len() {
        Seq::<FunctionDefV>::empty()
    } else {
        spec_defs(tree, ch[k] as int, src) + spec_defs_children(tree, i, k + 1, src)
    }
}

#[via_fn]
proof fn spec_defs_children_decreases(tree: SyntaxTree, i: int, k: int, src: Seq<char>) {
    if tree.wf() && 0 <= i < tree.spec_len() && 0 <= k < tree.spec_nodes()[i].children@.len() {
        assert(crate::tree::wf_nodes(tree.spec_nodes()));
        assert(0 <= i < tree.spec_nodes().len());
        assert(0 <= k < tree.spec_nodes()[i].children@.len());
        assert(i < tree.spec_nodes()[i].children@[k] < tree.spec_len());
    }
}

fn collect_defs(tree: &SyntaxTree, i: usize, source: &str, out: &mut Vec<FunctionDef>)
    requires
        tree.wf(),
        0 <= i < tree.spec_len(),
    ensures
        defs_view(final(out)@) == defs_view(old(out)@) + spec_defs(*tree, i as int, source@),
    decreases tree.spec_len() - i,
{
    if tree.kind_is(i, "def_statement") {
        match extract_one_def(tree, i, source) {
            Some(d) => {
                let ghost pre = out@;
                out.push(d);
                proof {
                    lemma_defs_push(pre, out@.last());
                    assert(defs_view(out@) =~= defs_view(pre) + spec_defs(
                        *tree,
                        i as int,
                        source@,
                    ));
                }
            },
            None => {
                proof {
                    assert(defs_view(out@) =~= defs_view(out@) + spec_defs(
                        *tree,
                        i as int,
                        source@,
                    ));
                }
            },
        }
        return;
    }
    if tree.kind_is(i, "library_statement") {
        collect_library_imports(tree, i, source, out);
        return;
    }
    let m = tree.node(i).children.len();
    let mut k: usize = 0;
    while k < m
        invariant
            tree.wf(),
            0 <= i < tree.spec_len(),
            m == tree.spec_nodes()[i as int].children@.len(),
            k <= m,
            tree.spec_nodes()[i as int].kind@ != "def_statement"@,
            tree.spec_nodes()[i as int].kind@ != "library_statement"@,
            defs_view(out@) + spec_defs_children(*tree, i as int, k as int, source@) == defs_view(
                old(out)@,
            ) + spec_defs_children(*tree, i as int, 0, source@),
        decreases m - k,
    {
        let ghost rest = spec_defs_children(*tree, i as int, k as int, source@);
        let c = tree.node(i).children[k];
        let ghost pre = out@;
        collect_defs(tree, c, source, out);
        proof {
            assert(rest == spec_defs(*tree, c as int, source@) + spec_defs_children(
                *tree,
                i as int,
                k + 1,
                source@,
            ));
            assert((defs_view(pre) + spec_defs(*tree, c as int, source@)) + spec_defs_children(
                *tree,
                i as int,
                k + 1,
                source@,
            ) =~= defs_view(pre) + rest);
        }
        k += 1;
    }
}

/// Extract every function definition and `LIBRARY` import of a document.
pub fn extract_definitions(tree: &SyntaxTree, source: &str) -> (r: Vec<FunctionDef>)
    requires
        tree.wf(),
    ensures
        defs_view(r@) == spec_defs(*tree, 0, source@),
{
    let mut out: Vec<FunctionDef> = Vec::new();
    collect_defs(tree, 0, source, &mut out);
    proof {
        assert(defs_view(out@) =~= spec_defs(*tree, 0, source@));
    }
    out
}

// ---------------------------------------------------------------------------
// Library links
// ---------------------------------------------------------------------------

/// The `string` leaf found below `i` by a right-to-left depth-first search.
pub open spec fn spec_find_string(tree: SyntaxTree, i: int) -> Option<int>
    decreases tree.spec_len() - i, tree.spec_nodes()[i].children@.len() + 1
        when tree.wf() && 0 <= i < tree.spec_len()
{
    if tree.spec_nodes()[i].kind@ == "string"@ {
        Some(i)
    } else {
        spec_find_string_children(tree, i, tree.spec_nodes()[i].children@.len() as int - 1)
    }
}

pub open spec fn spec_find_string_children(tree: SyntaxTree, i: int, k: int) -> Option<int>
    decreases tree.spec_len() - i, k + 1
        when tree.wf() && 0 <= i < tree.spec_len() && k < tree.spec_nodes()[i].children@.len()
    via spec_find_string_children_decreases
{
    if k < 0 {
        None
    } else {
        match spec_find_string(tree, tree.spec_nodes()[i].children@[k] as int) {
            Some(c) => Some(c),
            None => spec_find_string_children(tree, i, k - 1),
        }
    }
}

#[via_fn]
proof fn spec_find_string_children_decreases(tree: SyntaxTree, i: int, k: int) {
    if tree.wf() && 0 <= i < tree.spec_len() && 0 <= k < tree.spec_nodes()[i].children@.len() {
        assert(crate::tree::wf_nodes(tree.spec_nodes()));
        assert(0 <= i < tree.spec_nodes().len());
        assert(i < tree.spec_nodes()[i].children@[k] < tree.spec_len());
    }
}

fn find_string(tree: &SyntaxTree, i: usize) -> (r: Option<usize>)
    requires
        tree.wf(),
        0 <= i < tree.spec_len(),
    ensures
        match r {
            Some(c) => spec_find_string(*tree, i as int) == Some(c as int) && 0 <= c
                < tree.spec_len(),
            None => spec_find_string(*tree, i as int) is None,
        },
    decreases tree.spec_len() - i,
{
    if tree.kind_is(i, "string") {
        return Some(i);
    }
    let m = tree.node(i).children.len();
    let mut k: usize = m;
    while k > 0
        invariant
            tree.wf(),
            0 <= i < tree.spec_len(),
            m == tree.spec_nodes()[i as int].children@.len(),
            k <= m,
            tree.spec_nodes()[i as int].kind@ != "string"@,
            spec_find_string_children(*tree, i as int, k as int - 1) == spec_find_string(
                *tree,
                i as int,
            ),
        decreases k,
    {
        let c = tree.node(i).children[k - 1];
        match find_string(tree, c) {
            Some(f) => {
                return Some(f);
            },
            None => {},
        }
        k -= 1;
    }
    None
}

/// The text of a string literal without its surrounding quotes, double or
/// single; `None` when the quotes do not match.
pub open spec fn spec_strip_quotes(t: Seq<char>) -> Option<Seq<char>> {
    if t.len() >= 2 && t[0] == '"' && t.last() == '"' {
        Some(t.subrange(1, t.len() - 1))
    } else if t.len() >= 2 && t[0] == '\'' && t.last() == '\'' {
        Some(t.subrange(1, t.len() - 1))
    } else {
        None
    }
}

fn strip_quotes(t: &str) -> (r: Option<String>)
    ensures
        match r {
            Some(s) => spec_strip_quotes(t@) == Some(s@),
            None => spec_strip_quotes(t@) is None,
        },
{
    let n = t.unicode_len();
    if n >= 2 {
        let a = t.get_char(0);
        let b = t.get_char(n - 1);
        if (a == '"' && b == '"') || (a == '\'' && b == '\'') {
            return Some(crate::text::substring_owned(t, 1, n - 1));
        }
    }
    None
}

/// The link pairs of one `library_statement`: for each imported name, the
/// lowercased name with the statement's normalised path.
pub open spec fn spec_stmt_links(tree: SyntaxTree, lib: int, src: Seq<char>) -> Seq<
    (Seq<char>, Seq<char>),
>
    recommends
        tree.wf(),
        0 <= lib < tree.spec_len(),
{
    match spec_child_of_field(tree, lib, 0, "path"@) {
        None => Seq::<(Seq<char>, Seq<char>)>::empty(),
        Some(pn) => match spec_find_string(tree, pn) {
            None => Seq::<(Seq<char>, Seq<char>)>::empty(),
            Some(sn) => match spec_strip_quotes(
                crate::tree::spec_node_text(tree.spec_nodes()[sn], src),
            ) {
                None => Seq::<(Seq<char>, Seq<char>)>::empty(),
                Some(raw) => {
                    let norm = spec_normalize_library_path(raw);
                    spec_stmt_link_names(tree, lib, 0, src).map_values(
                        |n: Seq<char>| (lower_seq(n), norm),
                    )
                },
            },
        },
    }
}

/// The imported names of a `library_statement`, over its function lists.
pub open spec fn spec_stmt_link_names(tree: SyntaxTree, lib: int, k: int, src: Seq<char>) -> Seq<
    Seq<char>,
>
    decreases tree.spec_nodes()[lib].children@.len() - k
        when tree.wf() && 0 <= lib < tree.spec_len() && 0 <= k
{
    let ch = tree.spec_nodes()[lib].children@;
    if k >= ch.len() {
        Seq::<Seq<char>>::empty()
    } else {
        let c = ch[k] as int;
        if tree.spec_nodes()[c].kind@ == "library_function_list"@ {
            spec_name_texts(tree, c, 0, src) + spec_stmt_link_names(tree, lib, k + 1, src)
        } else {
            spec_stmt_link_names(tree, lib, k + 1, src)
        }
    }
}

/// The texts of the `function_name` children of `lfl`, from `k` on.
pub open spec fn spec_name_texts(tree: SyntaxTree, lfl: int, k: int, src: Seq<char>) -> Seq<
    Seq<char>,
>
    decreases tree.spec_nodes()[lfl].children@.len() - k
        when tree.wf() && 0 <= lfl < tree.spec_len() && 0 <= k
{
    let ch = tree.spec_nodes()[lfl].children@;
    if k >= ch.len() {
        Seq::<Seq<char>>::empty()
    } else {
        let c = ch[k] as int;
        if tree.spec_nodes()[c].kind@ == "function_name"@ {
            seq![crate::tree::spec_node_text(tree.spec_nodes()[c], src)] + spec_name_texts(
                tree,
                lfl,
                k + 1,
                src,
            )
        } else {
            spec_name_texts(tree, lfl, k + 1, src)
        }
    }
}

/// First child of `lib`, from `k` on, carrying field name `f`.
pub open spec fn spec_child_of_field(tree: SyntaxTree, i: int, k: int, f: Seq<char>) -> Option<int>
    decreases tree.spec_nodes()[i].children@.len() - k
        when tree.wf() && 0 <= i < tree.spec_len() && 0 <= k
{
    let ch = tree.spec_nodes()[i].children@;
    if k >= ch.len() {
        None
    } else if tree.spec_nodes()[ch[k] as int].field@ == f {
        Some(ch[k] as int)
    } else {
        spec_child_of_field(tree, i, k + 1, f)
    }
}

pub fn child_of_field(tree: &SyntaxTree, i: usize, f: &str) -> (r: Option<usize>)
    requires
        tree.wf(),
        0 <= i < tree.spec_len(),
    ensures
        match r {
            Some(c) => spec_child_of_field(*tree, i as int, 0, f@) == Some(c as int) && i < c
                < tree.spec_len(),
            None => spec_child_of_field(*tree, i as int, 0, f@) is None,
        },
{
    let m = tree.node(i).children.len();
    let mut k: usize = 0;
    while k < m
        invariant
            tree.wf(),
            0 <= i < tree.spec_len(),
            m == tree.spec_nodes()[i as int].children@.len(),
            k <= m,
            spec_child_of_field(*tree, i as int, k as int, f@) == spec_child_of_field(
                *tree,
                i as int,
                0,
                f@,
            ),
        decreases m - k,
    {
        let c = tree.node(i).children[k];
        if crate::text::str_eq(tree.node(c).field.as_str(), f) {
            return Some(c);
        }
        k += 1;
    }
    None
}

/// All link pairs of a document: a walk that handles `library_statement`
/// nodes and descends everywhere else.
pub open spec fn spec_links(tree: SyntaxTree, i: int, src: Seq<char>) -> Seq<(Seq<char>, Seq<char>)>
    decreases tree.spec_len() - i, tree.spec_nodes()[i].children@.len() + 1
        when tree.wf() && 0 <= i < tree.spec_len()
{
    if tree.spec_nodes()[i].kind@ == "library_statement"@ {
        spec_stmt_links(tree, i, src)
    } else {
        spec_links_children(tree, i, 0, src)
    }
}

pub open spec fn spec_links_children(tree: SyntaxTree, i: int, k: int, src: Seq<char>) -> Seq<
    (Seq<char>, Seq<char>),
>
    decreases tree.spec_len() - i, tree.spec_nodes()[i].children@.len() - k
        when tree.wf() && 0 <= i < tree.spec_len() && 0 <= k
    via spec_links_children_decreases
{
    let ch = tree.spec_nodes()[i].children@;
    if k >= ch.len() {
        Seq::<(Seq<char>, Seq<char>)>::empty()
    } else {
        spec_links(tree, ch[k] as int, src) + spec_links_children(tree, i, k + 1, src)
    }
}

#[via_fn]
proof fn spec_links_children_decreases(tree: SyntaxTree, i: int, k: int, src: Seq<char>) {
    if tree.wf() && 0 <= i < tree.spec_len() && 0 <= k < tree.spec_nodes()[i].children@.len() {
        assert(crate::tree::wf_nodes(tree.spec_nodes()));
        assert(0 <= i < tree.spec_nodes().len());
        assert(i < tree.spec_nodes()[i].children@[k] < tree.spec_len());
    }
}

pub open spec fn links_view(v: Seq<(String, String)>) -> Seq<(Seq<char>, Seq<char>)> {
    v.map_values(|p: (String, String)| (p.0@, p.1@))
}

fn collect_stmt_names(
    tree: &SyntaxTree,
    lib: usize,
    source: &str,
    out: &mut Vec<String>,
)
    requires
        tree.wf(),
        0 <= lib < tree.spec_len(),
    ensures
        crate::text::strs_view(final(out)@) == crate::text::strs_view(old(out)@)
            + spec_stmt_link_names(*tree, lib as int, 0, source@),
{
    let m = tree.node(lib).children.len();
    let mut k: usize = 0;
    while k < m
        invariant
            tree.wf(),
            0 <= lib < tree.spec_len(),
            m == tree.spec_nodes()[lib as int].children@.len(),
            k <= m,
            crate::text::strs_view(out@) + spec_stmt_link_names(*tree, lib as int, k as int, source@)
                == crate::text::strs_view(old(out)@) + spec_stmt_link_names(
                *tree,
                lib as int,
                0,
                source@,
            ),
        decreases m - k,
    {
        let ghost rest = spec_stmt_link_names(*tree, lib as int, k as int, source@);
        let c = tree.node(lib).children[k];
        if tree.kind_is(c, "library_function_list") {
            let mm = tree.node(c).children.len();
            let mut kk: usize = 0;
            while kk < mm
                invariant
                    tree.wf(),
                    0 <= lib < tree.spec_len(),
                    0 <= c < tree.spec_len(),
                    mm == tree.spec_nodes()[c as int].children@.len(),
                    kk <= mm,
                    crate::text::strs_view(out@) + spec_name_texts(*tree, c as int, kk as int, source@)
                        + spec_stmt_link_names(*tree, lib as int, k + 1, source@)
                        == crate::text::strs_view(old(out)@) + spec_stmt_link_names(
                        *tree,
                        lib as int,
                        0,
                        source@,
                    ),
                decreases mm - kk,
            {
                let ghost nrest = spec_name_texts(*tree, c as int, kk as int, source@);
                let cc = tree.node(c).children[kk];
                if tree.kind_is(cc, "function_name") {
                    let t = crate::tree::node_text(tree, cc, source);
                    let ghost pre = out@;
                    out.push(t);
                    proof {
                        crate::text::lemma_strs_push(pre, out@.last());
                        assert(nrest == seq![out@.last()@] + spec_name_texts(
                            *tree,
                            c as int,
                            kk + 1,
                            source@,
                        ));
                        assert(crate::text::strs_view(pre).push(out@.last()@) + spec_name_texts(
                            *tree,
                            c as int,
                            kk + 1,
                            source@,
                        ) =~= crate::text::strs_view(pre) + nrest);
                        assert(crate::text::strs_view(pre).push(out@.last()@) + spec_name_texts(
                            *tree,
                            c as int,
                            kk + 1,
                            source@,
                        ) + spec_stmt_link_names(*tree, lib as int, k + 1, source@)
                            =~= crate::text::strs_view(pre) + nrest + spec_stmt_link_names(
                            *tree,
                            lib as int,
                            k + 1,
                            source@,
                        ));
                    }
                }
                kk += 1;
            }
            proof {
                assert(crate::text::strs_view(out@) + Seq::<Seq<char>>::empty()
                    + spec_stmt_link_names(*tree, lib as int, k + 1, source@)
                    =~= crate::text::strs_view(out@) + spec_stmt_link_names(
                    *tree,
                    lib as int,
                    k + 1,
                    source@,
                ));
            }
        }
        k += 1;
    }
}

/// All `LIBRARY` link pairs of a document: lowercased function name with
/// the normalised library path it was imported from.
pub fn extract_library_links(tree: &SyntaxTree, source: &str) -> (r: Vec<(String, String)>)
    requires
        tree.wf(),
    ensures
        links_view(r@) == spec_links(*tree, 0, source@),
{
    let mut out: Vec<(String, String)> = Vec::new();
    collect_links(tree, 0, source, &mut out);
    proof {
        assert(links_view(out@) =~= spec_links(*tree, 0, source@));
    }
    out
}

fn collect_links(tree: &SyntaxTree, i: usize, source: &str, out: &mut Vec<(String, String)>)
    requires
        tree.wf(),
        0 <= i < tree.spec_len(),
    ensures
        links_view(final(out)@) == links_view(old(out)@) + spec_links(*tree, i as int, source@),
    decreases tree.spec_len() - i,
{
    if tree.kind_is(i, "library_statement") {
        let ghost base = out@;
        let pn = match child_of_field(tree, i, "path") {
            Some(pn) => pn,
            None => {
                proof {
                    assert(links_view(out@) =~= links_view(out@) + spec_links(
                        *tree,
                        i as int,
                        source@,
                    ));
                }
                return;
            },
        };
        let sn = match find_string(tree, pn) {
            Some(sn) => sn,
            None => {
                proof {
                    assert(links_view(out@) =~= links_view(out@) + spec_links(
                        *tree,
                        i as int,
                        source@,
                    ));
                }
                return;
            },
        };
        let stext = crate::tree::node_text(tree, sn, source);
        let raw = match strip_quotes(stext.as_str()) {
            Some(raw) => raw,
            None => {
                proof {
                    assert(links_view(out@) =~= links_view(out@) + spec_links(
                        *tree,
                        i as int,
                        source@,
                    ));
                }
                return;
            },
        };
        let norm = normalize_library_path(raw.as_str());
        let mut names: Vec<String> = Vec::new();
        collect_stmt_names(tree, i, source, &mut names);
        let ghost snames = spec_stmt_link_names(*tree, i as int, 0, source@);
        proof {
            assert(crate::text::strs_view(names@) =~= snames);
        }
        let n = names.len();
        let mut k: usize = 0;
        while k < n
            invariant
                n == names@.len(),
                crate::text::strs_view(names@) == snames,
                norm@ == spec_normalize_library_path(
                    spec_strip_quotes(
                        crate::tree::spec_node_text(
                            tree.spec_nodes()[spec_find_string(
                                *tree,
                                spec_child_of_field(*tree, i as int, 0, "path"@).unwrap(),
                            ).unwrap()],
                            source@,
                        ),
                    ).unwrap(),
                ),
                k <= n,
                links_view(out@) == links_view(base) + snames.subrange(0, k as int).map_values(
                    |nm: Seq<char>| (lower_seq(nm), norm@),
                ),
            decreases n - k,
        {
            let lowered = crate::text::to_lowercase(names[k].as_str());
            let dup = crate::text::substring_owned(norm.as_str(), 0, norm.as_str().unicode_len());
            let ghost pre = out@;
            out.push((lowered, dup));
            proof {
                assert(out@.last().0@ == lower_seq(snames[k as int]));
                assert(out@.last().1@ =~= norm@);
                assert(links_view(out@) =~= links_view(pre).push(
                    (lower_seq(snames[k as int]), norm@),
                ));
                assert(snames.subrange(0, k + 1).map_values(
                    |nm: Seq<char>| (lower_seq(nm), norm@),
                ) =~= snames.subrange(0, k as int).map_values(
                    |nm: Seq<char>| (lower_seq(nm), norm@),
                ).push((lower_seq(snames[k as int]), norm@)));
            }
            k += 1;
        }
        proof {
            assert(snames.subrange(0, n as int) =~= snames);
            assert(snames.map_values(|nm: Seq<char>| (lower_seq(nm), norm@)) == spec_links(
                *tree,
                i as int,
                source@,
            ));
        }
        return;
    }
    let m = tree.node(i).children.len();
    let mut k: usize = 0;
    while k < m
        invariant
            tree.wf(),
            0 <= i < tree.spec_len(),
            m == tree.spec_nodes()[i as int].children@.len(),
            k <= m,
            tree.spec_nodes()[i as int].kind@ != "library_statement"@,
            links_view(out@) + spec_links_children(*tree, i as int, k as int, source@)
                == links_view(old(out)@) + spec_links_children(*tree, i as int, 0, source@),
        decreases m - k,
    {
        let ghost rest = spec_links_children(*tree, i as int, k as int, source@);
        let c = tree.node(i).children[k];
        let ghost pre = out@;
        collect_links(tree, c, source, out);
        proof {
            assert(rest == spec_links(*tree, c as int, source@) + spec_links_children(
                *tree,
                i as int,
                k + 1,
                source@,
            ));
            assert((links_view(pre) + spec_links(*tree, c as int, source@))
                + spec_links_children(*tree, i as int, k + 1, source@) =~= links_view(pre)
                + rest);
        }
        k += 1;
    }
}

/// The path recorded for `name` in a link list; a later record wins.
pub open spec fn spec_link_for(links: Seq<(Seq<char>, Seq<char>)>, key: Seq<char>) -> Option<
    Seq<char>,
>
    decreases links.len(),
{
    if links.len() == 0 {
        None
    } else if links.last().0 == key {
        Some(links.last().1)
    } else {
        spec_link_for(links.drop_last(), key)
    }
}

/// Look up the library path recorded for a (lowercased) name.
pub fn link_for<'a>(links: &'a Vec<(String, String)>, key: &str) -> (r: Option<&'a String>)
    ensures
        match r {
            Some(p) => spec_link_for(links_view(links@), key@) == Some(p@),
            None => spec_link_for(links_view(links@), key@) is None,
        },
{
    let n = links.len();
    let mut k: usize = n;
    proof {
        assert(links_view(links@).subrange(0, n as int) =~= links_view(links@));
    }
    while k > 0
        invariant
            n == links@.len(),
            k <= n,
            spec_link_for(links_view(links@).subrange(0, k as int), key@) == spec_link_for(
                links_view(links@),
                key@,
            ),
        decreases k,
    {
        proof {
            assert(links_view(links@).subrange(0, k as int).last() == links_view(links@)[k - 1]);
            assert(links_view(links@).subrange(0, k as int).drop_last() =~= links_view(
                links@,
            ).subrange(0, k as int - 1));
        }
        if crate::text::str_eq(links[k - 1].0.as_str(), key) {
            return Some(&links[k - 1].1);
        }
        k -= 1;
    }
    proof {
        assert(links_view(links@).subrange(0, 0).len() == 0);
    }
    None
}

} // verus!
