//! Structural diagnostics: missing terminators, duplicate functions, arity
//! and argument-kind checks, and undefined-function reports.

use vstd::prelude::*;
use vstd::string::*;

use crate::builtins::{BuiltinFunction, BuiltinTable};
use crate::extract::{FunctionDef, ParamKind};
use crate::parser::{diags_view, lemma_diags_push, DiagV};
use crate::text::lower_seq;
use crate::tree::{NodeData, SyntaxTree};
use crate::types::{Diagnostic, Range, Severity};
use crate::workspace::WorkspaceIndex;

verus! {

// ---------------------------------------------------------------------------
// Kind compatibility
// ---------------------------------------------------------------------------

/// May an actual argument kind be passed for an expected parameter kind?
/// A scalar may stand in for an array of the same base kind.
pub open spec fn spec_types_compatible(expected: ParamKind, actual: ParamKind) -> bool {
    expected == actual || (expected == ParamKind::NumericArray && actual == ParamKind::Numeric)
        || (expected == ParamKind::StringArray && actual == ParamKind::String)
}

pub fn types_compatible(expected: ParamKind, actual: ParamKind) -> (r: bool)
    ensures
        r == spec_types_compatible(expected, actual),
{
    if expected == actual {
        return true;
    }
    matches!(
        (expected, actual),
        (ParamKind::NumericArray, ParamKind::Numeric) | (ParamKind::StringArray, ParamKind::String)
    )
}

/// The kind name used in messages.
pub open spec fn spec_param_kind_name(kind: ParamKind) -> Seq<char> {
    match kind {
        ParamKind::Numeric => "numeric"@,
        ParamKind::String => "string"@,
        ParamKind::NumericArray => "numeric array"@,
        ParamKind::StringArray => "string array"@,
    }
}

pub fn format_param_kind(kind: ParamKind) -> (r: &'static str)
    ensures
        r@ == spec_param_kind_name(kind),
{
    match kind {
        ParamKind::Numeric => "numeric",
        ParamKind::String => "string",
        ParamKind::NumericArray => "numeric array",
        ParamKind::StringArray => "string array",
    }
}

// ---------------------------------------------------------------------------
// Finding a definition's name token
// ---------------------------------------------------------------------------

/// The `function_name` grandchild of a `def_statement`: scan the children
/// from `k` for a function-definition node that has one.
pub open spec fn spec_fn_name_node(tree: SyntaxTree, d: int, k: int) -> Option<int>
    decreases tree.spec_nodes()[d].children@.len() - k
        when tree.wf() && 0 <= d < tree.spec_len() && 0 <= k
{
    let ch = tree.spec_nodes()[d].children@;
    if k >= ch.len() {
        None
    } else {
        let c = ch[k] as int;
        let kind = tree.spec_nodes()[c].kind@;
        if kind == "string_function_definition"@ || kind == "numeric_function_definition"@ {
            match crate::extract::spec_child_of_kinds(tree, c, 0, "function_name"@, "function_name"@) {
                Some(g) => Some(g),
                None => spec_fn_name_node(tree, d, k + 1),
            }
        } else {
            spec_fn_name_node(tree, d, k + 1)
        }
    }
}

pub fn fn_name_node(tree: &SyntaxTree, d: usize) -> (r: Option<usize>)
    requires
        tree.wf(),
        0 <= d < tree.spec_len(),
    ensures
        match r {
            Some(g) => spec_fn_name_node(*tree, d as int, 0) == Some(g as int) && 0 <= g
                < tree.spec_len(),
            None => spec_fn_name_node(*tree, d as int, 0) is None,
        },
{
    let m = tree.node(d).children.len();
    let mut k: usize = 0;
    while k < m
        invariant
            tree.wf(),
            0 <= d < tree.spec_len(),
            m == tree.spec_nodes()[d as int].children@.len(),
            k <= m,
            spec_fn_name_node(*tree, d as int, k as int) == spec_fn_name_node(*tree, d as int, 0),
        decreases m - k,
    {
        let c = tree.node(d).children[k];
        if tree.kind_is(c, "string_function_definition") || tree.kind_is(
            c,
            "numeric_function_definition",
        ) {
            match crate::extract::child_of_kinds(tree, c, "function_name", "function_name") {
                Some(g) => {
                    return Some(g);
                },
                None => {},
            }
        }
        k += 1;
    }
    None
}

/// Is the `def_statement` inline: some function-definition child carries
/// an `assignment_op` child?
pub open spec fn spec_is_inline(tree: SyntaxTree, d: int, k: int) -> bool
    decreases tree.spec_nodes()[d].children@.len() - k
        when tree.wf() && 0 <= d < tree.spec_len() && 0 <= k
{
    let ch = tree.spec_nodes()[d].children@;
    if k >= ch.len() {
        false
    } else {
        let c = ch[k] as int;
        let kind = tree.spec_nodes()[c].kind@;
        ((kind == "string_function_definition"@ || kind == "numeric_function_definition"@)
            && crate::extract::spec_has_child_kind(tree, c, 0, "assignment_op"@)) || spec_is_inline(
            tree,
            d,
            k + 1,
        )
    }
}

pub fn is_inline_def(tree: &SyntaxTree, d: usize) -> (r: bool)
    requires
        tree.wf(),
        0 <= d < tree.spec_len(),
    ensures
        r == spec_is_inline(*tree, d as int, 0),
{
    let m = tree.node(d).children.len();
    let mut k: usize = 0;
    while k < m
        invariant
            tree.wf(),
            0 <= d < tree.spec_len(),
            m == tree.spec_nodes()[d as int].children@.len(),
            k <= m,
            spec_is_inline(*tree, d as int, k as int) == spec_is_inline(*tree, d as int, 0),
        decreases m - k,
    {
        let c = tree.node(d).children[k];
        let is_fd = tree.kind_is(c, "string_function_definition") || tree.kind_is(
            c,
            "numeric_function_definition",
        );
        if is_fd && crate::extract::has_child_kind(tree, c, "assignment_op") {
            return true;
        }
        k += 1;
    }
    false
}

// ---------------------------------------------------------------------------
// Duplicate function check
// ---------------------------------------------------------------------------

/// The named definitions of the document: for every `def_statement` node
/// (in arena order) that has a name token, its lowered key, original name
/// and the name token's range.
pub open spec fn spec_named_defs(tree: SyntaxTree, i: int, src: Seq<char>) -> Seq<
    (Seq<char>, Seq<char>, Range),
>
    decreases tree.spec_len() - i when tree.wf() && 0 <= i <= tree.spec_len()
{
    if i >= tree.spec_len() {
        Seq::<(Seq<char>, Seq<char>, Range)>::empty()
    } else {
        let rest = spec_named_defs(tree, i + 1, src);
        if tree.spec_nodes()[i].kind@ == "def_statement"@ {
            match spec_fn_name_node(tree, i, 0) {
                Some(g) => {
                    let name = crate::tree::spec_node_text(tree.spec_nodes()[g], src);
                    seq![(lower_seq(name), name, crate::tree::spec_node_range(tree.spec_nodes()[g]))]
                        + rest
                },
                None => rest,
            }
        } else {
            rest
        }
    }
}

/// The duplicate diagnostic for one repeated definition.
pub open spec fn spec_duplicate_diag(name: Seq<char>, range: Range) -> DiagV {
    DiagV {
        range,
        severity: Severity::Warning,
        code: Seq::<char>::empty(),
        message: "Function '"@ + name + "' is already defined in this file"@,
    }
}

/// Walk the named definitions with the set of keys already seen: the
/// second and later occurrence of a key is reported.
pub open spec fn spec_duplicate_fold(
    defs: Seq<(Seq<char>, Seq<char>, Range)>,
    seen: Seq<Seq<char>>,
) -> Seq<DiagV>
    decreases defs.len(),
{
    if defs.len() == 0 {
        Seq::<DiagV>::empty()
    } else {
        let d = defs[0];
        if seen.contains(d.0) {
            seq![spec_duplicate_diag(d.1, d.2)] + spec_duplicate_fold(defs.drop_first(), seen)
        } else {
            spec_duplicate_fold(defs.drop_first(), seen.push(d.0))
        }
    }
}

/// Report every function defined more than once in this document, at the
/// second and later name tokens.
pub fn check_duplicate_functions(tree: &SyntaxTree, source: &str) -> (r: Vec<Diagnostic>)
    requires
        tree.wf(),
    ensures
        diags_view(r@) == spec_duplicate_fold(
            spec_named_defs(*tree, 0, source@),
            Seq::<Seq<char>>::empty(),
        ),
{
    let n = tree.len();
    let mut named: Vec<(String, String, Range)> = Vec::new();
    let mut i: usize = 0;
    while i < n
        invariant
            tree.wf(),
            n == tree.spec_len(),
            i <= n,
            named_view(named@) + spec_named_defs(*tree, i as int, source@) == spec_named_defs(
                *tree,
                0,
                source@,
            ),
        decreases n - i,
    {
        let ghost rest = spec_named_defs(*tree, i as int, source@);
        if tree.kind_is(i, "def_statement") {
            match fn_name_node(tree, i) {
                Some(g) => {
                    let name = crate::tree::node_text(tree, g, source);
                    let key = crate::text::to_lowercase(name.as_str());
                    let range = crate::tree::node_range(tree.node(g));
                    let ghost pre = named@;
                    named.push((key, name, range));
                    proof {
                        assert(named_view(named@) =~= named_view(pre).push(
                            (named@.last().0@, named@.last().1@, named@.last().2),
                        ));
                        assert(rest == seq![
                            (named@.last().0@, named@.last().1@, named@.last().2),
                        ] + spec_named_defs(*tree, i + 1, source@));
                        assert(named_view(pre).push(
                            (named@.last().0@, named@.last().1@, named@.last().2),
                        ) + spec_named_defs(*tree, i + 1, source@) =~= named_view(pre) + rest);
                    }
                },
                None => {},
            }
        }
        i += 1;
    }
    proof {
        assert(named_view(named@) + Seq::<(Seq<char>, Seq<char>, Range)>::empty() =~= named_view(
            named@,
        ));
    }
    // Second pass: report repeats.
    let m = named.len();
    let mut seen: Vec<String> = Vec::new();
    let mut diags: Vec<Diagnostic> = Vec::new();
    let mut k: usize = 0;
    proof {
        assert(crate::text::strs_view(seen@) =~= Seq::<Seq<char>>::empty());
        assert(named_view(named@).skip(0) =~= named_view(named@));
        assert(diags_view(diags@) + spec_duplicate_fold(
            named_view(named@),
            crate::text::strs_view(seen@),
        ) =~= spec_duplicate_fold(named_view(named@), crate::text::strs_view(seen@)));
    }
    while k < m
        invariant
            m == named@.len(),
            k <= m,
            diags_view(diags@) + spec_duplicate_fold(
                named_view(named@).skip(k as int),
                crate::text::strs_view(seen@),
            ) == spec_duplicate_fold(named_view(named@), Seq::<Seq<char>>::empty()),
        decreases m - k,
    {
        let ghost sdefs = named_view(named@).skip(k as int);
        proof {
            assert(sdefs[0] == named_view(named@)[k as int]);
            assert(sdefs.drop_first() =~= named_view(named@).skip(k + 1));
        }
        let entry = &named[k];
        if contains_string(&seen, entry.0.as_str()) {
            let mut message = String::new();
            message.append("Function '");
            message.append(entry.1.as_str());
            message.append("' is already defined in this file");
            let ghost pre = diags@;
            diags.push(
                Diagnostic {
                    range: entry.2,
                    severity: Severity::Warning,
                    code: String::new(),
                    message,
                },
            );
            proof {
                lemma_diags_push(pre, diags@.last());
                assert(diags@.last().message@ =~= spec_duplicate_diag(
                    named_view(named@)[k as int].1,
                    named_view(named@)[k as int].2,
                ).message);
                assert(diags@.last().code@ =~= Seq::<char>::empty());
                assert(diag_of(diags@.last()) == spec_duplicate_diag(
                    named_view(named@)[k as int].1,
                    named_view(named@)[k as int].2,
                ));
                assert(spec_duplicate_fold(sdefs, crate::text::strs_view(seen@)) == seq![
                    diag_of(diags@.last()),
                ] + spec_duplicate_fold(sdefs.drop_first(), crate::text::strs_view(seen@)));
                assert(diags_view(pre).push(diag_of(diags@.last())) + spec_duplicate_fold(
                    sdefs.drop_first(),
                    crate::text::strs_view(seen@),
                ) =~= diags_view(pre) + spec_duplicate_fold(sdefs, crate::text::strs_view(seen@)));
            }
        } else {
            let key_copy = crate::text::substring_owned(entry.0.as_str(), 0, entry.0.as_str().unicode_len());
            let ghost pre_seen = seen@;
            seen.push(key_copy);
            proof {
                crate::text::lemma_strs_push(pre_seen, seen@.last());
                assert(seen@.last()@ =~= named_view(named@)[k as int].0);
            }
        }
        k += 1;
    }
    proof {
        assert(named_view(named@).skip(m as int).len() == 0);
    }
    diags
}

pub open spec fn named_view(v: Seq<(String, String, Range)>) -> Seq<(Seq<char>, Seq<char>, Range)> {
    v.map_values(|e: (String, String, Range)| (e.0@, e.1@, e.2))
}

pub open spec fn diag_of(d: Diagnostic) -> DiagV {
    crate::parser::diag_view(d)
}

/// Does the list hold this exact string?
fn contains_string(v: &Vec<String>, x: &str) -> (r: bool)
    ensures
        r == crate::text::strs_view(v@).contains(x@),
{
    let n = v.len();
    let mut i: usize = 0;
    while i < n
        invariant
            n == v@.len(),
            i <= n,
            forall|q: int| 0 <= q < i ==> crate::text::strs_view(v@)[q] != x@,
        decreases n - i,
    {
        if crate::text::str_eq(v[i].as_str(), x) {
            proof {
                assert(crate::text::strs_view(v@)[i as int] == x@);
            }
            return true;
        }
        i += 1;
    }
    proof {
        assert(!crate::text::strs_view(v@).contains(x@)) by {
            if crate::text::strs_view(v@).contains(x@) {
                let w = choose|w: int|
                    0 <= w < crate::text::strs_view(v@).len() && crate::text::strs_view(v@)[w]
                        == x@;
                assert(crate::text::strs_view(v@)[w] != x@);
            }
        }
    }
    false
}

// ---------------------------------------------------------------------------
// Missing FNEND check
// ---------------------------------------------------------------------------

/// One event of the terminator stream: a definition opening at some byte,
/// or something that closes the open definition.
pub struct FnendEvent {
    pub byte: usize,
    pub is_def: bool,
    pub range: Range,
    pub name: String,
}

pub ghost struct FnendEventV {
    pub byte: int,
    pub is_def: bool,
    pub range: Range,
    pub name: Seq<char>,
}

pub open spec fn fnend_event_view(e: FnendEvent) -> FnendEventV {
    FnendEventV { byte: e.byte as int, is_def: e.is_def, range: e.range, name: e.name@ }
}

pub open spec fn fnend_events_view(v: Seq<FnendEvent>) -> Seq<FnendEventV> {
    v.map_values(|e: FnendEvent| fnend_event_view(e))
}

/// The definition's display name: its name token's text, or empty.
pub open spec fn spec_def_display_name(tree: SyntaxTree, d: int, src: Seq<char>) -> Seq<char> {
    match spec_fn_name_node(tree, d, 0) {
        Some(g) => crate::tree::spec_node_text(tree.spec_nodes()[g], src),
        None => Seq::<char>::empty(),
    }
}

/// The terminator events of the document in arena order: a non-inline
/// `def_statement` opens, an inline one closes at its own start, and
/// `fnend_statement` / `end_def_statement` close.
pub open spec fn spec_fnend_events(tree: SyntaxTree, i: int, src: Seq<char>) -> Seq<FnendEventV>
    decreases tree.spec_len() - i when tree.wf() && 0 <= i <= tree.spec_len()
{
    if i >= tree.spec_len() {
        Seq::<FnendEventV>::empty()
    } else {
        let n = tree.spec_nodes()[i];
        let rest = spec_fnend_events(tree, i + 1, src);
        if n.kind@ == "def_statement"@ {
            if spec_is_inline(tree, i, 0) {
                seq![
                    FnendEventV {
                        byte: n.start_byte as int,
                        is_def: false,
                        range: crate::tree::spec_node_range(n),
                        name: Seq::<char>::empty(),
                    },
                ] + rest
            } else {
                seq![
                    FnendEventV {
                        byte: n.start_byte as int,
                        is_def: true,
                        range: crate::tree::spec_node_range(n),
                        name: spec_def_display_name(tree, i, src),
                    },
                ] + rest
            }
        } else if n.kind@ == "fnend_statement"@ || n.kind@ == "end_def_statement"@ {
            seq![
                FnendEventV {
                    byte: n.start_byte as int,
                    is_def: false,
                    range: crate::tree::spec_node_range(n),
                    name: Seq::<char>::empty(),
                },
            ] + rest
        } else {
            rest
        }
    }
}

/// Stable insertion of an event into a byte-sorted list: it goes after
/// every event with an equal or smaller byte.
pub open spec fn spec_stable_insert(s: Seq<FnendEventV>, x: FnendEventV) -> Seq<FnendEventV>
    decreases s.len(),
{
    if s.len() == 0 {
        seq![x]
    } else if s.last().byte <= x.byte {
        s.push(x)
    } else {
        spec_stable_insert(s.drop_last(), x).push(s.last())
    }
}

/// The byte-sorted event stream, insertion by insertion.
pub open spec fn spec_sort_events(s: Seq<FnendEventV>) -> Seq<FnendEventV>
    decreases s.len(),
{
    if s.len() == 0 {
        Seq::<FnendEventV>::empty()
    } else {
        spec_stable_insert(spec_sort_events(s.drop_last()), s.last())
    }
}

proof fn lemma_stable_insert_at(s: Seq<FnendEventV>, x: FnendEventV, pos: int)
    requires
        0 <= pos <= s.len(),
        forall|q: int| pos <= q < s.len() ==> (#[trigger] s[q]).byte > x.byte,
        pos > 0 ==> s[pos - 1].byte <= x.byte,
    ensures
        spec_stable_insert(s, x) == s.subrange(0, pos) + seq![x] + s.subrange(pos, s.len() as int),
    decreases s.len(),
{
    if s.len() == 0 {
        assert(spec_stable_insert(s, x) =~= s.subrange(0, 0) + seq![x] + s.subrange(0, 0));
    } else if s.last().byte <= x.byte {
        assert(pos == s.len());
        assert(spec_stable_insert(s, x) =~= s.subrange(0, pos) + seq![x] + s.subrange(
            pos,
            s.len() as int,
        ));
    } else {
        assert(pos < s.len());
        lemma_stable_insert_at(s.drop_last(), x, pos);
        assert(spec_stable_insert(s, x) =~= s.subrange(0, pos) + seq![x] + s.subrange(
            pos,
            s.len() as int,
        ));
    }
}

/// Sort the events by byte, keeping the original order of equal bytes.
fn sort_events(events: Vec<FnendEvent>) -> (r: Vec<FnendEvent>)
    ensures
        fnend_events_view(r@) == spec_sort_events(fnend_events_view(events@)),
{
    let ghost sall = fnend_events_view(events@);
    let n = events.len();
    let mut events = events;
    let mut out: Vec<FnendEvent> = Vec::new();
    let mut i: usize = 0;
    while i < n
        invariant
            n == sall.len(),
            events@.len() == n - i,
            fnend_events_view(events@) == sall.skip(i as int),
            i <= n,
            fnend_events_view(out@) == spec_sort_events(sall.subrange(0, i as int)),
        decreases n - i,
    {
        let ghost pre_events = events@;
        let x = events.remove(0);
        proof {
            assert(fnend_event_view(x) == fnend_events_view(pre_events)[0]);
            assert(fnend_events_view(pre_events)[0] == sall.skip(i as int)[0]);
            assert(sall.skip(i as int)[0] == sall[i as int]);
            assert(events@ =~= pre_events.drop_first());
            assert forall|q: int| 0 <= q < events@.len() implies #[trigger] fnend_events_view(
                events@,
            )[q] == sall.skip(i + 1)[q] by {
                assert(fnend_events_view(events@)[q] == fnend_event_view(events@[q]));
                assert(events@[q] == pre_events[q + 1]);
                assert(fnend_events_view(pre_events)[q + 1] == sall.skip(i as int)[q + 1]);
            }
            assert(fnend_events_view(events@) =~= sall.skip(i + 1));
        }
        let ghost sorted = fnend_events_view(out@);
        let mut pos: usize = out.len();
        while pos > 0 && out[pos - 1].byte > x.byte
            invariant
                sorted == fnend_events_view(out@),
                pos <= out@.len(),
                forall|q: int| pos <= q < sorted.len() ==> (#[trigger] sorted[q]).byte
                    > fnend_event_view(x).byte,
            decreases pos,
        {
            proof {
                assert(sorted[pos - 1].byte == out@[pos - 1].byte);
            }
            pos -= 1;
        }
        proof {
            if pos > 0 {
                assert(sorted[pos - 1].byte == out@[pos - 1].byte);
            }
        }
        let ghost xv = fnend_event_view(x);
        out.insert(pos, x);
        proof {
            lemma_stable_insert_at(sorted, xv, pos as int);
            assert(fnend_events_view(out@) =~= sorted.subrange(0, pos as int) + seq![xv]
                + sorted.subrange(pos as int, sorted.len() as int));
            assert(fnend_events_view(out@) == spec_stable_insert(sorted, xv));
            assert(sall.subrange(0, i + 1).drop_last() =~= sall.subrange(0, i as int));
            assert(sall.subrange(0, i + 1).last() == sall[i as int]);
        }
        i += 1;
    }
    proof {
        assert(sall.subrange(0, n as int) =~= sall);
    }
    out
}

/// The diagnostic for a definition left open.
pub open spec fn spec_fnend_diag(name: Seq<char>, range: Range) -> DiagV {
    DiagV {
        range,
        severity: Severity::Error,
        code: Seq::<char>::empty(),
        message: "Function '"@ + name + "' is missing FNEND"@,
    }
}

/// Walk the sorted events with the currently open definition: a new
/// definition while one is open reports the earlier one; a close clears.
pub open spec fn spec_fnend_fold(
    events: Seq<FnendEventV>,
    open_def: Option<(Range, Seq<char>)>,
) -> Seq<DiagV>
    decreases events.len(),
{
    if events.len() == 0 {
        match open_def {
            Some(p) => seq![spec_fnend_diag(p.1, p.0)],
            None => Seq::<DiagV>::empty(),
        }
    } else {
        let e = events[0];
        if e.is_def {
            match open_def {
                Some(p) => seq![spec_fnend_diag(p.1, p.0)] + spec_fnend_fold(
                    events.drop_first(),
                    Some((e.range, e.name)),
                ),
                None => spec_fnend_fold(events.drop_first(), Some((e.range, e.name))),
            }
        } else {
            spec_fnend_fold(events.drop_first(), None)
        }
    }
}

/// What the whole check reports for a document.
pub open spec fn spec_missing_fnend(tree: SyntaxTree, src: Seq<char>) -> Seq<DiagV> {
    spec_fnend_fold(spec_sort_events(spec_fnend_events(tree, 0, src)), None)
}

/// Report every multi-line definition that no `FNEND` or `END DEF`
/// closes before the next definition or the end of the document.
pub fn check_missing_fnend(tree: &SyntaxTree, source: &str) -> (r: Vec<Diagnostic>)
    requires
        tree.wf(),
    ensures
        diags_view(r@) == spec_missing_fnend(*tree, source@),
{
    // Collect events in arena order.
    let n = tree.len();
    let mut events: Vec<FnendEvent> = Vec::new();
    let mut i: usize = 0;
    while i < n
        invariant
            tree.wf(),
            n == tree.spec_len(),
            i <= n,
            fnend_events_view(events@) + spec_fnend_events(*tree, i as int, source@)
                == spec_fnend_events(*tree, 0, source@),
        decreases n - i,
    {
        let ghost rest = spec_fnend_events(*tree, i as int, source@);
        if tree.kind_is(i, "def_statement") {
            let node_range = crate::tree::node_range(tree.node(i));
            let byte = tree.node(i).start_byte;
            let ghost pre = events@;
            if is_inline_def(tree, i) {
                events.push(
                    FnendEvent { byte, is_def: false, range: node_range, name: String::new() },
                );
            } else {
                let name = match fn_name_node(tree, i) {
                    Some(g) => crate::tree::node_text(tree, g, source),
                    None => String::new(),
                };
                proof {
                    assert(name@ == spec_def_display_name(*tree, i as int, source@));
                }
                events.push(FnendEvent { byte, is_def: true, range: node_range, name });
            }
            proof {
                assert(fnend_events_view(events@) =~= fnend_events_view(pre).push(
                    fnend_event_view(events@.last()),
                ));
                assert(events@.last().name@ =~= fnend_event_view(events@.last()).name);
                assert(rest == seq![fnend_event_view(events@.last())] + spec_fnend_events(
                    *tree,
                    i + 1,
                    source@,
                ));
                assert(fnend_events_view(pre).push(fnend_event_view(events@.last()))
                    + spec_fnend_events(*tree, i + 1, source@) =~= fnend_events_view(pre) + rest);
            }
        } else if tree.kind_is(i, "fnend_statement") || tree.kind_is(i, "end_def_statement") {
            let node_range = crate::tree::node_range(tree.node(i));
            let byte = tree.node(i).start_byte;
            let ghost pre = events@;
            events.push(FnendEvent { byte, is_def: false, range: node_range, name: String::new() });
            proof {
                assert(fnend_events_view(events@) =~= fnend_events_view(pre).push(
                    fnend_event_view(events@.last()),
                ));
                assert(fnend_event_view(events@.last()).name =~= Seq::<char>::empty());
                assert(rest == seq![fnend_event_view(events@.last())] + spec_fnend_events(
                    *tree,
                    i + 1,
                    source@,
                ));
                assert(fnend_events_view(pre).push(fnend_event_view(events@.last()))
                    + spec_fnend_events(*tree, i + 1, source@) =~= fnend_events_view(pre) + rest);
            }
        }
        i += 1;
    }
    proof {
        assert(fnend_events_view(events@) + Seq::<FnendEventV>::empty() =~= fnend_events_view(
            events@,
        ));
    }
    // Sort by byte, stably.
    let sorted = sort_events(events);
    let ghost sevs = fnend_events_view(sorted@);
    // Run the open/close machine.
    let m = sorted.len();
    let mut diags: Vec<Diagnostic> = Vec::new();
    let mut open_range: Option<Range> = None;
    let mut open_name = String::new();
    let mut k: usize = 0;
    proof {
        assert(sevs.skip(0) =~= sevs);
        assert(diags_view(diags@) + spec_fnend_fold(sevs, None) =~= spec_fnend_fold(sevs, None));
    }
    while k < m
        invariant
            m == sorted@.len(),
            sevs == fnend_events_view(sorted@),
            k <= m,
            diags_view(diags@) + spec_fnend_fold(
                sevs.skip(k as int),
                match open_range {
                    Some(rg) => Some((rg, open_name@)),
                    None => None,
                },
            ) == spec_fnend_fold(sevs, None),
        decreases m - k,
    {
        proof {
            assert(sevs.skip(k as int)[0] == sevs[k as int]);
            assert(sevs.skip(k as int).drop_first() =~= sevs.skip(k + 1));
        }
        let e = &sorted[k];
        if e.is_def {
            match open_range {
                Some(rg) => {
                    let mut message = String::new();
                    message.append("Function '");
                    message.append(open_name.as_str());
                    message.append("' is missing FNEND");
                    let ghost pre = diags@;
                    diags.push(
                        Diagnostic { range: rg, severity: Severity::Error, code: String::new(), message },
                    );
                    proof {
                        lemma_diags_push(pre, diags@.last());
                        assert(diags@.last().message@ =~= spec_fnend_diag(open_name@, rg).message);
                        assert(diags@.last().code@ =~= Seq::<char>::empty());
                        assert(diag_of(diags@.last()) == spec_fnend_diag(open_name@, rg));
                        assert(diags_view(pre).push(diag_of(diags@.last())) + spec_fnend_fold(
                            sevs.skip(k + 1),
                            Some((sevs[k as int].range, sevs[k as int].name)),
                        ) =~= diags_view(pre) + spec_fnend_fold(
                            sevs.skip(k as int),
                            Some((rg, open_name@)),
                        ));
                    }
                },
                None => {},
            }
            open_range = Some(e.range);
            open_name = crate::text::substring_owned(e.name.as_str(), 0, e.name.as_str().unicode_len());
            proof {
                assert(open_name@ =~= sevs[k as int].name);
            }
        } else {
            open_range = None;
        }
        k += 1;
    }
    proof {
        assert(sevs.skip(m as int).len() == 0);
    }
    match open_range {
        Some(rg) => {
            let mut message = String::new();
            message.append("Function '");
            message.append(open_name.as_str());
            message.append("' is missing FNEND");
            let ghost pre = diags@;
            diags.push(
                Diagnostic { range: rg, severity: Severity::Error, code: String::new(), message },
            );
            proof {
                lemma_diags_push(pre, diags@.last());
                assert(diags@.last().message@ =~= spec_fnend_diag(open_name@, rg).message);
                assert(diags@.last().code@ =~= Seq::<char>::empty());
                assert(diag_of(diags@.last()) == spec_fnend_diag(open_name@, rg));
                assert(diags_view(diags@) =~= spec_missing_fnend(*tree, source@));
            }
        },
        None => {
            proof {
                assert(diags_view(diags@) =~= spec_missing_fnend(*tree, source@));
            }
        },
    }
    diags
}

// ---------------------------------------------------------------------------
// Call nodes and their arguments
// ---------------------------------------------------------------------------

pub open spec fn spec_is_user_call_kind(kind: Seq<char>) -> bool {
    kind == "numeric_user_function"@ || kind == "string_user_function"@
}

pub open spec fn spec_is_system_call_kind(kind: Seq<char>) -> bool {
    kind == "numeric_system_function"@ || kind == "string_system_function"@
}

/// A kind name marks a user call or a system call, never both.
pub proof fn lemma_call_kinds_distinct(kind: Seq<char>)
    ensures
        !(spec_is_user_call_kind(kind) && spec_is_system_call_kind(kind)),
{
    reveal_strlit("numeric_user_function");
    reveal_strlit("string_user_function");
    reveal_strlit("numeric_system_function");
    reveal_strlit("string_system_function");
    if spec_is_user_call_kind(kind) && spec_is_system_call_kind(kind) {
        assert("numeric_user_function"@.len() == 21);
        assert("string_user_function"@.len() == 20);
        assert("numeric_system_function"@.len() == 23);
        assert("string_system_function"@.len() == 22);
    }
}

/// Indices of every call node, in arena order.
pub open spec fn spec_call_nodes(tree: SyntaxTree, i: int) -> Seq<int>
    decreases tree.spec_len() - i when tree.wf() && 0 <= i <= tree.spec_len()
{
    if i >= tree.spec_len() {
        Seq::<int>::empty()
    } else {
        let kind = tree.spec_nodes()[i].kind@;
        let rest = spec_call_nodes(tree, i + 1);
        if spec_is_user_call_kind(kind) || spec_is_system_call_kind(kind) {
            seq![i] + rest
        } else {
            rest
        }
    }
}

/// Indices of every user-function call node, in arena order.
pub open spec fn spec_user_call_nodes(tree: SyntaxTree, i: int) -> Seq<int>
    decreases tree.spec_len() - i when tree.wf() && 0 <= i <= tree.spec_len()
{
    if i >= tree.spec_len() {
        Seq::<int>::empty()
    } else {
        let kind = tree.spec_nodes()[i].kind@;
        let rest = spec_user_call_nodes(tree, i + 1);
        if spec_is_user_call_kind(kind) {
            seq![i] + rest
        } else {
            rest
        }
    }
}

/// Number of comma tokens among the children of `a`, from `k` on.
pub open spec fn spec_comma_count(tree: SyntaxTree, a: int, k: int, src: Seq<char>) -> int
    decreases tree.spec_nodes()[a].children@.len() - k
        when tree.wf() && 0 <= a < tree.spec_len() && 0 <= k
{
    let ch = tree.spec_nodes()[a].children@;
    if k >= ch.len() {
        0
    } else {
        let c = ch[k] as int;
        let here: int = if tree.spec_nodes()[c].kind@ != "argument"@ && !tree.spec_nodes()[c].named
            && crate::tree::spec_node_text(tree.spec_nodes()[c], src) == ","@ {
            1
        } else {
            0
        };
        here + spec_comma_count(tree, a, k + 1, src)
    }
}

/// Does `a` have an `argument` child at or after `k`?
pub open spec fn spec_has_argument(tree: SyntaxTree, a: int, k: int) -> bool
    decreases tree.spec_nodes()[a].children@.len() - k
        when tree.wf() && 0 <= a < tree.spec_len() && 0 <= k
{
    let ch = tree.spec_nodes()[a].children@;
    if k >= ch.len() {
        false
    } else {
        tree.spec_nodes()[ch[k] as int].kind@ == "argument"@ || spec_has_argument(tree, a, k + 1)
    }
}

/// Number of argument positions: zero for empty parentheses, else one more
/// than the number of commas.
pub open spec fn spec_arg_count(tree: SyntaxTree, a: int, src: Seq<char>) -> int {
    let commas = spec_comma_count(tree, a, 0, src);
    if commas == 0 && !spec_has_argument(tree, a, 0) {
        0
    } else if commas < usize::MAX {
        commas + 1
    } else {
        usize::MAX as int
    }
}

/// Count the argument positions of an `arguments` node.
pub fn count_arg_positions(tree: &SyntaxTree, a: usize, source: &str) -> (r: usize)
    requires
        tree.wf(),
        0 <= a < tree.spec_len(),
    ensures
        r as int == spec_arg_count(*tree, a as int, source@),
{
    let m = tree.node(a).children.len();
    let mut commas: usize = 0;
    let mut has_arg = false;
    let mut k: usize = 0;
    while k < m
        invariant
            tree.wf(),
            0 <= a < tree.spec_len(),
            m == tree.spec_nodes()[a as int].children@.len(),
            k <= m,
            commas <= k,
            commas + spec_comma_count(*tree, a as int, k as int, source@) == spec_comma_count(
                *tree,
                a as int,
                0,
                source@,
            ),
            has_arg == (spec_has_argument(*tree, a as int, 0) && !spec_has_argument(
                *tree,
                a as int,
                k as int,
            )) || (has_arg == spec_has_argument(*tree, a as int, 0) && spec_has_argument(
                *tree,
                a as int,
                k as int,
            ) == spec_has_argument(*tree, a as int, 0)),
            has_arg ==> spec_has_argument(*tree, a as int, 0),
            !has_arg ==> spec_has_argument(*tree, a as int, 0) == spec_has_argument(
                *tree,
                a as int,
                k as int,
            ),
        decreases m - k,
    {
        let c = tree.node(a).children[k];
        if tree.kind_is(c, "argument") {
            has_arg = true;
        } else if !tree.node(c).named {
            let t = crate::tree::node_text(tree, c, source);
            if crate::text::str_eq(t.as_str(), ",") {
                commas += 1;
            }
        }
        k += 1;
    }
    if commas == 0 && !has_arg {
        0
    } else if commas < usize::MAX {
        commas + 1
    } else {
        commas
    }
}

/// One step of the argument-position walk: an `argument` child records an
/// entry at the current position, a comma moves on (recording an empty
/// entry when none was recorded at this position).
pub open spec fn spec_args_step(
    tree: SyntaxTree,
    c: int,
    src: Seq<char>,
    acc: Seq<(int, Option<int>)>,
    pos: int,
) -> (Seq<(int, Option<int>)>, int) {
    if tree.spec_nodes()[c].kind@ == "argument"@ {
        (acc.push((pos, Some(c))), pos)
    } else if !tree.spec_nodes()[c].named && crate::tree::spec_node_text(tree.spec_nodes()[c], src)
        == ","@ {
        if acc.len() == 0 || acc.last().0 != pos {
            (acc.push((pos, None)), pos + 1)
        } else {
            (acc, pos + 1)
        }
    } else {
        (acc, pos)
    }
}

pub open spec fn spec_args_walk(
    tree: SyntaxTree,
    a: int,
    src: Seq<char>,
    k: int,
    acc: Seq<(int, Option<int>)>,
    pos: int,
) -> (Seq<(int, Option<int>)>, int)
    decreases tree.spec_nodes()[a].children@.len() - k
        when tree.wf() && 0 <= a < tree.spec_len() && 0 <= k
{
    let ch = tree.spec_nodes()[a].children@;
    if k >= ch.len() {
        (acc, pos)
    } else {
        let next = spec_args_step(tree, ch[k] as int, src, acc, pos);
        spec_args_walk(tree, a, src, k + 1, next.0, next.1)
    }
}

/// The argument entries of an `arguments` node: `(position, node)` pairs
/// in order, with empty positions recorded as `None`, including a final
/// trailing empty position.
pub open spec fn spec_arg_entries(tree: SyntaxTree, a: int, src: Seq<char>) -> Seq<
    (int, Option<int>),
> {
    let w = spec_args_walk(tree, a, src, 0, Seq::<(int, Option<int>)>::empty(), 0);
    if w.1 > 0 && (w.0.len() == 0 || w.0.last().0 != w.1) {
        w.0.push((w.1, None))
    } else {
        w.0
    }
}

pub open spec fn arg_entries_view(v: Seq<(usize, Option<usize>)>) -> Seq<(int, Option<int>)> {
    v.map_values(
        |e: (usize, Option<usize>)|
            (
                e.0 as int,
                match e.1 {
                    Some(x) => Some(x as int),
                    None => None,
                },
            ),
    )
}

/// Collect the argument entries of an `arguments` node.
pub fn collect_argument_nodes(tree: &SyntaxTree, a: usize, source: &str) -> (r: Vec<
    (usize, Option<usize>),
>)
    requires
        tree.wf(),
        0 <= a < tree.spec_len(),
    ensures
        arg_entries_view(r@) == spec_arg_entries(*tree, a as int, source@),
        forall|q: int|
            0 <= q < r@.len() ==> ((#[trigger] r@[q]).1 matches Some(x) ==> 0 <= x
                < tree.spec_len()),
{
    let m = tree.node(a).children.len();
    let mut acc: Vec<(usize, Option<usize>)> = Vec::new();
    let mut pos: usize = 0;
    let mut k: usize = 0;
    proof {
        assert(arg_entries_view(acc@) =~= Seq::<(int, Option<int>)>::empty());
    }
    while k < m
        invariant
            tree.wf(),
            0 <= a < tree.spec_len(),
            m == tree.spec_nodes()[a as int].children@.len(),
            k <= m,
            pos <= k,
            spec_args_walk(*tree, a as int, source@, k as int, arg_entries_view(acc@), pos as int)
                == spec_args_walk(
                *tree,
                a as int,
                source@,
                0,
                Seq::<(int, Option<int>)>::empty(),
                0,
            ),
            forall|q: int|
                0 <= q < acc@.len() ==> ((#[trigger] acc@[q]).1 matches Some(x) ==> 0 <= x
                    < tree.spec_len()),
        decreases m - k,
    {
        let c = tree.node(a).children[k];
        let ghost pre = arg_entries_view(acc@);
        if tree.kind_is(c, "argument") {
            acc.push((pos, Some(c)));
            proof {
                assert(arg_entries_view(acc@) =~= pre.push((pos as int, Some(c as int))));
            }
        } else if !tree.node(c).named {
            let t = crate::tree::node_text(tree, c, source);
            if crate::text::str_eq(t.as_str(), ",") {
                let is_new = if acc.len() == 0 {
                    true
                } else {
                    acc[acc.len() - 1].0 != pos
                };
                proof {
                    if acc@.len() > 0 {
                        assert(pre.last().0 == acc@[acc@.len() - 1].0 as int);
                    }
                }
                if is_new {
                    acc.push((pos, None));
                    proof {
                        assert(arg_entries_view(acc@) =~= pre.push((pos as int, None)));
                    }
                }
                pos += 1;
            }
        }
        k += 1;
    }
    let ghost w = spec_args_walk(
        *tree,
        a as int,
        source@,
        0,
        Seq::<(int, Option<int>)>::empty(),
        0,
    );
    proof {
        assert(w == (arg_entries_view(acc@), pos as int));
        if acc@.len() > 0 {
            assert(arg_entries_view(acc@).last().0 == acc@[acc@.len() - 1].0 as int);
        }
    }
    let needs_tail = if pos > 0 {
        if acc.len() == 0 {
            true
        } else {
            acc[acc.len() - 1].0 != pos
        }
    } else {
        false
    };
    if needs_tail {
        let ghost pre = arg_entries_view(acc@);
        acc.push((pos, None));
        proof {
            assert(arg_entries_view(acc@) =~= pre.push((pos as int, None)));
        }
    }
    acc
}

/// First named child of `i`, from `k` on.
pub open spec fn spec_first_named_child(tree: SyntaxTree, i: int, k: int) -> Option<int>
    decreases tree.spec_nodes()[i].children@.len() - k
        when tree.wf() && 0 <= i < tree.spec_len() && 0 <= k
{
    let ch = tree.spec_nodes()[i].children@;
    if k >= ch.len() {
        None
    } else if tree.spec_nodes()[ch[k] as int].named {
        Some(ch[k] as int)
    } else {
        spec_first_named_child(tree, i, k + 1)
    }
}

pub fn first_named_child(tree: &SyntaxTree, i: usize) -> (r: Option<usize>)
    requires
        tree.wf(),
        0 <= i < tree.spec_len(),
    ensures
        match r {
            Some(c) => spec_first_named_child(*tree, i as int, 0) == Some(c as int) && i < c
                < tree.spec_len(),
            None => spec_first_named_child(*tree, i as int, 0) is None,
        },
{
    let m = tree.node(i).children.len();
    let mut k: usize = 0;
    while k < m
        invariant
            tree.wf(),
            0 <= i < tree.spec_len(),
            m == tree.spec_nodes()[i as int].children@.len(),
            k <= m,
            spec_first_named_child(*tree, i as int, k as int) == spec_first_named_child(
                *tree,
                i as int,
                0,
            ),
        decreases m - k,
    {
        let c = tree.node(i).children[k];
        if tree.node(c).named {
            return Some(c);
        }
        k += 1;
    }
    None
}

/// The kind of an argument: walk `argument` to `expression` to its first
/// concrete typed expression.
pub open spec fn spec_argument_type(tree: SyntaxTree, arg: int) -> Option<ParamKind>
    recommends
        tree.wf(),
        0 <= arg < tree.spec_len(),
{
    match spec_first_named_child(tree, arg, 0) {
        None => None,
        Some(e) => {
            if tree.spec_nodes()[e].kind@ != "expression"@ {
                None
            } else {
                match spec_first_named_child(tree, e, 0) {
                    None => None,
                    Some(t) => {
                        let kind = tree.spec_nodes()[t].kind@;
                        if kind == "numeric_expression"@ {
                            Some(ParamKind::Numeric)
                        } else if kind == "string_expression"@ {
                            Some(ParamKind::String)
                        } else if kind == "numeric_array_expression"@ {
                            Some(ParamKind::NumericArray)
                        } else if kind == "string_array_expression"@ {
                            Some(ParamKind::StringArray)
                        } else {
                            None
                        }
                    },
                }
            }
        },
    }
}

pub fn argument_type(tree: &SyntaxTree, arg: usize) -> (r: Option<ParamKind>)
    requires
        tree.wf(),
        0 <= arg < tree.spec_len(),
    ensures
        r == spec_argument_type(*tree, arg as int),
{
    let e = match first_named_child(tree, arg) {
        Some(e) => e,
        None => {
            return None;
        },
    };
    if !tree.kind_is(e, "expression") {
        return None;
    }
    let t = match first_named_child(tree, e) {
        Some(t) => t,
        None => {
            return None;
        },
    };
    if tree.kind_is(t, "numeric_expression") {
        Some(ParamKind::Numeric)
    } else if tree.kind_is(t, "string_expression") {
        Some(ParamKind::String)
    } else if tree.kind_is(t, "numeric_array_expression") {
        Some(ParamKind::NumericArray)
    } else if tree.kind_is(t, "string_array_expression") {
        Some(ParamKind::StringArray)
    } else {
        None
    }
}

// ---------------------------------------------------------------------------
// Parameter count and argument kind check
// ---------------------------------------------------------------------------

/// The first definition recorded under `key` (lowercased), if any.
pub open spec fn spec_first_def(defs: Seq<crate::extract::FunctionDefV>, key: Seq<char>) -> Option<
    crate::extract::FunctionDefV,
>
    decreases defs.len(),
{
    if defs.len() == 0 {
        None
    } else if lower_seq(defs[0].name) == key {
        Some(defs[0])
    } else {
        spec_first_def(defs.drop_first(), key)
    }
}

/// Find the first local definition under `key`.
fn first_def<'a>(defs: &'a Vec<FunctionDef>, name: &str) -> (r: Option<&'a FunctionDef>)
    ensures
        match r {
            Some(d) => spec_first_def(crate::extract::defs_view(defs@), lower_seq(name@)) == Some(
                crate::extract::def_view(*d),
            ),
            None => spec_first_def(crate::extract::defs_view(defs@), lower_seq(name@)) is None,
        },
{
    let ghost sdefs = crate::extract::defs_view(defs@);
    let n = defs.len();
    let mut i: usize = 0;
    proof {
        assert(sdefs.skip(0) =~= sdefs);
    }
    while i < n
        invariant
            n == defs@.len(),
            sdefs == crate::extract::defs_view(defs@),
            i <= n,
            spec_first_def(sdefs.skip(i as int), lower_seq(name@)) == spec_first_def(
                sdefs,
                lower_seq(name@),
            ),
        decreases n - i,
    {
        proof {
            assert(sdefs.skip(i as int)[0] == sdefs[i as int]);
            assert(sdefs.skip(i as int).drop_first() =~= sdefs.skip(i + 1));
        }
        if crate::text::eq_ignore_case(defs[i].name.as_str(), name) {
            return Some(&defs[i]);
        }
        i += 1;
    }
    None
}

/// Number of required (non-optional) parameters.
pub open spec fn spec_required_count(params: Seq<crate::extract::ParamInfoV>) -> int {
    params.filter(|p: crate::extract::ParamInfoV| !p.is_optional).len() as int
}

fn required_count(params: &Vec<crate::extract::ParamInfo>) -> (r: usize)
    ensures
        r as int == spec_required_count(crate::extract::params_view(params@)),
        r <= params@.len(),
{
    let ghost pred = |p: crate::extract::ParamInfoV| !p.is_optional;
    let ghost sparams = crate::extract::params_view(params@);
    let n = params.len();
    let mut count: usize = 0;
    let mut i: usize = 0;
    while i < n
        invariant
            n == params@.len(),
            sparams == crate::extract::params_view(params@),
            pred == |p: crate::extract::ParamInfoV| !p.is_optional,
            i <= n,
            count <= i,
            count == sparams.subrange(0, i as int).filter(pred).len(),
        decreases n - i,
    {
        let ghost done = sparams.subrange(0, i as int);
        proof {
            assert(sparams.subrange(0, i + 1) =~= done.push(sparams[i as int]));
            crate::workspace::lemma_filter_push(done, sparams[i as int], pred);
        }
        if !params[i].is_optional {
            count += 1;
        }
        i += 1;
    }
    proof {
        assert(sparams.subrange(0, n as int) =~= sparams);
    }
    count
}

/// The wrong-count diagnostic at a call site.
pub open spec fn spec_count_diag(name: Seq<char>, req: int, tot: int, got: int, range: Range) -> DiagV {
    let expected = if req == tot {
        crate::text::spec_dec(req as nat)
    } else {
        crate::text::spec_dec(req as nat) + "-"@ + crate::text::spec_dec(tot as nat)
    };
    DiagV {
        range,
        severity: Severity::Warning,
        code: Seq::<char>::empty(),
        message: "Function '"@ + name + "' expects "@ + expected + " parameter(s), but "@
            + crate::text::spec_dec(got as nat) + " provided"@,
    }
}

fn make_count_diag(name: &str, req: usize, tot: usize, got: usize, range: Range) -> (r: Diagnostic)
    ensures
        diag_of(r) == spec_count_diag(name@, req as int, tot as int, got as int, range),
{
    let mut message = String::new();
    message.append("Function '");
    message.append(name);
    message.append("' expects ");
    if req == tot {
        let d = crate::text::usize_to_string(req);
        message.append(d.as_str());
    } else {
        let d1 = crate::text::usize_to_string(req);
        let d2 = crate::text::usize_to_string(tot);
        message.append(d1.as_str());
        message.append("-");
        message.append(d2.as_str());
    }
    message.append(" parameter(s), but ");
    let g = crate::text::usize_to_string(got);
    message.append(g.as_str());
    message.append(" provided");
    let r = Diagnostic { range, severity: Severity::Warning, code: String::new(), message };
    proof {
        assert(r.message@ =~= spec_count_diag(name@, req as int, tot as int, got as int, range).message);
        assert(r.code@ =~= Seq::<char>::empty());
    }
    r
}

/// The wrong-kind diagnostic at one argument.
pub open spec fn spec_type_diag(expected: ParamKind, actual: ParamKind, pos: int, range: Range) -> DiagV {
    DiagV {
        range,
        severity: Severity::Warning,
        code: Seq::<char>::empty(),
        message: "Expected "@ + spec_param_kind_name(expected) + " argument at position "@
            + crate::text::spec_dec((pos + 1) as nat) + ", got "@ + spec_param_kind_name(actual),
    }
}

fn make_type_diag(expected: ParamKind, actual: ParamKind, pos: usize, range: Range) -> (r: Diagnostic)
    requires
        pos < usize::MAX,
    ensures
        diag_of(r) == spec_type_diag(expected, actual, pos as int, range),
{
    let mut message = String::new();
    message.append("Expected ");
    message.append(format_param_kind(expected));
    message.append(" argument at position ");
    let p = crate::text::usize_to_string(pos + 1);
    message.append(p.as_str());
    message.append(", got ");
    message.append(format_param_kind(actual));
    let r = Diagnostic { range, severity: Severity::Warning, code: String::new(), message };
    proof {
        assert(r.message@ =~= spec_type_diag(expected, actual, pos as int, range).message);
        assert(r.code@ =~= Seq::<char>::empty());
    }
    r
}

/// Kind diagnostics of a user call: each present argument whose kind the
/// declared parameter at its position refuses.
pub open spec fn spec_user_type_diags(
    tree: SyntaxTree,
    params: Seq<crate::extract::ParamInfoV>,
    entries: Seq<(int, Option<int>)>,
) -> Seq<DiagV>
    decreases entries.len(),
{
    if entries.len() == 0 {
        Seq::<DiagV>::empty()
    } else {
        let rest = spec_user_type_diags(tree, params, entries.drop_first());
        match entries[0].1 {
            None => rest,
            Some(arg) => {
                let pos = entries[0].0;
                if 0 <= pos < params.len() && 0 <= arg < tree.spec_len() {
                    match spec_argument_type(tree, arg) {
                        Some(actual) => {
                            if !spec_types_compatible(params[pos].kind, actual) {
                                seq![
                                    spec_type_diag(
                                        params[pos].kind,
                                        actual,
                                        pos,
                                        crate::tree::spec_node_range(tree.spec_nodes()[arg]),
                                    ),
                                ] + rest
                            } else {
                                rest
                            }
                        },
                        None => rest,
                    }
                } else {
                    rest
                }
            },
        }
    }
}

/// Does the overload accept this argument count?
pub open spec fn spec_overload_accepts(o: BuiltinFunction, count: int) -> bool {
    crate::builtins::spec_builtin_required(o.params@) <= count
        && count <= crate::builtins::spec_builtin_total(o.params@)
}

/// Does some overload accept kind `actual` at position `pos`?  A position
/// beyond an overload's list, or a parameter of unknown kind, accepts
/// anything.
pub open spec fn spec_any_accepts(
    overloads: Seq<BuiltinFunction>,
    pos: int,
    actual: ParamKind,
) -> bool
    decreases overloads.len(),
{
    if overloads.len() == 0 {
        false
    } else {
        let o = overloads[0];
        let this_accepts = if 0 <= pos < o.params@.len() {
            match crate::builtins::spec_builtin_param_kind(o.params@[pos].name@) {
                Some(k) => spec_types_compatible(k, actual),
                None => true,
            }
        } else {
            true
        };
        this_accepts || spec_any_accepts(overloads.drop_first(), pos, actual)
    }
}

/// Kind diagnostics of a system call against the accepting overloads: an
/// argument is reported only when no overload accepts its kind, and the
/// first overload names the expected kind.
pub open spec fn spec_sys_type_diags(
    tree: SyntaxTree,
    matching: Seq<BuiltinFunction>,
    entries: Seq<(int, Option<int>)>,
) -> Seq<DiagV>
    decreases entries.len(),
{
    if entries.len() == 0 || matching.len() == 0 {
        Seq::<DiagV>::empty()
    } else {
        let rest = spec_sys_type_diags(tree, matching, entries.drop_first());
        match entries[0].1 {
            None => rest,
            Some(arg) => {
                let pos = entries[0].0;
                if 0 <= arg < tree.spec_len() {
                    match spec_argument_type(tree, arg) {
                        Some(actual) => {
                            if !spec_any_accepts(matching, pos, actual) {
                                let expected = if 0 <= pos < matching[0].params@.len() {
                                    crate::builtins::spec_builtin_param_kind(
                                        matching[0].params@[pos].name@,
                                    )
                                } else {
                                    None
                                };
                                match expected {
                                    Some(e) => seq![
                                        spec_type_diag(
                                            e,
                                            actual,
                                            pos,
                                            crate::tree::spec_node_range(tree.spec_nodes()[arg]),
                                        ),
                                    ] + rest,
                                    None => rest,
                                }
                            } else {
                                rest
                            }
                        },
                        None => rest,
                    }
                } else {
                    rest
                }
            },
        }
    }
}

/// What the arity and kind check reports at one call node.
pub open spec fn spec_call_check(
    tree: SyntaxTree,
    src: Seq<char>,
    defs: Seq<crate::extract::FunctionDefV>,
    funcs: Seq<BuiltinFunction>,
    c: int,
) -> Seq<DiagV>
    recommends
        tree.wf(),
        0 <= c < tree.spec_len(),
{
    let kind = tree.spec_nodes()[c].kind@;
    match crate::extract::spec_child_of_kinds(tree, c, 0, "function_name"@, "function_name"@) {
        None => Seq::<DiagV>::empty(),
        Some(nn) => {
            let name = crate::tree::spec_node_text(tree.spec_nodes()[nn], src);
            let args_opt = crate::extract::spec_child_of_field(tree, c, 0, "arguments"@);
            let has_paren = args_opt is Some || crate::extract::spec_has_anon_child_text(
                tree,
                c,
                0,
                "("@,
                src,
            );
            if args_opt is None && has_paren {
                Seq::<DiagV>::empty()
            } else if spec_is_system_call_kind(kind) && !has_paren {
                Seq::<DiagV>::empty()
            } else {
                let arg_count: int = match args_opt {
                    Some(a) => spec_arg_count(tree, a, src),
                    None => 0,
                };
                if spec_is_user_call_kind(kind) {
                    match spec_first_def(defs, lower_seq(name)) {
                        None => Seq::<DiagV>::empty(),
                        Some(d) => {
                            if d.has_param_substitution || d.is_import_only {
                                Seq::<DiagV>::empty()
                            } else {
                                let required = spec_required_count(d.params);
                                let total = d.params.len() as int;
                                if arg_count < required || arg_count > total {
                                    seq![
                                        spec_count_diag(
                                            name,
                                            required,
                                            total,
                                            arg_count,
                                            crate::tree::spec_node_range(tree.spec_nodes()[c]),
                                        ),
                                    ]
                                } else {
                                    match args_opt {
                                        Some(a) => spec_user_type_diags(
                                            tree,
                                            d.params,
                                            spec_arg_entries(tree, a, src),
                                        ),
                                        None => Seq::<DiagV>::empty(),
                                    }
                                }
                            }
                        },
                    }
                } else {
                    let overloads = crate::builtins::builtin_filter(funcs, lower_seq(name));
                    if overloads.len() == 0 {
                        Seq::<DiagV>::empty()
                    } else {
                        let matching = overloads.filter(
                            |o: BuiltinFunction| spec_overload_accepts(o, arg_count),
                        );
                        if matching.len() == 0 {
                            seq![
                                spec_count_diag(
                                    overloads[0].name@,
                                    crate::builtins::spec_builtin_required(overloads[0].params@),
                                    crate::builtins::spec_builtin_total(overloads[0].params@),
                                    arg_count,
                                    crate::tree::spec_node_range(tree.spec_nodes()[c]),
                                ),
                            ]
                        } else {
                            match args_opt {
                                Some(a) => spec_sys_type_diags(
                                    tree,
                                    matching,
                                    spec_arg_entries(tree, a, src),
                                ),
                                None => Seq::<DiagV>::empty(),
                            }
                        }
                    }
                }
            }
        },
    }
}

/// What the check reports over the whole document, node by node.
pub open spec fn spec_param_count_diags(
    tree: SyntaxTree,
    src: Seq<char>,
    defs: Seq<crate::extract::FunctionDefV>,
    funcs: Seq<BuiltinFunction>,
    i: int,
) -> Seq<DiagV>
    decreases tree.spec_len() - i when tree.wf() && 0 <= i <= tree.spec_len()
{
    if i >= tree.spec_len() {
        Seq::<DiagV>::empty()
    } else {
        let kind = tree.spec_nodes()[i].kind@;
        let here = if spec_is_user_call_kind(kind) || spec_is_system_call_kind(kind) {
            spec_call_check(tree, src, defs, funcs, i)
        } else {
            Seq::<DiagV>::empty()
        };
        here + spec_param_count_diags(tree, src, defs, funcs, i + 1)
    }
}

/// The kind diagnostics of one user call's arguments.
fn user_type_diags(
    tree: &SyntaxTree,
    d: &FunctionDef,
    entries: &Vec<(usize, Option<usize>)>,
    diags: &mut Vec<Diagnostic>,
)
    requires
        tree.wf(),
        forall|q: int|
            0 <= q < entries@.len() ==> ((#[trigger] entries@[q]).1 matches Some(x) ==> 0 <= x
                < tree.spec_len()),
    ensures
        diags_view(final(diags)@) == diags_view(old(diags)@) + spec_user_type_diags(
            *tree,
            crate::extract::params_view(d.params@),
            arg_entries_view(entries@),
        ),
{
    let ghost sparams = crate::extract::params_view(d.params@);
    let ghost sentries = arg_entries_view(entries@);
    let n = entries.len();
    let mut i: usize = 0;
    proof {
        assert(sentries.skip(0) =~= sentries);
        assert(diags_view(diags@) + spec_user_type_diags(*tree, sparams, sentries)
            =~= diags_view(diags@) + spec_user_type_diags(*tree, sparams, sentries));
    }
    while i < n
        invariant
            tree.wf(),
            n == entries@.len(),
            sparams == crate::extract::params_view(d.params@),
            sentries == arg_entries_view(entries@),
            forall|q: int|
                0 <= q < entries@.len() ==> ((#[trigger] entries@[q]).1 matches Some(x) ==> 0 <= x
                    < tree.spec_len()),
            i <= n,
            diags_view(diags@) + spec_user_type_diags(*tree, sparams, sentries.skip(i as int))
                == diags_view(old(diags)@) + spec_user_type_diags(*tree, sparams, sentries),
        decreases n - i,
    {
        let ghost rest = spec_user_type_diags(*tree, sparams, sentries.skip(i as int));
        proof {
            assert(sentries.skip(i as int)[0] == sentries[i as int]);
            assert(sentries.skip(i as int).drop_first() =~= sentries.skip(i + 1));
        }
        let entry = entries[i];
        match entry.1 {
            Some(arg) => {
                let pos = entry.0;
                if pos < d.params.len() {
                    match argument_type(tree, arg) {
                        Some(actual) => {
                            if !types_compatible(d.params[pos].kind, actual) {
                                let ghost pre = diags@;
                                let dg = make_type_diag(
                                    d.params[pos].kind,
                                    actual,
                                    pos,
                                    crate::tree::node_range(tree.node(arg)),
                                );
                                diags.push(dg);
                                proof {
                                    lemma_diags_push(pre, diags@.last());
                                    assert(sparams[pos as int].kind == d.params@[pos as int].kind);
                                    assert(rest == seq![diag_of(diags@.last())]
                                        + spec_user_type_diags(
                                        *tree,
                                        sparams,
                                        sentries.skip(i + 1),
                                    ));
                                    assert(diags_view(pre).push(diag_of(diags@.last()))
                                        + spec_user_type_diags(*tree, sparams, sentries.skip(i + 1))
                                        =~= diags_view(pre) + rest);
                                }
                            }
                        },
                        None => {},
                    }
                }
            },
            None => {},
        }
        i += 1;
    }
    proof {
        assert(sentries.skip(n as int).len() == 0);
    }
}

/// Does some accepting overload take kind `actual` at `pos`?
fn any_accepts(matching: &Vec<&BuiltinFunction>, pos: usize, actual: ParamKind) -> (r: bool)
    ensures
        r == spec_any_accepts(crate::builtins::deref_builtins(matching@), pos as int, actual),
{
    let ghost sm = crate::builtins::deref_builtins(matching@);
    let n = matching.len();
    let mut i: usize = 0;
    proof {
        assert(sm.skip(0) =~= sm);
    }
    while i < n
        invariant
            n == matching@.len(),
            sm == crate::builtins::deref_builtins(matching@),
            i <= n,
            spec_any_accepts(sm.skip(i as int), pos as int, actual) == spec_any_accepts(
                sm,
                pos as int,
                actual,
            ),
        decreases n - i,
    {
        proof {
            assert(sm.skip(i as int)[0] == sm[i as int]);
            assert(sm.skip(i as int).drop_first() =~= sm.skip(i + 1));
        }
        let o = matching[i];
        let this_accepts = if pos < o.params.len() {
            match o.params[pos].kind() {
                Some(k) => types_compatible(k, actual),
                None => true,
            }
        } else {
            true
        };
        if this_accepts {
            return true;
        }
        i += 1;
    }
    proof {
        assert(sm.skip(n as int).len() == 0);
    }
    false
}

/// The kind diagnostics of one system call's arguments.
fn sys_type_diags(
    tree: &SyntaxTree,
    matching: &Vec<&BuiltinFunction>,
    entries: &Vec<(usize, Option<usize>)>,
    diags: &mut Vec<Diagnostic>,
)
    requires
        tree.wf(),
        matching@.len() > 0,
        forall|q: int|
            0 <= q < entries@.len() ==> ((#[trigger] entries@[q]).1 matches Some(x) ==> 0 <= x
                < tree.spec_len()),
    ensures
        diags_view(final(diags)@) == diags_view(old(diags)@) + spec_sys_type_diags(
            *tree,
            crate::builtins::deref_builtins(matching@),
            arg_entries_view(entries@),
        ),
{
    let ghost sm = crate::builtins::deref_builtins(matching@);
    let ghost sentries = arg_entries_view(entries@);
    let n = entries.len();
    let mut i: usize = 0;
    proof {
        assert(sentries.skip(0) =~= sentries);
    }
    while i < n
        invariant
            tree.wf(),
            n == entries@.len(),
            sm == crate::builtins::deref_builtins(matching@),
            sm.len() > 0,
            sentries == arg_entries_view(entries@),
            forall|q: int|
                0 <= q < entries@.len() ==> ((#[trigger] entries@[q]).1 matches Some(x) ==> 0 <= x
                    < tree.spec_len()),
            i <= n,
            diags_view(diags@) + spec_sys_type_diags(*tree, sm, sentries.skip(i as int))
                == diags_view(old(diags)@) + spec_sys_type_diags(*tree, sm, sentries),
        decreases n - i,
    {
        let ghost rest = spec_sys_type_diags(*tree, sm, sentries.skip(i as int));
        proof {
            assert(sentries.skip(i as int)[0] == sentries[i as int]);
            assert(sentries.skip(i as int).drop_first() =~= sentries.skip(i + 1));
        }
        let entry = entries[i];
        match entry.1 {
            Some(arg) => {
                let pos = entry.0;
                match argument_type(tree, arg) {
                    Some(actual) => {
                        if !any_accepts(matching, pos, actual) {
                            let first = matching[0];
                            proof {
                                assert(sm[0] == *matching@[0]);
                            }
                            let expected = if pos < first.params.len() {
                                first.params[pos].kind()
                            } else {
                                None
                            };
                            match expected {
                                Some(e) => {
                                    let ghost pre = diags@;
                                    let dg = make_type_diag(
                                        e,
                                        actual,
                                        pos,
                                        crate::tree::node_range(tree.node(arg)),
                                    );
                                    diags.push(dg);
                                    proof {
                                        lemma_diags_push(pre, diags@.last());
                                        assert(rest == seq![diag_of(diags@.last())]
                                            + spec_sys_type_diags(
                                            *tree,
                                            sm,
                                            sentries.skip(i + 1),
                                        ));
                                        assert(diags_view(pre).push(diag_of(diags@.last()))
                                            + spec_sys_type_diags(*tree, sm, sentries.skip(i + 1))
                                            =~= diags_view(pre) + rest);
                                    }
                                },
                                None => {},
                            }
                        }
                    },
                    None => {},
                }
            },
            None => {},
        }
        i += 1;
    }
    proof {
        assert(sentries.skip(n as int).len() == 0);
    }
}

/// Check every call of the document for argument count and kinds: user
/// calls against the local definition, system calls against the catalog's
/// accepting overloads.
pub fn check_parameter_count(tree: &SyntaxTree, source: &str, table: &BuiltinTable) -> (r: Vec<
    Diagnostic,
>)
    requires
        tree.wf(),
    ensures
        diags_view(r@) == spec_param_count_diags(
            *tree,
            source@,
            crate::extract::spec_defs(*tree, 0, source@),
            table.spec_funcs(),
            0,
        ),
{
    let local_defs = crate::extract::extract_definitions(tree, source);
    let ghost sdefs = crate::extract::spec_defs(*tree, 0, source@);
    let ghost sfuncs = table.spec_funcs();
    let n = tree.len();
    let mut diags: Vec<Diagnostic> = Vec::new();
    let mut i: usize = 0;
    proof {
        assert(diags_view(diags@) + spec_param_count_diags(*tree, source@, sdefs, sfuncs, 0)
            =~= spec_param_count_diags(*tree, source@, sdefs, sfuncs, 0));
    }
    while i < n
        invariant
            tree.wf(),
            n == tree.spec_len(),
            sdefs == crate::extract::spec_defs(*tree, 0, source@),
            sdefs == crate::extract::defs_view(local_defs@),
            sfuncs == table.spec_funcs(),
            i <= n,
            diags_view(diags@) + spec_param_count_diags(*tree, source@, sdefs, sfuncs, i as int)
                == spec_param_count_diags(*tree, source@, sdefs, sfuncs, 0),
        decreases n - i,
    {
        let ghost rest = spec_param_count_diags(*tree, source@, sdefs, sfuncs, i as int);
        let is_user = tree.kind_is(i, "numeric_user_function") || tree.kind_is(
            i,
            "string_user_function",
        );
        let is_system = tree.kind_is(i, "numeric_system_function") || tree.kind_is(
            i,
            "string_system_function",
        );
        if is_user || is_system {
            let ghost pre = diags@;
            check_one_call(tree, source, &local_defs, table, i, is_user, &mut diags);
            proof {
                assert(rest == spec_call_check(*tree, source@, sdefs, sfuncs, i as int)
                    + spec_param_count_diags(*tree, source@, sdefs, sfuncs, i + 1));
                assert((diags_view(pre) + spec_call_check(*tree, source@, sdefs, sfuncs, i as int))
                    + spec_param_count_diags(*tree, source@, sdefs, sfuncs, i + 1) =~= diags_view(
                    pre,
                ) + rest);
            }
        }
        i += 1;
    }
    proof {
        assert(diags_view(diags@) + Seq::<DiagV>::empty() =~= diags_view(diags@));
    }
    diags
}

/// The arity and kind check at one call node.
fn check_one_call(
    tree: &SyntaxTree,
    source: &str,
    local_defs: &Vec<FunctionDef>,
    table: &BuiltinTable,
    c: usize,
    is_user: bool,
    diags: &mut Vec<Diagnostic>,
)
    requires
        tree.wf(),
        0 <= c < tree.spec_len(),
        is_user == spec_is_user_call_kind(tree.spec_nodes()[c as int].kind@),
        is_user || spec_is_system_call_kind(tree.spec_nodes()[c as int].kind@),
    ensures
        diags_view(final(diags)@) == diags_view(old(diags)@) + spec_call_check(
            *tree,
            source@,
            crate::extract::defs_view(local_defs@),
            table.spec_funcs(),
            c as int,
        ),
{
    proof {
        lemma_call_kinds_distinct(tree.spec_nodes()[c as int].kind@);
    }
    let ghost goal = spec_call_check(
        *tree,
        source@,
        crate::extract::defs_view(local_defs@),
        table.spec_funcs(),
        c as int,
    );
    let nn = match crate::extract::child_of_kinds(tree, c, "function_name", "function_name") {
        Some(nn) => nn,
        None => {
            proof {
                assert(diags_view(diags@) =~= diags_view(diags@) + goal);
            }
            return;
        },
    };
    let fn_name = crate::tree::node_text(tree, nn, source);
    let args_opt = crate::extract::child_of_field(tree, c, "arguments");
    let has_paren = match args_opt {
        Some(_) => true,
        None => crate::extract::has_anon_child_text(tree, c, "(", source),
    };
    if args_opt.is_none() && has_paren {
        proof {
            assert(diags_view(diags@) =~= diags_view(diags@) + goal);
        }
        return;
    }
    if !is_user && !has_paren {
        proof {
            assert(diags_view(diags@) =~= diags_view(diags@) + goal);
        }
        return;
    }
    let arg_count = match args_opt {
        Some(a) => count_arg_positions(tree, a, source),
        None => 0,
    };
    if is_user {
        let d = match first_def(local_defs, fn_name.as_str()) {
            Some(d) => d,
            None => {
                proof {
                    assert(diags_view(diags@) =~= diags_view(diags@) + goal);
                }
                return;
            },
        };
        if d.has_param_substitution || d.is_import_only {
            proof {
                assert(diags_view(diags@) =~= diags_view(diags@) + goal);
            }
            return;
        }
        let required = required_count(&d.params);
        let total = d.params.len();
        if arg_count < required || arg_count > total {
            let ghost pre = diags@;
            let dg = make_count_diag(
                fn_name.as_str(),
                required,
                total,
                arg_count,
                crate::tree::node_range(tree.node(c)),
            );
            diags.push(dg);
            proof {
                lemma_diags_push(pre, diags@.last());
                let sdefs = crate::extract::defs_view(local_defs@);
                let sname = crate::tree::spec_node_text(
                    tree.spec_nodes()[nn as int],
                    source@,
                );
                assert(fn_name@ == sname);
                let sd = spec_first_def(sdefs, lower_seq(sname)).unwrap();
                assert(sd == crate::extract::def_view(*d));
                assert(sd.params =~= crate::extract::params_view(d.params@));
                assert(spec_required_count(sd.params) == required as int);
                assert(sd.params.len() == total as int);
                assert(diag_of(diags@.last()) == spec_count_diag(
                    sname,
                    required as int,
                    total as int,
                    arg_count as int,
                    crate::tree::spec_node_range(tree.spec_nodes()[c as int]),
                ));
                let the_diag = spec_count_diag(
                    sname,
                    required as int,
                    total as int,
                    arg_count as int,
                    crate::tree::spec_node_range(tree.spec_nodes()[c as int]),
                );
                assert(spec_is_user_call_kind(tree.spec_nodes()[c as int].kind@));
                assert(!spec_is_system_call_kind(tree.spec_nodes()[c as int].kind@));
                assert(goal == seq![the_diag]);
                assert(diags_view(diags@) =~= diags_view(pre) + goal);
            }
            return;
        }
        match args_opt {
            Some(a) => {
                let entries = collect_argument_nodes(tree, a, source);
                user_type_diags(tree, d, &entries, diags);
                proof {
                    assert(goal =~= spec_user_type_diags(
                        *tree,
                        crate::extract::params_view(d.params@),
                        arg_entries_view(entries@),
                    ));
                }
            },
            None => {
                proof {
                    assert(diags_view(diags@) =~= diags_view(diags@) + goal);
                }
            },
        }
        return;
    }
    // System call
    let overloads = table.lookup(fn_name.as_str());
    if overloads.len() == 0 {
        proof {
            assert(crate::builtins::deref_builtins(overloads@).len() == 0);
            assert(diags_view(diags@) =~= diags_view(diags@) + goal);
        }
        return;
    }
    let ghost soverloads = crate::builtins::deref_builtins(overloads@);
    let ghost accept_pred = |o: BuiltinFunction| spec_overload_accepts(o, arg_count as int);
    let mut matching: Vec<&BuiltinFunction> = Vec::new();
    let m = overloads.len();
    let mut k: usize = 0;
    proof {
        assert(crate::builtins::deref_builtins(matching@) =~= soverloads.subrange(0, 0).filter(
            accept_pred,
        ));
    }
    while k < m
        invariant
            m == overloads@.len(),
            soverloads == crate::builtins::deref_builtins(overloads@),
            accept_pred == |o: BuiltinFunction| spec_overload_accepts(o, arg_count as int),
            k <= m,
            crate::builtins::deref_builtins(matching@) == soverloads.subrange(0, k as int).filter(
                accept_pred,
            ),
        decreases m - k,
    {
        let ghost done = soverloads.subrange(0, k as int);
        proof {
            assert(soverloads.subrange(0, k + 1) =~= done.push(soverloads[k as int]));
            crate::workspace::lemma_filter_push(done, soverloads[k as int], accept_pred);
            assert(soverloads[k as int] == *overloads@[k as int]);
        }
        let o = overloads[k];
        let counts = crate::builtins::builtin_param_counts(o);
        let ghost pre = crate::builtins::deref_builtins(matching@);
        if counts.0 <= arg_count && arg_count <= counts.1 {
            matching.push(o);
            proof {
                assert(crate::builtins::deref_builtins(matching@) =~= pre.push(
                    soverloads[k as int],
                ));
                assert(crate::builtins::deref_builtins(matching@) == soverloads.subrange(
                    0,
                    k + 1,
                ).filter(accept_pred));
            }
        } else {
            proof {
                assert(crate::builtins::deref_builtins(matching@) == soverloads.subrange(
                    0,
                    k + 1,
                ).filter(accept_pred));
            }
        }
        k += 1;
    }
    proof {
        assert(soverloads.subrange(0, m as int) =~= soverloads);
    }
    if matching.len() == 0 {
        let first = overloads[0];
        proof {
            assert(soverloads[0] == *overloads@[0]);
        }
        let counts = crate::builtins::builtin_param_counts(first);
        let ghost pre = diags@;
        let dg = make_count_diag(
            first.name.as_str(),
            counts.0,
            counts.1,
            arg_count,
            crate::tree::node_range(tree.node(c)),
        );
        diags.push(dg);
        proof {
            lemma_diags_push(pre, diags@.last());
            assert(goal =~= seq![diag_of(diags@.last())]);
            assert(diags_view(diags@) =~= diags_view(pre) + goal);
        }
        return;
    }
    match args_opt {
        Some(a) => {
            let entries = collect_argument_nodes(tree, a, source);
            sys_type_diags(tree, &matching, &entries, diags);
            proof {
                assert(goal =~= spec_sys_type_diags(
                    *tree,
                    crate::builtins::deref_builtins(matching@),
                    arg_entries_view(entries@),
                ));
            }
        },
        None => {
            proof {
                assert(diags_view(diags@) =~= diags_view(diags@) + goal);
            }
        },
    }
}

// ---------------------------------------------------------------------------
// Undefined functions
// ---------------------------------------------------------------------------

/// Is some definition recorded under `key` (lowercased)?
pub open spec fn spec_defs_contain(defs: Seq<crate::extract::FunctionDefV>, key: Seq<char>) -> bool {
    spec_first_def(defs, key) is Some
}

/// The diagnostic for a call of a function defined nowhere.
pub open spec fn spec_undefined_diag(name: Seq<char>, range: Range) -> DiagV {
    DiagV {
        range,
        severity: Severity::Warning,
        code: "undefined-function"@,
        message: "Function '"@ + name + "' is not defined in the workspace"@,
    }
}

/// What one user call contributes: a report when its name is neither a
/// local definition nor anywhere in the workspace index.
pub open spec fn spec_undef_at(
    tree: SyntaxTree,
    src: Seq<char>,
    defs: Seq<crate::extract::FunctionDefV>,
    entries: Seq<crate::workspace::IndexedFunctionDef>,
    c: int,
) -> Seq<DiagV>
    recommends
        tree.wf(),
        0 <= c < tree.spec_len(),
{
    match crate::extract::spec_child_of_kinds(tree, c, 0, "function_name"@, "function_name"@) {
        None => Seq::<DiagV>::empty(),
        Some(nn) => {
            let name = crate::tree::spec_node_text(tree.spec_nodes()[nn], src);
            let key = lower_seq(name);
            if spec_defs_contain(defs, key) || crate::workspace::name_filter(entries, key).len()
                > 0 {
                Seq::<DiagV>::empty()
            } else {
                seq![
                    spec_undefined_diag(
                        name,
                        crate::tree::spec_node_range(tree.spec_nodes()[nn]),
                    ),
                ]
            }
        },
    }
}

/// What the whole check reports, node by node over the user calls.
pub open spec fn spec_undef_diags(
    tree: SyntaxTree,
    src: Seq<char>,
    defs: Seq<crate::extract::FunctionDefV>,
    entries: Seq<crate::workspace::IndexedFunctionDef>,
    i: int,
) -> Seq<DiagV>
    decreases tree.spec_len() - i when tree.wf() && 0 <= i <= tree.spec_len()
{
    if i >= tree.spec_len() {
        Seq::<DiagV>::empty()
    } else {
        let here = if spec_is_user_call_kind(tree.spec_nodes()[i].kind@) {
            spec_undef_at(tree, src, defs, entries, i)
        } else {
            Seq::<DiagV>::empty()
        };
        here + spec_undef_diags(tree, src, defs, entries, i + 1)
    }
}

/// After workspace indexing, report every user-function call whose name no
/// local definition and no index entry covers, with the machine code
/// `undefined-function`.
pub fn check_undefined_functions(
    tree: &SyntaxTree,
    source: &str,
    index: &WorkspaceIndex,
) -> (r: Vec<Diagnostic>)
    requires
        tree.wf(),
    ensures
        diags_view(r@) == spec_undef_diags(
            *tree,
            source@,
            crate::extract::spec_defs(*tree, 0, source@),
            index.spec_entries(),
            0,
        ),
{
    let local_defs = crate::extract::extract_definitions(tree, source);
    let ghost sdefs = crate::extract::spec_defs(*tree, 0, source@);
    let ghost sentries = index.spec_entries();
    let n = tree.len();
    let mut diags: Vec<Diagnostic> = Vec::new();
    let mut i: usize = 0;
    proof {
        assert(diags_view(diags@) + spec_undef_diags(*tree, source@, sdefs, sentries, 0)
            =~= spec_undef_diags(*tree, source@, sdefs, sentries, 0));
    }
    while i < n
        invariant
            tree.wf(),
            n == tree.spec_len(),
            sdefs == crate::extract::spec_defs(*tree, 0, source@),
            sdefs == crate::extract::defs_view(local_defs@),
            sentries == index.spec_entries(),
            i <= n,
            diags_view(diags@) + spec_undef_diags(*tree, source@, sdefs, sentries, i as int)
                == spec_undef_diags(*tree, source@, sdefs, sentries, 0),
        decreases n - i,
    {
        let ghost rest = spec_undef_diags(*tree, source@, sdefs, sentries, i as int);
        let is_user = tree.kind_is(i, "numeric_user_function") || tree.kind_is(
            i,
            "string_user_function",
        );
        if is_user {
            let ghost here = spec_undef_at(*tree, source@, sdefs, sentries, i as int);
            match crate::extract::child_of_kinds(tree, i, "function_name", "function_name") {
                Some(nn) => {
                    let fn_name = crate::tree::node_text(tree, nn, source);
                    let locally = match first_def(&local_defs, fn_name.as_str()) {
                        Some(_) => true,
                        None => false,
                    };
                    let in_index = index.lookup(fn_name.as_str()).len() > 0;
                    proof {
                        assert(crate::workspace::name_filter(sentries, lower_seq(fn_name@)).len()
                            > 0 <==> in_index);
                    }
                    if !locally && !in_index {
                        let mut message = String::new();
                        message.append("Function '");
                        message.append(fn_name.as_str());
                        message.append("' is not defined in the workspace");
                        let mut code = String::new();
                        code.append("undefined-function");
                        let ghost pre = diags@;
                        diags.push(
                            Diagnostic {
                                range: crate::tree::node_range(tree.node(nn)),
                                severity: Severity::Warning,
                                code,
                                message,
                            },
                        );
                        proof {
                            lemma_diags_push(pre, diags@.last());
                            assert(diags@.last().message@ =~= spec_undefined_diag(
                                fn_name@,
                                crate::tree::spec_node_range(tree.spec_nodes()[nn as int]),
                            ).message);
                            assert(diags@.last().code@ =~= "undefined-function"@);
                            assert(here =~= seq![diag_of(diags@.last())]);
                            assert(diags_view(pre).push(diag_of(diags@.last())) + spec_undef_diags(
                                *tree,
                                source@,
                                sdefs,
                                sentries,
                                i + 1,
                            ) =~= diags_view(pre) + rest);
                        }
                    } else {
                        proof {
                            assert(here =~= Seq::<DiagV>::empty());
                        }
                    }
                },
                None => {
                    proof {
                        assert(here =~= Seq::<DiagV>::empty());
                    }
                },
            }
        }
        i += 1;
    }
    proof {
        assert(diags_view(diags@) + Seq::<DiagV>::empty() =~= diags_view(diags@));
    }
    diags
}

/// Syntax-independent structural diagnostics of one document: missing
/// terminators, duplicate definitions, then argument checks, in that order.
pub fn collect_function_diagnostics(
    tree: &SyntaxTree,
    source: &str,
    table: &BuiltinTable,
) -> (r: Vec<Diagnostic>)
    requires
        tree.wf(),
    ensures
        diags_view(r@) == spec_missing_fnend(*tree, source@) + spec_duplicate_fold(
            spec_named_defs(*tree, 0, source@),
            Seq::<Seq<char>>::empty(),
        ) + spec_param_count_diags(
            *tree,
            source@,
            crate::extract::spec_defs(*tree, 0, source@),
            table.spec_funcs(),
            0,
        ),
{
    let mut diags = check_missing_fnend(tree, source);
    let mut dup = check_duplicate_functions(tree, source);
    let mut cnt = check_parameter_count(tree, source, table);
    let ghost a = diags@;
    let ghost b = dup@;
    let ghost c = cnt@;
    diags.append(&mut dup);
    diags.append(&mut cnt);
    proof {
        assert(diags@ =~= a + b + c);
        assert(diags_view(a + b + c) =~= diags_view(a) + diags_view(b) + diags_view(c));
    }
    diags
}


/// Number of named children of `i`.
pub open spec fn spec_named_child_count(tree: SyntaxTree, i: int, k: int) -> int
    decreases tree.spec_nodes()[i].children@.len() - k
        when tree.wf() && 0 <= i < tree.spec_len() && 0 <= k
{
    let ch = tree.spec_nodes()[i].children@;
    if k >= ch.len() {
        0
    } else {
        (if tree.spec_nodes()[ch[k] as int].named {
            1int
        } else {
            0int
        }) + spec_named_child_count(tree, i, k + 1)
    }
}

/// The single named child of `i`, when it has exactly one.
pub open spec fn spec_only_named_child(tree: SyntaxTree, i: int) -> Option<int> {
    if spec_named_child_count(tree, i, 0) == 1 {
        spec_first_named_child(tree, i, 0)
    } else {
        None
    }
}

pub fn only_named_child(tree: &SyntaxTree, i: usize) -> (r: Option<usize>)
    requires
        tree.wf(),
        0 <= i < tree.spec_len(),
    ensures
        match r {
            Some(c) => spec_only_named_child(*tree, i as int) == Some(c as int) && i < c
                < tree.spec_len(),
            None => spec_only_named_child(*tree, i as int) is None,
        },
{
    let m = tree.node(i).children.len();
    let mut count: usize = 0;
    let mut k: usize = 0;
    while k < m
        invariant
            tree.wf(),
            0 <= i < tree.spec_len(),
            m == tree.spec_nodes()[i as int].children@.len(),
            k <= m,
            count <= k,
            count + spec_named_child_count(*tree, i as int, k as int) == spec_named_child_count(
                *tree,
                i as int,
                0,
            ),
        decreases m - k,
    {
        let c = tree.node(i).children[k];
        if tree.node(c).named {
            count += 1;
        }
        k += 1;
    }
    if count == 1 {
        first_named_child(tree, i)
    } else {
        None
    }
}


pub proof fn lemma_first_named_child_bounds(tree: SyntaxTree, i: int, k: int)
    requires
        tree.wf(),
        0 <= i < tree.spec_len(),
        0 <= k,
    ensures
        spec_first_named_child(tree, i, k) matches Some(c) ==> i < c < tree.spec_len(),
    decreases tree.spec_nodes()[i].children@.len() - k,
{
    if k < tree.spec_nodes()[i].children@.len() {
        lemma_first_named_child_bounds(tree, i, k + 1);
    }
}

/// Which diagnostic families a client has switched on.
pub struct DiagnosticsConfig {
    pub syntax: bool,
    pub functions: bool,
    pub undefined_functions: bool,
    pub unused_variables: bool,
}

/// All diagnostics of a document under a configuration: syntax errors,
/// then the function checks, then (a gate with nothing behind it yet)
/// unused variables, then undefined functions against the workspace
/// index — each family only when its flag is set.
pub fn gated_diagnostics(
    cfg: &DiagnosticsConfig,
    tree: &SyntaxTree,
    source: &str,
    table: &BuiltinTable,
    index: Option<&WorkspaceIndex>,
) -> (r: Vec<Diagnostic>)
    requires
        tree.wf(),
    ensures
        diags_view(r@) == (if cfg.syntax {
            crate::parser::spec_error_diags(*tree, 0, source@)
        } else {
            Seq::<DiagV>::empty()
        }) + (if cfg.functions {
            spec_missing_fnend(*tree, source@) + spec_duplicate_fold(
                spec_named_defs(*tree, 0, source@),
                Seq::<Seq<char>>::empty(),
            ) + spec_param_count_diags(
                *tree,
                source@,
                crate::extract::spec_defs(*tree, 0, source@),
                table.spec_funcs(),
                0,
            )
        } else {
            Seq::<DiagV>::empty()
        }) + (if cfg.unused_variables {
            Seq::<DiagV>::empty()
        } else {
            Seq::<DiagV>::empty()
        }) + (match index {
            Some(idx) => if cfg.undefined_functions {
                spec_undef_diags(
                    *tree,
                    source@,
                    crate::extract::spec_defs(*tree, 0, source@),
                    idx.spec_entries(),
                    0,
                )
            } else {
                Seq::<DiagV>::empty()
            },
            None => Seq::<DiagV>::empty(),
        }),
{
    let mut out: Vec<Diagnostic> = if cfg.syntax {
        crate::parser::collect_diagnostics(tree, source)
    } else {
        Vec::new()
    };
    let ghost a = diags_view(out@);
    let mut funcs: Vec<Diagnostic> = if cfg.functions {
        collect_function_diagnostics(tree, source, table)
    } else {
        Vec::new()
    };
    let ghost b = diags_view(funcs@);
    let mut undef: Vec<Diagnostic> = match index {
        Some(idx) => if cfg.undefined_functions {
            check_undefined_functions(tree, source, idx)
        } else {
            Vec::new()
        },
        None => Vec::new(),
    };
    let ghost c = diags_view(undef@);
    let ghost pre = out@;
    let ghost fv = funcs@;
    let ghost uv = undef@;
    out.append(&mut funcs);
    out.append(&mut undef);
    proof {
        assert(out@ =~= pre + fv + uv);
        assert(diags_view(pre + fv + uv) =~= a + b + c);
        assert(a + b + c =~= a + b + Seq::<DiagV>::empty() + c);
    }
    out
}

} // verus!
