//! Quick fixes: generating a stub for an undefined function.

use vstd::prelude::*;
use vstd::string::*;

use crate::extract::ParamKind;
use crate::text::{spec_dec, spec_find, spec_parse_u32, spec_trim, u64_to_string};
use crate::tree::{spec_node_text, SyntaxTree};
use crate::types::{Diagnostic, Position, Range};

verus! {

/// A proposed quick fix: insert `new_text` at the start of line
/// `insert_line` (the line after the document's last).
pub struct FunctionStubAction {
    pub title: String,
    pub insert_line: u32,
    pub new_text: String,
}

/// One parameter of the stub, already rendered.
pub struct StubParam {
    pub name: String,
    pub kind: ParamKind,
}

/// The name quoted in a diagnostic message, between its first two single
/// quotes.
pub open spec fn spec_quoted_name(message: Seq<char>) -> Option<Seq<char>> {
    let a = spec_find(message, '\'');
    if a == -1 {
        None
    } else {
        let rest = message.subrange(a + 1, message.len() as int);
        let b = spec_find(rest, '\'');
        if b == -1 {
            None
        } else {
            Some(rest.subrange(0, b))
        }
    }
}

/// Read the function name out of an undefined-function message.
#[verifier::rlimit(80)]
pub fn extract_function_name(message: &str) -> (r: Option<String>)
    ensures
        match r {
            Some(name) => spec_quoted_name(message@) == Some(name@),
            None => spec_quoted_name(message@) is None,
        },
{
    let n = message.unicode_len();
    let a = match crate::text::find_char_from(message, '\'', 0) {
        Some(a) => a,
        None => {
            proof {
                assert(message@.subrange(0, message@.len() as int) =~= message@);
            }
            return None;
        },
    };
    proof {
        assert(message@.subrange(0, message@.len() as int) =~= message@);
    }
    let b = match crate::text::find_char_from(message, '\'', a + 1) {
        Some(b) => b,
        None => {
            proof {
                let rest = message@.subrange(a + 1, message@.len() as int);
                crate::text::lemma_find(rest, '\'');
                if crate::text::spec_find(rest, '\'') != -1 {
                    let w = crate::text::spec_find(rest, '\'');
                    assert(rest[w] == message@[a + 1 + w]);
                }
            }
            return None;
        },
    };
    let name = crate::text::substring_owned(message, a + 1, b);
    proof {
        let rest = message@.subrange(a + 1, message@.len() as int);
        crate::text::lemma_find(rest, '\'');
        assert(rest[b - a - 1] == message@[b as int]);
        assert forall|j: int| 0 <= j < b - a - 1 implies rest[j] != '\'' by {
            assert(rest[j] == message@[a + 1 + j]);
        }
        crate::text::lemma_find_is(rest, '\'', b - a - 1);
        assert(name@ =~= rest.subrange(0, b - a - 1));
    }
    Some(name)
}

/// The largest line number written in the document, zero without any.
pub open spec fn spec_last_line_number(tree: SyntaxTree, src: Seq<char>, i: int) -> u32
    decreases tree.spec_len() - i when tree.wf() && 0 <= i <= tree.spec_len()
{
    if i >= tree.spec_len() {
        0
    } else {
        let n = tree.spec_nodes()[i];
        let rest = spec_last_line_number(tree, src, i + 1);
        let here: u32 = if n.kind@ == "line_number"@ {
            match spec_parse_u32(spec_trim(spec_node_text(n, src))) {
                Some(v) => v,
                None => 0,
            }
        } else {
            0
        };
        if here >= rest {
            here
        } else {
            rest
        }
    }
}

pub fn last_line_number(tree: &SyntaxTree, source: &str) -> (r: u32)
    requires
        tree.wf(),
    ensures
        r == spec_last_line_number(*tree, source@, 0),
{
    let n = tree.len();
    let mut best: u32 = 0;
    let mut i: usize = 0;
    while i < n
        invariant
            tree.wf(),
            n == tree.spec_len(),
            i <= n,
            (if best >= spec_last_line_number(*tree, source@, i as int) {
                best
            } else {
                spec_last_line_number(*tree, source@, i as int)
            }) == spec_last_line_number(*tree, source@, 0),
        decreases n - i,
    {
        if tree.kind_is(i, "line_number") {
            let t = crate::tree::node_text(tree, i, source);
            let trimmed = crate::text::trim(t.as_str());
            match crate::text::parse_u32(trimmed) {
                Some(v) => {
                    if v > best {
                        best = v;
                    }
                },
                None => {},
            }
        }
        i += 1;
    }
    best
}

/// The next multiple of ten after `last`.
pub open spec fn spec_next_line_number(last: u32) -> int {
    (last / 10 + 1) * 10
}

pub fn next_line_number(last: u32) -> (r: u64)
    ensures
        r == spec_next_line_number(last),
{
    (last as u64 / 10 + 1) * 10
}

/// A number rendered with at least five digits, zero-padded.
pub open spec fn spec_pad5(n: int) -> Seq<char> {
    let d = spec_dec(n as nat);
    if d.len() >= 5 {
        d
    } else {
        Seq::<char>::new((5 - d.len()) as nat, |k: int| '0') + d
    }
}

pub fn pad5(n: u64) -> (r: String)
    ensures
        r@ == spec_pad5(n as int),
{
    let d = u64_to_string(n);
    let dlen = d.as_str().unicode_len();
    if dlen >= 5 {
        proof {
            assert(d@ =~= spec_pad5(n as int));
        }
        return d;
    }
    let mut out = String::new();
    let mut k: usize = dlen;
    while k < 5
        invariant
            dlen == d@.len(),
            dlen < 5,
            dlen <= k <= 5,
            out@ == Seq::<char>::new((k - dlen) as nat, |q: int| '0'),
        decreases 5 - k,
    {
        crate::text::push_char(&mut out, '0');
        proof {
            assert(out@ =~= Seq::<char>::new((k + 1 - dlen) as nat, |q: int| '0'));
        }
        k += 1;
    }
    out.append(d.as_str());
    proof {
        assert(out@ =~= spec_pad5(n as int));
    }
    out
}

/// The rendered form of one stub parameter: array parameters get a `Mat `
/// prefix unless their inferred name already carries one.
pub open spec fn spec_format_stub_param(p: (Seq<char>, ParamKind)) -> Seq<char> {
    if crate::text::spec_starts_with(p.0, "Mat "@) {
        p.0
    } else if p.1 == ParamKind::NumericArray || p.1 == ParamKind::StringArray {
        "Mat "@ + p.0
    } else {
        p.0
    }
}

fn format_stub_param(p: &StubParam) -> (r: String)
    ensures
        r@ == spec_format_stub_param((p.name@, p.kind)),
{
    proof {
        reveal_strlit("Mat ");
    }
    if crate::text::starts_with(p.name.as_str(), "Mat ") {
        return crate::text::substring_owned(p.name.as_str(), 0, p.name.as_str().unicode_len());
    }
    if matches!(p.kind, ParamKind::NumericArray | ParamKind::StringArray) {
        let mut s = String::new();
        s.append("Mat ");
        s.append(p.name.as_str());
        proof {
            assert(s@ =~= "Mat "@ + p.name@);
        }
        return s;
    }
    crate::text::substring_owned(p.name.as_str(), 0, p.name.as_str().unicode_len())
}

/// The parameter list of the stub: nothing without parameters, else the
/// rendered parameters joined by commas in parentheses.
pub open spec fn spec_stub_params(params: Seq<(Seq<char>, ParamKind)>) -> Seq<char> {
    if params.len() == 0 {
        Seq::<char>::empty()
    } else {
        "("@ + spec_join_comma(params) + ")"@
    }
}

pub open spec fn spec_join_comma(params: Seq<(Seq<char>, ParamKind)>) -> Seq<char>
    decreases params.len(),
{
    if params.len() == 0 {
        Seq::<char>::empty()
    } else if params.len() == 1 {
        spec_format_stub_param(params[0])
    } else {
        spec_join_comma(params.drop_last()) + ","@ + spec_format_stub_param(params.last())
    }
}

pub open spec fn stub_params_view(v: Seq<StubParam>) -> Seq<(Seq<char>, ParamKind)> {
    v.map_values(|p: StubParam| (p.name@, p.kind))
}

/// The full stub text: a blank line, then the numbered `DEF`, comment,
/// `LET` and `FNEND` lines; string functions default to an empty string.
pub open spec fn spec_stub_text(name: Seq<char>, params: Seq<(Seq<char>, ParamKind)>, start: int) -> Seq<char> {
    let default_value = if name.len() > 0 && name.last() == '$' {
        "\"\""@
    } else {
        "0"@
    };
    "\n"@ + spec_pad5(start) + " DEF "@ + name + spec_stub_params(params) + "\n"@ + spec_pad5(
        start + 10,
    ) + " ! TODO: Implement "@ + name + "\n"@ + spec_pad5(start + 20) + " LET "@ + name + "="@
        + default_value + "\n"@ + spec_pad5(start + 30) + " FNEND\n"@
}

/// Render the stub for `name` with the given parameters, numbered from
/// `start`.
pub fn generate_stub(name: &str, params: &Vec<StubParam>, start: u64) -> (r: String)
    requires
        start + 30 <= u64::MAX,
    ensures
        r@ == spec_stub_text(name@, stub_params_view(params@), start as int),
{
    let nlen = name.unicode_len();
    let is_string = nlen > 0 && name.get_char(nlen - 1) == '$';
    let mut params_str = String::new();
    if params.len() > 0 {
        params_str.append("(");
        let m = params.len();
        let mut i: usize = 0;
        while i < m
            invariant
                m == params@.len(),
                0 < m,
                i <= m,
                params_str@ == "("@ + spec_join_comma(stub_params_view(params@).subrange(0, i as int)),
            decreases m - i,
        {
            if i > 0 {
                params_str.append(",");
            }
            let piece = format_stub_param(&params[i]);
            params_str.append(piece.as_str());
            proof {
                let v = stub_params_view(params@);
                let cur = v.subrange(0, i + 1);
                assert(cur.drop_last() =~= v.subrange(0, i as int));
                assert(cur.last() == v[i as int]);
                assert(params_str@ =~= "("@ + spec_join_comma(cur));
            }
            i += 1;
        }
        params_str.append(")");
        proof {
            assert(stub_params_view(params@).subrange(0, m as int) =~= stub_params_view(params@));
            assert(params_str@ =~= spec_stub_params(stub_params_view(params@)));
        }
    } else {
        proof {
            assert(params_str@ =~= spec_stub_params(stub_params_view(params@)));
        }
    }
    let mut out = String::new();
    out.append("\n");
    let p1 = pad5(start);
    out.append(p1.as_str());
    out.append(" DEF ");
    out.append(name);
    out.append(params_str.as_str());
    out.append("\n");
    let p2 = pad5(start + 10);
    out.append(p2.as_str());
    out.append(" ! TODO: Implement ");
    out.append(name);
    out.append("\n");
    let p3 = pad5(start + 20);
    out.append(p3.as_str());
    out.append(" LET ");
    out.append(name);
    out.append("=");
    if is_string {
        out.append("\"\"");
    } else {
        out.append("0");
    }
    out.append("\n");
    let p4 = pad5(start + 30);
    out.append(p4.as_str());
    out.append(" FNEND\n");
    proof {
        assert(out@ =~= spec_stub_text(name@, stub_params_view(params@), start as int));
    }
    out
}

/// A generic parameter name for position `index`, typed by suffix.
pub open spec fn spec_generic_param_name(index: int, kind: ParamKind) -> Seq<char> {
    let num = spec_dec((index + 1) as nat);
    match kind {
        ParamKind::Numeric => "Param"@ + num,
        ParamKind::String => "Param"@ + num + "$"@,
        ParamKind::NumericArray => "Mat Param"@ + num,
        ParamKind::StringArray => "Mat Param"@ + num + "$"@,
    }
}

pub fn generic_param_name(index: usize, kind: ParamKind) -> (r: String)
    requires
        index < usize::MAX,
    ensures
        r@ == spec_generic_param_name(index as int, kind),
{
    let num = crate::text::usize_to_string(index + 1);
    let mut s = String::new();
    match kind {
        ParamKind::Numeric => {
            s.append("Param");
            s.append(num.as_str());
        },
        ParamKind::String => {
            s.append("Param");
            s.append(num.as_str());
            s.append("$");
        },
        ParamKind::NumericArray => {
            s.append("Mat Param");
            s.append(num.as_str());
        },
        ParamKind::StringArray => {
            s.append("Mat Param");
            s.append(num.as_str());
            s.append("$");
        },
    }
    proof {
        assert(s@ =~= spec_generic_param_name(index as int, kind));
    }
    s
}

/// Walk down single-child expression wrappers to a variable node, if the
/// argument is a simple variable reference.
pub open spec fn spec_variable_node(tree: SyntaxTree, i: int) -> Option<int>
    decreases tree.spec_len() - i when tree.wf() && 0 <= i < tree.spec_len()
    via spec_variable_node_decreases
{
    let kind = tree.spec_nodes()[i].kind@;
    if kind == "numberidentifier"@ || kind == "stringidentifier"@ || kind == "numberarray"@
        || kind == "stringarray"@ || kind == "stringreference"@ {
        Some(i)
    } else {
        match crate::diagnostics::spec_only_named_child(tree, i) {
            Some(c) => spec_variable_node(tree, c),
            None => None,
        }
    }
}

#[via_fn]
proof fn spec_variable_node_decreases(tree: SyntaxTree, i: int) {
    if tree.wf() && 0 <= i < tree.spec_len() {
        crate::diagnostics::lemma_first_named_child_bounds(tree, i, 0);
    }
}

fn find_variable_node(tree: &SyntaxTree, i: usize) -> (r: Option<usize>)
    requires
        tree.wf(),
        0 <= i < tree.spec_len(),
    ensures
        match r {
            Some(c) => spec_variable_node(*tree, i as int) == Some(c as int) && 0 <= c
                < tree.spec_len(),
            None => spec_variable_node(*tree, i as int) is None,
        },
    decreases tree.spec_len() - i,
{
    let is_var = tree.kind_is(i, "numberidentifier") || tree.kind_is(i, "stringidentifier")
        || tree.kind_is(i, "numberarray") || tree.kind_is(i, "stringarray") || tree.kind_is(
        i,
        "stringreference",
    );
    if is_var {
        return Some(i);
    }
    match crate::diagnostics::only_named_child(tree, i) {
        Some(c) => find_variable_node(tree, c),
        None => None,
    }
}

/// The inferred name of one argument: a simple variable keeps its own
/// name (arrays as `Mat name`); anything else gets a generic name.
pub open spec fn spec_infer_param_name(
    tree: SyntaxTree,
    src: Seq<char>,
    arg: int,
    index: int,
    kind: ParamKind,
) -> Seq<char> {
    match crate::diagnostics::spec_first_named_child(tree, arg, 0) {
        None => spec_generic_param_name(index, kind),
        Some(e) => if tree.spec_nodes()[e].kind@ != "expression"@ {
            spec_generic_param_name(index, kind)
        } else {
            match crate::diagnostics::spec_first_named_child(tree, e, 0) {
                None => spec_generic_param_name(index, kind),
                Some(t) => match spec_variable_node(tree, t) {
                    None => spec_generic_param_name(index, kind),
                    Some(v) => {
                        let vk = tree.spec_nodes()[v].kind@;
                        if vk == "numberarray"@ || vk == "stringarray"@ {
                            match crate::extract::spec_child_of_kinds(
                                tree,
                                v,
                                0,
                                "numberidentifier"@,
                                "stringidentifier"@,
                            ) {
                                Some(id) => "Mat "@ + crate::tree::spec_node_text(
                                    tree.spec_nodes()[id],
                                    src,
                                ),
                                None => spec_generic_param_name(index, kind),
                            }
                        } else {
                            crate::tree::spec_node_text(tree.spec_nodes()[v], src)
                        }
                    },
                },
            }
        },
    }
}

pub fn infer_param_name(tree: &SyntaxTree, source: &str, arg: usize, index: usize, kind: ParamKind) -> (r: String)
    requires
        tree.wf(),
        0 <= arg < tree.spec_len(),
        index < usize::MAX,
    ensures
        r@ == spec_infer_param_name(*tree, source@, arg as int, index as int, kind),
{
    let e = match crate::diagnostics::first_named_child(tree, arg) {
        Some(e) => e,
        None => {
            return generic_param_name(index, kind);
        },
    };
    if !tree.kind_is(e, "expression") {
        return generic_param_name(index, kind);
    }
    let typed = match crate::diagnostics::first_named_child(tree, e) {
        Some(t) => t,
        None => {
            return generic_param_name(index, kind);
        },
    };
    let var = match find_variable_node(tree, typed) {
        Some(v) => v,
        None => {
            return generic_param_name(index, kind);
        },
    };
    if tree.kind_is(var, "numberarray") || tree.kind_is(var, "stringarray") {
        match crate::extract::child_of_kinds(tree, var, "numberidentifier", "stringidentifier") {
            Some(id) => {
                let t = crate::tree::node_text(tree, id, source);
                let mut s = String::new();
                s.append("Mat ");
                s.append(t.as_str());
                proof {
                    assert(s@ =~= "Mat "@ + t@);
                }
                s
            },
            None => generic_param_name(index, kind),
        }
    } else {
        crate::tree::node_text(tree, var, source)
    }
}

/// The stub parameter one argument entry yields: its kind from the
/// argument's type, its name inferred from the argument text.
pub open spec fn spec_stub_param_of(
    tree: SyntaxTree,
    src: Seq<char>,
    e: (int, Option<int>),
    i: int,
) -> (Seq<char>, ParamKind) {
    let kind = match e.1 {
        Some(arg) => match crate::diagnostics::spec_argument_type(tree, arg) {
            Some(k) => k,
            None => ParamKind::Numeric,
        },
        None => ParamKind::Numeric,
    };
    let name = match e.1 {
        Some(arg) => spec_infer_param_name(tree, src, arg, i, kind),
        None => spec_generic_param_name(i, kind),
    };
    (name, kind)
}

/// The stub parameters of a whole argument list.
pub open spec fn spec_stub_params_of(
    tree: SyntaxTree,
    src: Seq<char>,
    es: Seq<(int, Option<int>)>,
) -> Seq<(Seq<char>, ParamKind)> {
    Seq::new(es.len(), |i: int| spec_stub_param_of(tree, src, es[i], i))
}

/// The stub parameters the call site at a position yields: empty when no
/// call or no arguments child is found.
pub open spec fn spec_params_at(
    tree: SyntaxTree,
    src: Seq<char>,
    line: int,
    character: int,
) -> Seq<(Seq<char>, ParamKind)> {
    match spec_find_call(tree, line, character) {
        None => Seq::<(Seq<char>, ParamKind)>::empty(),
        Some(c) => match crate::extract::spec_child_of_field(tree, c, 0, "arguments"@) {
            None => Seq::<(Seq<char>, ParamKind)>::empty(),
            Some(a) => spec_stub_params_of(
                tree,
                src,
                crate::diagnostics::spec_arg_entries(tree, a, src),
            ),
        },
    }
}

/// Propose a stub for an `undefined-function` diagnostic: four numbered
/// lines appended after the document's last line number, the parameters
/// inferred from the call site's arguments.
pub fn create_function_stub_action(
    uri: &str,
    diagnostic: &Diagnostic,
    tree: &SyntaxTree,
    source: &str,
    source_line_count: u32,
) -> (r: Option<FunctionStubAction>)
    requires
        tree.wf(),
    ensures
        ({
            match r {
                None => diagnostic.code@ != "undefined-function"@ || spec_quoted_name(
                    diagnostic.message@,
                ) is None,
                Some(act) => diagnostic.code@ == "undefined-function"@ && (spec_quoted_name(
                    diagnostic.message@,
                ) matches Some(name) && act.title@ == "Generate function stub for '"@ + name
                    + "'"@ && act.new_text@ == spec_stub_text(
                    name,
                    spec_params_at(
                        *tree,
                        source@,
                        diagnostic.range.start.line as int,
                        diagnostic.range.start.character as int,
                    ),
                    spec_next_line_number(spec_last_line_number(*tree, source@, 0)),
                )) && act.insert_line == source_line_count,
            }
        }),
{
    if !crate::text::str_eq(diagnostic.code.as_str(), "undefined-function") {
        return None;
    }
    let fn_name = match extract_function_name(diagnostic.message.as_str()) {
        Some(n) => n,
        None => {
            return None;
        },
    };
    // Find the call node at the diagnostic to read its arguments.
    let call = find_call_node(
        tree,
        diagnostic.range.start.line as usize,
        diagnostic.range.start.character as usize,
    );
    let ghost sparams = spec_params_at(
        *tree,
        source@,
        diagnostic.range.start.line as int,
        diagnostic.range.start.character as int,
    );
    let mut params: Vec<StubParam> = Vec::new();
    match call {
        Some(c) => {
            match crate::extract::child_of_field(tree, c, "arguments") {
                Some(a) => {
                    let entries = crate::diagnostics::collect_argument_nodes(tree, a, source);
                    let ghost es = crate::diagnostics::spec_arg_entries(*tree, a as int, source@);
                    proof {
                        assert(sparams == spec_stub_params_of(*tree, source@, es));
                    }
                    let m = entries.len();
                    let mut i: usize = 0;
                    while i < m
                        invariant
                            tree.wf(),
                            m == entries@.len(),
                            es == crate::diagnostics::arg_entries_view(entries@),
                            es.len() == m,
                            sparams == spec_stub_params_of(*tree, source@, es),
                            i <= m,
                            forall|q: int|
                                0 <= q < entries@.len() ==> ((#[trigger] entries@[q]).1 matches Some(
                                    x,
                                ) ==> 0 <= x < tree.spec_len()),
                            params@.len() == i,
                            forall|q: int|
                                0 <= q < i ==> ((#[trigger] params@[q]).name@, params@[q].kind)
                                    == sparams[q],
                        decreases m - i,
                    {
                        let entry = entries[i];
                        proof {
                            assert(es[i as int] == crate::diagnostics::arg_entries_view(
                                entries@,
                            )[i as int]);
                        }
                        let kind = match entry.1 {
                            Some(arg) => match crate::diagnostics::argument_type(tree, arg) {
                                Some(k) => k,
                                None => ParamKind::Numeric,
                            },
                            None => ParamKind::Numeric,
                        };
                        let name = if i < usize::MAX {
                            match entry.1 {
                                Some(arg) => infer_param_name(tree, source, arg, i, kind),
                                None => generic_param_name(i, kind),
                            }
                        } else {
                            String::new()
                        };
                        proof {
                            assert((name@, kind) == spec_stub_param_of(
                                *tree,
                                source@,
                                es[i as int],
                                i as int,
                            ));
                        }
                        params.push(StubParam { name, kind });
                        i += 1;
                    }
                },
                None => {
                    proof {
                        assert(sparams =~= Seq::<(Seq<char>, ParamKind)>::empty());
                    }
                },
            }
        },
        None => {
            proof {
                assert(sparams =~= Seq::<(Seq<char>, ParamKind)>::empty());
            }
        },
    }
    proof {
        assert(stub_params_view(params@) =~= sparams);
    }
    let last = last_line_number(tree, source);
    let start = next_line_number(last);
    let new_text = generate_stub(fn_name.as_str(), &params, start);
    let mut title = String::new();
    title.append("Generate function stub for '");
    title.append(fn_name.as_str());
    title.append("'");
    proof {
        assert(title@ =~= "Generate function stub for '"@ + fn_name@ + "'"@);
        assert(diagnostic.code@ =~= "undefined-function"@);
    }
    Some(FunctionStubAction { title, insert_line: source_line_count, new_text })
}

/// The nearest user-function call node at or above `i` in the tree.
pub open spec fn spec_call_ancestor(tree: SyntaxTree, i: int) -> Option<int>
    decreases i + 1 when tree.wf() && 0 <= i < tree.spec_len()
{
    if tree.spec_nodes()[i].kind@ == "numeric_user_function"@ || tree.spec_nodes()[i].kind@
        == "string_user_function"@ {
        Some(i)
    } else {
        match tree.spec_nodes()[i].parent {
            Some(p) => spec_call_ancestor(tree, p as int),
            None => None,
        }
    }
}

/// The enclosing user-function call at a position.
pub open spec fn spec_find_call(tree: SyntaxTree, line: int, character: int) -> Option<int> {
    match crate::tree::spec_node_at(tree, line, character) {
        None => None,
        Some(n) => spec_call_ancestor(tree, n),
    }
}

/// The enclosing user-function call of a position, found by walking up
/// from the node at the cursor.
fn find_call_node(tree: &SyntaxTree, line: usize, character: usize) -> (r: Option<usize>)
    requires
        tree.wf(),
    ensures
        match r {
            Some(c) => spec_find_call(*tree, line as int, character as int) == Some(c as int)
                && 0 <= c < tree.spec_len(),
            None => spec_find_call(*tree, line as int, character as int) is None,
        },
{
    let mut cur = match crate::tree::node_at_position(tree, line, character) {
        Some(n) => n,
        None => {
            return None;
        },
    };
    let ghost entry = cur as int;
    loop
        invariant
            tree.wf(),
            0 <= cur < tree.spec_len(),
            crate::tree::spec_node_at(*tree, line as int, character as int) == Some(entry),
            spec_call_ancestor(*tree, cur as int) == spec_call_ancestor(*tree, entry),
        decreases cur,
    {
        if tree.kind_is(cur, "numeric_user_function") || tree.kind_is(cur, "string_user_function") {
            return Some(cur);
        }
        match tree.node(cur).parent {
            Some(p) => {
                cur = p;
            },
            None => {
                return None;
            },
        }
    }
}

} // verus!
