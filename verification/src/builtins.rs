//! The catalog of built-in (system) functions.
//!
//! The catalog itself is a read-only asset the embedding program loads once
//! and hands over as plain records; here live the table, its
//! case-insensitive lookup, signature rendering, and the naming-convention
//! rules that give each parameter its expected kind.

use vstd::prelude::*;
use vstd::string::*;

use crate::extract::ParamKind;
use crate::text::{eq_ignore_case, lower_seq, spec_starts_with, spec_trim, starts_with, trim};

verus! {

/// One parameter of a built-in function, by display name.
#[derive(Clone, Debug)]
pub struct BuiltinParam {
    pub name: String,
    pub documentation: Option<String>,
}

/// One overload of a built-in function.
#[derive(Clone, Debug)]
pub struct BuiltinFunction {
    pub name: String,
    pub documentation: Option<String>,
    pub params: Vec<BuiltinParam>,
}

// ---------------------------------------------------------------------------
// Parameter kind from the name's spelling
// ---------------------------------------------------------------------------

/// The wrapper characters stripped before reading a parameter name.
pub open spec fn is_wrapper_char(c: char) -> bool {
    c == '[' || c == ']' || c == '<' || c == '>' || c == '*' || c == '^'
}

/// Does `p` occur in `s` as a contiguous run?
pub open spec fn spec_contains_seq(s: Seq<char>, p: Seq<char>) -> bool {
    exists|j: int| 0 <= j <= s.len() - p.len() && #[trigger] s.subrange(j, j + p.len()) == p
}

/// Substring search.
pub fn contains_str(s: &str, p: &str) -> (r: bool)
    ensures
        r == spec_contains_seq(s@, p@),
{
    let n = s.unicode_len();
    let m = p.unicode_len();
    if m == 0 {
        proof {
            assert(spec_contains_seq(s@, p@)) by {
                assert(s@.subrange(0, 0 + p@.len() as int) =~= p@);
            }
        }
        return true;
    }
    if m > n {
        proof {
            assert(forall|j: int|
                !(0 <= j <= s@.len() - p@.len() && #[trigger] s@.subrange(j, j + p@.len()) == p@));
        }
        return false;
    }
    let mut j: usize = 0;
    while j <= n - m
        invariant
            n == s@.len(),
            m == p@.len(),
            1 <= m <= n,
            j <= n - m + 1,
            forall|q: int| 0 <= q < j ==> #[trigger] s@.subrange(q, q + p@.len()) != p@,
        decreases n - m - j + 1,
    {
        let piece = s.substring_char(j, j + m);
        if crate::text::str_eq(piece, p) {
            proof {
                assert(s@.subrange(j as int, j + p@.len()) == p@);
            }
            return true;
        }
        j += 1;
    }
    false
}

/// The characters of a parameter name kept for kind analysis.
pub open spec fn spec_stripped_name(name: Seq<char>) -> Seq<char> {
    spec_trim(name.filter(|c: char| !is_wrapper_char(c)))
}

/// The expected kind read off a built-in parameter's name: `$` means
/// string, `MAT ` means array, a leading quote or certain spellings mean
/// the parameter accepts anything.
pub open spec fn spec_builtin_param_kind(name: Seq<char>) -> Option<ParamKind> {
    if name.len() > 0 && name[0] == '"' {
        None
    } else {
        let t = spec_stripped_name(name);
        let is_mat = spec_starts_with(t, "MAT "@) || spec_starts_with(t, "mat "@);
        let is_string = t.len() > 0 && t.last() == '$';
        if is_mat {
            if is_string {
                Some(ParamKind::StringArray)
            } else {
                let inner = spec_trim(
                    crate::extract::spec_strip_all_prefix(
                        crate::extract::spec_strip_all_prefix(t, "MAT "@),
                        "mat "@,
                    ),
                );
                if spec_contains_seq(lower_seq(inner), "numeric"@) {
                    Some(ParamKind::NumericArray)
                } else {
                    None
                }
            }
        } else if is_string {
            Some(ParamKind::String)
        } else {
            let low = lower_seq(t);
            if spec_contains_seq(low, "array"@) || low == "date"@ || low == "argument"@ {
                None
            } else {
                Some(ParamKind::Numeric)
            }
        }
    }
}

impl BuiltinParam {
    /// The expected kind of this parameter, from its name's spelling; `None`
    /// means the parameter accepts any kind.
    pub fn kind(&self) -> (r: Option<ParamKind>)
        ensures
            r == spec_builtin_param_kind(self.name@),
    {
        proof {
            reveal_strlit("numeric");
            reveal_strlit("array");
            reveal_strlit("date");
            reveal_strlit("argument");
            reveal_strlit("MAT ");
            reveal_strlit("mat ");
        }
        let nlen = self.name.as_str().unicode_len();
        if nlen > 0 && self.name.as_str().get_char(0) == '"' {
            return None;
        }
        let mut filtered = String::new();
        let mut i: usize = 0;
        let ghost pred = |c: char| !is_wrapper_char(c);
        while i < nlen
            invariant
                nlen == self.name@.len(),
                i <= nlen,
                pred == |c: char| !is_wrapper_char(c),
                filtered@ == self.name@.subrange(0, i as int).filter(pred),
            decreases nlen - i,
        {
            let c = self.name.as_str().get_char(i);
            let ghost done = self.name@.subrange(0, i as int);
            proof {
                assert(self.name@.subrange(0, i + 1) =~= done.push(self.name@[i as int]));
                crate::workspace::lemma_filter_push(done, self.name@[i as int], pred);
            }
            if !(c == '[' || c == ']' || c == '<' || c == '>' || c == '*' || c == '^') {
                crate::text::push_char(&mut filtered, c);
            }
            i += 1;
        }
        proof {
            assert(self.name@.subrange(0, nlen as int) =~= self.name@);
        }
        let t = trim(filtered.as_str());
        let tlen = t.unicode_len();
        let is_mat = starts_with(t, "MAT ") || starts_with(t, "mat ");
        let is_string = tlen > 0 && t.get_char(tlen - 1) == '$';
        if is_mat {
            if is_string {
                return Some(ParamKind::StringArray);
            }
            let inner0 = crate::extract::strip_all_prefix(t, "MAT ");
            let inner1 = crate::extract::strip_all_prefix(inner0, "mat ");
            let inner = trim(inner1);
            let low = crate::text::to_lowercase(inner);
            if contains_str(low.as_str(), "numeric") {
                return Some(ParamKind::NumericArray);
            }
            return None;
        }
        if is_string {
            return Some(ParamKind::String);
        }
        let low = crate::text::to_lowercase(t);
        if contains_str(low.as_str(), "array") || crate::text::str_eq(low.as_str(), "date")
            || crate::text::str_eq(low.as_str(), "argument") {
            return None;
        }
        Some(ParamKind::Numeric)
    }
}

// ---------------------------------------------------------------------------
// Signatures
// ---------------------------------------------------------------------------

/// Parameter names joined with `", "`.
pub open spec fn spec_joined_names(names: Seq<Seq<char>>) -> Seq<char>
    decreases names.len(),
{
    if names.len() == 0 {
        Seq::<char>::empty()
    } else if names.len() == 1 {
        names[0]
    } else {
        spec_joined_names(names.drop_last()) + ", "@ + names.last()
    }
}

pub open spec fn spec_builtin_param_names(params: Seq<BuiltinParam>) -> Seq<Seq<char>> {
    params.map_values(|p: BuiltinParam| p.name@)
}

/// `name` alone without parameters, else `name(p1, p2, ...)`.
pub open spec fn spec_builtin_signature(f: BuiltinFunction) -> Seq<char> {
    if f.params@.len() == 0 {
        f.name@
    } else {
        f.name@ + "("@ + spec_joined_names(spec_builtin_param_names(f.params@)) + ")"@
    }
}

impl BuiltinFunction {
    pub fn format_signature(&self) -> (r: String)
        ensures
            r@ == spec_builtin_signature(*self),
    {
        if self.params.len() == 0 {
            let mut s = String::new();
            s.append(self.name.as_str());
            proof {
                assert(s@ =~= self.name@);
            }
            return s;
        }
        let mut s = String::new();
        s.append(self.name.as_str());
        s.append("(");
        let n = self.params.len();
        let mut i: usize = 0;
        while i < n
            invariant
                n == self.params@.len(),
                0 < n,
                i <= n,
                s@ == self.name@ + "("@ + spec_joined_names(
                    spec_builtin_param_names(self.params@).subrange(0, i as int),
                ),
            decreases n - i,
        {
            if i > 0 {
                s.append(", ");
            }
            s.append(self.params[i].name.as_str());
            proof {
                let v = spec_builtin_param_names(self.params@);
                let cur = v.subrange(0, i + 1);
                assert(cur.drop_last() =~= v.subrange(0, i as int));
                assert(cur.last() == v[i as int]);
                assert(s@ =~= self.name@ + "("@ + spec_joined_names(cur));
            }
            i += 1;
        }
        s.append(")");
        proof {
            let v = spec_builtin_param_names(self.params@);
            assert(v.subrange(0, n as int) =~= v);
            assert(s@ =~= spec_builtin_signature(*self));
        }
        s
    }

    pub fn format_signature_with_offsets(&self) -> (r: (String, Vec<[usize; 2]>))
        ensures
            r.0@ == spec_builtin_signature(*self),
            r.1@.len() == self.params@.len(),
            forall|i: int|
                0 <= i < r.1@.len() ==> {
                    let off = #[trigger] r.1@[i];
                    0 <= off[0] <= off[1] <= r.0@.len() && r.0@.subrange(
                        off[0] as int,
                        off[1] as int,
                    ) == self.params@[i].name@
                },
    {
        if self.params.len() == 0 {
            let mut s = String::new();
            s.append(self.name.as_str());
            proof {
                assert(s@ =~= self.name@);
            }
            return (s, Vec::new());
        }
        let mut s = String::new();
        s.append(self.name.as_str());
        s.append("(");
        let mut offsets: Vec<[usize; 2]> = Vec::new();
        let n = self.params.len();
        let mut i: usize = 0;
        while i < n
            invariant
                n == self.params@.len(),
                0 < n,
                i <= n,
                offsets@.len() == i,
                s@ == self.name@ + "("@ + spec_joined_names(
                    spec_builtin_param_names(self.params@).subrange(0, i as int),
                ),
                forall|k: int|
                    0 <= k < i ==> {
                        let off = #[trigger] offsets@[k];
                        0 <= off[0] <= off[1] <= s@.len() && s@.subrange(
                            off[0] as int,
                            off[1] as int,
                        ) == self.params@[k].name@
                    },
            decreases n - i,
        {
            if i > 0 {
                s.append(", ");
            }
            let start = s.as_str().unicode_len();
            let ghost pre_s = s@;
            s.append(self.params[i].name.as_str());
            let end = s.as_str().unicode_len();
            let ghost pre_offsets = offsets@;
            offsets.push([start, end]);
            proof {
                let v = spec_builtin_param_names(self.params@);
                let cur = v.subrange(0, i + 1);
                assert(cur.drop_last() =~= v.subrange(0, i as int));
                assert(cur.last() == v[i as int]);
                assert(s@.subrange(start as int, end as int) =~= self.params@[i as int].name@);
                assert(s@ =~= self.name@ + "("@ + spec_joined_names(cur));
                assert forall|k: int| 0 <= k < i + 1 implies {
                    let off = #[trigger] offsets@[k];
                    0 <= off[0] <= off[1] <= s@.len() && s@.subrange(off[0] as int, off[1] as int)
                        == self.params@[k].name@
                } by {
                    if k < i {
                        assert(offsets@[k] == pre_offsets[k]);
                        assert(s@.subrange(offsets@[k][0] as int, offsets@[k][1] as int)
                            =~= pre_s.subrange(offsets@[k][0] as int, offsets@[k][1] as int));
                    }
                }
            }
            i += 1;
        }
        let ghost pre_offsets = offsets@;
        let ghost pre_s = s@;
        s.append(")");
        proof {
            let v = spec_builtin_param_names(self.params@);
            assert(v.subrange(0, n as int) =~= v);
            assert(s@ =~= spec_builtin_signature(*self));
            assert forall|k: int| 0 <= k < offsets@.len() implies {
                let off = #[trigger] offsets@[k];
                0 <= off[0] <= off[1] <= s@.len() && s@.subrange(off[0] as int, off[1] as int)
                    == self.params@[k].name@
            } by {
                assert(s@.subrange(offsets@[k][0] as int, offsets@[k][1] as int) =~= pre_s.subrange(
                    offsets@[k][0] as int,
                    offsets@[k][1] as int,
                ));
            }
        }
        (s, offsets)
    }
}

// ---------------------------------------------------------------------------
// The table
// ---------------------------------------------------------------------------

/// The loaded catalog: overloads in load order, looked up by lowercased
/// name.
pub struct BuiltinTable {
    pub funcs: Vec<BuiltinFunction>,
}

/// The overloads recorded under `key` (already lowercased), in load order.
pub open spec fn builtin_filter(s: Seq<BuiltinFunction>, key: Seq<char>) -> Seq<BuiltinFunction> {
    s.filter(|f: BuiltinFunction| lower_seq(f.name@) == key)
}

pub open spec fn deref_builtins(s: Seq<&BuiltinFunction>) -> Seq<BuiltinFunction> {
    s.map_values(|f: &BuiltinFunction| *f)
}

impl BuiltinTable {
    pub open spec fn spec_funcs(&self) -> Seq<BuiltinFunction> {
        self.funcs@
    }

    /// An empty catalog.
    pub fn new() -> (r: BuiltinTable)
        ensures
            r.spec_funcs().len() == 0,
    {
        BuiltinTable { funcs: Vec::new() }
    }

    /// A catalog over the given overloads, kept in their order.
    pub fn from_functions(funcs: Vec<BuiltinFunction>) -> (r: BuiltinTable)
        ensures
            r.spec_funcs() == funcs@,
    {
        BuiltinTable { funcs }
    }

    /// Every overload whose name matches `name` case-insensitively, in
    /// load order.
    pub fn lookup<'a>(&'a self, name: &str) -> (r: Vec<&'a BuiltinFunction>)
        ensures
            deref_builtins(r@) == builtin_filter(self.spec_funcs(), lower_seq(name@)),
    {
        let ghost key = lower_seq(name@);
        let ghost pred = |f: BuiltinFunction| lower_seq(f.name@) == key;
        let n = self.funcs.len();
        let mut out: Vec<&BuiltinFunction> = Vec::new();
        let mut i: usize = 0;
        while i < n
            invariant
                n == self.funcs@.len(),
                i <= n,
                key == lower_seq(name@),
                pred == |f: BuiltinFunction| lower_seq(f.name@) == key,
                deref_builtins(out@) == self.funcs@.subrange(0, i as int).filter(pred),
            decreases n - i,
        {
            let ghost done = self.funcs@.subrange(0, i as int);
            proof {
                assert(self.funcs@.subrange(0, i + 1) =~= done.push(self.funcs@[i as int]));
                crate::workspace::lemma_filter_push(done, self.funcs@[i as int], pred);
            }
            let f = &self.funcs[i];
            let ghost pre = out@;
            if eq_ignore_case(f.name.as_str(), name) {
                out.push(f);
                proof {
                    assert(deref_builtins(out@) =~= deref_builtins(pre).push(*out@.last()));
                    assert(deref_builtins(out@) == self.funcs@.subrange(0, i + 1).filter(pred));
                }
            } else {
                proof {
                    assert(deref_builtins(out@) == self.funcs@.subrange(0, i + 1).filter(pred));
                }
            }
            i += 1;
        }
        proof {
            assert(self.funcs@.subrange(0, n as int) =~= self.funcs@);
        }
        out
    }

    /// Every overload of the catalog, in load order.
    pub fn all<'a>(&'a self) -> (r: Vec<&'a BuiltinFunction>)
        ensures
            deref_builtins(r@) == self.spec_funcs(),
    {
        let n = self.funcs.len();
        let mut out: Vec<&BuiltinFunction> = Vec::new();
        let mut i: usize = 0;
        while i < n
            invariant
                n == self.funcs@.len(),
                i <= n,
                deref_builtins(out@) == self.funcs@.subrange(0, i as int),
            decreases n - i,
        {
            let f = &self.funcs[i];
            let ghost pre = out@;
            out.push(f);
            proof {
                assert(deref_builtins(out@) =~= deref_builtins(pre).push(*out@.last()));
                assert(self.funcs@.subrange(0, i + 1) =~= self.funcs@.subrange(0, i as int).push(
                    self.funcs@[i as int],
                ));
                assert(deref_builtins(out@) == self.funcs@.subrange(0, i + 1));
            }
            i += 1;
        }
        proof {
            assert(self.funcs@.subrange(0, n as int) =~= self.funcs@);
        }
        out
    }
}

/// The free-function lookup: overloads of `name` in `table`.
pub fn lookup<'a>(table: &'a BuiltinTable, name: &str) -> (r: Vec<&'a BuiltinFunction>)
    ensures
        deref_builtins(r@) == builtin_filter(table.spec_funcs(), lower_seq(name@)),
{
    table.lookup(name)
}

// ---------------------------------------------------------------------------
// Parameter counts
// ---------------------------------------------------------------------------

/// Required parameters: those whose name does not start with `[`.
pub open spec fn spec_builtin_required(params: Seq<BuiltinParam>) -> int {
    params.filter(|p: BuiltinParam| !(p.name@.len() > 0 && p.name@[0] == '[')).len() as int
}

/// Total accepted parameters: unbounded when the last is `[...]`.
pub open spec fn spec_builtin_total(params: Seq<BuiltinParam>) -> int {
    if params.len() > 0 && params.last().name@ == "[...]"@ {
        usize::MAX as int
    } else {
        params.len() as int
    }
}

/// Required and total parameter counts of one overload.
pub fn builtin_param_counts(func: &BuiltinFunction) -> (r: (usize, usize))
    ensures
        r.0 as int == spec_builtin_required(func.params@),
        r.1 as int == spec_builtin_total(func.params@),
{
    let ghost pred = |p: BuiltinParam| !(p.name@.len() > 0 && p.name@[0] == '[');
    let n = func.params.len();
    let mut required: usize = 0;
    let mut i: usize = 0;
    while i < n
        invariant
            n == func.params@.len(),
            i <= n,
            pred == |p: BuiltinParam| !(p.name@.len() > 0 && p.name@[0] == '['),
            required == func.params@.subrange(0, i as int).filter(pred).len(),
            required <= i,
        decreases n - i,
    {
        let ghost done = func.params@.subrange(0, i as int);
        proof {
            assert(func.params@.subrange(0, i + 1) =~= done.push(func.params@[i as int]));
            crate::workspace::lemma_filter_push(done, func.params@[i as int], pred);
        }
        let p = &func.params[i];
        let plen = p.name.as_str().unicode_len();
        let starts_bracket = plen > 0 && p.name.as_str().get_char(0) == '[';
        if !starts_bracket {
            required += 1;
        }
        i += 1;
    }
    proof {
        assert(func.params@.subrange(0, n as int) =~= func.params@);
    }
    let total = if n > 0 && crate::text::str_eq(func.params[n - 1].name.as_str(), "[...]") {
        usize::MAX
    } else {
        n
    };
    proof {
        if n > 0 {
            assert(func.params@.last() == func.params@[n - 1]);
        }
    }
    (required, total)
}

} // verus!
