//! Record-layout sidecar files.
//!
//! A layout file describes the record structure of a BR data file: a header
//! line `path, prefix, version`, optional key lines and a `recl=N` line, a
//! separator of dashes or equals signs, then one field line per subscript.
//! Lines starting with `!` are comments and `#eof#` ends the meaningful
//! content.  The parser is a small line-oriented state machine, specified
//! here as a fold over the file's lines.

use vstd::prelude::*;
use vstd::seq_lib::*;
use vstd::string::*;

use crate::text::{
    eq_ignore_case, is_ws, lower_seq, spec_lines, spec_parse_u32, spec_split, spec_splitn,
    spec_starts_with, spec_trim, split_lines, split_on, splitn_on, starts_with_ignore_case,
    parse_u32, str_eq, strs_view, trim, substring_owned,
};

verus! {

// ---------------------------------------------------------------------------
// Data structures
// ---------------------------------------------------------------------------

/// One field of a record layout.
#[derive(Clone, Debug)]
pub struct LayoutSubscript {
    pub name: String,
    pub description: String,
    pub format: String,
}

/// One key of a record layout: an index path and its fields.
#[derive(Clone, Debug)]
pub struct LayoutKey {
    pub path: String,
    pub key_fields: Vec<String>,
}

/// A parsed layout file.
#[derive(Clone, Debug)]
pub struct Layout {
    pub path: String,
    pub prefix: String,
    pub version: Option<u32>,
    pub keys: Vec<LayoutKey>,
    pub subscripts: Vec<LayoutSubscript>,
    pub record_length: Option<u32>,
}

/// The abstract contents of a key.
pub ghost struct LayoutKeyV {
    pub path: Seq<char>,
    pub key_fields: Seq<Seq<char>>,
}

/// The abstract contents of a subscript.
pub ghost struct LayoutSubV {
    pub name: Seq<char>,
    pub description: Seq<char>,
    pub format: Seq<char>,
}

pub open spec fn key_view(k: LayoutKey) -> LayoutKeyV {
    LayoutKeyV { path: k.path@, key_fields: strs_view(k.key_fields@) }
}

pub open spec fn sub_view(s: LayoutSubscript) -> LayoutSubV {
    LayoutSubV { name: s.name@, description: s.description@, format: s.format@ }
}

// ---------------------------------------------------------------------------
// Line classification
// ---------------------------------------------------------------------------

/// A separator line: non-empty, only dashes and equals signs.
pub open spec fn spec_is_separator(t: Seq<char>) -> bool {
    t.len() > 0 && forall|i: int| 0 <= i < t.len() ==> t[i] == '-' || #[trigger] t[i] == '='
}

/// Is the (already trimmed) line a separator?
pub fn is_separator(line: &str) -> (r: bool)
    ensures
        r == spec_is_separator(line@),
{
    let n = line.unicode_len();
    if n == 0 {
        return false;
    }
    let mut i: usize = 0;
    while i < n
        invariant
            n == line@.len(),
            i <= n,
            forall|k: int| 0 <= k < i ==> line@[k] == '-' || #[trigger] line@[k] == '=',
        decreases n - i,
    {
        let c = line.get_char(i);
        if c != '-' && c != '=' {
            return false;
        }
        i += 1;
    }
    true
}

/// Characters stripped between `recl` and its number.
pub open spec fn is_recl_sep(c: char) -> bool {
    c == '=' || is_ws(c)
}

pub open spec fn count_leading_recl_sep(s: Seq<char>) -> int
    decreases s.len(),
{
    if s.len() == 0 {
        0
    } else if !is_recl_sep(s[0]) {
        0
    } else {
        1 + count_leading_recl_sep(s.drop_first())
    }
}

pub proof fn lemma_leading_recl_sep(s: Seq<char>)
    ensures
        0 <= count_leading_recl_sep(s) <= s.len(),
        forall|i: int| 0 <= i < count_leading_recl_sep(s) ==> is_recl_sep(#[trigger] s[i]),
        count_leading_recl_sep(s) < s.len() ==> !is_recl_sep(s[count_leading_recl_sep(s)]),
    decreases s.len(),
{
    if s.len() > 0 && is_recl_sep(s[0]) {
        lemma_leading_recl_sep(s.drop_first());
        assert forall|i: int| 0 <= i < count_leading_recl_sep(s) implies is_recl_sep(
            #[trigger] s[i],
        ) by {
            if i > 0 {
                assert(s[i] == s.drop_first()[i - 1]);
            }
        }
        if count_leading_recl_sep(s) < s.len() {
            assert(s[count_leading_recl_sep(s)] == s.drop_first()[count_leading_recl_sep(
                s.drop_first(),
            )]);
        }
    }
}

fn recl_sep_at(s: &str, i: usize) -> (r: bool)
    requires
        i < s@.len(),
    ensures
        r == is_recl_sep(s@[i as int]),
{
    let c = s.get_char(i);
    c == '=' || crate::text::is_ws_exec(c)
}

/// The number of a `recl` line: what follows `recl`, with `=` and blanks
/// stripped, trimmed and read as a decimal.
pub open spec fn spec_parse_recl(t: Seq<char>) -> Option<u32> {
    let low = lower_seq(t);
    if low.len() < 4 {
        None
    } else {
        let after = low.subrange(4, low.len() as int);
        let stripped = after.subrange(count_leading_recl_sep(after), after.len() as int);
        spec_parse_u32(spec_trim(stripped))
    }
}

/// Read the number out of a (trimmed) `recl=N` line.
pub fn parse_recl_value(line: &str) -> (r: Option<u32>)
    ensures
        r == spec_parse_recl(line@),
{
    let low = crate::text::to_lowercase(line);
    let n = low.as_str().unicode_len();
    if n < 4 {
        return None;
    }
    let ghost after = low@.subrange(4, low@.len() as int);
    proof {
        lemma_leading_recl_sep(after);
    }
    let mut i: usize = 4;
    while i < n && recl_sep_at(low.as_str(), i)
        invariant
            n == low@.len(),
            4 <= i <= n,
            after == low@.subrange(4, low@.len() as int),
            forall|k: int| 0 <= k < i - 4 ==> is_recl_sep(#[trigger] after[k]),
            i - 4 <= count_leading_recl_sep(after),
        decreases n - i,
    {
        proof {
            lemma_leading_recl_sep(after);
            if i - 4 + 1 > count_leading_recl_sep(after) {
                assert(!is_recl_sep(after[count_leading_recl_sep(after)]));
            }
        }
        i += 1;
    }
    proof {
        lemma_leading_recl_sep(after);
        if count_leading_recl_sep(after) < i - 4 {
            assert(is_recl_sep(after[count_leading_recl_sep(after)]));
        }
        if i < n {
            assert(after[i - 4] == low@[i as int]);
        }
        assert(i - 4 == count_leading_recl_sep(after));
    }
    let rest = low.as_str().substring_char(i, n);
    proof {
        assert(rest@ =~= after.subrange(count_leading_recl_sep(after), after.len() as int));
    }
    let trimmed = trim(rest);
    parse_u32(trimmed)
}

// ---------------------------------------------------------------------------
// Parsing: a fold over the lines
// ---------------------------------------------------------------------------

/// Parser state: what the machine has gathered after some prefix of lines.
pub ghost struct LayoutAcc {
    /// 0 before the header, 1 in the header block, 2 in the field block,
    /// 3 after `#eof#`.
    pub state: int,
    pub path: Seq<char>,
    pub prefix: Seq<char>,
    pub version: Option<u32>,
    pub keys: Seq<LayoutKeyV>,
    pub subs: Seq<LayoutSubV>,
    pub recl: Option<u32>,
}

pub open spec fn layout_init() -> LayoutAcc {
    LayoutAcc {
        state: 0,
        path: Seq::<char>::empty(),
        prefix: Seq::<char>::empty(),
        version: None,
        keys: Seq::<LayoutKeyV>::empty(),
        subs: Seq::<LayoutSubV>::empty(),
        recl: None,
    }
}

/// The trimmed, non-empty tail fields of a key line.
pub open spec fn spec_key_fields(parts: Seq<Seq<char>>) -> Seq<Seq<char>> {
    parts.drop_first().map_values(|p: Seq<char>| spec_trim(p)).filter(
        |f: Seq<char>| f.len() > 0,
    )
}

/// One step of the layout state machine.
pub open spec fn layout_step(st: LayoutAcc, line: Seq<char>) -> LayoutAcc {
    let t = spec_trim(line);
    if st.state == 3 {
        st
    } else if t.len() > 0 && t[0] == '!' {
        st
    } else if lower_seq(t) == lower_seq("#eof#"@) {
        LayoutAcc { state: 3, ..st }
    } else if t.len() == 0 {
        st
    } else if st.state == 0 {
        let parts = spec_splitn(t, 3, ',');
        LayoutAcc {
            state: 1,
            path: spec_trim(parts[0]),
            prefix: if parts.len() > 1 {
                spec_trim(parts[1])
            } else {
                Seq::<char>::empty()
            },
            version: if parts.len() > 2 {
                spec_parse_u32(spec_trim(parts[2]))
            } else {
                None
            },
            ..st
        }
    } else if st.state == 1 {
        if spec_is_separator(t) {
            LayoutAcc { state: 2, ..st }
        } else if spec_starts_with(lower_seq(t), lower_seq("recl"@)) {
            match spec_parse_recl(t) {
                Some(v) => LayoutAcc { recl: Some(v), ..st },
                None => st,
            }
        } else {
            let parts = spec_split(t, ',');
            LayoutAcc {
                keys: st.keys.push(
                    LayoutKeyV {
                        path: spec_trim(parts[0]),
                        key_fields: spec_key_fields(parts),
                    },
                ),
                ..st
            }
        }
    } else {
        let parts = spec_splitn(t, 4, ',');
        if parts.len() >= 3 {
            LayoutAcc {
                subs: st.subs.push(
                    LayoutSubV {
                        name: spec_trim(parts[0]),
                        description: spec_trim(parts[1]),
                        format: spec_trim(parts[2]),
                    },
                ),
                ..st
            }
        } else {
            st
        }
    }
}

pub open spec fn layout_run_from(st: LayoutAcc, lines: Seq<Seq<char>>) -> LayoutAcc
    decreases lines.len(),
{
    if lines.len() == 0 {
        st
    } else {
        layout_run_from(layout_step(st, lines[0]), lines.drop_first())
    }
}

/// The machine's state after the whole file.
pub open spec fn layout_run(lines: Seq<Seq<char>>) -> LayoutAcc {
    layout_run_from(layout_init(), lines)
}

pub proof fn lemma_layout_run_snoc(st: LayoutAcc, lines: Seq<Seq<char>>, line: Seq<char>)
    ensures
        layout_run_from(st, lines.push(line)) == layout_step(layout_run_from(st, lines), line),
    decreases lines.len(),
{
    if lines.len() == 0 {
        assert(lines.push(line)[0] == line);
        assert(lines.push(line).drop_first() =~= Seq::<Seq<char>>::empty());
        assert(layout_run_from(layout_step(st, line), Seq::<Seq<char>>::empty()) == layout_step(
            st,
            line,
        ));
        assert(layout_run_from(st, lines.push(line)) == layout_step(st, line));
        assert(layout_run_from(st, lines) == st);
    } else {
        assert(lines.push(line)[0] == lines[0]);
        assert(lines.push(line).drop_first() =~= lines.drop_first().push(line));
        lemma_layout_run_snoc(layout_step(st, lines[0]), lines.drop_first(), line);
    }
}

/// Parse a layout file.  Returns `None` exactly when no header path was
/// found; otherwise every gathered field is reported as the state machine
/// leaves it.
pub fn parse(source: &str) -> (r: Option<Layout>)
    ensures
        ({
            let acc = layout_run(spec_lines(source@));
            match r {
                None => acc.path.len() == 0,
                Some(l) => {
                    &&& acc.path.len() > 0
                    &&& l.path@ == acc.path
                    &&& l.prefix@ == acc.prefix
                    &&& l.version == acc.version
                    &&& l.record_length == acc.recl
                    &&& l.keys@.map_values(|k: LayoutKey| key_view(k)) == acc.keys
                    &&& l.subscripts@.map_values(|s: LayoutSubscript| sub_view(s)) == acc.subs
                },
            }
        }),
{
    let lines = split_lines(source);
    let ghost all = spec_lines(source@);
    let n = lines.len();
    let mut state: u8 = 0;
    let mut path = String::new();
    let mut prefix = String::new();
    let mut version: Option<u32> = None;
    let mut keys: Vec<LayoutKey> = Vec::new();
    let mut subscripts: Vec<LayoutSubscript> = Vec::new();
    let mut record_length: Option<u32> = None;
    let mut i: usize = 0;
    while i < n
        invariant
            n == lines@.len(),
            strs_view(lines@) == all,
            i <= n,
            ({
                let acc = layout_run_from(layout_init(), all.subrange(0, i as int));
                &&& state as int == acc.state
                &&& state <= 3
                &&& path@ == acc.path
                &&& prefix@ == acc.prefix
                &&& version == acc.version
                &&& record_length == acc.recl
                &&& keys@.map_values(|k: LayoutKey| key_view(k)) == acc.keys
                &&& subscripts@.map_values(|s: LayoutSubscript| sub_view(s)) == acc.subs
            }),
        decreases n - i,
    {
        let ghost done = all.subrange(0, i as int);
        let ghost acc = layout_run_from(layout_init(), done);
        proof {
            assert(all.subrange(0, i + 1) =~= done.push(all[i as int]));
            lemma_layout_run_snoc(layout_init(), done, all[i as int]);
            assert(lines@[i as int]@ == all[i as int]);
        }
        let ghost next = layout_step(acc, all[i as int]);
        let line = &lines[i];
        let trimmed = trim(line.as_str());
        let tlen = trimmed.unicode_len();
        if state == 3 {
            // after #eof#: nothing more counts
        } else if tlen > 0 && trimmed.get_char(0) == '!' {
            // comment line
        } else if eq_ignore_case(trimmed, "#eof#") {
            state = 3;
        } else if tlen == 0 {
            // blank line
        } else if state == 0 {
            let parts = splitn_on(trimmed, 3, ',');
            let ghost sparts = spec_splitn(trimmed@, 3, ',');
            let p0 = trim(parts[0].as_str());
            path = substring_owned(p0, 0, p0.unicode_len());
            proof {
                assert(parts@[0]@ == sparts[0]);
                assert(path@ =~= spec_trim(sparts[0]));
            }
            if parts.len() > 1 {
                let p1 = trim(parts[1].as_str());
                prefix = substring_owned(p1, 0, p1.unicode_len());
                proof {
                    assert(parts@[1]@ == sparts[1]);
                    assert(prefix@ =~= spec_trim(sparts[1]));
                }
            } else {
                prefix = String::new();
                proof {
                    assert(prefix@ =~= Seq::<char>::empty());
                }
            }
            if parts.len() > 2 {
                let p2 = trim(parts[2].as_str());
                version = parse_u32(p2);
                proof {
                    assert(parts@[2]@ == sparts[2]);
                }
            } else {
                version = None;
            }
            state = 1;
        } else if state == 1 {
            if is_separator(trimmed) {
                state = 2;
            } else if starts_with_ignore_case(trimmed, "recl") {
                match parse_recl_value(trimmed) {
                    Some(v) => {
                        record_length = Some(v);
                    },
                    None => {},
                }
            } else {
                let parts = split_on(trimmed, ',');
                let ghost sparts = spec_split(trimmed@, ',');
                let p0 = trim(parts[0].as_str());
                let key_path = substring_owned(p0, 0, p0.unicode_len());
                proof {
                    assert(parts@[0]@ == sparts[0]);
                    assert(key_path@ =~= spec_trim(sparts[0]));
                }
                let mut key_fields: Vec<String> = Vec::new();
                let m = parts.len();
                let mut k: usize = 1;
                while k < m
                    invariant
                        m == parts@.len(),
                        m == sparts.len(),
                        strs_view(parts@) == sparts,
                        1 <= k <= m,
                        strs_view(key_fields@) == sparts.subrange(1, k as int).map_values(
                            |p: Seq<char>| spec_trim(p),
                        ).filter(|f: Seq<char>| f.len() > 0),
                    decreases m - k,
                {
                    let ghost fdone = sparts.subrange(1, k as int).map_values(
                        |p: Seq<char>| spec_trim(p),
                    );
                    proof {
                        assert(sparts.subrange(1, k + 1).map_values(|p: Seq<char>| spec_trim(p))
                            =~= fdone.push(spec_trim(sparts[k as int])));
                        crate::workspace::lemma_filter_push(
                            fdone,
                            spec_trim(sparts[k as int]),
                            |f: Seq<char>| f.len() > 0,
                        );
                        assert(parts@[k as int]@ == sparts[k as int]);
                    }
                    let f = trim(parts[k].as_str());
                    let flen = f.unicode_len();
                    if flen > 0 {
                        let ghost pre_kf = key_fields@;
                        let fo = substring_owned(f, 0, flen);
                        key_fields.push(fo);
                        proof {
                            crate::text::lemma_strs_push(pre_kf, key_fields@.last());
                            assert(key_fields@.last()@ == spec_trim(sparts[k as int]));
                        }
                    }
                    k += 1;
                }
                proof {
                    assert(sparts.subrange(1, m as int) =~= sparts.drop_first());
                }
                let ghost pre_keys = keys@;
                keys.push(LayoutKey { path: key_path, key_fields });
                proof {
                    assert(keys@.map_values(|kk: LayoutKey| key_view(kk)) =~= pre_keys.map_values(
                        |kk: LayoutKey| key_view(kk),
                    ).push(key_view(keys@.last())));
                    assert(key_view(keys@.last()) == LayoutKeyV {
                        path: spec_trim(sparts[0]),
                        key_fields: spec_key_fields(sparts),
                    });
                }
            }
        } else {
            let parts = splitn_on(trimmed, 4, ',');
            let ghost sparts = spec_splitn(trimmed@, 4, ',');
            if parts.len() >= 3 {
                let p0 = trim(parts[0].as_str());
                let name = substring_owned(p0, 0, p0.unicode_len());
                let p1 = trim(parts[1].as_str());
                let description = substring_owned(p1, 0, p1.unicode_len());
                let p2 = trim(parts[2].as_str());
                let format = substring_owned(p2, 0, p2.unicode_len());
                let ghost pre_subs = subscripts@;
                proof {
                    assert(parts@.len() == sparts.len());
                    assert(parts@[0]@ == sparts[0]);
                    assert(parts@[1]@ == sparts[1]);
                    assert(parts@[2]@ == sparts[2]);
                    assert(name@ =~= spec_trim(sparts[0]));
                    assert(description@ =~= spec_trim(sparts[1]));
                    assert(format@ =~= spec_trim(sparts[2]));
                }
                subscripts.push(LayoutSubscript { name, description, format });
                proof {
                    assert(sub_view(subscripts@.last()) == LayoutSubV {
                        name: spec_trim(sparts[0]),
                        description: spec_trim(sparts[1]),
                        format: spec_trim(sparts[2]),
                    });
                    assert(subscripts@.map_values(|ss: LayoutSubscript| sub_view(ss))
                        =~= pre_subs.map_values(|ss: LayoutSubscript| sub_view(ss)).push(
                        sub_view(subscripts@.last()),
                    ));
                }
            }
        }
        proof {
            assert(trimmed@ == spec_trim(all[i as int]));
            assert(state as int == next.state);
            assert(path@ == next.path);
            assert(prefix@ == next.prefix);
            assert(version == next.version);
            assert(record_length == next.recl);
            assert(keys@.map_values(|k: LayoutKey| key_view(k)) == next.keys);
            assert(subscripts@.map_values(|ss: LayoutSubscript| sub_view(ss)) == next.subs);
        }
        i += 1;
    }
    proof {
        assert(all.subrange(0, n as int) =~= all);
    }
    let plen = path.as_str().unicode_len();
    if plen == 0 {
        return None;
    }
    Some(
        Layout {
            path,
            prefix,
            version,
            keys,
            subscripts,
            record_length,
        },
    )
}

// ---------------------------------------------------------------------------
// Form codes
// ---------------------------------------------------------------------------

/// The fixed set of valid form codes, compared case-insensitively.
pub open spec fn spec_is_valid_form(s: Seq<char>) -> bool {
    ||| lower_seq(s) == lower_seq("BH"@)
    ||| lower_seq(s) == lower_seq("BL"@)
    ||| lower_seq(s) == lower_seq("B"@)
    ||| lower_seq(s) == lower_seq("CC"@)
    ||| lower_seq(s) == lower_seq("CR"@)
    ||| lower_seq(s) == lower_seq("C"@)
    ||| lower_seq(s) == lower_seq("DH"@)
    ||| lower_seq(s) == lower_seq("DL"@)
    ||| lower_seq(s) == lower_seq("DT"@)
    ||| lower_seq(s) == lower_seq("D"@)
    ||| lower_seq(s) == lower_seq("GF"@)
    ||| lower_seq(s) == lower_seq("GZ"@)
    ||| lower_seq(s) == lower_seq("G"@)
    ||| lower_seq(s) == lower_seq("L"@)
    ||| lower_seq(s) == lower_seq("NZ"@)
    ||| lower_seq(s) == lower_seq("N"@)
    ||| lower_seq(s) == lower_seq("PIC"@)
    ||| lower_seq(s) == lower_seq("PD"@)
    ||| lower_seq(s) == lower_seq("P"@)
    ||| lower_seq(s) == lower_seq("SKIP"@)
    ||| lower_seq(s) == lower_seq("S"@)
    ||| lower_seq(s) == lower_seq("V"@)
    ||| lower_seq(s) == lower_seq("X"@)
    ||| lower_seq(s) == lower_seq("ZD"@)
}

pub fn is_valid_form(spec: &str) -> (r: bool)
    ensures
        r == spec_is_valid_form(spec@),
{
    eq_ignore_case(spec, "BH") || eq_ignore_case(spec, "BL") || eq_ignore_case(spec, "B")
        || eq_ignore_case(spec, "CC") || eq_ignore_case(spec, "CR") || eq_ignore_case(spec, "C")
        || eq_ignore_case(spec, "DH") || eq_ignore_case(spec, "DL") || eq_ignore_case(spec, "DT")
        || eq_ignore_case(spec, "D") || eq_ignore_case(spec, "GF") || eq_ignore_case(spec, "GZ")
        || eq_ignore_case(spec, "G") || eq_ignore_case(spec, "L") || eq_ignore_case(spec, "NZ")
        || eq_ignore_case(spec, "N") || eq_ignore_case(spec, "PIC") || eq_ignore_case(spec, "PD")
        || eq_ignore_case(spec, "P") || eq_ignore_case(spec, "SKIP") || eq_ignore_case(spec, "S")
        || eq_ignore_case(spec, "V") || eq_ignore_case(spec, "X") || eq_ignore_case(spec, "ZD")
}

// ---------------------------------------------------------------------------
// File detection
// ---------------------------------------------------------------------------

/// A layout file: extension `lay` (case-insensitive), or a parent directory
/// named `filelay` (case-insensitive).
pub open spec fn spec_is_layout_file(path: Seq<char>) -> bool {
    ||| (match crate::workspace::spec_extension(path) {
        Some(e) => lower_seq(e) == lower_seq("lay"@),
        None => false,
    })
    ||| {
        let sep = crate::workspace::spec_last_index_of(path, '/');
        sep >= 0 && lower_seq(
            crate::workspace::spec_file_name(path.subrange(0, sep)),
        ) == lower_seq("filelay"@)
    }
}

pub fn is_layout_file(path: &str) -> (r: bool)
    ensures
        r == spec_is_layout_file(path@),
{
    let by_ext = match crate::workspace::extension_of(path) {
        Some(e) => eq_ignore_case(e.as_str(), "lay"),
        None => false,
    };
    if by_ext {
        return true;
    }
    proof {
        crate::workspace::lemma_last_index_of_bounds(path@, '/');
    }
    match crate::workspace::last_index_of(path, '/') {
        Some(sep) => {
            let parent = path.substring_char(0, sep);
            proof {
                assert(parent@ =~= path@.subrange(
                    0,
                    crate::workspace::spec_last_index_of(path@, '/'),
                ));
            }
            let dir = crate::workspace::file_name_of(parent);
            eq_ignore_case(dir.as_str(), "filelay")
        },
        None => false,
    }
}

// ---------------------------------------------------------------------------
// Layout index
// ---------------------------------------------------------------------------

/// Mapping from document URI to its parsed layout.
pub struct LayoutIndex {
    pub entries: Vec<(String, Layout)>,
}

/// At most one entry per URI.
pub open spec fn layout_index_wf(s: Seq<(String, Layout)>) -> bool {
    forall|i: int, j: int| 0 <= i < j < s.len() ==> (#[trigger] s[i]).0@ != (#[trigger] s[j]).0@
}

impl LayoutIndex {
    pub open spec fn wf(&self) -> bool {
        layout_index_wf(self.entries@)
    }

    pub open spec fn spec_entries(&self) -> Seq<(String, Layout)> {
        self.entries@
    }

    pub fn new() -> (r: LayoutIndex)
        ensures
            r.wf(),
            r.spec_entries().len() == 0,
    {
        LayoutIndex { entries: Vec::new() }
    }

    /// Position of the entry for `uri`, if present.
    fn position_of(&self, uri: &str) -> (r: Option<usize>)
        ensures
            match r {
                Some(i) => 0 <= i < self.spec_entries().len() && self.spec_entries()[i as int].0@
                    == uri@,
                None => forall|i: int|
                    0 <= i < self.spec_entries().len() ==> (#[trigger] self.spec_entries()[i]).0@
                        != uri@,
            },
    {
        let n = self.entries.len();
        let mut i: usize = 0;
        while i < n
            invariant
                n == self.entries@.len(),
                i <= n,
                forall|k: int| 0 <= k < i ==> (#[trigger] self.entries@[k]).0@ != uri@,
            decreases n - i,
        {
            if str_eq(self.entries[i].0.as_str(), uri) {
                return Some(i);
            }
            i += 1;
        }
        None
    }

    /// Insert or replace the layout recorded for `uri`.
    pub fn add(&mut self, uri: &str, layout: Layout)
        requires
            old(self).wf(),
        ensures
            final(self).wf(),
            exists|i: int|
                0 <= i < final(self).spec_entries().len()
                && (#[trigger] final(self).spec_entries()[i]).0@ == uri@
                && final(self).spec_entries()[i].1 == layout,
            final(self).spec_entries().filter(|e: (String, Layout)| e.0@ != uri@)
                == old(self).spec_entries().filter(|e: (String, Layout)| e.0@ != uri@),
    {
        let ghost pred = |e: (String, Layout)| e.0@ != uri@;
        let mut u = String::new();
        u.append(uri);
        proof {
            assert(u@ =~= uri@);
        }
        match self.position_of(uri) {
            Some(i) => {
                let ghost pre = self.entries@;
                self.entries[i] = (u, layout);
                proof {
                    assert(self.spec_entries()[i as int].0@ == uri@);
                    assert(self.spec_entries()[i as int].1 == layout);
                    assert(pre[i as int].0@ == uri@);
                    lemma_filter_update_same(pre, self.entries@, i as int, pred);
                    assert forall|a: int, b: int|
                        0 <= a < b < self.entries@.len() implies (#[trigger] self.entries@[a]).0@
                        != (#[trigger] self.entries@[b]).0@ by {
                        assert(pre[a].0@ != pre[b].0@);
                        if a != i && b != i {
                            assert(self.entries@[a] == pre[a]);
                            assert(self.entries@[b] == pre[b]);
                        }
                    }
                }
            },
            None => {
                let ghost pre = self.entries@;
                self.entries.push((u, layout));
                proof {
                    let ghost m = self.entries@.len() - 1;
                    assert(self.spec_entries()[m].0@ == uri@);
                    assert(self.spec_entries()[m].1 == layout);
                    crate::workspace::lemma_filter_push(pre, self.entries@[m], pred);
                    assert forall|a: int, b: int|
                        0 <= a < b < self.entries@.len() implies (#[trigger] self.entries@[a]).0@
                        != (#[trigger] self.entries@[b]).0@ by {
                        if b < m {
                            assert(pre[a].0@ != pre[b].0@);
                        } else {
                            assert(pre[a].0@ != uri@);
                        }
                    }
                }
            },
        }
    }

    /// Forget the layout recorded for `uri`.
    pub fn remove(&mut self, uri: &str)
        requires
            old(self).wf(),
        ensures
            final(self).wf(),
            final(self).spec_entries() == old(self).spec_entries().filter(
                |e: (String, Layout)| e.0@ != uri@
            ),
    {
        let ghost pred = |e: (String, Layout)| e.0@ != uri@;
        let ghost orig = self.entries@;
        match self.position_of(uri) {
            Some(i) => {
                self.entries.remove(i);
                proof {
                    assert forall|k: int|
                        0 <= k < orig.len() && k != i implies pred(#[trigger] orig[k]) by {
                        if k < i {
                            assert(orig[k].0@ != orig[i as int].0@);
                        } else {
                            assert(orig[i as int].0@ != orig[k].0@);
                        }
                    }
                    lemma_filter_remove_only(orig, self.entries@, i as int, pred);
                    assert forall|a: int, b: int|
                        0 <= a < b < self.entries@.len() implies (#[trigger] self.entries@[a]).0@
                        != (#[trigger] self.entries@[b]).0@ by {
                        let pa = if a < i { a } else { a + 1 };
                        let pb = if b < i { b } else { b + 1 };
                        assert(self.entries@[a] == orig[pa]);
                        assert(self.entries@[b] == orig[pb]);
                        assert(orig[pa].0@ != orig[pb].0@);
                    }
                }
            },
            None => {
                proof {
                    assert forall|k: int| 0 <= k < orig.len() implies pred(#[trigger] orig[k]) by {
                        assert(self.spec_entries()[k].0@ != uri@);
                        assert(orig[k] == self.spec_entries()[k]);
                    }
                    lemma_filter_all_true(orig, pred);
                }
            },
        }
    }

    /// Same as `add`: replace what is recorded for `uri`.
    pub fn update(&mut self, uri: &str, layout: Layout)
        requires
            old(self).wf(),
        ensures
            final(self).wf(),
            exists|i: int|
                0 <= i < final(self).spec_entries().len()
                && (#[trigger] final(self).spec_entries()[i]).0@ == uri@
                && final(self).spec_entries()[i].1 == layout,
            final(self).spec_entries().filter(|e: (String, Layout)| e.0@ != uri@)
                == old(self).spec_entries().filter(|e: (String, Layout)| e.0@ != uri@),
    {
        self.add(uri, layout);
    }

    /// Every recorded layout.
    pub fn all_layouts<'a>(&'a self) -> (r: Vec<&'a Layout>)
        ensures
            r@.len() == self.spec_entries().len(),
            forall|i: int|
                0 <= i < r@.len() ==> *(#[trigger] r@[i]) == self.spec_entries()[i].1,
    {
        let n = self.entries.len();
        let mut out: Vec<&Layout> = Vec::new();
        let mut i: usize = 0;
        while i < n
            invariant
                n == self.entries@.len(),
                i <= n,
                out@.len() == i,
                forall|k: int| 0 <= k < i ==> *(#[trigger] out@[k]) == self.entries@[k].1,
            decreases n - i,
        {
            out.push(&self.entries[i].1);
            i += 1;
        }
        out
    }
}

/// Filtering is unchanged by rewriting one element the predicate refuses,
/// with a refused replacement.
proof fn lemma_filter_update_same(
    pre: Seq<(String, Layout)>,
    post: Seq<(String, Layout)>,
    i: int,
    pred: spec_fn((String, Layout)) -> bool,
)
    requires
        0 <= i < pre.len(),
        post.len() == pre.len(),
        forall|k: int| 0 <= k < pre.len() && k != i ==> post[k] == pre[k],
        !pred(pre[i]),
        !pred(post[i]),
    ensures
        post.filter(pred) == pre.filter(pred),
    decreases pre.len(),
{
    reveal(Seq::filter);
    if pre.len() > 0 {
        if i == pre.len() - 1 {
            assert(post.drop_last() =~= pre.drop_last());
        } else {
            lemma_filter_update_same(pre.drop_last(), post.drop_last(), i, pred);
            assert(post.last() == pre.last());
        }
    }
}

/// Removing the only element the predicate refuses leaves the filter.
proof fn lemma_filter_remove_only(
    pre: Seq<(String, Layout)>,
    post: Seq<(String, Layout)>,
    i: int,
    pred: spec_fn((String, Layout)) -> bool,
)
    requires
        0 <= i < pre.len(),
        post =~= pre.subrange(0, i) + pre.subrange(i + 1, pre.len() as int),
        !pred(pre[i]),
        forall|k: int| 0 <= k < pre.len() && k != i ==> pred(#[trigger] pre[k]),
    ensures
        post == pre.filter(pred),
{
    lemma_filter_split(pre, i, pred);
    lemma_filter_all_true(pre.subrange(0, i), pred);
    lemma_filter_all_true(pre.subrange(i + 1, pre.len() as int), pred);
    assert(post =~= pre.filter(pred));
}

/// Filtering a sequence around one index.
proof fn lemma_filter_split(s: Seq<(String, Layout)>, i: int, pred: spec_fn((String, Layout)) -> bool)
    requires
        0 <= i < s.len(),
    ensures
        s.filter(pred) == s.subrange(0, i).filter(pred) + (if pred(s[i]) {
            seq![s[i]]
        } else {
            Seq::<(String, Layout)>::empty()
        }) + s.subrange(i + 1, s.len() as int).filter(pred),
{
    assert(s =~= s.subrange(0, i) + seq![s[i]] + s.subrange(i + 1, s.len() as int));
    Seq::filter_distributes_over_add(s.subrange(0, i) + seq![s[i]], s.subrange(i + 1, s.len() as int), pred);
    Seq::filter_distributes_over_add(s.subrange(0, i), seq![s[i]], pred);
    reveal(Seq::filter);
    assert(seq![s[i]].drop_last() =~= Seq::<(String, Layout)>::empty());
    assert(Seq::<(String, Layout)>::empty().filter(pred) =~= Seq::<(String, Layout)>::empty());
    assert(Seq::<(String, Layout)>::empty().push(s[i]) =~= seq![s[i]]);
    assert(seq![s[i]].filter(pred) == if pred(s[i]) {
        seq![s[i]]
    } else {
        Seq::<(String, Layout)>::empty()
    });
}

/// A sequence every element of which the predicate accepts filters to itself.
proof fn lemma_filter_all_true(s: Seq<(String, Layout)>, pred: spec_fn((String, Layout)) -> bool)
    requires
        forall|k: int| 0 <= k < s.len() ==> pred(#[trigger] s[k]),
    ensures
        s.filter(pred) == s,
    decreases s.len(),
{
    reveal(Seq::filter);
    if s.len() > 0 {
        lemma_filter_all_true(s.drop_last(), pred);
        assert(s.drop_last().push(s.last()) =~= s);
    }
}

// ---------------------------------------------------------------------------
// Semantic tokens for layout files
// ---------------------------------------------------------------------------

/// The legend indices layout tokens use.
pub open spec fn tt_variable() -> u32 {
    1
}

pub open spec fn tt_keyword() -> u32 {
    3
}

pub open spec fn tt_comment() -> u32 {
    4
}

pub open spec fn tt_string() -> u32 {
    5
}

pub open spec fn tt_number() -> u32 {
    6
}

pub open spec fn tt_invalid() -> u32 {
    11
}

/// One token covering `[start, start+len)` of line `ln`.
pub open spec fn spec_tok(ln: int, start: int, len: int, tt: u32) -> crate::semantic_tokens::RawToken {
    crate::semantic_tokens::RawToken {
        line: ln as u32,
        start: start as u32,
        length: len as u32,
        token_type: tt,
        modifiers: 0,
    }
}

/// Number of leading blanks of the raw line.
pub open spec fn spec_leading_spaces(line: Seq<char>) -> int {
    crate::text::count_leading_ws(line)
}

pub fn leading_spaces(line: &str) -> (r: usize)
    ensures
        r as int == spec_leading_spaces(line@),
{
    let n = line.unicode_len();
    let mut i: usize = 0;
    proof {
        crate::text::lemma_leading_ws(line@);
    }
    while i < n && crate::text::is_ws_exec(line.get_char(i))
        invariant
            n == line@.len(),
            i <= n,
            forall|k: int| 0 <= k < i ==> crate::text::is_ws(#[trigger] line@[k]),
            i <= crate::text::count_leading_ws(line@),
        decreases n - i,
    {
        proof {
            crate::text::lemma_leading_ws(line@);
            if i + 1 > crate::text::count_leading_ws(line@) {
                assert(!crate::text::is_ws(line@[crate::text::count_leading_ws(line@)]));
            }
        }
        i += 1;
    }
    proof {
        crate::text::lemma_leading_ws(line@);
    }
    i
}

/// The tokens of one comma-separated line, splitting into at most `limit`
/// parts: each non-blank part yields one token over its trimmed text, its
/// type chosen by the part's position.
pub open spec fn spec_parts_tokens(
    parts: Seq<Seq<char>>,
    idx: int,
    col: int,
    ln: int,
    tts: Seq<u32>,
) -> Seq<crate::semantic_tokens::RawToken>
    decreases parts.len() - idx when 0 <= idx
{
    if idx >= parts.len() {
        Seq::<crate::semantic_tokens::RawToken>::empty()
    } else {
        let part = parts[idx];
        let rest = spec_parts_tokens(parts, idx + 1, col + part.len() + 1, ln, tts);
        let t = spec_trim(part);
        if t.len() > 0 {
            let lead = crate::text::count_leading_ws(part);
            let tt = if idx < tts.len() {
                tts[idx]
            } else {
                tts.last()
            };
            seq![spec_tok(ln, col + lead, t.len() as int, tt)] + rest
        } else {
            rest
        }
    }
}

/// Emit the tokens of a split line.
fn parts_tokens(
    parts: &Vec<String>,
    ln: usize,
    tts: &Vec<u32>,
    out: &mut Vec<crate::semantic_tokens::RawToken>,
)
    requires
        tts@.len() > 0,
        crate::parser::sum_lens(strs_view(parts@), parts@.len() as int) + parts@.len()
            <= usize::MAX,
    ensures
        final(out)@ == old(out)@ + spec_parts_tokens(strs_view(parts@), 0, 0, ln as int, tts@),
{
    let n = parts.len();
    let mut idx: usize = 0;
    let mut col: usize = 0;
    proof {
        assert(out@ + spec_parts_tokens(strs_view(parts@), 0, 0, ln as int, tts@) =~= out@
            + spec_parts_tokens(strs_view(parts@), 0, 0, ln as int, tts@));
    }
    while idx < n
        invariant
            n == parts@.len(),
            tts@.len() > 0,
            idx <= n,
            out@ + spec_parts_tokens(strs_view(parts@), idx as int, col as int, ln as int, tts@)
                == old(out)@ + spec_parts_tokens(strs_view(parts@), 0, 0, ln as int, tts@),
            crate::parser::sum_lens(strs_view(parts@), parts@.len() as int) + parts@.len()
                <= usize::MAX,
            col as int == crate::parser::sum_lens(strs_view(parts@), idx as int) + idx,
        decreases n - idx,
    {
        let ghost rest = spec_parts_tokens(
            strs_view(parts@),
            idx as int,
            col as int,
            ln as int,
            tts@,
        );
        let part = &parts[idx];
        let plen = part.as_str().unicode_len();
        proof {
            assert(strs_view(parts@)[idx as int] == parts@[idx as int]@);
        }
        let t = trim(part.as_str());
        let tlen = t.unicode_len();
        if tlen > 0 {
            let lead = leading_spaces(part.as_str());
            let tt = if idx < tts.len() {
                tts[idx]
            } else {
                tts[tts.len() - 1]
            };
            let ghost pre = out@;
            proof {
                crate::text::lemma_trim_bounds(parts@[idx as int]@);
                crate::text::lemma_leading_ws(parts@[idx as int]@);
                crate::parser::lemma_sum_lens_snoc(strs_view(parts@), idx as int);
                crate::parser::lemma_sum_lens_mono(strs_view(parts@), idx + 1, parts@.len() as int);
            }
            let start = col + lead;
            out.push(
                crate::semantic_tokens::RawToken {
                    line: #[verifier::truncate] (ln as u32),
                    start: #[verifier::truncate] (start as u32),
                    length: #[verifier::truncate] (tlen as u32),
                    token_type: tt,
                    modifiers: 0,
                },
            );
            proof {
                assert(out@.last() == spec_tok(
                    ln as int,
                    col + crate::text::count_leading_ws(parts@[idx as int]@),
                    spec_trim(parts@[idx as int]@).len() as int,
                    tt,
                ));
                assert(out@ =~= pre.push(out@.last()));
                assert(out@ + spec_parts_tokens(
                    strs_view(parts@),
                    idx + 1,
                    col + parts@[idx as int]@.len() + 1,
                    ln as int,
                    tts@,
                ) =~= pre + rest);
            }
        }
        proof {
            crate::parser::lemma_sum_lens_snoc(strs_view(parts@), idx as int);
            crate::parser::lemma_sum_lens_mono(strs_view(parts@), idx + 1, parts@.len() as int);
        }
        col = col + plen + 1;
        idx += 1;
    }
    proof {
        assert(out@ + Seq::<crate::semantic_tokens::RawToken>::empty() =~= out@);
    }
}

/// Leading run of ASCII letters.
pub open spec fn count_leading_alpha(s: Seq<char>) -> int
    decreases s.len(),
{
    if s.len() == 0 {
        0
    } else if !(('a' <= s[0] && s[0] <= 'z') || ('A' <= s[0] && s[0] <= 'Z')) {
        0
    } else {
        1 + count_leading_alpha(s.drop_first())
    }
}

pub proof fn lemma_leading_alpha(s: Seq<char>)
    ensures
        0 <= count_leading_alpha(s) <= s.len(),
    decreases s.len(),
{
    if s.len() > 0 && (('a' <= s[0] && s[0] <= 'z') || ('A' <= s[0] && s[0] <= 'Z')) {
        lemma_leading_alpha(s.drop_first());
    }
}

/// Leading run of digits and dots.
pub open spec fn count_leading_numlike(s: Seq<char>) -> int
    decreases s.len(),
{
    if s.len() == 0 {
        0
    } else if !(('0' <= s[0] && s[0] <= '9') || s[0] == '.') {
        0
    } else {
        1 + count_leading_numlike(s.drop_first())
    }
}

pub proof fn lemma_leading_numlike(s: Seq<char>)
    ensures
        0 <= count_leading_numlike(s) <= s.len(),
    decreases s.len(),
{
    if s.len() > 0 && (('0' <= s[0] && s[0] <= '9') || s[0] == '.') {
        lemma_leading_numlike(s.drop_first());
    }
}

fn alpha_at(s: &str, i: usize) -> (r: bool)
    requires
        i < s@.len(),
    ensures
        r == (('a' <= s@[i as int] && s@[i as int] <= 'z') || ('A' <= s@[i as int] && s@[i as int]
            <= 'Z')),
{
    let c = s.get_char(i);
    ('a' <= c && c <= 'z') || ('A' <= c && c <= 'Z')
}

fn scan_leading_alpha(s: &str) -> (r: usize)
    ensures
        r as int == count_leading_alpha(s@),
{
    proof {
        lemma_leading_alpha(s@);
    }
    let n = s.unicode_len();
    let mut i: usize = 0;
    while i < n && alpha_at(s, i)
        invariant
            n == s@.len(),
            i <= n,
            forall|k: int|
                0 <= k < i ==> (('a' <= #[trigger] s@[k] && s@[k] <= 'z') || ('A' <= s@[k]
                    && s@[k] <= 'Z')),
            i <= count_leading_alpha(s@),
        decreases n - i,
    {
        proof {
            lemma_alpha_step(s@, i as int);
        }
        i += 1;
    }
    proof {
        lemma_alpha_exact(s@, i as int, n as int);
    }
    i
}

proof fn lemma_alpha_step(s: Seq<char>, i: int)
    requires
        0 <= i < s.len(),
        forall|k: int|
            0 <= k <= i ==> (('a' <= #[trigger] s[k] && s[k] <= 'z') || ('A' <= s[k] && s[k]
                <= 'Z')),
    ensures
        count_leading_alpha(s) >= i + 1,
    decreases i,
{
    lemma_leading_alpha(s.drop_first());
    if i > 0 {
        assert forall|k: int|
            0 <= k <= i - 1 implies (('a' <= #[trigger] s.drop_first()[k] && s.drop_first()[k]
            <= 'z') || ('A' <= s.drop_first()[k] && s.drop_first()[k] <= 'Z')) by {
            assert(s.drop_first()[k] == s[k + 1]);
        }
        lemma_alpha_step(s.drop_first(), i - 1);
    }
}

proof fn lemma_alpha_exact(s: Seq<char>, i: int, n: int)
    requires
        n == s.len(),
        0 <= i <= n,
        i <= count_leading_alpha(s),
        i < n ==> !(('a' <= s[i] && s[i] <= 'z') || ('A' <= s[i] && s[i] <= 'Z')),
    ensures
        count_leading_alpha(s) == i,
    decreases i,
{
    if i > 0 {
        lemma_alpha_exact(s.drop_first(), i - 1, n - 1);
    } else {
        if s.len() > 0 {
        }
    }
}

fn numlike_at(s: &str, i: usize) -> (r: bool)
    requires
        i < s@.len(),
    ensures
        r == (('0' <= s@[i as int] && s@[i as int] <= '9') || s@[i as int] == '.'),
{
    let c = s.get_char(i);
    ('0' <= c && c <= '9') || c == '.'
}

fn scan_leading_numlike(s: &str) -> (r: usize)
    ensures
        r as int == count_leading_numlike(s@),
{
    proof {
        lemma_leading_numlike(s@);
    }
    let n = s.unicode_len();
    let mut i: usize = 0;
    while i < n && numlike_at(s, i)
        invariant
            n == s@.len(),
            i <= n,
            forall|k: int|
                0 <= k < i ==> (('0' <= #[trigger] s@[k] && s@[k] <= '9') || s@[k] == '.'),
            i <= count_leading_numlike(s@),
        decreases n - i,
    {
        proof {
            lemma_numlike_step(s@, i as int);
        }
        i += 1;
    }
    proof {
        lemma_numlike_exact(s@, i as int, n as int);
    }
    i
}

proof fn lemma_numlike_step(s: Seq<char>, i: int)
    requires
        0 <= i < s.len(),
        forall|k: int| 0 <= k <= i ==> (('0' <= #[trigger] s[k] && s[k] <= '9') || s[k] == '.'),
    ensures
        count_leading_numlike(s) >= i + 1,
    decreases i,
{
    lemma_leading_numlike(s.drop_first());
    if i > 0 {
        assert forall|k: int|
            0 <= k <= i - 1 implies (('0' <= #[trigger] s.drop_first()[k] && s.drop_first()[k]
            <= '9') || s.drop_first()[k] == '.') by {
            assert(s.drop_first()[k] == s[k + 1]);
        }
        lemma_numlike_step(s.drop_first(), i - 1);
    }
}

proof fn lemma_numlike_exact(s: Seq<char>, i: int, n: int)
    requires
        n == s.len(),
        0 <= i <= n,
        i <= count_leading_numlike(s),
        i < n ==> !(('0' <= s[i] && s[i] <= '9') || s[i] == '.'),
    ensures
        count_leading_numlike(s) == i,
    decreases i,
{
    if i > 0 {
        lemma_numlike_exact(s.drop_first(), i - 1, n - 1);
    }
}

/// Tokens of a `spec length` field such as `C 10` or `BH 4.2`: the form
/// code as a keyword (or `invalid`) and the length as a number.
pub open spec fn spec_field_spec_tokens(t: Seq<char>, ln: int, fstart: int) -> Seq<
    crate::semantic_tokens::RawToken,
> {
    let alpha = count_leading_alpha(t);
    let form = t.subrange(0, alpha);
    let after = t.subrange(alpha, t.len() as int);
    let ws = crate::text::count_leading_ws(after);
    let rest = after.subrange(ws, after.len() as int);
    let num = count_leading_numlike(rest);
    let first = if alpha > 0 {
        seq![
            spec_tok(
                ln,
                fstart,
                alpha,
                if spec_is_valid_form(form) {
                    tt_keyword()
                } else {
                    tt_invalid()
                },
            ),
        ]
    } else {
        Seq::<crate::semantic_tokens::RawToken>::empty()
    };
    let second = if rest.len() > 0 && num > 0 {
        seq![spec_tok(ln, fstart + alpha + ws, num, tt_number())]
    } else {
        Seq::<crate::semantic_tokens::RawToken>::empty()
    };
    first + second
}

/// Emit the tokens of one trimmed `spec length` field.
pub fn tokenize_spec_field(
    field: &str,
    ln: usize,
    field_start: usize,
    out: &mut Vec<crate::semantic_tokens::RawToken>,
)
    requires
        field_start + field@.len() <= usize::MAX,
    ensures
        final(out)@ == old(out)@ + spec_field_spec_tokens(field@, ln as int, field_start as int),
{
    let n = field.unicode_len();
    let alpha = scan_leading_alpha(field);
    proof {
        lemma_leading_alpha(field@);
    }
    let form = field.substring_char(0, alpha);
    let after = field.substring_char(alpha, n);
    proof {
        assert(form@ =~= field@.subrange(0, alpha as int));
        assert(after@ =~= field@.subrange(alpha as int, field@.len() as int));
        crate::text::lemma_leading_ws(after@);
    }
    let mut ws: usize = 0;
    let alen = after.unicode_len();
    while ws < alen && crate::text::is_ws_exec(after.get_char(ws))
        invariant
            alen == after@.len(),
            ws <= alen,
            forall|k: int| 0 <= k < ws ==> crate::text::is_ws(#[trigger] after@[k]),
            ws <= crate::text::count_leading_ws(after@),
        decreases alen - ws,
    {
        proof {
            crate::text::lemma_leading_ws(after@);
            if ws + 1 > crate::text::count_leading_ws(after@) {
                assert(!crate::text::is_ws(after@[crate::text::count_leading_ws(after@)]));
            }
        }
        ws += 1;
    }
    proof {
        crate::text::lemma_leading_ws(after@);
    }
    let rest = after.substring_char(ws, alen);
    proof {
        assert(rest@ =~= after@.subrange(ws as int, after@.len() as int));
    }
    let num = scan_leading_numlike(rest);
    let ghost goal = spec_field_spec_tokens(field@, ln as int, field_start as int);
    if alpha > 0 {
        let tt = if is_valid_form(form) {
            3
        } else {
            11
        };
        out.push(
            crate::semantic_tokens::RawToken {
                line: #[verifier::truncate] (ln as u32),
                start: #[verifier::truncate] (field_start as u32),
                length: #[verifier::truncate] (alpha as u32),
                token_type: tt,
                modifiers: 0,
            },
        );
    }
    if rest.unicode_len() > 0 && num > 0 {
        out.push(
            crate::semantic_tokens::RawToken {
                line: #[verifier::truncate] (ln as u32),
                start: #[verifier::truncate] ((field_start + alpha + ws) as u32),
                length: #[verifier::truncate] (num as u32),
                token_type: 6,
                modifiers: 0,
            },
        );
    }
    proof {
        assert(final(out)@ =~= old(out)@ + goal);
    }
}

/// Leading run of digits.
pub open spec fn count_leading_digit(s: Seq<char>) -> int
    decreases s.len(),
{
    if s.len() == 0 {
        0
    } else if !('0' <= s[0] && s[0] <= '9') {
        0
    } else {
        1 + count_leading_digit(s.drop_first())
    }
}

pub proof fn lemma_leading_digit(s: Seq<char>)
    ensures
        0 <= count_leading_digit(s) <= s.len(),
    decreases s.len(),
{
    if s.len() > 0 && ('0' <= s[0] && s[0] <= '9') {
        lemma_leading_digit(s.drop_first());
    }
}

fn digit_at(s: &str, i: usize) -> (r: bool)
    requires
        i < s@.len(),
    ensures
        r == ('0' <= s@[i as int] && s@[i as int] <= '9'),
{
    let c = s.get_char(i);
    '0' <= c && c <= '9'
}

fn scan_leading_digit(s: &str) -> (r: usize)
    ensures
        r as int == count_leading_digit(s@),
{
    proof {
        lemma_leading_digit(s@);
    }
    let n = s.unicode_len();
    let mut i: usize = 0;
    while i < n && digit_at(s, i)
        invariant
            n == s@.len(),
            i <= n,
            forall|k: int| 0 <= k < i ==> ('0' <= #[trigger] s@[k] && s@[k] <= '9'),
            i <= count_leading_digit(s@),
        decreases n - i,
    {
        proof {
            lemma_digit_step(s@, i as int);
        }
        i += 1;
    }
    proof {
        lemma_digit_exact(s@, i as int, n as int);
    }
    i
}

proof fn lemma_digit_step(s: Seq<char>, i: int)
    requires
        0 <= i < s.len(),
        forall|k: int| 0 <= k <= i ==> ('0' <= #[trigger] s[k] && s[k] <= '9'),
    ensures
        count_leading_digit(s) >= i + 1,
    decreases i,
{
    lemma_leading_digit(s.drop_first());
    if i > 0 {
        assert forall|k: int|
            0 <= k <= i - 1 implies ('0' <= #[trigger] s.drop_first()[k] && s.drop_first()[k]
            <= '9') by {
            assert(s.drop_first()[k] == s[k + 1]);
        }
        lemma_digit_step(s.drop_first(), i - 1);
    }
}

proof fn lemma_digit_exact(s: Seq<char>, i: int, n: int)
    requires
        n == s.len(),
        0 <= i <= n,
        i <= count_leading_digit(s),
        i < n ==> !('0' <= s[i] && s[i] <= '9'),
    ensures
        count_leading_digit(s) == i,
    decreases i,
{
    if i > 0 {
        lemma_digit_exact(s.drop_first(), i - 1, n - 1);
    }
}

/// Tokens of a `recl=N` line: the keyword, then the number if one follows.
pub open spec fn spec_recl_tokens(line: Seq<char>, ln: int) -> Seq<crate::semantic_tokens::RawToken> {
    let lead = spec_leading_spaces(line);
    let t = spec_trim(line);
    let after = t.subrange(4, t.len() as int);
    let sep = count_leading_recl_sep(after);
    let rest = after.subrange(sep, after.len() as int);
    let num = count_leading_digit(rest);
    let first = seq![spec_tok(ln, lead, 4, tt_keyword())];
    if rest.len() > 0 && num > 0 {
        first + seq![spec_tok(ln, lead + 4 + sep, num, tt_number())]
    } else {
        first
    }
}

/// Emit the tokens of a (raw) `recl` line; the caller has established that
/// its trimmed text starts with the keyword.
pub fn tokenize_recl_line(line: &str, ln: usize, out: &mut Vec<crate::semantic_tokens::RawToken>)
    requires
        spec_trim(line@).len() >= 4,
        line@.len() + 4 <= usize::MAX,
    ensures
        final(out)@ == old(out)@ + spec_recl_tokens(line@, ln as int),
{
    let lead = leading_spaces(line);
    let t = trim(line);
    let tlen = t.unicode_len();
    proof {
        crate::text::lemma_trim_bounds(line@);
    }
    let after = t.substring_char(4, tlen);
    proof {
        assert(after@ =~= spec_trim(line@).subrange(4, spec_trim(line@).len() as int));
        lemma_leading_recl_sep(after@);
    }
    let alen = after.unicode_len();
    let mut sep: usize = 0;
    while sep < alen && recl_sep_at(after, sep)
        invariant
            alen == after@.len(),
            sep <= alen,
            forall|k: int| 0 <= k < sep ==> is_recl_sep(#[trigger] after@[k]),
            sep <= count_leading_recl_sep(after@),
        decreases alen - sep,
    {
        proof {
            lemma_leading_recl_sep(after@);
            if sep + 1 > count_leading_recl_sep(after@) {
                assert(!is_recl_sep(after@[count_leading_recl_sep(after@)]));
            }
        }
        sep += 1;
    }
    proof {
        lemma_leading_recl_sep(after@);
    }
    let rest = after.substring_char(sep, alen);
    proof {
        assert(rest@ =~= after@.subrange(sep as int, after@.len() as int));
    }
    let num = scan_leading_digit(rest);
    out.push(
        crate::semantic_tokens::RawToken {
            line: #[verifier::truncate] (ln as u32),
            start: #[verifier::truncate] (lead as u32),
            length: 4,
            token_type: 3,
            modifiers: 0,
        },
    );
    if rest.unicode_len() > 0 && num > 0 {
        out.push(
            crate::semantic_tokens::RawToken {
                line: #[verifier::truncate] (ln as u32),
                start: #[verifier::truncate] ((lead + 4 + sep) as u32),
                length: #[verifier::truncate] (num as u32),
                token_type: 6,
                modifiers: 0,
            },
        );
    }
    proof {
        assert(final(out)@ =~= old(out)@ + spec_recl_tokens(line@, ln as int));
    }
}

/// The tokens of a field line's parts from `idx` on: field name, then
/// description, then the `spec length` pair, then a trailing comment.
pub open spec fn spec_field_parts_tokens(parts: Seq<Seq<char>>, idx: int, col: int, ln: int) -> Seq<
    crate::semantic_tokens::RawToken,
>
    decreases parts.len() - idx when 0 <= idx
{
    if idx >= parts.len() {
        Seq::<crate::semantic_tokens::RawToken>::empty()
    } else {
        let part = parts[idx];
        let rest = spec_field_parts_tokens(parts, idx + 1, col + part.len() + 1, ln);
        let t = spec_trim(part);
        if t.len() > 0 && idx <= 3 {
            let lead = crate::text::count_leading_ws(part);
            let here = if idx == 0 {
                seq![spec_tok(ln, col + lead, t.len() as int, tt_variable())]
            } else if idx == 1 {
                seq![spec_tok(ln, col + lead, t.len() as int, tt_string())]
            } else if idx == 2 {
                spec_field_spec_tokens(t, ln, col + lead)
            } else {
                seq![spec_tok(ln, col + lead, t.len() as int, tt_comment())]
            };
            here + rest
        } else {
            rest
        }
    }
}

/// Emit the tokens of a field line, already split into at most four parts.
pub fn tokenize_field_line(
    parts: &Vec<String>,
    ln: usize,
    out: &mut Vec<crate::semantic_tokens::RawToken>,
)
    requires
        crate::parser::sum_lens(strs_view(parts@), parts@.len() as int) + parts@.len()
            <= usize::MAX,
    ensures
        final(out)@ == old(out)@ + spec_field_parts_tokens(strs_view(parts@), 0, 0, ln as int),
{
    let n = parts.len();
    let mut idx: usize = 0;
    let mut col: usize = 0;
    proof {
        assert(out@ + spec_field_parts_tokens(strs_view(parts@), 0, 0, ln as int) =~= out@
            + spec_field_parts_tokens(strs_view(parts@), 0, 0, ln as int));
    }
    while idx < n
        invariant
            n == parts@.len(),
            idx <= n,
            out@ + spec_field_parts_tokens(strs_view(parts@), idx as int, col as int, ln as int)
                == old(out)@ + spec_field_parts_tokens(strs_view(parts@), 0, 0, ln as int),
            crate::parser::sum_lens(strs_view(parts@), parts@.len() as int) + parts@.len()
                <= usize::MAX,
            col as int == crate::parser::sum_lens(strs_view(parts@), idx as int) + idx,
        decreases n - idx,
    {
        let ghost rest_eq = spec_field_parts_tokens(
            strs_view(parts@),
            idx as int,
            col as int,
            ln as int,
        );
        let part = &parts[idx];
        let plen = part.as_str().unicode_len();
        proof {
            assert(strs_view(parts@)[idx as int] == parts@[idx as int]@);
            crate::parser::lemma_sum_lens_snoc(strs_view(parts@), idx as int);
            crate::parser::lemma_sum_lens_mono(strs_view(parts@), idx + 1, parts@.len() as int);
            crate::text::lemma_trim_bounds(parts@[idx as int]@);
            crate::text::lemma_leading_ws(parts@[idx as int]@);
        }
        let t = trim(part.as_str());
        let tlen = t.unicode_len();
        if tlen > 0 && idx <= 3 {
            let lead = leading_spaces(part.as_str());
            if idx == 0 || idx == 1 || idx == 3 {
                let tt: u32 = if idx == 0 {
                    1
                } else if idx == 1 {
                    5
                } else {
                    4
                };
                let ghost pre = out@;
                out.push(
                    crate::semantic_tokens::RawToken {
                        line: #[verifier::truncate] (ln as u32),
                        start: #[verifier::truncate] ((col + lead) as u32),
                        length: #[verifier::truncate] (tlen as u32),
                        token_type: tt,
                        modifiers: 0,
                    },
                );
                proof {
                    assert(out@ =~= pre.push(out@.last()));
                    assert(out@ + spec_field_parts_tokens(
                        strs_view(parts@),
                        idx + 1,
                        col + parts@[idx as int]@.len() + 1,
                        ln as int,
                    ) =~= pre + rest_eq);
                }
            } else {
                let ghost pre = out@;
                tokenize_spec_field(t, ln, col + lead, out);
                proof {
                    assert(out@ + spec_field_parts_tokens(
                        strs_view(parts@),
                        idx + 1,
                        col + parts@[idx as int]@.len() + 1,
                        ln as int,
                    ) =~= pre + rest_eq);
                }
            }
        }
        col = col + plen + 1;
        idx += 1;
    }
    proof {
        assert(out@ + Seq::<crate::semantic_tokens::RawToken>::empty() =~= out@);
    }
}

/// Tokens of one raw line under the machine state, and the state after it.
pub open spec fn spec_line_tokens(state: int, line: Seq<char>, ln: int) -> (
    Seq<crate::semantic_tokens::RawToken>,
    int,
) {
    let t = spec_trim(line);
    let lead = spec_leading_spaces(line);
    if state == 3 {
        if line.len() > 0 {
            (seq![spec_tok(ln, 0, line.len() as int, tt_comment())], 3int)
        } else {
            (Seq::<crate::semantic_tokens::RawToken>::empty(), 3int)
        }
    } else if t.len() > 0 && t[0] == '!' {
        (seq![spec_tok(ln, lead, line.len() - lead, tt_comment())], state)
    } else if lower_seq(t) == lower_seq("#eof#"@) {
        (seq![spec_tok(ln, lead, t.len() as int, tt_comment())], 3int)
    } else if t.len() == 0 {
        (Seq::<crate::semantic_tokens::RawToken>::empty(), state)
    } else if state == 0 {
        (
            spec_parts_tokens(
                crate::text::spec_splitn(line, 3, ','),
                0,
                0,
                ln,
                seq![tt_string(), tt_string(), tt_number()],
            ),
            1int,
        )
    } else if state == 1 {
        if spec_is_separator(t) {
            (seq![spec_tok(ln, lead, t.len() as int, tt_comment())], 2int)
        } else if crate::text::spec_starts_with(lower_seq(t), lower_seq("recl"@)) {
            (spec_recl_tokens(line, ln), 1int)
        } else {
            (
                spec_parts_tokens(
                    crate::text::spec_split(line, ','),
                    0,
                    0,
                    ln,
                    seq![tt_string(), tt_variable()],
                ),
                1int,
            )
        }
    } else {
        (
            spec_field_parts_tokens(crate::text::spec_splitn(line, 4, ','), 0, 0, ln),
            2int,
        )
    }
}

/// All tokens of the lines from `i` on, starting in `state`.
pub open spec fn spec_layout_tokens_from(lines: Seq<Seq<char>>, i: int, state: int) -> Seq<
    crate::semantic_tokens::RawToken,
>
    decreases lines.len() - i when 0 <= i
{
    if i >= lines.len() {
        Seq::<crate::semantic_tokens::RawToken>::empty()
    } else {
        let step = spec_line_tokens(state, lines[i], i);
        step.0 + spec_layout_tokens_from(lines, i + 1, step.1)
    }
}

/// Semantic tokens of a whole layout file: the state machine's raw tokens
/// in document order, delta-encoded.
pub fn collect_layout_tokens(source: &str) -> (r: Vec<crate::semantic_tokens::SemanticToken>)
    requires
        source@.len() < usize::MAX - 4,
    ensures
        r@ == crate::semantic_tokens::spec_deltas(
            crate::semantic_tokens::spec_sort_tokens(
                spec_layout_tokens_from(spec_lines(source@), 0, 0),
            ),
            0,
            0,
        ),
{
    let lines = split_lines(source);
    let ghost slines = spec_lines(source@);
    let n = lines.len();
    let mut raw: Vec<crate::semantic_tokens::RawToken> = Vec::new();
    let mut state: u8 = 0;
    let mut ln: usize = 0;
    proof {
        assert(raw@ + spec_layout_tokens_from(slines, 0, 0) =~= spec_layout_tokens_from(
            slines,
            0,
            0,
        ));
    }
    while ln < n
        invariant
            n == lines@.len(),
            strs_view(lines@) == slines,
            slines == spec_lines(source@),
            source@.len() < usize::MAX - 4,
            ln <= n,
            state <= 3,
            raw@ + spec_layout_tokens_from(slines, ln as int, state as int)
                == spec_layout_tokens_from(slines, 0, 0),
        decreases n - ln,
    {
        let ghost rest_eq = spec_layout_tokens_from(slines, ln as int, state as int);
        let ghost step = spec_line_tokens(state as int, slines[ln as int], ln as int);
        let line = &lines[ln];
        proof {
            assert(lines@[ln as int]@ == slines[ln as int]);
            crate::parser::lemma_sum_lens_bound(source@, slines, ln as int);
            crate::parser::lemma_sum_lens_snoc(slines, ln as int);
            crate::parser::lemma_sum_lens_bound(source@, slines, ln + 1);
            crate::parser::lemma_sum_lens_mono(slines, 0, ln as int);
            crate::text::lemma_trim_bounds(slines[ln as int]);
        }
        let llen = line.as_str().unicode_len();
        let t = trim(line.as_str());
        let tlen = t.unicode_len();
        let lead = leading_spaces(line.as_str());
        let ghost pre = raw@;
        if state == 3 {
            if llen > 0 {
                raw.push(
                    crate::semantic_tokens::RawToken {
                        line: #[verifier::truncate] (ln as u32),
                        start: 0,
                        length: #[verifier::truncate] (llen as u32),
                        token_type: 4,
                        modifiers: 0,
                    },
                );
                proof {
                    assert(raw@ =~= pre.push(raw@.last()));
                    assert(raw@ =~= pre + step.0);
                }
            }
        } else if tlen > 0 && t.get_char(0) == '!' {
            raw.push(
                crate::semantic_tokens::RawToken {
                    line: #[verifier::truncate] (ln as u32),
                    start: #[verifier::truncate] (lead as u32),
                    length: #[verifier::truncate] ((llen - lead) as u32),
                    token_type: 4,
                    modifiers: 0,
                },
            );
            proof {
                assert(raw@ =~= pre.push(raw@.last()));
                assert(raw@ =~= pre + step.0);
            }
        } else if eq_ignore_case(t, "#eof#") {
            raw.push(
                crate::semantic_tokens::RawToken {
                    line: #[verifier::truncate] (ln as u32),
                    start: #[verifier::truncate] (lead as u32),
                    length: #[verifier::truncate] (tlen as u32),
                    token_type: 4,
                    modifiers: 0,
                },
            );
            state = 3;
            proof {
                assert(raw@ =~= pre.push(raw@.last()));
                assert(raw@ =~= pre + step.0);
            }
        } else if tlen == 0 {
        } else if state == 0 {
            let parts = splitn_on(line.as_str(), 3, ',');
            let mut tts: Vec<u32> = Vec::new();
            tts.push(5);
            tts.push(5);
            tts.push(6);
            proof {
                crate::parser::lemma_splitn_sum(slines[ln as int], 3, ',');
                assert(tts@ =~= seq![tt_string(), tt_string(), tt_number()]);
            }
            parts_tokens(&parts, ln, &tts, &mut raw);
            state = 1;
            proof {
                assert(raw@ =~= pre + step.0);
            }
        } else if state == 1 {
            if is_separator(t) {
                raw.push(
                    crate::semantic_tokens::RawToken {
                        line: #[verifier::truncate] (ln as u32),
                        start: #[verifier::truncate] (lead as u32),
                        length: #[verifier::truncate] (tlen as u32),
                        token_type: 4,
                        modifiers: 0,
                    },
                );
                state = 2;
                proof {
                    assert(raw@ =~= pre.push(raw@.last()));
                    assert(raw@ =~= pre + step.0);
                }
            } else if starts_with_ignore_case(t, "recl") {
                proof {
                    assert(lower_seq(spec_trim(slines[ln as int])).len() >= lower_seq(
                        "recl"@,
                    ).len());
                    reveal_strlit("recl");
                }
                tokenize_recl_line(line.as_str(), ln, &mut raw);
                proof {
                    assert(raw@ =~= pre + step.0);
                }
            } else {
                let parts = split_on(line.as_str(), ',');
                let mut tts: Vec<u32> = Vec::new();
                tts.push(5);
                tts.push(1);
                proof {
                    crate::parser::lemma_split_sum_pub(slines[ln as int], ',');
                    assert(tts@ =~= seq![tt_string(), tt_variable()]);
                }
                parts_tokens(&parts, ln, &tts, &mut raw);
                proof {
                    assert(raw@ =~= pre + step.0);
                }
            }
        } else {
            let parts = splitn_on(line.as_str(), 4, ',');
            proof {
                crate::parser::lemma_splitn_sum(slines[ln as int], 4, ',');
            }
            tokenize_field_line(&parts, ln, &mut raw);
            proof {
                assert(raw@ =~= pre + step.0);
            }
        }
        proof {
            assert(rest_eq == step.0 + spec_layout_tokens_from(slines, ln + 1, step.1));
            assert(raw@ + spec_layout_tokens_from(slines, ln + 1, step.1) =~= pre + rest_eq);
            assert(state as int == step.1);
        }
        ln += 1;
    }
    proof {
        assert(raw@ + Seq::<crate::semantic_tokens::RawToken>::empty() =~= raw@);
    }
    crate::semantic_tokens::encode_deltas(raw)
}

} // verus!
