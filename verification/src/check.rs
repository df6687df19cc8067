//! Batch checking: per-file diagnostics rendered as CSV.
//!
//! The embedding program walks the files and parses them; here live the
//! diagnostic records decoupled from the protocol, the one-based position
//! conversion and the CSV rendering with its quoting rules.

use vstd::prelude::*;
use vstd::string::*;

use crate::builtins::BuiltinTable;
use crate::parser::{diag_view, diags_view, DiagV};
use crate::text::{push_char, spec_dec, usize_to_string, u32_to_string};
use crate::tree::SyntaxTree;
use crate::types::{Diagnostic, Range, Severity};

verus! {

/// One reported problem, tied to a file path and one-based positions.
#[derive(Clone, Debug)]
pub struct FileDiagnostic {
    pub file: String,
    pub line: u32,
    pub column: u32,
    pub end_line: u32,
    pub end_column: u32,
    pub severity: String,
    pub message: String,
}

pub ghost struct FileDiagV {
    pub file: Seq<char>,
    pub line: u32,
    pub column: u32,
    pub end_line: u32,
    pub end_column: u32,
    pub severity: Seq<char>,
    pub message: Seq<char>,
}

pub open spec fn file_diag_view(d: FileDiagnostic) -> FileDiagV {
    FileDiagV {
        file: d.file@,
        line: d.line,
        column: d.column,
        end_line: d.end_line,
        end_column: d.end_column,
        severity: d.severity@,
        message: d.message@,
    }
}

/// The wire word for a severity.
pub open spec fn spec_severity_str(s: Severity) -> Seq<char> {
    match s {
        Severity::Error => "error"@,
        Severity::Warning => "warning"@,
        Severity::Information => "information"@,
        Severity::Hint => "hint"@,
    }
}

pub fn severity_str(s: Severity) -> (r: &'static str)
    ensures
        r@ == spec_severity_str(s),
{
    match s {
        Severity::Error => "error",
        Severity::Warning => "warning",
        Severity::Information => "information",
        Severity::Hint => "hint",
    }
}

/// One-based positions of a range, saturating at the integer limit.
pub open spec fn spec_one_based(x: u32) -> u32 {
    if x == u32::MAX {
        x
    } else {
        (x + 1) as u32
    }
}

pub fn range_to_1based(range: &Range) -> (r: (u32, u32, u32, u32))
    ensures
        r.0 == spec_one_based(range.start.line),
        r.1 == spec_one_based(range.start.character),
        r.2 == spec_one_based(range.end.line),
        r.3 == spec_one_based(range.end.character),
{
    let a = if range.start.line == u32::MAX {
        range.start.line
    } else {
        range.start.line + 1
    };
    let b = if range.start.character == u32::MAX {
        range.start.character
    } else {
        range.start.character + 1
    };
    let c = if range.end.line == u32::MAX {
        range.end.line
    } else {
        range.end.line + 1
    };
    let d = if range.end.character == u32::MAX {
        range.end.character
    } else {
        range.end.character + 1
    };
    (a, b, c, d)
}

/// Does a CSV value need quoting: does it hold a comma, a quote or a
/// newline?
pub open spec fn spec_needs_quoting(s: Seq<char>) -> bool {
    exists|i: int| 0 <= i < s.len() && ((#[trigger] s[i]) == ',' || s[i] == '"' || s[i] == '\n')
}

/// Each quote doubled.
pub open spec fn spec_double_quotes(s: Seq<char>) -> Seq<char>
    decreases s.len(),
{
    if s.len() == 0 {
        Seq::<char>::empty()
    } else if s.last() == '"' {
        spec_double_quotes(s.drop_last()).push('"').push('"')
    } else {
        spec_double_quotes(s.drop_last()).push(s.last())
    }
}

/// The CSV form of one value: unchanged, or wrapped in quotes with inner
/// quotes doubled when it holds a comma, quote or newline.
pub open spec fn spec_csv_escape(s: Seq<char>) -> Seq<char> {
    if spec_needs_quoting(s) {
        seq!['"'] + spec_double_quotes(s) + seq!['"']
    } else {
        s
    }
}

/// Escape one CSV value.
pub fn csv_escape(value: &str) -> (r: String)
    ensures
        r@ == spec_csv_escape(value@),
{
    let n = value.unicode_len();
    let mut needs = false;
    let mut i: usize = 0;
    while i < n
        invariant
            n == value@.len(),
            i <= n,
            needs == exists|k: int|
                0 <= k < i && ((#[trigger] value@[k]) == ',' || value@[k] == '"' || value@[k]
                    == '\n'),
        decreases n - i,
    {
        let c = value.get_char(i);
        if c == ',' || c == '"' || c == '\n' {
            needs = true;
        }
        i += 1;
    }
    if !needs {
        proof {
            if spec_needs_quoting(value@) {
                let w = choose|k: int|
                    0 <= k < value@.len() && ((#[trigger] value@[k]) == ',' || value@[k] == '"'
                        || value@[k] == '\n');
                assert(false);
            }
        }
        return crate::text::substring_owned(value, 0, n);
    }
    let mut out = String::new();
    push_char(&mut out, '"');
    let mut i: usize = 0;
    while i < n
        invariant
            n == value@.len(),
            i <= n,
            out@ == seq!['"'] + spec_double_quotes(value@.subrange(0, i as int)),
        decreases n - i,
    {
        let c = value.get_char(i);
        proof {
            assert(value@.subrange(0, i + 1).drop_last() =~= value@.subrange(0, i as int));
            assert(value@.subrange(0, i + 1).last() == value@[i as int]);
        }
        if c == '"' {
            push_char(&mut out, '"');
            push_char(&mut out, '"');
        } else {
            push_char(&mut out, c);
        }
        proof {
            assert(out@ =~= seq!['"'] + spec_double_quotes(value@.subrange(0, i + 1)));
        }
        i += 1;
    }
    push_char(&mut out, '"');
    proof {
        assert(value@.subrange(0, n as int) =~= value@);
        assert(out@ =~= seq!['"'] + spec_double_quotes(value@) + seq!['"']);
    }
    out
}

/// One CSV line of a record: the seven escaped fields joined by commas,
/// with a trailing newline.
pub open spec fn spec_csv_line(d: FileDiagV) -> Seq<char> {
    spec_csv_escape(d.file) + seq![','] + spec_dec(d.line as nat) + seq![','] + spec_dec(
        d.column as nat,
    ) + seq![','] + spec_dec(d.end_line as nat) + seq![','] + spec_dec(d.end_column as nat)
        + seq![','] + d.severity + seq![','] + spec_csv_escape(d.message) + seq!['\n']
}

/// The whole report: the fixed header line, then one line per record.
pub open spec fn spec_csv_lines(ds: Seq<FileDiagV>) -> Seq<char>
    decreases ds.len(),
{
    if ds.len() == 0 {
        Seq::<char>::empty()
    } else {
        spec_csv_lines(ds.drop_last()) + spec_csv_line(ds.last())
    }
}

pub open spec fn spec_csv_header() -> Seq<char> {
    "file,line,column,end_line,end_column,severity,message\n"@
}

pub open spec fn file_diags_view(ds: Seq<FileDiagnostic>) -> Seq<FileDiagV> {
    ds.map_values(|d: FileDiagnostic| file_diag_view(d))
}

/// Render one record as a CSV line.
fn format_csv_line(d: &FileDiagnostic) -> (r: String)
    ensures
        r@ == spec_csv_line(file_diag_view(*d)),
{
    let mut out = String::new();
    let f = csv_escape(d.file.as_str());
    out.append(f.as_str());
    out.append(",");
    let l = u32_to_string(d.line);
    out.append(l.as_str());
    out.append(",");
    let c = u32_to_string(d.column);
    out.append(c.as_str());
    out.append(",");
    let el = u32_to_string(d.end_line);
    out.append(el.as_str());
    out.append(",");
    let ec = u32_to_string(d.end_column);
    out.append(ec.as_str());
    out.append(",");
    out.append(d.severity.as_str());
    out.append(",");
    let m = csv_escape(d.message.as_str());
    out.append(m.as_str());
    out.append("\n");
    proof {
        reveal_strlit(",");
        reveal_strlit("\n");
        assert(","@ =~= seq![',']);
        assert("\n"@ =~= seq!['\n']);
        assert(out@ =~= spec_csv_line(file_diag_view(*d)));
    }
    out
}

/// Render diagnostics as CSV with the fixed header.
pub fn format_csv(diagnostics: &Vec<FileDiagnostic>) -> (r: String)
    ensures
        r@ == spec_csv_header() + spec_csv_lines(file_diags_view(diagnostics@)),
{
    let mut out = String::new();
    out.append("file,line,column,end_line,end_column,severity,message\n");
    let n = diagnostics.len();
    let mut i: usize = 0;
    proof {
        assert(out@ =~= spec_csv_header() + spec_csv_lines(
            file_diags_view(diagnostics@).subrange(0, 0),
        ));
    }
    while i < n
        invariant
            n == diagnostics@.len(),
            i <= n,
            out@ == spec_csv_header() + spec_csv_lines(
                file_diags_view(diagnostics@).subrange(0, i as int),
            ),
        decreases n - i,
    {
        let d = &diagnostics[i];
        let line = format_csv_line(d);
        out.append(line.as_str());
        proof {
            let v = file_diags_view(diagnostics@);
            assert(v.subrange(0, i + 1).drop_last() =~= v.subrange(0, i as int));
            assert(v.subrange(0, i + 1).last() == v[i as int]);
            assert(out@ =~= spec_csv_header() + spec_csv_lines(v.subrange(0, i + 1)));
        }
        i += 1;
    }
    proof {
        assert(file_diags_view(diagnostics@).subrange(0, n as int) =~= file_diags_view(
            diagnostics@,
        ));
    }
    out
}

/// The one-based, severity-worded records of one checked file's
/// diagnostics.
pub open spec fn spec_file_records(file: Seq<char>, ds: Seq<DiagV>) -> Seq<FileDiagV> {
    ds.map_values(
        |d: DiagV|
            FileDiagV {
                file: file,
                line: spec_one_based(d.range.start.line),
                column: spec_one_based(d.range.start.character),
                end_line: spec_one_based(d.range.end.line),
                end_column: spec_one_based(d.range.end.character),
                severity: spec_severity_str(d.severity),
                message: d.message,
            },
    )
}

/// Convert one file's diagnostics into file records.
pub fn to_file_diagnostics(file: &str, diags: &Vec<Diagnostic>) -> (r: Vec<FileDiagnostic>)
    ensures
        file_diags_view(r@) == spec_file_records(file@, diags_view(diags@)),
{
    let n = diags.len();
    let mut out: Vec<FileDiagnostic> = Vec::new();
    let mut i: usize = 0;
    proof {
        assert(file_diags_view(out@) =~= spec_file_records(file@, diags_view(diags@)).subrange(
            0,
            0,
        ));
    }
    while i < n
        invariant
            n == diags@.len(),
            i <= n,
            file_diags_view(out@) == spec_file_records(file@, diags_view(diags@)).subrange(
                0,
                i as int,
            ),
        decreases n - i,
    {
        let d = &diags[i];
        let pos = range_to_1based(&d.range);
        let mut f = String::new();
        f.append(file);
        let mut sev = String::new();
        sev.append(severity_str(d.severity));
        let msg = crate::text::substring_owned(d.message.as_str(), 0, d.message.as_str().unicode_len());
        let ghost pre = out@;
        out.push(
            FileDiagnostic {
                file: f,
                line: pos.0,
                column: pos.1,
                end_line: pos.2,
                end_column: pos.3,
                severity: sev,
                message: msg,
            },
        );
        proof {
            let v = spec_file_records(file@, diags_view(diags@));
            assert(file_diag_view(out@.last()).file =~= file@);
            assert(file_diag_view(out@.last()).message =~= diags_view(diags@)[i as int].message);
            assert(file_diag_view(out@.last()).severity =~= spec_severity_str(
                diags_view(diags@)[i as int].severity,
            ));
            assert(file_diag_view(out@.last()) == v[i as int]);
            assert(file_diags_view(out@) =~= file_diags_view(pre).push(
                file_diag_view(out@.last()),
            ));
            assert(file_diags_view(out@) =~= v.subrange(0, i + 1));
        }
        i += 1;
    }
    proof {
        assert(spec_file_records(file@, diags_view(diags@)).subrange(0, n as int)
            =~= spec_file_records(file@, diags_view(diags@)));
    }
    out
}

/// Check one parsed file: its syntax diagnostics, then the structural
/// checks, as one-based file records.
pub fn check_source(
    file: &str,
    tree: &SyntaxTree,
    source: &str,
    table: &BuiltinTable,
) -> (r: Vec<FileDiagnostic>)
    requires
        tree.wf(),
    ensures
        file_diags_view(r@) == spec_file_records(
            file@,
            crate::parser::spec_error_diags(*tree, 0, source@) + crate::diagnostics::spec_missing_fnend(
                *tree,
                source@,
            ) + crate::diagnostics::spec_duplicate_fold(
                crate::diagnostics::spec_named_defs(*tree, 0, source@),
                Seq::<Seq<char>>::empty(),
            ) + crate::diagnostics::spec_param_count_diags(
                *tree,
                source@,
                crate::extract::spec_defs(*tree, 0, source@),
                table.spec_funcs(),
                0,
            ),
        ),
{
    let mut diags = crate::parser::collect_diagnostics(tree, source);
    let mut more = crate::diagnostics::collect_function_diagnostics(tree, source, table);
    let ghost a = diags@;
    let ghost b = more@;
    diags.append(&mut more);
    proof {
        assert(diags@ =~= a + b);
        assert(diags_view(a + b) =~= diags_view(a) + diags_view(b));
    }
    let r = to_file_diagnostics(file, &diags);
    proof {
        assert(diags_view(a) + diags_view(b) =~= crate::parser::spec_error_diags(
            *tree,
            0,
            source@,
        ) + crate::diagnostics::spec_missing_fnend(*tree, source@)
            + crate::diagnostics::spec_duplicate_fold(
            crate::diagnostics::spec_named_defs(*tree, 0, source@),
            Seq::<Seq<char>>::empty(),
        ) + crate::diagnostics::spec_param_count_diags(
            *tree,
            source@,
            crate::extract::spec_defs(*tree, 0, source@),
            table.spec_funcs(),
            0,
        ));
    }
    r
}

} // verus!
