//! Completion lists: statements, keywords, built-ins, local variables and
//! functions, and workspace functions.

use vstd::prelude::*;
use vstd::string::*;

use crate::builtins::BuiltinTable;
use crate::extract::{FunctionDef, spec_defs, defs_view};
use crate::text::{eq_ignore_case, lower_seq};
use crate::tree::{spec_node_text, SyntaxTree};
use crate::workspace::WorkspaceIndex;

verus! {

/// The completion categories the server offers.
#[derive(Clone, Copy, PartialEq, Eq, Structural, Debug)]
pub enum CompletionItemKind {
    Keyword,
    Function,
    Variable,
}

/// The payload a completion carries for lazy documentation resolution.
pub enum CompletionData {
    Builtin { name: String, overload: usize },
    Local { name: String, uri: String },
    Workspace { name: String },
}

/// One completion offer.
pub struct CompletionItem {
    pub label: String,
    pub kind: CompletionItemKind,
    pub detail: Option<String>,
    pub documentation: Option<String>,
    /// File name shown beside workspace functions.
    pub filename: Option<String>,
    pub data: Option<CompletionData>,
}

fn some_str(s: &str) -> (r: Option<String>)
    ensures
        crate::text::opt_view(r) == Some(s@),
{
    let mut o = String::new();
    o.append(s);
    proof {
        assert(o@ =~= s@);
    }
    Some(o)
}

fn push_statement(out: &mut Vec<CompletionItem>, name: &str, desc: &str, doc: &str, url: &str, example: &str)
    ensures
        final(out)@.len() == old(out)@.len() + 1,
        final(out)@.subrange(0, old(out)@.len() as int) == old(out)@,
        final(out)@.last().label@ == name@,
        final(out)@.last().kind == CompletionItemKind::Keyword,
{
    let mut label = String::new();
    label.append(name);
    proof {
        assert(label@ =~= name@);
    }
    let detail = if desc.unicode_len() > 0 {
        some_str(desc)
    } else {
        None
    };
    // The documentation joins the free text, a link to the reference page
    // and the example snippet, when present.
    let mut md = String::new();
    let mut any = false;
    if doc.unicode_len() > 0 {
        md.append(doc);
        any = true;
    }
    if url.unicode_len() > 0 {
        if any {
            md.append("\n\n");
        }
        md.append("[Documentation](");
        md.append(url);
        md.append(")");
        any = true;
    }
    if example.unicode_len() > 0 {
        if any {
            md.append("\n\n");
        }
        md.append("```br\n");
        md.append(example);
        md.append("\n```");
        any = true;
    }
    let documentation = if any {
        Some(md)
    } else {
        None
    };
    let ghost pre = out@;
    out.push(
        CompletionItem {
            label,
            kind: CompletionItemKind::Keyword,
            detail,
            documentation,
            filename: None,
            data: None,
        },
    );
    proof {
        assert(out@.subrange(0, pre.len() as int) =~= pre);
    }
}

fn push_keyword(out: &mut Vec<CompletionItem>, name: &str, doc: &str)
    ensures
        final(out)@.len() == old(out)@.len() + 1,
        final(out)@.subrange(0, old(out)@.len() as int) == old(out)@,
        final(out)@.last().label@ == name@,
        final(out)@.last().kind == CompletionItemKind::Keyword,
{
    let mut label = String::new();
    label.append(name);
    proof {
        assert(label@ =~= name@);
    }
    let documentation = if doc.unicode_len() > 0 {
        some_str(doc)
    } else {
        None
    };
    let ghost pre = out@;
    out.push(
        CompletionItem {
            label,
            kind: CompletionItemKind::Keyword,
            detail: None,
            documentation,
            filename: None,
            data: None,
        },
    );
    proof {
        assert(out@.subrange(0, pre.len() as int) =~= pre);
    }
}

/// The fixed statement completions, in their catalog order.
#[verifier::rlimit(100)]
pub fn statement_completions() -> (r: Vec<CompletionItem>)
    ensures
        r@.len() == 45,
        forall|i: int| 0 <= i < r@.len() ==> (#[trigger] r@[i]).kind == CompletionItemKind::Keyword,
{
    let mut out: Vec<CompletionItem> = Vec::new();
    push_statement(&mut out, "do", "", "", "", "");
    push_statement(&mut out, "loop", "", "", "", "");
    push_statement(&mut out, "if", "", "", "", "");
    push_statement(&mut out, "end if", "", "", "", "");
    push_statement(&mut out, "def", "Def Statement", "Defines function.", "http://www.brwiki.com/index.php?title=Def", "def fnfoo(bar)\n\t! body\nfnend");
    push_statement(&mut out, "def library", "Def Library Fn ... fnend", "Define library function", "http://www.brwiki.com/index.php?title=Def", "");
    push_statement(&mut out, "Chain", "Chain {<program name>|\"PROC=<name>\"|\"SUPROC=<name>\"} ...", "Loads and Runs the target program, immediately ending the current program. Optionally passes variables and files into the called program.", "http://brwiki2.brulescorp.com/index.php?title=Chain", "");
    push_statement(&mut out, "Close", "Close {#<file/window number>} [,Free|Drop] [, ...] :", "The Close (CL) statement deactivates access to a data or window file for input or output.", "http://www.brwiki.com/index.php?search=Close", "");
    proof {
        assert(out@.len() == 8);
    }
    push_statement(&mut out, "Continue", "Continue Statement", "Jumps to the line following the line that had the most recent error. Used to continue in an Error Handler.", "http://www.brwiki.com/index.php?search=Continue", "");
    push_statement(&mut out, "Data", "Data {\"<string constant>\"|<numeric constant>}[,...]", "The Data statement can be used to populate the values of variables.", "http://www.brwiki.com/index.php?search=Data", "");
    push_statement(&mut out, "Delete", "Delete", "Deletes the currently locked record from the identified data file..", "http://brwiki2.brulescorp.com/index.php?title=Delete_(statement)", "");
    push_statement(&mut out, "Dim", "Dim", "Declares Variables and Arrays. Arrays must be declared if they have other then 10 messages.", "http://www.brwiki.com/index.php?search=Dim", "");
    push_statement(&mut out, "Display", "Display [Menu|Buttons] ...", "Display or Update the Windows Menu, or the Button Rows.", "http://www.brwiki.com/index.php?search=Display", "");
    push_statement(&mut out, "End", "End", "Ends your program (continuing with any proc files that ran your program, or stopping if your program wasn't run from a proc.)", "http://www.brwiki.com/index.php?search=End", "");
    push_statement(&mut out, "Execute", "Execute \"BR Command\"", "Executes a Command from within one of your programs.", "http://www.brwiki.com/index.php?search=Execute", "");
    push_statement(&mut out, "Exit", "Exit <error condition line ref>[,...]", "Works in conjunction with the Exit error condition to list a bunch of error handlers in one place.", "http://brwiki2.brulescorp.com/index.php?title=Exit", "");
    proof {
        assert(out@.len() == 16);
    }
    push_statement(&mut out, "Exit Do", "Exit Do Statement", "Jumps out of a do loop to the line following the loop.", "http://brwiki2.brulescorp.com/index.php?title=Exit_do", "");
    push_statement(&mut out, "Fnend", "Fnend Statement", "The FnEnd (FN) and End Def statements indicates the end of a definition of a multi-lined user defined function.", "http://brwiki2.brulescorp.com/index.php?title=Fnend", "");
    push_statement(&mut out, "Print", "Print Statement", "Prints a line to the console, or to a specific file.", "http://www.brwiki.com/index.php?search=Print", "");
    push_statement(&mut out, "Input", "Input <Variables>", "Reads text from the user or from a display file (like a text file). It can also read text from a proc file, if the program is called from a proc.", "http://www.brwiki.com/index.php?search=Input", "");
    push_statement(&mut out, "Linput", "Linput <StringVariable>", "Reads a line of text from a display file. This is useful for parsing CSV files and other files generated by external applications.", "http://www.brwiki.com/index.php?search=Linput", "");
    push_statement(&mut out, "Input", "Input Fields", "Activates a bunch of controls on the screen and pauses execution, allowing the user to interact with them. This is the primary way that BR programs interact with the User.", "http://brwiki2.brulescorp.com/index.php?title=Input_Fields", "");
    push_statement(&mut out, "Rinput", "Rinput Fields", "Updates and then activates a bunch of controls on the screen and pauses execution, allowing the user to interact with them. This is the primary way that BR programs interact with the User.", "http://www.brwiki.com/index.php?search=Rinput", "");
    push_statement(&mut out, "Input", "Input Select", "Activates a bunch of controls and allows the user to select one of them.", "http://brwiki2.brulescorp.com/index.php?title=Input_Select", "");
    proof {
        assert(out@.len() == 24);
    }
    push_statement(&mut out, "Rinput", "Rinput Select", "Activates and Displays a bunch of controls and allows the user to select one of them.", "http://brwiki2.brulescorp.com/index.php?title=Rinput_select", "");
    push_statement(&mut out, "For", "Form", "The Form statement is used in conjunction with PRINT, WRITE, REWRITE, READ or REREAD statements to format input or output. FORM controls the size, location, field length and format of input or output.", "http://www.brwiki.com/index.php?search=Form", "");
    push_statement(&mut out, "Gosub", "Gosub <LineLabel/LineNumber>", "Calls a subroutine, which runs until it encounters a return statement, at which point it returns here.", "http://www.brwiki.com/index.php?search=Gosub", "");
    push_statement(&mut out, "Goto", "Goto <LineLabel/LineNumber>", "Jumps to the target line and continues running from there. (Try not to use Goto Statements. This is not the 80s.).", "http://www.brwiki.com/index.php?search=Goto", "");
    push_statement(&mut out, "Library", "Library \"<Library>\" : <fnFunction1> [, fnFunction2] [, ...]", "Loads a BR Libary, allowing access to the library functions in it.", "http://www.brwiki.com/index.php?search=Library", "");
    push_statement(&mut out, "Mat", "Mat <array name> [(<dimension>[,...])] = ....", "The Mat statement is used for working with Arrays. Its used to resize arrays, sort them (in conjunction with AIDX or DIDX), copy them, and process them in lots of other ways.", "http://www.brwiki.com/index.php?search=Mat", "");
    push_statement(&mut out, "On", "On Statement", "", "", "");
    push_statement(&mut out, "Open", "Open #<FileNumber> \"Name=...\"", "Opens a file or window or http connection or comm port.", "http://www.brwiki.com/index.php?search=Open", "");
    proof {
        assert(out@.len() == 32);
    }
    push_statement(&mut out, "Pause", "Pause", "Pauses program execution allows the programmer to interact with the program in the Command Console.", "http://brwiki2.brulescorp.com/index.php?title=Pause", "");
    push_statement(&mut out, "Randomize", "Randomize", "Generates a new Random Number Seed for the Random Number Generator (based on the system clock so as to be truly random).", "http://www.brwiki.com/index.php?search=Randomize", "");
    push_statement(&mut out, "Read", "Read Statement", "Reads data", "http://www.brwiki.com/index.php?search=Read", "");
    push_statement(&mut out, "Reread", "Reread  #<file number> [, USING {<formStatement>}] : <Variables>", "Rereads the previous record read again, in the selected data file or data statements, storing the information in the variables provided.", "http://www.brwiki.com/index.php?search=Reread", "");
    push_statement(&mut out, "Write", "Write  #<file number> [, USING {<formStatement>}] : <Variables>", "Adds a record to the file containing the information from the variables you list.", "http://www.brwiki.com/index.php?search=Write", "");
    push_statement(&mut out, "Rewrite", "Rewrite  #<file number> [, USING {<formStatement>}] : <Variables>", "Updates the record that is locked in the file (usually the last record read), with the data in the variables now.", "http://www.brwiki.com/index.php?search=Rewrite", "");
    push_statement(&mut out, "Restore", "Restore  #<file number> [,<Key|Rec|Pos|Search> = <SearchValue|Position>:", "Jumps to the beginning (or other specified point) in the targeted file.", "http://www.brwiki.com/index.php?search=Restore", "");
    push_statement(&mut out, "Retry", "Retry", "Jumps to the line that had the most recent error. Used to try again in an Error Handler.", "http://www.brwiki.com/index.php?search=Retry", "");
    proof {
        assert(out@.len() == 40);
    }
    push_statement(&mut out, "Return", "Return", "Exits a Subroutine and returns control back up to the code following the Gosub statement.", "http://www.brwiki.com/index.php?search=Return", "");
    push_statement(&mut out, "Scr_Freeze", "Scr_Freeze", "Stops the screen from updating, significantly increasing the speed of the programs. The screen starts running again at the next Input Statement or Scr_Thaw statement.", "http://www.brwiki.com/index.php?search=Scr_freeze", "");
    push_statement(&mut out, "Scr_Thaw", "Scr_Thaw", "Causes the screen to refresh and begin updating again after it was frozen with a Scr_Freeze command.", "http://www.brwiki.com/index.php?search=Scr_thaw", "");
    push_statement(&mut out, "Stop", "Stop", "Ends your program (continuing with any proc files that ran your program, or stopping if your program wasn't run from a proc.)", "http://www.brwiki.com/index.php?search=Stop", "");
    push_statement(&mut out, "Trace", "Trace [On|Off|Print]", "Displays or outputs the line numbers as they're executed. Used for debugging code, but the modern debugging tools are much better.", "http://www.brwiki.com/index.php?search=Trace", "");
    out
}

/// The fixed keyword completions.
pub fn keyword_completions() -> (r: Vec<CompletionItem>)
    ensures
        r@.len() == 4,
        forall|i: int| 0 <= i < r@.len() ==> (#[trigger] r@[i]).kind == CompletionItemKind::Keyword,
{
    let mut out: Vec<CompletionItem> = Vec::new();
    push_keyword(&mut out, "while", "");
    push_keyword(&mut out, "fields", "");
    push_keyword(&mut out, "until", "");
    push_keyword(&mut out, "wait", "The `WAIT=` parameter and TIMEOUT error trap can be used with `INPUT`/`RINPUT`/`LInput` statements to force releasing of records. This feature is useful for multi-user situations.");
    out
}

/// One completion per built-in overload, documentation deferred to the
/// resolve step through the attached payload.
pub fn builtin_function_completions(table: &BuiltinTable) -> (r: Vec<CompletionItem>)
    ensures
        r@.len() == table.spec_funcs().len(),
        forall|i: int|
            0 <= i < r@.len() ==> (#[trigger] r@[i]).kind == CompletionItemKind::Function
                && r@[i].label@ == table.spec_funcs()[i].name@ && r@[i].documentation is None,
{
    let n = table.funcs.len();
    let mut out: Vec<CompletionItem> = Vec::new();
    let mut i: usize = 0;
    while i < n
        invariant
            n == table.spec_funcs().len(),
            i <= n,
            out@.len() == i,
            forall|k: int|
                0 <= k < i ==> (#[trigger] out@[k]).kind == CompletionItemKind::Function
                    && out@[k].label@ == table.spec_funcs()[k].name@ && out@[k].documentation is None,
        decreases n - i,
    {
        let b = &table.funcs[i];
        let sig = b.format_signature();
        let mut detail = String::new();
        detail.append("(built-in) ");
        detail.append(sig.as_str());
        // Count earlier overloads of the same name for the resolve payload.
        let mut overload: usize = 0;
        let mut q: usize = 0;
        while q < i
            invariant
                i <= n,
                n == table.spec_funcs().len(),
                q <= i,
                overload <= q,
            decreases i - q,
        {
            if eq_ignore_case(table.funcs[q].name.as_str(), b.name.as_str()) {
                overload += 1;
            }
            q += 1;
        }
        let mut label = String::new();
        label.append(b.name.as_str());
        proof {
            assert(label@ =~= table.spec_funcs()[i as int].name@);
        }
        let mut dname = String::new();
        dname.append(b.name.as_str());
        out.push(
            CompletionItem {
                label,
                kind: CompletionItemKind::Function,
                detail: Some(detail),
                documentation: None,
                filename: None,
                data: Some(CompletionData::Builtin { name: dname, overload }),
            },
        );
        i += 1;
    }
    out
}

/// One completion per local (non-import) function definition.
pub fn local_function_completions(defs: &Vec<FunctionDef>, uri: &str) -> (r: Vec<CompletionItem>)
    ensures
        forall|i: int|
            0 <= i < r@.len() ==> (#[trigger] r@[i]).kind == CompletionItemKind::Function
                && r@[i].documentation is None,
        r@.len() == defs_view(defs@).filter(
            |d: crate::extract::FunctionDefV| !d.is_import_only,
        ).len(),
{
    let ghost pred = |d: crate::extract::FunctionDefV| !d.is_import_only;
    let n = defs.len();
    let mut out: Vec<CompletionItem> = Vec::new();
    let mut i: usize = 0;
    proof {
        assert(defs_view(defs@).subrange(0, 0).filter(pred).len() == 0) by {
            crate::workspace::lemma_filter_none(
                defs_view(defs@).subrange(0, 0),
                pred,
            );
        }
    }
    while i < n
        invariant
            n == defs@.len(),
            i <= n,
            pred == |d: crate::extract::FunctionDefV| !d.is_import_only,
            forall|k: int|
                0 <= k < out@.len() ==> (#[trigger] out@[k]).kind == CompletionItemKind::Function
                    && out@[k].documentation is None,
            out@.len() == defs_view(defs@).subrange(0, i as int).filter(pred).len(),
        decreases n - i,
    {
        let ghost done = defs_view(defs@).subrange(0, i as int);
        proof {
            assert(defs_view(defs@).subrange(0, i + 1) =~= done.push(defs_view(defs@)[i as int]));
            crate::workspace::lemma_filter_push(done, defs_view(defs@)[i as int], pred);
        }
        let d = &defs[i];
        if !d.is_import_only {
            let sig = d.format_signature();
            let mut detail = String::new();
            detail.append("(local) ");
            detail.append(sig.as_str());
            let mut label = String::new();
            label.append(d.name.as_str());
            let mut dname = String::new();
            dname.append(d.name.as_str());
            let mut duri = String::new();
            duri.append(uri);
            out.push(
                CompletionItem {
                    label,
                    kind: CompletionItemKind::Function,
                    detail: Some(detail),
                    documentation: None,
                    filename: None,
                    data: Some(CompletionData::Local { name: dname, uri: duri }),
                },
            );
        }
        i += 1;
    }
    proof {
        assert(defs_view(defs@).subrange(0, n as int) =~= defs_view(defs@));
    }
    out
}

/// One completion per unique workspace function, labelled with the file it
/// comes from.
pub fn library_function_completions(current_uri: &str, index: &WorkspaceIndex) -> (r: Vec<
    CompletionItem,
>)
    ensures
        forall|i: int|
            0 <= i < r@.len() ==> (#[trigger] r@[i]).kind == CompletionItemKind::Function
                && r@[i].documentation is None,
{
    let picks = index.unique_functions(current_uri);
    let n = picks.len();
    let mut out: Vec<CompletionItem> = Vec::new();
    let mut i: usize = 0;
    while i < n
        invariant
            n == picks@.len(),
            i <= n,
            forall|k: int|
                0 <= k < out@.len() ==> (#[trigger] out@[k]).kind == CompletionItemKind::Function
                    && out@[k].documentation is None,
        decreases n - i,
    {
        let e = picks[i];
        let sig = e.def.format_signature();
        let mut detail = String::new();
        detail.append("(library) ");
        detail.append(sig.as_str());
        let filename = crate::workspace::file_name_of(e.uri.as_str());
        let mut label = String::new();
        label.append(e.def.name.as_str());
        let mut dname = String::new();
        dname.append(e.def.name.as_str());
        out.push(
            CompletionItem {
                label,
                kind: CompletionItemKind::Function,
                detail: Some(detail),
                documentation: None,
                filename: Some(filename),
                data: Some(CompletionData::Workspace { name: dname }),
            },
        );
        i += 1;
    }
    out
}

/// One completion per distinct defining variable occurrence: nodes filling
/// a `name` field of a reference or array node, deduplicated by lowered
/// name and type label, the token at the cursor excluded.
pub fn local_variable_completions(
    tree: &SyntaxTree,
    source: &str,
    line: u32,
    character: u32,
) -> (r: Vec<CompletionItem>)
    requires
        tree.wf(),
    ensures
        forall|i: int|
            0 <= i < r@.len() ==> (#[trigger] r@[i]).kind == CompletionItemKind::Variable,
        forall|i: int, j: int|
            0 <= i < j < r@.len() ==> !(lower_seq((#[trigger] r@[i]).label@) == lower_seq(
                (#[trigger] r@[j]).label@,
            ) && crate::text::opt_view(r@[i].detail) == crate::text::opt_view(r@[j].detail)),
{
    let n = tree.len();
    let mut out: Vec<CompletionItem> = Vec::new();
    let mut i: usize = 0;
    while i < n
        invariant
            tree.wf(),
            n == tree.spec_len(),
            i <= n,
            forall|k: int|
                0 <= k < out@.len() ==> (#[trigger] out@[k]).kind == CompletionItemKind::Variable
                    && (#[trigger] out@[k]).detail is Some,
            forall|k1: int, k2: int|
                0 <= k1 < k2 < out@.len() ==> !(lower_seq((#[trigger] out@[k1]).label@)
                    == lower_seq((#[trigger] out@[k2]).label@) && crate::text::opt_view(
                    out@[k1].detail,
                ) == crate::text::opt_view(out@[k2].detail)),
        decreases n - i,
    {
        let is_name_field = crate::text::str_eq(tree.node(i).field.as_str(), "name");
        let mut type_label: Option<&'static str> = None;
        if is_name_field {
            match tree.node(i).parent {
                Some(p) => {
                    if tree.kind_is(p, "stringarray") {
                        type_label = Some("string array");
                    } else if tree.kind_is(p, "numberarray") {
                        type_label = Some("number array");
                    } else if tree.kind_is(p, "stringreference") {
                        type_label = Some("string");
                    } else if tree.kind_is(p, "numberreference") {
                        type_label = Some("number");
                    }
                },
                None => {},
            }
        }
        match type_label {
            Some(tl) => {
                // Exclude the token under the cursor.
                let nd = tree.node(i);
                let at_cursor = nd.start_row == line as usize && nd.end_row == line as usize
                    && nd.start_col <= character as usize && character as usize <= nd.end_col;
                if !at_cursor {
                    let text = crate::tree::node_text(tree, i, source);
                    let mut duplicate = false;
                    let m = out.len();
                    let mut q: usize = 0;
                    while q < m
                        invariant
                            m == out@.len(),
                            q <= m,
                            duplicate ==> exists|w: int|
                                0 <= w < out@.len() && lower_seq((#[trigger] out@[w]).label@)
                                    == lower_seq(text@) && crate::text::opt_view(out@[w].detail)
                                    == Some(tl@),
                            !duplicate ==> forall|w: int|
                                0 <= w < q ==> !(lower_seq((#[trigger] out@[w]).label@)
                                    == lower_seq(text@) && crate::text::opt_view(out@[w].detail)
                                    == Some(tl@)),
                        decreases m - q,
                    {
                        if !duplicate && eq_ignore_case(out[q].label.as_str(), text.as_str()) {
                            let same_detail = match &out[q].detail {
                                Some(dd) => crate::text::str_eq(dd.as_str(), tl),
                                None => false,
                            };
                            if same_detail {
                                proof {
                                    assert(lower_seq(out@[q as int].label@) == lower_seq(text@)
                                        && crate::text::opt_view(out@[q as int].detail) == Some(
                                        tl@,
                                    ));
                                }
                                duplicate = true;
                            }
                        }
                        q += 1;
                    }
                    if !duplicate {
                        let ghost pre = out@;
                        let detail = some_str(tl);
                        out.push(
                            CompletionItem {
                                label: text,
                                kind: CompletionItemKind::Variable,
                                detail,
                                documentation: None,
                                filename: None,
                                data: None,
                            },
                        );
                        proof {
                            assert forall|k1: int, k2: int|
                                0 <= k1 < k2 < out@.len() implies !(lower_seq(
                                (#[trigger] out@[k1]).label@,
                            ) == lower_seq((#[trigger] out@[k2]).label@) && crate::text::opt_view(
                                out@[k1].detail,
                            ) == crate::text::opt_view(out@[k2].detail)) by {
                                if k2 == out@.len() - 1 {
                                    assert(out@[k1] == pre[k1]);
                                    if lower_seq(pre[k1].label@) == lower_seq(out@[k2].label@)
                                        && crate::text::opt_view(pre[k1].detail)
                                        == crate::text::opt_view(out@[k2].detail) {
                                        assert(false);
                                    }
                                } else {
                                    assert(out@[k1] == pre[k1]);
                                    assert(out@[k2] == pre[k2]);
                                }
                            }
                        }
                    }
                }
            },
            None => {},
        }
        i += 1;
    }
    out
}

/// The statement-template segment of a completion list.
pub open spec fn seg_statements(s: Seq<CompletionItem>) -> bool {
    &&& s.len() == 45
    &&& forall|i: int| 0 <= i < s.len() ==> (#[trigger] s[i]).kind == CompletionItemKind::Keyword
}

/// The bare-keyword segment.
pub open spec fn seg_keywords(s: Seq<CompletionItem>) -> bool {
    &&& s.len() == 4
    &&& forall|i: int| 0 <= i < s.len() ==> (#[trigger] s[i]).kind == CompletionItemKind::Keyword
}

/// The built-in function segment: one item per table entry, in order.
pub open spec fn seg_builtins(s: Seq<CompletionItem>, fns: Seq<crate::builtins::BuiltinFunction>) -> bool {
    &&& s.len() == fns.len()
    &&& forall|i: int|
        0 <= i < s.len() ==> (#[trigger] s[i]).kind == CompletionItemKind::Function && s[i].label@
            == fns[i].name@ && s[i].documentation is None
}

/// The local-variable segment: variables, deduplicated by lowered name
/// and detail.
pub open spec fn seg_local_vars(s: Seq<CompletionItem>) -> bool {
    &&& forall|i: int| 0 <= i < s.len() ==> (#[trigger] s[i]).kind == CompletionItemKind::Variable
    &&& forall|i: int, j: int|
        0 <= i < j < s.len() ==> !(lower_seq((#[trigger] s[i]).label@) == lower_seq(
            (#[trigger] s[j]).label@,
        ) && crate::text::opt_view(s[i].detail) == crate::text::opt_view(s[j].detail))
}

/// The local-function segment: one item per definition that is not
/// import-only.
pub open spec fn seg_local_fns(s: Seq<CompletionItem>, defs: Seq<crate::extract::FunctionDefV>) -> bool {
    &&& s.len() == defs.filter(|d: crate::extract::FunctionDefV| !d.is_import_only).len()
    &&& forall|i: int|
        0 <= i < s.len() ==> (#[trigger] s[i]).kind == CompletionItemKind::Function
            && s[i].documentation is None
}

/// The library-function segment: workspace functions from other files.
pub open spec fn seg_library_fns(s: Seq<CompletionItem>) -> bool {
    forall|i: int|
        0 <= i < s.len() ==> (#[trigger] s[i]).kind == CompletionItemKind::Function
            && s[i].documentation is None
}

/// Assemble every completion list for a BR document: the statement
/// templates, the keywords, the built-in functions, the local variables,
/// the local functions and the workspace library functions, concatenated
/// in that order.
pub fn get_completions(
    tree: &SyntaxTree,
    source: &str,
    uri: &str,
    line: u32,
    character: u32,
    table: &BuiltinTable,
    index: &WorkspaceIndex,
) -> (r: Vec<CompletionItem>)
    requires
        tree.wf(),
    ensures
        r@.len() >= 49 + table.spec_funcs().len(),
        exists|a: Seq<CompletionItem>, b: Seq<CompletionItem>, c: Seq<CompletionItem>, d: Seq<
            CompletionItem,
        >, e: Seq<CompletionItem>, f: Seq<CompletionItem>|
            {
                &&& r@ == #[trigger] (a + b + c + d + e + f)
                &&& seg_statements(a)
                &&& seg_keywords(b)
                &&& seg_builtins(c, table.spec_funcs())
                &&& seg_local_vars(d)
                &&& seg_local_fns(e, crate::extract::spec_defs(*tree, 0, source@))
                &&& seg_library_fns(f)
            },
{
    let mut out = statement_completions();
    let mut kw = keyword_completions();
    let mut bi = builtin_function_completions(table);
    let defs = crate::extract::extract_definitions(tree, source);
    let mut lv = local_variable_completions(tree, source, line, character);
    let mut lf = local_function_completions(&defs, uri);
    let mut wf = library_function_completions(uri, index);
    let ghost sa = out@;
    let ghost sb = kw@;
    let ghost sc = bi@;
    let ghost sd = lv@;
    let ghost se = lf@;
    let ghost sf = wf@;
    out.append(&mut kw);
    out.append(&mut bi);
    out.append(&mut lv);
    out.append(&mut lf);
    out.append(&mut wf);
    proof {
        assert(out@ =~= sa + sb + sc + sd + se + sf);
        assert(seg_statements(sa));
        assert(seg_keywords(sb));
        assert(seg_builtins(sc, table.spec_funcs()));
        assert(seg_local_vars(sd));
        assert(seg_local_fns(se, crate::extract::spec_defs(*tree, 0, source@)));
        assert(seg_library_fns(sf));
    }
    out
}

} // verus!
