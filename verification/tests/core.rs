//! Tests over the text-level parts: the built-in catalog, layout files,
//! the call-context scanner, file conventions and CP437 decoding.

use br_lsp::builtins::{lookup, BuiltinFunction, BuiltinParam, BuiltinTable};
use br_lsp::extract::normalize_library_path;
use br_lsp::layout::{is_layout_file, parse, Layout, LayoutIndex, LayoutSubscript};
use br_lsp::parser::find_function_call_context;
use br_lsp::workspace::{cp437_to_char, is_br_file};
use br_lsp::debounce::DiagnosticsGeneration;
use br_lsp::document::apply_change;
use br_lsp::extract::ParamKind;
use br_lsp::types::make_range;

fn bp(name: &str) -> BuiltinParam {
    BuiltinParam { name: name.to_string(), documentation: None }
}

fn bf(name: &str, params: Vec<BuiltinParam>) -> BuiltinFunction {
    BuiltinFunction { name: name.to_string(), documentation: None, params }
}

/// A catalog holding the entries these tests exercise, as the shipped
/// asset records them.
fn make_table() -> BuiltinTable {
    BuiltinTable::from_functions(vec![
        bf("Val", vec![bp("<String$>")]),
        bf("Bell", vec![]),
        bf("Str$", vec![bp("<number>")]),
        bf("Cnvrt$", vec![bp("<Spec$>"), bp("<Number>")]),
        bf("Decrypt$", vec![bp("<String$>"), bp("[<Algorithm$>]")]),
        bf("Decrypt$", vec![bp("<String$>"), bp("<Key$>")]),
    ])
}

#[test]
fn lookup_val() {
    let table = make_table();
    let results = lookup(&table, "Val");
    assert_eq!(results.len(), 1);
    assert_eq!(results[0].name, "Val");
}

#[test]
fn builtins_lookup_case_insensitive() {
    let table = make_table();
    let results = lookup(&table, "VAL");
    assert_eq!(results.len(), 1);
    assert_eq!(results[0].name, "Val");
}

#[test]
fn lookup_overloaded() {
    let table = make_table();
    let results = lookup(&table, "Decrypt$");
    assert_eq!(results.len(), 2);
}

#[test]
fn lookup_missing() {
    let table = make_table();
    let results = lookup(&table, "nonexistent");
    assert!(results.is_empty());
}

#[test]
fn builtins_format_signature_no_params() {
    let table = make_table();
    let results = lookup(&table, "Bell");
    assert_eq!(results[0].format_signature(), "Bell");
}

#[test]
fn format_signature_with_params() {
    let table = make_table();
    let results = lookup(&table, "Str$");
    assert_eq!(results[0].format_signature(), "Str$(<number>)");
}

#[test]
fn builtins_format_signature_offsets() {
    let table = make_table();
    let results = lookup(&table, "Cnvrt$");
    let (label, offsets) = results[0].format_signature_with_offsets();
    assert_eq!(label, "Cnvrt$(<Spec$>, <Number>)");
    assert_eq!(offsets.len(), 2);
    let spec = &label[offsets[0][0] as usize..offsets[0][1] as usize];
    assert_eq!(spec, "<Spec$>");
    let num = &label[offsets[1][0] as usize..offsets[1][1] as usize];
    assert_eq!(num, "<Number>");
}

#[test]
fn builtin_param_kinds_from_names() {
    assert_eq!(bp("<Number>").kind(), Some(ParamKind::Numeric));
    assert_eq!(bp("<Spec$>").kind(), Some(ParamKind::String));
    assert_eq!(bp("MAT Name$").kind(), Some(ParamKind::StringArray));
    assert_eq!(bp("MAT numeric_values").kind(), Some(ParamKind::NumericArray));
    assert_eq!(bp("\"MD5\"").kind(), None);
    assert_eq!(bp("date").kind(), None);
    assert_eq!(bp("<array>").kind(), None);
}

#[test]
fn normalize_library_path_cases() {
    assert_eq!(normalize_library_path("VOL002\\RTFLib"), "vol002/rtflib");
    assert_eq!(normalize_library_path("custlib.brs"), "custlib");
    assert_eq!(normalize_library_path("some/path.DLL"), "some/path");
    assert_eq!(normalize_library_path("simple"), "simple");
}

const SAMPLE_LAYOUT: &str = "CUSTOMER.DAT, RCU_, 1
CUSTOMER.IX1, RCU_CUSTOMER_ID$
recl=256
----------
CUSTOMER_ID$, Customer ID, C 10
NAME$, Customer Name, C 30
BALANCE, Balance, BH 4.2
#eof#
";

#[test]
fn parse_standard_layout() {
    let layout = parse(SAMPLE_LAYOUT).unwrap();
    assert_eq!(layout.path, "CUSTOMER.DAT");
    assert_eq!(layout.prefix, "RCU_");
    assert_eq!(layout.version, Some(1));
    assert_eq!(layout.keys.len(), 1);
    assert_eq!(layout.keys[0].path, "CUSTOMER.IX1");
    assert_eq!(layout.keys[0].key_fields, vec!["RCU_CUSTOMER_ID$"]);
    assert_eq!(layout.record_length, Some(256));
    assert_eq!(layout.subscripts.len(), 3);
    assert_eq!(layout.subscripts[0].name, "CUSTOMER_ID$");
    assert_eq!(layout.subscripts[0].description, "Customer ID");
    assert_eq!(layout.subscripts[0].format, "C 10");
    assert_eq!(layout.subscripts[2].name, "BALANCE");
    assert_eq!(layout.subscripts[2].format, "BH 4.2");
}

#[test]
fn parse_no_keys() {
    let source = "DATA.DAT, DT_, 1\n----------\nFIELD1, Desc, N 5\n";
    let layout = parse(source).unwrap();
    assert!(layout.keys.is_empty());
    assert_eq!(layout.subscripts.len(), 1);
}

#[test]
fn parse_with_comments_and_eof() {
    let source = "! This is a comment
DATA.DAT, DT_, 1
! Another comment
----------
FIELD1, Desc, N 5
#eof#
This should be ignored
";
    let layout = parse(source).unwrap();
    assert_eq!(layout.path, "DATA.DAT");
    assert_eq!(layout.subscripts.len(), 1);
}

#[test]
fn parse_empty_returns_none() {
    assert!(parse("").is_none());
    assert!(parse("  \n  \n").is_none());
}

#[test]
fn is_layout_file_lay_ext() {
    assert!(is_layout_file("foo.lay"));
    assert!(is_layout_file("foo.LAY"));
    assert!(is_layout_file("/path/to/foo.lay"));
}

#[test]
fn is_layout_file_filelay_parent() {
    assert!(is_layout_file("/path/filelay/somefile"));
    assert!(is_layout_file("filelay/data"));
}

#[test]
fn is_layout_file_negative() {
    assert!(!is_layout_file("foo.brs"));
    assert!(!is_layout_file("foo.txt"));
    assert!(!is_layout_file("/path/to/foo"));
    assert!(!is_layout_file("/path/notfilelay/foo"));
}

#[test]
fn subscript_completions_basic() {
    let mut idx = LayoutIndex::new();
    idx.add(
        "file:///test.lay",
        Layout {
            path: "CUSTOMER.DAT".to_string(),
            prefix: "RCU_".to_string(),
            version: Some(1),
            keys: vec![],
            subscripts: vec![
                LayoutSubscript {
                    name: "NAME$".to_string(),
                    description: "Customer Name".to_string(),
                    format: "C".to_string(),
                },
                LayoutSubscript {
                    name: "BALANCE".to_string(),
                    description: "Balance".to_string(),
                    format: "N".to_string(),
                },
            ],
            record_length: None,
        },
    );

    let items = idx.all_layouts();
    assert_eq!(items.len(), 1);
    assert_eq!(items[0].subscripts.len(), 2);
}

#[test]
fn subscript_string_vs_numeric() {
    let layout =
        parse("DATA.DAT, DT_, 1\n----------\nNAME$, Name, C 30\nBAL, Balance, N 10\n").unwrap();
    assert!(layout.subscripts[0].name.ends_with('$'));
    assert!(!layout.subscripts[1].name.ends_with('$'));
}

#[test]
fn layout_index_add_remove() {
    let mut idx = LayoutIndex::new();
    let layout = parse("DATA.DAT, DT_, 1\n----------\nFIELD, Desc, N 5\n").unwrap();
    idx.add("file:///a.lay", layout);
    assert_eq!(idx.all_layouts().len(), 1);
    idx.remove("file:///a.lay");
    assert_eq!(idx.all_layouts().len(), 0);
}

#[test]
fn layout_index_update() {
    let mut idx = LayoutIndex::new();
    let layout1 = parse("DATA.DAT, DT_, 1\n----------\nFIELD, Desc, N 5\n").unwrap();
    let layout2 = parse("OTHER.DAT, OT_, 2\n----------\nA, Desc, N 5\nB, Desc, C 10\n").unwrap();
    idx.add("file:///a.lay", layout1);
    idx.update("file:///a.lay", layout2);
    let layouts = idx.all_layouts();
    assert_eq!(layouts.len(), 1);
    assert_eq!(layouts[0].path, "OTHER.DAT");
    assert_eq!(layouts[0].subscripts.len(), 2);
}

#[test]
fn call_context_simple() {
    let source = "let x = Val(\"hi\"";
    let ctx = find_function_call_context(source, 0, source.len()).unwrap();
    assert_eq!(ctx.name, "Val");
    assert_eq!(ctx.active_param, 0);
}

#[test]
fn call_context_multi_arg() {
    let source = "let x = fnFoo(A, B, ";
    let ctx = find_function_call_context(source, 0, source.len()).unwrap();
    assert_eq!(ctx.name, "fnFoo");
    assert_eq!(ctx.active_param, 2);
}

#[test]
fn call_context_nested() {
    let source = "let x = Val(Str$(X), ";
    let ctx = find_function_call_context(source, 0, source.len()).unwrap();
    assert_eq!(ctx.name, "Val");
    assert_eq!(ctx.active_param, 1);
}

#[test]
fn call_context_string_with_parens() {
    let source = "let x = fnFoo(\"(hi)\", ";
    let ctx = find_function_call_context(source, 0, source.len()).unwrap();
    assert_eq!(ctx.name, "fnFoo");
    assert_eq!(ctx.active_param, 1);
}

#[test]
fn call_context_no_args_yet() {
    let source = "let x = Val(";
    let ctx = find_function_call_context(source, 0, source.len()).unwrap();
    assert_eq!(ctx.name, "Val");
    assert_eq!(ctx.active_param, 0);
}

#[test]
fn call_context_br_escaped_quotes() {
    let source = "let x = fnFoo(\"say \"\"hi\"\"\", ";
    let ctx = find_function_call_context(source, 0, source.len()).unwrap();
    assert_eq!(ctx.name, "fnFoo");
    assert_eq!(ctx.active_param, 1);
}

#[test]
fn call_context_no_function_name() {
    let source = "(";
    assert!(find_function_call_context(source, 0, source.len()).is_none());
}

#[test]
fn call_context_no_open_paren() {
    let source = "let x = 1 + 2";
    assert!(find_function_call_context(source, 0, source.len()).is_none());
}

#[test]
fn call_context_multiline() {
    let source = "let x = fnFoo(A,\nB, ";
    let ctx = find_function_call_context(source, 1, 3).unwrap();
    assert_eq!(ctx.name, "fnFoo");
    assert_eq!(ctx.active_param, 2);
}

#[test]
fn cp437_ascii_roundtrip() {
    for b in 0u8..128 {
        assert_eq!(cp437_to_char(b), b as char);
    }
}

#[test]
fn cp437_high_bytes() {
    assert_eq!(cp437_to_char(0x80), '\u{00C7}');
    assert_eq!(cp437_to_char(0x81), '\u{00FC}');
    assert_eq!(cp437_to_char(0xE1), '\u{00DF}');
    assert_eq!(cp437_to_char(0xFE), '\u{25A0}');
}

#[test]
fn cp437_decode_skips_dos_eof() {
    let bytes = [b'a', 0x1a, b'b', 0x80];
    let s = br_lsp::workspace::decode_cp437(&bytes);
    assert_eq!(s, "ab\u{00C7}");
}

#[test]
fn is_br_file_checks() {
    assert!(is_br_file("foo.brs"));
    assert!(is_br_file("foo.BRS"));
    assert!(is_br_file("foo.wbs"));
    assert!(is_br_file("foo.WBS"));
    assert!(!is_br_file("foo.rs"));
    assert!(!is_br_file("foo"));
}

#[test]
fn csv_escape_plain() {
    assert_eq!(br_lsp::check::csv_escape("hello"), "hello");
}

#[test]
fn csv_escape_with_comma() {
    assert_eq!(br_lsp::check::csv_escape("hello, world"), "\"hello, world\"");
}

#[test]
fn csv_escape_with_quotes() {
    assert_eq!(br_lsp::check::csv_escape("say \"hi\""), "\"say \"\"hi\"\"\"");
}

#[test]
fn csv_escape_with_newline() {
    assert_eq!(br_lsp::check::csv_escape("line1\nline2"), "\"line1\nline2\"");
}

#[test]
fn format_csv_empty() {
    let csv = br_lsp::check::format_csv(&vec![]);
    assert_eq!(csv, "file,line,column,end_line,end_column,severity,message\n");
}

#[test]
fn format_csv_one_diagnostic() {
    let diags = vec![br_lsp::check::FileDiagnostic {
        file: "test.brs".to_string(),
        line: 10,
        column: 1,
        end_line: 10,
        end_column: 15,
        severity: "error".to_string(),
        message: "Syntax error".to_string(),
    }];
    let csv = br_lsp::check::format_csv(&diags);
    let lines: Vec<&str> = csv.lines().collect();
    assert_eq!(lines.len(), 2);
    assert_eq!(lines[0], "file,line,column,end_line,end_column,severity,message");
    assert_eq!(lines[1], "test.brs,10,1,10,15,error,Syntax error");
}

#[test]
fn format_csv_message_with_comma() {
    let diags = vec![br_lsp::check::FileDiagnostic {
        file: "test.brs".to_string(),
        line: 20,
        column: 5,
        end_line: 20,
        end_column: 20,
        severity: "warning".to_string(),
        message: "Function 'fnFoo' expects 2 parameter(s), but 1 provided".to_string(),
    }];
    let csv = br_lsp::check::format_csv(&diags);
    let lines: Vec<&str> = csv.lines().collect();
    assert_eq!(lines.len(), 2);
    assert!(lines[1].ends_with("\"Function 'fnFoo' expects 2 parameter(s), but 1 provided\""));
}

#[test]
fn apply_change_single_char_replacement() {
    let mut source = "let x = 1\n".to_string();
    let range = make_range(0, 8, 0, 9);
    let edit = apply_change(&mut source, &range, "2");
    assert_eq!(source, "let x = 2\n");
    assert_eq!(edit.start_byte, 8);
    assert_eq!(edit.old_end_byte, 9);
    assert_eq!(edit.new_end_byte, 9);
    assert_eq!((edit.start_row, edit.start_col), (0, 8));
    assert_eq!((edit.old_end_row, edit.old_end_col), (0, 9));
    assert_eq!((edit.new_end_row, edit.new_end_col), (0, 9));
}

#[test]
fn apply_change_insert_newline() {
    let mut source = "let x = 1\n".to_string();
    let range = make_range(0, 9, 0, 9);
    let edit = apply_change(&mut source, &range, "\nlet y = 2");
    assert_eq!(source, "let x = 1\nlet y = 2\n");
    assert_eq!(edit.start_byte, 9);
    assert_eq!(edit.old_end_byte, 9);
    assert_eq!(edit.new_end_byte, 19);
    assert_eq!((edit.new_end_row, edit.new_end_col), (1, 9));
}

#[test]
fn debounce_only_newest_generation_publishes() {
    let mut gens = DiagnosticsGeneration::new();
    let g1 = gens.record_edit("file:///a.brs");
    let g2 = gens.record_edit("file:///a.brs");
    let g3 = gens.record_edit("file:///a.brs");
    assert_eq!((g1, g2, g3), (1, 2, 3));
    assert!(!gens.is_current("file:///a.brs", g1));
    assert!(!gens.is_current("file:///a.brs", g2));
    assert!(gens.is_current("file:///a.brs", g3));
    let gb = gens.record_edit("file:///b.brs");
    assert_eq!(gb, 1);
    assert!(gens.is_current("file:///a.brs", g3));
}

#[test]
fn doc_comment_parsing() {
    let raw = "/** Adds two numbers\n  * @param A First number\n  * @param B Second number\n  * @returns The sum\n  */";
    let dc = br_lsp::extract::parse_doc_comment(raw);
    assert_eq!(dc.description.as_deref(), Some("Adds two numbers"));
    assert_eq!(dc.return_doc.as_deref(), Some("The sum"));
    assert_eq!(dc.param_docs.len(), 2);
    assert_eq!(dc.param_docs[0].0, "A");
    assert_eq!(dc.param_docs[0].1, "First number");
}

#[test]
fn pad_and_next_line_number() {
    assert_eq!(br_lsp::code_action::next_line_number(100), 110);
    assert_eq!(br_lsp::code_action::next_line_number(0), 10);
    assert_eq!(br_lsp::code_action::pad5(110), "00110");
    assert_eq!(br_lsp::code_action::pad5(123456), "123456");
}

#[test]
fn cp437_high_table_complete() {
    let expected: [char; 128] = ['\u{00C7}', '\u{00FC}', '\u{00E9}', '\u{00E2}', '\u{00E4}', '\u{00E0}', '\u{00E5}', '\u{00E7}', '\u{00EA}', '\u{00EB}', '\u{00E8}', '\u{00EF}', '\u{00EE}', '\u{00EC}', '\u{00C4}', '\u{00C5}', '\u{00C9}', '\u{00E6}', '\u{00C6}', '\u{00F4}', '\u{00F6}', '\u{00F2}', '\u{00FB}', '\u{00F9}', '\u{00FF}', '\u{00D6}', '\u{00DC}', '\u{00A2}', '\u{00A3}', '\u{00A5}', '\u{20A7}', '\u{0192}', '\u{00E1}', '\u{00ED}', '\u{00F3}', '\u{00FA}', '\u{00F1}', '\u{00D1}', '\u{00AA}', '\u{00BA}', '\u{00BF}', '\u{2310}', '\u{00AC}', '\u{00BD}', '\u{00BC}', '\u{00A1}', '\u{00AB}', '\u{00BB}', '\u{2591}', '\u{2592}', '\u{2593}', '\u{2502}', '\u{2524}', '\u{2561}', '\u{2562}', '\u{2556}', '\u{2555}', '\u{2563}', '\u{2551}', '\u{2557}', '\u{255D}', '\u{255C}', '\u{255B}', '\u{2510}', '\u{2514}', '\u{2534}', '\u{252C}', '\u{251C}', '\u{2500}', '\u{253C}', '\u{255E}', '\u{255F}', '\u{255A}', '\u{2554}', '\u{2569}', '\u{2566}', '\u{2560}', '\u{2550}', '\u{256C}', '\u{2567}', '\u{2568}', '\u{2564}', '\u{2565}', '\u{2559}', '\u{2558}', '\u{2552}', '\u{2553}', '\u{256B}', '\u{256A}', '\u{2518}', '\u{250C}', '\u{2588}', '\u{2584}', '\u{258C}', '\u{2590}', '\u{2580}', '\u{03B1}', '\u{00DF}', '\u{0393}', '\u{03C0}', '\u{03A3}', '\u{03C3}', '\u{00B5}', '\u{03C4}', '\u{03A6}', '\u{0398}', '\u{03A9}', '\u{03B4}', '\u{221E}', '\u{03C6}', '\u{03B5}', '\u{2229}', '\u{2261}', '\u{00B1}', '\u{2265}', '\u{2264}', '\u{2320}', '\u{2321}', '\u{00F7}', '\u{2248}', '\u{00B0}', '\u{2219}', '\u{00B7}', '\u{221A}', '\u{207F}', '\u{00B2}', '\u{25A0}', '\u{00A0}'];
    for (i, e) in expected.iter().enumerate() {
        assert_eq!(cp437_to_char(128 + i as u8), *e);
    }
}

#[test]
fn token_header_line() {
    let tokens = br_lsp::layout::collect_layout_tokens("CUSTOMER.DAT, RCU_, 1\n");
    assert!(tokens.len() >= 3);
    assert_eq!(tokens[0].token_type, 5);
    assert_eq!(tokens[1].token_type, 5);
    assert_eq!(tokens[2].token_type, 6);
}

#[test]
fn token_key_line() {
    let tokens =
        br_lsp::layout::collect_layout_tokens("DATA.DAT, PFX_, 1\nDATA.IX1, KEY_FIELD1, KEY_FIELD2\n----------\n");
    assert_eq!(tokens.len(), 7);
    assert_eq!(tokens[3].token_type, 5);
    assert_eq!(tokens[4].token_type, 1);
    assert_eq!(tokens[5].token_type, 1);
}

#[test]
fn token_recl() {
    let tokens = br_lsp::layout::collect_layout_tokens("DATA.DAT, PFX_, 1\nrecl=128\n----------\n");
    assert!(tokens.iter().any(|t| t.token_type == 3));
    assert!(tokens.iter().filter(|t| t.token_type == 6).count() >= 2);
}

#[test]
fn token_separator() {
    let tokens = br_lsp::layout::collect_layout_tokens("DATA.DAT, PFX_, 1\n----------\n");
    assert_eq!(tokens.last().unwrap().token_type, 4);
}

#[test]
fn token_field_line() {
    let tokens =
        br_lsp::layout::collect_layout_tokens("DATA.DAT, PFX_, 1\n----------\nNAME$, Name, C 30, some notes\n");
    let field_tokens: Vec<_> = tokens.iter().skip(4).collect();
    assert_eq!(field_tokens.len(), 5);
    assert_eq!(field_tokens[0].token_type, 1);
    assert_eq!(field_tokens[1].token_type, 5);
    assert_eq!(field_tokens[2].token_type, 3);
    assert_eq!(field_tokens[3].token_type, 6);
    assert_eq!(field_tokens[4].token_type, 4);
}

#[test]
fn token_field_with_decimals() {
    let tokens =
        br_lsp::layout::collect_layout_tokens("DATA.DAT, PFX_, 1\n----------\nAMT, Amount, BH 4.2\n");
    let field_tokens: Vec<_> = tokens.iter().skip(4).collect();
    assert_eq!(field_tokens.len(), 4);
    assert_eq!(field_tokens[2].token_type, 3);
    assert_eq!(field_tokens[3].token_type, 6);
}

#[test]
fn token_invalid_spec() {
    let tokens =
        br_lsp::layout::collect_layout_tokens("DATA.DAT, PFX_, 1\n----------\nFIELD, Desc, BADSPEC 10\n");
    assert!(tokens.iter().any(|t| t.token_type == 11));
}

#[test]
fn token_comment_line() {
    let tokens = br_lsp::layout::collect_layout_tokens("! This is a comment\nDATA.DAT, PFX_, 1\n");
    assert_eq!(tokens[0].token_type, 4);
}

#[test]
fn token_eof_and_post_eof() {
    let tokens =
        br_lsp::layout::collect_layout_tokens("DATA.DAT, PFX_, 1\n----------\n#eof#\nsome post-eof text\n");
    assert!(tokens.iter().filter(|t| t.token_type == 4).count() >= 3);
}

#[test]
fn apply_change_counts_carriage_returns() {
    let mut source = "ab\r\nxy".to_string();
    let range = make_range(1, 0, 1, 0);
    let edit = apply_change(&mut source, &range, "Z");
    assert_eq!(source, "ab\r\nZxy");
    assert_eq!(edit.start_byte, 4);
    assert_eq!(edit.new_end_byte, 5);
}
