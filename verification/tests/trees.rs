//! Tests over tree-based analyses: the scenario inputs below pair a BR
//! source text with the node tree its grammar produces, flattened the way
//! the embedding program hands trees to the library.

use br_lsp::builtins::BuiltinTable;
use br_lsp::tree::{NodeData, SyntaxTree};
use br_lsp::types::{Diagnostic, Severity};
use br_lsp::workspace::WorkspaceIndex;
use br_lsp::semantic_tokens::{encode_deltas, RawToken};

#[allow(clippy::too_many_arguments)]
fn n(
    kind: &str,
    named: bool,
    field: &str,
    sb: usize,
    eb: usize,
    sr: usize,
    sc: usize,
    er: usize,
    ec: usize,
    parent: Option<usize>,
    children: Vec<usize>,
) -> NodeData {
    NodeData {
        kind: kind.to_string(),
        named,
        error: false,
        missing: false,
        field: field.to_string(),
        start_byte: sb,
        end_byte: eb,
        start_row: sr,
        start_col: sc,
        end_row: er,
        end_col: ec,
        parent,
        children,
    }
}

/// `"def fnFoo(X)=X\ndef fnFoo(Y)=Y\n"` — the same function defined twice.
fn duplicate_tree() -> SyntaxTree {
    let nodes = vec![
        n("program", true, "", 0, 30, 0, 0, 2, 0, None, vec![1, 4]),
        n("def_statement", true, "", 0, 14, 0, 0, 0, 14, Some(0), vec![2]),
        n("numeric_function_definition", true, "", 0, 14, 0, 0, 0, 14, Some(1), vec![3]),
        n("function_name", true, "", 4, 9, 0, 4, 0, 9, Some(2), vec![]),
        n("def_statement", true, "", 15, 29, 1, 0, 1, 14, Some(0), vec![5]),
        n("numeric_function_definition", true, "", 15, 29, 1, 0, 1, 14, Some(4), vec![6]),
        n("function_name", true, "", 19, 24, 1, 4, 1, 9, Some(5), vec![]),
    ];
    SyntaxTree::from_nodes(nodes).unwrap()
}

#[test]
fn duplicate_function_reported_once() {
    let source = "def fnFoo(X)=X\ndef fnFoo(Y)=Y\n";
    let tree = duplicate_tree();
    let diags = br_lsp::diagnostics::check_duplicate_functions(&tree, source);
    assert_eq!(diags.len(), 1);
    assert!(diags[0].message.contains("fnFoo"));
    assert!(diags[0].message.contains("already defined"));
    assert_eq!(diags[0].severity, Severity::Warning);
    assert_eq!(diags[0].range.start.line, 1);
    assert_eq!(diags[0].range.start.character, 4);
    assert_eq!(diags[0].range.end.character, 9);
}

/// `"def fnFoo(A,B)=A+B\nlet X=fnFoo(1)\n"` — a two-parameter function
/// called with one argument.
fn arity_tree() -> SyntaxTree {
    let nodes = vec![
        n("program", true, "", 0, 34, 0, 0, 2, 0, None, vec![1, 13]),
        n("def_statement", true, "", 0, 18, 0, 0, 0, 18, Some(0), vec![2]),
        n("numeric_function_definition", true, "", 0, 18, 0, 0, 0, 18, Some(1), vec![3, 4]),
        n("function_name", true, "", 4, 9, 0, 4, 0, 9, Some(2), vec![]),
        n("parameter_list", true, "", 9, 14, 0, 9, 0, 14, Some(2), vec![5, 9]),
        n("required_parameter", true, "", 10, 11, 0, 10, 0, 11, Some(4), vec![6]),
        n("parameter", true, "", 10, 11, 0, 10, 0, 11, Some(5), vec![7]),
        n("numeric_parameter", true, "", 10, 11, 0, 10, 0, 11, Some(6), vec![8]),
        n("numberidentifier", true, "", 10, 11, 0, 10, 0, 11, Some(7), vec![]),
        n("required_parameter", true, "", 12, 13, 0, 12, 0, 13, Some(4), vec![10]),
        n("parameter", true, "", 12, 13, 0, 12, 0, 13, Some(9), vec![11]),
        n("numeric_parameter", true, "", 12, 13, 0, 12, 0, 13, Some(10), vec![12]),
        n("numberidentifier", true, "", 12, 13, 0, 12, 0, 13, Some(11), vec![]),
        n("numeric_user_function", true, "", 25, 33, 1, 6, 1, 14, Some(0), vec![14, 15]),
        n("function_name", true, "", 25, 30, 1, 6, 1, 11, Some(13), vec![]),
        n("arguments", true, "arguments", 30, 33, 1, 11, 1, 14, Some(13), vec![16]),
        n("argument", true, "", 31, 32, 1, 12, 1, 13, Some(15), vec![17]),
        n("expression", true, "", 31, 32, 1, 12, 1, 13, Some(16), vec![18]),
        n("numeric_expression", true, "", 31, 32, 1, 12, 1, 13, Some(17), vec![]),
    ];
    SyntaxTree::from_nodes(nodes).unwrap()
}

#[test]
fn arity_mismatch_reported() {
    let source = "def fnFoo(A,B)=A+B\nlet X=fnFoo(1)\n";
    let tree = arity_tree();
    let table = BuiltinTable::new();
    let diags = br_lsp::diagnostics::check_parameter_count(&tree, source, &table);
    assert_eq!(diags.len(), 1);
    assert_eq!(diags[0].message, "Function 'fnFoo' expects 2 parameter(s), but 1 provided");
    assert_eq!(diags[0].severity, Severity::Warning);
}

/// `"def fnFoo$(A$)=A$\nlet X$=fnFoo$(42)\n"` — a string parameter given a
/// number.
fn type_tree() -> SyntaxTree {
    let nodes = vec![
        n("program", true, "", 0, 36, 0, 0, 2, 0, None, vec![1, 9]),
        n("def_statement", true, "", 0, 17, 0, 0, 0, 17, Some(0), vec![2]),
        n("string_function_definition", true, "", 0, 17, 0, 0, 0, 17, Some(1), vec![3, 4]),
        n("function_name", true, "", 4, 10, 0, 4, 0, 10, Some(2), vec![]),
        n("parameter_list", true, "", 10, 14, 0, 10, 0, 14, Some(2), vec![5]),
        n("required_parameter", true, "", 11, 13, 0, 11, 0, 13, Some(4), vec![6]),
        n("parameter", true, "", 11, 13, 0, 11, 0, 13, Some(5), vec![7]),
        n("string_parameter", true, "", 11, 13, 0, 11, 0, 13, Some(6), vec![8]),
        n("stringidentifier", true, "", 11, 13, 0, 11, 0, 13, Some(7), vec![]),
        n("string_user_function", true, "", 25, 35, 1, 7, 1, 17, Some(0), vec![10, 11]),
        n("function_name", true, "", 25, 31, 1, 7, 1, 13, Some(9), vec![]),
        n("arguments", true, "arguments", 31, 35, 1, 13, 1, 17, Some(9), vec![12]),
        n("argument", true, "", 32, 34, 1, 14, 1, 16, Some(11), vec![13]),
        n("expression", true, "", 32, 34, 1, 14, 1, 16, Some(12), vec![14]),
        n("numeric_expression", true, "", 32, 34, 1, 14, 1, 16, Some(13), vec![]),
    ];
    SyntaxTree::from_nodes(nodes).unwrap()
}

#[test]
fn type_mismatch_reported() {
    let source = "def fnFoo$(A$)=A$\nlet X$=fnFoo$(42)\n";
    let tree = type_tree();
    let table = BuiltinTable::new();
    let diags = br_lsp::diagnostics::check_parameter_count(&tree, source, &table);
    assert_eq!(diags.len(), 1);
    assert_eq!(diags[0].message, "Expected string argument at position 1, got numeric");
}

/// `"let X=fnMissing(1)\n"` — a call with no definition anywhere.
fn undefined_tree() -> SyntaxTree {
    let nodes = vec![
        n("program", true, "", 0, 19, 0, 0, 1, 0, None, vec![1]),
        n("numeric_user_function", true, "", 6, 18, 0, 6, 0, 18, Some(0), vec![2]),
        n("function_name", true, "", 6, 15, 0, 6, 0, 15, Some(1), vec![]),
    ];
    SyntaxTree::from_nodes(nodes).unwrap()
}

#[test]
fn undefined_function_after_indexing() {
    let source = "let X=fnMissing(1)\n";
    let tree = undefined_tree();
    let index = WorkspaceIndex::new();
    let diags = br_lsp::diagnostics::check_undefined_functions(&tree, source, &index);
    assert_eq!(diags.len(), 1);
    assert_eq!(diags[0].severity, Severity::Warning);
    assert_eq!(diags[0].code, "undefined-function");
    assert_eq!(diags[0].message, "Function 'fnMissing' is not defined in the workspace");
    assert_eq!(diags[0].range.start.character, 6);
    assert_eq!(diags[0].range.end.character, 15);
}

#[test]
fn undefined_function_suppressed_by_index() {
    let source = "let X=fnMissing(1)\n";
    let tree = undefined_tree();
    let mut index = WorkspaceIndex::new();
    index.add_file(
        "file:///other.brs",
        vec![br_lsp::extract::FunctionDef {
            name: "fnMissing".to_string(),
            range: br_lsp::types::make_range(0, 0, 0, 0),
            selection_range: br_lsp::types::make_range(0, 0, 0, 0),
            is_library: false,
            is_import_only: false,
            params: vec![],
            has_param_substitution: false,
            documentation: None,
            return_documentation: None,
        }],
    );
    let diags = br_lsp::diagnostics::check_undefined_functions(&tree, source, &index);
    assert!(diags.is_empty());
}

/// `/ws/a.brs = "def fnFoo(X)=X\n"`.
fn rename_def_tree() -> SyntaxTree {
    let nodes = vec![
        n("program", true, "", 0, 15, 0, 0, 1, 0, None, vec![1]),
        n("def_statement", true, "", 0, 14, 0, 0, 0, 14, Some(0), vec![2]),
        n("numeric_function_definition", true, "", 0, 14, 0, 0, 0, 14, Some(1), vec![3]),
        n("function_name", true, "", 4, 9, 0, 4, 0, 9, Some(2), vec![]),
    ];
    SyntaxTree::from_nodes(nodes).unwrap()
}

/// `/ws/b.brs = "let Y=fnFoo(1)\n"`.
fn rename_use_tree() -> SyntaxTree {
    let nodes = vec![
        n("program", true, "", 0, 15, 0, 0, 1, 0, None, vec![1]),
        n("numeric_user_function", true, "", 6, 14, 0, 6, 0, 14, Some(0), vec![2]),
        n("function_name", true, "", 6, 11, 0, 6, 0, 11, Some(1), vec![]),
    ];
    SyntaxTree::from_nodes(nodes).unwrap()
}

#[test]
fn cross_file_rename() {
    let tree_a = rename_def_tree();
    let tree_b = rename_use_tree();
    let source_a = "def fnFoo(X)=X\n";
    let source_b = "let Y=fnFoo(1)\n";
    let refs_a = br_lsp::references::find_function_refs_by_name("fnFoo", &tree_a, source_a);
    let refs_b = br_lsp::references::find_function_refs_by_name("fnFoo", &tree_b, source_b);
    assert_eq!(refs_a.len(), 1);
    assert_eq!(refs_b.len(), 1);
    let edits_a = br_lsp::rename::edits_for_ranges(&refs_a, "fnBar");
    let edits_b = br_lsp::rename::edits_for_ranges(&refs_b, "fnBar");
    assert_eq!(edits_a.len() + edits_b.len(), 2);
    for e in edits_a.iter().chain(edits_b.iter()) {
        assert_eq!(e.new_text, "fnBar");
    }
}

/// `"00100 let X = fnCalc(Count, Name$)\n"` with an undefined `fnCalc`.
fn stub_tree() -> SyntaxTree {
    let nodes = vec![
        n("program", true, "", 0, 35, 0, 0, 1, 0, None, vec![1]),
        n("line", true, "", 0, 34, 0, 0, 0, 34, Some(0), vec![2, 3]),
        n("line_number", true, "", 0, 5, 0, 0, 0, 5, Some(1), vec![]),
        n("numeric_user_function", true, "", 14, 34, 0, 14, 0, 34, Some(1), vec![4, 5]),
        n("function_name", true, "", 14, 20, 0, 14, 0, 20, Some(3), vec![]),
        n("arguments", true, "arguments", 20, 34, 0, 20, 0, 34, Some(3), vec![6, 10, 11]),
        n("argument", true, "", 21, 26, 0, 21, 0, 26, Some(5), vec![7]),
        n("expression", true, "", 21, 26, 0, 21, 0, 26, Some(6), vec![8]),
        n("numeric_expression", true, "", 21, 26, 0, 21, 0, 26, Some(7), vec![9]),
        n("numberidentifier", true, "", 21, 26, 0, 21, 0, 26, Some(8), vec![]),
        n(",", false, "", 26, 27, 0, 26, 0, 27, Some(5), vec![]),
        n("argument", true, "", 28, 33, 0, 28, 0, 33, Some(5), vec![12]),
        n("expression", true, "", 28, 33, 0, 28, 0, 33, Some(11), vec![13]),
        n("string_expression", true, "", 28, 33, 0, 28, 0, 33, Some(12), vec![14]),
        n("stringidentifier", true, "", 28, 33, 0, 28, 0, 33, Some(13), vec![]),
    ];
    SyntaxTree::from_nodes(nodes).unwrap()
}

#[test]
fn code_action_stub() {
    let source = "00100 let X = fnCalc(Count, Name$)\n";
    let tree = stub_tree();
    let diag = Diagnostic {
        range: br_lsp::types::make_range(0, 14, 0, 20),
        severity: Severity::Warning,
        code: "undefined-function".to_string(),
        message: "Function 'fnCalc' is not defined in the workspace".to_string(),
    };
    let action = br_lsp::code_action::create_function_stub_action(
        "file:///test.brs",
        &diag,
        &tree,
        source,
        1,
    )
    .unwrap();
    assert_eq!(action.title, "Generate function stub for 'fnCalc'");
    assert_eq!(action.insert_line, 1);
    assert_eq!(
        action.new_text,
        "\n00110 DEF fnCalc(Count,Name$)\n00120 ! TODO: Implement fnCalc\n00130 LET fnCalc=0\n00140 FNEND\n"
    );
}

#[test]
fn code_action_refused_for_other_codes() {
    let source = "00100 let X = fnCalc(Count, Name$)\n";
    let tree = stub_tree();
    let diag = Diagnostic {
        range: br_lsp::types::make_range(0, 14, 0, 20),
        severity: Severity::Warning,
        code: String::new(),
        message: "Function 'fnCalc' is not defined in the workspace".to_string(),
    };
    let action = br_lsp::code_action::create_function_stub_action(
        "file:///test.brs",
        &diag,
        &tree,
        source,
        1,
    );
    assert!(action.is_none());
}

/// `"let X = 1\ndef fnFoo(X)\nlet Y = X + 1\nfnend\nlet Z = X + 2\n"` —
/// one module-level `X` and a parameter `X` shadowing it.
fn scope_tree() -> SyntaxTree {
    let nodes = vec![
        n("program", true, "", 0, 57, 0, 0, 5, 0, None, vec![1, 3, 11, 13, 14]),
        n("numberreference", true, "", 4, 5, 0, 4, 0, 5, Some(0), vec![2]),
        n("numberidentifier", true, "name", 4, 5, 0, 4, 0, 5, Some(1), vec![]),
        n("def_statement", true, "", 10, 22, 1, 0, 1, 12, Some(0), vec![4]),
        n("numeric_function_definition", true, "", 10, 22, 1, 0, 1, 12, Some(3), vec![5, 6]),
        n("function_name", true, "", 14, 19, 1, 4, 1, 9, Some(4), vec![]),
        n("parameter_list", true, "", 19, 22, 1, 9, 1, 12, Some(4), vec![7]),
        n("required_parameter", true, "", 20, 21, 1, 10, 1, 11, Some(6), vec![8]),
        n("parameter", true, "", 20, 21, 1, 10, 1, 11, Some(7), vec![9]),
        n("numberreference", true, "", 20, 21, 1, 10, 1, 11, Some(8), vec![10]),
        n("numberidentifier", true, "name", 20, 21, 1, 10, 1, 11, Some(9), vec![]),
        n("numberreference", true, "", 31, 32, 2, 8, 2, 9, Some(0), vec![12]),
        n("numberidentifier", true, "name", 31, 32, 2, 8, 2, 9, Some(11), vec![]),
        n("fnend_statement", true, "", 37, 42, 3, 0, 3, 5, Some(0), vec![]),
        n("numberreference", true, "", 51, 52, 4, 8, 4, 9, Some(0), vec![15]),
        n("numberidentifier", true, "name", 51, 52, 4, 8, 4, 9, Some(14), vec![]),
    ];
    SyntaxTree::from_nodes(nodes).unwrap()
}

#[test]
fn variable_scope_param_only_in_function() {
    let source = "let X = 1\ndef fnFoo(X)\nlet Y = X + 1\nfnend\nlet Z = X + 2\n";
    let tree = scope_tree();
    // Cursor on the X inside the function body (node at line 2, col 8).
    let refs = br_lsp::references::find_references(&tree, source, 2, 8);
    assert_eq!(refs.len(), 2);
    for r in &refs {
        assert!(r.start.line == 1 || r.start.line == 2);
    }
}

#[test]
fn variable_scope_non_param_excludes_params() {
    let source = "let X = 1\ndef fnFoo(X)\nlet Y = X + 1\nfnend\nlet Z = X + 2\n";
    let tree = scope_tree();
    // Cursor on the module-level X (line 0, col 4).
    let refs = br_lsp::references::find_references(&tree, source, 0, 4);
    assert_eq!(refs.len(), 2);
    for r in &refs {
        assert!(r.start.line == 0 || r.start.line == 4);
    }
}

#[test]
fn missing_fnend_reported() {
    // "def fnFoo(X)\nlet Y=X*2\n" — an open definition never closed.
    let nodes = vec![
        n("program", true, "", 0, 23, 0, 0, 2, 0, None, vec![1]),
        n("def_statement", true, "", 0, 12, 0, 0, 0, 12, Some(0), vec![2]),
        n("numeric_function_definition", true, "", 0, 12, 0, 0, 0, 12, Some(1), vec![3]),
        n("function_name", true, "", 4, 9, 0, 4, 0, 9, Some(2), vec![]),
    ];
    let tree = SyntaxTree::from_nodes(nodes).unwrap();
    let source = "def fnFoo(X)\nlet Y=X*2\n";
    let diags = br_lsp::diagnostics::check_missing_fnend(&tree, source);
    assert_eq!(diags.len(), 1);
    assert_eq!(diags[0].message, "Function 'fnFoo' is missing FNEND");
    assert_eq!(diags[0].severity, Severity::Error);
}

#[test]
fn syntax_error_reported() {
    // An ERROR node covering "= =" in "let x = = =\n".
    let mut err = n("ERROR", true, "", 8, 11, 0, 8, 0, 11, Some(0), vec![]);
    err.error = true;
    let nodes = vec![
        n("program", true, "", 0, 12, 0, 0, 1, 0, None, vec![1]),
        err,
    ];
    let tree = SyntaxTree::from_nodes(nodes).unwrap();
    let source = "let x = = =\n";
    let diags = br_lsp::parser::collect_diagnostics(&tree, source);
    assert_eq!(diags.len(), 1);
    assert_eq!(diags[0].severity, Severity::Error);
    assert!(diags[0].message.contains("Syntax error: unexpected"));
    assert!(diags[0].message.contains("= ="));
}

#[test]
fn definitions_extracted_from_tree() {
    let source = "def fnFoo(A,B)=A+B\nlet X=fnFoo(1)\n";
    let tree = arity_tree();
    let defs = br_lsp::extract::extract_definitions(&tree, source);
    assert_eq!(defs.len(), 1);
    assert_eq!(defs[0].name, "fnFoo");
    assert!(!defs[0].is_library);
    assert!(!defs[0].is_import_only);
    assert_eq!(defs[0].params.len(), 2);
    assert_eq!(defs[0].params[0].name, "A");
    assert_eq!(defs[0].params[1].name, "B");
}

#[test]
fn document_symbols_from_tree() {
    let source = "def fnFoo(A,B)=A+B\nlet X=fnFoo(1)\n";
    let tree = arity_tree();
    let symbols = br_lsp::symbols::collect_document_symbols(&tree, source);
    assert_eq!(symbols.len(), 1);
    assert_eq!(symbols[0].name, "fnFoo");
    assert_eq!(symbols[0].detail, "function");
}

#[test]
fn goto_definition_finds_local_function() {
    let source = "def fnFoo(A,B)=A+B\nlet X=fnFoo(1)\n";
    let tree = arity_tree();
    match br_lsp::definition::find_definition(&tree, source, 1, 6) {
        br_lsp::definition::DefinitionResult::Found(range) => {
            assert_eq!(range.start.line, 0);
            assert_eq!(range.start.character, 4);
        },
        _ => panic!("expected a local definition"),
    }
}

#[test]
fn goto_definition_defers_unknown_function() {
    let source = "let X=fnMissing(1)\n";
    let tree = undefined_tree();
    match br_lsp::definition::find_definition(&tree, source, 0, 6) {
        br_lsp::definition::DefinitionResult::LookupFunction(name) => {
            assert_eq!(name, "fnMissing");
        },
        _ => panic!("expected a workspace lookup"),
    }
}

#[test]
fn semantic_token_deltas() {
    let tokens = vec![
        RawToken { line: 1, start: 4, length: 3, token_type: 1, modifiers: 0 },
        RawToken { line: 0, start: 0, length: 3, token_type: 3, modifiers: 0 },
        RawToken { line: 1, start: 0, length: 3, token_type: 3, modifiers: 0 },
    ];
    let encoded = encode_deltas(tokens);
    assert_eq!(encoded.len(), 3);
    assert_eq!((encoded[0].delta_line, encoded[0].delta_start), (0, 0));
    assert_eq!((encoded[1].delta_line, encoded[1].delta_start), (1, 0));
    assert_eq!((encoded[2].delta_line, encoded[2].delta_start), (0, 4));
}

#[test]
fn library_links_extracted() {
    // `library "vol002\rtflib": fnRTF\n`
    let source = "library \"vol002\\rtflib\": fnRTF\n";
    let nodes = vec![
        n("program", true, "", 0, 31, 0, 0, 1, 0, None, vec![1]),
        n("library_statement", true, "", 0, 30, 0, 0, 0, 30, Some(0), vec![2, 3]),
        n("string", true, "path", 8, 23, 0, 8, 0, 23, Some(1), vec![]),
        n("library_function_list", true, "", 25, 30, 0, 25, 0, 30, Some(1), vec![4]),
        n("function_name", true, "", 25, 30, 0, 25, 0, 30, Some(3), vec![]),
    ];
    let tree = SyntaxTree::from_nodes(nodes).unwrap();
    let links = br_lsp::extract::extract_library_links(&tree, source);
    assert_eq!(links.len(), 1);
    assert_eq!(links[0].0, "fnrtf");
    assert_eq!(links[0].1, "vol002/rtflib");
    let defs = br_lsp::extract::extract_definitions(&tree, source);
    assert_eq!(defs.len(), 1);
    assert_eq!(defs[0].name, "fnRTF");
    assert!(defs[0].is_library);
    assert!(defs[0].is_import_only);
}

#[test]
fn sorted_by_position() {
    // "ALABEL:\ndim X$*30\ndef fnFoo(A) = A\n" — grouped collection must
    // come back sorted by start position.
    let nodes = vec![
        n("program", true, "", 0, 35, 0, 0, 3, 0, None, vec![1, 2, 5]),
        n("label", true, "", 0, 7, 0, 0, 0, 7, Some(0), vec![]),
        n("dim_statement", true, "", 8, 17, 1, 0, 1, 9, Some(0), vec![3]),
        n("stringreference", true, "", 12, 17, 1, 4, 1, 9, Some(2), vec![4]),
        n("stringidentifier", true, "name", 12, 14, 1, 4, 1, 6, Some(3), vec![]),
        n("def_statement", true, "", 18, 34, 2, 0, 2, 16, Some(0), vec![6]),
        n("numeric_function_definition", true, "", 18, 34, 2, 0, 2, 16, Some(5), vec![7]),
        n("function_name", true, "", 22, 27, 2, 4, 2, 9, Some(6), vec![]),
    ];
    let tree = SyntaxTree::from_nodes(nodes).unwrap();
    let source = "ALABEL:\ndim X$*30\ndef fnFoo(A) = A\n";
    let symbols = br_lsp::symbols::collect_document_symbols(&tree, source);
    assert_eq!(symbols.len(), 3);
    for i in 1..symbols.len() {
        assert!(
            symbols[i].range.start.line >= symbols[i - 1].range.start.line,
            "Symbols not sorted by position"
        );
    }
    assert_eq!(symbols[0].name, "ALABEL");
    assert_eq!(symbols[1].name, "X$");
    assert_eq!(symbols[2].name, "fnFoo");
}

#[test]
fn br_tokens_classify_statement_line() {
    // "let x = 1\n": an anonymous statement token, a variable, a number.
    let nodes = vec![
        n("program", true, "", 0, 10, 0, 0, 1, 0, None, vec![1, 2, 3]),
        n("statement", false, "", 0, 3, 0, 0, 0, 3, Some(0), vec![]),
        n("numberidentifier", true, "", 4, 5, 0, 4, 0, 5, Some(0), vec![]),
        n("number", true, "", 8, 9, 0, 8, 0, 9, Some(0), vec![]),
    ];
    let tree = SyntaxTree::from_nodes(nodes).unwrap();
    let source = "let x = 1\n";
    let raw = br_lsp::semantic_tokens::collect_br_tokens(&tree, source);
    assert_eq!(raw.len(), 3);
    assert_eq!((raw[0].token_type, raw[0].line, raw[0].start, raw[0].length), (3, 0, 0, 3));
    assert_eq!((raw[1].token_type, raw[1].modifiers), (1, 0));
    assert_eq!(raw[2].token_type, 6);
    let encoded = encode_deltas(raw);
    assert_eq!(encoded[0].delta_line, 0);
    assert_eq!(encoded[0].delta_start, 0);
}

#[test]
fn br_tokens_mat_prefix_keyword() {
    // "print mat x\n": the hidden `mat` prefix of the array node becomes a
    // keyword token with the control-flow modifier.
    let nodes = vec![
        n("program", true, "", 0, 12, 0, 0, 1, 0, None, vec![1, 2]),
        n("statement", false, "", 0, 5, 0, 0, 0, 5, Some(0), vec![]),
        n("numberarray", true, "", 6, 11, 0, 6, 0, 11, Some(0), vec![3]),
        n("numberidentifier", true, "", 10, 11, 0, 10, 0, 11, Some(2), vec![]),
    ];
    let tree = SyntaxTree::from_nodes(nodes).unwrap();
    let source = "print mat x\n";
    let raw = br_lsp::semantic_tokens::collect_br_tokens(&tree, source);
    let mat = raw.iter().find(|t| t.token_type == 3 && t.modifiers == 8);
    assert!(mat.is_some(), "mat should be keyword+controlFlow");
    let m = mat.unwrap();
    assert_eq!((m.line, m.start, m.length), (0, 6, 3));
}

#[test]
fn gated_diagnostics_honours_flags() {
    let mut err = n("ERROR", true, "", 8, 11, 0, 8, 0, 11, Some(0), vec![]);
    err.error = true;
    let nodes = vec![
        n("program", true, "", 0, 12, 0, 0, 1, 0, None, vec![1]),
        err,
    ];
    let tree = SyntaxTree::from_nodes(nodes).unwrap();
    let source = "let x = = =\n";
    let table = BuiltinTable { funcs: Vec::new() };
    let all = br_lsp::diagnostics::DiagnosticsConfig {
        syntax: true,
        functions: true,
        undefined_functions: true,
        unused_variables: true,
    };
    let none = br_lsp::diagnostics::DiagnosticsConfig {
        syntax: false,
        functions: false,
        undefined_functions: false,
        unused_variables: false,
    };
    let on = br_lsp::diagnostics::gated_diagnostics(&all, &tree, source, &table, None);
    assert_eq!(on.len(), 1);
    assert!(on[0].message.contains("Syntax error"));
    let off = br_lsp::diagnostics::gated_diagnostics(&none, &tree, source, &table, None);
    assert!(off.is_empty());
}
