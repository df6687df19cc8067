//! Tests over the workspace index: adding, removing, updating, and the
//! priority rules of lookup.

use br_lsp::extract::{FunctionDef, ParamInfo, ParamKind};
use br_lsp::types::make_range;
use br_lsp::workspace::WorkspaceIndex;

fn make_def(name: &str, is_library: bool) -> FunctionDef {
    FunctionDef {
        name: name.to_string(),
        range: make_range(0, 0, 0, 10),
        selection_range: make_range(0, 4, 0, 10),
        is_library,
        is_import_only: false,
        params: vec![],
        has_param_substitution: false,
        documentation: None,
        return_documentation: None,
    }
}

fn make_def_full(name: &str, is_library: bool, is_import_only: bool) -> FunctionDef {
    let mut d = make_def(name, is_library);
    d.is_import_only = is_import_only;
    d
}

#[test]
fn add_and_lookup() {
    let mut index = WorkspaceIndex::new();
    index.add_file("file:///workspace/test.brs", vec![make_def("fnFoo", false)]);
    let results = index.lookup("fnFoo");
    assert_eq!(results.len(), 1);
    assert_eq!(results[0].def.name, "fnFoo");
}

#[test]
fn lookup_case_insensitive() {
    let mut index = WorkspaceIndex::new();
    index.add_file("file:///workspace/test.brs", vec![make_def("fnFoo", false)]);
    assert_eq!(index.lookup("FNFOO").len(), 1);
    assert_eq!(index.lookup("fnfoo").len(), 1);
}

#[test]
fn remove_file() {
    let mut index = WorkspaceIndex::new();
    index.add_file("file:///workspace/test.brs", vec![make_def("fnFoo", false)]);
    index.remove_file("file:///workspace/test.brs");
    assert!(index.lookup("fnFoo").is_empty());
}

#[test]
fn update_file() {
    let mut index = WorkspaceIndex::new();
    index.add_file("file:///workspace/test.brs", vec![make_def("fnFoo", false)]);
    index.update_file("file:///workspace/test.brs", vec![make_def("fnBar", true)]);
    assert!(index.lookup("fnFoo").is_empty());
    assert_eq!(index.lookup("fnBar").len(), 1);
    assert!(index.lookup("fnBar")[0].def.is_library);
}

#[test]
fn multiple_files_same_function_name() {
    let mut index = WorkspaceIndex::new();
    index.add_file("file:///workspace/a.brs", vec![make_def("fnFoo", false)]);
    index.add_file("file:///workspace/b.brs", vec![make_def("fnFoo", true)]);
    assert_eq!(index.lookup("fnFoo").len(), 2);
}

#[test]
fn all_symbols() {
    let mut index = WorkspaceIndex::new();
    index.add_file(
        "file:///workspace/test.brs",
        vec![make_def("fnFoo", false), make_def("fnBar", true)],
    );
    assert_eq!(index.all_symbols().len(), 2);
}

#[test]
fn remove_only_target_file() {
    let mut index = WorkspaceIndex::new();
    index.add_file("file:///workspace/a.brs", vec![make_def("fnFoo", false)]);
    index.add_file("file:///workspace/b.brs", vec![make_def("fnFoo", true)]);
    index.remove_file("file:///workspace/a.brs");
    let results = index.lookup("fnFoo");
    assert_eq!(results.len(), 1);
    assert_eq!(results[0].uri, "file:///workspace/b.brs");
}

#[test]
fn function_def_with_params_in_index() {
    let mut index = WorkspaceIndex::new();
    let def = FunctionDef {
        name: "fnCalc$".to_string(),
        range: make_range(0, 0, 0, 0),
        selection_range: make_range(0, 0, 0, 0),
        is_library: true,
        is_import_only: false,
        params: vec![
            ParamInfo {
                name: "X".to_string(),
                kind: ParamKind::Numeric,
                is_optional: false,
                is_reference: false,
                documentation: None,
            },
            ParamInfo {
                name: "Y$".to_string(),
                kind: ParamKind::String,
                is_optional: true,
                is_reference: true,
                documentation: None,
            },
        ],
        has_param_substitution: false,
        documentation: None,
        return_documentation: None,
    };
    index.add_file("file:///workspace/test.brs", vec![def]);
    let results = index.lookup("fnCalc$");
    assert_eq!(results.len(), 1);
    assert_eq!(results[0].def.params.len(), 2);
    assert_eq!(results[0].def.params[1].kind, ParamKind::String);
    assert!(results[0].def.params[1].is_optional);
    assert!(results[0].def.params[1].is_reference);
}

#[test]
fn lookup_prioritized_local_first() {
    let mut index = WorkspaceIndex::new();
    index.add_file("file:///workspace/local.brs", vec![make_def("fnFoo", false)]);
    index.add_file("file:///workspace/other.brs", vec![make_def("fnFoo", true)]);
    let results = index.lookup_prioritized("fnFoo", "file:///workspace/local.brs");
    assert_eq!(results.len(), 2);
    assert_eq!(results[0].uri, "file:///workspace/local.brs");
}

#[test]
fn lookup_prioritized_library_before_non_library() {
    let mut index = WorkspaceIndex::new();
    index.add_file("file:///workspace/a.brs", vec![make_def("fnFoo", false)]);
    index.add_file("file:///workspace/b.brs", vec![make_def("fnFoo", true)]);
    let results = index.lookup_prioritized("fnFoo", "file:///workspace/other.brs");
    assert_eq!(results.len(), 2);
    assert!(results[0].def.is_library);
}

#[test]
fn lookup_prioritized_import_only_last() {
    let mut index = WorkspaceIndex::new();
    index.add_file("file:///workspace/a.brs", vec![make_def_full("fnFoo", false, true)]);
    index.add_file("file:///workspace/b.brs", vec![make_def("fnFoo", false)]);
    let results = index.lookup_prioritized("fnFoo", "file:///workspace/other.brs");
    assert_eq!(results.len(), 2);
    assert!(!results[0].def.is_import_only);
    assert!(results[1].def.is_import_only);
}

#[test]
fn lookup_best_returns_local() {
    let mut index = WorkspaceIndex::new();
    index.add_file("file:///workspace/other.brs", vec![make_def("fnFoo", true)]);
    index.add_file("file:///workspace/local.brs", vec![make_def("fnFoo", false)]);
    let best = index.lookup_best("fnFoo", "file:///workspace/local.brs").unwrap();
    assert_eq!(best.uri, "file:///workspace/local.brs");
}

#[test]
fn lookup_best_empty() {
    let index = WorkspaceIndex::new();
    assert!(index.lookup_best("fnNonexistent", "file:///x.brs").is_none());
}

#[test]
fn lookup_with_links_prefers_linked_library() {
    let mut index = WorkspaceIndex::new();
    index.add_file("file:///ws/other.brs", vec![make_def("fnRTF", true)]);
    index.add_file("file:///ws/vol002/rtflib.brs", vec![make_def("fnRTF", false)]);
    let links = vec![("fnrtf".to_string(), "vol002/rtflib".to_string())];
    let folders = vec!["file:///ws".to_string()];
    let results = index.lookup_prioritized_with_links(
        "fnRTF",
        "file:///ws/main.brs",
        &links,
        &folders,
    );
    assert_eq!(results.len(), 2);
    assert_eq!(results[0].uri, "file:///ws/vol002/rtflib.brs");
}

#[test]
fn unique_functions_dedup() {
    let mut index = WorkspaceIndex::new();
    index.add_file("file:///workspace/a.brs", vec![make_def("fnFoo", false)]);
    index.add_file("file:///workspace/b.brs", vec![make_def("fnFoo", false)]);
    let results = index.unique_functions("file:///workspace/main.brs");
    let foo_count = results.iter().filter(|r| r.def.name == "fnFoo").count();
    assert_eq!(foo_count, 1);
}

#[test]
fn unique_functions_prefers_library() {
    let mut index = WorkspaceIndex::new();
    index.add_file("file:///workspace/a.brs", vec![make_def("fnFoo", false)]);
    index.add_file("file:///workspace/b.brs", vec![make_def("fnFoo", true)]);
    let results = index.unique_functions("file:///workspace/main.brs");
    assert_eq!(results.len(), 1);
    assert!(results[0].def.is_library);
    assert_eq!(results[0].uri, "file:///workspace/b.brs");
}

#[test]
fn unique_functions_excludes_current_uri() {
    let mut index = WorkspaceIndex::new();
    index.add_file("file:///workspace/main.brs", vec![make_def("fnLocal", false)]);
    let results = index.unique_functions("file:///workspace/main.brs");
    assert!(results.is_empty());
}

#[test]
fn unique_functions_excludes_import_only() {
    let mut index = WorkspaceIndex::new();
    index.add_file("file:///workspace/lib.brs", vec![make_def_full("fnImport", false, true)]);
    let results = index.unique_functions("file:///workspace/main.brs");
    assert!(results.is_empty());
}

#[test]
fn visible_params_and_signature() {
    let def = FunctionDef {
        name: "fnPause".to_string(),
        range: make_range(0, 0, 0, 0),
        selection_range: make_range(0, 0, 0, 0),
        is_library: false,
        is_import_only: false,
        params: vec![
            ParamInfo {
                name: "Howlong".to_string(),
                kind: ParamKind::Numeric,
                is_optional: false,
                is_reference: false,
                documentation: None,
            },
            ParamInfo {
                name: "thekey$".to_string(),
                kind: ParamKind::String,
                is_optional: true,
                is_reference: true,
                documentation: None,
            },
            ParamInfo {
                name: "function".to_string(),
                kind: ParamKind::Numeric,
                is_optional: true,
                is_reference: true,
                documentation: None,
            },
            ParamInfo {
                name: "___".to_string(),
                kind: ParamKind::Numeric,
                is_optional: true,
                is_reference: false,
                documentation: None,
            },
            ParamInfo {
                name: "looping".to_string(),
                kind: ParamKind::Numeric,
                is_optional: true,
                is_reference: false,
                documentation: None,
            },
        ],
        has_param_substitution: false,
        documentation: None,
        return_documentation: None,
    };
    assert_eq!(def.visible_params().len(), 3);
    assert_eq!(def.format_signature(), "fnPause(Howlong, [&thekey$], [&function])");
    let (label, offsets) = def.format_signature_with_offsets();
    assert_eq!(label, "fnPause(Howlong, [&thekey$], [&function])");
    assert_eq!(offsets.len(), 3);
    assert_eq!(&label[offsets[0][0]..offsets[0][1]], "Howlong");
}
