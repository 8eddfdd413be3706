use ferriccp::analyzer::{analyze, analyze_matches, analyze_source, unregistered_semantic_rule, Capture};
use ferriccp::config::{compile_rule, RuleConfig, YamlRule};
use ferriccp::diagnostics::{build_diagnostic, output, render_text, sort_by_position, Diagnostic, OutputFormat};
use ferriccp::dispatcher::{RuleDispatcher, SemanticRule};
use ferriccp::grammar::{grammar, lower_tree, parse_source};
use ferriccp::language::{source_language, SourceLanguage};
use ferriccp::lsp::{editor_diagnostic, editor_severity, server_language, EditorSeverity};
use ferriccp::rules::{load_semantic_rules, ArrayBoundRule, BinaryMismatchRule, RegisteredRule};
use ferriccp::semantics::build_symbol_table;
use ferriccp::semantics::cpp::walk_ast;
use ferriccp::symbol_table::SymbolTable;
use ferriccp::syntax::{SyntaxChild, SyntaxNode};

const SAMPLE: &str = "#include <bits/stdc++.h>
using namespace std;
#define ll long long
using vi = vector<int>;
int n;
int m = 5;
int arr[10], *p;
int main() {
    int inner;
    vector<int> a(n);
    goto end;
end:
    return 0;
}
";

fn yaml(id: &str, rule_type: &str, message: &str, tip: Option<&str>, query: &str) -> YamlRule {
    YamlRule {
        id: id.to_string(),
        language: "cpp".to_string(),
        rule_type: rule_type.to_string(),
        severity: "critical".to_string(),
        message: message.to_string(),
        tip: tip.map(|t| t.to_string()),
        query: query.to_string(),
    }
}

fn cpp_rule(id: &str, rule_type: &str, message: &str, tip: Option<&str>, query: &str) -> RuleConfig {
    let lang = grammar(SourceLanguage::Cpp);
    compile_rule(yaml(id, rule_type, message, tip, query), &lang).expect("query compiles")
}

fn goto_rule() -> RuleConfig {
    cpp_rule(
        "ban_goto",
        "syntactic",
        "Use of 'goto' statement is banned.",
        Some("Refactor this control flow using loops or early returns."),
        "(goto_statement) @violation",
    )
}

fn array_bound_rule() -> RuleConfig {
    cpp_rule(
        "uninitialized_arr_bound",
        "semantic",
        "Variable '{var}' used as array bound but is completely uninitialized.",
        Some("Initialize '{var}' (e.g., cin >> {var}) before using it to size a container."),
        "(declaration declarator: (function_declarator parameters: (parameter_list))) @violation",
    )
}

fn leaf(kind: &str, text: &str, row: usize, column: usize) -> SyntaxNode {
    SyntaxNode {
        kind: kind.to_string(),
        text: Some(text.to_string()),
        start_row: row,
        start_column: column,
        end_row: row,
        end_column: column + text.len(),
        children: Vec::new(),
    }
}

fn node(kind: &str, row: usize, children: Vec<(Option<&str>, SyntaxNode)>) -> SyntaxNode {
    SyntaxNode {
        kind: kind.to_string(),
        text: Some(String::new()),
        start_row: row,
        start_column: 0,
        end_row: row,
        end_column: 1,
        children: children
            .into_iter()
            .map(|(f, n)| SyntaxChild { field: f.map(|s| s.to_string()), node: n })
            .collect(),
    }
}

fn sample_table() -> SymbolTable {
    let lang = grammar(SourceLanguage::Cpp);
    let parsed = parse_source(&lang, SAMPLE);
    let lowered = lower_tree(&parsed.root()).expect("lowers");
    build_symbol_table(&lowered, "cpp")
}

#[test]
fn extension_selects_language() {
    for ext in ["cpp", "cc", "cxx", "h", "hpp"] {
        assert_eq!(source_language(ext), Some(SourceLanguage::Cpp));
    }
    assert_eq!(source_language("py"), Some(SourceLanguage::Python));
    assert_eq!(source_language("rs"), None);
    assert_eq!(source_language(""), None);
    assert_eq!(SourceLanguage::Cpp.rules_dir(), "cpp");
    assert_eq!(SourceLanguage::Python.rules_dir(), "python");
}

#[test]
fn lowered_tree_has_kinds_fields_and_positions() {
    let lang = grammar(SourceLanguage::Cpp);
    let src = "int x = 1;\n";
    let parsed = parse_source(&lang, src);
    let lowered = lower_tree(&parsed.root()).unwrap();
    assert_eq!(lowered.kind, "translation_unit");
    let decl = lowered.child(0);
    assert_eq!(decl.kind, "declaration");
    assert_eq!(decl.text.as_deref(), Some("int x = 1;"));
    assert_eq!((decl.start_row, decl.start_column, decl.end_row, decl.end_column), (0, 0, 0, 10));
    let ty = decl.child_by_field_name("type").expect("type field");
    assert_eq!(ty.text.as_deref(), Some("int"));
    let init = decl.child_by_field_name("declarator").expect("declarator field");
    assert_eq!(init.kind, "init_declarator");
    assert!(decl.child_by_field_name("nothing").is_none());
}

#[test]
fn python_sources_parse() {
    let lang = grammar(SourceLanguage::Python);
    let parsed = parse_source(&lang, "x = 1\n");
    let lowered = lower_tree(&parsed.root()).unwrap();
    assert_eq!(lowered.kind, "module");
}

#[test]
fn symbol_table_holds_global_declarations_and_aliases() {
    let mut t = sample_table();
    assert_eq!(t.scope_count(), 1);
    let n = t.lookup_var("n").expect("n declared");
    assert_eq!(n.declared_type, "int");
    assert!(!n.is_initialized);
    assert_eq!(n.line_declared, 5);
    let m = t.lookup_var("m").expect("m declared");
    assert!(m.is_initialized);
    assert_eq!(m.line_declared, 6);
    assert!(!t.lookup_var("arr").unwrap().is_initialized);
    assert!(!t.lookup_var("p").unwrap().is_initialized);
    assert_eq!(t.resolve_type("ll"), "long long");
    assert_eq!(t.resolve_type("vi"), "vector<int>");
}

#[test]
fn block_declarations_leave_the_scopes_but_stay_registered() {
    let mut t = sample_table();
    assert!(t.lookup_var("inner").is_none());
    assert!(t.lookup_var("a").is_none());
    let reg = t.registry();
    let keys: Vec<&str> = (0..reg.len()).map(|i| reg.name_at(i).as_str()).collect();
    assert_eq!(keys, vec!["n_5", "m_6", "arr_7", "p_7", "inner_9"]);
}

fn table_of(src: &str) -> SymbolTable {
    let lang = grammar(SourceLanguage::Cpp);
    let parsed = parse_source(&lang, src);
    let lowered = lower_tree(&parsed.root()).expect("lowers");
    build_symbol_table(&lowered, "cpp")
}

#[test]
fn assignments_mark_variables_initialized() {
    let mut t = table_of("int n;\nint main() {\n    cin >> n;\n    n = 3;\n}\n");
    let n = t.lookup_var("n").expect("declared");
    assert!(n.is_initialized);
    assert!(n.is_mutated);
    assert_eq!(n.line_declared, 1);
    let reg = t.registry();
    let keys: Vec<&str> = (0..reg.len()).map(|i| reg.name_at(i).as_str()).collect();
    assert_eq!(keys, vec!["n_1", "n_3", "n_4"]);
    assert!(!reg.value_at(0).is_initialized);
    assert!(reg.value_at(1).is_initialized);
}

#[test]
fn chained_extraction_and_undeclared_targets() {
    let mut t = table_of("int a, b;\nint main() {\n    std::cin >> a >> b;\n    z = 1;\n    x >> a;\n}\n");
    assert!(t.lookup_var("a").unwrap().is_initialized);
    assert!(t.lookup_var("b").unwrap().is_initialized);
    assert!(t.lookup_var("z").is_none());
    let reg = t.registry();
    assert_eq!(reg.len(), 4);
}

#[test]
fn every_define_is_recorded() {
    let t = table_of("#define vi vector<int>\n#define rep(i,a,b) for(int i=a;i<b;i++)\n");
    assert_eq!(t.resolve_type("vi"), "vector<int>");
    assert_eq!(t.resolve_type("rep"), "for(int i=a;i<b;i++)");
}

#[test]
fn alias_chain_is_followed_through_the_walk() {
    let t = table_of("#define ll long long\n#define i64 ll\n");
    assert_eq!(t.resolve_type("i64"), "long long");
}

#[test]
fn other_extensions_get_an_empty_table() {
    let lang = grammar(SourceLanguage::Cpp);
    let parsed = parse_source(&lang, SAMPLE);
    let lowered = lower_tree(&parsed.root()).unwrap();
    let mut t = build_symbol_table(&lowered, "py");
    assert!(t.lookup_var("n").is_none());
    assert_eq!(t.resolve_type("ll"), "ll");
}

#[test]
fn walk_of_hand_built_tree() {
    // int x, *y; { int z; }
    let decl = node(
        "declaration",
        2,
        vec![
            (Some("type"), leaf("primitive_type", " int ", 2, 0)),
            (Some("declarator"), leaf("identifier", "x", 2, 4)),
            (Some("declarator"), node("pointer_declarator", 2, vec![(Some("declarator"), leaf("identifier", "y", 2, 8))])),
        ],
    );
    let block = node(
        "compound_statement",
        3,
        vec![(None, node("declaration", 3, vec![(Some("type"), leaf("primitive_type", "int", 3, 2)), (Some("declarator"), leaf("identifier", "z", 3, 6))]))],
    );
    let root = node("translation_unit", 0, vec![(None, decl), (None, block)]);
    let mut t = SymbolTable::new();
    walk_ast(&root, &mut t);
    assert_eq!(t.scope_count(), 1);
    assert_eq!(t.lookup_var("x").unwrap().declared_type, "int");
    assert_eq!(t.lookup_var("x").unwrap().line_declared, 3);
    assert!(t.lookup_var("y").is_some());
    assert!(t.lookup_var("z").is_none());
}

#[test]
fn build_diagnostic_fills_placeholders() {
    let rule = array_bound_rule();
    let n = leaf("declaration", "vector<int> a(n);", 9, 4);
    let d = build_diagnostic(&n, &rule, Some("n"));
    assert_eq!(d.id, "uninitialized_arr_bound");
    assert_eq!(d.message, "Variable 'n' used as array bound but is completely uninitialized.");
    assert_eq!(d.tip.as_deref(), Some("Initialize 'n' (e.g., cin >> n) before using it to size a container."));
    assert_eq!(d.severity, "critical");
    assert_eq!((d.line, d.column, d.end_line, d.end_column), (9, 4, 9, 21));
    assert_eq!(d.snippet, "vector<int> a(n);");
    let plain = build_diagnostic(&n, &rule, None);
    assert_eq!(plain.message, "Variable '{var}' used as array bound but is completely uninitialized.");
    let mut unreadable = leaf("x", "", 0, 0);
    unreadable.text = None;
    assert_eq!(build_diagnostic(&unreadable, &rule, None).snippet, "<unreadable>");
}

#[test]
fn goto_is_reported_by_syntactic_rule() {
    let rules = vec![goto_rule()];
    let v = analyze_source(SourceLanguage::Cpp, "cpp", SAMPLE, &rules).unwrap();
    assert_eq!(v.len(), 1);
    assert_eq!(v[0].id, "ban_goto");
    assert_eq!(v[0].message, "Use of 'goto' statement is banned.");
    assert_eq!(v[0].snippet, "goto end;");
    assert_eq!((v[0].line, v[0].column), (10, 4));
}

#[test]
fn uninitialized_array_bound_is_reported() {
    let rules = vec![array_bound_rule()];
    let v = analyze_source(SourceLanguage::Cpp, "cpp", SAMPLE, &rules).unwrap();
    assert_eq!(v.len(), 1);
    assert_eq!(v[0].message, "Variable 'n' used as array bound but is completely uninitialized.");
    assert_eq!(v[0].line, 9);
}

#[test]
fn initialized_array_bound_is_not_reported() {
    let src = "int n = 3;\nint main() {\n    vector<int> a(n);\n}\n";
    let v = analyze_source(SourceLanguage::Cpp, "cpp", src, &[array_bound_rule()]).unwrap();
    assert!(v.is_empty());
}

#[test]
fn readme_example_inside_main_is_reported() {
    let src = "int main() {\n    int n;\n    vector<int> arr(n);\n    cin >> n;\n}\n";
    let v = analyze_source(SourceLanguage::Cpp, "cpp", src, &[array_bound_rule()]).unwrap();
    assert_eq!(v.len(), 1);
    assert_eq!(v[0].line, 2);
    assert_eq!(v[0].snippet, "vector<int> arr(n);");
}

#[test]
fn read_before_sizing_is_not_reported() {
    let src = "int main() {\n    int n;\n    cin >> n;\n    vector<int> arr(n);\n}\n";
    let v = analyze_source(SourceLanguage::Cpp, "cpp", src, &[array_bound_rule()]).unwrap();
    assert!(v.is_empty());
}

#[test]
fn underscored_names_are_matched_whole() {
    let src = "int max_n;\nint main() {\n    vector<int> a(max_n);\n}\n";
    let v = analyze_source(SourceLanguage::Cpp, "cpp", src, &[array_bound_rule()]).unwrap();
    assert_eq!(v.len(), 1);
    assert_eq!(v[0].message, "Variable 'max_n' used as array bound but is completely uninitialized.");
    let other = "int max;\nint main() {\n    vector<int> a(max_n);\n}\n";
    assert!(analyze_source(SourceLanguage::Cpp, "cpp", other, &[array_bound_rule()]).unwrap().is_empty());
}

#[test]
fn closest_preceding_declaration_decides() {
    let src = "int n;\nint main() {\n    int n = 4;\n    vector<int> a(n);\n}\n";
    let v = analyze_source(SourceLanguage::Cpp, "cpp", src, &[array_bound_rule()]).unwrap();
    assert!(v.is_empty());
}

#[test]
fn later_declaration_is_not_reported() {
    let src = "int main() {\n    vector<int> a(n);\n}\nint n;\n";
    let v = analyze_source(SourceLanguage::Cpp, "cpp", src, &[array_bound_rule()]).unwrap();
    assert!(v.is_empty());
}

#[test]
fn captures_not_named_violation_are_ignored() {
    let rule = cpp_rule("goto_label", "syntactic", "m", None, "(goto_statement label: (statement_identifier) @label) @violation");
    let v = analyze_source(SourceLanguage::Cpp, "cpp", SAMPLE, &[rule]).unwrap();
    assert_eq!(v.len(), 1);
    assert_eq!(v[0].snippet, "goto end;");
}

#[test]
fn unknown_rule_type_reports_nothing() {
    let rule = cpp_rule("odd", "stylistic", "m", None, "(goto_statement) @violation");
    let v = analyze_source(SourceLanguage::Cpp, "cpp", SAMPLE, &[rule]).unwrap();
    assert!(v.is_empty());
}

#[test]
fn binary_mismatch_never_reports() {
    let rule = cpp_rule("binary_op_type_mismatch", "semantic", "m", None, "(binary_expression) @violation");
    let v = analyze_source(SourceLanguage::Cpp, "cpp", "int a = 1 + 2;\n", &[rule]).unwrap();
    assert!(v.is_empty());
    let t = SymbolTable::new();
    assert!(BinaryMismatchRule.check(&leaf("binary_expression", "1 + 2", 0, 0), &t, &goto_rule()).is_none());
}

#[test]
fn unregistered_semantic_rule_is_found() {
    let rules = vec![goto_rule(), array_bound_rule(), cpp_rule("mystery", "semantic", "m", None, "(goto_statement) @violation")];
    assert_eq!(unregistered_semantic_rule(&rules), Some(2));
    assert_eq!(unregistered_semantic_rule(&rules[..2]), None);
}

#[test]
fn bad_query_names_its_rule() {
    let lang = grammar(SourceLanguage::Cpp);
    let err = compile_rule(yaml("broken", "syntactic", "m", None, "(no_such_node) @violation"), &lang)
        .err()
        .expect("refused");
    assert_eq!(err.rule_id, "broken");
    let ok = compile_rule(yaml("ok", "syntactic", "msg", Some("t"), "(goto_statement) @violation"), &lang).unwrap();
    assert_eq!(ok.id, "ok");
    assert_eq!(ok.message, "msg");
    assert_eq!(ok.tip.as_deref(), Some("t"));
    assert_eq!(ok.rule_type, "syntactic");
    assert_eq!(ok.language, "cpp");
    assert_eq!(ok.severity, "critical");
}

#[test]
fn dispatcher_routes_by_id() {
    let mut d = RuleDispatcher::new();
    assert!(!d.is_registered("uninitialized_arr_bound"));
    load_semantic_rules(&mut d);
    assert!(d.is_registered("uninitialized_arr_bound"));
    assert!(d.is_registered("binary_op_type_mismatch"));
    assert!(!d.is_registered("ban_goto"));
    let mut t = SymbolTable::new();
    t.declare_var(
        "n".to_string(),
        ferriccp::symbol_table::VariableState {
            declared_type: "int".to_string(),
            is_initialized: false,
            is_mutated: false,
            read_count: 0,
            line_declared: 1,
        },
    );
    let decl = node(
        "declaration",
        4,
        vec![(
            Some("declarator"),
            node(
                "function_declarator",
                4,
                vec![(Some("parameters"), node("parameter_list", 4, vec![(None, leaf("parameter_declaration", " n ", 4, 14))]))],
            ),
        )],
    );
    let rule = array_bound_rule();
    let hit = d.run_semantic_check("uninitialized_arr_bound", &decl, &t, &rule).expect("reported");
    assert_eq!(hit.message, "Variable 'n' used as array bound but is completely uninitialized.");
    assert!(d.run_semantic_check("binary_op_type_mismatch", &decl, &t, &rule).is_none());
    assert!(d.run_semantic_check("unknown", &decl, &t, &rule).is_none());
    d.register("uninitialized_arr_bound", RegisteredRule::BinaryMismatch(BinaryMismatchRule));
    assert!(d.run_semantic_check("uninitialized_arr_bound", &decl, &t, &rule).is_none());
    assert!(ArrayBoundRule.check(&decl, &t, &rule).is_some());
}

#[test]
fn array_bound_uses_closest_record_and_line() {
    let mut t = SymbolTable::new();
    let st = |init: bool, line: usize| ferriccp::symbol_table::VariableState {
        declared_type: "int".to_string(),
        is_initialized: init,
        is_mutated: false,
        read_count: 0,
        line_declared: line,
    };
    t.declare_var("n".to_string(), st(false, 5));
    let decl = |row: usize| {
        node(
            "declaration",
            row,
            vec![(
                Some("declarator"),
                node(
                    "function_declarator",
                    row,
                    vec![(Some("parameters"), node("parameter_list", row, vec![(None, leaf("parameter_declaration", "n", row, 14))]))],
                ),
            )],
        )
    };
    let rule = array_bound_rule();
    // declared on line 5: not before line 5 (row 4), before line 6 (row 5)
    assert!(ArrayBoundRule.check(&decl(4), &t, &rule).is_none());
    assert!(ArrayBoundRule.check(&decl(5), &t, &rule).is_some());
    // initialized on line 7: lines 6 and 7 still see line 5, line 8 sees line 7
    t.record_state("n", st(true, 7));
    assert!(ArrayBoundRule.check(&decl(5), &t, &rule).is_some());
    assert!(ArrayBoundRule.check(&decl(6), &t, &rule).is_some());
    assert!(ArrayBoundRule.check(&decl(7), &t, &rule).is_none());
    // a record of another name ending in the same way does not count
    t.record_state("nn", st(false, 8));
    assert!(ArrayBoundRule.check(&decl(9), &t, &rule).is_none());
}

#[test]
fn analyze_matches_routes_captures() {
    let rules = vec![goto_rule(), array_bound_rule()];
    let t = SymbolTable::new();
    let cap = |name: &str| Capture { name: name.to_string(), node: leaf("goto_statement", "goto x;", 3, 2) };
    let matches = vec![vec![vec![cap("violation"), cap("label")], vec![cap("violation")]], vec![vec![cap("violation")]]];
    let v = analyze_matches(&rules, &matches, &t);
    assert_eq!(v.len(), 2);
    assert!(v.iter().all(|d| d.id == "ban_goto"));
}

#[test]
fn analyze_runs_queries_over_a_tree() {
    let lang = grammar(SourceLanguage::Cpp);
    let parsed = parse_source(&lang, SAMPLE);
    let root = parsed.root();
    let tree = lower_tree(&root).unwrap();
    let t = sample_table();
    let rules = [goto_rule(), array_bound_rule()];
    let v = analyze(&root, &tree, &rules, &t);
    assert_eq!(v.len(), 2);
    assert_eq!(v[0].id, "ban_goto");
    assert_eq!(v[1].id, "uninitialized_arr_bound");
    // the same arguments give the same diagnostics
    let w = analyze(&root, &tree, &rules, &t);
    assert_eq!(w.len(), 2);
    assert_eq!((w[0].line, w[1].line), (v[0].line, v[1].line));
    // no rules, no diagnostics
    assert!(analyze(&root, &tree, &[], &t).is_empty());
}

#[test]
fn captures_found_in_a_foreign_tree_are_left_out() {
    let lang = grammar(SourceLanguage::Cpp);
    let parsed = parse_source(&lang, SAMPLE);
    let root = parsed.root();
    let other = lower_tree(&parse_source(&lang, "int x;\n").root()).unwrap();
    let t = sample_table();
    assert!(analyze(&root, &other, &[goto_rule()], &t).is_empty());
}

#[test]
fn compiled_query_keeps_language_and_text() {
    let rule = goto_rule();
    assert_eq!(rule.compiled_query.text(), "(goto_statement) @violation");
    assert_eq!(rule.compiled_query.language(), SourceLanguage::Cpp);
}

fn diag(id: &str, line: usize, column: usize) -> Diagnostic {
    Diagnostic {
        id: id.to_string(),
        message: format!("message {}", id),
        severity: "warning".to_string(),
        line,
        column,
        end_line: line,
        end_column: column + 3,
        tip: None,
        snippet: "x".to_string(),
    }
}

#[test]
fn sort_orders_by_line_then_column_stably() {
    let mut v = vec![diag("a", 5, 2), diag("b", 1, 9), diag("c", 5, 1), diag("d", 1, 9), diag("e", 0, 0)];
    sort_by_position(&mut v);
    let ids: Vec<&str> = v.iter().map(|d| d.id.as_str()).collect();
    assert_eq!(ids, vec!["e", "b", "d", "c", "a"]);
}

#[test]
fn text_report_of_no_diagnostics() {
    let mut v: Vec<Diagnostic> = Vec::new();
    assert_eq!(output(&mut v, OutputFormat::Text).as_deref(), Some("No issues found, wow awesome code.\n"));
    assert_eq!(output(&mut v, OutputFormat::Json), None);
}

#[test]
fn text_report_layout() {
    let mut first = diag("ban_goto", 10, 4);
    first.tip = Some("Use a loop.".to_string());
    first.severity = "critical".to_string();
    let mut v = vec![diag("other", 12, 0), first];
    let text = output(&mut v, OutputFormat::Text).unwrap();
    assert_eq!(v[0].id, "ban_goto");
    let expected = "WARNING: message ban_goto (CRITICAL)\nRule: ban_goto\nTip: Use a loop.\nLocation: Line 11, Column 5\nCode: `x`\n\n\
WARNING: message other (WARNING)\nRule: other\nLocation: Line 13, Column 1\nCode: `x`\n\n";
    assert_eq!(text, expected);
    assert_eq!(render_text(&v), expected);
}

#[test]
fn json_format_only_sorts() {
    let mut v = vec![diag("b", 2, 0), diag("a", 1, 0)];
    assert!(output(&mut v, OutputFormat::Json).is_none());
    assert_eq!(v[0].id, "a");
    assert_eq!(OutputFormat::Json.name(), "json");
    assert_eq!(OutputFormat::Text.name(), "text");
    assert_eq!(OutputFormat::default(), OutputFormat::Text);
}

#[test]
fn editor_severities() {
    assert_eq!(editor_severity("ERROR"), EditorSeverity::Error);
    assert_eq!(editor_severity("Warning"), EditorSeverity::Warning);
    assert_eq!(editor_severity("critical"), EditorSeverity::Information);
    assert_eq!(editor_severity(""), EditorSeverity::Information);
}

#[test]
fn editor_diagnostic_fields() {
    let mut d = diag("ban_goto", 7, 3);
    d.severity = "Error".to_string();
    let e = editor_diagnostic(d);
    assert_eq!((e.start_line, e.start_column, e.end_line, e.end_column), (7, 3, 7, 6));
    assert_eq!(e.severity, EditorSeverity::Error);
    assert_eq!(e.code, "ban_goto");
    assert_eq!(e.source, "FerricCP");
    assert_eq!(e.message, "message ban_goto");
    let big = diag("x", (u32::MAX as usize) + 2, 0);
    assert_eq!(editor_diagnostic(big).start_line, 1);
}

#[test]
fn server_analyses_cpp_and_python() {
    assert_eq!(server_language("hpp"), Some(SourceLanguage::Cpp));
    assert_eq!(server_language("py"), Some(SourceLanguage::Python));
    assert_eq!(server_language("rs"), None);
}

#[test]
fn readme_example_output() {
    let mut v = vec![Diagnostic {
        id: "uninitialized_arr_bound".to_string(),
        message: "Variable 'n' used as array bound but is completely uninitialized.".to_string(),
        severity: "error".to_string(),
        line: 12,
        column: 4,
        end_line: 12,
        end_column: 23,
        tip: Some("Initialize 'n' (e.g., cin >> n) before using it to size a container.".to_string()),
        snippet: "vector<int> arr(n);".to_string(),
    }];
    let text = output(&mut v, OutputFormat::Text).unwrap();
    assert_eq!(
        text,
        "WARNING: Variable 'n' used as array bound but is completely uninitialized. (ERROR)\nRule: uninitialized_arr_bound\nTip: Initialize 'n' (e.g., cin >> n) before using it to size a container.\nLocation: Line 13, Column 5\nCode: `vector<int> arr(n);`\n\n"
    );
}

#[test]
fn json_output_accepts_any_position() {
    let mut v = vec![diag("b", usize::MAX, 0), diag("a", 1, 0)];
    assert!(output(&mut v, OutputFormat::Json).is_none());
    assert_eq!(v[0].id, "a");
}

fn all_texts_in(n: &SyntaxNode, source: &str) -> bool {
    n.text.as_deref().map_or(true, |t| source.contains(t)) && n.children.iter().all(|c| all_texts_in(&c.node, source))
}

#[test]
fn lowered_texts_come_from_the_source() {
    let lang = grammar(SourceLanguage::Cpp);
    let parsed = parse_source(&lang, SAMPLE);
    let lowered = lower_tree(&parsed.root()).unwrap();
    assert!(all_texts_in(&lowered, SAMPLE));
    assert_eq!(lowered.text.as_deref(), Some(SAMPLE));
}

#[test]
fn node_from_parts_refuses_unnumbered_positions() {
    let ok = SyntaxNode::from_parts("identifier".to_string(), Some("x".to_string()), 1, 2, 1, 3, Vec::new()).unwrap();
    assert_eq!((ok.kind.as_str(), ok.start_row, ok.end_column), ("identifier", 1, 3));
    assert!(SyntaxNode::from_parts("x".to_string(), None, usize::MAX, 0, 0, 0, Vec::new()).is_none());
    assert!(SyntaxNode::from_parts("x".to_string(), None, 0, 0, 0, usize::MAX, Vec::new()).is_none());
}
