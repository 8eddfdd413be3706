use ferriccp::name_map::NameMap;
use ferriccp::source_table;
use ferriccp::symbol_table::{registry_key_of, Scope, SymbolTable, VariableState};
use ferriccp::text::{push_decimal, replace, text_is, trim};

fn state(ty: &str, initialized: bool, line: usize) -> VariableState {
    VariableState {
        declared_type: ty.to_string(),
        is_initialized: initialized,
        is_mutated: false,
        read_count: 0,
        line_declared: line,
    }
}

#[test]
fn trim_removes_unicode_white_space_at_both_ends() {
    assert_eq!(trim("  n \t\n"), "n");
    assert_eq!(trim("\u{3000}long long\u{a0}"), "long long");
    assert_eq!(trim(" a b "), "a b");
    assert_eq!(trim("   "), "");
    assert_eq!(trim(""), "");
}

#[test]
fn trim_agrees_with_std() {
    for s in ["x", " x", "x ", "\u{2028}x\u{85}", "\u{200b}x", "\r\n y z \u{205f}"] {
        assert_eq!(trim(s), s.trim());
    }
}

#[test]
fn replace_matches_std_replace() {
    let cases = [
        ("Variable '{var}' is unset.", "{var}", "n"),
        ("{var}{var}", "{var}", "ab"),
        ("no placeholder", "{var}", "x"),
        ("aaa", "aa", "b"),
        ("{va{var}r}", "{var}", "Z"),
    ];
    for (s, pat, rep) in cases {
        assert_eq!(replace(s, pat, rep), s.replace(pat, rep));
    }
}

#[test]
fn decimal_rendering() {
    let mut s = String::from("Line ");
    push_decimal(&mut s, 0);
    assert_eq!(s, "Line 0");
    let mut t = String::new();
    push_decimal(&mut t, 1234567890);
    assert_eq!(t, "1234567890");
    let mut u = String::new();
    push_decimal(&mut u, usize::MAX);
    assert_eq!(u, usize::MAX.to_string());
}

#[test]
fn text_comparison() {
    assert!(text_is("declaration", "declaration"));
    assert!(!text_is("declaration", "declarations"));
    assert!(!text_is("", "x"));
    assert!(text_is("", ""));
}

#[test]
fn name_map_insert_replaces_value() {
    let mut m: NameMap<u32> = NameMap::new();
    assert_eq!(m.len(), 0);
    m.insert("a".to_string(), 1);
    m.insert("b".to_string(), 2);
    m.insert("a".to_string(), 3);
    assert_eq!(m.len(), 2);
    assert_eq!(m.get("a"), Some(&3));
    assert_eq!(m.get("b"), Some(&2));
    assert_eq!(m.get("c"), None);
    assert!(m.contains("b"));
    assert!(!m.contains("c"));
    if let Some(v) = m.get_mut("b") {
        *v = 20;
    }
    assert_eq!(m.get("b"), Some(&20));
    assert!(m.get_mut("zz").is_none());
    assert_eq!(m.name_at(0), "a");
    assert_eq!(*m.value_at(1), 20);
}

#[test]
fn lookup_finds_declared_variable() {
    let mut t = SymbolTable::new();
    t.declare_var("n".to_string(), state("int", false, 3));
    let found = t.lookup_var("n").expect("declared");
    assert_eq!(found.declared_type, "int");
    assert!(!found.is_initialized);
    assert_eq!(found.line_declared, 3);
    assert!(t.lookup_var("m").is_none());
}

#[test]
fn lookup_changes_in_place() {
    let mut t = SymbolTable::new();
    t.declare_var("n".to_string(), state("int", false, 3));
    t.lookup_var("n").unwrap().is_initialized = true;
    assert!(t.lookup_var("n").unwrap().is_initialized);
}

#[test]
fn inner_scope_shadows_and_exit_restores() {
    let mut t = SymbolTable::new();
    t.declare_var("ans".to_string(), state("int", false, 3));
    t.enter_scope();
    assert_eq!(t.scope_count(), 2);
    t.declare_var("ans".to_string(), state("long long", true, 18));
    assert_eq!(t.lookup_var("ans").unwrap().line_declared, 18);
    t.exit_scope();
    assert_eq!(t.scope_count(), 1);
    assert_eq!(t.lookup_var("ans").unwrap().line_declared, 3);
}

#[test]
fn global_scope_is_never_closed() {
    let mut t = SymbolTable::new();
    t.declare_var("g".to_string(), state("int", true, 1));
    t.exit_scope();
    t.exit_scope();
    assert_eq!(t.scope_count(), 1);
    assert!(t.lookup_var("g").is_some());
}

#[test]
fn resolve_type_follows_aliases_outward() {
    let mut t = SymbolTable::new();
    t.declare_alias("ll".to_string(), "long long".to_string());
    t.enter_scope();
    t.declare_alias("T".to_string(), "ll".to_string());
    assert_eq!(t.resolve_type("T"), "long long");
    assert_eq!(t.resolve_type("ll"), "long long");
    assert_eq!(t.resolve_type("int"), "int");
    t.exit_scope();
    assert_eq!(t.resolve_type("T"), "T");
}

#[test]
fn resolve_type_follows_a_chain_in_one_scope() {
    let mut t = SymbolTable::new();
    t.declare_alias("ll".to_string(), "long long".to_string());
    t.declare_alias("i64".to_string(), "ll".to_string());
    assert_eq!(t.resolve_type("i64"), "long long");
    t.declare_alias("a".to_string(), "b".to_string());
    t.declare_alias("b".to_string(), "c".to_string());
    assert_eq!(t.resolve_type("a"), "c");
}

#[test]
fn resolve_type_stops_on_a_cycle() {
    let mut t = SymbolTable::new();
    t.declare_alias("a".to_string(), "b".to_string());
    t.declare_alias("b".to_string(), "a".to_string());
    // two aliases: two steps are followed, a -> b -> a
    assert_eq!(t.resolve_type("a"), "a");
    assert_eq!(t.resolve_type("b"), "b");
}

#[test]
fn inner_alias_chains_to_outer_one() {
    let mut t = SymbolTable::new();
    t.declare_alias("T".to_string(), "ll".to_string());
    t.enter_scope();
    t.declare_alias("ll".to_string(), "long long".to_string());
    assert_eq!(t.resolve_type("T"), "long long");
    t.exit_scope();
    assert_eq!(t.resolve_type("T"), "ll");
}

#[test]
fn registry_keeps_every_declaration() {
    let mut t = SymbolTable::new();
    t.declare_var("ans".to_string(), state("int", false, 3));
    t.enter_scope();
    t.declare_var("ans".to_string(), state("int", true, 18));
    t.exit_scope();
    let reg = t.registry();
    assert_eq!(reg.len(), 2);
    assert_eq!(reg.name_at(0), "ans_3");
    assert!(!reg.value_at(0).is_initialized);
    assert_eq!(reg.name_at(1), "ans_18");
    assert!(reg.value_at(1).is_initialized);
    assert_eq!(t.lookup_var("ans").unwrap().line_declared, 3);
}

#[test]
fn registry_key_is_name_and_line() {
    assert_eq!(registry_key_of("max_n", 12), "max_n_12");
    assert_eq!(registry_key_of("", 0), "_0");
}

#[test]
fn scope_default_is_empty() {
    let s = Scope::default();
    assert_eq!(s.variables.len(), 0);
    assert_eq!(s.aliases.len(), 0);
}

#[test]
fn source_table_scopes() {
    let mut t = source_table::SymbolTable::new();
    let st = |line: usize, init: bool| source_table::VariableState {
        declared_type: "int".to_string(),
        is_initialized: init,
        is_mutated: false,
        read_count: 0,
        line_declared: line,
    };
    t.declare("x".to_string(), st(1, false));
    t.enter_scope();
    t.declare("x".to_string(), st(5, true));
    assert_eq!(t.lookup_mut("x").unwrap().line_declared, 5);
    t.lookup_mut("x").unwrap().read_count = 2;
    assert_eq!(t.lookup_mut("x").unwrap().read_count, 2);
    t.exit_scope();
    assert_eq!(t.lookup_mut("x").unwrap().line_declared, 1);
    assert_eq!(t.lookup_mut("x").unwrap().read_count, 0);
    t.exit_scope();
    assert!(t.lookup_mut("x").is_some());
    assert!(t.lookup_mut("y").is_none());
}
