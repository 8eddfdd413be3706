//! The semantic rules: checks that need the symbol table, and their
//! registration with the dispatcher under the ids their YAML files use.
use vstd::prelude::*;
use crate::config::RuleConfig;
use crate::diagnostics::{Diagnostic, DiagnosticModel, build_diagnostic, diagnostic_for};
use crate::dispatcher::{RuleDispatcher, SemanticRule};
use crate::symbol_table::{SymbolTable, VariableModel, VariableState, registry_key, registry_key_of};
use crate::syntax::{SyntaxChild, SyntaxNode};
use crate::text::{text_is, trim, trimmed};

verus! {

/// Flags a container sized by a variable that is not initialized at the line
/// of the sizing: the closest record of that variable before the line, a
/// declaration or an assignment, leaves it uninitialized
/// (`int n; vector<int> a(n);`). Its YAML id is `uninitialized_arr_bound`.
#[derive(Debug, Clone, Copy, PartialEq, Eq)]
pub struct ArrayBoundRule;

/// Meant to flag arithmetic between operands of different types; it reports
/// nothing yet. Its YAML id is `binary_op_type_mismatch`.
#[derive(Debug, Clone, Copy, PartialEq, Eq)]
pub struct BinaryMismatchRule;

/// The trimmed text of the last `parameter_declaration` among `cs` whose
/// text is readable.
pub open spec fn last_parameter_text(cs: Seq<SyntaxChild>) -> Option<Seq<char>>
    decreases cs.len(),
{
    if cs.len() == 0 {
        None
    } else if cs.last().node.kind@ == "parameter_declaration"@ && cs.last().node.text is Some {
        Some(trimmed(cs.last().node.text->0@))
    } else {
        last_parameter_text(cs.drop_last())
    }
}

/// The variable that sizes the container a declaration constructs: the last
/// parameter of its declarator's parameter list (`n` in
/// `vector<int> a(n);`).
pub open spec fn size_variable(node: SyntaxNode) -> Option<Seq<char>> {
    match node.field_child("declarator"@) {
        Some(d) => match d.field_child("parameters"@) {
            Some(p) => last_parameter_text(p.children@),
            None => None,
        },
        None => None,
    }
}

/// The registry holds under `key` a record of the variable `target` (the key
/// is `{target}_{line}` for the record's own line) from before `line`.
pub open spec fn precedes(
    records: Map<Seq<char>, VariableModel>,
    key: Seq<char>,
    target: Seq<char>,
    line: int,
) -> bool {
    &&& records.contains_key(key)
    &&& key == registry_key(target, records[key].line_declared)
    &&& records[key].line_declared < line
}

/// The closest record of `target` before `line` (the one with the largest
/// line) leaves the variable uninitialized.
pub open spec fn uninitialized_before(
    records: Map<Seq<char>, VariableModel>,
    target: Seq<char>,
    line: int,
) -> bool {
    exists|k: Seq<char>|
        #[trigger] precedes(records, k, target, line) && !records[k].is_initialized && forall|
            k2: Seq<char>,
        |
            #[trigger] precedes(records, k2, target, line) ==> records[k2].line_declared
                <= records[k].line_declared
}

/// A record that initializes `target` on line `at`, later than every other
/// record of it before `line`, keeps the variable from counting as
/// uninitialized there: `cin >> n` between `int n;` and `vector<int> a(n);`.
pub proof fn law_initialization_silences(
    records: Map<Seq<char>, VariableModel>,
    target: Seq<char>,
    state: VariableModel,
    line: int,
)
    requires
        state.is_initialized,
        state.line_declared < line,
        forall|k: Seq<char>|
            #[trigger] precedes(records, k, target, line) ==> records[k].line_declared
                < state.line_declared,
    ensures
        !uninitialized_before(
            records.insert(registry_key(target, state.line_declared), state),
            target,
            line,
        ),
{
    let key = registry_key(target, state.line_declared);
    let after = records.insert(key, state);
    assert(precedes(after, key, target, line));
    if uninitialized_before(after, target, line) {
        let k = choose|k: Seq<char>|
            #[trigger] precedes(after, k, target, line) && !after[k].is_initialized && forall|
                k2: Seq<char>,
            |
                #[trigger] precedes(after, k2, target, line) ==> after[k2].line_declared
                    <= after[k].line_declared;
        if k != key {
            assert(precedes(records, k, target, line));
        }
    }
}

/// A declaration of `target` without an initializer, on a line before
/// `line` and later than every other record of it before `line`, makes the
/// variable count as uninitialized there: `int n; vector<int> a(n);`.
pub proof fn law_uninitialized_declaration_counts(
    records: Map<Seq<char>, VariableModel>,
    target: Seq<char>,
    state: VariableModel,
    line: int,
)
    requires
        !state.is_initialized,
        state.line_declared < line,
        forall|k: Seq<char>|
            #[trigger] precedes(records, k, target, line) ==> records[k].line_declared
                < state.line_declared,
    ensures
        uninitialized_before(
            records.insert(registry_key(target, state.line_declared), state),
            target,
            line,
        ),
{
    let key = registry_key(target, state.line_declared);
    let after = records.insert(key, state);
    assert(precedes(after, key, target, line));
    assert forall|k2: Seq<char>| #[trigger] precedes(after, k2, target, line) implies after[k2].line_declared
        <= after[key].line_declared by {
        if k2 != key {
            assert(precedes(records, k2, target, line));
        }
    }
}

/// What `ArrayBoundRule` reports at `node`: a diagnostic naming the size
/// variable when the table holds it uninitialized from an earlier line.
pub open spec fn array_bound_report(node: SyntaxNode, table: SymbolTable, rule: RuleConfig) -> Option<
    DiagnosticModel,
> {
    match size_variable(node) {
        Some(target) => if uninitialized_before(table.records(), target, node.start_row + 1) {
            Some(diagnostic_for(node, rule, Some(target)))
        } else {
            None
        },
        None => None,
    }
}

impl ArrayBoundRule {
    /// The trimmed text of the last readable parameter of the declarator's
    /// parameter list.
    fn suspect_variable(node: &SyntaxNode) -> (r: Option<String>)
        ensures
            match r {
                Some(s) => size_variable(*node) == Some(s@),
                None => size_variable(*node) is None,
            },
    {
        let mut suspect_var: Option<String> = None;
        if let Some(declarator) = node.child_by_field_name("declarator") {
            if let Some(params) = declarator.child_by_field_name("parameters") {
                let mut i: usize = 0;
                while i < params.children.len()
                    invariant
                        i <= params.children@.len(),
                        match suspect_var {
                            Some(s) => last_parameter_text(params.children@.take(i as int)) == Some(
                                s@,
                            ),
                            None => last_parameter_text(params.children@.take(i as int)) is None,
                        },
                    decreases params.children.len() - i,
                {
                    let child = &params.children[i].node;
                    proof {
                        let t = params.children@.take(i + 1);
                        assert(t.drop_last() =~= params.children@.take(i as int));
                        assert(t.last().node == *child);
                    }
                    if child.is_kind("parameter_declaration") {
                        if let Some(name) = &child.text {
                            suspect_var = Some(trim(name.as_str()));
                        }
                    }
                    i += 1;
                }
                assert(params.children@.take(i as int) =~= params.children@);
            }
        }
        suspect_var
    }

    /// Whether the closest record of `target` before the one-based line
    /// `start_row + 1` leaves it uninitialized.
    fn find_uninitialized(table: &SymbolTable, target: &str, start_row: usize) -> (r: bool)
        requires
            table.wf(),
        ensures
            r == uninitialized_before(table.records(), target@, start_row + 1),
    {
        let registry = table.registry();
        let ghost recs = table.records();
        proof {
            registry.lemma_entries();
        }
        let ghost es = registry.entries();
        let mut best_line: usize = 0;
        let mut best_init: bool = true;
        let mut found: bool = false;
        let ghost mut best_key: Seq<char> = Seq::empty();
        let mut j: usize = 0;
        while j < registry.len()
            invariant
                registry.wf(),
                es == registry.entries(),
                recs == registry.view().map_values(|v: VariableState| v@),
                j <= es.len(),
                forall|i: int| #![trigger es[i]]
                    0 <= i < es.len() ==> registry.view().contains_key(es[i].0@)
                        && registry.view()[es[i].0@] == es[i].1,
                forall|k: Seq<char>|
                    #![trigger registry.view().contains_key(k)]
                    registry.view().contains_key(k) <==> exists|i: int|
                        0 <= i < es.len() && es[i].0@ == k,
                found ==> precedes(recs, best_key, target@, start_row + 1)
                    && recs[best_key].line_declared == best_line
                    && recs[best_key].is_initialized == best_init,
                forall|i: int|
                    0 <= i < j && #[trigger] precedes(recs, es[i].0@, target@, start_row + 1)
                        ==> found && recs[es[i].0@].line_declared <= best_line,
            decreases es.len() - j,
        {
            let key = registry.name_at(j);
            let state = registry.value_at(j);
            let expected = registry_key_of(target, state.line_declared);
            proof {
                assert(es[j as int].0 == *key);
                assert(recs.contains_key(key@));
                assert(recs[key@] == state@);
            }
            if text_is(key.as_str(), expected.as_str()) && state.line_declared <= start_row {
                if !found || best_line < state.line_declared {
                    found = true;
                    best_line = state.line_declared;
                    best_init = state.is_initialized;
                    proof {
                        best_key = key@;
                    }
                }
            }
            j += 1;
        }
        proof {
            assert forall|k2: Seq<char>| #[trigger] precedes(recs, k2, target@, start_row + 1) implies found
                && recs[k2].line_declared <= best_line by {
                assert(registry.view().contains_key(k2));
                let i = choose|i: int| 0 <= i < es.len() && es[i].0@ == k2;
                assert(precedes(recs, es[i].0@, target@, start_row + 1));
            }
            if uninitialized_before(recs, target@, start_row + 1) {
                let k = choose|k: Seq<char>|
                    #[trigger] precedes(recs, k, target@, start_row + 1) && !recs[k].is_initialized
                        && forall|k2: Seq<char>|
                        #[trigger] precedes(recs, k2, target@, start_row + 1)
                            ==> recs[k2].line_declared <= recs[k].line_declared;
                assert(found);
                assert(recs[best_key].line_declared <= recs[k].line_declared);
                assert(recs[k].line_declared <= best_line);
                assert(k == best_key);
            }
            if found && !best_init {
                assert(precedes(recs, best_key, target@, start_row + 1));
            }
        }
        found && !best_init
    }
}

impl SemanticRule for ArrayBoundRule {
    open spec fn report(&self, node: SyntaxNode, table: SymbolTable, rule: RuleConfig) -> Option<
        DiagnosticModel,
    > {
        array_bound_report(node, table, rule)
    }

    fn check(&self, node: &SyntaxNode, table: &SymbolTable, rule: &RuleConfig) -> (r: Option<
        Diagnostic,
    >) {
        match Self::suspect_variable(node) {
            Some(target_var) => if Self::find_uninitialized(table, target_var.as_str(), node.start_row) {
                Some(build_diagnostic(node, rule, Some(target_var.as_str())))
            } else {
                None
            },
            None => None,
        }
    }
}

impl SemanticRule for BinaryMismatchRule {
    open spec fn report(&self, node: SyntaxNode, table: SymbolTable, rule: RuleConfig) -> Option<
        DiagnosticModel,
    > {
        None
    }

    fn check(&self, node: &SyntaxNode, table: &SymbolTable, rule: &RuleConfig) -> (r: Option<
        Diagnostic,
    >) {
        None
    }
}

/// A semantic rule that the dispatcher can hold.
#[derive(Debug, Clone, Copy, PartialEq, Eq)]
pub enum RegisteredRule {
    ArrayBound(ArrayBoundRule),
    BinaryMismatch(BinaryMismatchRule),
}

impl SemanticRule for RegisteredRule {
    open spec fn report(&self, node: SyntaxNode, table: SymbolTable, rule: RuleConfig) -> Option<
        DiagnosticModel,
    > {
        match self {
            RegisteredRule::ArrayBound(r) => r.report(node, table, rule),
            RegisteredRule::BinaryMismatch(r) => r.report(node, table, rule),
        }
    }

    fn check(&self, node: &SyntaxNode, table: &SymbolTable, rule: &RuleConfig) -> (r: Option<
        Diagnostic,
    >) {
        match self {
            RegisteredRule::ArrayBound(r) => r.check(node, table, rule),
            RegisteredRule::BinaryMismatch(r) => r.check(node, table, rule),
        }
    }
}

/// The semantic rules of the analyzer, by the ids of their YAML files.
pub open spec fn builtin_rules() -> Map<Seq<char>, RegisteredRule> {
    Map::empty().insert("uninitialized_arr_bound"@, RegisteredRule::ArrayBound(ArrayBoundRule)).insert(
        "binary_op_type_mismatch"@,
        RegisteredRule::BinaryMismatch(BinaryMismatchRule),
    )
}

/// Registers the analyzer's semantic rules under their YAML ids.
pub fn load_semantic_rules(dispatcher: &mut RuleDispatcher)
    requires
        old(dispatcher).wf(),
    ensures
        final(dispatcher).wf(),
        final(dispatcher).checkers.view() == old(dispatcher).checkers.view().insert(
            "uninitialized_arr_bound"@,
            RegisteredRule::ArrayBound(ArrayBoundRule),
        ).insert("binary_op_type_mismatch"@, RegisteredRule::BinaryMismatch(BinaryMismatchRule)),
{
    dispatcher.register("uninitialized_arr_bound", RegisteredRule::ArrayBound(ArrayBoundRule));
    dispatcher.register("binary_op_type_mismatch", RegisteredRule::BinaryMismatch(BinaryMismatchRule));
}

} // verus!
