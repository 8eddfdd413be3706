//! Routing of semantic checks: each YAML rule id maps to the Rust rule that
//! checks it.
use vstd::prelude::*;
use crate::config::RuleConfig;
use crate::diagnostics::{Diagnostic, DiagnosticModel};
use crate::name_map::NameMap;
use crate::rules::RegisteredRule;
use crate::symbol_table::SymbolTable;
use crate::syntax::SyntaxNode;

verus! {

/// A check that reads the symbol table to decide whether a node matched by
/// a rule's query violates the rule.
pub trait SemanticRule {
    /// What the check reports at `node`.
    spec fn report(&self, node: SyntaxNode, table: SymbolTable, rule: RuleConfig) -> Option<
        DiagnosticModel,
    >;

    /// Checks `node`; the diagnostic, if any, is the one `report` gives.
    fn check(&self, node: &SyntaxNode, table: &SymbolTable, rule: &RuleConfig) -> (r: Option<
        Diagnostic,
    >)
        requires
            table.wf(),
        ensures
            match r {
                Some(d) => self.report(*node, *table, *rule) == Some(d@),
                None => self.report(*node, *table, *rule) is None,
            },
    ;
}

/// What running the check registered under `id` reports at `node`; nothing
/// when no check has that id.
pub open spec fn dispatched(
    checkers: Map<Seq<char>, RegisteredRule>,
    id: Seq<char>,
    node: SyntaxNode,
    table: SymbolTable,
    rule: RuleConfig,
) -> Option<DiagnosticModel> {
    if checkers.contains_key(id) {
        checkers[id].report(node, table, rule)
    } else {
        None
    }
}

/// The check registered last under an id is the one that runs for it.
pub proof fn law_registered_check_runs(
    checkers: Map<Seq<char>, RegisteredRule>,
    id: Seq<char>,
    check: RegisteredRule,
    node: SyntaxNode,
    table: SymbolTable,
    rule: RuleConfig,
)
    ensures
        dispatched(checkers.insert(id, check), id, node, table, rule) == check.report(
            node,
            table,
            rule,
        ),
{
}

/// Registering a check under one id leaves what runs for every other id
/// unchanged.
pub proof fn law_register_leaves_other_ids(
    checkers: Map<Seq<char>, RegisteredRule>,
    id: Seq<char>,
    check: RegisteredRule,
    other: Seq<char>,
    node: SyntaxNode,
    table: SymbolTable,
    rule: RuleConfig,
)
    requires
        other != id,
    ensures
        dispatched(checkers.insert(id, check), other, node, table, rule) == dispatched(
            checkers,
            other,
            node,
            table,
            rule,
        ),
{
}

/// An id with no registered check reports nothing.
pub proof fn law_unregistered_id_reports_nothing(
    checkers: Map<Seq<char>, RegisteredRule>,
    id: Seq<char>,
    node: SyntaxNode,
    table: SymbolTable,
    rule: RuleConfig,
)
    requires
        !checkers.contains_key(id),
    ensures
        dispatched(checkers, id, node, table, rule) is None,
{
}

/// The registered semantic checks, by YAML rule id.
pub struct RuleDispatcher {
    pub checkers: NameMap<RegisteredRule>,
}

impl RuleDispatcher {
    /// The checker map keeps its ids distinct.
    pub open spec fn wf(&self) -> bool {
        self.checkers.wf()
    }

    /// A dispatcher with no check registered.
    pub fn new() -> (r: Self)
        ensures
            r.wf(),
            r.checkers.view() == Map::<Seq<char>, RegisteredRule>::empty(),
    {
        RuleDispatcher { checkers: NameMap::new() }
    }

    /// Registers `rule` under the YAML id `yaml_id`, replacing any check
    /// registered under it before.
    pub fn register(&mut self, yaml_id: &str, rule: RegisteredRule)
        requires
            old(self).wf(),
        ensures
            final(self).wf(),
            final(self).checkers.view() == old(self).checkers.view().insert(yaml_id@, rule),
    {
        self.checkers.insert(String::from_str(yaml_id), rule);
    }

    /// Whether a check is registered under `yaml_id`.
    pub fn is_registered(&self, yaml_id: &str) -> (r: bool)
        requires
            self.wf(),
        ensures
            r == self.checkers.view().contains_key(yaml_id@),
    {
        self.checkers.contains(yaml_id)
    }

    /// Runs the check registered under `yaml_id` on `node`; nothing when no
    /// check has that id.
    pub fn run_semantic_check(
        &self,
        yaml_id: &str,
        node: &SyntaxNode,
        table: &SymbolTable,
        rule: &RuleConfig,
    ) -> (r: Option<Diagnostic>)
        requires
            self.wf(),
            table.wf(),
        ensures
            match r {
                Some(d) => dispatched(self.checkers.view(), yaml_id@, *node, *table, *rule) == Some(
                    d@,
                ),
                None => dispatched(self.checkers.view(), yaml_id@, *node, *table, *rule) is None,
            },
    {
        if let Some(checker) = self.checkers.get(yaml_id) {
            checker.check(node, table, rule)
        } else {
            None
        }
    }
}

} // verus!
