//! Rule configuration: a rule as read from its YAML file, and the same rule
//! with its tree-sitter query compiled for the language it applies to.
use vstd::prelude::*;
use crate::grammar::{CompiledQuery, Grammar, compile_query, query_compiles};

verus! {

/// A rule as its YAML file states it.
#[derive(Debug)]
pub struct YamlRule {
    pub id: String,
    pub language: String,
    pub rule_type: String,
    pub severity: String,
    pub message: String,
    pub tip: Option<String>,
    pub query: String,
}

/// A rule ready to run: its query compiled for a grammar.
pub struct RuleConfig {
    pub id: String,
    pub language: String,
    pub rule_type: String,
    pub severity: String,
    pub message: String,
    pub tip: Option<String>,
    pub compiled_query: CompiledQuery,
}

/// A rule whose query tree-sitter would not compile.
#[derive(Debug, Clone, PartialEq, Eq)]
pub struct QueryCompileError {
    /// The id of the rule.
    pub rule_id: String,
}

/// The rule with its query compiled for the grammar; the error names the
/// rule when tree-sitter refuses the query.
pub fn compile_rule(raw: YamlRule, language: &Grammar) -> (r: Result<
    RuleConfig,
    QueryCompileError,
>)
    ensures
        r is Ok <==> query_compiles(language@, raw.query@),
        match r {
            Ok(c) => c.id == raw.id && c.language == raw.language && c.rule_type == raw.rule_type
                && c.severity == raw.severity && c.message == raw.message && c.tip == raw.tip
                && c.compiled_query@ == (language@, raw.query@),
            Err(e) => e.rule_id == raw.id,
        },
{
    match compile_query(language, raw.query.as_str()) {
        Ok(compiled) => Ok(
            RuleConfig {
                id: raw.id,
                language: raw.language,
                rule_type: raw.rule_type,
                severity: raw.severity,
                message: raw.message,
                tip: raw.tip,
                compiled_query: compiled,
            },
        ),
        Err(_) => Err(QueryCompileError { rule_id: raw.id }),
    }
}

} // verus!
