//! The second analysis pass: running each rule's query over the tree and
//! turning the nodes captured as `@violation` into diagnostics, directly for
//! syntactic rules and through the semantic check registered under the
//! rule's id for semantic ones.
use vstd::prelude::*;
use crate::config::RuleConfig;
use crate::diagnostics::{Diagnostic, DiagnosticModel, build_diagnostic, diagnostic_for};
use crate::dispatcher::{RuleDispatcher, dispatched};
use crate::grammar::{
    CaptureModel, QueryCapture, SourceNode, captures_model, descendant_count_at, grammar,
    lower_tree, lowerable, lowered_as, parse_source, query_captures, query_matches,
};
use crate::language::SourceLanguage;
use crate::semantics::{build_symbol_table, built_table};
use crate::semantics::cpp::table_model;
use crate::rules::{builtin_rules, load_semantic_rules};
use crate::symbol_table::SymbolTable;
use crate::syntax::{SyntaxChild, SyntaxNode};
use crate::text::text_is;

verus! {

/// A node that a query captured, with the capture's name in the query.
pub struct Capture {
    pub name: String,
    pub node: SyntaxNode,
}

impl View for Capture {
    type V = (Seq<char>, SyntaxNode);

    open spec fn view(&self) -> (Seq<char>, SyntaxNode) {
        (self.name@, self.node)
    }
}

/// What one capture (its name and node) of a match of `rule`'s query
/// reports: nothing unless the capture is named `violation`; then, for a
/// semantic rule, what the check registered under the rule's id reports,
/// and for a syntactic rule the rule's own diagnostic at the node.
pub open spec fn capture_report(rule: RuleConfig, cap: (Seq<char>, SyntaxNode), table: SymbolTable) -> Seq<
    DiagnosticModel,
> {
    if cap.0 != "violation"@ {
        Seq::empty()
    } else if rule.rule_type@ == "semantic"@ {
        match dispatched(builtin_rules(), rule.id@, cap.1, table, rule) {
            Some(d) => seq![d],
            None => Seq::empty(),
        }
    } else if rule.rule_type@ == "syntactic"@ {
        seq![diagnostic_for(cap.1, rule, None)]
    } else {
        Seq::empty()
    }
}

/// What the captures of one match report, in order.
pub open spec fn match_report(rule: RuleConfig, caps: Seq<(Seq<char>, SyntaxNode)>, table: SymbolTable) -> Seq<
    DiagnosticModel,
>
    decreases caps.len(),
{
    if caps.len() == 0 {
        Seq::empty()
    } else {
        match_report(rule, caps.drop_last(), table) + capture_report(rule, caps.last(), table)
    }
}

/// What the matches of one rule's query report, in order.
pub open spec fn rule_report(
    rule: RuleConfig,
    matches: Seq<Seq<(Seq<char>, SyntaxNode)>>,
    table: SymbolTable,
) -> Seq<DiagnosticModel>
    decreases matches.len(),
{
    if matches.len() == 0 {
        Seq::empty()
    } else {
        rule_report(rule, matches.drop_last(), table) + match_report(rule, matches.last(), table)
    }
}

/// What all rules report, rule by rule; `matches[i]` holds the matches of
/// the query of `rules[i]`.
pub open spec fn analysis_report(
    rules: Seq<RuleConfig>,
    matches: Seq<Seq<Seq<(Seq<char>, SyntaxNode)>>>,
    table: SymbolTable,
) -> Seq<DiagnosticModel>
    decreases rules.len(),
{
    if rules.len() == 0 || matches.len() == 0 {
        Seq::empty()
    } else {
        analysis_report(rules.drop_last(), matches.drop_last(), table) + rule_report(
            rules.last(),
            matches.last(),
            table,
        )
    }
}

/// The models of a list of matches per rule.
pub open spec fn matches_model(v: Seq<Vec<Vec<Capture>>>) -> Seq<Seq<Seq<(Seq<char>, SyntaxNode)>>> {
    v.map_values(
        |m: Vec<Vec<Capture>>| m@.map_values(|c: Vec<Capture>| c@.map_values(|x: Capture| x@)),
    )
}

/// Whether `n` is the node a capture reports: the same kind and the same
/// start and end positions.
pub open spec fn is_captured_node(n: SyntaxNode, c: CaptureModel) -> bool {
    &&& n.kind@ == c.1
    &&& n.start_row == c.2
    &&& n.start_column == c.3
    &&& n.end_row == c.4
    &&& n.end_column == c.5
}

/// The first node of the tree under `n`, in pre-order, that a capture
/// reports.
pub open spec fn find_node(n: SyntaxNode, c: CaptureModel) -> Option<SyntaxNode>
    decreases n,
{
    if is_captured_node(n, c) {
        Some(n)
    } else {
        find_in(n.children@, c)
    }
}

/// The first node, in pre-order, of the subtrees `cs` that a capture
/// reports.
pub open spec fn find_in(cs: Seq<SyntaxChild>, c: CaptureModel) -> Option<SyntaxNode>
    decreases cs,
{
    if cs.len() == 0 {
        None
    } else {
        match find_in(cs.drop_last(), c) {
            Some(x) => Some(x),
            None => find_node(cs.last().node, c),
        }
    }
}

/// The node reported for a capture lies at the capture's own place: it has
/// the kind, the start row and column and the end row and column that
/// tree-sitter reports for the captured node, and it is a node of the tree.
pub proof fn law_found_node_is_at_capture(n: SyntaxNode, c: CaptureModel)
    ensures
        find_node(n, c) matches Some(x) ==> x.kind@ == c.1 && x.start_row == c.2 && x.start_column
            == c.3 && x.end_row == c.4 && x.end_column == c.5,
    decreases n,
{
    if !is_captured_node(n, c) {
        lemma_found_in_is_at_capture(n.children@, c);
    }
}

/// The node found among subtrees for a capture lies at the capture's place.
proof fn lemma_found_in_is_at_capture(cs: Seq<SyntaxChild>, c: CaptureModel)
    ensures
        find_in(cs, c) matches Some(x) ==> x.kind@ == c.1 && x.start_row == c.2 && x.start_column
            == c.3 && x.end_row == c.4 && x.end_column == c.5,
    decreases cs,
{
    if cs.len() > 0 {
        lemma_found_in_is_at_capture(cs.drop_last(), c);
        law_found_node_is_at_capture(cs.last().node, c);
    }
}

/// A node at the capture's place is found: the root when it is there
/// itself, else a node under it.
pub proof fn law_node_at_capture_is_found(n: SyntaxNode, c: CaptureModel)
    requires
        n.kind@ == c.1,
        n.start_row == c.2,
        n.start_column == c.3,
        n.end_row == c.4,
        n.end_column == c.5,
    ensures
        find_node(n, c) == Some(n),
{
}

/// A node at the capture's place anywhere under a child is found in the
/// tree: the search goes into every subtree.
pub proof fn law_search_reaches_children(n: SyntaxNode, c: CaptureModel, i: int)
    requires
        0 <= i < n.children@.len(),
        find_node(n.children@[i].node, c) is Some,
    ensures
        find_node(n, c) is Some,
{
    lemma_find_in_some(n.children@, c, i);
}

/// Subtrees of which one holds a node at the capture's place hold one.
proof fn lemma_find_in_some(cs: Seq<SyntaxChild>, c: CaptureModel, i: int)
    requires
        0 <= i < cs.len(),
        find_node(cs[i].node, c) is Some,
    ensures
        find_in(cs, c) is Some,
    decreases cs.len(),
{
    if i < cs.len() - 1 {
        assert(cs.drop_last()[i] == cs[i]);
        lemma_find_in_some(cs.drop_last(), c, i);
    }
}

/// The captures of one match, each with its node found in `tree`; a
/// capture whose node is not found is left out.
pub open spec fn found_captures(tree: SyntaxNode, caps: Seq<CaptureModel>) -> Seq<
    (Seq<char>, SyntaxNode),
>
    decreases caps.len(),
{
    if caps.len() == 0 {
        Seq::empty()
    } else {
        let prev = found_captures(tree, caps.drop_last());
        match find_node(tree, caps.last()) {
            Some(n) => prev.push((caps.last().0, n)),
            None => prev,
        }
    }
}

/// When every capture of a match has its node in the tree, the match keeps
/// all its captures, in order, each with its own name and the node found
/// for it.
pub proof fn law_found_captures_keep_names_and_order(tree: SyntaxNode, caps: Seq<CaptureModel>)
    requires
        forall|j: int| 0 <= j < caps.len() ==> (#[trigger] find_node(tree, caps[j])) is Some,
    ensures
        found_captures(tree, caps).len() == caps.len(),
        forall|j: int|
            0 <= j < caps.len() ==> (#[trigger] found_captures(tree, caps)[j]) == (
                caps[j].0,
                find_node(tree, caps[j])->0,
            ),
    decreases caps.len(),
{
    if caps.len() > 0 {
        let p = caps.drop_last();
        assert forall|j: int| 0 <= j < p.len() implies (#[trigger] find_node(tree, p[j])) is Some by {
            assert(p[j] == caps[j]);
        }
        law_found_captures_keep_names_and_order(tree, p);
        assert(find_node(tree, caps[caps.len() - 1]) is Some);
        assert forall|j: int| 0 <= j < caps.len() implies (#[trigger] found_captures(tree, caps)[j]) == (
            caps[j].0,
            find_node(tree, caps[j])->0,
        ) by {
            if j < caps.len() - 1 {
                assert(p[j] == caps[j]);
                assert(found_captures(tree, p)[j] == (p[j].0, find_node(tree, p[j])->0));
            }
        }
    }
}

/// The matches of each rule's query over the parse of `source` under the
/// grammar of `language`, with their nodes found in `tree`.
pub open spec fn rule_matches(
    language: SourceLanguage,
    source: Seq<char>,
    tree: SyntaxNode,
    rules: Seq<RuleConfig>,
) -> Seq<Seq<Seq<(Seq<char>, SyntaxNode)>>> {
    Seq::new(
        rules.len(),
        |i: int|
            query_captures(
                language,
                source,
                rules[i].compiled_query@.0,
                rules[i].compiled_query@.1,
            ).map_values(|m: Seq<CaptureModel>| found_captures(tree, m)),
    )
}

/// Every semantic rule has a check registered under its id.
pub open spec fn semantic_rules_registered(rules: Seq<RuleConfig>) -> bool {
    forall|i: int|
        0 <= i < rules.len() && (#[trigger] rules[i]).rule_type@ == "semantic"@
            ==> builtin_rules().contains_key(rules[i].id@)
}

/// The models of a list of diagnostics.
pub open spec fn models(v: Seq<Diagnostic>) -> Seq<DiagnosticModel> {
    v.map_values(|d: Diagnostic| d@)
}

/// A capture not named `violation` reports nothing.
pub proof fn law_other_captures_report_nothing(
    rule: RuleConfig,
    cap: (Seq<char>, SyntaxNode),
    table: SymbolTable,
)
    requires
        cap.0 != "violation"@,
    ensures
        capture_report(rule, cap, table) == Seq::<DiagnosticModel>::empty(),
{
}

/// A syntactic rule reports each node captured as `violation` once, with the
/// rule's own message and tip.
pub proof fn law_syntactic_rule_reports_each_violation(
    rule: RuleConfig,
    cap: (Seq<char>, SyntaxNode),
    table: SymbolTable,
)
    requires
        cap.0 == "violation"@,
        rule.rule_type@ == "syntactic"@,
    ensures
        capture_report(rule, cap, table) == seq![diagnostic_for(cap.1, rule, None)],
{
    reveal_strlit("syntactic");
    reveal_strlit("semantic");
    assert("syntactic"@.len() != "semantic"@.len());
}

/// A semantic rule reports at a node captured as `violation` what its
/// registered check reports there.
pub proof fn law_semantic_rule_reports_its_check(
    rule: RuleConfig,
    cap: (Seq<char>, SyntaxNode),
    table: SymbolTable,
)
    requires
        cap.0 == "violation"@,
        rule.rule_type@ == "semantic"@,
    ensures
        capture_report(rule, cap, table) == match dispatched(builtin_rules(), rule.id@, cap.1, table, rule) {
            Some(d) => seq![d],
            None => Seq::<DiagnosticModel>::empty(),
        },
{
}

/// The report of several rules is the reports of the rules, one after
/// another.
pub proof fn law_rules_report_in_order(
    rules: Seq<RuleConfig>,
    matches: Seq<Seq<Seq<(Seq<char>, SyntaxNode)>>>,
    table: SymbolTable,
)
    requires
        rules.len() == matches.len(),
        rules.len() > 0,
    ensures
        analysis_report(rules, matches, table) == analysis_report(
            rules.drop_last(),
            matches.drop_last(),
            table,
        ) + rule_report(rules.last(), matches.last(), table),
{
}

/// Every diagnostic's positions are below `usize::MAX`.
pub open spec fn all_fit(v: Seq<Diagnostic>) -> bool {
    forall|i: int| 0 <= i < v.len() ==> (#[trigger] v[i]).positions_fit()
}

/// Every captured node's positions are below `usize::MAX`.
pub open spec fn captures_fit(caps: Seq<Capture>) -> bool {
    forall|i: int| 0 <= i < caps.len() ==> (#[trigger] caps[i]).node.positions_fit()
}

/// Every captured node of every match of every rule has its positions below
/// `usize::MAX`.
pub open spec fn all_captures_fit(matches: Seq<Vec<Vec<Capture>>>) -> bool {
    forall|i: int, m: int|
        0 <= i < matches.len() && 0 <= m < matches[i]@.len() ==> captures_fit(
            #[trigger] matches[i]@[m]@,
        )
}

/// The position of the first semantic rule with no check registered under
/// its id, if there is one.
pub fn unregistered_semantic_rule(rules: &[RuleConfig]) -> (r: Option<usize>)
    ensures
        match r {
            Some(i) => i < rules@.len() && rules@[i as int].rule_type@ == "semantic"@
                && !builtin_rules().contains_key(rules@[i as int].id@) && semantic_rules_registered(
                rules@.take(i as int),
            ),
            None => semantic_rules_registered(rules@),
        },
{
    let mut dispatcher = RuleDispatcher::new();
    load_semantic_rules(&mut dispatcher);
    let mut i: usize = 0;
    while i < rules.len()
        invariant
            dispatcher.wf(),
            dispatcher.checkers.view() == builtin_rules(),
            i <= rules@.len(),
            forall|j: int|
                0 <= j < i && (#[trigger] rules@[j]).rule_type@ == "semantic"@
                    ==> builtin_rules().contains_key(rules@[j].id@),
        decreases rules.len() - i,
    {
        let rule = &rules[i];
        if text_is(rule.rule_type.as_str(), "semantic") && !dispatcher.is_registered(rule.id.as_str()) {
            return Some(i);
        }
        i += 1;
    }
    None
}

/// The diagnostics of one capture (its name and node) of a match of
/// `rule`, appended to `out`.
fn report_capture(
    rule: &RuleConfig,
    name: &str,
    node: &SyntaxNode,
    table: &SymbolTable,
    dispatcher: &RuleDispatcher,
    out: &mut Vec<Diagnostic>,
)
    requires
        table.wf(),
        dispatcher.wf(),
        dispatcher.checkers.view() == builtin_rules(),
        all_fit(old(out)@),
        node.positions_fit(),
    ensures
        models(final(out)@) == models(old(out)@) + capture_report(*rule, (name@, *node), *table),
        all_fit(final(out)@),
{
    let ghost before = out@;
    if text_is(name, "violation") {
        if text_is(rule.rule_type.as_str(), "semantic") {
            if let Some(diagnostic) = dispatcher.run_semantic_check(rule.id.as_str(), node, table, rule) {
                out.push(diagnostic);
            }
        } else if text_is(rule.rule_type.as_str(), "syntactic") {
            out.push(build_diagnostic(node, rule, None));
        }
    }
    assert(models(out@) =~= models(before) + capture_report(*rule, (name@, *node), *table));
}

/// The diagnostics of the captures of one match of `rule`, appended to `out`.
fn report_match(
    rule: &RuleConfig,
    caps: &Vec<Capture>,
    table: &SymbolTable,
    dispatcher: &RuleDispatcher,
    out: &mut Vec<Diagnostic>,
)
    requires
        table.wf(),
        dispatcher.wf(),
        dispatcher.checkers.view() == builtin_rules(),
        all_fit(old(out)@),
        captures_fit(caps@),
    ensures
        models(final(out)@) == models(old(out)@) + match_report(
            *rule,
            caps@.map_values(|x: Capture| x@),
            *table,
        ),
        all_fit(final(out)@),
{
    let ghost cm = caps@.map_values(|x: Capture| x@);
    let mut k: usize = 0;
    let ghost start = models(out@);
    while k < caps.len()
        invariant
            table.wf(),
            dispatcher.wf(),
            dispatcher.checkers.view() == builtin_rules(),
            k <= caps@.len(),
            cm == caps@.map_values(|x: Capture| x@),
            models(out@) == start + match_report(*rule, cm.take(k as int), *table),
            all_fit(out@),
            captures_fit(caps@),
        decreases caps.len() - k,
    {
        let capture = &caps[k];
        assert(capture.node.positions_fit());
        proof {
            let t = cm.take(k + 1);
            assert(t.drop_last() =~= cm.take(k as int));
            assert(t.last() == capture@);
        }
        report_capture(rule, capture.name.as_str(), &capture.node, table, dispatcher, out);
        proof {
            vstd::seq_lib::lemma_concat_associative(
                start,
                match_report(*rule, cm.take(k as int), *table),
                capture_report(*rule, capture@, *table),
            );
        }
        k += 1;
    }
    assert(cm.take(k as int) =~= cm);
}

/// The diagnostics that the rules report for their captured nodes:
/// `matches[i]` holds the matches of the query of `rules[i]`, each as its
/// captures.
pub fn analyze_matches(
    rules: &[RuleConfig],
    matches: &Vec<Vec<Vec<Capture>>>,
    symbol_table: &SymbolTable,
) -> (r: Vec<Diagnostic>)
    requires
        symbol_table.wf(),
        matches@.len() == rules@.len(),
        all_captures_fit(matches@),
    ensures
        models(r@) == analysis_report(rules@, matches_model(matches@), *symbol_table),
        all_fit(r@),
{
    let mut dispatcher = RuleDispatcher::new();
    load_semantic_rules(&mut dispatcher);
    assert(dispatcher.checkers.view() =~= builtin_rules());
    let ghost mm = matches_model(matches@);
    let mut details_arr: Vec<Diagnostic> = Vec::new();
    let mut i: usize = 0;
    while i < rules.len()
        invariant
            symbol_table.wf(),
            dispatcher.wf(),
            dispatcher.checkers.view() == builtin_rules(),
            matches@.len() == rules@.len(),
            mm == matches_model(matches@),
            all_captures_fit(matches@),
            all_fit(details_arr@),
            i <= rules@.len(),
            models(details_arr@) == analysis_report(rules@.take(i as int), mm.take(i as int), *symbol_table),
        decreases rules.len() - i,
    {
        let rule = &rules[i];
        let rule_matches = &matches[i];
        let ghost rm = mm[i as int];
        assert(rm == rule_matches@.map_values(|c: Vec<Capture>| c@.map_values(|x: Capture| x@)));
        let ghost rule_start = models(details_arr@);
        let mut m: usize = 0;
        while m < rule_matches.len()
            invariant
                symbol_table.wf(),
                dispatcher.wf(),
                dispatcher.checkers.view() == builtin_rules(),
                m <= rule_matches@.len(),
                i < matches@.len(),
                *rule_matches == matches@[i as int],
                rm == rule_matches@.map_values(|c: Vec<Capture>| c@.map_values(|x: Capture| x@)),
                all_captures_fit(matches@),
                all_fit(details_arr@),
                models(details_arr@) == rule_start + rule_report(*rule, rm.take(m as int), *symbol_table),
            decreases rule_matches.len() - m,
        {
            proof {
                let t = rm.take(m + 1);
                assert(t.drop_last() =~= rm.take(m as int));
            }
            assert(captures_fit(matches@[i as int]@[m as int]@));
            report_match(rule, &rule_matches[m], symbol_table, &dispatcher, &mut details_arr);
            proof {
                vstd::seq_lib::lemma_concat_associative(
                    rule_start,
                    rule_report(*rule, rm.take(m as int), *symbol_table),
                    match_report(*rule, rm[m as int], *symbol_table),
                );
            }
            m += 1;
        }
        proof {
            assert(rm.take(m as int) =~= rm);
            let rs = rules@.take(i + 1);
            let ms = mm.take(i + 1);
            assert(rs.drop_last() =~= rules@.take(i as int));
            assert(ms.drop_last() =~= mm.take(i as int));
        }
        i += 1;
    }
    assert(rules@.take(i as int) =~= rules@);
    assert(mm.take(i as int) =~= mm);
    details_arr
}

/// Whether `n` is the node the capture reports.
fn captured_here(n: &SyntaxNode, c: &QueryCapture) -> (r: bool)
    ensures
        r == is_captured_node(*n, c@),
{
    text_is(n.kind.as_str(), c.kind.as_str()) && n.start_row == c.start_row && n.start_column
        == c.start_column && n.end_row == c.end_row && n.end_column == c.end_column
}

/// The first node of the tree under `n`, in pre-order, that the capture
/// reports.
fn find_captured<'a>(n: &'a SyntaxNode, c: &QueryCapture) -> (r: Option<&'a SyntaxNode>)
    ensures
        match r {
            Some(x) => find_node(*n, c@) == Some(*x),
            None => find_node(*n, c@) is None,
        },
        n.positions_fit() ==> (r matches Some(x) ==> x.positions_fit()),
    decreases n,
{
    if captured_here(n, c) {
        return Some(n);
    }
    let mut i: usize = 0;
    while i < n.children.len()
        invariant
            i <= n.children@.len(),
            !is_captured_node(*n, c@),
            n.positions_fit() ==> forall|j: int|
                0 <= j < n.children@.len() ==> (#[trigger] n.children@[j]).node.positions_fit(),
            find_in(n.children@.take(i as int), c@) is None,
        decreases n.children.len() - i,
    {
        proof {
            let t = n.children@.take(i + 1);
            assert(t.drop_last() =~= n.children@.take(i as int));
            assert(t.last() == n.children@[i as int]);
        }
        let found = find_captured(&n.children[i].node, c);
        if found.is_some() {
            proof {
                let t = n.children@.take(i + 1);
                assert(find_in(t, c@) == find_node(n.children@[i as int].node, c@));
                lemma_find_in_prefix(n.children@, (i + 1) as int, c@);
                assert(!is_captured_node(*n, c@));
                assert(find_node(*n, c@) == find_in(n.children@, c@));
            }
            return found;
        }
        i += 1;
    }
    assert(n.children@.take(i as int) =~= n.children@);
    None
}

/// Once a prefix of the subtrees holds the node, so do all of them, and it
/// is the same node.
proof fn lemma_find_in_prefix(cs: Seq<SyntaxChild>, k: int, c: CaptureModel)
    requires
        0 <= k <= cs.len(),
        find_in(cs.take(k), c) is Some,
    ensures
        find_in(cs, c) == find_in(cs.take(k), c),
    decreases cs.len() - k,
{
    if k < cs.len() {
        let t = cs.take(k + 1);
        assert(t.drop_last() =~= cs.take(k));
        lemma_find_in_prefix(cs, k + 1, c);
    } else {
        assert(cs.take(k) =~= cs);
    }
}

/// Runs every rule's query over the whole parse under `root_node` and
/// reports the violations, rule by rule, match by match and capture by
/// capture, over `tree` (the parse as lowered) and the symbol table. Each
/// captured node is the first node of `tree`, in pre-order, with the kind
/// and the positions that tree-sitter reports for it; a capture with no
/// such node is left out.
pub fn analyze(
    root_node: &SourceNode,
    tree: &SyntaxNode,
    rules: &[RuleConfig],
    symbol_table: &SymbolTable,
) -> (r: Vec<Diagnostic>)
    requires
        symbol_table.wf(),
        root_node@.2 == Some(Seq::<usize>::empty()),
        tree.positions_fit(),
    ensures
        models(r@) == analysis_report(
            rules@,
            rule_matches(root_node@.0, root_node@.1, *tree, rules@),
            *symbol_table,
        ),
        all_fit(r@),
{
    let mut dispatcher = RuleDispatcher::new();
    load_semantic_rules(&mut dispatcher);
    assert(dispatcher.checkers.view() =~= builtin_rules());
    let ghost mm = rule_matches(root_node@.0, root_node@.1, *tree, rules@);
    let mut out: Vec<Diagnostic> = Vec::new();
    let mut i: usize = 0;
    while i < rules.len()
        invariant
            symbol_table.wf(),
            dispatcher.wf(),
            dispatcher.checkers.view() == builtin_rules(),
            root_node@.2 == Some(Seq::<usize>::empty()),
            tree.positions_fit(),
            mm == rule_matches(root_node@.0, root_node@.1, *tree, rules@),
            all_fit(out@),
            i <= rules@.len(),
            models(out@) == analysis_report(rules@.take(i as int), mm.take(i as int), *symbol_table),
        decreases rules.len() - i,
    {
        let rule = &rules[i];
        let raw = query_matches(&rule.compiled_query, root_node);
        let ghost q = query_captures(
            root_node@.0,
            root_node@.1,
            rule.compiled_query@.0,
            rule.compiled_query@.1,
        );
        let ghost rm = mm[i as int];
        assert(rm == q.map_values(|m: Seq<CaptureModel>| found_captures(*tree, m)));
        assert(captures_model(raw@) == q);
        let ghost rule_start = models(out@);
        let mut m: usize = 0;
        while m < raw.len()
            invariant
                symbol_table.wf(),
                dispatcher.wf(),
                dispatcher.checkers.view() == builtin_rules(),
                tree.positions_fit(),
                m <= raw@.len(),
                captures_model(raw@) == q,
                rm == q.map_values(|mt: Seq<CaptureModel>| found_captures(*tree, mt)),
                all_fit(out@),
                models(out@) == rule_start + rule_report(*rule, rm.take(m as int), *symbol_table),
            decreases raw.len() - m,
        {
            let caps = &raw[m];
            let ghost qm = q[m as int];
            assert(qm == caps@.map_values(|c: QueryCapture| c@));
            let ghost match_start = models(out@);
            let mut c: usize = 0;
            while c < caps.len()
                invariant
                    symbol_table.wf(),
                    dispatcher.wf(),
                    dispatcher.checkers.view() == builtin_rules(),
                    tree.positions_fit(),
                    c <= caps@.len(),
                    qm == caps@.map_values(|x: QueryCapture| x@),
                    all_fit(out@),
                    models(out@) == match_start + match_report(
                        *rule,
                        found_captures(*tree, qm.take(c as int)),
                        *symbol_table,
                    ),
                decreases caps.len() - c,
            {
                let cap = &caps[c];
                let ghost prev = found_captures(*tree, qm.take(c as int));
                proof {
                    let t = qm.take(c + 1);
                    assert(t.drop_last() =~= qm.take(c as int));
                    assert(t.last() == cap@);
                }
                match find_captured(tree, cap) {
                    Some(node) => {
                        report_capture(rule, cap.name.as_str(), node, symbol_table, &dispatcher, &mut out);
                        proof {
                            let p = prev.push((cap.name@, *node));
                            assert(p.drop_last() =~= prev);
                            vstd::seq_lib::lemma_concat_associative(
                                match_start,
                                match_report(*rule, prev, *symbol_table),
                                capture_report(*rule, (cap.name@, *node), *symbol_table),
                            );
                        }
                    },
                    None => {},
                }
                c += 1;
            }
            proof {
                assert(qm.take(c as int) =~= qm);
                let t = rm.take(m + 1);
                assert(t.drop_last() =~= rm.take(m as int));
                assert(rm[m as int] == found_captures(*tree, qm));
                vstd::seq_lib::lemma_concat_associative(
                    rule_start,
                    rule_report(*rule, rm.take(m as int), *symbol_table),
                    match_report(*rule, rm[m as int], *symbol_table),
                );
            }
            m += 1;
        }
        proof {
            assert(rm.len() == raw@.len());
            assert(rm.take(m as int) =~= rm);
            let rs = rules@.take(i + 1);
            let ms = mm.take(i + 1);
            assert(rs.drop_last() =~= rules@.take(i as int));
            assert(ms.drop_last() =~= mm.take(i as int));
        }
        i += 1;
    }
    assert(rules@.take(i as int) =~= rules@);
    assert(mm.take(i as int) =~= mm);
    out
}

/// Why a source text could not be analysed.
#[derive(Debug, Clone, Copy, PartialEq, Eq)]
pub enum AnalysisFailure {
    /// A position of the tree is `usize::MAX`, beyond one-based numbering.
    PositionTooLarge,
}

/// The depth within which the whole parse of `source` is lowered: its
/// number of nodes.
pub open spec fn parse_depth(language: SourceLanguage, source: Seq<char>) -> nat {
    descendant_count_at(language, source, Seq::empty()) as nat
}

/// `root` is the whole parse of `source` under the grammar of `language`,
/// lowered.
pub open spec fn is_parse_of(root: SyntaxNode, language: SourceLanguage, source: Seq<char>) -> bool {
    lowered_as(root, language, source, Seq::empty(), parse_depth(language, source))
}

/// Both passes over a source text of `language` (from a file with this
/// extension): parses it, builds the symbol table from its lowered tree, and
/// runs the rules' queries over the tree. It fails exactly when the tree
/// cannot be lowered (a position equal to `usize::MAX`). The diagnostics are
/// what the rules report for the matches of their queries, over the lowered
/// parse and the table built from it.
pub fn analyze_source(
    language: SourceLanguage,
    extension: &str,
    source_code: &str,
    rules: &[RuleConfig],
) -> (r: Result<Vec<Diagnostic>, AnalysisFailure>)
    requires
        semantic_rules_registered(rules@),
    ensures
        r is Ok <==> lowerable(
            language,
            source_code@,
            Seq::empty(),
            parse_depth(language, source_code@),
        ),
        r matches Ok(v) ==> all_fit(v@) && exists|root: SyntaxNode, table: SymbolTable|
            #![trigger built_table(root, extension@), table_model(table)]
            is_parse_of(root, language, source_code@) && table_model(table) == built_table(
                root,
                extension@,
            ) && models(v@) == analysis_report(
                rules@,
                rule_matches(language, source_code@, root, rules@),
                table,
            ),
{
    let lang = grammar(language);
    let parsed = parse_source(&lang, source_code);
    let root = parsed.root();
    let lowered = match lower_tree(&root) {
        Some(n) => n,
        None => {
            return Err(AnalysisFailure::PositionTooLarge);
        },
    };
    let symbol_table = build_symbol_table(&lowered, extension);
    let violations = analyze(&root, &lowered, rules, &symbol_table);
    Ok(violations)
}

} // verus!
