//! Diagnostics: what a rule reports about a node, their order by position,
//! and their rendering as terminal text.
use vstd::prelude::*;
use crate::config::RuleConfig;
use crate::syntax::SyntaxNode;
use crate::text::{decimal, push_decimal, replace, replace_all, to_uppercase, upper_text};

verus! {

/// One reported violation of a rule.
#[derive(Debug)]
pub struct Diagnostic {
    pub id: String,
    pub message: String,
    pub severity: String,
    pub line: usize,
    pub column: usize,
    pub end_line: usize,
    pub end_column: usize,
    pub tip: Option<String>,
    pub snippet: String,
}

/// The mathematical model of a diagnostic.
pub struct DiagnosticModel {
    pub id: Seq<char>,
    pub message: Seq<char>,
    pub severity: Seq<char>,
    pub line: usize,
    pub column: usize,
    pub end_line: usize,
    pub end_column: usize,
    pub tip: Option<Seq<char>>,
    pub snippet: Seq<char>,
}

impl View for Diagnostic {
    type V = DiagnosticModel;

    open spec fn view(&self) -> DiagnosticModel {
        DiagnosticModel {
            id: self.id@,
            message: self.message@,
            severity: self.severity@,
            line: self.line,
            column: self.column,
            end_line: self.end_line,
            end_column: self.end_column,
            tip: match self.tip {
                Some(t) => Some(t@),
                None => None,
            },
            snippet: self.snippet@,
        }
    }
}

impl Diagnostic {
    /// The starting line and column are below `usize::MAX`, so their
    /// one-based numbers are `usize` values too.
    pub open spec fn positions_fit(&self) -> bool {
        &&& self.line < usize::MAX
        &&& self.column < usize::MAX
    }
}

/// How the diagnostics are to be shown.
#[derive(Debug, Clone, Copy, PartialEq, Eq)]
pub enum OutputFormat {
    Text,
    Json,
}

impl Default for OutputFormat {
    /// Text.
    fn default() -> (r: Self)
        ensures
            r == OutputFormat::Text,
    {
        OutputFormat::Text
    }
}

impl OutputFormat {
    /// The name of the format on the command line.
    pub fn name(&self) -> (r: &'static str)
        ensures
            r@ == match self {
                OutputFormat::Text => "text"@,
                OutputFormat::Json => "json"@,
            },
    {
        match self {
            OutputFormat::Text => "text",
            OutputFormat::Json => "json",
        }
    }
}

/// A rule's text with each `{var}` replaced by the variable's name, when a
/// variable is named.
pub open spec fn fill_in(template: Seq<char>, var_name: Option<Seq<char>>) -> Seq<char> {
    match var_name {
        Some(v) => replace_all(template, "{var}"@, v),
        None => template,
    }
}

/// What `build_diagnostic` reports of `node` under `rule`.
pub open spec fn diagnostic_for(node: SyntaxNode, rule: RuleConfig, var_name: Option<Seq<char>>) -> DiagnosticModel {
    DiagnosticModel {
        id: rule.id@,
        message: fill_in(rule.message@, var_name),
        severity: rule.severity@,
        line: node.start_row,
        column: node.start_column,
        end_line: node.end_row,
        end_column: node.end_column,
        tip: match rule.tip {
            Some(t) => Some(fill_in(t@, var_name)),
            None => None,
        },
        snippet: match node.text {
            Some(t) => t@,
            None => "<unreadable>"@,
        },
    }
}

/// A built diagnostic keeps the rule's tip whether or not a variable is
/// named: it has a tip exactly when the rule has one, and with no variable
/// the tip is the rule's text unchanged; so is the message.
pub proof fn law_diagnostic_keeps_tip(node: SyntaxNode, rule: RuleConfig, var_name: Option<Seq<char>>)
    ensures
        (diagnostic_for(node, rule, var_name).tip is Some) <==> (rule.tip is Some),
        var_name is None ==> diagnostic_for(node, rule, var_name).tip == match rule.tip {
            Some(t) => Some(t@),
            None => None,
        },
        var_name is None ==> diagnostic_for(node, rule, var_name).message == rule.message@,
        diagnostic_for(node, rule, var_name).id == rule.id@,
        diagnostic_for(node, rule, var_name).severity == rule.severity@,
{
}

/// A built diagnostic lies at the node: its line and column are where the
/// node starts, its end where the node ends.
pub proof fn law_diagnostic_at_node(node: SyntaxNode, rule: RuleConfig, var_name: Option<Seq<char>>)
    ensures
        diagnostic_for(node, rule, var_name).line == node.start_row,
        diagnostic_for(node, rule, var_name).column == node.start_column,
        diagnostic_for(node, rule, var_name).end_line == node.end_row,
        diagnostic_for(node, rule, var_name).end_column == node.end_column,
{
}

/// The text of a rule with `{var}` filled in.
fn fill_in_text(template: &String, var_name: Option<&str>) -> (r: String)
    ensures
        r@ == fill_in(template@, match var_name {
            Some(v) => Some(v@),
            None => None,
        }),
{
    match var_name {
        Some(v) => {
            proof {
                reveal_strlit("{var}");
            }
            replace(template.as_str(), "{var}", v)
        },
        None => template.clone(),
    }
}

/// The diagnostic for a violation of `rule` at `node`; `var_name`, when
/// given, fills the `{var}` placeholders of the rule's message and tip.
pub fn build_diagnostic(node: &SyntaxNode, rule: &RuleConfig, var_name: Option<&str>) -> (r:
    Diagnostic)
    ensures
        r@ == diagnostic_for(*node, *rule, match var_name {
            Some(v) => Some(v@),
            None => None,
        }),
{
    let message = fill_in_text(&rule.message, var_name);
    let tip = match &rule.tip {
        Some(t) => Some(fill_in_text(t, var_name)),
        None => None,
    };
    let snippet = match &node.text {
        Some(t) => t.clone(),
        None => String::from_str("<unreadable>"),
    };
    Diagnostic {
        id: rule.id.clone(),
        message,
        severity: rule.severity.clone(),
        line: node.start_row,
        column: node.start_column,
        end_line: node.end_row,
        end_column: node.end_column,
        tip,
        snippet,
    }
}

/// `a` comes no later than `b` by position: by line, then by column.
pub open spec fn position_le(a: Diagnostic, b: Diagnostic) -> bool {
    a.line < b.line || (a.line == b.line && a.column <= b.column)
}

/// `d` inserted into `s` after every element that comes no later than it;
/// when `s` is in order, so is the result, and `d` follows the elements
/// at its position.
pub open spec fn insert_by_position(s: Seq<Diagnostic>, d: Diagnostic) -> Seq<Diagnostic>
    decreases s.len(),
{
    if s.len() == 0 {
        seq![d]
    } else if position_le(s.last(), d) {
        s.push(d)
    } else {
        insert_by_position(s.drop_last(), d).push(s.last())
    }
}

/// `s` in order of position; diagnostics at the same position keep their
/// order (a stable sort by `(line, column)`).
pub open spec fn sorted_by_position(s: Seq<Diagnostic>) -> Seq<Diagnostic>
    decreases s.len(),
{
    if s.len() == 0 {
        s
    } else {
        insert_by_position(sorted_by_position(s.drop_last()), s.last())
    }
}

/// Each element of `s` comes no later than the ones after it.
pub open spec fn in_position_order(s: Seq<Diagnostic>) -> bool {
    forall|i: int, j: int| 0 <= i < j < s.len() ==> position_le(#[trigger] s[i], #[trigger] s[j])
}

/// Inserting keeps the elements, adds `d`, and keeps the order.
pub proof fn lemma_insert_by_position(s: Seq<Diagnostic>, d: Diagnostic)
    ensures
        insert_by_position(s, d).to_multiset() == s.to_multiset().insert(d),
        insert_by_position(s, d).len() == s.len() + 1,
        in_position_order(s) ==> in_position_order(insert_by_position(s, d)),
    decreases s.len(),
{
    broadcast use vstd::seq_lib::group_to_multiset_ensures;

    if s.len() == 0 {
        assert(seq![d] =~= Seq::<Diagnostic>::empty().push(d));
    } else if position_le(s.last(), d) {
    } else {
        let t = insert_by_position(s.drop_last(), d);
        lemma_insert_by_position(s.drop_last(), d);
        assert(s.drop_last().push(s.last()) =~= s);
        if in_position_order(s) {
            assert(in_position_order(s.drop_last()));
            let r = t.push(s.last());
            assert forall|i: int, j: int| 0 <= i < j < r.len() implies position_le(
                #[trigger] r[i],
                #[trigger] r[j],
            ) by {
                if j == r.len() - 1 && i < r.len() - 1 {
                    assert(t.to_multiset().count(t[i]) > 0);
                    if t[i] == d {
                    } else {
                        assert(s.drop_last().to_multiset().count(t[i]) > 0);
                        let k = choose|k: int| 0 <= k < s.drop_last().len() && s.drop_last()[k] == t[i];
                        assert(s[k] == t[i]);
                    }
                }
            }
        }
    }
}

/// Sorting keeps the elements, and puts them in order.
pub proof fn lemma_sorted_by_position(s: Seq<Diagnostic>)
    ensures
        sorted_by_position(s).to_multiset() == s.to_multiset(),
        sorted_by_position(s).len() == s.len(),
        in_position_order(sorted_by_position(s)),
    decreases s.len(),
{
    broadcast use vstd::seq_lib::group_to_multiset_ensures;

    if s.len() > 0 {
        lemma_sorted_by_position(s.drop_last());
        lemma_insert_by_position(sorted_by_position(s.drop_last()), s.last());
        assert(s.drop_last().push(s.last()) =~= s);
    }
}

/// The diagnostics at the same position as `d`.
pub open spec fn at_position_of(d: Diagnostic) -> spec_fn(Diagnostic) -> bool {
    |x: Diagnostic| x.line == d.line && x.column == d.column
}

/// Inserting `e` keeps the diagnostics at each position in their order, and
/// puts `e` after those at its own position.
proof fn lemma_insert_keeps_ties(t: Seq<Diagnostic>, e: Diagnostic, d: Diagnostic)
    ensures
        insert_by_position(t, e).filter(at_position_of(d)) == t.push(e).filter(at_position_of(d)),
    decreases t.len(),
{
    let p = at_position_of(d);
    if t.len() == 0 {
        assert(seq![e] =~= t.push(e));
    } else if position_le(t.last(), e) {
    } else {
        let u = t.drop_last();
        lemma_insert_keeps_ties(u, e, d);
        let ins = insert_by_position(u, e);
        ins.lemma_filter_push(t.last(), p);
        u.lemma_filter_push(e, p);
        u.push(e).lemma_filter_push(t.last(), p);
        u.lemma_filter_push(t.last(), p);
        u.push(t.last()).lemma_filter_push(e, p);
        assert(u.push(t.last()) =~= t);
        assert(!(p(e) && p(t.last())));
    }
}

/// Sorting by position is stable: the diagnostics at any one position keep
/// the order they had.
pub proof fn law_sort_is_stable(s: Seq<Diagnostic>, d: Diagnostic)
    ensures
        sorted_by_position(s).filter(at_position_of(d)) == s.filter(at_position_of(d)),
    decreases s.len(),
{
    if s.len() > 0 {
        law_sort_is_stable(s.drop_last(), d);
        lemma_insert_keeps_ties(sorted_by_position(s.drop_last()), s.last(), d);
        sorted_by_position(s.drop_last()).lemma_filter_push(s.last(), at_position_of(d));
        s.drop_last().lemma_filter_push(s.last(), at_position_of(d));
        assert(s.drop_last().push(s.last()) =~= s);
    }
}

/// Sorting by position keeps the diagnostics and puts them in order.
pub proof fn law_sort_orders_and_keeps(s: Seq<Diagnostic>)
    ensures
        sorted_by_position(s).to_multiset() == s.to_multiset(),
        in_position_order(sorted_by_position(s)),
{
    lemma_sorted_by_position(s);
}

/// Sorts the diagnostics by position, keeping the order of those at one
/// position.
pub fn sort_by_position(v: &mut Vec<Diagnostic>)
    ensures
        final(v)@ == sorted_by_position(old(v)@),
{
    let n = v.len();
    let ghost original = v@;
    let mut i: usize = 0;
    while i < n
        invariant
            n == original.len(),
            v@.len() == n,
            i <= n,
            v@.take(i as int) == sorted_by_position(original.take(i as int)),
            v@.skip(i as int) == original.skip(i as int),
        decreases n - i,
    {
        proof {
            lemma_sorted_by_position(original.take(i as int));
        }
        let ghost sorted_prefix = v@.take(i as int);
        assert(v@[i as int] == v@.skip(i as int)[0]);
        assert(original[i as int] == original.skip(i as int)[0]);
        let ghost before_remove = v@;
        let x = v.remove(i);
        assert(x == original[i as int]);
        let ghost after_remove = v@;
        assert forall|k: int| 0 <= k < after_remove.skip(i as int).len() implies after_remove.skip(
            i as int,
        )[k] == original.skip(i + 1)[k] by {
            assert(before_remove.skip(i as int)[k + 1] == original.skip(i as int)[k + 1]);
        }
        assert(after_remove.skip(i as int) =~= original.skip(i + 1));
        assert(v@.take(i as int) =~= sorted_prefix);
        assert(sorted_prefix.take(i as int) =~= sorted_prefix);
        assert(sorted_prefix.subrange(i as int, i as int) =~= Seq::<Diagnostic>::empty());
        let mut j: usize = i;
        while j > 0 && !(v[j - 1].line < x.line || (v[j - 1].line == x.line && v[j - 1].column
            <= x.column))
            invariant
                j <= i < n,
                v@ == after_remove,
                v@.len() == n - 1,
                v@.take(i as int) == sorted_prefix,
                sorted_prefix.len() == i,
                insert_by_position(sorted_prefix, x) == insert_by_position(
                    sorted_prefix.take(j as int),
                    x,
                ) + sorted_prefix.subrange(j as int, i as int),
            decreases j,
        {
            let ghost p = sorted_prefix.take(j as int);
            assert(p.drop_last() =~= sorted_prefix.take(j - 1));
            assert(p.last() == v@[j - 1]);
            assert(sorted_prefix.subrange(j - 1, i as int) =~= seq![p.last()]
                + sorted_prefix.subrange(j as int, i as int));
            j -= 1;
        }
        let ghost before_insert = v@;
        v.insert(j, x);
        proof {
            let p = sorted_prefix.take(j as int);
            if j > 0 {
                assert(p.last() == before_insert[j - 1]);
            }
            assert(insert_by_position(p, x) =~= p.push(x));
            let t = original.take(i + 1);
            assert(t.drop_last() =~= original.take(i as int));
            assert(t.last() == x);
            assert(v@.take(i + 1) =~= p.push(x) + sorted_prefix.subrange(j as int, i as int));
            assert(v@.skip(i + 1) =~= original.skip(i + 1));
        }
        i += 1;
    }
    assert(v@.take(n as int) =~= v@);
    assert(original.take(n as int) =~= original);
}

/// The first lines of a diagnostic's block: the message with the severity,
/// then the rule's id.
pub open spec fn render_header(d: DiagnosticModel) -> Seq<char> {
    "WARNING: "@ + d.message + " ("@ + upper_text(d.severity) + ")\n"@ + "Rule: "@ + d.id + "\n"@
}

/// The tip line of a diagnostic's block, when the rule has a tip.
pub open spec fn render_tip(d: DiagnosticModel) -> Seq<char> {
    match d.tip {
        Some(t) => "Tip: "@ + t + "\n"@,
        None => Seq::empty(),
    }
}

/// The location line of a diagnostic's block, with one-based numbers.
pub open spec fn render_location(d: DiagnosticModel) -> Seq<char> {
    "Location: Line "@ + decimal((d.line + 1) as nat) + ", Column "@ + decimal(
        (d.column + 1) as nat,
    ) + "\n"@
}

/// The code line of a diagnostic's block, followed by an empty line.
pub open spec fn render_code(d: DiagnosticModel) -> Seq<char> {
    "Code: `"@ + d.snippet + "`\n\n"@
}

/// The text block that shows one diagnostic in the terminal.
pub open spec fn render_one(d: DiagnosticModel) -> Seq<char> {
    render_header(d) + render_tip(d) + render_location(d) + render_code(d)
}

/// The blocks of the diagnostics of `s`, one after another.
pub open spec fn render_all(s: Seq<Diagnostic>) -> Seq<char>
    decreases s.len(),
{
    if s.len() == 0 {
        Seq::empty()
    } else {
        render_all(s.drop_last()) + render_one(s.last()@)
    }
}

/// The terminal report of the diagnostics: a cheerful line when there is
/// none, else each diagnostic's block.
pub open spec fn render_report(s: Seq<Diagnostic>) -> Seq<char> {
    if s.len() == 0 {
        "No issues found, wow awesome code.\n"@
    } else {
        render_all(s)
    }
}

/// Appends the one-based number for a zero-based position.
fn push_position(out: &mut String, p: usize)
    requires
        p < usize::MAX,
    ensures
        final(out)@ == old(out)@ + decimal((p + 1) as nat),
{
    push_decimal(out, p + 1);
}

/// Appends the first lines of a diagnostic's block.
fn render_header_into(out: &mut String, d: &Diagnostic)
    ensures
        final(out)@ == old(out)@ + render_header(d@),
{
    out.append("WARNING: ");
    out.append(d.message.as_str());
    out.append(" (");
    let upper = to_uppercase(d.severity.as_str());
    out.append(upper.as_str());
    out.append(")\n");
    out.append("Rule: ");
    out.append(d.id.as_str());
    out.append("\n");
    assert(out@ =~= old(out)@ + render_header(d@));
}

/// Appends the tip line of a diagnostic's block.
fn render_tip_into(out: &mut String, d: &Diagnostic)
    ensures
        final(out)@ == old(out)@ + render_tip(d@),
{
    match &d.tip {
        Some(t) => {
            out.append("Tip: ");
            out.append(t.as_str());
            out.append("\n");
            assert(out@ =~= old(out)@ + render_tip(d@));
        },
        None => {
            assert(out@ =~= old(out)@ + render_tip(d@));
        },
    }
}

/// Appends the location line of a diagnostic's block.
fn render_location_into(out: &mut String, d: &Diagnostic)
    requires
        d.positions_fit(),
    ensures
        final(out)@ == old(out)@ + render_location(d@),
{
    out.append("Location: Line ");
    push_position(out, d.line);
    out.append(", Column ");
    push_position(out, d.column);
    out.append("\n");
    assert(out@ =~= old(out)@ + render_location(d@));
}

/// Appends the terminal block of one diagnostic.
fn render_into(out: &mut String, d: &Diagnostic)
    requires
        d.positions_fit(),
    ensures
        final(out)@ == old(out)@ + render_one(d@),
{
    render_header_into(out, d);
    render_tip_into(out, d);
    render_location_into(out, d);
    out.append("Code: `");
    out.append(d.snippet.as_str());
    out.append("`\n\n");
    assert(out@ =~= old(out)@ + render_one(d@));
}

/// The terminal report of the diagnostics, in their order.
pub fn render_text(violations: &Vec<Diagnostic>) -> (r: String)
    requires
        forall|i: int| 0 <= i < violations@.len() ==> (#[trigger] violations@[i]).positions_fit(),
    ensures
        r@ == render_report(violations@),
{
    if violations.len() == 0 {
        return String::from_str("No issues found, wow awesome code.\n");
    }
    let mut out = String::new();
    let mut i: usize = 0;
    while i < violations.len()
        invariant
            i <= violations@.len(),
            forall|k: int| 0 <= k < violations@.len() ==> (#[trigger] violations@[k]).positions_fit(),
            out@ == render_all(violations@.take(i as int)),
        decreases violations.len() - i,
    {
        render_into(&mut out, &violations[i]);
        proof {
            let t = violations@.take(i + 1);
            assert(t.drop_last() =~= violations@.take(i as int));
        }
        i += 1;
    }
    assert(violations@.take(i as int) =~= violations@);
    out
}

/// Puts the diagnostics in order of position and, for the text format,
/// gives the terminal report; the JSON format is written from the sorted
/// diagnostics by the caller.
pub fn output(violations: &mut Vec<Diagnostic>, format: OutputFormat) -> (r: Option<String>)
    requires
        format is Text ==> forall|i: int|
            0 <= i < old(violations)@.len() ==> (#[trigger] old(violations)@[i]).positions_fit(),
    ensures
        final(violations)@ == sorted_by_position(old(violations)@),
        match format {
            OutputFormat::Text => r matches Some(s) && s@ == render_report(final(violations)@),
            OutputFormat::Json => r is None,
        },
{
    let ghost original = violations@;
    sort_by_position(violations);
    proof {
        broadcast use vstd::seq_lib::group_to_multiset_ensures;

        lemma_sorted_by_position(original);
        assert forall|i: int| format is Text && 0 <= i < violations@.len() implies (
        #[trigger] violations@[i]).positions_fit() by {
            assert(original.to_multiset().count(violations@[i]) > 0);
            let k = choose|k: int| 0 <= k < original.len() && original[k] == violations@[i];
            assert(original[k].positions_fit());
        }
    }
    match format {
        OutputFormat::Text => Some(render_text(violations)),
        OutputFormat::Json => None,
    }
}

} // verus!
