//! The first pass over a C++ syntax tree: collecting macro and `using`
//! aliases, variable declarations and assignments into the symbol table.
//!
//! The walk is stated as a sequence of events in source order: a `{ ... }`
//! block opens a scope before its contents and closes it after them; each
//! alias, declaration and assignment contributes its own event. Scopes hold
//! what is visible at a point of the walk; the registry keeps every
//! declaration and assignment, from any scope, under `{name}_{line}`.
use vstd::prelude::*;
use crate::symbol_table::{
    ScopeStack, SymbolTable, VariableModel, VariableState, declared, entered, exited,
    innermost_with, lemma_innermost_with, registry_key, resolved,
};
use crate::syntax::{SyntaxChild, SyntaxNode, first_with_field, lemma_first_with_field};
use crate::text::{text_is, trim, trimmed};

verus! {

/// One step of the walk's effect on the symbol table.
pub enum SymbolEvent {
    /// A block opens: a new innermost scope.
    Enter,
    /// A block closes: the innermost scope goes, unless it is the global one.
    Exit,
    /// A variable declared in the innermost scope with this name and state.
    Variable(Seq<char>, VariableModel),
    /// A type alias from this name to this type, in the innermost scope.
    Alias(Seq<char>, Seq<char>),
    /// A value stored into the variable of this name on this (one-based)
    /// line.
    Assign(Seq<char>, usize),
}

/// The symbol table as its models: the variables and the aliases of each
/// scope, outermost first, and the registry.
pub type TableModel = (
    ScopeStack<VariableModel>,
    ScopeStack<Seq<char>>,
    Map<Seq<char>, VariableModel>,
);

/// The model of a symbol table.
pub open spec fn table_model(t: SymbolTable) -> TableModel {
    (t.variables(), t.aliases(), t.records())
}

/// The state of a variable once a value has been stored into it.
pub open spec fn assigned_state(st: VariableModel) -> VariableModel {
    VariableModel {
        declared_type: st.declared_type,
        is_initialized: true,
        is_mutated: true,
        read_count: st.read_count,
        line_declared: st.line_declared,
    }
}

/// The same state, recorded as of `line`.
pub open spec fn as_of(st: VariableModel, line: usize) -> VariableModel {
    VariableModel {
        declared_type: st.declared_type,
        is_initialized: st.is_initialized,
        is_mutated: st.is_mutated,
        read_count: st.read_count,
        line_declared: line,
    }
}

/// The table after one event. An assignment marks the variable it resolves
/// to as initialized and mutated, and records that state in the registry
/// as of the assignment's line; an assignment to an undeclared name changes
/// nothing.
pub open spec fn apply_event(t: TableModel, e: SymbolEvent) -> TableModel {
    match e {
        SymbolEvent::Enter => (entered(t.0), entered(t.1), t.2),
        SymbolEvent::Exit => (exited(t.0), exited(t.1), t.2),
        SymbolEvent::Variable(name, state) => (
            declared(t.0, name, state),
            t.1,
            t.2.insert(registry_key(name, state.line_declared), state),
        ),
        SymbolEvent::Alias(name, actual) => (t.0, declared(t.1, name, actual), t.2),
        SymbolEvent::Assign(name, line) => match resolved(t.0, name) {
            Some(st) => {
                let i = innermost_with(t.0, name);
                let now = assigned_state(st);
                (
                    t.0.update(i, t.0[i].insert(name, now)),
                    t.1,
                    t.2.insert(registry_key(name, line), as_of(now, line)),
                )
            },
            None => t,
        },
    }
}

/// The table after a sequence of events, applied in order.
pub open spec fn apply_events(t: TableModel, evs: Seq<SymbolEvent>) -> TableModel
    decreases evs.len(),
{
    if evs.len() == 0 {
        t
    } else {
        apply_event(apply_events(t, evs.drop_last()), evs.last())
    }
}

/// The state recorded for a variable declared with this type on this line.
pub open spec fn declared_state(ty: Seq<char>, initialized: bool, line: int) -> VariableModel {
    VariableModel {
        declared_type: ty,
        is_initialized: initialized,
        is_mutated: false,
        read_count: 0,
        line_declared: line as usize,
    }
}

/// Whether the kind names a declarator that wraps a name (`a[10]`, `*p`, `&r`).
pub open spec fn is_wrapping_declarator(kind: Seq<char>) -> bool {
    ||| kind == "array_declarator"@
    ||| kind == "pointer_declarator"@
    ||| kind == "reference_declarator"@
}

/// The variable name that a declarator declares: the trimmed text of the
/// identifier it wraps, through any number of array, pointer and reference
/// declarators.
pub open spec fn identifier_name(n: SyntaxNode) -> Option<Seq<char>>
    decreases n,
{
    if n.kind@ == "identifier"@ {
        match n.text {
            Some(t) => Some(trimmed(t@)),
            None => None,
        }
    } else if is_wrapping_declarator(n.kind@) {
        let i = first_with_field(n.children@, "declarator"@);
        if 0 <= i < n.children@.len() {
            identifier_name(n.children@[i].node)
        } else {
            None
        }
    } else {
        None
    }
}

/// An identifier names the variable of its trimmed text, and a wrapping
/// declarator (`a[10]`, `*p`, `&r`, nested to any depth) the variable of
/// the declarator it wraps.
pub proof fn law_identifier_through_wrappers(n: SyntaxNode)
    ensures
        n.kind@ == "identifier"@ ==> identifier_name(n) == match n.text {
            Some(t) => Some(trimmed(t@)),
            None => None,
        },
        is_wrapping_declarator(n.kind@) ==> match n.field_child("declarator"@) {
            Some(w) => identifier_name(n) == identifier_name(w),
            None => identifier_name(n) is None,
        },
{
    lemma_first_with_field(n.children@, "declarator"@);
    reveal_strlit("identifier");
    reveal_strlit("array_declarator");
    reveal_strlit("pointer_declarator");
    reveal_strlit("reference_declarator");
    if is_wrapping_declarator(n.kind@) {
        assert(n.kind@[0] != 'i');
        assert(n.kind@ != "identifier"@);
    }
}

/// The events of one child of a declaration whose type is `ty`.
pub open spec fn declarator_events(c: SyntaxNode, ty: Seq<char>, line: int) -> Seq<SymbolEvent> {
    if c.kind@ == "identifier"@ || is_wrapping_declarator(c.kind@) {
        match identifier_name(c) {
            Some(name) => seq![SymbolEvent::Variable(name, declared_state(ty, false, line))],
            None => Seq::empty(),
        }
    } else if c.kind@ == "init_declarator"@ {
        match c.field_child("declarator"@) {
            Some(d) => match identifier_name(d) {
                Some(name) => seq![SymbolEvent::Variable(name, declared_state(ty, true, line))],
                None => Seq::empty(),
            },
            None => Seq::empty(),
        }
    } else {
        Seq::empty()
    }
}

/// The events of the children `cs` of a declaration, in order.
pub open spec fn declarators_events(cs: Seq<SyntaxChild>, ty: Seq<char>, line: int) -> Seq<
    SymbolEvent,
>
    decreases cs.len(),
{
    if cs.len() == 0 {
        Seq::empty()
    } else {
        declarators_events(cs.drop_last(), ty, line) + declarator_events(cs.last().node, ty, line)
    }
}

/// A declarator declares the variable it names: an initialized one for an
/// `init_declarator` (`int a[5] = {0};`, `int *p = nullptr;`), through any
/// wrapping of its own declarator; an uninitialized one for an identifier or
/// a wrapping declarator (`int dp[100][100];`); each with the declaration's
/// type and line and not yet mutated or read.
pub proof fn law_declarator_declares_its_name(c: SyntaxNode, ty: Seq<char>, line: int)
    requires
        0 <= line <= usize::MAX,
    ensures
        c.kind@ == "init_declarator"@ ==> match c.field_child("declarator"@) {
            Some(d) => match identifier_name(d) {
                Some(x) => declarator_events(c, ty, line) == seq![
                    SymbolEvent::Variable(
                        x,
                        VariableModel {
                            declared_type: ty,
                            is_initialized: true,
                            is_mutated: false,
                            read_count: 0,
                            line_declared: line as usize,
                        },
                    ),
                ],
                None => declarator_events(c, ty, line) == Seq::<SymbolEvent>::empty(),
            },
            None => declarator_events(c, ty, line) == Seq::<SymbolEvent>::empty(),
        },
        (c.kind@ == "identifier"@ || is_wrapping_declarator(c.kind@)) ==> match identifier_name(c) {
            Some(x) => declarator_events(c, ty, line) == seq![
                SymbolEvent::Variable(
                    x,
                    VariableModel {
                        declared_type: ty,
                        is_initialized: false,
                        is_mutated: false,
                        read_count: 0,
                        line_declared: line as usize,
                    },
                ),
            ],
            None => declarator_events(c, ty, line) == Seq::<SymbolEvent>::empty(),
        },
{
    reveal_strlit("identifier");
    reveal_strlit("init_declarator");
    reveal_strlit("array_declarator");
    reveal_strlit("pointer_declarator");
    reveal_strlit("reference_declarator");
    assert("init_declarator"@.len() != "identifier"@.len());
    assert("init_declarator"@ != "array_declarator"@) by {
        assert("init_declarator"@[0] != "array_declarator"@[0]);
    }
    assert("init_declarator"@ != "pointer_declarator"@) by {
        assert("init_declarator"@[0] != "pointer_declarator"@[0]);
    }
    assert("init_declarator"@ != "reference_declarator"@) by {
        assert("init_declarator"@[0] != "reference_declarator"@[0]);
    }
}

/// The variables a declaration node declares: one per declarator, with the
/// trimmed text of the declaration's type; initialized when the declarator
/// has an initializer.
pub open spec fn declaration_events(n: SyntaxNode) -> Seq<SymbolEvent> {
    match n.field_child("type"@) {
        Some(t) => match t.text {
            Some(ty) => declarators_events(n.children@, trimmed(ty@), n.start_row + 1),
            None => Seq::empty(),
        },
        None => Seq::empty(),
    }
}

/// The alias a `#define` or `using` node declares: from the trimmed text of
/// its `name_field` child to that of its `target_field` child.
pub open spec fn alias_events(n: SyntaxNode, name_field: Seq<char>, target_field: Seq<char>) -> Seq<
    SymbolEvent,
> {
    match (n.field_child(name_field), n.field_child(target_field)) {
        (Some(a), Some(b)) => match (a.text, b.text) {
            (Some(x), Some(y)) => seq![SymbolEvent::Alias(trimmed(x@), trimmed(y@))],
            _ => Seq::empty(),
        },
        _ => Seq::empty(),
    }
}

/// Whether the node's text names the standard input stream.
pub open spec fn names_input_stream(n: SyntaxNode) -> bool {
    n.text matches Some(t) && (trimmed(t@) == "cin"@ || trimmed(t@) == "std::cin"@)
}

/// Whether the node is an extraction `a >> b`.
pub open spec fn is_extraction(n: SyntaxNode) -> bool {
    n.kind@ == "binary_expression"@ && (n.field_child("operator"@) matches Some(o) && o.kind@
        == ">>"@)
}

/// Whether the node reads from the standard input: `cin` itself, or an
/// extraction whose left operand reads from it (`cin >> a >> b`).
pub open spec fn reads_from_input(n: SyntaxNode) -> bool
    decreases n,
{
    if names_input_stream(n) {
        true
    } else if is_extraction(n) {
        let i = first_with_field(n.children@, "left"@);
        0 <= i < n.children@.len() && reads_from_input(n.children@[i].node)
    } else {
        false
    }
}

/// The trimmed name of the identifier labelled `field`, if that child is an
/// identifier.
pub open spec fn written(n: SyntaxNode, field: Seq<char>) -> Option<Seq<char>> {
    match n.field_child(field) {
        Some(c) => if c.kind@ == "identifier"@ {
            match c.text {
                Some(t) => Some(trimmed(t@)),
                None => None,
            }
        } else {
            None
        },
        None => None,
    }
}

/// The variable a node stores a value into: the left side of an assignment
/// (`n = 3`, `n += 1`), or the right operand of an extraction from the
/// standard input (`cin >> n`).
pub open spec fn assignment_target(n: SyntaxNode) -> Option<Seq<char>> {
    if n.kind@ == "assignment_expression"@ {
        written(n, "left"@)
    } else if is_extraction(n) && (n.field_child("left"@) matches Some(l) && reads_from_input(l)) {
        written(n, "right"@)
    } else {
        None
    }
}

/// The assignment a node makes, on its one-based line.
pub open spec fn assignment_events(n: SyntaxNode) -> Seq<SymbolEvent> {
    match assignment_target(n) {
        Some(name) => seq![SymbolEvent::Assign(name, (n.start_row + 1) as usize)],
        None => Seq::empty(),
    }
}

/// What a node declares or assigns itself, apart from its children: every
/// `#define`, object-like or function-like, aliases its name to its value.
pub open spec fn own_events(n: SyntaxNode) -> Seq<SymbolEvent> {
    if n.kind@ == "preproc_def"@ || n.kind@ == "preproc_function_def"@ {
        alias_events(n, "name"@, "value"@)
    } else if n.kind@ == "alias_declaration"@ {
        alias_events(n, "name"@, "type"@)
    } else if n.kind@ == "declaration"@ {
        declaration_events(n)
    } else {
        assignment_events(n)
    }
}

/// The events of a subtree, in source order: the node's own, then those of
/// each child, all between the opening and the closing of a scope when the
/// node is a `{ ... }` block.
pub open spec fn node_events(n: SyntaxNode) -> Seq<SymbolEvent>
    decreases n,
{
    if n.kind@ == "compound_statement"@ {
        seq![SymbolEvent::Enter] + own_events(n) + children_events(n.children@) + seq![
            SymbolEvent::Exit,
        ]
    } else {
        own_events(n) + children_events(n.children@)
    }
}

/// The events of a list of subtrees, one after another.
pub open spec fn children_events(cs: Seq<SyntaxChild>) -> Seq<SymbolEvent>
    decreases cs,
{
    if cs.len() == 0 {
        Seq::empty()
    } else {
        children_events(cs.drop_last()) + node_events(cs.last().node)
    }
}

/// Whether every event declares a variable or an alias.
pub open spec fn declarations_only(evs: Seq<SymbolEvent>) -> bool {
    forall|i: int| 0 <= i < evs.len() ==> (#[trigger] evs[i]) is Variable || evs[i] is Alias
}

/// Applying two runs of events is applying their concatenation.
pub proof fn lemma_apply_concat(t: TableModel, a: Seq<SymbolEvent>, b: Seq<SymbolEvent>)
    ensures
        apply_events(t, a + b) == apply_events(apply_events(t, a), b),
    decreases b.len(),
{
    if b.len() > 0 {
        assert((a + b).drop_last() =~= a + b.drop_last());
        lemma_apply_concat(t, a, b.drop_last());
    }
}

/// Declarations change only the innermost scope: the number of scopes and
/// every outer scope stay as they were.
pub proof fn lemma_apply_innermost_only(t: TableModel, evs: Seq<SymbolEvent>)
    requires
        t.0.len() >= 1,
        t.1.len() >= 1,
        declarations_only(evs),
    ensures
        apply_events(t, evs).0.len() == t.0.len(),
        apply_events(t, evs).1.len() == t.1.len(),
        apply_events(t, evs).0.drop_last() == t.0.drop_last(),
        apply_events(t, evs).1.drop_last() == t.1.drop_last(),
    decreases evs.len(),
{
    if evs.len() > 0 {
        assert(declarations_only(evs.drop_last())) by {
            assert forall|i: int| 0 <= i < evs.drop_last().len() implies (#[trigger] evs.drop_last()[i]) is Variable
                || evs.drop_last()[i] is Alias by {
                assert(evs.drop_last()[i] == evs[i]);
            }
        }
        assert(evs.last() == evs[evs.len() - 1]);
        lemma_apply_innermost_only(t, evs.drop_last());
        let p = apply_events(t, evs.drop_last());
        match evs.last() {
            SymbolEvent::Variable(name, state) => {
                assert(declared(p.0, name, state).drop_last() =~= p.0.drop_last());
            },
            SymbolEvent::Alias(name, actual) => {
                assert(declared(p.1, name, actual).drop_last() =~= p.1.drop_last());
            },
            _ => {},
        }
    }
}

/// A scope opened, filled with any declarations and closed again leaves the
/// scopes as they were: what was declared in it is gone.
pub proof fn law_block_leaves_scopes(t: TableModel, evs: Seq<SymbolEvent>)
    requires
        t.0.len() >= 1,
        t.1.len() >= 1,
        declarations_only(evs),
    ensures
        ({
            let inner = apply_events(apply_event(t, SymbolEvent::Enter), evs);
            let after = apply_event(inner, SymbolEvent::Exit);
            after.0 == t.0 && after.1 == t.1
        }),
{
    let e = apply_event(t, SymbolEvent::Enter);
    lemma_apply_innermost_only(e, evs);
    assert(e.0.drop_last() =~= t.0);
    assert(e.1.drop_last() =~= t.1);
}

/// Every declaration is kept in the registry under `{name}_{line}`,
/// whatever scope it is made in and whatever happens to that scope later:
/// closing a block does not remove it.
pub proof fn law_registry_keeps_declarations(
    t: TableModel,
    name: Seq<char>,
    state: VariableModel,
    rest: Seq<SymbolEvent>,
)
    requires
        forall|i: int| 0 <= i < rest.len() ==> (#[trigger] rest[i]) is Enter || rest[i] is Exit
            || rest[i] is Alias,
    ensures
        apply_events(apply_event(t, SymbolEvent::Variable(name, state)), rest).2[registry_key(
            name,
            state.line_declared,
        )] == state,
        apply_events(apply_event(t, SymbolEvent::Variable(name, state)), rest).2.contains_key(
            registry_key(name, state.line_declared),
        ),
    decreases rest.len(),
{
    if rest.len() > 0 {
        assert forall|i: int| 0 <= i < rest.drop_last().len() implies (
        #[trigger] rest.drop_last()[i]) is Enter || rest.drop_last()[i] is Exit
            || rest.drop_last()[i] is Alias by {
            assert(rest.drop_last()[i] == rest[i]);
        }
        assert(rest.last() == rest[rest.len() - 1]);
        law_registry_keeps_declarations(t, name, state, rest.drop_last());
    }
}

/// The variable name a declarator declares (the identifier it wraps).
fn extract_identifier_name(node: &SyntaxNode) -> (r: Option<String>)
    ensures
        match r {
            Some(s) => identifier_name(*node) == Some(s@),
            None => identifier_name(*node) is None,
        },
    decreases node,
{
    if node.is_kind("identifier") {
        match &node.text {
            Some(t) => Some(trim(t.as_str())),
            None => None,
        }
    } else if node.is_kind("array_declarator") || node.is_kind("pointer_declarator")
        || node.is_kind("reference_declarator") {
        proof {
            lemma_first_with_field(node.children@, "declarator"@);
        }
        match node.child_by_field_name("declarator") {
            Some(d) => extract_identifier_name(d),
            None => None,
        }
    } else {
        None
    }
}

/// Records the variables that a declaration node declares.
fn extract_variables(node: &SyntaxNode, table: &mut SymbolTable)
    requires
        old(table).wf(),
        node.start_row < usize::MAX,
    ensures
        final(table).wf(),
        final(table).depth() == old(table).depth(),
        table_model(*final(table)) == apply_events(
            table_model(*old(table)),
            declaration_events(*node),
        ),
{
    let type_node = match node.child_by_field_name("type") {
        Some(t) => t,
        None => {
            return;
        },
    };
    let declared_type = match &type_node.text {
        Some(t) => trim(t.as_str()),
        None => {
            return;
        },
    };
    let line = node.start_row + 1;
    let ghost t0 = table_model(*table);
    let ghost d0 = table.depth();
    let mut i: usize = 0;
    while i < node.children.len()
        invariant
            table.wf(),
            table.depth() == d0,
            i <= node.children@.len(),
            line == node.start_row + 1,
            table_model(*table) == apply_events(
                t0,
                declarators_events(node.children@.take(i as int), declared_type@, line as int),
            ),
        decreases node.children.len() - i,
    {
        let child = &node.children[i].node;
        let ghost before = table_model(*table);
        let ghost evs = declarator_events(*child, declared_type@, line as int);
        if child.is_kind("identifier") || child.is_kind("array_declarator") || child.is_kind(
            "pointer_declarator",
        ) || child.is_kind("reference_declarator") {
            if let Some(name) = extract_identifier_name(child) {
                table.declare_var(
                    name,
                    VariableState {
                        declared_type: declared_type.clone(),
                        is_initialized: false,
                        is_mutated: false,
                        read_count: 0,
                        line_declared: line,
                    },
                );
            }
        } else if child.is_kind("init_declarator") {
            if let Some(decl_node) = child.child_by_field_name("declarator") {
                if let Some(name) = extract_identifier_name(decl_node) {
                    table.declare_var(
                        name,
                        VariableState {
                            declared_type: declared_type.clone(),
                            is_initialized: true,
                            is_mutated: false,
                            read_count: 0,
                            line_declared: line,
                        },
                    );
                }
            }
        }
        proof {
            let cs = node.children@.take(i + 1);
            assert(cs.drop_last() =~= node.children@.take(i as int));
            assert(cs.last().node == *child);
            assert(declarators_events(cs, declared_type@, line as int) == declarators_events(
                node.children@.take(i as int),
                declared_type@,
                line as int,
            ) + evs);
            lemma_apply_concat(
                t0,
                declarators_events(node.children@.take(i as int), declared_type@, line as int),
                evs,
            );
            if evs.len() == 1 {
                assert(evs.drop_last() =~= Seq::<SymbolEvent>::empty());
                assert(apply_events(before, evs.drop_last()) == before);
                assert(apply_events(before, evs) == apply_event(before, evs[0]));
            }
            assert(apply_events(before, evs) == table_model(*table));
        }
        i += 1;
    }
    assert(node.children@.take(i as int) =~= node.children@);
}

/// Whether the node reads from the standard input.
fn reads_input(n: &SyntaxNode) -> (r: bool)
    ensures
        r == reads_from_input(*n),
    decreases n,
{
    let is_stream = match &n.text {
        Some(t) => {
            let tt = trim(t.as_str());
            text_is(tt.as_str(), "cin") || text_is(tt.as_str(), "std::cin")
        },
        None => false,
    };
    if is_stream {
        return true;
    }
    if extraction(n) {
        proof {
            lemma_first_with_field(n.children@, "left"@);
        }
        match n.child_by_field_name("left") {
            Some(l) => reads_input(l),
            None => false,
        }
    } else {
        false
    }
}

/// Whether the node is an extraction `a >> b`.
fn extraction(n: &SyntaxNode) -> (r: bool)
    ensures
        r == is_extraction(*n),
{
    if !n.is_kind("binary_expression") {
        return false;
    }
    match n.child_by_field_name("operator") {
        Some(o) => o.is_kind(">>"),
        None => false,
    }
}

/// The trimmed name of the identifier labelled `field`.
fn written_name(n: &SyntaxNode, field: &str) -> (r: Option<String>)
    ensures
        match r {
            Some(s) => written(*n, field@) == Some(s@),
            None => written(*n, field@) is None,
        },
{
    match n.child_by_field_name(field) {
        Some(c) => if c.is_kind("identifier") {
            match &c.text {
                Some(t) => Some(trim(t.as_str())),
                None => None,
            }
        } else {
            None
        },
        None => None,
    }
}

/// The variable the node stores a value into, if any.
fn target_of(n: &SyntaxNode) -> (r: Option<String>)
    ensures
        match r {
            Some(s) => assignment_target(*n) == Some(s@),
            None => assignment_target(*n) is None,
        },
{
    if n.is_kind("assignment_expression") {
        written_name(n, "left")
    } else if extraction(n) {
        let from_input = match n.child_by_field_name("left") {
            Some(l) => reads_input(l),
            None => false,
        };
        if from_input {
            written_name(n, "right")
        } else {
            None
        }
    } else {
        None
    }
}

/// Records that a value is stored into `name` on `line`: the variable it
/// resolves to becomes initialized and mutated, and that state enters the
/// registry as of `line`.
fn record_assignment(table: &mut SymbolTable, name: String, line: usize)
    requires
        old(table).wf(),
    ensures
        final(table).wf(),
        final(table).depth() == old(table).depth(),
        table_model(*final(table)) == apply_event(
            table_model(*old(table)),
            SymbolEvent::Assign(name@, line),
        ),
{
    let ghost t0 = table_model(*table);
    proof {
        table.lemma_has_scope();
        lemma_innermost_with(t0.0, name@);
    }
    let snapshot = match table.lookup_var(name.as_str()) {
        Some(state) => {
            state.is_initialized = true;
            state.is_mutated = true;
            Some(
                VariableState {
                    declared_type: state.declared_type.clone(),
                    is_initialized: true,
                    is_mutated: true,
                    read_count: state.read_count,
                    line_declared: line,
                },
            )
        },
        None => None,
    };
    match snapshot {
        Some(s) => {
            table.record_state(name.as_str(), s);
        },
        None => {},
    }
}

/// Records the assignment the node makes, if any.
fn record_assignments_of(node: &SyntaxNode, table: &mut SymbolTable)
    requires
        old(table).wf(),
        node.start_row < usize::MAX,
    ensures
        final(table).wf(),
        final(table).depth() == old(table).depth(),
        table_model(*final(table)) == apply_events(
            table_model(*old(table)),
            assignment_events(*node),
        ),
{
    let ghost t0 = table_model(*table);
    match target_of(node) {
        Some(name) => {
            let ghost ev = SymbolEvent::Assign(name@, (node.start_row + 1) as usize);
            record_assignment(table, name, node.start_row + 1);
            proof {
                let evs = assignment_events(*node);
                assert(evs == seq![ev]);
                assert(evs.drop_last() =~= Seq::<SymbolEvent>::empty());
                assert(apply_events(t0, evs.drop_last()) == t0);
                assert(evs.last() == ev);
                assert(apply_events(t0, evs) == apply_event(t0, ev));
            }
        },
        None => {},
    }
}

/// Visits `node` and its subtree in source order: a `{ ... }` block opens a
/// scope around its contents; aliases, declarations and assignments are
/// recorded.
fn traverse(node: &SyntaxNode, table: &mut SymbolTable)
    requires
        old(table).wf(),
        node.positions_fit(),
    ensures
        final(table).wf(),
        final(table).depth() == old(table).depth(),
        table_model(*final(table)) == apply_events(table_model(*old(table)), node_events(*node)),
    decreases node,
{
    let ghost t0 = table_model(*table);
    let ghost d0 = table.depth();
    proof {
        table.lemma_has_scope();
    }
    let is_scope = node.is_kind("compound_statement");
    let ghost opening: Seq<SymbolEvent> = if is_scope {
        seq![SymbolEvent::Enter]
    } else {
        Seq::empty()
    };
    if is_scope {
        table.enter_scope();
        proof {
            assert(opening.drop_last() =~= Seq::<SymbolEvent>::empty());
            assert(apply_events(t0, opening.drop_last()) == t0);
            assert(opening.last() == SymbolEvent::Enter);
            table.lemma_has_scope();
            assert(table.depth() == d0 + 1);
        }
    }
    let ghost t1 = table_model(*table);
    assert(t1 == apply_events(t0, opening));
    let ghost d1 = table.depth();
    if node.is_kind("preproc_def") || node.is_kind("preproc_function_def") {
        declare_alias_of(node, "name", "value", table);
    } else if node.is_kind("alias_declaration") {
        declare_alias_of(node, "name", "type", table);
    } else if node.is_kind("declaration") {
        extract_variables(node, table);
    } else {
        record_assignments_of(node, table);
    }
    let ghost t2 = table_model(*table);
    assert(t2 == apply_events(t1, own_events(*node)));
    let mut i: usize = 0;
    while i < node.children.len()
        invariant
            table.wf(),
            table.depth() == d1,
            i <= node.children@.len(),
            forall|j: int| 0 <= j < node.children@.len() ==> (#[trigger] node.children@[j]).node.positions_fit(),
            table_model(*table) == apply_events(t2, children_events(node.children@.take(i as int))),
        decreases node.children.len() - i,
    {
        traverse(&node.children[i].node, table);
        proof {
            let cs = node.children@.take(i + 1);
            assert(cs.drop_last() =~= node.children@.take(i as int));
            lemma_apply_concat(
                t2,
                children_events(node.children@.take(i as int)),
                node_events(node.children@[i as int].node),
            );
        }
        i += 1;
    }
    assert(node.children@.take(i as int) =~= node.children@);
    proof {
        lemma_apply_concat(t1, own_events(*node), children_events(node.children@));
        lemma_apply_concat(t0, opening, own_events(*node) + children_events(node.children@));
        table.lemma_has_scope();
    }
    if is_scope {
        let ghost t3 = table_model(*table);
        table.exit_scope();
        proof {
            let body = opening + (own_events(*node) + children_events(node.children@));
            lemma_apply_concat(t0, body, seq![SymbolEvent::Exit]);
            let x = seq![SymbolEvent::Exit];
            assert(x.drop_last() =~= Seq::<SymbolEvent>::empty());
            assert(apply_events(t3, x.drop_last()) == t3);
            assert(x.last() == SymbolEvent::Exit);
            assert(apply_events(t3, x) == apply_event(t3, SymbolEvent::Exit));
            table.lemma_has_scope();
            assert(node.kind@ == "compound_statement"@);
            assert(node_events(*node) == seq![SymbolEvent::Enter] + own_events(*node)
                + children_events(node.children@) + seq![SymbolEvent::Exit]);
            assert(body + seq![SymbolEvent::Exit] =~= node_events(*node));
        }
    } else {
        assert(opening + (own_events(*node) + children_events(node.children@)) =~= node_events(*node));
    }
}

/// Records the alias that a `#define` (`name_field` = "name", `target_field`
/// = "value") or `using` ("name", "type") node declares.
fn declare_alias_of(node: &SyntaxNode, name_field: &str, target_field: &str, table: &mut SymbolTable)
    requires
        old(table).wf(),
    ensures
        final(table).wf(),
        final(table).depth() == old(table).depth(),
        table_model(*final(table)) == apply_events(
            table_model(*old(table)),
            alias_events(*node, name_field@, target_field@),
        ),
{
    let ghost t0 = table_model(*table);
    let name_node = node.child_by_field_name(name_field);
    let value_node = node.child_by_field_name(target_field);
    if let (Some(a), Some(b)) = (name_node, value_node) {
        if let (Some(name), Some(value)) = (&a.text, &b.text) {
            let alias = trim(name.as_str());
            let actual_type = trim(value.as_str());
            let ghost ev = SymbolEvent::Alias(alias@, actual_type@);
            table.declare_alias(alias, actual_type);
            proof {
                let evs = alias_events(*node, name_field@, target_field@);
                assert(evs == seq![ev]);
                assert(evs.drop_last() =~= Seq::<SymbolEvent>::empty());
                assert(apply_events(t0, evs.drop_last()) == t0);
                assert(apply_events(t0, evs) == apply_event(t0, ev));
                assert(table_model(*table) == apply_event(t0, ev));
            }
        }
    }
}

/// Walks the tree under `root_node`, recording its aliases, declarations
/// and assignments in `table`.
pub fn walk_ast(root_node: &SyntaxNode, table: &mut SymbolTable)
    requires
        old(table).wf(),
        root_node.positions_fit(),
    ensures
        final(table).wf(),
        final(table).depth() == old(table).depth(),
        table_model(*final(table)) == apply_events(
            table_model(*old(table)),
            node_events(*root_node),
        ),
{
    traverse(root_node, table);
}

} // verus!
