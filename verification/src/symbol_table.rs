//! The symbol table: a stack of lexical scopes, each holding the variables
//! and the type aliases (`#define`, `using`) declared in it. The outermost
//! (global) scope is never removed.
use vstd::prelude::*;
use crate::name_map::NameMap;
use crate::text::{decimal, push_decimal};

verus! {

/// A stack of scopes, each modelled as a map from names to values; the last
/// scope is the innermost.
pub type ScopeStack<V> = Seq<Map<Seq<char>, V>>;

/// The stack with a new, empty innermost scope.
pub open spec fn entered<V>(s: ScopeStack<V>) -> ScopeStack<V> {
    s.push(Map::empty())
}

/// The stack without its innermost scope, unless that is the only one.
pub open spec fn exited<V>(s: ScopeStack<V>) -> ScopeStack<V> {
    if s.len() > 1 {
        s.drop_last()
    } else {
        s
    }
}

/// The stack with `name` set to `value` in its innermost scope.
pub open spec fn declared<V>(s: ScopeStack<V>, name: Seq<char>, value: V) -> ScopeStack<V> {
    s.update(s.len() - 1, s.last().insert(name, value))
}

/// The index of the innermost scope that holds `name`, or -1.
pub open spec fn innermost_with<V>(s: ScopeStack<V>, name: Seq<char>) -> int
    decreases s.len(),
{
    if s.len() == 0 {
        -1
    } else if s.last().contains_key(name) {
        s.len() - 1
    } else {
        innermost_with(s.drop_last(), name)
    }
}

/// What a name resolves to in the stack: the value in the innermost scope
/// that holds it, if any.
pub open spec fn resolved<V>(s: ScopeStack<V>, name: Seq<char>) -> Option<V> {
    let i = innermost_with(s, name);
    if i >= 0 {
        Some(s[i][name])
    } else {
        None
    }
}

/// The type name reached from `t` by following aliases: while some scope
/// aliases the current name, it is replaced by what the innermost such scope
/// gives, at most `fuel` times.
pub open spec fn expand_alias(aliases: ScopeStack<Seq<char>>, t: Seq<char>, fuel: nat) -> Seq<char>
    decreases fuel,
{
    if fuel == 0 {
        t
    } else {
        match resolved(aliases, t) {
            Some(u) => expand_alias(aliases, u, (fuel - 1) as nat),
            None => t,
        }
    }
}

/// The key under which the registry records a variable's state as of a
/// line: `{name}_{line}`.
pub open spec fn registry_key(name: Seq<char>, line: usize) -> Seq<char> {
    name + "_"@ + decimal(line as nat)
}

/// The registry key `{name}_{line}`.
pub fn registry_key_of(name: &str, line: usize) -> (r: String)
    ensures
        r@ == registry_key(name@, line),
{
    let mut key = String::from_str(name);
    key.append("_");
    push_decimal(&mut key, line);
    key
}

/// The sum of the sizes, or `usize::MAX` when the sum is larger.
pub open spec fn capped_total(sizes: Seq<nat>) -> nat
    decreases sizes.len(),
{
    if sizes.len() == 0 {
        0
    } else {
        let t = capped_total(sizes.drop_last()) + sizes.last();
        if t > usize::MAX {
            usize::MAX as nat
        } else {
            t
        }
    }
}

/// How many aliases resolution follows at most: the number of aliases in
/// all scopes (only a cycle of aliases makes a longer chain), capped at
/// `usize::MAX`.
pub open spec fn alias_count(aliases: ScopeStack<Seq<char>>) -> nat {
    capped_total(aliases.map_values(|m: Map<Seq<char>, Seq<char>>| m.dom().len()))
}

/// A capped total is at most `usize::MAX`, at least the capped total of any
/// prefix, and at least the last size (capped).
pub proof fn lemma_capped_total(sizes: Seq<nat>)
    ensures
        capped_total(sizes) <= usize::MAX,
        sizes.len() > 0 ==> capped_total(sizes) >= capped_total(sizes.drop_last()),
        sizes.len() > 0 ==> (capped_total(sizes) >= sizes.last() || capped_total(sizes)
            == usize::MAX),
{
}

/// The index returned by `innermost_with` is a scope holding the name, and no
/// scope inside it holds the name.
pub proof fn lemma_innermost_with<V>(s: ScopeStack<V>, name: Seq<char>)
    ensures
        -1 <= innermost_with(s, name) < s.len(),
        innermost_with(s, name) >= 0 ==> s[innermost_with(s, name)].contains_key(name),
        forall|j: int| innermost_with(s, name) < j < s.len() ==> !(#[trigger] s[j]).contains_key(name),
    decreases s.len(),
{
    if s.len() > 0 && !s.last().contains_key(name) {
        lemma_innermost_with(s.drop_last(), name);
        assert forall|j: int| innermost_with(s, name) < j < s.len() implies !(
        #[trigger] s[j]).contains_key(name) by {
            if j < s.len() - 1 {
                assert(s[j] == s.drop_last()[j]);
            }
        }
    }
}

/// A variable declared in the innermost scope is what a lookup of its name
/// finds.
pub proof fn law_lookup_finds_declaration<V>(s: ScopeStack<V>, name: Seq<char>, value: V)
    requires
        s.len() >= 1,
    ensures
        resolved(declared(s, name, value), name) == Some(value),
{
}

/// Declaring one name leaves what every other name resolves to unchanged.
pub proof fn law_declaration_leaves_other_names<V>(
    s: ScopeStack<V>,
    name: Seq<char>,
    value: V,
    other: Seq<char>,
)
    requires
        s.len() >= 1,
        other != name,
    ensures
        resolved(declared(s, name, value), other) == resolved(s, other),
{
    let t = declared(s, name, value);
    assert(t.drop_last() =~= s.drop_last());
    assert(t.last().contains_key(other) == s.last().contains_key(other));
    if s.last().contains_key(other) {
        assert(innermost_with(t, other) == s.len() - 1);
        assert(innermost_with(s, other) == s.len() - 1);
        assert(t[s.len() - 1][other] == s[s.len() - 1][other]);
    } else {
        assert(innermost_with(t, other) == innermost_with(s.drop_last(), other));
        lemma_innermost_with(s.drop_last(), other);
        if innermost_with(s, other) >= 0 {
            assert(t[innermost_with(s, other)] == s[innermost_with(s, other)]);
        }
    }
}

/// Closing a scope just opened gives back the stack as it was.
pub proof fn law_exit_undoes_enter<V>(s: ScopeStack<V>)
    requires
        s.len() >= 1,
    ensures
        exited(entered(s)) == s,
{
    assert(entered(s).drop_last() =~= s);
}

/// The stack after declaring each pair of `ds` in turn.
pub open spec fn declared_all<V>(s: ScopeStack<V>, ds: Seq<(Seq<char>, V)>) -> ScopeStack<V>
    decreases ds.len(),
{
    if ds.len() == 0 {
        s
    } else {
        declared(declared_all(s, ds.drop_last()), ds.last().0, ds.last().1)
    }
}

/// Declarations change only the innermost scope.
pub proof fn lemma_declared_all_innermost<V>(s: ScopeStack<V>, ds: Seq<(Seq<char>, V)>)
    requires
        s.len() >= 1,
    ensures
        declared_all(s, ds).len() == s.len(),
        declared_all(s, ds).drop_last() == s.drop_last(),
    decreases ds.len(),
{
    if ds.len() > 0 {
        lemma_declared_all_innermost(s, ds.drop_last());
        let p = declared_all(s, ds.drop_last());
        assert(declared(p, ds.last().0, ds.last().1).drop_last() =~= p.drop_last());
    }
}

/// Whatever is declared after a scope is opened is discarded when it is
/// closed: the stack is again as it was before the scope was opened.
pub proof fn law_exit_discards_declarations<V>(s: ScopeStack<V>, ds: Seq<(Seq<char>, V)>)
    requires
        s.len() >= 1,
    ensures
        exited(declared_all(entered(s), ds)) == s,
{
    lemma_declared_all_innermost(entered(s), ds);
    assert(entered(s).drop_last() =~= s);
}

/// The global scope is never closed: a stack that has a scope keeps one.
pub proof fn law_global_scope_stays<V>(s: ScopeStack<V>)
    requires
        s.len() >= 1,
    ensures
        exited(s).len() >= 1,
        s.len() == 1 ==> exited(s) == s,
{
}

/// A declaration in an inner scope shadows one of the same name outside it,
/// and the outer one is found again once the inner scope is closed.
pub proof fn law_shadowing<V>(s: ScopeStack<V>, name: Seq<char>, outer: V, inner: V)
    requires
        s.len() >= 1,
    ensures
        resolved(declared(entered(declared(s, name, outer)), name, inner), name) == Some(inner),
        exited(declared(entered(declared(s, name, outer)), name, inner)) == declared(
            s,
            name,
            outer,
        ),
        resolved(exited(declared(entered(declared(s, name, outer)), name, inner)), name) == Some(
            outer,
        ),
{
    let d = declared(s, name, outer);
    let t = declared(entered(d), name, inner);
    assert(t.drop_last() =~= d);
}

/// A type name that no scope aliases resolves to itself.
pub proof fn law_unaliased_type_is_itself(aliases: ScopeStack<Seq<char>>, t: Seq<char>, fuel: nat)
    requires
        forall|i: int| 0 <= i < aliases.len() ==> !(#[trigger] aliases[i]).contains_key(t),
    ensures
        expand_alias(aliases, t, fuel) == t,
{
    lemma_innermost_with(aliases, t);
}

/// An alias is replaced by what the innermost scope that declares it gives,
/// and resolution goes on from there.
pub proof fn law_alias_chain(aliases: ScopeStack<Seq<char>>, t: Seq<char>, fuel: nat)
    requires
        fuel > 0,
        resolved(aliases, t) is Some,
    ensures
        expand_alias(aliases, t, fuel) == expand_alias(
            aliases,
            resolved(aliases, t)->0,
            (fuel - 1) as nat,
        ),
{
}

/// An alias declared in the innermost scope resolves to its type, when no
/// scope aliases that type in turn.
pub proof fn law_alias_resolves(aliases: ScopeStack<Seq<char>>, alias: Seq<char>, actual: Seq<char>)
    requires
        aliases.len() >= 1,
        forall|i: int| 0 <= i < aliases.len() ==> (#[trigger] aliases[i]).dom().finite(),
        forall|i: int| 0 <= i < aliases.len() ==> !(#[trigger] aliases[i]).contains_key(actual),
        actual != alias,
    ensures
        expand_alias(declared(aliases, alias, actual), alias, alias_count(declared(aliases, alias, actual)))
            == actual,
{
    let d = declared(aliases, alias, actual);
    law_lookup_finds_declaration(aliases, alias, actual);
    assert forall|i: int| 0 <= i < d.len() implies !(#[trigger] d[i]).contains_key(actual) by {
        if i < aliases.len() - 1 {
            assert(d[i] == aliases[i]);
        } else {
            assert(d[i] == aliases[i].insert(alias, actual));
        }
    }
    let sizes = d.map_values(|m: Map<Seq<char>, Seq<char>>| m.dom().len());
    let last = d[d.len() - 1];
    assert(last.dom().finite());
    assert(last.dom().contains(alias));
    vstd::set_lib::lemma_set_empty_equivalency_len(last.dom());
    assert(sizes.last() >= 1);
    lemma_capped_total(sizes);
    let fuel = alias_count(d);
    assert(fuel >= 1);
    law_unaliased_type_is_itself(d, actual, (fuel - 1) as nat);
}

/// Declaring an alias in the innermost scope counts one alias more, unless
/// that scope already aliased the name (then the count stays).
pub proof fn lemma_alias_count_declared(aliases: ScopeStack<Seq<char>>, alias: Seq<char>, actual: Seq<char>)
    requires
        aliases.len() >= 1,
        aliases.last().dom().finite(),
    ensures
        aliases.last().contains_key(alias) ==> alias_count(declared(aliases, alias, actual))
            == alias_count(aliases),
        !aliases.last().contains_key(alias) ==> alias_count(declared(aliases, alias, actual)) == if alias_count(
            aliases,
        ) < usize::MAX {
            alias_count(aliases) + 1
        } else {
            usize::MAX as nat
        },
{
    let sizes = aliases.map_values(|m: Map<Seq<char>, Seq<char>>| m.dom().len());
    let d = declared(aliases, alias, actual);
    let dsizes = d.map_values(|m: Map<Seq<char>, Seq<char>>| m.dom().len());
    assert(dsizes.drop_last() =~= sizes.drop_last());
    let last = aliases.last();
    assert(d.last() == last.insert(alias, actual));
    assert(d.last().dom() =~= last.dom().insert(alias));
    if last.contains_key(alias) {
        assert(last.dom().insert(alias) =~= last.dom());
    } else {
        assert(last.dom().insert(alias).len() == last.dom().len() + 1);
    }
    lemma_capped_total(sizes.drop_last());
}

/// Opening a scope leaves what every name resolves to unchanged: the new
/// scope is empty, and the number of aliases stays.
pub proof fn law_enter_keeps_resolution(aliases: ScopeStack<Seq<char>>, t: Seq<char>)
    ensures
        alias_count(entered(aliases)) == alias_count(aliases),
        expand_alias(entered(aliases), t, alias_count(entered(aliases))) == expand_alias(
            aliases,
            t,
            alias_count(aliases),
        ),
{
    let sizes = aliases.map_values(|m: Map<Seq<char>, Seq<char>>| m.dom().len());
    let e = entered(aliases);
    let esizes = e.map_values(|m: Map<Seq<char>, Seq<char>>| m.dom().len());
    assert(esizes.drop_last() =~= sizes);
    assert(Map::<Seq<char>, Seq<char>>::empty().dom() =~= Set::<Seq<char>>::empty());
    assert(esizes.last() == 0);
    lemma_capped_total(sizes);
    lemma_expand_entered(aliases, t, alias_count(aliases));
}

/// Resolution through a stack with an empty scope opened on top is
/// resolution through the stack.
proof fn lemma_expand_entered(aliases: ScopeStack<Seq<char>>, t: Seq<char>, fuel: nat)
    ensures
        expand_alias(entered(aliases), t, fuel) == expand_alias(aliases, t, fuel),
    decreases fuel,
{
    let e = entered(aliases);
    assert(e.drop_last() =~= aliases);
    assert(!e.last().contains_key(t));
    assert(innermost_with(e, t) == innermost_with(aliases, t));
    lemma_innermost_with(aliases, t);
    if innermost_with(aliases, t) >= 0 {
        assert(e[innermost_with(aliases, t)] == aliases[innermost_with(aliases, t)]);
    }
    assert(resolved(e, t) == resolved(aliases, t));
    if fuel > 0 {
        if let Some(u) = resolved(aliases, t) {
            lemma_expand_entered(aliases, u, (fuel - 1) as nat);
        }
    }
}

/// Whatever aliases are declared after a scope is opened, closing it makes
/// every name resolve as before the scope was opened.
pub proof fn law_exit_restores_resolution(
    aliases: ScopeStack<Seq<char>>,
    ds: Seq<(Seq<char>, Seq<char>)>,
    t: Seq<char>,
)
    requires
        aliases.len() >= 1,
    ensures
        ({
            let after = exited(declared_all(entered(aliases), ds));
            expand_alias(after, t, alias_count(after)) == expand_alias(aliases, t, alias_count(aliases))
        }),
{
    law_exit_discards_declarations(aliases, ds);
}

/// Setting a variable and then taking models is taking models and then
/// setting the variable's model.
proof fn lemma_model_insert(m: Map<Seq<char>, VariableState>, name: Seq<char>, v: VariableState)
    ensures
        m.insert(name, v).map_values(|x: VariableState| x@) == m.map_values(
            |x: VariableState| x@,
        ).insert(name, v@),
{
    assert(m.insert(name, v).map_values(|x: VariableState| x@) =~= m.map_values(
        |x: VariableState| x@,
    ).insert(name, v@));
}

/// What the symbol table records of a declared variable.
#[derive(Debug, Clone)]
pub struct VariableState {
    pub declared_type: String,
    pub is_initialized: bool,
    pub is_mutated: bool,
    pub read_count: u32,
    pub line_declared: usize,
}

/// The mathematical model of a variable state.
pub struct VariableModel {
    pub declared_type: Seq<char>,
    pub is_initialized: bool,
    pub is_mutated: bool,
    pub read_count: u32,
    pub line_declared: usize,
}

impl View for VariableState {
    type V = VariableModel;

    open spec fn view(&self) -> VariableModel {
        VariableModel {
            declared_type: self.declared_type@,
            is_initialized: self.is_initialized,
            is_mutated: self.is_mutated,
            read_count: self.read_count,
            line_declared: self.line_declared,
        }
    }
}

/// The variables and the type aliases declared in one lexical scope.
#[derive(Debug)]
pub struct Scope {
    pub variables: NameMap<VariableState>,
    pub aliases: NameMap<String>,
}

impl Scope {
    /// Both maps keep their names distinct.
    pub open spec fn wf(&self) -> bool {
        self.variables.wf() && self.aliases.wf()
    }

    /// The variables of the scope, each by its model.
    pub open spec fn variables_model(&self) -> Map<Seq<char>, VariableModel> {
        self.variables.view().map_values(|v: VariableState| v@)
    }

    /// The aliases of the scope, each to the characters of its type.
    pub open spec fn aliases_model(&self) -> Map<Seq<char>, Seq<char>> {
        self.aliases.view().map_values(|t: String| t@)
    }
}

impl Default for Scope {
    /// A scope with no variable and no alias.
    fn default() -> (r: Self)
        ensures
            r.wf(),
            r.variables_model() == Map::<Seq<char>, VariableModel>::empty(),
            r.aliases_model() == Map::<Seq<char>, Seq<char>>::empty(),
    {
        let r = Scope { variables: NameMap::new(), aliases: NameMap::new() };
        assert(r.variables_model() =~= Map::<Seq<char>, VariableModel>::empty());
        assert(r.aliases_model() =~= Map::<Seq<char>, Seq<char>>::empty());
        r
    }
}

/// A stack of scopes, the first of which is the global scope and is always
/// there, and a registry of variable states that keeps every declaration
/// and assignment under the key `{name}_{line}`, whatever scope it was in.
#[derive(Debug)]
pub struct SymbolTable {
    scopes: Vec<Scope>,
    registry: NameMap<VariableState>,
}

/// A copy of a variable state.
fn copy_state(s: &VariableState) -> (r: VariableState)
    ensures
        r@ == s@,
{
    VariableState {
        declared_type: s.declared_type.clone(),
        is_initialized: s.is_initialized,
        is_mutated: s.is_mutated,
        read_count: s.read_count,
        line_declared: s.line_declared,
    }
}

impl SymbolTable {
    /// The variables of each scope, outermost first.
    pub closed spec fn variables(&self) -> ScopeStack<VariableModel> {
        self.scopes@.map_values(|s: Scope| s.variables_model())
    }

    /// The aliases of each scope, outermost first.
    pub closed spec fn aliases(&self) -> ScopeStack<Seq<char>> {
        self.scopes@.map_values(|s: Scope| s.aliases_model())
    }

    /// The registry: the states recorded by key `{name}_{line}`.
    pub closed spec fn records(&self) -> Map<Seq<char>, VariableModel> {
        self.registry.view().map_values(|v: VariableState| v@)
    }

    /// There is at least one scope, and every scope and the registry keep
    /// their names distinct.
    pub closed spec fn wf(&self) -> bool {
        &&& self.scopes@.len() >= 1
        &&& forall|i: int| 0 <= i < self.scopes@.len() ==> (#[trigger] self.scopes@[i]).wf()
        &&& self.registry.wf()
    }

    /// A well-formed table has a scope, and each scope holds finitely many
    /// aliases.
    pub proof fn lemma_has_scope(&self)
        requires
            self.wf(),
        ensures
            self.depth() >= 1,
            self.variables().len() == self.depth(),
            self.aliases().len() == self.depth(),
            forall|i: int| 0 <= i < self.depth() ==> (#[trigger] self.aliases()[i]).dom().finite(),
    {
        assert forall|i: int| 0 <= i < self.depth() implies (#[trigger] self.aliases()[i]).dom().finite() by {
            self.scopes@[i].aliases.lemma_len();
            assert(self.aliases()[i].dom() =~= self.scopes@[i].aliases.view().dom());
        }
    }

    /// The number of scopes.
    pub closed spec fn depth(&self) -> nat {
        self.scopes@.len()
    }

    /// The scope at `i`, outermost first.
    pub closed spec fn scope(&self, i: int) -> Scope {
        self.scopes@[i]
    }

    /// The models agree with the scopes: as many of each, and each the
    /// scope's maps.
    pub proof fn lemma_scopes(&self)
        requires
            self.wf(),
        ensures
            self.depth() >= 1,
            self.variables().len() == self.depth(),
            self.aliases().len() == self.depth(),
            forall|i: int| 0 <= i < self.depth() ==> (#[trigger] self.scope(i)).wf(),
            forall|i: int| #![trigger self.variables()[i]]
                0 <= i < self.depth() ==> self.variables()[i] == self.scope(i).variables_model(),
            forall|i: int| #![trigger self.aliases()[i]]
                0 <= i < self.depth() ==> self.aliases()[i] == self.scope(i).aliases_model(),
    {
    }

    /// A table holding only an empty global scope.
    pub fn new() -> (r: Self)
        ensures
            r.wf(),
            r.variables() == seq![Map::<Seq<char>, VariableModel>::empty()],
            r.aliases() == seq![Map::<Seq<char>, Seq<char>>::empty()],
            r.records() == Map::<Seq<char>, VariableModel>::empty(),
            alias_count(r.aliases()) == 0,
    {
        let mut scopes = Vec::new();
        scopes.push(Scope::default());
        let r = SymbolTable { scopes, registry: NameMap::new() };
        assert(r.records() =~= Map::<Seq<char>, VariableModel>::empty());
        assert(Map::<Seq<char>, Seq<char>>::empty().dom() =~= Set::<Seq<char>>::empty());
        let ghost sz = r.aliases().map_values(|m: Map<Seq<char>, Seq<char>>| m.dom().len());
        assert(sz.len() == 1);
        assert(r.aliases()[0] == Map::<Seq<char>, Seq<char>>::empty());
        assert(sz[0] == Set::<Seq<char>>::empty().len());
        assert(sz.last() == 0);
        assert(sz.drop_last() =~= Seq::<nat>::empty());
        assert(capped_total(sz.drop_last()) == 0);
        assert(capped_total(sz) == 0);
        assert(r.variables() =~= seq![Map::<Seq<char>, VariableModel>::empty()]);
        assert(r.aliases() =~= seq![Map::<Seq<char>, Seq<char>>::empty()]);
        r
    }

    /// The number of scopes.
    pub fn scope_count(&self) -> (r: usize)
        ensures
            r == self.depth(),
    {
        self.scopes.len()
    }

    /// The registry of variable states by key `{name}_{line}`.
    pub fn registry(&self) -> (r: &NameMap<VariableState>)
        requires
            self.wf(),
        ensures
            r.wf(),
            r.view().map_values(|v: VariableState| v@) == self.records(),
    {
        &self.registry
    }

    /// The scope at `i`, outermost first.
    pub fn scope_at(&self, i: usize) -> (r: &Scope)
        requires
            i < self.depth(),
        ensures
            *r == self.scope(i as int),
    {
        &self.scopes[i]
    }

    /// Opens a new innermost scope (at `{`).
    pub fn enter_scope(&mut self)
        requires
            old(self).wf(),
        ensures
            final(self).wf(),
            final(self).variables() == entered(old(self).variables()),
            final(self).aliases() == entered(old(self).aliases()),
            final(self).records() == old(self).records(),
            alias_count(final(self).aliases()) == alias_count(old(self).aliases()),
    {
        proof {
            law_enter_keeps_resolution(old(self).aliases(), Seq::empty());
        }
        self.scopes.push(Scope::default());
        assert(self.variables() =~= entered(old(self).variables()));
        assert(self.aliases() =~= entered(old(self).aliases()));
    }

    /// Closes the innermost scope (at `}`), unless it is the global one.
    pub fn exit_scope(&mut self)
        requires
            old(self).wf(),
        ensures
            final(self).wf(),
            final(self).variables() == exited(old(self).variables()),
            final(self).aliases() == exited(old(self).aliases()),
            final(self).records() == old(self).records(),
    {
        if self.scopes.len() > 1 {
            self.scopes.pop();
            assert(self.variables() =~= exited(old(self).variables()));
            assert(self.aliases() =~= exited(old(self).aliases()));
        }
    }

    /// Records `state` in the registry under `{name}_{line}`, where `line`
    /// is the state's `line_declared`.
    pub fn record_state(&mut self, name: &str, state: VariableState)
        requires
            old(self).wf(),
        ensures
            final(self).wf(),
            final(self).records() == old(self).records().insert(
                registry_key(name@, state.line_declared),
                state@,
            ),
            final(self).variables() == old(self).variables(),
            final(self).aliases() == old(self).aliases(),
            final(self).depth() == old(self).depth(),
    {
        let key = registry_key_of(name, state.line_declared);
        let ghost st = state@;
        let ghost k = key@;
        self.registry.insert(key, state);
        assert(self.records() =~= old(self).records().insert(k, st));
    }

    /// Records `state` for the variable `name` in the innermost scope, and
    /// in the registry under `{name}_{line}`.
    pub fn declare_var(&mut self, name: String, state: VariableState)
        requires
            old(self).wf(),
        ensures
            final(self).wf(),
            final(self).variables() == declared(old(self).variables(), name@, state@),
            final(self).aliases() == old(self).aliases(),
            final(self).records() == old(self).records().insert(
                registry_key(name@, state.line_declared),
                state@,
            ),
            final(self).depth() == old(self).depth(),
    {
        self.record_state(name.as_str(), copy_state(&state));
        let ghost mid = *self;
        let last = self.scopes.len() - 1;
        let ghost st = state@;
        self.scopes[last].variables.insert(name, state);
        assert(self.records() == mid.records());
        assert(self.scopes@[last as int].variables_model() =~= mid.scopes@[last as int].variables_model().insert(name@, st));
        assert(self.variables() =~= declared(mid.variables(), name@, st));
        assert(self.aliases() =~= mid.aliases());
    }

    /// Records that the type name `alias` stands for `actual_type` in the
    /// innermost scope.
    pub fn declare_alias(&mut self, alias: String, actual_type: String)
        requires
            old(self).wf(),
        ensures
            final(self).wf(),
            final(self).aliases() == declared(old(self).aliases(), alias@, actual_type@),
            final(self).variables() == old(self).variables(),
            final(self).records() == old(self).records(),
            final(self).depth() == old(self).depth(),
            old(self).aliases().last().contains_key(alias@) ==> alias_count(final(self).aliases())
                == alias_count(old(self).aliases()),
            !old(self).aliases().last().contains_key(alias@) ==> alias_count(final(self).aliases())
                == if alias_count(old(self).aliases()) < usize::MAX {
                alias_count(old(self).aliases()) + 1
            } else {
                usize::MAX as nat
            },
    {
        proof {
            self.lemma_has_scope();
            lemma_alias_count_declared(old(self).aliases(), alias@, actual_type@);
        }
        let last = self.scopes.len() - 1;
        let ghost t = actual_type@;
        self.scopes[last].aliases.insert(alias, actual_type);
        assert(self.scopes@[last as int].aliases_model() =~= old(self).scopes@[last as int].aliases_model().insert(alias@, t));
        assert(self.aliases() =~= declared(old(self).aliases(), alias@, t));
        assert(self.variables() =~= old(self).variables());
    }

    /// The state of the variable `name` in the innermost scope that declares
    /// it, to be changed in place; `None` for an undeclared name.
    pub fn lookup_var(&mut self, name: &str) -> (r: Option<&mut VariableState>)
        requires
            old(self).wf(),
        ensures
            final(self).wf(),
            final(self).aliases() == old(self).aliases(),
            final(self).records() == old(self).records(),
            final(self).depth() == old(self).depth(),
            match r {
                Some(v) => {
                    let i = innermost_with(old(self).variables(), name@);
                    &&& i >= 0
                    &&& v@ == old(self).variables()[i][name@]
                    &&& final(self).variables() == old(self).variables().update(
                        i,
                        old(self).variables()[i].insert(name@, final(v)@),
                    )
                },
                None => innermost_with(old(self).variables(), name@) == -1
                    && final(self).variables() == old(self).variables(),
            },
    {
        let mut i = self.scopes.len();
        assert(self.variables().take(i as int) =~= self.variables());
        while i > 0
            invariant
                i <= self.scopes@.len(),
                self.scopes@ == old(self).scopes@,
                self.registry == old(self).registry,
                self.wf(),
                innermost_with(self.variables(), name@) == innermost_with(
                    self.variables().take(i as int),
                    name@,
                ),
            decreases i,
        {
            let ghost vars = self.variables();
            assert(vars.take(i as int).drop_last() =~= vars.take(i - 1));
            if self.scopes[i - 1].variables.contains(name) {
                proof {
                    lemma_innermost_with(vars.take(i as int), name@);
                }
                let ghost m = self.scopes@[i - 1].variables.view();
                let r = self.scopes[i - 1].variables.get_mut(name);
                proof {
                    if r is Some {
                        lemma_model_insert(m, name@, *final(r->0));
                    }
                }
                return r;
            }
            i -= 1;
        }
        assert(self.variables().take(0) =~= Seq::<Map<Seq<char>, VariableModel>>::empty());
        None
    }

    /// What `name` aliases in the innermost scope that declares it as an
    /// alias.
    fn alias_of(&self, name: &str) -> (r: Option<&String>)
        requires
            self.wf(),
        ensures
            match r {
                Some(t) => resolved(self.aliases(), name@) == Some(t@),
                None => resolved(self.aliases(), name@) is None,
            },
    {
        let ghost al = self.aliases();
        let mut i = self.scopes.len();
        assert(al.take(i as int) =~= al);
        while i > 0
            invariant
                self.wf(),
                al == self.aliases(),
                i <= self.scopes@.len(),
                innermost_with(al, name@) == innermost_with(al.take(i as int), name@),
            decreases i,
        {
            assert(al.take(i as int).drop_last() =~= al.take(i - 1));
            assert(al[i - 1] == self.scopes@[i - 1].aliases_model());
            match self.scopes[i - 1].aliases.get(name) {
                Some(t) => {
                    proof {
                        lemma_innermost_with(al.take(i as int), name@);
                    }
                    return Some(t);
                },
                None => {},
            }
            i -= 1;
        }
        assert(al.take(0) =~= Seq::<Map<Seq<char>, Seq<char>>>::empty());
        None
    }

    /// The type that `alias_name` stands for: aliases are followed, each
    /// name replaced by what the innermost scope that aliases it gives,
    /// until a name no scope aliases (or, on a cycle of aliases, until as
    /// many aliases have been followed as there are).
    pub fn resolve_type(&self, alias_name: &str) -> (r: String)
        requires
            self.wf(),
        ensures
            r@ == expand_alias(self.aliases(), alias_name@, alias_count(self.aliases())),
    {
        let ghost sizes = self.aliases().map_values(|m: Map<Seq<char>, Seq<char>>| m.dom().len());
        let mut budget: usize = 0;
        let mut i: usize = 0;
        while i < self.scopes.len()
            invariant
                self.wf(),
                i <= self.scopes@.len(),
                sizes == self.aliases().map_values(|m: Map<Seq<char>, Seq<char>>| m.dom().len()),
                budget == capped_total(sizes.take(i as int)),
            decreases self.scopes.len() - i,
        {
            assert(sizes.take(i + 1).drop_last() =~= sizes.take(i as int));
            proof {
                self.scopes@[i as int].aliases.lemma_len();
                assert(self.aliases()[i as int] == self.scopes@[i as int].aliases_model());
                assert(self.aliases()[i as int].dom() =~= self.scopes@[i as int].aliases.view().dom());
            }
            let n = self.scopes[i].aliases.len();
            if n <= usize::MAX - budget {
                budget = budget + n;
            } else {
                budget = usize::MAX;
            }
            i += 1;
        }
        assert(sizes.take(i as int) =~= sizes);
        let ghost al = self.aliases();
        let mut current = String::from_str(alias_name);
        let mut steps = budget;
        while steps > 0
            invariant
                self.wf(),
                al == self.aliases(),
                expand_alias(al, alias_name@, alias_count(al)) == expand_alias(
                    al,
                    current@,
                    steps as nat,
                ),
            decreases steps,
        {
            match self.alias_of(current.as_str()) {
                Some(t) => {
                    current = t.clone();
                    steps -= 1;
                },
                None => {
                    return current;
                },
            }
        }
        current
    }
}

} // verus!
