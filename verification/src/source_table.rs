//! A variables-only symbol table: a stack of scopes, each mapping names to
//! variable states. The outermost (global) scope is never removed.
use vstd::prelude::*;
use crate::name_map::NameMap;
use crate::symbol_table::{
    ScopeStack, VariableModel, entered, exited, declared, innermost_with, lemma_innermost_with,
};

verus! {

/// What the table records of a declared variable.
#[derive(Debug, Clone)]
pub struct VariableState {
    pub declared_type: String,
    pub is_initialized: bool,
    pub is_mutated: bool,
    pub read_count: u32,
    pub line_declared: usize,
}

impl View for VariableState {
    type V = VariableModel;

    open spec fn view(&self) -> VariableModel {
        VariableModel {
            declared_type: self.declared_type@,
            is_initialized: self.is_initialized,
            is_mutated: self.is_mutated,
            read_count: self.read_count,
            line_declared: self.line_declared,
        }
    }
}

/// The models of the variables of one scope.
pub open spec fn scope_model(m: Map<Seq<char>, VariableState>) -> Map<Seq<char>, VariableModel> {
    m.map_values(|v: VariableState| v@)
}

/// Setting a variable and then taking models is taking models and then
/// setting the variable's model.
proof fn lemma_model_insert(m: Map<Seq<char>, VariableState>, name: Seq<char>, v: VariableState)
    ensures
        scope_model(m.insert(name, v)) == scope_model(m).insert(name, v@),
{
    assert(scope_model(m.insert(name, v)) =~= scope_model(m).insert(name, v@));
}

/// A stack of scopes of variables; the first is the global scope.
#[derive(Debug)]
pub struct SymbolTable {
    scopes: Vec<NameMap<VariableState>>,
}

impl SymbolTable {
    /// The variables of each scope, outermost first.
    pub closed spec fn view(&self) -> ScopeStack<VariableModel> {
        self.scopes@.map_values(|s: NameMap<VariableState>| scope_model(s.view()))
    }

    /// There is at least one scope, and every scope keeps its names distinct.
    pub closed spec fn wf(&self) -> bool {
        &&& self.scopes@.len() >= 1
        &&& forall|i: int| 0 <= i < self.scopes@.len() ==> (#[trigger] self.scopes@[i]).wf()
    }

    /// A well-formed table has a scope.
    pub proof fn lemma_has_scope(&self)
        requires
            self.wf(),
        ensures
            self@.len() >= 1,
    {
    }

    /// A table holding only an empty global scope.
    pub fn new() -> (r: Self)
        ensures
            r.wf(),
            r@ == seq![Map::<Seq<char>, VariableModel>::empty()],
    {
        let mut scopes = Vec::new();
        scopes.push(NameMap::new());
        let r = SymbolTable { scopes };
        assert(scope_model(r.scopes@[0].view()) =~= Map::<Seq<char>, VariableModel>::empty());
        assert(r@ =~= seq![Map::<Seq<char>, VariableModel>::empty()]);
        r
    }

    /// Opens a new innermost scope.
    pub fn enter_scope(&mut self)
        requires
            old(self).wf(),
        ensures
            final(self).wf(),
            final(self)@ == entered(old(self)@),
    {
        self.scopes.push(NameMap::new());
        assert(scope_model(self.scopes@.last().view()) =~= Map::<Seq<char>, VariableModel>::empty());
        assert(self@ =~= entered(old(self)@));
    }

    /// Closes the innermost scope, unless it is the global one.
    pub fn exit_scope(&mut self)
        requires
            old(self).wf(),
        ensures
            final(self).wf(),
            final(self)@ == exited(old(self)@),
    {
        if self.scopes.len() > 1 {
            self.scopes.pop();
            assert(self@ =~= exited(old(self)@));
        }
    }

    /// Records `state` for the variable `name` in the innermost scope.
    pub fn declare(&mut self, name: String, state: VariableState)
        requires
            old(self).wf(),
        ensures
            final(self).wf(),
            final(self)@ == declared(old(self)@, name@, state@),
    {
        let last = self.scopes.len() - 1;
        let ghost st = state;
        proof {
            lemma_model_insert(self.scopes@[last as int].view(), name@, st);
        }
        self.scopes[last].insert(name, state);
        assert(self@ =~= declared(old(self)@, name@, st@));
    }

    /// The state of the variable `name` in the innermost scope that declares
    /// it, to be changed in place; `None` for an undeclared name.
    pub fn lookup_mut(&mut self, name: &str) -> (r: Option<&mut VariableState>)
        requires
            old(self).wf(),
        ensures
            final(self).wf(),
            match r {
                Some(v) => {
                    let i = innermost_with(old(self)@, name@);
                    &&& i >= 0
                    &&& v@ == old(self)@[i][name@]
                    &&& final(self)@ == old(self)@.update(i, old(self)@[i].insert(name@, final(v)@))
                },
                None => innermost_with(old(self)@, name@) == -1 && final(self)@ == old(self)@,
            },
    {
        let mut i = self.scopes.len();
        assert(self@.take(i as int) =~= self@);
        while i > 0
            invariant
                i <= self.scopes@.len(),
                self.scopes@ == old(self).scopes@,
                self.wf(),
                innermost_with(self@, name@) == innermost_with(self@.take(i as int), name@),
            decreases i,
        {
            let ghost vars = self@;
            assert(vars.take(i as int).drop_last() =~= vars.take(i - 1));
            if self.scopes[i - 1].contains(name) {
                proof {
                    lemma_innermost_with(vars.take(i as int), name@);
                }
                let ghost m = self.scopes@[i - 1].view();
                let r = self.scopes[i - 1].get_mut(name);
                proof {
                    if r is Some {
                        lemma_model_insert(m, name@, *final(r->0));
                    }
                }
                return r;
            }
            i -= 1;
        }
        assert(self@.take(0) =~= Seq::<Map<Seq<char>, VariableModel>>::empty());
        None
    }
}

} // verus!
