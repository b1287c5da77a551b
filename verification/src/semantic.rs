//! The symbol table of the semantic analyser: a stack of scopes, the
//! innermost last, each binding names to what they denote.
use vstd::prelude::*;

use crate::ast::Type;
use crate::text::{owned, push_str, str_eq};
use crate::types::{ArtifactSchema, FunctionSignature, SpectrumSchema};

verus! {

/// What a name denotes.
#[derive(Debug)]
pub enum SymbolKind {
    Variable { var_type: Type, is_mutable: bool },
    Spectrum(SpectrumSchema),
    Artifact(ArtifactSchema),
    Function(FunctionSignature),
}

/// The model of one scope: its bindings in the order they were made.
pub type ScopeV = Seq<(Seq<char>, SymbolKind)>;

/// The first binding of `name` in `scope`.
pub open spec fn scope_find(scope: ScopeV, name: Seq<char>) -> Option<SymbolKind>
    decreases scope.len(),
{
    if scope.len() == 0 {
        None
    } else if scope[0].0 == name {
        Some(scope[0].1)
    } else {
        scope_find(scope.drop_first(), name)
    }
}

/// The binding of `name` in the innermost scope that has one.
pub open spec fn spec_lookup(scopes: Seq<ScopeV>, name: Seq<char>) -> Option<SymbolKind>
    decreases scopes.len(),
{
    if scopes.len() == 0 {
        None
    } else {
        match scope_find(scopes.last(), name) {
            Some(k) => Some(k),
            None => spec_lookup(scopes.drop_last(), name),
        }
    }
}

/// The scopes with a new, empty innermost scope.
pub open spec fn spec_push(scopes: Seq<ScopeV>) -> Seq<ScopeV> {
    scopes.push(Seq::empty())
}

/// The scopes without the innermost one; the outermost scope is never removed.
pub open spec fn spec_pop(scopes: Seq<ScopeV>) -> Seq<ScopeV> {
    if scopes.len() > 1 {
        scopes.drop_last()
    } else {
        scopes
    }
}

/// Binding `name` in the innermost scope: refused when there is no scope or
/// when that scope already binds `name`.
pub open spec fn spec_define(scopes: Seq<ScopeV>, name: Seq<char>, kind: SymbolKind) -> Option<Seq<ScopeV>> {
    if scopes.len() == 0 {
        None
    } else if scope_find(scopes.last(), name) is Some {
        None
    } else {
        Some(scopes.update(scopes.len() - 1, scopes.last().push((name, kind))))
    }
}

proof fn lemma_scope_find_push(scope: ScopeV, e: (Seq<char>, SymbolKind), name: Seq<char>)
    ensures
        scope_find(scope.push(e), name) == (match scope_find(scope, name) {
            Some(k) => Some(k),
            None => if e.0 == name { Some(e.1) } else { None },
        }),
    decreases scope.len(),
{
    let p = scope.push(e);
    if scope.len() > 0 {
        assert(p[0] == scope[0]);
        assert(p.drop_first() =~= scope.drop_first().push(e));
        lemma_scope_find_push(scope.drop_first(), e, name);
        if scope[0].0 == name {
            assert(scope_find(p, name) == Some(scope[0].1));
        } else {
            assert(scope_find(p, name) == scope_find(p.drop_first(), name));
        }
    } else {
        let empty = Seq::<(Seq<char>, SymbolKind)>::empty();
        assert(p.drop_first() =~= empty);
        assert(scope_find(empty, name) is None);
        assert(p[0] == e);
    }
}

proof fn lemma_scope_find_index(scope: ScopeV, name: Seq<char>, i: int)
    requires
        0 <= i < scope.len(),
        scope[i].0 == name,
        forall|j: int| 0 <= j < i ==> #[trigger] scope[j].0 != name,
    ensures
        scope_find(scope, name) == Some(scope[i].1),
    decreases i,
{
    if i > 0 {
        lemma_scope_find_index(scope.drop_first(), name, i - 1);
    }
}

proof fn lemma_scope_find_none(scope: ScopeV, name: Seq<char>)
    requires
        forall|j: int| 0 <= j < scope.len() ==> #[trigger] scope[j].0 != name,
    ensures
        scope_find(scope, name) is None,
    decreases scope.len(),
{
    if scope.len() > 0 {
        lemma_scope_find_none(scope.drop_first(), name);
    }
}

/// The position of the first binding of `name` in `scope`.
pub open spec fn scope_pos(scope: ScopeV, name: Seq<char>) -> Option<int>
    decreases scope.len(),
{
    if scope.len() == 0 {
        None
    } else if scope[0].0 == name {
        Some(0)
    } else {
        match scope_pos(scope.drop_first(), name) {
            Some(j) => Some(j + 1),
            None => None,
        }
    }
}

/// Where the binding of `name` that a lookup finds lies: the innermost
/// scope that binds it, and the position there.
pub open spec fn spec_position(scopes: Seq<ScopeV>, name: Seq<char>) -> Option<(int, int)>
    decreases scopes.len(),
{
    if scopes.len() == 0 {
        None
    } else {
        match scope_pos(scopes.last(), name) {
            Some(j) => Some((scopes.len() - 1, j)),
            None => spec_position(scopes.drop_last(), name),
        }
    }
}

proof fn lemma_scope_pos_index(scope: ScopeV, name: Seq<char>, i: int)
    requires
        0 <= i < scope.len(),
        scope[i].0 == name,
        forall|j: int| 0 <= j < i ==> #[trigger] scope[j].0 != name,
    ensures
        scope_pos(scope, name) == Some(i),
    decreases i,
{
    if i > 0 {
        lemma_scope_pos_index(scope.drop_first(), name, i - 1);
    }
}

proof fn lemma_scope_pos_none(scope: ScopeV, name: Seq<char>)
    requires
        forall|j: int| 0 <= j < scope.len() ==> #[trigger] scope[j].0 != name,
    ensures
        scope_pos(scope, name) is None,
    decreases scope.len(),
{
    if scope.len() > 0 {
        lemma_scope_pos_none(scope.drop_first(), name);
    }
}

/// After a successful definition, looking the name up gives what was defined.
pub proof fn law_define_then_lookup(scopes: Seq<ScopeV>, name: Seq<char>, kind: SymbolKind)
    requires
        spec_define(scopes, name, kind) is Some,
    ensures
        spec_lookup(spec_define(scopes, name, kind).unwrap(), name) == Some(kind),
{
    let s2 = spec_define(scopes, name, kind).unwrap();
    lemma_scope_find_push(scopes.last(), (name, kind), name);
    assert(s2.last() == scopes.last().push((name, kind)));
}

/// A definition leaves the lookup of every other name unchanged.
pub proof fn law_define_keeps_others(scopes: Seq<ScopeV>, name: Seq<char>, kind: SymbolKind, other: Seq<char>)
    requires
        spec_define(scopes, name, kind) is Some,
        other != name,
    ensures
        spec_lookup(spec_define(scopes, name, kind).unwrap(), other) == spec_lookup(scopes, other),
{
    let s2 = spec_define(scopes, name, kind).unwrap();
    lemma_scope_find_push(scopes.last(), (name, kind), other);
    assert(s2.drop_last() =~= scopes.drop_last());
}

/// A name can be defined again in the same scope only after leaving it: a
/// second definition in the innermost scope is refused.
pub proof fn law_define_twice_refused(scopes: Seq<ScopeV>, name: Seq<char>, k1: SymbolKind, k2: SymbolKind)
    requires
        spec_define(scopes, name, k1) is Some,
    ensures
        spec_define(spec_define(scopes, name, k1).unwrap(), name, k2) is None,
{
    lemma_scope_find_push(scopes.last(), (name, k1), name);
}

/// No scope binds a name twice (as the maps of names that a table of
/// scopes stands for).
pub open spec fn names_distinct(scopes: Seq<ScopeV>) -> bool {
    forall|s: int, i: int, j: int| 0 <= s < scopes.len() && 0 <= i < j < scopes[s].len() ==> #[trigger] scopes[s][i].0
        != #[trigger] scopes[s][j].0
}

proof fn lemma_unbound_name(scope: ScopeV, name: Seq<char>)
    requires
        scope_find(scope, name) is None,
    ensures
        forall|i: int| 0 <= i < scope.len() ==> #[trigger] scope[i].0 != name,
    decreases scope.len(),
{
    if scope.len() > 0 {
        lemma_unbound_name(scope.drop_first(), name);
        assert forall|i: int| 0 <= i < scope.len() implies #[trigger] scope[i].0 != name by {
            if i > 0 {
                assert(scope[i] == scope.drop_first()[i - 1]);
            }
        }
    }
}

/// Law: defining, entering and leaving scopes keep every scope free of a
/// name bound twice.
pub proof fn law_names_stay_distinct(scopes: Seq<ScopeV>, name: Seq<char>, kind: SymbolKind)
    requires
        names_distinct(scopes),
    ensures
        spec_define(scopes, name, kind) matches Some(s2) ==> names_distinct(s2),
        names_distinct(spec_push(scopes)),
        names_distinct(spec_pop(scopes)),
{
    if spec_define(scopes, name, kind) is Some {
        let s2 = spec_define(scopes, name, kind).unwrap();
        let last = scopes.len() - 1;
        lemma_unbound_name(scopes.last(), name);
        assert forall|s: int, i: int, j: int| 0 <= s < s2.len() && 0 <= i < j < s2[s].len() implies #[trigger] s2[s][i].0
            != #[trigger] s2[s][j].0 by {
            if s == last {
                assert(s2[s] == scopes.last().push((name, kind)));
                if j == scopes.last().len() {
                    assert(scopes.last()[i].0 != name);
                } else {
                    assert(scopes[s][i] == s2[s][i] && scopes[s][j] == s2[s][j]);
                }
            } else {
                assert(s2[s] == scopes[s]);
            }
        }
    }
    assert forall|s: int, i: int, j: int| 0 <= s < spec_push(scopes).len() && 0 <= i < j < spec_push(scopes)[s].len()
        implies #[trigger] spec_push(scopes)[s][i].0 != #[trigger] spec_push(scopes)[s][j].0 by {
        assert(spec_push(scopes)[s] == scopes[s]);
    }
    assert forall|s: int, i: int, j: int| 0 <= s < spec_pop(scopes).len() && 0 <= i < j < spec_pop(scopes)[s].len()
        implies #[trigger] spec_pop(scopes)[s][i].0 != #[trigger] spec_pop(scopes)[s][j].0 by {
        assert(spec_pop(scopes)[s] == scopes[s]);
    }
}

/// Entering and leaving a scope gives back the table as it was.
pub proof fn law_push_then_pop(scopes: Seq<ScopeV>)
    requires
        scopes.len() >= 1,
    ensures
        spec_pop(spec_push(scopes)) == scopes,
{
    assert(spec_push(scopes).drop_last() =~= scopes);
}

/// Shadowing: a definition in an inner scope hides an outer one, and
/// leaving the inner scope brings the outer one back.
pub proof fn law_shadowing(scopes: Seq<ScopeV>, name: Seq<char>, kind: SymbolKind)
    requires
        scopes.len() >= 1,
    ensures
        spec_define(spec_push(scopes), name, kind) is Some,
        spec_lookup(spec_define(spec_push(scopes), name, kind).unwrap(), name) == Some(kind),
        spec_lookup(spec_pop(spec_define(spec_push(scopes), name, kind).unwrap()), name) == spec_lookup(scopes, name),
{
    let p = spec_push(scopes);
    assert(scope_find(p.last(), name) is None);
    law_define_then_lookup(p, name, kind);
    let s2 = spec_define(p, name, kind).unwrap();
    assert(s2.drop_last() =~= scopes);
}

/// The outermost scope is never removed.
pub proof fn law_pop_keeps_outermost(scopes: Seq<ScopeV>)
    requires
        scopes.len() >= 1,
    ensures
        spec_pop(scopes).len() >= 1,
{
}

/// The message of a refused definition of `name` in a table of `depth`
/// scopes: there is no scope, or the innermost scope already binds it.
pub open spec fn duplicate_message(depth: nat, name: Seq<char>) -> Seq<char> {
    if depth == 0 {
        "No scope available"@
    } else {
        "Symbol '"@ + name + "' already defined in this scope"@
    }
}

/// What a name denotes, as far as the analyser reads it: a variable's type
/// and mutability, the names of a spectrum's variants, or something else.
pub enum KindV {
    Variable(Type, bool),
    Spectrum(Seq<Seq<char>>),
    Other,
}

/// The names of the variants of a spectrum schema, in order.
pub open spec fn variant_names(variants: Seq<(String, Vec<Type>)>) -> Seq<Seq<char>> {
    Seq::new(variants.len(), |i: int| variants[i].0@)
}

/// What the analyser reads of a symbol.
pub open spec fn kind_model(k: SymbolKind) -> KindV {
    match k {
        SymbolKind::Variable { var_type, is_mutable } => KindV::Variable(var_type, is_mutable),
        SymbolKind::Spectrum(schema) => KindV::Spectrum(variant_names(schema.variants@)),
        _ => KindV::Other,
    }
}

/// The model of one scope, as far as the analyser reads it.
pub type ScopeM = Seq<(Seq<char>, KindV)>;

/// The model of a table, as far as the analyser reads it.
pub open spec fn table_model(t: Seq<ScopeV>) -> Seq<ScopeM> {
    Seq::new(t.len(), |i: int| Seq::new(t[i].len(), |j: int| (t[i][j].0, kind_model(t[i][j].1))))
}

/// The first binding of `name` in a scope model.
pub open spec fn find_model(scope: ScopeM, name: Seq<char>) -> Option<KindV>
    decreases scope.len(),
{
    if scope.len() == 0 {
        None
    } else if scope[0].0 == name {
        Some(scope[0].1)
    } else {
        find_model(scope.drop_first(), name)
    }
}

/// The binding of `name` in the innermost scope model that has one.
pub open spec fn lookup_model(scopes: Seq<ScopeM>, name: Seq<char>) -> Option<KindV>
    decreases scopes.len(),
{
    if scopes.len() == 0 {
        None
    } else {
        match find_model(scopes.last(), name) {
            Some(k) => Some(k),
            None => lookup_model(scopes.drop_last(), name),
        }
    }
}

/// Binding `name` in the innermost scope model, refused as [`spec_define`]
/// refuses it.
pub open spec fn define_model(scopes: Seq<ScopeM>, name: Seq<char>, kind: KindV) -> Option<Seq<ScopeM>> {
    if scopes.len() == 0 {
        None
    } else if find_model(scopes.last(), name) is Some {
        None
    } else {
        Some(scopes.update(scopes.len() - 1, scopes.last().push((name, kind))))
    }
}

/// The model of a scope finds what the scope finds.
pub proof fn lemma_find_model(scope: ScopeV, name: Seq<char>)
    ensures
        find_model(Seq::new(scope.len(), |j: int| (scope[j].0, kind_model(scope[j].1))), name) == (match scope_find(scope, name) {
            Some(k) => Some(kind_model(k)),
            None => None,
        }),
    decreases scope.len(),
{
    let m = Seq::new(scope.len(), |j: int| (scope[j].0, kind_model(scope[j].1)));
    if scope.len() > 0 {
        let r = scope.drop_first();
        assert(m.drop_first() =~= Seq::new(r.len(), |j: int| (r[j].0, kind_model(r[j].1))));
        lemma_find_model(r, name);
    }
}

/// The model of a table looks names up as the table does.
pub proof fn lemma_lookup_model(t: Seq<ScopeV>, name: Seq<char>)
    ensures
        lookup_model(table_model(t), name) == (match spec_lookup(t, name) {
            Some(k) => Some(kind_model(k)),
            None => None,
        }),
    decreases t.len(),
{
    if t.len() > 0 {
        assert(table_model(t).drop_last() =~= table_model(t.drop_last()));
        assert(table_model(t).last() == Seq::new(t.last().len(), |j: int| (t.last()[j].0, kind_model(t.last()[j].1))));
        lemma_find_model(t.last(), name);
        lemma_lookup_model(t.drop_last(), name);
    }
}

/// The model of a table defines names as the table does.
pub proof fn lemma_define_model(t: Seq<ScopeV>, name: Seq<char>, kind: SymbolKind)
    ensures
        spec_define(t, name, kind) is Some <==> define_model(table_model(t), name, kind_model(kind)) is Some,
        spec_define(t, name, kind) is Some ==> table_model(spec_define(t, name, kind).unwrap()) == define_model(
            table_model(t),
            name,
            kind_model(kind),
        ).unwrap(),
{
    if t.len() > 0 {
        assert(table_model(t).last() == Seq::new(t.last().len(), |j: int| (t.last()[j].0, kind_model(t.last()[j].1))));
        lemma_find_model(t.last(), name);
        if let Some(t2) = spec_define(t, name, kind) {
            assert(table_model(t2) =~~= define_model(table_model(t), name, kind_model(kind)).unwrap());
        }
    }
}

/// Entering a scope enters one in the model.
pub proof fn lemma_push_model(t: Seq<ScopeV>)
    ensures
        table_model(spec_push(t)) == table_model(t).push(Seq::empty()),
{
    assert(table_model(spec_push(t)) =~~= table_model(t).push(Seq::empty()));
}

/// Leaving a scope leaves one in the model.
pub proof fn lemma_pop_model(t: Seq<ScopeV>)
    ensures
        table_model(spec_pop(t)) == (if table_model(t).len() > 1 { table_model(t).drop_last() } else { table_model(t) }),
{
    if t.len() > 1 {
        assert(table_model(spec_pop(t)) =~~= table_model(t).drop_last());
    }
}

/// A stack of scopes; lookups search from the innermost scope outwards.
#[derive(Debug, Default)]
pub struct SymbolTable {
    scopes: Vec<Vec<(String, SymbolKind)>>,
}

impl View for SymbolTable {
    type V = Seq<ScopeV>;

    closed spec fn view(&self) -> Seq<ScopeV> {
        Seq::new(self.scopes@.len(), |i: int| Seq::new(self.scopes@[i]@.len(), |j: int| (self.scopes@[i]@[j].0@, self.scopes@[i]@[j].1)))
    }
}

impl SymbolTable {
    /// A table with one, empty, scope.
    pub fn new() -> (t: Self)
        ensures
            t@ == seq![Seq::<(Seq<char>, SymbolKind)>::empty()],
    {
        let mut scopes: Vec<Vec<(String, SymbolKind)>> = Vec::new();
        scopes.push(Vec::new());
        let t = SymbolTable { scopes };
        assert(t@ =~~= seq![Seq::<(Seq<char>, SymbolKind)>::empty()]);
        t
    }

    /// The number of scopes.
    pub fn depth(&self) -> (n: usize)
        ensures
            n == self@.len(),
    {
        self.scopes.len()
    }

    /// Enters a new, empty scope.
    pub fn push_scope(&mut self)
        ensures
            final(self)@ == spec_push(old(self)@),
    {
        self.scopes.push(Vec::new());
        assert(self@ =~~= spec_push(old(self)@));
    }

    /// Leaves the innermost scope, unless it is the only one.
    pub fn pop_scope(&mut self)
        ensures
            final(self)@ == spec_pop(old(self)@),
    {
        if self.scopes.len() > 1 {
            self.scopes.pop();
            assert(self@ =~~= spec_pop(old(self)@));
        }
    }

    /// Defines a variable in the innermost scope.
    pub fn define_variable(&mut self, name: String, var_type: Type, is_mutable: bool) -> (r: Result<(), String>)
        ensures
            r is Ok <==> spec_define(old(self)@, name@, SymbolKind::Variable { var_type, is_mutable }) is Some,
            r is Ok ==> final(self)@ == spec_define(old(self)@, name@, SymbolKind::Variable { var_type, is_mutable }).unwrap(),
            r is Err ==> final(self)@ == old(self)@,
            r matches Err(m) ==> m@ == duplicate_message(old(self)@.len(), name@),
    {
        self.define_symbol(name, SymbolKind::Variable { var_type, is_mutable })
    }

    /// Defines a spectrum under its own name in the innermost scope.
    pub fn define_spectrum(&mut self, schema: SpectrumSchema) -> (r: Result<(), String>)
        ensures
            r is Ok <==> spec_define(old(self)@, schema.name@, SymbolKind::Spectrum(schema)) is Some,
            r is Ok ==> final(self)@ == spec_define(old(self)@, schema.name@, SymbolKind::Spectrum(schema)).unwrap(),
            r is Err ==> final(self)@ == old(self)@,
            r matches Err(m) ==> m@ == duplicate_message(old(self)@.len(), schema.name@),
    {
        let name = schema.name.clone();
        self.define_symbol(name, SymbolKind::Spectrum(schema))
    }

    /// Defines an artifact under its own name in the innermost scope.
    pub fn define_artifact(&mut self, schema: ArtifactSchema) -> (r: Result<(), String>)
        ensures
            r is Ok <==> spec_define(old(self)@, schema.name@, SymbolKind::Artifact(schema)) is Some,
            r is Ok ==> final(self)@ == spec_define(old(self)@, schema.name@, SymbolKind::Artifact(schema)).unwrap(),
            r is Err ==> final(self)@ == old(self)@,
            r matches Err(m) ==> m@ == duplicate_message(old(self)@.len(), schema.name@),
    {
        let name = schema.name.clone();
        self.define_symbol(name, SymbolKind::Artifact(schema))
    }

    /// Defines a function under its own name in the innermost scope.
    pub fn define_function(&mut self, signature: FunctionSignature) -> (r: Result<(), String>)
        ensures
            r is Ok <==> spec_define(old(self)@, signature.name@, SymbolKind::Function(signature)) is Some,
            r is Ok ==> final(self)@ == spec_define(old(self)@, signature.name@, SymbolKind::Function(signature)).unwrap(),
            r is Err ==> final(self)@ == old(self)@,
    {
        let name = signature.name.clone();
        self.define_symbol(name, SymbolKind::Function(signature))
    }

    fn define_symbol(&mut self, name: String, kind: SymbolKind) -> (r: Result<(), String>)
        ensures
            r is Ok <==> spec_define(old(self)@, name@, kind) is Some,
            r is Ok ==> final(self)@ == spec_define(old(self)@, name@, kind).unwrap(),
            r is Err ==> final(self)@ == old(self)@,
            r matches Err(m) ==> m@ == duplicate_message(old(self)@.len(), name@),
    {
        let n = self.scopes.len();
        if n == 0 {
            return Err(owned("No scope available"));
        }
        let ghost sv = self@;
        let last = n - 1;
        let mut j: usize = 0;
        while j < self.scopes[last].len()
            invariant
                n == self.scopes@.len(),
                last == n - 1,
                sv == self@,
                j <= self.scopes@[last as int]@.len(),
                forall|k: int| 0 <= k < j ==> #[trigger] sv.last()[k].0 != name@,
            decreases self.scopes@[last as int]@.len() - j,
        {
            if str_eq(self.scopes[last][j].0.as_str(), name.as_str()) {
                proof {
                    assert(sv.last()[j as int].0 == name@);
                    lemma_scope_find_index(sv.last(), name@, j as int);
                }
                let mut msg = owned("Symbol '");
                push_str(&mut msg, name.as_str());
                push_str(&mut msg, "' already defined in this scope");
                return Err(msg);
            }
            j = j + 1;
        }
        proof {
            lemma_scope_find_none(sv.last(), name@);
        }
        let mut scope = self.scopes.pop().unwrap();
        scope.push((name, kind));
        self.scopes.push(scope);
        assert(self@ =~~= spec_define(sv, name@, kind).unwrap());
        Ok(())
    }

    /// What `name` denotes in the innermost scope that binds it.
    pub fn lookup(&self, name: &str) -> (r: Option<&SymbolKind>)
        ensures
            match r {
                Some(k) => spec_lookup(self@, name@) == Some(*k),
                None => spec_lookup(self@, name@) is None,
            },
    {
        let ghost sv = self@;
        let mut i = self.scopes.len();
        assert(sv.take(i as int) =~= sv);
        while i > 0
            invariant
                sv == self@,
                i <= sv.len(),
                spec_lookup(sv, name@) == spec_lookup(sv.take(i as int), name@),
            decreases i,
        {
            let si = i - 1;
            proof {
                assert(sv.take(i as int).drop_last() =~= sv.take(si as int));
                assert(sv.take(i as int).last() == sv[si as int]);
            }
            let mut j: usize = 0;
            while j < self.scopes[si].len()
                invariant
                    sv == self@,
                    si < sv.len(),
                    si + 1 == i,
                    i <= sv.len(),
                    spec_lookup(sv, name@) == spec_lookup(sv.take(i as int), name@),
                    sv.take(i as int).drop_last() == sv.take(si as int),
                    sv.take(i as int).last() == sv[si as int],
                    j <= sv[si as int].len(),
                    forall|k: int| 0 <= k < j ==> #[trigger] sv[si as int][k].0 != name@,
                decreases self.scopes@[si as int]@.len() - j,
            {
                if str_eq(self.scopes[si][j].0.as_str(), name) {
                    proof {
                        lemma_scope_find_index(sv[si as int], name@, j as int);
                    }
                    return Some(&self.scopes[si][j].1);
                }
                j = j + 1;
            }
            proof {
                lemma_scope_find_none(sv[si as int], name@);
            }
            i = si;
        }
        None
    }

    /// What `name` denotes in the innermost scope that binds it, to be
    /// changed in place: the table afterwards holds, at that binding,
    /// whatever the caller leaves there.
    pub fn lookup_mut(&mut self, name: &str) -> (r: Option<&mut SymbolKind>)
        ensures
            match r {
                Some(k) => spec_lookup(old(self)@, name@) == Some(*k) && (spec_position(old(self)@, name@) matches Some((s, j))
                    && final(self)@ =~~= old(self)@.update(s, old(self)@[s].update(j, (name@, *final(k))))),
                None => spec_lookup(old(self)@, name@) is None && final(self)@ == old(self)@,
            },
    {
        let ghost sv = self@;
        let mut i = self.scopes.len();
        assert(sv.take(i as int) =~= sv);
        while i > 0
            invariant
                sv == self@,
                sv == old(self)@,
                i <= sv.len(),
                spec_lookup(sv, name@) == spec_lookup(sv.take(i as int), name@),
                spec_position(sv, name@) == spec_position(sv.take(i as int), name@),
            decreases i,
        {
            let si = i - 1;
            proof {
                assert(sv.take(i as int).drop_last() =~= sv.take(si as int));
                assert(sv.take(i as int).last() == sv[si as int]);
            }
            let mut j: usize = 0;
            while j < self.scopes[si].len()
                invariant
                    sv == self@,
                    sv == old(self)@,
                    spec_position(sv, name@) == spec_position(sv.take(i as int), name@),
                    si < sv.len(),
                    si + 1 == i,
                    i <= sv.len(),
                    spec_lookup(sv, name@) == spec_lookup(sv.take(i as int), name@),
                    sv.take(i as int).drop_last() == sv.take(si as int),
                    sv.take(i as int).last() == sv[si as int],
                    j <= sv[si as int].len(),
                    forall|k: int| 0 <= k < j ==> #[trigger] sv[si as int][k].0 != name@,
                decreases self.scopes@[si as int]@.len() - j,
            {
                if str_eq(self.scopes[si][j].0.as_str(), name) {
                    proof {
                        lemma_scope_find_index(sv[si as int], name@, j as int);
                        lemma_scope_pos_index(sv[si as int], name@, j as int);
                    }
                    let scope = &mut self.scopes[si];
                    let entry = &mut scope[j];
                    return Some(&mut entry.1);
                }
                j = j + 1;
            }
            proof {
                lemma_scope_find_none(sv[si as int], name@);
                lemma_scope_pos_none(sv[si as int], name@);
            }
            i = si;
        }
        None
    }

    /// The spectrum that `name` denotes, if it denotes one.
    pub fn lookup_spectrum(&self, name: &str) -> (r: Option<&SpectrumSchema>)
        ensures
            match r {
                Some(s) => spec_lookup(self@, name@) == Some(SymbolKind::Spectrum(*s)),
                None => !(spec_lookup(self@, name@) matches Some(SymbolKind::Spectrum(_))),
            },
    {
        match self.lookup(name) {
            Some(SymbolKind::Spectrum(schema)) => Some(schema),
            _ => None,
        }
    }

    /// The artifact that `name` denotes, if it denotes one.
    pub fn lookup_artifact(&self, name: &str) -> (r: Option<&ArtifactSchema>)
        ensures
            match r {
                Some(s) => spec_lookup(self@, name@) == Some(SymbolKind::Artifact(*s)),
                None => !(spec_lookup(self@, name@) matches Some(SymbolKind::Artifact(_))),
            },
    {
        match self.lookup(name) {
            Some(SymbolKind::Artifact(schema)) => Some(schema),
            _ => None,
        }
    }
}

} // verus!
