//! Runtime values and the environment in which programs run: the stack of
//! variable scopes, the functions and the artifact schemas.
use vstd::prelude::*;

use crate::ast::{copy_type, LineInfo, Type, TypeV, AST};
use crate::text::str_eq;
use crate::types::{ArtifactSchema, EngravedFunction};

verus! {

broadcast use vstd::std_specs::vec::axiom_vec_index_decreases, vstd::std_specs::vec::axiom_vec_decreases_to_view;

/// An artifact instance: its type's name and its fields in declaration order.
#[derive(Debug)]
pub struct ArtifactValue {
    pub artifact: String,
    pub fields: Vec<(String, Value)>,
}

/// A runtime value. An aether value is held as the bits of its IEEE 754
/// double; the arithmetic on it is the host's (see [`AetherOps`]).
#[derive(Debug)]
pub enum Value {
    Omen(bool),
    Arcana(i64),
    Aether(u64),
    Rune(String),
    Abyss,
    Scroll(Vec<Value>),
    Lexicon(Vec<(String, Value)>),
    Artifact(ArtifactValue),
    Glyph(Type),
}

/// The mathematical model of a [`Value`].
pub enum ValueV {
    Omen(bool),
    Arcana(i64),
    Aether(u64),
    Rune(Seq<char>),
    Abyss,
    Scroll(Seq<ValueV>),
    Lexicon(Seq<(Seq<char>, ValueV)>),
    Artifact(Seq<char>, Seq<(Seq<char>, ValueV)>),
    Glyph(TypeV),
}

/// The model of a value.
pub open spec fn value_view(v: Value) -> ValueV
    decreases v, 1nat,
{
    match v {
        Value::Omen(b) => ValueV::Omen(b),
        Value::Arcana(n) => ValueV::Arcana(n),
        Value::Aether(bits) => ValueV::Aether(bits),
        Value::Rune(s) => ValueV::Rune(s@),
        Value::Abyss => ValueV::Abyss,
        Value::Scroll(items) => ValueV::Scroll(values_view(items@)),
        Value::Lexicon(entries) => ValueV::Lexicon(entries_view(entries@)),
        Value::Artifact(a) => ValueV::Artifact(a.artifact@, entries_view(a.fields@)),
        Value::Glyph(t) => ValueV::Glyph(t@),
    }
}

/// The models of a sequence of values.
pub open spec fn values_view(s: Seq<Value>) -> Seq<ValueV>
    decreases s, 0nat,
{
    if s.len() == 0 {
        Seq::empty()
    } else {
        values_view(s.drop_last()).push(value_view(s.last()))
    }
}

/// The models of a sequence of named values.
pub open spec fn entries_view(s: Seq<(String, Value)>) -> Seq<(Seq<char>, ValueV)>
    decreases s, 0nat,
{
    if s.len() == 0 {
        Seq::empty()
    } else {
        entries_view(s.drop_last()).push((s.last().0@, value_view(s.last().1)))
    }
}

impl View for Value {
    type V = ValueV;

    open spec fn view(&self) -> ValueV {
        value_view(*self)
    }
}

pub proof fn lemma_values_view_len(s: Seq<Value>)
    ensures
        values_view(s).len() == s.len(),
        forall|i: int| 0 <= i < s.len() ==> #[trigger] values_view(s)[i] == value_view(s[i]),
    decreases s.len(),
{
    if s.len() > 0 {
        lemma_values_view_len(s.drop_last());
        assert forall|i: int| 0 <= i < s.len() implies #[trigger] values_view(s)[i] == value_view(s[i]) by {
            if i < s.len() - 1 {
                assert(s.drop_last()[i] == s[i]);
            }
        }
    }
}

pub proof fn lemma_entries_view_len(s: Seq<(String, Value)>)
    ensures
        entries_view(s).len() == s.len(),
        forall|i: int| 0 <= i < s.len() ==> #[trigger] entries_view(s)[i] == (s[i].0@, value_view(s[i].1)),
    decreases s.len(),
{
    if s.len() > 0 {
        lemma_entries_view_len(s.drop_last());
        assert forall|i: int| 0 <= i < s.len() implies #[trigger] entries_view(s)[i] == (s[i].0@, value_view(s[i].1)) by {
            if i < s.len() - 1 {
                assert(s.drop_last()[i] == s[i]);
            }
        }
    }
}

/// Two sequences of values with the same elements have the same models.
pub proof fn lemma_values_view_ext(a: Seq<Value>, b: Seq<Value>)
    requires
        a.len() == b.len(),
        forall|i: int| 0 <= i < a.len() ==> value_view(#[trigger] a[i]) == value_view(b[i]),
    ensures
        values_view(a) == values_view(b),
{
    lemma_values_view_len(a);
    lemma_values_view_len(b);
    assert(values_view(a) =~= values_view(b));
}

/// Two sequences of named values with the same elements have the same models.
pub proof fn lemma_entries_view_ext(a: Seq<(String, Value)>, b: Seq<(String, Value)>)
    requires
        a.len() == b.len(),
        forall|i: int| 0 <= i < a.len() ==> (#[trigger] a[i]).0@ == b[i].0@ && value_view(a[i].1) == value_view(b[i].1),
    ensures
        entries_view(a) == entries_view(b),
{
    lemma_entries_view_len(a);
    lemma_entries_view_len(b);
    assert(entries_view(a) =~= entries_view(b));
}

/// A copy of a value.
pub fn copy_value(v: &Value) -> (r: Value)
    ensures
        r@ == v@,
    decreases v,
{
    match v {
        Value::Omen(b) => Value::Omen(*b),
        Value::Arcana(n) => Value::Arcana(*n),
        Value::Aether(bits) => Value::Aether(*bits),
        Value::Rune(s) => Value::Rune(s.clone()),
        Value::Abyss => Value::Abyss,
        Value::Scroll(items) => {
            let out = copy_values(items);
            Value::Scroll(out)
        },
        Value::Lexicon(entries) => {
            let out = copy_entries(entries);
            Value::Lexicon(out)
        },
        Value::Artifact(a) => {
            let out = copy_entries(&a.fields);
            Value::Artifact(ArtifactValue { artifact: a.artifact.clone(), fields: out })
        },
        Value::Glyph(t) => Value::Glyph(copy_type(t)),
    }
}

/// A copy of a sequence of values.
pub fn copy_values(items: &Vec<Value>) -> (out: Vec<Value>)
    ensures
        values_view(out@) == values_view(items@),
        out@.len() == items@.len(),
    decreases items,
{
    let mut out: Vec<Value> = Vec::new();
    let mut i: usize = 0;
    while i < items.len()
        invariant
            i <= items@.len(),
            out@.len() == i,
            forall|k: int| 0 <= k < i ==> value_view(#[trigger] out@[k]) == value_view(items@[k]),
        decreases items.len() - i,
    {
        assert(decreases_to!(items => items@[i as int]));
        let c = copy_value(&items[i]);
        out.push(c);
        i = i + 1;
    }
    proof {
        lemma_values_view_ext(out@, items@);
    }
    out
}

/// A copy of a sequence of named values.
pub fn copy_entries(entries: &Vec<(String, Value)>) -> (out: Vec<(String, Value)>)
    ensures
        entries_view(out@) == entries_view(entries@),
        out@.len() == entries@.len(),
    decreases entries,
{
    let mut out: Vec<(String, Value)> = Vec::new();
    let mut i: usize = 0;
    while i < entries.len()
        invariant
            i <= entries@.len(),
            out@.len() == i,
            forall|k: int| 0 <= k < i ==> (#[trigger] out@[k]).0@ == entries@[k].0@ && value_view(out@[k].1) == value_view(entries@[k].1),
        decreases entries.len() - i,
    {
        assert(decreases_to!(entries => entries@[i as int].1));
        let c = copy_value(&entries[i].1);
        out.push((entries[i].0.clone(), c));
        i = i + 1;
    }
    proof {
        lemma_entries_view_ext(out@, entries@);
    }
    out
}

/// What the environment knows of a variable.
#[derive(Debug)]
pub struct VarInfo {
    pub value: Value,
    pub var_type: Type,
    pub is_morph: bool,
    pub line_info: Option<LineInfo>,
}

/// A function written in the standard library.
#[derive(Debug, Clone, Copy, PartialEq, Eq, Structural)]
pub enum Builtin {
    Unveil,
    Summon,
    Measure,
    Inscribe,
    Retract,
    Expunge,
    Contents,
    Perish,
}

/// A built-in function under its name.
#[derive(Debug)]
pub struct BuiltinFunction {
    pub name: String,
    pub func: Builtin,
}

/// Something that can be called.
#[derive(Debug)]
pub enum Callable {
    Engraved(EngravedFunction),
    Builtin(BuiltinFunction),
}

/// An evaluated call argument, with the variable it was read from when the
/// argument was a bare variable.
#[derive(Debug)]
pub struct CallArg {
    pub value: crate::eval::result::EvalResult,
    pub var_name: Option<String>,
}

/// The scope model: bindings, later ones shadowing none (names are unique).
pub type VarScope = Seq<(String, VarInfo)>;

/// The position of the first binding of `name` in `scope`.
pub open spec fn scope_index(scope: VarScope, name: Seq<char>) -> Option<int>
    decreases scope.len(),
{
    if scope.len() == 0 {
        None
    } else {
        match scope_index(scope.drop_last(), name) {
            Some(i) => Some(i),
            None => if scope.last().0@ == name { Some(scope.len() - 1) } else { None },
        }
    }
}

/// Where the binding of `name` that is visible lies: the innermost scope
/// that binds it, and the position there.
pub open spec fn var_position(scopes: Seq<VarScope>, name: Seq<char>) -> Option<(int, int)>
    decreases scopes.len(),
{
    if scopes.len() == 0 {
        None
    } else {
        match scope_index(scopes.last(), name) {
            Some(i) => Some((scopes.len() - 1, i)),
            None => var_position(scopes.drop_last(), name),
        }
    }
}

/// The visible binding of `name`.
pub open spec fn var_lookup(scopes: Seq<VarScope>, name: Seq<char>) -> Option<VarInfo> {
    match var_position(scopes, name) {
        Some((s, i)) => Some(scopes[s][i].1),
        None => None,
    }
}

pub proof fn lemma_scope_index_bounds(scope: VarScope, name: Seq<char>)
    ensures
        scope_index(scope, name) matches Some(i) ==> 0 <= i < scope.len() && scope[i].0@ == name
            && forall|j: int| 0 <= j < i ==> #[trigger] scope[j].0@ != name,
        scope_index(scope, name) is None ==> forall|j: int| 0 <= j < scope.len() ==> #[trigger] scope[j].0@ != name,
    decreases scope.len(),
{
    if scope.len() > 0 {
        lemma_scope_index_bounds(scope.drop_last(), name);
        assert forall|j: int| 0 <= j < scope.len() - 1 implies #[trigger] scope[j] == scope.drop_last()[j] by {}
    }
}

pub proof fn lemma_var_position_bounds(scopes: Seq<VarScope>, name: Seq<char>)
    ensures
        var_position(scopes, name) matches Some((s, i)) ==> 0 <= s < scopes.len() && 0 <= i < scopes[s].len()
            && scopes[s][i].0@ == name,
    decreases scopes.len(),
{
    if scopes.len() > 0 {
        lemma_scope_index_bounds(scopes.last(), name);
        lemma_var_position_bounds(scopes.drop_last(), name);
    }
}

proof fn lemma_scope_index_first(scope: VarScope, name: Seq<char>, i: int)
    requires
        0 <= i < scope.len(),
        scope[i].0@ == name,
        forall|j: int| 0 <= j < i ==> #[trigger] scope[j].0@ != name,
    ensures
        scope_index(scope, name) == Some(i),
    decreases scope.len(),
{
    if i < scope.len() - 1 {
        lemma_scope_index_first(scope.drop_last(), name, i);
    } else {
        lemma_scope_index_bounds(scope.drop_last(), name);
        if let Some(k) = scope_index(scope.drop_last(), name) {
            assert(scope.drop_last()[k] == scope[k]);
        }
    }
}

proof fn lemma_scope_index_none(scope: VarScope, name: Seq<char>)
    requires
        forall|j: int| 0 <= j < scope.len() ==> #[trigger] scope[j].0@ != name,
    ensures
        scope_index(scope, name) is None,
    decreases scope.len(),
{
    if scope.len() > 0 {
        assert forall|j: int| 0 <= j < scope.len() - 1 implies #[trigger] scope.drop_last()[j].0@ != name by {
            assert(scope.drop_last()[j] == scope[j]);
        }
        lemma_scope_index_none(scope.drop_last(), name);
    }
}

/// Scopes whose names agree position by position give every name the same
/// position.
pub proof fn lemma_same_names_scope(a: VarScope, b: VarScope, name: Seq<char>)
    requires
        a.len() == b.len(),
        forall|j: int| 0 <= j < a.len() ==> (#[trigger] a[j]).0@ == b[j].0@,
    ensures
        scope_index(a, name) == scope_index(b, name),
    decreases a.len(),
{
    if a.len() > 0 {
        assert forall|j: int| 0 <= j < a.len() - 1 implies (#[trigger] a.drop_last()[j]).0@ == b.drop_last()[j].0@ by {
            assert(a.drop_last()[j] == a[j]);
            assert(b.drop_last()[j] == b[j]);
        }
        lemma_same_names_scope(a.drop_last(), b.drop_last(), name);
    }
}

/// Scope stacks whose names agree give every name the same position.
pub proof fn lemma_same_names(a: Seq<VarScope>, b: Seq<VarScope>, name: Seq<char>)
    requires
        a.len() == b.len(),
        forall|k: int| 0 <= k < a.len() ==> (#[trigger] a[k]).len() == b[k].len(),
        forall|k: int, j: int| 0 <= k < a.len() && 0 <= j < a[k].len() ==> (#[trigger] a[k][j]).0@ == b[k][j].0@,
    ensures
        var_position(a, name) == var_position(b, name),
    decreases a.len(),
{
    if a.len() > 0 {
        let k = a.len() - 1;
        assert forall|j: int| 0 <= j < a[k].len() implies (#[trigger] a[k][j]).0@ == b[k][j].0@ by {}
        lemma_same_names_scope(a.last(), b.last(), name);
        assert forall|k2: int, j: int| 0 <= k2 < a.len() - 1 && 0 <= j < a.drop_last()[k2].len() implies (#[trigger] a.drop_last()[k2][j]).0@ == b.drop_last()[k2][j].0@ by {
            assert(a.drop_last()[k2] == a[k2]);
            assert(b.drop_last()[k2] == b[k2]);
            assert(a[k2][j].0@ == b[k2][j].0@);
        }
        lemma_same_names(a.drop_last(), b.drop_last(), name);
    }
}

/// The names a scope binds, in order.
pub open spec fn scope_names(scope: VarScope) -> Seq<Seq<char>> {
    Seq::new(scope.len(), |j: int| scope[j].0@)
}

/// The names bound in all scopes, innermost scope first.
pub open spec fn all_names(scopes: Seq<VarScope>) -> Seq<Seq<char>>
    decreases scopes.len(),
{
    if scopes.len() == 0 {
        Seq::empty()
    } else {
        scope_names(scopes.last()) + all_names(scopes.drop_last())
    }
}

/// The value of the visible binding of `name`, by its model.
pub open spec fn var_value(scopes: Seq<VarScope>, name: Seq<char>) -> Option<ValueV> {
    match var_lookup(scopes, name) {
        Some(info) => Some(value_view(info.value)),
        None => None,
    }
}

/// The scopes after binding `name` in the innermost scope: an existing
/// binding of it there is replaced, otherwise the binding is added.
pub open spec fn spec_set_var(scopes: Seq<VarScope>, name: String, info: VarInfo) -> Seq<VarScope> {
    let last = scopes.last();
    match scope_index(last, name@) {
        Some(i) => scopes.update(scopes.len() - 1, last.update(i, (name, info))),
        None => scopes.update(scopes.len() - 1, last.push((name, info))),
    }
}

/// After binding `name`, looking it up gives the new binding, and every
/// other name is looked up as before.
pub proof fn lemma_set_var_lookup(scopes: Seq<VarScope>, name: String, info: VarInfo, other: Seq<char>)
    requires
        scopes.len() >= 1,
    ensures
        var_lookup(spec_set_var(scopes, name, info), name@) == Some(info),
        other != name@ ==> var_lookup(spec_set_var(scopes, name, info), other) == var_lookup(scopes, other),
{
    let last = scopes.last();
    let t = spec_set_var(scopes, name, info);
    let nl = t.last();
    assert(t.drop_last() =~= scopes.drop_last());
    lemma_scope_index_bounds(last, name@);
    lemma_scope_index_bounds(last, other);
    match scope_index(last, name@) {
        Some(i) => {
            assert forall|j: int| 0 <= j < nl.len() implies (#[trigger] nl[j]).0@ == last[j].0@ by {}
            lemma_same_names_scope(nl, last, name@);
            lemma_same_names_scope(nl, last, other);
        },
        None => {
            assert forall|j: int| 0 <= j < last.len() implies #[trigger] nl[j].0@ != name@ by {
                assert(nl[j] == last[j]);
            }
            lemma_scope_index_first(nl, name@, last.len() as int);
            if other != name@ {
                lemma_scope_index_bounds(nl, other);
                match scope_index(last, other) {
                    Some(p) => {
                        assert forall|j: int| 0 <= j < p implies #[trigger] nl[j].0@ != other by {
                            assert(nl[j] == last[j]);
                        }
                        assert(nl[p] == last[p]);
                        lemma_scope_index_first(nl, other, p);
                    },
                    None => {
                        assert forall|j: int| 0 <= j < nl.len() implies #[trigger] nl[j].0@ != other by {
                            if j < last.len() {
                                assert(nl[j] == last[j]);
                            }
                        }
                        lemma_scope_index_none(nl, other);
                    },
                }
            }
        },
    }
    if let Some((a, b)) = var_position(scopes, other) {
        lemma_var_position_bounds(scopes, other);
    }
}

/// The position of the first schema called `name`.
pub open spec fn schema_index(schemas: Seq<ArtifactSchema>, name: Seq<char>) -> Option<int>
    decreases schemas.len(),
{
    if schemas.len() == 0 {
        None
    } else {
        match schema_index(schemas.drop_last(), name) {
            Some(i) => Some(i),
            None => if schemas.last().name@ == name { Some(schemas.len() - 1) } else { None },
        }
    }
}

/// A found schema position lies within the schemas and names `name`.
pub proof fn lemma_schema_index_bounds(s: Seq<ArtifactSchema>, name: Seq<char>)
    ensures
        schema_index(s, name) matches Some(i) ==> 0 <= i < s.len() && s[i].name@ == name,
    decreases s.len(),
{
    if s.len() > 0 {
        lemma_schema_index_bounds(s.drop_last(), name);
        if let Some(i) = schema_index(s.drop_last(), name) {
            assert(s.drop_last()[i] == s[i]);
        }
    }
}

proof fn lemma_schema_index_first(s: Seq<ArtifactSchema>, name: Seq<char>, i: int)
    requires
        0 <= i < s.len(),
        s[i].name@ == name,
        forall|j: int| 0 <= j < i ==> #[trigger] s[j].name@ != name,
    ensures
        schema_index(s, name) == Some(i),
    decreases s.len(),
{
    if i < s.len() - 1 {
        assert forall|j: int| 0 <= j < i implies #[trigger] s.drop_last()[j].name@ != name by {
            assert(s.drop_last()[j] == s[j]);
        }
        assert(s.drop_last()[i] == s[i]);
        lemma_schema_index_first(s.drop_last(), name, i);
    } else {
        lemma_schema_index_none(s.drop_last(), name);
    }
}

proof fn lemma_schema_index_none(s: Seq<ArtifactSchema>, name: Seq<char>)
    requires
        forall|j: int| 0 <= j < s.len() ==> #[trigger] s[j].name@ != name,
    ensures
        schema_index(s, name) is None,
    decreases s.len(),
{
    if s.len() > 0 {
        assert forall|j: int| 0 <= j < s.len() - 1 implies #[trigger] s.drop_last()[j].name@ != name by {
            assert(s.drop_last()[j] == s[j]);
        }
        lemma_schema_index_none(s.drop_last(), name);
    }
}

/// The schemas after defining `schema`: one of the same name is replaced
/// in place, otherwise it is added at the end.
pub open spec fn spec_define_artifact(schemas: Seq<ArtifactSchema>, schema: ArtifactSchema) -> Seq<ArtifactSchema> {
    match schema_index(schemas, schema.name@) {
        Some(i) => schemas.update(i, schema),
        None => schemas.push(schema),
    }
}

/// Law: after defining an artifact, looking its name up finds the new
/// schema.
pub proof fn law_define_artifact_then_lookup(schemas: Seq<ArtifactSchema>, schema: ArtifactSchema)
    ensures
        schema_index(spec_define_artifact(schemas, schema), schema.name@) matches Some(i)
            && spec_define_artifact(schemas, schema)[i] == schema,
{
    let t = spec_define_artifact(schemas, schema);
    lemma_schema_index_bounds(schemas, schema.name@);
    match schema_index(schemas, schema.name@) {
        Some(i) => {
            assert forall|j: int| 0 <= j < i implies #[trigger] t[j].name@ != schema.name@ by {
                assert(t[j] == schemas[j]);
                lemma_schema_index_below(schemas, schema.name@, j);
            }
            lemma_schema_index_first(t, schema.name@, i);
        },
        None => {
            assert forall|j: int| 0 <= j < schemas.len() implies #[trigger] t[j].name@ != schema.name@ by {
                assert(t[j] == schemas[j]);
                lemma_schema_index_below(schemas, schema.name@, j);
            }
            lemma_schema_index_first(t, schema.name@, schemas.len() as int);
        },
    }
}

/// Before the first schema called `name`, no schema is called so.
proof fn lemma_schema_index_below(s: Seq<ArtifactSchema>, name: Seq<char>, j: int)
    requires
        0 <= j < s.len(),
        match schema_index(s, name) {
            Some(i) => j < i,
            None => true,
        },
    ensures
        s[j].name@ != name,
    decreases s.len(),
{
    lemma_schema_index_bounds(s.drop_last(), name);
    if j < s.len() - 1 {
        assert(s.drop_last()[j] == s[j]);
        lemma_schema_index_below(s.drop_last(), name, j);
    }
}

/// The position of the first function bound to `name`.
pub open spec fn fn_index(functions: Seq<(String, Callable)>, name: Seq<char>) -> Option<int>
    decreases functions.len(),
{
    if functions.len() == 0 {
        None
    } else {
        match fn_index(functions.drop_last(), name) {
            Some(i) => Some(i),
            None => if functions.last().0@ == name { Some(functions.len() - 1) } else { None },
        }
    }
}

/// The functions after binding `name`: a binding of the same name is
/// replaced in place, otherwise it is added at the end.
pub open spec fn spec_set_function(functions: Seq<(String, Callable)>, name: String, callable: Callable) -> Seq<(String, Callable)> {
    match fn_index(functions, name@) {
        Some(i) => functions.update(i, (name, callable)),
        None => functions.push((name, callable)),
    }
}

proof fn lemma_fn_index_bounds(s: Seq<(String, Callable)>, name: Seq<char>)
    ensures
        fn_index(s, name) matches Some(i) ==> 0 <= i < s.len() && s[i].0@ == name,
        fn_index(s, name) matches Some(i) ==> forall|j: int| 0 <= j < i ==> #[trigger] s[j].0@ != name,
        fn_index(s, name) is None ==> forall|j: int| 0 <= j < s.len() ==> #[trigger] s[j].0@ != name,
    decreases s.len(),
{
    if s.len() > 0 {
        lemma_fn_index_bounds(s.drop_last(), name);
        assert forall|j: int| 0 <= j < s.len() - 1 implies #[trigger] s[j] == s.drop_last()[j] by {}
    }
}

proof fn lemma_fn_index_first(s: Seq<(String, Callable)>, name: Seq<char>, i: int)
    requires
        0 <= i < s.len(),
        s[i].0@ == name,
        forall|j: int| 0 <= j < i ==> #[trigger] s[j].0@ != name,
    ensures
        fn_index(s, name) == Some(i),
{
    lemma_fn_index_bounds(s, name);
    if let Some(k) = fn_index(s, name) {
        if k < i {
            assert(s[k].0@ != name);
        }
    }
}

/// Law: after binding a function, looking its name up finds it.
pub proof fn law_set_function_then_get(functions: Seq<(String, Callable)>, name: String, callable: Callable)
    ensures
        fn_index(spec_set_function(functions, name, callable), name@) matches Some(i)
            && spec_set_function(functions, name, callable)[i].1 == callable,
{
    let t = spec_set_function(functions, name, callable);
    lemma_fn_index_bounds(functions, name@);
    match fn_index(functions, name@) {
        Some(i) => {
            assert forall|j: int| 0 <= j < i implies #[trigger] t[j].0@ != name@ by {
                assert(t[j] == functions[j]);
            }
            lemma_fn_index_first(t, name@, i);
        },
        None => {
            assert forall|j: int| 0 <= j < functions.len() implies #[trigger] t[j].0@ != name@ by {
                assert(t[j] == functions[j]);
            }
            lemma_fn_index_first(t, name@, functions.len() as int);
        },
    }
}

/// The hosts of output and input: what `unveil` writes and `summon` reads.
pub trait IoBridge {
    /// Whether this host keeps a model of what was written (see
    /// [`IoBridge::written`]); a host that does not keeps none.
    open spec fn models_output(&self) -> bool {
        false
    }

    /// What has been written so far, where the host keeps a model of it.
    open spec fn written(&self) -> Seq<char> {
        Seq::empty()
    }

    /// Writes `content`: on success, where the host keeps a model of its
    /// output, the content follows what was written.
    fn write_str(&mut self, content: &str) -> (r: Result<(), String>)
        ensures
            old(self).models_output() ==> final(self).models_output(),
            old(self).models_output() && r is Ok ==> final(self).written() == old(self).written() + content@;

    /// Flushes what was written.
    fn flush(&mut self) -> Result<(), String>;

    /// Reads one line of input.
    fn read_line(&mut self) -> Result<String, String>;
}

/// The host of aether arithmetic: IEEE 754 doubles, given by their bits.
pub trait AetherOps {
    /// The double that decimal `text` denotes, if it denotes one.
    fn parse(&self, text: &str) -> Option<u64>;

    /// The double nearest to an arcana value.
    fn from_arcana(&self, n: i64) -> u64;

    /// The arcana value of a double, truncated toward zero and saturated.
    fn to_arcana(&self, a: u64) -> i64;

    fn add(&self, a: u64, b: u64) -> u64;

    fn sub(&self, a: u64, b: u64) -> u64;

    fn mul(&self, a: u64, b: u64) -> u64;

    fn div(&self, a: u64, b: u64) -> u64;

    fn rem(&self, a: u64, b: u64) -> u64;

    fn pow(&self, a: u64, b: u64) -> u64;

    /// Whether `a` and `b` differ by less than the machine epsilon.
    fn approx_eq(&self, a: u64, b: u64) -> bool;

    fn less(&self, a: u64, b: u64) -> bool;

    fn less_eq(&self, a: u64, b: u64) -> bool;

    /// The decimal text of a double, as `to_string` writes it.
    fn to_text(&self, a: u64) -> String;
}

/// The environment of a running program.
pub struct Environment {
    scopes: Vec<Vec<(String, VarInfo)>>,
    functions: Vec<(String, Callable)>,
    artifacts: Vec<ArtifactSchema>,
    budget: u64,
}

impl Environment {
    /// The variable scopes, the innermost last.
    pub closed spec fn scopes(&self) -> Seq<VarScope> {
        Seq::new(self.scopes@.len(), |i: int| self.scopes@[i]@)
    }

    /// The functions, by name; the first binding of a name counts.
    pub closed spec fn functions(&self) -> Seq<(String, Callable)> {
        self.functions@
    }

    /// The artifact schemas.
    pub closed spec fn artifacts(&self) -> Seq<ArtifactSchema> {
        self.artifacts@
    }

    /// How many loop iterations without a bound may still run.
    pub closed spec fn budget(&self) -> u64 {
        self.budget
    }

    /// An environment with one empty scope, no functions and no artifacts.
    pub fn new() -> (env: Environment)
        ensures
            env.scopes().len() == 1,
            env.scopes()[0].len() == 0,
            env.functions().len() == 0,
            env.artifacts().len() == 0,
            env.budget() == u64::MAX,
    {
        let mut scopes: Vec<Vec<(String, VarInfo)>> = Vec::new();
        scopes.push(Vec::new());
        Environment { scopes, functions: Vec::new(), artifacts: Vec::new(), budget: u64::MAX }
    }

    /// An environment with one empty scope, the given functions and no
    /// artifacts.
    pub fn with_functions(functions: Vec<(String, Callable)>) -> (env: Environment)
        ensures
            env.scopes().len() == 1,
            env.scopes()[0].len() == 0,
            env.functions() == functions@,
            env.artifacts().len() == 0,
            env.budget() == u64::MAX,
    {
        let mut scopes: Vec<Vec<(String, VarInfo)>> = Vec::new();
        scopes.push(Vec::new());
        Environment { scopes, functions, artifacts: Vec::new(), budget: u64::MAX }
    }

    /// The number of scopes.
    pub fn depth(&self) -> (n: usize)
        ensures
            n == self.scopes().len(),
    {
        self.scopes.len()
    }

    /// Enters a new, empty scope.
    pub fn push_scope(&mut self)
        ensures
            final(self).scopes() == old(self).scopes().push(Seq::empty()),
            final(self).functions() == old(self).functions(),
            final(self).artifacts() == old(self).artifacts(),
            final(self).budget() == old(self).budget(),
    {
        self.scopes.push(Vec::new());
        assert(self.scopes() =~= old(self).scopes().push(Seq::empty()));
    }

    /// Leaves the innermost scope, unless it is the only one.
    pub fn pop_scope(&mut self)
        ensures
            final(self).scopes() == (if old(self).scopes().len() > 1 { old(self).scopes().drop_last() } else { old(self).scopes() }),
            final(self).functions() == old(self).functions(),
            final(self).artifacts() == old(self).artifacts(),
            final(self).budget() == old(self).budget(),
    {
        if self.scopes.len() > 1 {
            self.scopes.pop();
            assert(self.scopes() =~= old(self).scopes().drop_last());
        }
    }

    /// Spends one unit of the budget of unbounded loop iterations; `false`
    /// when it is spent.
    pub fn spend(&mut self) -> (ok: bool)
        ensures
            ok == (old(self).budget() > 0),
            ok ==> final(self).budget() == old(self).budget() - 1,
            !ok ==> final(self).budget() == old(self).budget(),
            final(self).scopes() == old(self).scopes(),
            final(self).functions() == old(self).functions(),
            final(self).artifacts() == old(self).artifacts(),
    {
        if self.budget == 0 {
            false
        } else {
            self.budget = self.budget - 1;
            true
        }
    }

    fn find_in_scope(&self, s: usize, name: &str) -> (r: Option<usize>)
        requires
            s < self.scopes().len(),
        ensures
            match r {
                Some(i) => scope_index(self.scopes()[s as int], name@) == Some(i as int),
                None => scope_index(self.scopes()[s as int], name@) is None,
            },
    {
        let ghost sc = self.scopes()[s as int];
        let mut j: usize = 0;
        while j < self.scopes[s].len()
            invariant
                s < self.scopes@.len(),
                sc == self.scopes@[s as int]@,
                j <= sc.len(),
                forall|k: int| 0 <= k < j ==> #[trigger] sc[k].0@ != name@,
            decreases self.scopes@[s as int]@.len() - j,
        {
            if str_eq(self.scopes[s][j].0.as_str(), name) {
                proof {
                    lemma_scope_index_first(sc, name@, j as int);
                }
                return Some(j);
            }
            j = j + 1;
        }
        proof {
            lemma_scope_index_none(sc, name@);
        }
        None
    }

    /// Where the visible binding of `name` lies.
    fn find_var(&self, name: &str) -> (r: Option<(usize, usize)>)
        ensures
            match r {
                Some((s, i)) => var_position(self.scopes(), name@) == Some((s as int, i as int)),
                None => var_position(self.scopes(), name@) is None,
            },
    {
        let ghost sv = self.scopes();
        let mut n = self.scopes.len();
        assert(sv.take(n as int) =~= sv);
        while n > 0
            invariant
                sv == self.scopes(),
                n <= sv.len(),
                var_position(sv, name@) == var_position(sv.take(n as int), name@),
            decreases n,
        {
            let s = n - 1;
            proof {
                assert(sv.take(n as int).drop_last() =~= sv.take(s as int));
                assert(sv.take(n as int).last() == sv[s as int]);
            }
            match self.find_in_scope(s, name) {
                Some(i) => {
                    return Some((s, i));
                },
                None => {},
            }
            n = s;
        }
        None
    }

    /// The visible binding of `name`.
    pub fn get_var(&self, name: &str) -> (r: Option<&VarInfo>)
        ensures
            match r {
                Some(v) => var_lookup(self.scopes(), name@) == Some(*v),
                None => var_lookup(self.scopes(), name@) is None,
            },
    {
        proof {
            lemma_var_position_bounds(self.scopes(), name@);
        }
        match self.find_var(name) {
            Some((s, i)) => Some(&self.scopes[s][i].1),
            None => None,
        }
    }

    /// Binds `name` in the innermost scope, replacing a binding of it there.
    pub fn set_var(&mut self, name: String, value: Value, var_type: Type, is_morph: bool, line_info: Option<LineInfo>)
        requires
            old(self).scopes().len() >= 1,
        ensures
            final(self).scopes() == spec_set_var(old(self).scopes(), name, VarInfo { value, var_type, is_morph, line_info }),
            final(self).functions() == old(self).functions(),
            final(self).artifacts() == old(self).artifacts(),
            final(self).budget() == old(self).budget(),
    {
        let info = VarInfo { value, var_type, is_morph, line_info };
        let last = self.scopes.len() - 1;
        let found = self.find_in_scope(last, name.as_str());
        proof {
            lemma_scope_index_bounds(self.scopes()[last as int], name@);
        }
        let mut scope = self.scopes.pop().unwrap();
        assert(scope@ == old(self).scopes()[last as int]);
        match found {
            Some(i) => {
                scope.set(i, (name, info));
            },
            None => {
                scope.push((name, info));
            },
        }
        self.scopes.push(scope);
        assert(self.scopes() =~= spec_set_var(old(self).scopes(), name, info));
    }

    /// Replaces the value of the visible binding of `name`; `false` when
    /// there is none.
    pub fn assign_var(&mut self, name: &str, value: Value) -> (found: bool)
        ensures
            found == (var_position(old(self).scopes(), name@) is Some),
            match var_position(old(self).scopes(), name@) {
                Some((s, i)) => final(self).scopes() == old(self).scopes().update(s, old(self).scopes()[s].update(i,
                    (old(self).scopes()[s][i].0, VarInfo { value, ..old(self).scopes()[s][i].1 }))),
                None => final(self).scopes() == old(self).scopes(),
            },
            var_position(final(self).scopes(), name@) == var_position(old(self).scopes(), name@),
            final(self).scopes().len() == old(self).scopes().len(),
            found ==> var_lookup(final(self).scopes(), name@) == Some(VarInfo { value, ..var_lookup(old(self).scopes(), name@).unwrap() }),
            forall|o: Seq<char>| o != name@ ==> #[trigger] var_lookup(final(self).scopes(), o) == var_lookup(old(self).scopes(), o),
            final(self).functions() == old(self).functions(),
            final(self).artifacts() == old(self).artifacts(),
            final(self).budget() == old(self).budget(),
    {
        proof {
            lemma_var_position_bounds(self.scopes(), name@);
        }
        match self.find_var(name) {
            Some((s, i)) => {
                let ghost old_sc = old(self).scopes();
                let mut all: Vec<Vec<(String, VarInfo)>> = Vec::new();
                std::mem::swap(&mut all, &mut self.scopes);
                let mut scope = all.remove(s);
                assert(scope@ == old_sc[s as int]);
                let (key, old_info) = scope.remove(i);
                assert((key, old_info) == old_sc[s as int][i as int]);
                let info = VarInfo { value, var_type: old_info.var_type, is_morph: old_info.is_morph, line_info: old_info.line_info };
                scope.insert(i, (key, info));
                assert(scope@ =~= old_sc[s as int].update(i as int, (key, info)));
                all.insert(s, scope);
                std::mem::swap(&mut all, &mut self.scopes);
                assert(self.scopes@.len() == old_sc.len());
                assert forall|k: int| 0 <= k < old_sc.len() implies #[trigger] self.scopes()[k] == old_sc.update(s as int, old_sc[s as int].update(i as int, (key, info)))[k] by {
                    if k != s as int {
                        assert(self.scopes@[k] == old(self).scopes@[k]);
                    }
                }
                proof {
                    let ns = self.scopes();
                    assert(ns =~= old_sc.update(s as int, old_sc[s as int].update(i as int, (key, info))));
                    assert forall|k: int, j: int| 0 <= k < ns.len() && 0 <= j < ns[k].len() implies (#[trigger] ns[k][j]).0@ == old_sc[k][j].0@ by {}
                    lemma_same_names(ns, old_sc, name@);
                    assert forall|o: Seq<char>| o != name@ implies #[trigger] var_lookup(ns, o) == var_lookup(old_sc, o) by {
                        lemma_same_names(ns, old_sc, o);
                        lemma_var_position_bounds(old_sc, o);
                    }
                }
                assert(self.scopes() =~= old(self).scopes().update(s as int, old(self).scopes()[s as int].update(i as int,
                    (old(self).scopes()[s as int][i as int].0, VarInfo { value, ..old(self).scopes()[s as int][i as int].1 }))));
                true
            },
            None => false,
        }
    }

    /// The names of all bound variables, innermost scope first, each scope
    /// in the order its bindings were made.
    pub fn variable_names(&self) -> (names: Vec<String>)
        ensures
            crate::text::strings_view(names@) == all_names(self.scopes()),
    {
        let ghost sv = self.scopes();
        let mut names: Vec<String> = Vec::new();
        let mut n = self.scopes.len();
        assert(sv.take(n as int) =~= sv);
        while n > 0
            invariant
                sv == self.scopes(),
                n <= self.scopes@.len(),
                crate::text::strings_view(names@) + all_names(sv.take(n as int)) == all_names(sv),
            decreases n,
        {
            let s = n - 1;
            let ghost base = crate::text::strings_view(names@);
            proof {
                assert(sv.take(n as int).drop_last() =~= sv.take(s as int));
                assert(sv.take(n as int).last() == sv[s as int]);
            }
            let mut j: usize = 0;
            while j < self.scopes[s].len()
                invariant
                    sv == self.scopes(),
                    s < self.scopes@.len(),
                    n <= self.scopes@.len(),
                    s == n - 1,
                    j <= sv[s as int].len(),
                    crate::text::strings_view(names@) == base + scope_names(sv[s as int]).take(j as int),
                decreases self.scopes@[s as int]@.len() - j,
            {
                let ghost prev = names@;
                names.push(self.scopes[s][j].0.clone());
                proof {
                    assert(sv[s as int] == self.scopes@[s as int]@);
                    assert(names@ == prev.push(names@.last()));
                    assert(crate::text::strings_view(names@) =~= crate::text::strings_view(prev).push(sv[s as int][j as int].0@));
                    assert(scope_names(sv[s as int]).take(j + 1) =~= scope_names(sv[s as int]).take(j as int).push(sv[s as int][j as int].0@));
                    assert(crate::text::strings_view(names@) =~= base + scope_names(sv[s as int]).take(j + 1));
                }
                j = j + 1;
            }
            proof {
                assert(scope_names(sv[s as int]).take(j as int) =~= scope_names(sv[s as int]));
                assert(base + all_names(sv.take(n as int)) == base + (scope_names(sv[s as int]) + all_names(sv.take(s as int))));
                assert((base + scope_names(sv[s as int])) + all_names(sv.take(s as int)) =~= base + (scope_names(sv[s as int]) + all_names(sv.take(s as int))));
            }
            n = s;
        }
        assert(sv.take(0) =~= Seq::<VarScope>::empty());
        assert(crate::text::strings_view(names@) + Seq::<Seq<char>>::empty() =~= crate::text::strings_view(names@));
        names
    }

    /// Binds a function, replacing an earlier one of the same name.
    pub fn set_function(&mut self, name: String, callable: Callable)
        ensures
            final(self).functions() == spec_set_function(old(self).functions(), name, callable),
            exists|i: int| 0 <= i < final(self).functions().len() && #[trigger] final(self).functions()[i].0@ == name@
                && final(self).functions()[i].1 == callable
                && forall|j: int| 0 <= j < i ==> #[trigger] final(self).functions()[j].0@ != name@,
            final(self).scopes() == old(self).scopes(),
            final(self).artifacts() == old(self).artifacts(),
            final(self).budget() == old(self).budget(),
    {
        let mut i: usize = 0;
        while i < self.functions.len()
            invariant
                i <= self.functions@.len(),
                self.functions@ == old(self).functions@,
                self.scopes == old(self).scopes,
                self.artifacts == old(self).artifacts,
                self.budget == old(self).budget,
                forall|j: int| 0 <= j < i ==> #[trigger] self.functions@[j].0@ != name@,
            decreases self.functions.len() - i,
        {
            if str_eq(self.functions[i].0.as_str(), name.as_str()) {
                proof {
                    lemma_fn_index_first(old(self).functions(), name@, i as int);
                }
                self.functions.set(i, (name, callable));
                assert(self.functions()[i as int].0@ == name@);
                assert(self.functions()[i as int].1 == callable);
                assert(forall|j: int| 0 <= j < i ==> #[trigger] self.functions@[j] == old(self).functions@[j]);
                return;
            }
            i = i + 1;
        }
        proof {
            lemma_fn_index_bounds(old(self).functions(), name@);
            if let Some(k) = fn_index(old(self).functions(), name@) {
                assert(self.functions@[k].0@ != name@);
            }
        }
        self.functions.push((name, callable));
        let ghost k = self.functions@.len() - 1;
        assert(self.functions()[k].0@ == name@);
        assert(self.functions()[k].1 == callable);
        assert(forall|j: int| 0 <= j < k ==> #[trigger] self.functions@[j] == old(self).functions@[j]);
    }

    /// The function bound to `name`.
    pub fn get_function(&self, name: &str) -> (r: Option<&Callable>)
        ensures
            match fn_index(self.functions(), name@) {
                Some(i) => r matches Some(c) && *c == self.functions()[i].1,
                None => r is None,
            },
            r matches Some(c) ==> exists|i: int| 0 <= i < self.functions().len() && self.functions()[i].0@ == name@
                && self.functions()[i].1 == *c,
            r is None ==> forall|i: int| 0 <= i < self.functions().len() ==> #[trigger] self.functions()[i].0@ != name@,
    {
        let mut i: usize = 0;
        while i < self.functions.len()
            invariant
                i <= self.functions@.len(),
                forall|j: int| 0 <= j < i ==> #[trigger] self.functions@[j].0@ != name@,
            decreases self.functions.len() - i,
        {
            if str_eq(self.functions[i].0.as_str(), name) {
                assert(self.functions()[i as int].0@ == name@);
                proof {
                    lemma_fn_index_first(self.functions(), name@, i as int);
                }
                return Some(&self.functions[i].1);
            }
            i = i + 1;
        }
        proof {
            lemma_fn_index_bounds(self.functions(), name@);
            if let Some(k) = fn_index(self.functions(), name@) {
                assert(self.functions@[k].0@ != name@);
            }
        }
        None
    }

    /// The names of all functions, in the order they were first bound.
    pub fn function_names(&self) -> (names: Vec<String>)
        ensures
            names@.len() == self.functions().len(),
            forall|i: int| 0 <= i < names@.len() ==> #[trigger] names@[i]@ == self.functions()[i].0@,
    {
        let mut names: Vec<String> = Vec::new();
        let mut i: usize = 0;
        while i < self.functions.len()
            invariant
                i <= self.functions@.len(),
                names@.len() == i,
                forall|k: int| 0 <= k < i ==> #[trigger] names@[k]@ == self.functions@[k].0@,
            decreases self.functions.len() - i,
        {
            names.push(self.functions[i].0.clone());
            i = i + 1;
        }
        names
    }

    /// The schema of the artifact type `name`.
    pub fn get_artifact(&self, name: &str) -> (r: Option<&ArtifactSchema>)
        ensures
            r matches Some(a) ==> a.name@ == name@ && exists|i: int| 0 <= i < self.artifacts().len() && self.artifacts()[i] == *a,
            r is None ==> forall|i: int| 0 <= i < self.artifacts().len() ==> #[trigger] self.artifacts()[i].name@ != name@,
            match schema_index(self.artifacts(), name@) {
                Some(i) => r matches Some(a) && *a == self.artifacts()[i],
                None => r is None,
            },
    {
        let mut i: usize = 0;
        while i < self.artifacts.len()
            invariant
                i <= self.artifacts@.len(),
                forall|j: int| 0 <= j < i ==> #[trigger] self.artifacts@[j].name@ != name@,
            decreases self.artifacts.len() - i,
        {
            if str_eq(self.artifacts[i].name.as_str(), name) {
                proof {
                    lemma_schema_index_first(self.artifacts(), name@, i as int);
                }
                return Some(&self.artifacts[i]);
            }
            i = i + 1;
        }
        proof {
            lemma_schema_index_none(self.artifacts(), name@);
        }
        None
    }

    /// Adds an artifact schema, replacing one of the same name.
    pub fn define_artifact(&mut self, schema: ArtifactSchema)
        ensures
            exists|i: int| 0 <= i < final(self).artifacts().len() && #[trigger] final(self).artifacts()[i] == schema,
            final(self).artifacts() == spec_define_artifact(old(self).artifacts(), schema),
            final(self).scopes() == old(self).scopes(),
            final(self).functions() == old(self).functions(),
            final(self).budget() == old(self).budget(),
    {
        let mut i: usize = 0;
        while i < self.artifacts.len()
            invariant
                i <= self.artifacts@.len(),
                self.artifacts@ == old(self).artifacts@,
                self.scopes == old(self).scopes,
                self.functions == old(self).functions,
                self.budget == old(self).budget,
                forall|j: int| 0 <= j < i ==> #[trigger] self.artifacts@[j].name@ != schema.name@,
            decreases self.artifacts.len() - i,
        {
            if str_eq(self.artifacts[i].name.as_str(), schema.name.as_str()) {
                proof {
                    lemma_schema_index_first(old(self).artifacts(), schema.name@, i as int);
                }
                self.artifacts.set(i, schema);
                assert(self.artifacts()[i as int] == schema);
                return;
            }
            i = i + 1;
        }
        proof {
            lemma_schema_index_none(old(self).artifacts(), schema.name@);
        }
        self.artifacts.push(schema);
        assert(self.artifacts()[self.artifacts@.len() - 1] == schema);
    }
}

} // verus!
