//! Artifacts at run time: building schemas from definitions, checking and
//! reading fields, and comparing instances.
use vstd::prelude::*;

use crate::ast::{copy_type, ArtifactField, LineInfo, Type, AST};
use crate::env::{
    entries_view, lemma_entries_view_len, lemma_values_view_len, schema_index, values_view, AetherOps, ArtifactValue,
    Environment, Value, ValueV,
};
use crate::stdlib::io::{aether_free, entries_free, lemma_entries_free_take, lemma_items_free_take};
use crate::eval::collections::{entry_get, lemma_entry_index, lemma_view_index, lexicon_find, lexicon_get, view_index};
use crate::eval::result::{EvalError, EvalResult, EvalResultV};
use crate::eval::values::{describe_value, is_invalid, is_type_error, kind_name};
use crate::text::{join, join_strings, owned, push_str, str_eq, strings_view};
use crate::types::{ArtifactFieldSchema, ArtifactSchema};

verus! {

broadcast use vstd::std_specs::vec::axiom_vec_index_decreases, vstd::std_specs::vec::axiom_vec_decreases_to_view;

/// Whether some artifact schema of the environment is called `name`.
pub open spec fn artifact_defined(env: Environment, name: Seq<char>) -> bool {
    exists|i: int| 0 <= i < env.artifacts().len() && #[trigger] env.artifacts()[i].name@ == name
}

/// An artifact type must name a defined artifact.
pub fn ensure_type_known(ty: &Type, env: &Environment, line_info: &Option<LineInfo>) -> (r: Result<(), EvalError>)
    ensures
        match *ty {
            Type::Artifact(name) => if artifact_defined(*env, name@) {
                r is Ok
            } else {
                is_type_error(r, "Artifact type "@ + name@ + " is not defined"@, *line_info)
            },
            _ => r is Ok,
        },
{
    match ty {
        Type::Artifact(name) => {
            match env.get_artifact(name.as_str()) {
                Some(_) => Ok(()),
                None => {
                    let mut m = owned("Artifact type ");
                    push_str(&mut m, name.as_str());
                    push_str(&mut m, " is not defined");
                    Err(EvalError::TypeError(m, *line_info))
                },
            }
        },
        _ => Ok(()),
    }
}

/// A field's artifact type must be the artifact being defined or an
/// artifact defined before it.
pub fn ensure_field_type_known(field: &ArtifactField, env: &Environment, current_artifact: &str) -> (r: Result<(), EvalError>)
    ensures
        match field.field_type {
            Type::Artifact(name) => if name@ == current_artifact@ || artifact_defined(*env, name@) {
                r is Ok
            } else {
                is_type_error(r, "Artifact field "@ + field.name@ + " references undefined type "@ + name@, field.line_info)
            },
            _ => r is Ok,
        },
{
    match &field.field_type {
        Type::Artifact(name) => {
            if str_eq(name.as_str(), current_artifact) {
                return Ok(());
            }
            match env.get_artifact(name.as_str()) {
                Some(_) => Ok(()),
                None => {
                    let mut m = owned("Artifact field ");
                    push_str(&mut m, field.name.as_str());
                    push_str(&mut m, " references undefined type ");
                    push_str(&mut m, name.as_str());
                    Err(EvalError::TypeError(m, field.line_info))
                },
            }
        },
        _ => Ok(()),
    }
}

/// A field's type is known: not an artifact, or the artifact being
/// defined, or one defined before it.
pub open spec fn field_type_ok(f: ArtifactField, current: Seq<char>, env: Environment) -> bool {
    match f.field_type {
        Type::Artifact(n) => n@ == current || artifact_defined(env, n@),
        _ => true,
    }
}

/// Whether two of the first `n` fields share a name.
pub open spec fn has_duplicate_field(fields: Seq<ArtifactField>, n: int) -> bool {
    exists|i: int, j: int| 0 <= i < j < n && #[trigger] fields[i].name@ == #[trigger] fields[j].name@
}

/// Whether a field before the `k`-th has its name.
pub open spec fn named_before(fields: Seq<ArtifactField>, k: int) -> bool {
    exists|j: int| 0 <= j < k && #[trigger] fields[j].name@ == fields[k].name@
}

/// Whether `e` is the error that the `k`-th field of an artifact definition
/// gives: its name repeated, or (otherwise) its type undefined.
pub open spec fn field_error(e: EvalError, fields: Seq<ArtifactField>, k: int, line_info: Option<LineInfo>) -> bool {
    if named_before(fields, k) {
        e matches EvalError::InvalidOperation(m, l) && m@ == "Field '"@ + fields[k].name@ + "' is defined multiple times"@
            && l == (match fields[k].line_info {
            Some(x) => Some(x),
            None => line_info,
        })
    } else {
        fields[k].field_type matches Type::Artifact(n) && e matches EvalError::TypeError(m, l) && m@ == "Artifact field "@
            + fields[k].name@ + " references undefined type "@ + n@ && l == fields[k].line_info
    }
}

/// The schema of an artifact definition: its fields in order, no methods.
/// A repeated field name or an undefined field type is an error.
pub fn build_artifact_schema(name: &str, fields: &[ArtifactField], env: &Environment, line_info: &Option<LineInfo>) -> (r: Result<ArtifactSchema, EvalError>)
    ensures
        r matches Ok(schema) ==> schema.name@ == name@ && schema.fields@.len() == fields@.len()
            && schema.methods@.len() == 0 && schema.line_info == *line_info
            && !has_duplicate_field(fields@, fields@.len() as int)
            && forall|i: int| 0 <= i < fields@.len() ==> (#[trigger] schema.fields@[i]).name@ == fields@[i].name@
                && schema.fields@[i].field_type@ == fields@[i].field_type@,
        has_duplicate_field(fields@, fields@.len() as int) ==> r is Err,
        (forall|i: int| 0 <= i < fields@.len() ==> field_type_ok(#[trigger] fields@[i], name@, *env))
            && !has_duplicate_field(fields@, fields@.len() as int) ==> r is Ok,
        r is Ok ==> forall|i: int| 0 <= i < fields@.len() ==> field_type_ok(#[trigger] fields@[i], name@, *env),
        r is Err ==> has_duplicate_field(fields@, fields@.len() as int) || exists|i: int| 0 <= i < fields@.len() && !field_type_ok(
            #[trigger] fields@[i],
            name@,
            *env,
        ),        r matches Err(e) ==> exists|k: int| 0 <= k < fields@.len() && (forall|j: int| 0 <= j < k ==> !named_before(fields@, j)
            && field_type_ok(#[trigger] fields@[j], name@, *env)) && #[trigger] field_error(e, fields@, k, *line_info),
{
    let mut compiled: Vec<ArtifactFieldSchema> = Vec::new();
    let mut i: usize = 0;
    while i < fields.len()
        invariant
            i <= fields@.len(),
            compiled@.len() == i,
            !has_duplicate_field(fields@, i as int),
            forall|k: int| 0 <= k < i ==> (#[trigger] compiled@[k]).name@ == fields@[k].name@
                && compiled@[k].field_type@ == fields@[k].field_type@,
            forall|k: int| 0 <= k < i ==> field_type_ok(#[trigger] fields@[k], name@, *env),
        decreases fields.len() - i,
    {
        let mut j: usize = 0;
        while j < i
            invariant
                j <= i < fields@.len(),
                forall|k: int| 0 <= k < j ==> (#[trigger] fields@[k]).name@ != fields@[i as int].name@,
                !has_duplicate_field(fields@, i as int),
                forall|k: int| 0 <= k < i ==> field_type_ok(#[trigger] fields@[k], name@, *env),
            decreases i - j,
        {
            if str_eq(fields[j].name.as_str(), fields[i].name.as_str()) {
                let mut m = owned("Field '");
                push_str(&mut m, fields[i].name.as_str());
                push_str(&mut m, "' is defined multiple times");
                let at = match fields[i].line_info {
                    Some(l) => Some(l),
                    None => *line_info,
                };
                let e = EvalError::InvalidOperation(m, at);
                proof {
                    assert(fields@[j as int].name@ == fields@[i as int].name@);
                    assert(has_duplicate_field(fields@, fields@.len() as int));
                    assert(named_before(fields@, i as int));
                    assert(field_error(e, fields@, i as int, *line_info));
                    assert forall|q: int| 0 <= q < i implies !named_before(fields@, q) by {
                        if named_before(fields@, q) {
                            let w = choose|w: int| 0 <= w < q && #[trigger] fields@[w].name@ == fields@[q].name@;
                            assert(has_duplicate_field(fields@, i as int));
                        }
                    }
                }
                return Err(e);
            }
            j = j + 1;
        }
        match ensure_field_type_known(&fields[i], env, name) {
            Ok(()) => {},
            Err(e) => {
                proof {
                    assert(!named_before(fields@, i as int));
                    assert(field_error(e, fields@, i as int, *line_info));
                    assert forall|q: int| 0 <= q < i implies !named_before(fields@, q) by {
                        if named_before(fields@, q) {
                            let w = choose|w: int| 0 <= w < q && #[trigger] fields@[w].name@ == fields@[q].name@;
                            assert(has_duplicate_field(fields@, i as int));
                        }
                    }
                }
                return Err(e);
            },
        }
        compiled.push(ArtifactFieldSchema { name: fields[i].name.clone(), field_type: copy_type(&fields[i].field_type) });
        proof {
            assert forall|a: int, b: int| 0 <= a < b < i + 1 implies #[trigger] fields@[a].name@ != #[trigger] fields@[b].name@ by {
                if b < i {
                    assert(!has_duplicate_field(fields@, i as int));
                    assert(!(0 <= a < b < i && fields@[a].name@ == fields@[b].name@));
                }
            }
        }
        i = i + 1;
    }
    Ok(ArtifactSchema { name: owned(name), fields: compiled, methods: Vec::new(), line_info: *line_info })
}

/// The artifact instance a value holds.
pub fn expect_artifact_handle<'a>(value: &'a Value, line_info: &Option<LineInfo>) -> (r: Result<&'a ArtifactValue, EvalError>)
    ensures
        match *value {
            Value::Artifact(a) => r == Ok::<&ArtifactValue, EvalError>(&a),
            _ => is_invalid(r, "Expected artifact value, found "@ + kind_name(value@), *line_info),
        },
{
    match value {
        Value::Artifact(a) => Ok(a),
        _ => {
            let mut m = owned("Expected artifact value, found ");
            let k = describe_value(value);
            push_str(&mut m, k.as_str());
            Err(EvalError::InvalidOperation(m, *line_info))
        },
    }
}

/// The artifact instance an evaluation result holds.
pub fn expect_artifact_from_eval(result: EvalResult, line_info: &Option<LineInfo>) -> (r: Result<ArtifactValue, EvalError>)
    ensures
        match result {
            EvalResult::Data(Value::Artifact(a)) => r == Ok::<ArtifactValue, EvalError>(a),
            EvalResult::Data(v) => is_invalid(r, "Expected artifact value, found "@ + kind_name(v@), *line_info),
            _ => is_invalid(r, "Expected artifact value but received a control-flow result"@, *line_info),
        },
{
    match result {
        EvalResult::Data(Value::Artifact(a)) => Ok(a),
        EvalResult::Data(v) => {
            let mut m = owned("Expected artifact value, found ");
            let k = describe_value(&v);
            push_str(&mut m, k.as_str());
            Err(EvalError::InvalidOperation(m, *line_info))
        },
        _ => Err(EvalError::InvalidOperation(owned("Expected artifact value but received a control-flow result"), *line_info)),
    }
}

/// The schema of the artifact type `artifact_name`.
pub fn lookup_schema_by_name<'a>(env: &'a Environment, artifact_name: &str, line_info: &Option<LineInfo>) -> (r: Result<&'a ArtifactSchema, EvalError>)
    ensures
        match schema_index(env.artifacts(), artifact_name@) {
            Some(i) => r matches Ok(s) && *s == env.artifacts()[i],
            None => r is Err,
        },
        match r {
            Ok(s) => s.name@ == artifact_name@ && exists|i: int| 0 <= i < env.artifacts().len() && env.artifacts()[i] == *s,
            Err(e) => !artifact_defined(*env, artifact_name@) && is_invalid(
                Err::<(), EvalError>(e),
                "Artifact type "@ + artifact_name@ + " is not defined"@,
                *line_info,
            ),
        },
{
    match env.get_artifact(artifact_name) {
        Some(s) => Ok(s),
        None => {
            let mut m = owned("Artifact type ");
            push_str(&mut m, artifact_name);
            push_str(&mut m, " is not defined");
            Err(EvalError::InvalidOperation(m, *line_info))
        },
    }
}

/// The schema of an instance's artifact type.
pub fn lookup_schema_from_handle<'a>(env: &'a Environment, handle: &ArtifactValue, line_info: &Option<LineInfo>) -> (r: Result<&'a ArtifactSchema, EvalError>)
    ensures
        match r {
            Ok(s) => s.name@ == handle.artifact@ && exists|i: int| 0 <= i < env.artifacts().len() && env.artifacts()[i] == *s,
            Err(_) => !artifact_defined(*env, handle.artifact@),
        },
{
    lookup_schema_by_name(env, handle.artifact.as_str(), line_info)
}

/// The error for a field that the schema does not have; it lists the
/// fields that exist.
pub fn missing_field_error(schema: &ArtifactSchema, field: &str, line_info: &Option<LineInfo>) -> (e: EvalError)
    ensures
        e matches EvalError::InvalidOperation(m, l) && l == *line_info && m@ == "Field '"@ + field@
            + "' does not exist on artifact "@ + schema.name@ + " (available: ["@
            + join(schema.field_names_spec(), ", "@) + "])"@,
{
    let names = schema.field_names();
    let available = join_strings(names.as_slice(), ", ");
    proof {
        assert(strings_view(names@) =~= schema.field_names_spec());
    }
    let mut m = owned("Field '");
    push_str(&mut m, field);
    push_str(&mut m, "' does not exist on artifact ");
    push_str(&mut m, schema.name.as_str());
    push_str(&mut m, " (available: [");
    push_str(&mut m, available.as_str());
    push_str(&mut m, "])");
    EvalError::InvalidOperation(m, *line_info)
}

/// The schema field called `field`.
pub fn ensure_field_exists<'a>(schema: &'a ArtifactSchema, field: &str, line_info: &Option<LineInfo>) -> (r: Result<&'a ArtifactFieldSchema, EvalError>)
    ensures
        match r {
            Ok(f) => f.name@ == field@ && exists|i: int| 0 <= i < schema.fields@.len() && schema.fields@[i] == *f,
            Err(e) => forall|j: int| 0 <= j < schema.fields@.len() ==> #[trigger] schema.fields@[j].name@ != field@,
        },
{
    match schema.field(field) {
        Some(f) => Ok(f),
        None => Err(missing_field_error(schema, field, line_info)),
    }
}

/// The value of field `field` of an instance whose type is defined and
/// has that field.
pub fn read_artifact_field(env: &Environment, handle: &ArtifactValue, field: &str, line_info: &Option<LineInfo>) -> (r: Result<Value, EvalError>)
    ensures
        r matches Ok(v) ==> artifact_defined(*env, handle.artifact@) && entry_get(handle.fields@, field@) == Some(v@),
        !artifact_defined(*env, handle.artifact@) ==> r is Err,
        entry_get(handle.fields@, field@) is None ==> r is Err,
{
    let schema = lookup_schema_from_handle(env, handle, line_info)?;
    proof {
        let i = choose|i: int| 0 <= i < env.artifacts().len() && env.artifacts()[i] == *schema;
        assert(env.artifacts()[i].name@ == handle.artifact@);
    }
    ensure_field_exists(schema, field, line_info)?;
    match lexicon_get(&handle.fields, field) {
        Some(v) => Ok(v),
        None => Err(missing_field_error(schema, field, line_info)),
    }
}

/// A new instance of artifact `artifact_name` with the given fields, in order.
pub fn instantiate_artifact_handle(artifact_name: &str, fields: Vec<(String, Value)>) -> (a: ArtifactValue)
    ensures
        a.artifact@ == artifact_name@,
        a.fields@ == fields@,
{
    ArtifactValue { artifact: owned(artifact_name), fields }
}

/// The variable and field names of `v.f.g...`; `None` unless the chain
/// starts at a variable.
pub open spec fn field_chain(ast: AST) -> Option<(Seq<char>, Seq<Seq<char>>)>
    decreases ast,
{
    match ast {
        AST::Var(name, _) => Some((name@, Seq::empty())),
        AST::FieldAccess { target, field, .. } => match field_chain(*target) {
            Some((base, chain)) => Some((base, chain.push(field@))),
            None => None,
        },
        _ => None,
    }
}

/// The variable a field-access chain starts at, and the field names.
pub fn collect_field_chain(ast: &AST) -> (r: Option<(String, Vec<String>)>)
    ensures
        match field_chain(*ast) {
            Some((base, chain)) => r matches Some((b, c)) && b@ == base && strings_view(c@) == chain,
            None => r is None,
        },
    decreases ast,
{
    match ast {
        AST::Var(name, _) => {
            let v: Vec<String> = Vec::new();
            assert(strings_view(v@) =~= Seq::<Seq<char>>::empty());
            Some((name.clone(), v))
        },
        AST::FieldAccess { target, field, .. } => {
            match collect_field_chain(target) {
                Some((base, chain)) => {
                    let mut chain = chain;
                    let ghost before = strings_view(chain@);
                    chain.push(field.clone());
                    assert(strings_view(chain@) =~= before.push(field@));
                    Some((base, chain))
                },
                None => None,
            }
        },
        _ => None,
    }
}

/// Whether two values are equal under the artifact schemas `schemas`,
/// `None` where comparing them is an error: omens, arcana, runes, glyphs
/// and abyss by value; scrolls of the same length element by element, in
/// order; lexicons of the same size entry by entry, each key of the first
/// looked up in the second; instances of the same artifact type field by
/// field in the order of its schema (an undefined type or a missing field
/// is an error). Values of different kinds are unequal. Aether values are
/// compared by the host and not described here.
pub open spec fn deep_eq(schemas: Seq<ArtifactSchema>, a: ValueV, b: ValueV) -> Option<bool>
    decreases a, 3nat,
{
    match a {
        ValueV::Omen(x) => match b {
            ValueV::Omen(y) => Some(x == y),
            _ => Some(false),
        },
        ValueV::Arcana(x) => match b {
            ValueV::Arcana(y) => Some(x == y),
            _ => Some(false),
        },
        ValueV::Rune(x) => match b {
            ValueV::Rune(y) => Some(x == y),
            _ => Some(false),
        },
        ValueV::Abyss => Some(b is Abyss),
        ValueV::Glyph(x) => match b {
            ValueV::Glyph(y) => Some(x == y),
            _ => Some(false),
        },
        ValueV::Aether(_) => Some(false),
        ValueV::Scroll(xs) => match b {
            ValueV::Scroll(ys) => if xs.len() != ys.len() { Some(false) } else { items_eq(schemas, xs, ys) },
            _ => Some(false),
        },
        ValueV::Lexicon(xs) => match b {
            ValueV::Lexicon(ys) => if xs.len() != ys.len() { Some(false) } else { entries_eq(schemas, xs, ys) },
            _ => Some(false),
        },
        ValueV::Artifact(n, xs) => match b {
            ValueV::Artifact(m, ys) => if n != m {
                Some(false)
            } else {
                match schema_index(schemas, n) {
                    Some(i) => if 0 <= i < schemas.len() {
                        fields_eq(schemas, schemas[i].field_names_spec(), xs, ys)
                    } else {
                        None
                    },
                    None => None,
                }
            },
            _ => Some(false),
        },
    }
}

/// Element by element, stopping at the first pair that is unequal or
/// cannot be compared.
pub open spec fn items_eq(schemas: Seq<ArtifactSchema>, xs: Seq<ValueV>, ys: Seq<ValueV>) -> Option<bool>
    decreases xs, 2nat,
{
    if xs.len() == 0 || ys.len() == 0 {
        Some(true)
    } else {
        match deep_eq(schemas, xs[0], ys[0]) {
            Some(true) => items_eq(schemas, xs.drop_first(), ys.drop_first()),
            other => other,
        }
    }
}

/// Entry by entry of `xs`, each looked up in `ys` by key.
pub open spec fn entries_eq(schemas: Seq<ArtifactSchema>, xs: Seq<(Seq<char>, ValueV)>, ys: Seq<(Seq<char>, ValueV)>) -> Option<bool>
    decreases xs, 2nat,
{
    if xs.len() == 0 {
        Some(true)
    } else {
        match view_index(ys, xs[0].0) {
            Some(j) => if 0 <= j < ys.len() {
                match deep_eq(schemas, xs[0].1, ys[j].1) {
                    Some(true) => entries_eq(schemas, xs.drop_first(), ys),
                    other => other,
                }
            } else {
                Some(false)
            },
            None => Some(false),
        }
    }
}

/// Field by field, in the order of `names`; a field missing on either side
/// cannot be compared.
pub open spec fn fields_eq(
    schemas: Seq<ArtifactSchema>,
    names: Seq<Seq<char>>,
    xs: Seq<(Seq<char>, ValueV)>,
    ys: Seq<(Seq<char>, ValueV)>,
) -> Option<bool>
    decreases xs, names.len(),
{
    if names.len() == 0 {
        Some(true)
    } else {
        match (view_index(xs, names[0]), view_index(ys, names[0])) {
            (Some(i), Some(j)) => if 0 <= i < xs.len() && 0 <= j < ys.len() {
                match deep_eq(schemas, xs[i].1, ys[j].1) {
                    Some(true) => fields_eq(schemas, names.drop_first(), xs, ys),
                    other => other,
                }
            } else {
                None
            },
            _ => None,
        }
    }
}

proof fn lemma_view_index_bounds(s: Seq<(Seq<char>, ValueV)>, key: Seq<char>)
    ensures
        view_index(s, key) matches Some(i) ==> 0 <= i < s.len() && s[i].0 == key,
    decreases s.len(),
{
    if s.len() > 0 {
        lemma_view_index_bounds(s.drop_last(), key);
        if let Some(i) = view_index(s.drop_last(), key) {
            assert(s.drop_last()[i] == s[i]);
        }
    }
}

/// Whether two instances are equal: the same artifact type, and equal
/// values in every field of its schema.
#[verifier::loop_isolation(false)]
pub fn compare_artifacts<M: AetherOps>(
    env: &Environment,
    math: &M,
    left: &ArtifactValue,
    right: &ArtifactValue,
    line_info: &Option<LineInfo>,
) -> (r: Result<bool, EvalError>)
    ensures
        entries_free(entries_view(left.fields@)) ==> match deep_eq(
            env.artifacts(),
            ValueV::Artifact(left.artifact@, entries_view(left.fields@)),
            ValueV::Artifact(right.artifact@, entries_view(right.fields@)),
        ) {
            Some(b) => r == Ok::<bool, EvalError>(b),
            None => r is Err,
        },
        left.artifact@ != right.artifact@ ==> r == Ok::<bool, EvalError>(false),
    decreases left, 1nat,
{
    let ghost schemas = env.artifacts();
    let ghost xs = entries_view(left.fields@);
    let ghost ys = entries_view(right.fields@);
    if !str_eq(left.artifact.as_str(), right.artifact.as_str()) {
        return Ok(false);
    }
    let schema = lookup_schema_by_name(env, left.artifact.as_str(), line_info)?;
    let ghost si = schema_index(schemas, left.artifact@).unwrap();
    let ghost names = schema.field_names_spec();
    proof {
        crate::env::lemma_schema_index_bounds(schemas, left.artifact@);
        assert(*schema == schemas[si]);
        lemma_entries_view_len(left.fields@);
        lemma_entries_view_len(right.fields@);
        assert(names.skip(0) =~= names);
    }
    let mut i: usize = 0;
    while i < schema.fields.len()
        invariant
            i <= schema.fields@.len(),
            names == schema.field_names_spec(),
            entries_free(xs) ==> fields_eq(schemas, names, xs, ys) == fields_eq(schemas, names.skip(i as int), xs, ys),
        decreases schema.fields@.len() - i,
    {
        let name = schema.fields[i].name.as_str();
        proof {
            assert(names.skip(i as int)[0] == name@);
            assert(names.skip(i as int).drop_first() =~= names.skip(i + 1));
            lemma_view_index(left.fields@, name@);
            lemma_view_index(right.fields@, name@);
            lemma_entry_index(left.fields@, name@);
            lemma_entry_index(right.fields@, name@);
        }
        let lp = match lexicon_find(&left.fields, name) {
            Some(p) => p,
            None => {
                return Err(missing_field_error(schema, name, line_info));
            },
        };
        let rp = match lexicon_find(&right.fields, name) {
            Some(p) => p,
            None => {
                return Err(missing_field_error(schema, name, line_info));
            },
        };
        proof {
            if entries_free(xs) {
                lemma_entries_free_take(xs, lp as int);
            }
        }
        assert(decreases_to!(left => left.fields@[lp as int].1));
        if !values_equal(env, math, &left.fields[lp].1, &right.fields[rp].1, line_info)? {
            return Ok(false);
        }
        i = i + 1;
    }
    proof {
        assert(names.skip(i as int).len() == 0);
    }
    Ok(true)
}

/// Whether two values are equal, as [`deep_eq`] describes it; aether
/// values are compared by the host, within the machine epsilon.
#[verifier::loop_isolation(false)]
pub fn values_equal<M: AetherOps>(env: &Environment, math: &M, left: &Value, right: &Value, line_info: &Option<LineInfo>) -> (r: Result<bool, EvalError>)
    ensures
        aether_free(left@) ==> match deep_eq(env.artifacts(), left@, right@) {
            Some(b) => r == Ok::<bool, EvalError>(b),
            None => r is Err,
        },
        (left@ is Aether && !(right@ is Aether)) ==> r == Ok::<bool, EvalError>(false),
        (left@ is Aether && right@ is Aether) ==> r is Ok,
    decreases left, 2nat,
{
    match (left, right) {
        (Value::Omen(l), Value::Omen(rv)) => Ok(*l == *rv),
        (Value::Arcana(l), Value::Arcana(rv)) => Ok(*l == *rv),
        (Value::Aether(l), Value::Aether(rv)) => Ok(math.approx_eq(*l, *rv)),
        (Value::Rune(l), Value::Rune(rv)) => Ok(str_eq(l.as_str(), rv.as_str())),
        (Value::Abyss, Value::Abyss) => Ok(true),
        (Value::Glyph(l), Value::Glyph(rv)) => Ok(crate::ast::type_eq(l, rv)),
        (Value::Artifact(l), Value::Artifact(rv)) => {
            assert(decreases_to!(left => l));
            compare_artifacts(env, math, l, rv, line_info)
        },
        (Value::Scroll(l), Value::Scroll(rv)) => {
            let ghost xs = values_view(l@);
            let ghost ys = values_view(rv@);
            proof {
                lemma_values_view_len(l@);
                lemma_values_view_len(rv@);
            }
            if l.len() != rv.len() {
                return Ok(false);
            }
            proof {
                assert(xs.skip(0) =~= xs);
                assert(ys.skip(0) =~= ys);
            }
            let mut i: usize = 0;
            while i < l.len()
                invariant
                    i <= l@.len(),
                    l@.len() == rv@.len(),
                    aether_free(left@) ==> items_eq(env.artifacts(), xs, ys) == items_eq(
                        env.artifacts(),
                        xs.skip(i as int),
                        ys.skip(i as int),
                    ),
                decreases l@.len() - i,
            {
                proof {
                    assert(xs.skip(i as int)[0] == xs[i as int]);
                    assert(ys.skip(i as int)[0] == ys[i as int]);
                    assert(xs.skip(i as int).drop_first() =~= xs.skip(i + 1));
                    assert(ys.skip(i as int).drop_first() =~= ys.skip(i + 1));
                    if aether_free(left@) {
                        lemma_items_free_take(xs, i as int);
                    }
                }
                assert(decreases_to!(left => l@[i as int]));
                if !values_equal(env, math, &l[i], &rv[i], line_info)? {
                    return Ok(false);
                }
                i = i + 1;
            }
            proof {
                assert(xs.skip(i as int).len() == 0);
            }
            Ok(true)
        },
        (Value::Lexicon(l), Value::Lexicon(rv)) => {
            let ghost xs = entries_view(l@);
            let ghost ys = entries_view(rv@);
            proof {
                lemma_entries_view_len(l@);
                lemma_entries_view_len(rv@);
            }
            if l.len() != rv.len() {
                return Ok(false);
            }
            proof {
                assert(xs.skip(0) =~= xs);
            }
            let mut i: usize = 0;
            while i < l.len()
                invariant
                    i <= l@.len(),
                    l@.len() == rv@.len(),
                    aether_free(left@) ==> entries_eq(env.artifacts(), xs, ys) == entries_eq(
                        env.artifacts(),
                        xs.skip(i as int),
                        ys,
                    ),
                decreases l@.len() - i,
            {
                proof {
                    assert(xs.skip(i as int)[0] == xs[i as int]);
                    assert(xs.skip(i as int).drop_first() =~= xs.skip(i + 1));
                    lemma_view_index(rv@, l@[i as int].0@);
                    lemma_entry_index(rv@, l@[i as int].0@);
                    lemma_view_index_bounds(ys, l@[i as int].0@);
                    if aether_free(left@) {
                        lemma_entries_free_take(xs, i as int);
                    }
                }
                match lexicon_find(rv, l[i].0.as_str()) {
                    Some(p) => {
                        assert(decreases_to!(left => l@[i as int].1));
                        if !values_equal(env, math, &l[i].1, &rv[p].1, line_info)? {
                            return Ok(false);
                        }
                    },
                    None => {
                        return Ok(false);
                    },
                }
                i = i + 1;
            }
            proof {
                assert(xs.skip(i as int).len() == 0);
            }
            Ok(true)
        },
        _ => Ok(false),
    }
}

} // verus!
