//! The standard library: the built-in functions and the global
//! environment programs start in.
pub mod collections;
pub mod io;
pub mod runtime;

use vstd::prelude::*;

use crate::ast::{Type, TypeV};
use crate::env::{
    lemma_values_view_len, values_view, var_lookup, Builtin, BuiltinFunction, Callable, Environment, Value, ValueV,
};
use crate::text::{owned, strings_view};

verus! {

/// The names under which the built-in functions are bound, in order.
pub open spec fn builtin_names() -> Seq<Seq<char>> {
    seq!["unveil"@, "summon"@, "measure"@, "inscribe"@, "retract"@, "expunge"@, "contents"@, "perish"@]
}

/// The built-in function bound under each name.
pub open spec fn builtin_for(i: int) -> Builtin {
    if i == 0 { Builtin::Unveil }
    else if i == 1 { Builtin::Summon }
    else if i == 2 { Builtin::Measure }
    else if i == 3 { Builtin::Inscribe }
    else if i == 4 { Builtin::Retract }
    else if i == 5 { Builtin::Expunge }
    else if i == 6 { Builtin::Contents }
    else { Builtin::Perish }
}

fn builtin(name: &str, func: Builtin) -> (r: (String, Callable))
    ensures
        r.0@ == name@,
        r.1 matches Callable::Builtin(b) && b.name@ == name@ && b.func == func,
{
    (owned(name), Callable::Builtin(BuiltinFunction { name: owned(name), func }))
}

/// Every built-in function under its name.
pub fn get_all_builtins() -> (v: Vec<(String, Callable)>)
    ensures
        v@.len() == builtin_names().len(),
        forall|i: int| 0 <= i < v@.len() ==> (#[trigger] v@[i]).0@ == builtin_names()[i]
            && (v@[i].1 matches Callable::Builtin(b) && b.name@ == builtin_names()[i] && b.func == builtin_for(i)),
{
    let mut v: Vec<(String, Callable)> = Vec::new();
    v.push(builtin("unveil", Builtin::Unveil));
    v.push(builtin("summon", Builtin::Summon));
    v.push(builtin("measure", Builtin::Measure));
    v.push(builtin("inscribe", Builtin::Inscribe));
    v.push(builtin("retract", Builtin::Retract));
    v.push(builtin("expunge", Builtin::Expunge));
    v.push(builtin("contents", Builtin::Contents));
    v.push(builtin("perish", Builtin::Perish));
    v
}

/// The names of the type glyphs, in order.
pub open spec fn glyph_names() -> Seq<Seq<char>> {
    seq!["arcana"@, "aether"@, "rune"@, "omen"@, "abyss"@, "scroll"@, "lexicon"@, "materia"@, "glyph"@]
}

/// The type each glyph stands for.
pub open spec fn glyph_type(i: int) -> TypeV {
    if i == 0 { TypeV::Arcana }
    else if i == 1 { TypeV::Aether }
    else if i == 2 { TypeV::Rune }
    else if i == 3 { TypeV::Omen }
    else if i == 4 { TypeV::Abyss }
    else if i == 5 { TypeV::Scroll }
    else if i == 6 { TypeV::Lexicon }
    else if i == 7 { TypeV::Materia }
    else { TypeV::Glyph }
}

/// The glyph names are pairwise different.
proof fn lemma_glyph_names_distinct()
    ensures
        forall|i: int, j: int| 0 <= i < j < 9 ==> #[trigger] glyph_names()[i] != #[trigger] glyph_names()[j],
{
    reveal_strlit("arcana");
    reveal_strlit("aether");
    reveal_strlit("rune");
    reveal_strlit("omen");
    reveal_strlit("abyss");
    reveal_strlit("scroll");
    reveal_strlit("lexicon");
    reveal_strlit("materia");
    reveal_strlit("glyph");
    assert forall|i: int, j: int| 0 <= i < j < 9 implies #[trigger] glyph_names()[i] != #[trigger] glyph_names()[j] by {
        let a = glyph_names()[i];
        let b = glyph_names()[j];
        if a.len() == b.len() {
            assert(a[0] != b[0] || a[1] != b[1] || a[a.len() - 1] != b[b.len() - 1]);
        }
    }
}

/// The glyph of the `i`-th type.
fn glyph_at(i: usize) -> (r: (String, Type))
    requires
        i < 9,
    ensures
        r.0@ == glyph_names()[i as int],
        r.1@ == glyph_type(i as int),
{
    if i == 0 { (owned("arcana"), Type::Arcana) }
    else if i == 1 { (owned("aether"), Type::Aether) }
    else if i == 2 { (owned("rune"), Type::Rune) }
    else if i == 3 { (owned("omen"), Type::Omen) }
    else if i == 4 { (owned("abyss"), Type::Abyss) }
    else if i == 5 { (owned("scroll"), Type::Scroll) }
    else if i == 6 { (owned("lexicon"), Type::Lexicon) }
    else if i == 7 { (owned("materia"), Type::Materia) }
    else { (owned("glyph"), Type::Glyph) }
}

/// Binds each type name to its glyph: an immutable variable of type
/// `glyph` whose value is the type.
pub fn seed_builtin_glyphs(env: &mut Environment)
    requires
        old(env).scopes().len() >= 1,
    ensures
        forall|i: int| 0 <= i < glyph_names().len() ==> (var_lookup(final(env).scopes(), #[trigger] glyph_names()[i])
            matches Some(info) && info.value@ == ValueV::Glyph(glyph_type(i)) && info.var_type@ == TypeV::Glyph
            && !info.is_morph),
        final(env).scopes().len() == old(env).scopes().len(),
        final(env).functions() == old(env).functions(),
        final(env).artifacts() == old(env).artifacts(),
        final(env).budget() == old(env).budget(),
{
    proof {
        lemma_glyph_names_distinct();
    }
    let mut i: usize = 0;
    while i < 9
        invariant
            i <= 9,
            old(env).scopes().len() >= 1,
            env.scopes().len() == old(env).scopes().len(),
            env.functions() == old(env).functions(),
            env.artifacts() == old(env).artifacts(),
            env.budget() == old(env).budget(),
            forall|k: int| 0 <= k < i ==> (var_lookup(env.scopes(), #[trigger] glyph_names()[k])
                matches Some(info) && info.value@ == ValueV::Glyph(glyph_type(k)) && info.var_type@ == TypeV::Glyph
                && !info.is_morph),
        decreases 9 - i,
    {
        let (name, t) = glyph_at(i);
        let ghost before = env.scopes();
        let ghost key = name;
        let value = Value::Glyph(t);
        let ghost info = crate::env::VarInfo { value, var_type: Type::Glyph, is_morph: false, line_info: None };
        env.set_var(name, value, Type::Glyph, false, None);
        proof {
            lemma_glyph_names_distinct();
            assert forall|k: int| 0 <= k < i + 1 implies (var_lookup(env.scopes(), #[trigger] glyph_names()[k])
                matches Some(info) && info.value@ == ValueV::Glyph(glyph_type(k)) && info.var_type@ == TypeV::Glyph
                && !info.is_morph) by {
                crate::env::lemma_set_var_lookup(before, key, info, glyph_names()[k]);
                if k < i {
                    assert(glyph_names()[k] != glyph_names()[i as int]);
                }
            }
        }
        i = i + 1;
    }
}

/// The environment a program starts in: one scope holding the type
/// glyphs, and the built-in functions.
pub open spec fn is_global_environment(env: Environment) -> bool {
    &&& env.scopes().len() == 1
    &&& env.artifacts().len() == 0
    &&& env.budget() == u64::MAX
    &&& forall|i: int| 0 <= i < glyph_names().len() ==> (var_lookup(env.scopes(), #[trigger] glyph_names()[i])
        matches Some(info) && info.value@ == ValueV::Glyph(glyph_type(i)) && info.var_type@ == TypeV::Glyph
        && !info.is_morph)
    &&& env.functions().len() == builtin_names().len()
    &&& forall|i: int| 0 <= i < builtin_names().len() ==> (#[trigger] env.functions()[i]).0@ == builtin_names()[i]
        && (env.functions()[i].1 matches Callable::Builtin(b) && b.func == builtin_for(i))
}

/// The environment a program starts in (see [`is_global_environment`]).
pub fn create_global_environment() -> (env: Environment)
    ensures
        is_global_environment(env),
{
    let builtins = get_all_builtins();
    let mut env = Environment::with_functions(builtins);
    seed_builtin_glyphs(&mut env);
    env
}

/// `after` is `before` with `invocation` bound to the script's arguments,
/// as runes: an immutable scroll.
pub open spec fn invoked(before: Environment, after: Environment, args: Seq<String>) -> bool {
    &&& var_lookup(after.scopes(), "invocation"@) matches Some(info) && info.value@ == ValueV::Scroll(
        Seq::new(args.len(), |i: int| ValueV::Rune(args[i]@)),
    ) && info.var_type@ == TypeV::Scroll && !info.is_morph
    &&& after.scopes().len() == before.scopes().len()
    &&& after.functions() == before.functions()
    &&& after.artifacts() == before.artifacts()
    &&& after.budget() == before.budget()
}

/// Binds `invocation` to the script's arguments, a scroll of runes.
pub fn set_invocation(env: &mut Environment, args: &[String])
    requires
        old(env).scopes().len() >= 1,
    ensures
        invoked(*old(env), *final(env), args@),
{
    let mut items: Vec<Value> = Vec::new();
    let mut i: usize = 0;
    while i < args.len()
        invariant
            i <= args@.len(),
            items@.len() == i,
            forall|k: int| 0 <= k < i ==> #[trigger] crate::env::value_view(items@[k]) == ValueV::Rune(args@[k]@),
        decreases args@.len() - i,
    {
        items.push(Value::Rune(args[i].clone()));
        i = i + 1;
    }
    proof {
        lemma_values_view_len(items@);
        assert(values_view(items@) =~= Seq::new(args@.len(), |i: int| ValueV::Rune(args@[i]@)));
    }
    let name = owned("invocation");
    let ghost key = name;
    let value = Value::Scroll(items);
    let ghost info = crate::env::VarInfo { value, var_type: Type::Scroll, is_morph: false, line_info: None };
    let ghost before = env.scopes();
    env.set_var(name, value, Type::Scroll, false, None);
    proof {
        crate::env::lemma_set_var_lookup(before, key, info, "invocation"@);
    }
}

} // verus!
