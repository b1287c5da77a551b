//! The collection rituals: `measure`, `inscribe`, `retract`, `expunge`
//! and `contents`.
use vstd::prelude::*;

use crate::ast::LineInfo;
use crate::env::{
    copy_value, entries_view, lemma_values_view_len, value_view, values_view, var_lookup, var_position, var_value, CallArg,
    Environment, Value, ValueV,
};
use crate::eval::collections::{lemma_remove_view, lexicon_remove, view_remove};
use crate::eval::result::{EvalError, EvalResult, EvalResultV};
use crate::eval::values::{is_invalid, is_type_error};
use crate::text::{owned, push_str};

verus! {

/// The value a call argument carries; a control-flow signal is refused,
/// naming the ritual in `context`.
pub fn result_to_value(result: EvalResult, line: &Option<LineInfo>, context: &str) -> (r: Result<Value, EvalError>)
    ensures
        match result {
            EvalResult::Data(v) => r == Ok::<Value, EvalError>(v),
            _ => is_invalid(r, context@ + " cannot accept control-flow results"@, *line),
        },
{
    match result {
        EvalResult::Data(v) => Ok(v),
        _ => {
            let mut m = owned(context);
            push_str(&mut m, " cannot accept control-flow results");
            Err(EvalError::InvalidOperation(m, *line))
        },
    }
}

/// What `measure` promises of its result (see [`measure`]).
pub open spec fn measure_post(args: Seq<CallArg>, line: Option<LineInfo>, r: Result<EvalResult, EvalError>) -> bool {
    &&& (args.len() != 1 ==> is_invalid(r, "measure() expects exactly one argument"@, line))
    &&& (args.len() == 1 ==> match args[0].value {
                EvalResult::Data(Value::Scroll(items)) => r matches Ok(v) && v@ == EvalResultV::Data(ValueV::Arcana(items@.len() as i64)),
                EvalResult::Data(Value::Lexicon(entries)) => r matches Ok(v) && v@ == EvalResultV::Data(
                    ValueV::Arcana(entries@.len() as i64),
                ),
                EvalResult::Data(_) => is_type_error(r, "measure() requires a scroll or lexicon"@, line),
                _ => is_invalid(r, "measure()"@ + " cannot accept control-flow results"@, line),
            })
}

/// `measure(c)`: the number of elements of a scroll or entries of a
/// lexicon.
pub fn measure(args: Vec<CallArg>, line: Option<LineInfo>) -> (r: Result<EvalResult, EvalError>)
    ensures
        measure_post(args@, line, r),
{
    if args.len() != 1 {
        return Err(EvalError::InvalidOperation(owned("measure() expects exactly one argument"), line));
    }
    let mut args = args;
    let arg = args.remove(0);
    let value = result_to_value(arg.value, &line, "measure()")?;
    match value {
        Value::Scroll(items) => Ok(EvalResult::Data(Value::Arcana(items.len() as i64))),
        Value::Lexicon(entries) => Ok(EvalResult::Data(Value::Arcana(entries.len() as i64))),
        _ => Err(EvalError::TypeError(owned("measure() requires a scroll or lexicon"), line)),
    }
}

/// Why a call argument cannot be the morph variable a ritual changes:
/// `None` when it is one.
pub open spec fn target_problem(env: Environment, var_name: Option<String>) -> Option<Seq<char>> {
    match var_name {
        None => Some("no variable"@),
        Some(n) => match var_lookup(env.scopes(), n@) {
            None => Some("undefined"@),
            Some(info) => if !info.is_morph { Some("not morph"@) } else { None },
        },
    }
}

/// The morph variable named by a ritual's target argument, checked: it
/// must be a bare variable, defined, and morph.
fn morph_target(env: &Environment, var_name: Option<String>, line: &Option<LineInfo>, ritual: &str, kind: &str) -> (r: Result<(String, Value), EvalError>)
    ensures
        match var_name {
            None => is_invalid(r, ritual@ + "() target must be a morph "@ + kind@ + " variable"@, *line),
            Some(n) => match var_lookup(env.scopes(), n@) {
                None => r matches Err(EvalError::UndefinedVariable(m, l)) && m@ == n@ && l == *line,
                Some(info) => if !info.is_morph {
                    is_invalid(r, ritual@ + "() target must be morph"@, *line)
                } else {
                    r matches Ok((name, v)) && name@ == n@ && v@ == value_view(info.value)
                },
            },
        },
{
    let name = match var_name {
        Some(n) => n,
        None => {
            let mut m = owned(ritual);
            push_str(&mut m, "() target must be a morph ");
            push_str(&mut m, kind);
            push_str(&mut m, " variable");
            return Err(EvalError::InvalidOperation(m, *line));
        },
    };
    match env.get_var(name.as_str()) {
        None => Err(EvalError::UndefinedVariable(name, *line)),
        Some(info) => {
            if !info.is_morph {
                let mut m = owned(ritual);
                push_str(&mut m, "() target must be morph");
                Err(EvalError::InvalidOperation(m, *line))
            } else {
                let v = copy_value(&info.value);
                Ok((name, v))
            }
        },
    }
}

/// What `inscribe` promises of its result and the environment (see [`inscribe`]).
pub open spec fn inscribe_post(before: Environment, after: Environment, args: Seq<CallArg>, line: Option<LineInfo>, r: Result<EvalResult, EvalError>) -> bool {
    &&& (args.len() != 2 ==> is_invalid(r, "inscribe() expects a target scroll and a value"@, line))
    &&& (args.len() == 2 && target_problem(before, args[0].var_name) is Some ==> r is Err)
    &&& (args.len() == 2 && target_problem(before, args[0].var_name) is None ==> {
                let name = args[0].var_name.unwrap()@;
                match var_value(before.scopes(), name) {
                    Some(ValueV::Scroll(items)) => match args[1].value {
                        EvalResult::Data(v) => r matches Ok(res) && res@ == EvalResultV::Data(ValueV::Abyss)
                            && var_value(after.scopes(), name) == Some(ValueV::Scroll(items.push(v@)))
                            && target_problem(after, args[0].var_name) is None,
                        _ => is_invalid(r, "inscribe()"@ + " cannot accept control-flow results"@, line),
                    },
                    _ => is_type_error(r, "inscribe() target must be a scroll"@, line),
                }
            })
    &&& (args.len() >= 1 && args[0].var_name is Some ==> forall|o: Seq<char>| o != args[0].var_name.unwrap()@
        ==> #[trigger] var_lookup(after.scopes(), o) == var_lookup(before.scopes(), o))
    &&& (r is Err ==> after.scopes() == before.scopes())
    &&& (after.scopes().len() == before.scopes().len())
    &&& (after.functions() == before.functions())
    &&& (after.artifacts() == before.artifacts())
    &&& (after.budget() == before.budget())
}

/// `inscribe(s, v)`: appends `v` to the morph scroll variable `s`.
pub fn inscribe(env: &mut Environment, args: Vec<CallArg>, line: Option<LineInfo>) -> (r: Result<EvalResult, EvalError>)
    ensures
        inscribe_post(*old(env), *final(env), args@, line, r),
{
    if args.len() != 2 {
        return Err(EvalError::InvalidOperation(owned("inscribe() expects a target scroll and a value"), line));
    }
    let ghost a = args@;
    let mut args = args;
    let target = args.remove(0);
    let value_arg = args.remove(0);
    assert(target == a[0] && value_arg == a[1]);
    let (name, current) = morph_target(env, target.var_name, &line, "inscribe", "scroll")?;
    match current {
        Value::Scroll(items) => {
            let v = result_to_value(value_arg.value, &line, "inscribe()")?;
            let ghost old_items = items@;
            let ghost vv = v@;
            let mut items = items;
            items.push(v);
            proof {
                lemma_values_view_len(old_items);
                lemma_values_view_len(items@);
                assert(values_view(items@) =~= values_view(old_items).push(vv));
            }
            let _ = env.assign_var(name.as_str(), Value::Scroll(items));
            Ok(EvalResult::Data(Value::Abyss))
        },
        _ => Err(EvalError::TypeError(owned("inscribe() target must be a scroll"), line)),
    }
}

/// What `retract` promises of its result and the environment (see [`retract`]).
pub open spec fn retract_post(before: Environment, after: Environment, args: Seq<CallArg>, line: Option<LineInfo>, r: Result<EvalResult, EvalError>) -> bool {
    &&& (args.len() != 1 ==> is_invalid(r, "retract() expects only the target scroll"@, line))
    &&& (args.len() == 1 && target_problem(before, args[0].var_name) is Some ==> r is Err)
    &&& (args.len() == 1 && target_problem(before, args[0].var_name) is None ==> {
                let name = args[0].var_name.unwrap()@;
                match var_value(before.scopes(), name) {
                    Some(ValueV::Scroll(items)) => if items.len() > 0 {
                        r matches Ok(res) && res@ == EvalResultV::Data(items.last())
                            && var_value(after.scopes(), name) == Some(ValueV::Scroll(items.drop_last()))
                    } else {
                        is_invalid(r, "retract() cannot pop from an empty scroll"@, line)
                    },
                    _ => is_type_error(r, "retract() target must be a scroll"@, line),
                }
            })
    &&& (args.len() >= 1 && args[0].var_name is Some ==> forall|o: Seq<char>| o != args[0].var_name.unwrap()@
        ==> #[trigger] var_lookup(after.scopes(), o) == var_lookup(before.scopes(), o))
    &&& (r is Err ==> after.scopes() == before.scopes())
    &&& (after.scopes().len() == before.scopes().len())
    &&& (after.functions() == before.functions())
    &&& (after.artifacts() == before.artifacts())
    &&& (after.budget() == before.budget())
}

/// `retract(s)`: removes the last element of the morph scroll variable
/// `s` and gives it back.
pub fn retract(env: &mut Environment, args: Vec<CallArg>, line: Option<LineInfo>) -> (r: Result<EvalResult, EvalError>)
    ensures
        retract_post(*old(env), *final(env), args@, line, r),
{
    if args.len() != 1 {
        return Err(EvalError::InvalidOperation(owned("retract() expects only the target scroll"), line));
    }
    let ghost a = args@;
    let mut args = args;
    let target = args.remove(0);
    assert(target == a[0]);
    let (name, current) = morph_target(env, target.var_name, &line, "retract", "scroll")?;
    match current {
        Value::Scroll(items) => {
            if items.len() == 0 {
                return Err(EvalError::InvalidOperation(owned("retract() cannot pop from an empty scroll"), line));
            }
            let ghost old_items = items@;
            let mut items = items;
            let last = items.pop().unwrap();
            proof {
                lemma_values_view_len(old_items);
                lemma_values_view_len(items@);
                assert(items@ =~= old_items.drop_last());
                assert(values_view(items@) =~= values_view(old_items).drop_last());
            }
            let _ = env.assign_var(name.as_str(), Value::Scroll(items));
            Ok(EvalResult::Data(last))
        },
        _ => Err(EvalError::TypeError(owned("retract() target must be a scroll"), line)),
    }
}

/// What `expunge` promises of its result and the environment (see [`expunge`]).
pub open spec fn expunge_post(before: Environment, after: Environment, args: Seq<CallArg>, line: Option<LineInfo>, r: Result<EvalResult, EvalError>) -> bool {
    &&& (args.len() != 2 ==> is_invalid(r, "expunge() expects a lexicon target and a rune key"@, line))
    &&& (args.len() == 2 && !(args[1].value is Data) ==> is_invalid(r, "expunge()"@ + " cannot accept control-flow results"@, line))
    &&& (args.len() == 2 && args[1].value is Data && !(args[1].value matches EvalResult::Data(Value::Rune(_))) ==> is_type_error(
                r,
                "expunge() key must be a rune"@,
                line,
            ))
    &&& (args.len() == 2 && target_problem(before, args[0].var_name) is Some ==> r is Err)
    &&& (args.len() == 2 && target_problem(before, args[0].var_name) is None ==> {
                let name = args[0].var_name.unwrap()@;
                match args[1].value {
                    EvalResult::Data(Value::Rune(key)) => match var_value(before.scopes(), name) {
                        Some(ValueV::Lexicon(entries)) => r matches Ok(res) && res@ == EvalResultV::Data(ValueV::Abyss)
                            && var_value(after.scopes(), name) == Some(ValueV::Lexicon(view_remove(entries, key@))),
                        _ => is_type_error(r, "expunge() target must be a lexicon"@, line),
                    },
                    _ => r is Err,
                }
            })
    &&& (args.len() >= 1 && args[0].var_name is Some ==> forall|o: Seq<char>| o != args[0].var_name.unwrap()@
        ==> #[trigger] var_lookup(after.scopes(), o) == var_lookup(before.scopes(), o))
    &&& (r is Err ==> after.scopes() == before.scopes())
    &&& (after.scopes().len() == before.scopes().len())
    &&& (after.functions() == before.functions())
    &&& (after.artifacts() == before.artifacts())
    &&& (after.budget() == before.budget())
}

/// `expunge(l, key)`: removes the entry under the rune `key` from the
/// morph lexicon variable `l`.
pub fn expunge(env: &mut Environment, args: Vec<CallArg>, line: Option<LineInfo>) -> (r: Result<EvalResult, EvalError>)
    ensures
        expunge_post(*old(env), *final(env), args@, line, r),
{
    if args.len() != 2 {
        return Err(EvalError::InvalidOperation(owned("expunge() expects a lexicon target and a rune key"), line));
    }
    let ghost a = args@;
    let mut args = args;
    let target = args.remove(0);
    let key_arg = args.remove(0);
    assert(target == a[0] && key_arg == a[1]);
    let key_value = result_to_value(key_arg.value, &line, "expunge()")?;
    let key = match key_value {
        Value::Rune(k) => k,
        _ => {
            return Err(EvalError::TypeError(owned("expunge() key must be a rune"), line));
        },
    };
    let (name, current) = morph_target(env, target.var_name, &line, "expunge", "lexicon")?;
    match current {
        Value::Lexicon(entries) => {
            let mut entries = entries;
            let ghost before = entries@;
            lexicon_remove(&mut entries, key.as_str());
            proof {
                lemma_remove_view(before, key@);
            }
            let _ = env.assign_var(name.as_str(), Value::Lexicon(entries));
            Ok(EvalResult::Data(Value::Abyss))
        },
        _ => Err(EvalError::TypeError(owned("expunge() target must be a lexicon"), line)),
    }
}

/// What `contents` promises of its result (see [`contents`]).
pub open spec fn contents_post(args: Seq<CallArg>, line: Option<LineInfo>, r: Result<EvalResult, EvalError>) -> bool {
    &&& (args.len() != 1 ==> is_invalid(r, "contents() expects a single lexicon argument"@, line))
    &&& (args.len() == 1 ==> match args[0].value {
                EvalResult::Data(Value::Lexicon(entries)) => r matches Ok(v) && v@ == EvalResultV::Data(
                    ValueV::Scroll(Seq::new(entries@.len(), |i: int| ValueV::Rune(entries@[i].0@))),
                ),
                EvalResult::Data(_) => is_type_error(r, "contents() argument must be a lexicon"@, line),
                _ => is_invalid(r, "contents()"@ + " cannot accept control-flow results"@, line),
            })
}

/// `contents(l)`: the keys of a lexicon as a scroll of runes, in the order
/// the entries were made.
pub fn contents(args: Vec<CallArg>, line: Option<LineInfo>) -> (r: Result<EvalResult, EvalError>)
    ensures
        contents_post(args@, line, r),
{
    if args.len() != 1 {
        return Err(EvalError::InvalidOperation(owned("contents() expects a single lexicon argument"), line));
    }
    let ghost a = args@;
    let mut args = args;
    let arg = args.remove(0);
    assert(arg == a[0]);
    let value = result_to_value(arg.value, &line, "contents()")?;
    match value {
        Value::Lexicon(entries) => {
            let mut keys: Vec<Value> = Vec::new();
            let mut i: usize = 0;
            while i < entries.len()
                invariant
                    i <= entries@.len(),
                    keys@.len() == i,
                    forall|k: int| 0 <= k < i ==> #[trigger] value_view(keys@[k]) == ValueV::Rune(entries@[k].0@),
                decreases entries@.len() - i,
            {
                keys.push(Value::Rune(entries[i].0.clone()));
                i = i + 1;
            }
            proof {
                lemma_values_view_len(keys@);
                assert(values_view(keys@) =~= Seq::new(entries@.len(), |i: int| ValueV::Rune(entries@[i].0@)));
            }
            Ok(EvalResult::Data(Value::Scroll(keys)))
        },
        _ => Err(EvalError::TypeError(owned("contents() argument must be a lexicon"), line)),
    }
}

/// Law: what `inscribe` appends to a scroll variable, `retract` on that
/// variable gives back, and the scroll is as it was before.
pub proof fn law_inscribe_then_retract(
    e0: Environment,
    e1: Environment,
    e2: Environment,
    a1: Seq<CallArg>,
    a2: Seq<CallArg>,
    line: Option<LineInfo>,
    r1: Result<EvalResult, EvalError>,
    r2: Result<EvalResult, EvalError>,
)
    requires
        inscribe_post(e0, e1, a1, line, r1),
        retract_post(e1, e2, a2, line, r2),
        r1 is Ok,
        a1.len() == 2,
        a2.len() == 1,
        a2[0].var_name == a1[0].var_name,
    ensures
        r2 matches Ok(res) && res@ == EvalResultV::Data(a1[1].value->Data_0@),
        var_value(e2.scopes(), a1[0].var_name.unwrap()@) == var_value(e0.scopes(), a1[0].var_name.unwrap()@),
{
    let name = a1[0].var_name.unwrap()@;
    let items = var_value(e0.scopes(), name).unwrap()->Scroll_0;
    let v = a1[1].value->Data_0@;
    assert(items.push(v).drop_last() =~= items);
}

} // verus!
