//! The steps of evaluation that need no further evaluation: casts, calls
//! of built-in functions, the errors for unknown names, oracle patterns
//! and compound assignment.
use vstd::prelude::*;

use crate::ast::{AssignmentOp, LineInfo, Type, TypeV};
use crate::diagnostics::{did_you_mean, label_with_suggestions, suggestion_label, suggestions};
use crate::env::{all_names, AetherOps, Builtin, CallArg, Environment, IoBridge, Value, ValueV, VarInfo};
use crate::eval::result::{EvalError, EvalResult, EvalResultV};
use crate::eval::values::{arcana_binary, arcana_failure, arcana_op, arcana_pow, is_invalid, is_type_error, pow_int, NumOp};
use crate::stdlib::io::type_text;
use crate::text::{int_text, owned, parse_int, parse_int_spec, push_str, str_eq, strings_view, strs_view, to_chars};

verus! {

/// The message of a failed cast to `t`.
pub open spec fn invalid_cast_message(t: TypeV) -> Seq<char> {
    match t {
        TypeV::Arcana => "Invalid cast to Arcana"@,
        TypeV::Aether => "Invalid cast to Aether"@,
        TypeV::Rune => "Invalid cast to Rune"@,
        TypeV::Omen => "Casting to Omen is not supported"@,
        _ => "Unsupported cast to type "@ + type_text(t),
    }
}

/// `trans value as target`: arcana and aether convert into each other (by
/// the host), runes parse into numbers, numbers print into runes.
pub fn trans_value<M: AetherOps>(math: &M, value: EvalResult, target: &Type, line_info: &Option<LineInfo>) -> (r: Result<EvalResult, EvalError>)
    ensures
        match (target@, value) {
            (TypeV::Arcana, EvalResult::Data(Value::Aether(_))) => r matches Ok(EvalResult::Data(Value::Arcana(_))),
            (TypeV::Arcana, EvalResult::Data(Value::Rune(s))) => match parse_int_spec(s@) {
                Some(n) => r matches Ok(res) && res@ == EvalResultV::Data(ValueV::Arcana(n)),
                None => is_invalid(r, "Failed to convert Rune to Arcana"@, *line_info),
            },
            (TypeV::Aether, EvalResult::Data(Value::Arcana(_))) => r matches Ok(EvalResult::Data(Value::Aether(_))),
            (TypeV::Aether, EvalResult::Data(Value::Rune(_))) => r matches Ok(EvalResult::Data(Value::Aether(_)))
                || is_invalid(r, "Failed to convert Rune to Aether"@, *line_info),
            (TypeV::Rune, EvalResult::Data(Value::Arcana(n))) => r matches Ok(res) && res@ == EvalResultV::Data(
                ValueV::Rune(int_text(n as int)),
            ),
            (TypeV::Rune, EvalResult::Data(Value::Aether(_))) => r matches Ok(EvalResult::Data(Value::Rune(_))),
            _ => is_invalid(r, invalid_cast_message(target@), *line_info),
        },
{
    match target {
        Type::Arcana => match value {
            EvalResult::Data(Value::Aether(bits)) => Ok(EvalResult::Data(Value::Arcana(math.to_arcana(bits)))),
            EvalResult::Data(Value::Rune(s)) => {
                let chars = to_chars(s.as_str());
                match parse_int(&chars) {
                    Some(n) => Ok(EvalResult::Data(Value::Arcana(n))),
                    None => Err(EvalError::InvalidOperation(owned("Failed to convert Rune to Arcana"), *line_info)),
                }
            },
            _ => Err(EvalError::InvalidOperation(owned("Invalid cast to Arcana"), *line_info)),
        },
        Type::Aether => match value {
            EvalResult::Data(Value::Arcana(n)) => Ok(EvalResult::Data(Value::Aether(math.from_arcana(n)))),
            EvalResult::Data(Value::Rune(s)) => match math.parse(s.as_str()) {
                Some(bits) => Ok(EvalResult::Data(Value::Aether(bits))),
                None => Err(EvalError::InvalidOperation(owned("Failed to convert Rune to Aether"), *line_info)),
            },
            _ => Err(EvalError::InvalidOperation(owned("Invalid cast to Aether"), *line_info)),
        },
        Type::Rune => match value {
            EvalResult::Data(Value::Arcana(n)) => Ok(EvalResult::Data(Value::Rune(crate::text::int_to_string(n)))),
            EvalResult::Data(Value::Aether(bits)) => Ok(EvalResult::Data(Value::Rune(math.to_text(bits)))),
            _ => Err(EvalError::InvalidOperation(owned("Invalid cast to Rune"), *line_info)),
        },
        Type::Omen => Err(EvalError::InvalidOperation(owned("Casting to Omen is not supported"), *line_info)),
        _ => {
            let mut m = owned("Unsupported cast to type ");
            let t = crate::stdlib::io::format_type(target);
            push_str(&mut m, t.as_str());
            Err(EvalError::InvalidOperation(m, *line_info))
        },
    }
}

/// Borrows each name as a string slice.
fn as_strs(names: &Vec<String>) -> (out: Vec<&str>)
    ensures
        out@.len() == names@.len(),
        forall|i: int| 0 <= i < out@.len() ==> #[trigger] out@[i]@ == names@[i]@,
{
    let mut out: Vec<&str> = Vec::new();
    let mut i: usize = 0;
    while i < names.len()
        invariant
            i <= names@.len(),
            out@.len() == i,
            forall|k: int| 0 <= k < i ==> #[trigger] out@[k]@ == names@[k]@,
        decreases names@.len() - i,
    {
        out.push(names[i].as_str());
        i = i + 1;
    }
    out
}

/// `name`, with up to three close names from `candidates` suggested.
pub fn suggest(name: &str, candidates: &Vec<String>) -> (label: String)
    ensures
        label@ == suggestion_label(name@, suggestions(name@, strings_view(candidates@), 3)),
{
    let strs = as_strs(candidates);
    assert(strs_view(strs@) =~= strings_view(candidates@));
    let sugg = did_you_mean(name, strs.as_slice(), 3);
    label_with_suggestions(name, sugg.as_slice())
}

/// The names of the functions of an environment, in order.
pub open spec fn function_names_spec(env: Environment) -> Seq<Seq<char>> {
    Seq::new(env.functions().len(), |i: int| env.functions()[i].0@)
}

/// The error for a variable that is not defined: its name, with the
/// defined variables that are close to it suggested.
pub fn undefined_variable(env: &Environment, name: &str, line_info: &Option<LineInfo>) -> (e: EvalError)
    ensures
        e matches EvalError::UndefinedVariable(m, l) && l == *line_info && m@ == suggestion_label(
            name@,
            suggestions(name@, all_names(env.scopes()), 3),
        ),
{
    let names = env.variable_names();
    EvalError::UndefinedVariable(suggest(name, &names), *line_info)
}

/// The error for a function that is not defined: its name, with the
/// defined functions that are close to it suggested.
pub fn undefined_function(env: &Environment, name: &str, line_info: &Option<LineInfo>) -> (e: EvalError)
    ensures
        e matches EvalError::UndefinedVariable(m, l) && l == *line_info && m@ == suggestion_label(
            name@,
            suggestions(name@, function_names_spec(*env), 3),
        ),
{
    let names = env.function_names();
    assert(strings_view(names@) =~= function_names_spec(*env));
    EvalError::UndefinedVariable(suggest(name, &names), *line_info)
}

/// What a built-in call writes to the output: `unveil` its line (see
/// [`crate::stdlib::io::unveil_writes`]), `summon` its prompt (not stated),
/// any other built-in nothing.
pub open spec fn builtin_writes(func: Builtin, args: Seq<CallArg>, before: Seq<char>, after: Seq<char>, r: Result<EvalResult, EvalError>) -> bool {
    if func == Builtin::Unveil {
        crate::stdlib::io::unveil_writes(args, before, after, r)
    } else if func == Builtin::Summon {
        true
    } else {
        after == before
    }
}

/// Runs a built-in function on its evaluated arguments.
pub fn call_builtin<B: IoBridge, M: AetherOps>(
    env: &mut Environment,
    io: &mut B,
    math: &M,
    func: Builtin,
    args: Vec<CallArg>,
    line: Option<LineInfo>,
) -> (r: Result<EvalResult, EvalError>)
    ensures
        final(env).scopes().len() == old(env).scopes().len(),
        final(env).functions() == old(env).functions(),
        final(env).artifacts() == old(env).artifacts(),
        final(env).budget() == old(env).budget(),
        func != Builtin::Inscribe && func != Builtin::Retract && func != Builtin::Expunge ==> final(env).scopes()
            == old(env).scopes(),
        func == Builtin::Unveil ==> crate::stdlib::io::unveil_post(args@, line, r),
        func == Builtin::Summon ==> crate::stdlib::io::summon_post(args@, line, r),
        func == Builtin::Measure ==> crate::stdlib::collections::measure_post(args@, line, r),
        func == Builtin::Inscribe ==> crate::stdlib::collections::inscribe_post(*old(env), *final(env), args@, line, r),
        func == Builtin::Retract ==> crate::stdlib::collections::retract_post(*old(env), *final(env), args@, line, r),
        func == Builtin::Expunge ==> crate::stdlib::collections::expunge_post(*old(env), *final(env), args@, line, r),
        func == Builtin::Contents ==> crate::stdlib::collections::contents_post(args@, line, r),
        func == Builtin::Perish ==> crate::stdlib::runtime::perish_post(args@, line, r),
        old(io).models_output() ==> builtin_writes(func, args@, old(io).written(), final(io).written(), r),
{
    match func {
        Builtin::Unveil => crate::stdlib::io::native_unveil(io, math, args, line),
        Builtin::Summon => crate::stdlib::io::native_summon(io, args, line),
        Builtin::Measure => crate::stdlib::collections::measure(args, line),
        Builtin::Inscribe => crate::stdlib::collections::inscribe(env, args, line),
        Builtin::Retract => crate::stdlib::collections::retract(env, args, line),
        Builtin::Expunge => crate::stdlib::collections::expunge(env, args, line),
        Builtin::Contents => crate::stdlib::collections::contents(args, line),
        Builtin::Perish => crate::stdlib::runtime::native_perish(args, line),
    }
}

/// The variable an oracle scrutinee binds: its value and type. Only
/// arcana, aether, runes and omens can be scrutinised.
pub fn conditional_binding(result: EvalResult, line_info: &Option<LineInfo>) -> (r: Result<(Value, Type), EvalError>)
    ensures
        match result {
            EvalResult::Data(Value::Arcana(n)) => r matches Ok((v, t)) && v@ == ValueV::Arcana(n) && t@ == TypeV::Arcana,
            EvalResult::Data(Value::Aether(n)) => r matches Ok((v, t)) && v@ == ValueV::Aether(n) && t@ == TypeV::Aether,
            EvalResult::Data(Value::Rune(s)) => r matches Ok((v, t)) && v@ == ValueV::Rune(s@) && t@ == TypeV::Rune,
            EvalResult::Data(Value::Omen(b)) => r matches Ok((v, t)) && v@ == ValueV::Omen(b) && t@ == TypeV::Omen,
            _ => is_invalid(r, "Unsupported type in oracle conditional"@, *line_info),
        },
{
    match result {
        EvalResult::Data(Value::Arcana(n)) => Ok((Value::Arcana(n), Type::Arcana)),
        EvalResult::Data(Value::Aether(n)) => Ok((Value::Aether(n), Type::Aether)),
        EvalResult::Data(Value::Rune(s)) => Ok((Value::Rune(s), Type::Rune)),
        EvalResult::Data(Value::Omen(b)) => Ok((Value::Omen(b), Type::Omen)),
        _ => Err(EvalError::InvalidOperation(owned("Unsupported type in oracle conditional"), *line_info)),
    }
}

/// Whether a scrutinee's value equals a pattern's: arcana, runes and omens
/// exactly, aether within the machine epsilon (by the host). Values of
/// different kinds are an error.
pub fn pattern_matches<M: AetherOps>(math: &M, scrutinee: &EvalResult, pattern: &EvalResult, line_info: &Option<LineInfo>) -> (r: Result<bool, EvalError>)
    ensures
        match (*scrutinee, *pattern) {
            (EvalResult::Data(Value::Arcana(a)), EvalResult::Data(Value::Arcana(b))) => r == Ok::<bool, EvalError>(a == b),
            (EvalResult::Data(Value::Rune(a)), EvalResult::Data(Value::Rune(b))) => r == Ok::<bool, EvalError>(a@ == b@),
            (EvalResult::Data(Value::Omen(a)), EvalResult::Data(Value::Omen(b))) => r == Ok::<bool, EvalError>(a == b),
            (EvalResult::Data(Value::Aether(_)), EvalResult::Data(Value::Aether(_))) => r is Ok,
            _ => is_invalid(r, "Oracle branch pattern type must match conditional type"@, *line_info),
        },
{
    match (scrutinee, pattern) {
        (EvalResult::Data(Value::Arcana(a)), EvalResult::Data(Value::Arcana(b))) => Ok(*a == *b),
        (EvalResult::Data(Value::Aether(a)), EvalResult::Data(Value::Aether(b))) => Ok(math.approx_eq(*a, *b)),
        (EvalResult::Data(Value::Rune(a)), EvalResult::Data(Value::Rune(b))) => Ok(str_eq(a.as_str(), b.as_str())),
        (EvalResult::Data(Value::Omen(a)), EvalResult::Data(Value::Omen(b))) => Ok(*a == *b),
        _ => Err(EvalError::InvalidOperation(owned("Oracle branch pattern type must match conditional type"), *line_info)),
    }
}

/// The arithmetic operator of a compound assignment.
pub open spec fn assign_num_op(op: AssignmentOp) -> Option<NumOp> {
    match op {
        AssignmentOp::AddAssign => Some(NumOp::Add),
        AssignmentOp::SubAssign => Some(NumOp::Sub),
        AssignmentOp::MulAssign => Some(NumOp::Mul),
        AssignmentOp::DivAssign => Some(NumOp::Div),
        AssignmentOp::ModAssign => Some(NumOp::Mod),
        _ => None,
    }
}

/// The message of an assignment a variable's type does not support.
pub open spec fn unsupported_assignment(name: Seq<char>) -> Seq<char> {
    "Unsupported operation for variable "@ + name
}

/// The new value, by its model, of a variable bound as `info` after
/// `op=` with the value `v`, where the assignment succeeds: arcana takes
/// every operator but `^^=` (`^=` with a non-negative exponent, and no
/// result out of range), runes `=` and `+=`, omens and abyss `=`; scrolls,
/// lexicons and materia take `=` with a value their type admits.
pub open spec fn assign_result(info: VarInfo, op: AssignmentOp, v: ValueV) -> Option<ValueV> {
    match (info.value@, info.var_type@) {
        (ValueV::Arcana(cur), TypeV::Arcana) => match v {
            ValueV::Arcana(x) => match op {
                AssignmentOp::Assign => Some(ValueV::Arcana(x)),
                AssignmentOp::PowArcanaAssign => if x >= 0 && i64::MIN <= pow_int(cur as int, x as nat) <= i64::MAX {
                    Some(ValueV::Arcana(pow_int(cur as int, x as nat) as i64))
                } else {
                    None
                },
                AssignmentOp::PowAetherAssign => None,
                _ => match arcana_op(assign_num_op(op).unwrap(), cur, x) {
                    Some(n) => Some(ValueV::Arcana(n)),
                    None => None,
                },
            },
            _ => None,
        },
        (ValueV::Rune(cur), TypeV::Rune) => match (op, v) {
            (AssignmentOp::Assign, ValueV::Rune(t)) => Some(ValueV::Rune(t)),
            (AssignmentOp::AddAssign, ValueV::Rune(t)) => Some(ValueV::Rune(cur + t)),
            _ => None,
        },
        (ValueV::Omen(_), TypeV::Omen) => match (op, v) {
            (AssignmentOp::Assign, ValueV::Omen(b)) => Some(ValueV::Omen(b)),
            _ => None,
        },
        (ValueV::Abyss, TypeV::Abyss) => match (op, v) {
            (AssignmentOp::Assign, ValueV::Abyss) => Some(ValueV::Abyss),
            _ => None,
        },
        (ValueV::Aether(_), TypeV::Aether) => None,
        (_, TypeV::Scroll) | (_, TypeV::Lexicon) | (_, TypeV::Materia) => match op {
            AssignmentOp::Assign => if crate::eval::values::value_fits(v, info.var_type@) {
                Some(v)
            } else {
                None
            },
            _ => None,
        },
        _ => None,
    }
}

/// The new value of a morph variable after `name op= value`, by the
/// variable's declared type: arcana takes every operator (`^=` needs a
/// non-negative exponent), aether every operator but `^=` (by the host),
/// runes `=` and `+=`, omens and abyss `=`; scrolls, lexicons and materia
/// are replaced with `=`.
pub fn assignment_value<M: AetherOps>(
    math: &M,
    info: &VarInfo,
    name: &str,
    op: AssignmentOp,
    value: EvalResult,
    line_info: &Option<LineInfo>,
) -> (r: Result<Value, EvalError>)
    ensures
        match (info.value, info.var_type) {
            (Value::Arcana(cur), Type::Arcana) => match value {
                EvalResult::Data(Value::Arcana(x)) => match op {
                    AssignmentOp::Assign => r == Ok::<Value, EvalError>(Value::Arcana(x)),
                    AssignmentOp::PowArcanaAssign => if x < 0 {
                        r matches Err(EvalError::NegativeExponent(l)) && l == *line_info
                    } else if i64::MIN <= pow_int(cur as int, x as nat) <= i64::MAX {
                        r == Ok::<Value, EvalError>(Value::Arcana(pow_int(cur as int, x as nat) as i64))
                    } else {
                        is_invalid(r, "Arithmetic overflow"@, *line_info)
                    },
                    AssignmentOp::PowAetherAssign => is_invalid(r, unsupported_assignment(name@), *line_info),
                    _ => match arcana_op(assign_num_op(op).unwrap(), cur, x) {
                        Some(n) => r == Ok::<Value, EvalError>(Value::Arcana(n)),
                        None => is_invalid(r, arcana_failure(assign_num_op(op).unwrap(), x), *line_info),
                    },
                },
                _ => r is Err,
            },
            (Value::Rune(cur), Type::Rune) => match (op, value) {
                (AssignmentOp::Assign, EvalResult::Data(Value::Rune(s))) => r matches Ok(v) && v@ == ValueV::Rune(s@),
                (AssignmentOp::AddAssign, EvalResult::Data(Value::Rune(s))) => r matches Ok(v) && v@ == ValueV::Rune(
                    cur@ + s@,
                ),
                _ => r is Err,
            },
            (Value::Omen(_), Type::Omen) => match (op, value) {
                (AssignmentOp::Assign, EvalResult::Data(Value::Omen(b))) => r == Ok::<Value, EvalError>(Value::Omen(b)),
                _ => r is Err,
            },
            (Value::Abyss, Type::Abyss) => match (op, value) {
                (AssignmentOp::Assign, EvalResult::Data(Value::Abyss)) => r == Ok::<Value, EvalError>(Value::Abyss),
                _ => r is Err,
            },
            (Value::Aether(_), Type::Aether) => match value {
                EvalResult::Data(Value::Aether(x)) => match op {
                    AssignmentOp::Assign => r == Ok::<Value, EvalError>(Value::Aether(x)),
                    AssignmentOp::PowArcanaAssign => is_invalid(r, unsupported_assignment(name@), *line_info),
                    _ => r matches Ok(Value::Aether(_)),
                },
                _ => r is Err,
            },
            (_, Type::Scroll) | (_, Type::Lexicon) | (_, Type::Materia) => match (op, value) {
                (AssignmentOp::Assign, EvalResult::Data(v)) => if crate::eval::values::value_fits(v@, info.var_type@) {
                    r == Ok::<Value, EvalError>(v)
                } else {
                    r is Err
                },
                _ => r is Err,
            },
            _ => is_invalid(r, "Type mismatch or unsupported operation for variable "@ + name@, *line_info),
        },
        value matches EvalResult::Data(x) && assign_result(*info, op, x@) is Some ==> (r matches Ok(y) && Some(y@) == assign_result(
            *info,
            op,
            value->Data_0@,
        )),
{
    let unsupported = |name: &str| -> (m: String)
        ensures
            m@ == unsupported_assignment(name@),
        {
            let mut m = owned("Unsupported operation for variable ");
            push_str(&mut m, name);
            m
        };
    match (&info.value, &info.var_type) {
        (Value::Arcana(cur), Type::Arcana) => {
            let x = crate::eval::values::extract_arcana(&value, line_info)?;
            match op {
                AssignmentOp::Assign => Ok(Value::Arcana(x)),
                AssignmentOp::PowArcanaAssign => {
                    if x < 0 {
                        return Err(EvalError::NegativeExponent(*line_info));
                    }
                    match arcana_pow(*cur, x as u64) {
                        Some(n) => Ok(Value::Arcana(n)),
                        None => Err(EvalError::InvalidOperation(owned("Arithmetic overflow"), *line_info)),
                    }
                },
                AssignmentOp::PowAetherAssign => Err(EvalError::InvalidOperation(unsupported(name), *line_info)),
                AssignmentOp::AddAssign => Ok(Value::Arcana(arcana_binary(NumOp::Add, *cur, x, line_info)?)),
                AssignmentOp::SubAssign => Ok(Value::Arcana(arcana_binary(NumOp::Sub, *cur, x, line_info)?)),
                AssignmentOp::MulAssign => Ok(Value::Arcana(arcana_binary(NumOp::Mul, *cur, x, line_info)?)),
                AssignmentOp::DivAssign => Ok(Value::Arcana(arcana_binary(NumOp::Div, *cur, x, line_info)?)),
                AssignmentOp::ModAssign => Ok(Value::Arcana(arcana_binary(NumOp::Mod, *cur, x, line_info)?)),
            }
        },
        (Value::Aether(cur), Type::Aether) => {
            let x = crate::eval::values::extract_aether(&value, line_info)?;
            match op {
                AssignmentOp::Assign => Ok(Value::Aether(x)),
                AssignmentOp::AddAssign => Ok(Value::Aether(math.add(*cur, x))),
                AssignmentOp::SubAssign => Ok(Value::Aether(math.sub(*cur, x))),
                AssignmentOp::MulAssign => Ok(Value::Aether(math.mul(*cur, x))),
                AssignmentOp::DivAssign => Ok(Value::Aether(math.div(*cur, x))),
                AssignmentOp::ModAssign => Ok(Value::Aether(math.rem(*cur, x))),
                AssignmentOp::PowAetherAssign => Ok(Value::Aether(math.pow(*cur, x))),
                AssignmentOp::PowArcanaAssign => Err(EvalError::InvalidOperation(unsupported(name), *line_info)),
            }
        },
        (Value::Rune(cur), Type::Rune) => match op {
            AssignmentOp::AddAssign => {
                let rhs = crate::eval::values::extract_rune(value, line_info)?;
                let mut s = cur.clone();
                push_str(&mut s, rhs.as_str());
                Ok(Value::Rune(s))
            },
            AssignmentOp::Assign => Ok(Value::Rune(crate::eval::values::extract_rune(value, line_info)?)),
            _ => Err(EvalError::InvalidOperation(unsupported(name), *line_info)),
        },
        (Value::Omen(_), Type::Omen) => {
            if op != AssignmentOp::Assign {
                return Err(EvalError::InvalidOperation(unsupported(name), *line_info));
            }
            Ok(Value::Omen(crate::eval::values::extract_omen(&value, line_info)?))
        },
        (Value::Abyss, Type::Abyss) => {
            if op != AssignmentOp::Assign {
                return Err(EvalError::InvalidOperation(unsupported(name), *line_info));
            }
            match value {
                EvalResult::Data(Value::Abyss) => Ok(Value::Abyss),
                _ => Err(EvalError::TypeError(owned("Expected abyss value"), *line_info)),
            }
        },
        (_, Type::Scroll) | (_, Type::Lexicon) | (_, Type::Materia) => {
            if op != AssignmentOp::Assign {
                let m = match info.var_type {
                    Type::Scroll => owned("Scroll reassignment only supports ="),
                    Type::Lexicon => owned("Lexicon reassignment only supports ="),
                    _ => owned("Materia variables only support ="),
                };
                return Err(EvalError::InvalidOperation(m, *line_info));
            }
            crate::eval::values::convert_to_typed_value(value, &info.var_type, line_info)
        },
        _ => {
            let mut m = owned("Type mismatch or unsupported operation for variable ");
            push_str(&mut m, name);
            Err(EvalError::InvalidOperation(m, *line_info))
        },
    }
}

} // verus!
