//! Conversions between evaluation results and stored values, and the
//! arithmetic, comparisons and logic of the language on plain values.
use vstd::prelude::*;

use crate::ast::{LineInfo, Type, TypeV};
use crate::env::{copy_value, values_view, AetherOps, Value, ValueV};
use crate::eval::result::{EvalError, EvalResult, EvalResultV};
use crate::text::{owned, push_str, str_eq};

verus! {

/// A type error with the given message.
pub open spec fn is_type_error<T>(r: Result<T, EvalError>, msg: Seq<char>, line: Option<LineInfo>) -> bool {
    r matches Err(EvalError::TypeError(m, l)) && m@ == msg && l == line
}

/// An invalid-operation error with the given message.
pub open spec fn is_invalid<T>(r: Result<T, EvalError>, msg: Seq<char>, line: Option<LineInfo>) -> bool {
    r matches Err(EvalError::InvalidOperation(m, l)) && m@ == msg && l == line
}

/// A value as an evaluation result.
pub fn value_to_eval_result(value: &Value) -> (r: EvalResult)
    ensures
        r@ == EvalResultV::Data(value@),
{
    EvalResult::Data(copy_value(value))
}

/// The value a result carries; a control-flow signal has none.
pub fn eval_result_to_value_any(result: EvalResult) -> (r: Result<Value, EvalError>)
    ensures
        match result {
            EvalResult::Data(v) => r == Ok::<Value, EvalError>(v),
            _ => is_invalid(r, "Cannot convert a control-flow result to a value"@, None),
        },
{
    match result {
        EvalResult::Data(v) => Ok(v),
        _ => Err(EvalError::InvalidOperation(owned("Cannot convert a control-flow result to a value"), None)),
    }
}

/// The value a result carries, with errors placed at `line_info`.
pub fn eval_result_to_value_checked(result: EvalResult, line_info: Option<LineInfo>) -> (r: Result<Value, EvalError>)
    ensures
        match result {
            EvalResult::Data(v) => r == Ok::<Value, EvalError>(v),
            _ => is_invalid(r, "Cannot convert a control-flow result to a value"@, line_info),
        },
{
    match eval_result_to_value_any(result) {
        Ok(v) => Ok(v),
        Err(EvalError::InvalidOperation(msg, _)) => Err(EvalError::InvalidOperation(msg, line_info)),
        Err(EvalError::TypeError(msg, _)) => Err(EvalError::TypeError(msg, line_info)),
        Err(other) => Err(other),
    }
}

/// Whether a value may be stored under a declared type. `materia` takes
/// any value; an artifact type takes instances of that artifact.
pub open spec fn value_fits(v: ValueV, t: TypeV) -> bool {
    match t {
        TypeV::Materia => true,
        TypeV::Arcana => v is Arcana,
        TypeV::Aether => v is Aether,
        TypeV::Rune => v is Rune,
        TypeV::Omen => v is Omen,
        TypeV::Abyss => v is Abyss,
        TypeV::Scroll => v is Scroll,
        TypeV::Lexicon => v is Lexicon,
        TypeV::Glyph => v is Glyph,
        TypeV::Artifact(name) => v matches ValueV::Artifact(n, _) && n == name,
        TypeV::Spectrum(_) => false,
    }
}

/// The message of the type error for a value that does not fit `t`.
pub open spec fn expected_message(t: TypeV) -> Seq<char> {
    match t {
        TypeV::Arcana => "Expected arcana value"@,
        TypeV::Aether => "Expected aether value"@,
        TypeV::Rune => "Expected rune value"@,
        TypeV::Omen => "Expected omen value"@,
        TypeV::Abyss => "Expected abyss value"@,
        TypeV::Scroll => "Expected scroll value"@,
        TypeV::Lexicon => "Expected lexicon value"@,
        TypeV::Glyph => "Expected glyph value"@,
        TypeV::Artifact(_) => "Expected artifact value"@,
        _ => "Spectrum values are not supported"@,
    }
}

fn expected_text(t: &Type) -> (s: String)
    ensures
        s@ == expected_message(t@),
{
    match t {
        Type::Arcana => owned("Expected arcana value"),
        Type::Aether => owned("Expected aether value"),
        Type::Rune => owned("Expected rune value"),
        Type::Omen => owned("Expected omen value"),
        Type::Abyss => owned("Expected abyss value"),
        Type::Scroll => owned("Expected scroll value"),
        Type::Lexicon => owned("Expected lexicon value"),
        Type::Glyph => owned("Expected glyph value"),
        Type::Artifact(_) => owned("Expected artifact value"),
        _ => owned("Spectrum values are not supported"),
    }
}

fn fits(v: &Value, t: &Type) -> (b: bool)
    ensures
        b == value_fits(v@, t@),
{
    match t {
        Type::Materia => true,
        Type::Arcana => matches!(v, Value::Arcana(_)),
        Type::Aether => matches!(v, Value::Aether(_)),
        Type::Rune => matches!(v, Value::Rune(_)),
        Type::Omen => matches!(v, Value::Omen(_)),
        Type::Abyss => matches!(v, Value::Abyss),
        Type::Scroll => matches!(v, Value::Scroll(_)),
        Type::Lexicon => matches!(v, Value::Lexicon(_)),
        Type::Glyph => matches!(v, Value::Glyph(_)),
        Type::Artifact(name) => match v {
            Value::Artifact(a) => str_eq(a.artifact.as_str(), name.as_str()),
            _ => false,
        },
        Type::Spectrum(_) => false,
    }
}

/// The value of a result, checked against the declared type `expected`.
/// A control-flow result is refused as a materia could refuse it, and for
/// every other type as not being of that type.
pub fn convert_to_typed_value(result: EvalResult, expected: &Type, line_info: &Option<LineInfo>) -> (r: Result<Value, EvalError>)
    ensures
        match result {
            EvalResult::Data(v) => if value_fits(v@, expected@) {
                r == Ok::<Value, EvalError>(v)
            } else {
                is_type_error(r, expected_message(expected@), *line_info)
            },
            _ => if *expected is Materia {
                is_invalid(r, "Cannot convert a control-flow result to a value"@, *line_info)
            } else {
                is_type_error(r, expected_message(expected@), *line_info)
            },
        },
{
    match result {
        EvalResult::Data(v) => {
            if fits(&v, expected) {
                Ok(v)
            } else {
                Err(EvalError::TypeError(expected_text(expected), *line_info))
            }
        },
        other => match expected {
            Type::Materia => eval_result_to_value_checked(other, *line_info),
            _ => Err(EvalError::TypeError(expected_text(expected), *line_info)),
        },
    }
}

/// The arcana a result holds.
pub fn extract_arcana(result: &EvalResult, line_info: &Option<LineInfo>) -> (r: Result<i64, EvalError>)
    ensures
        match *result {
            EvalResult::Data(Value::Arcana(n)) => r == Ok::<i64, EvalError>(n),
            _ => is_type_error(r, "Expected arcana value"@, *line_info),
        },
{
    match result {
        EvalResult::Data(Value::Arcana(n)) => Ok(*n),
        _ => Err(EvalError::TypeError(owned("Expected arcana value"), *line_info)),
    }
}

/// The aether a result holds, by its bits.
pub fn extract_aether(result: &EvalResult, line_info: &Option<LineInfo>) -> (r: Result<u64, EvalError>)
    ensures
        match *result {
            EvalResult::Data(Value::Aether(n)) => r == Ok::<u64, EvalError>(n),
            _ => is_type_error(r, "Expected aether value"@, *line_info),
        },
{
    match result {
        EvalResult::Data(Value::Aether(n)) => Ok(*n),
        _ => Err(EvalError::TypeError(owned("Expected aether value"), *line_info)),
    }
}

/// The rune a result holds.
pub fn extract_rune(result: EvalResult, line_info: &Option<LineInfo>) -> (r: Result<String, EvalError>)
    ensures
        match result {
            EvalResult::Data(Value::Rune(s)) => r == Ok::<String, EvalError>(s),
            _ => is_type_error(r, "Expected rune value"@, *line_info),
        },
{
    match result {
        EvalResult::Data(Value::Rune(s)) => Ok(s),
        _ => Err(EvalError::TypeError(owned("Expected rune value"), *line_info)),
    }
}

/// The omen a result holds.
pub fn extract_omen(result: &EvalResult, line_info: &Option<LineInfo>) -> (r: Result<bool, EvalError>)
    ensures
        match *result {
            EvalResult::Data(Value::Omen(b)) => r == Ok::<bool, EvalError>(b),
            _ => is_type_error(r, "Expected omen value"@, *line_info),
        },
{
    match result {
        EvalResult::Data(Value::Omen(b)) => Ok(*b),
        _ => Err(EvalError::TypeError(owned("Expected omen value"), *line_info)),
    }
}

/// The name of the kind of a value.
pub open spec fn kind_name(v: ValueV) -> Seq<char> {
    match v {
        ValueV::Omen(_) => "omen"@,
        ValueV::Arcana(_) => "arcana"@,
        ValueV::Aether(_) => "aether"@,
        ValueV::Rune(_) => "rune"@,
        ValueV::Abyss => "abyss"@,
        ValueV::Scroll(_) => "scroll"@,
        ValueV::Lexicon(_) => "lexicon"@,
        ValueV::Artifact(_, _) => "artifact"@,
        ValueV::Glyph(_) => "glyph"@,
    }
}

/// The name of the kind of a value, as error messages show it.
pub fn describe_value(v: &Value) -> (s: String)
    ensures
        s@ == kind_name(v@),
{
    match v {
        Value::Omen(_) => owned("omen"),
        Value::Arcana(_) => owned("arcana"),
        Value::Aether(_) => owned("aether"),
        Value::Rune(_) => owned("rune"),
        Value::Abyss => owned("abyss"),
        Value::Scroll(_) => owned("scroll"),
        Value::Lexicon(_) => owned("lexicon"),
        Value::Artifact(_) => owned("artifact"),
        Value::Glyph(_) => owned("glyph"),
    }
}

/// An arithmetic operator.
#[derive(Clone, Copy, Debug, PartialEq, Eq, Structural)]
pub enum NumOp {
    Add,
    Sub,
    Mul,
    Div,
    Mod,
}

/// `b` to the power `e`.
pub open spec fn pow_int(b: int, e: nat) -> int
    decreases e,
{
    if e == 0 {
        1
    } else {
        b * pow_int(b, (e - 1) as nat)
    }
}

/// The arcana result of `l op r`, as Rust's checked operations give it:
/// `None` on overflow or division by zero.
pub open spec fn arcana_op(op: NumOp, l: i64, r: i64) -> Option<i64> {
    match op {
        NumOp::Add => l.checked_add(r),
        NumOp::Sub => l.checked_sub(r),
        NumOp::Mul => l.checked_mul(r),
        NumOp::Div => l.checked_div(r),
        NumOp::Mod => l.checked_rem(r),
    }
}

/// The message for an arcana operation that has no result.
pub open spec fn arcana_failure(op: NumOp, r: i64) -> Seq<char> {
    if (op == NumOp::Div || op == NumOp::Mod) && r == 0 {
        "Division by zero"@
    } else {
        "Arithmetic overflow"@
    }
}

/// `l op r` on arcana values.
pub fn arcana_binary(op: NumOp, l: i64, r: i64, line_info: &Option<LineInfo>) -> (res: Result<i64, EvalError>)
    ensures
        match arcana_op(op, l, r) {
            Some(n) => res == Ok::<i64, EvalError>(n),
            None => is_invalid(res, arcana_failure(op, r), *line_info),
        },
{
    let out = match op {
        NumOp::Add => l.checked_add(r),
        NumOp::Sub => l.checked_sub(r),
        NumOp::Mul => l.checked_mul(r),
        NumOp::Div => l.checked_div(r),
        NumOp::Mod => l.checked_rem(r),
    };
    match out {
        Some(n) => Ok(n),
        None => {
            if (op == NumOp::Div || op == NumOp::Mod) && r == 0 {
                Err(EvalError::InvalidOperation(owned("Division by zero"), *line_info))
            } else {
                Err(EvalError::InvalidOperation(owned("Arithmetic overflow"), *line_info))
            }
        },
    }
}

proof fn lemma_pow_zero(e: nat)
    requires
        e > 0,
    ensures
        pow_int(0, e) == 0,
    decreases e,
{
    if e > 1 {
        lemma_pow_zero((e - 1) as nat);
    }
}

proof fn lemma_pow_one(e: nat)
    ensures
        pow_int(1, e) == 1,
    decreases e,
{
    if e > 0 {
        lemma_pow_one((e - 1) as nat);
    }
}

proof fn lemma_pow_minus_one(e: nat)
    ensures
        pow_int(-1, e) == (if e % 2 == 0 { 1int } else { -1int }),
    decreases e,
{
    if e > 0 {
        lemma_pow_minus_one((e - 1) as nat);
    }
}

/// `base` to the power `exp` on arcana values; `None` when the result
/// does not fit.
pub fn arcana_pow(base: i64, exp: u64) -> (r: Option<i64>)
    ensures
        match r {
            Some(n) => n == pow_int(base as int, exp as nat),
            None => pow_int(base as int, exp as nat) < i64::MIN || pow_int(base as int, exp as nat) > i64::MAX,
        },
{
    if base == 0 {
        if exp == 0 {
            return Some(1);
        }
        proof {
            lemma_pow_zero(exp as nat);
        }
        return Some(0);
    }
    if base == 1 {
        proof {
            lemma_pow_one(exp as nat);
        }
        return Some(1);
    }
    if base == -1 {
        proof {
            lemma_pow_minus_one(exp as nat);
        }
        if exp % 2 == 0 {
            return Some(1);
        } else {
            return Some(-1);
        }
    }
    let mut acc: i64 = 1;
    let mut i: u64 = 0;
    while i < exp
        invariant
            i <= exp,
            acc == pow_int(base as int, i as nat),
            base < -1 || base > 1,
        decreases exp - i,
    {
        match acc.checked_mul(base) {
            Some(next) => {
                acc = next;
                i = i + 1;
            },
            None => {
                proof {
                    lemma_pow_grows(base as int, i as nat, exp as nat);
                }
                return None;
            },
        }
    }
    Some(acc)
}

/// Once a power of a base of magnitude at least two leaves the `i64`
/// range, every higher power stays out of it.
proof fn lemma_pow_grows(b: int, i: nat, e: nat)
    requires
        b < -1 || b > 1,
        i < e,
        b * pow_int(b, i) < i64::MIN || b * pow_int(b, i) > i64::MAX,
    ensures
        pow_int(b, e) < i64::MIN || pow_int(b, e) > i64::MAX,
    decreases e - i,
{
    let p = b * pow_int(b, i);
    assert(pow_int(b, (i + 1) as nat) == p);
    if i + 1 < e {
        assert(b * p < i64::MIN || b * p > i64::MAX) by (nonlinear_arith)
            requires
                b < -1 || b > 1,
                p < i64::MIN || p > i64::MAX,
        {
            if p > i64::MAX {
                if b > 1 {
                    assert(b * p >= 2 * p);
                } else {
                    assert(b * p <= 2 * (-p));
                }
            } else {
                if b > 1 {
                    assert(b * p <= 2 * p);
                } else {
                    assert(b * p >= 2 * (-p));
                }
            }
        }
        lemma_pow_grows(b, (i + 1) as nat, e);
    }
}

/// `bits` is what the host gives for `l op r` on two doubles: the result
/// of its method for the operator (`add`, `sub`, `mul`, `div`, `rem`) on
/// the operands in order.
pub open spec fn host_arith<M: AetherOps>(math: &M, op: NumOp, l: u64, r: u64, bits: u64) -> bool {
    match op {
        NumOp::Add => call_ensures(M::add, (math, l, r), bits),
        NumOp::Sub => call_ensures(M::sub, (math, l, r), bits),
        NumOp::Mul => call_ensures(M::mul, (math, l, r), bits),
        NumOp::Div => call_ensures(M::div, (math, l, r), bits),
        NumOp::Mod => call_ensures(M::rem, (math, l, r), bits),
    }
}

/// The result of `l op r` for arithmetic operators: arcana with arcana,
/// aether with aether (by the host), rune with rune for `+` only.
pub fn binary_numeric_op<M: AetherOps>(
    math: &M,
    op: NumOp,
    left: EvalResult,
    right: EvalResult,
    line_info: &Option<LineInfo>,
) -> (r: Result<EvalResult, EvalError>)
    ensures
        match (left, right) {
            (EvalResult::Data(Value::Arcana(l)), EvalResult::Data(Value::Arcana(rv))) => match arcana_op(op, l, rv) {
                Some(n) => r matches Ok(res) && res@ == EvalResultV::Data(ValueV::Arcana(n)),
                None => is_invalid(r, arcana_failure(op, rv), *line_info),
            },
            (EvalResult::Data(Value::Aether(l)), EvalResult::Data(Value::Aether(rv))) => r matches Ok(
                EvalResult::Data(Value::Aether(bits)),
            ) && host_arith(math, op, l, rv, bits),
            (EvalResult::Data(Value::Rune(l)), EvalResult::Data(Value::Rune(rv))) => if op == NumOp::Add {
                r matches Ok(res) && res@ == EvalResultV::Data(ValueV::Rune(l@ + rv@))
            } else {
                is_invalid(r, "Operation requires compatible types"@, *line_info)
            },
            _ => is_invalid(r, "Operation requires compatible types"@, *line_info),
        },
{
    match (left, right) {
        (EvalResult::Data(Value::Arcana(l)), EvalResult::Data(Value::Arcana(rv))) => {
            let n = arcana_binary(op, l, rv, line_info)?;
            Ok(EvalResult::Data(Value::Arcana(n)))
        },
        (EvalResult::Data(Value::Aether(l)), EvalResult::Data(Value::Aether(rv))) => {
            let bits = match op {
                NumOp::Add => math.add(l, rv),
                NumOp::Sub => math.sub(l, rv),
                NumOp::Mul => math.mul(l, rv),
                NumOp::Div => math.div(l, rv),
                NumOp::Mod => math.rem(l, rv),
            };
            Ok(EvalResult::Data(Value::Aether(bits)))
        },
        (EvalResult::Data(Value::Rune(l)), EvalResult::Data(Value::Rune(rv))) => {
            if op == NumOp::Add {
                let mut s = l;
                push_str(&mut s, rv.as_str());
                Ok(EvalResult::Data(Value::Rune(s)))
            } else {
                Err(EvalError::InvalidOperation(owned("Operation requires compatible types"), *line_info))
            }
        },
        _ => Err(EvalError::InvalidOperation(owned("Operation requires compatible types"), *line_info)),
    }
}

/// `l ^ r` on arcana values; a negative exponent is an error.
pub fn pow_arcana_op(left: EvalResult, right: EvalResult, line_info: &Option<LineInfo>) -> (r: Result<EvalResult, EvalError>)
    ensures
        match (left, right) {
            (EvalResult::Data(Value::Arcana(l)), EvalResult::Data(Value::Arcana(e))) => if e < 0 {
                r matches Err(EvalError::NegativeExponent(li)) && li == *line_info
            } else if i64::MIN <= pow_int(l as int, e as nat) <= i64::MAX {
                r matches Ok(res) && res@ == EvalResultV::Data(ValueV::Arcana(pow_int(l as int, e as nat) as i64))
            } else {
                is_invalid(r, "Arithmetic overflow"@, *line_info)
            },
            _ => is_invalid(r, "PowArcana operation requires two Arcana!"@, *line_info),
        },
{
    match (left, right) {
        (EvalResult::Data(Value::Arcana(l)), EvalResult::Data(Value::Arcana(e))) => {
            if e < 0 {
                Err(EvalError::NegativeExponent(*line_info))
            } else {
                match arcana_pow(l, e as u64) {
                    Some(n) => Ok(EvalResult::Data(Value::Arcana(n))),
                    None => Err(EvalError::InvalidOperation(owned("Arithmetic overflow"), *line_info)),
                }
            }
        },
        _ => Err(EvalError::InvalidOperation(owned("PowArcana operation requires two Arcana!"), *line_info)),
    }
}

/// `l ** r` on aether values, by the host.
pub fn pow_aether_op<M: AetherOps>(math: &M, left: EvalResult, right: EvalResult, line_info: &Option<LineInfo>) -> (r: Result<EvalResult, EvalError>)
    ensures
        match (left, right) {
            (EvalResult::Data(Value::Aether(l)), EvalResult::Data(Value::Aether(e))) => r matches Ok(
                EvalResult::Data(Value::Aether(bits)),
            ) && call_ensures(M::pow, (math, l, e), bits),
            _ => is_invalid(r, "PowAether operation requires two Aether!"@, *line_info),
        },
{
    match (left, right) {
        (EvalResult::Data(Value::Aether(l)), EvalResult::Data(Value::Aether(e))) => Ok(EvalResult::Data(Value::Aether(math.pow(l, e)))),
        _ => Err(EvalError::InvalidOperation(owned("PowAether operation requires two Aether!"), *line_info)),
    }
}

/// `==` (or, with `equality` false, `!=`): arcana and runes compare
/// exactly, aether within the machine epsilon (by the host).
pub fn compare_values<M: AetherOps>(
    math: &M,
    left: EvalResult,
    right: EvalResult,
    line_info: &Option<LineInfo>,
    equality: bool,
) -> (r: Result<EvalResult, EvalError>)
    ensures
        match (left, right) {
            (EvalResult::Data(Value::Arcana(l)), EvalResult::Data(Value::Arcana(rv))) => r matches Ok(res)
                && res@ == EvalResultV::Data(ValueV::Omen((l == rv) == equality)),
            (EvalResult::Data(Value::Rune(l)), EvalResult::Data(Value::Rune(rv))) => r matches Ok(res)
                && res@ == EvalResultV::Data(ValueV::Omen((l@ == rv@) == equality)),
            (EvalResult::Data(Value::Aether(l)), EvalResult::Data(Value::Aether(rv))) => r matches Ok(
                EvalResult::Data(Value::Omen(o)),
            ) && exists|same: bool| call_ensures(M::approx_eq, (math, l, rv), same) && o == (same == equality),
            _ => is_invalid(r, "Comparison requires compatible types!"@, *line_info),
        },
{
    let comparison = match (&left, &right) {
        (EvalResult::Data(Value::Arcana(l)), EvalResult::Data(Value::Arcana(rv))) => *l == *rv,
        (EvalResult::Data(Value::Aether(l)), EvalResult::Data(Value::Aether(rv))) => math.approx_eq(*l, *rv),
        (EvalResult::Data(Value::Rune(l)), EvalResult::Data(Value::Rune(rv))) => str_eq(l.as_str(), rv.as_str()),
        _ => {
            return Err(EvalError::InvalidOperation(owned("Comparison requires compatible types!"), *line_info));
        },
    };
    Ok(EvalResult::Data(Value::Omen(comparison == equality)))
}

/// An ordering operator.
#[derive(Clone, Copy, Debug, PartialEq, Eq, Structural)]
pub enum OrderOp {
    Less,
    LessEq,
    Greater,
    GreaterEq,
}

/// The spacing of the doubles around a magnitude `m` below 2^64: the
/// least power of two `u` (from `u` on, doubling at most `steps` times) with
/// `m < 2^53 * u`, since a double has a significand of 53 bits.
pub open spec fn double_spacing(m: int, u: int, steps: nat) -> int
    decreases steps,
{
    if steps == 0 || m < 0x20_0000_0000_0000 * u {
        u
    } else {
        double_spacing(m, 2 * u, (steps - 1) as nat)
    }
}

/// The double nearest to the magnitude `m` (of an arcana value), as an
/// integer: `m` rounded to a multiple of the spacing, a tie going to the
/// even multiple.
#[verifier::opaque]
pub open spec fn nearest_double_magnitude(m: int) -> int {
    let u = double_spacing(m, 1, 11);
    let q = m / u;
    let r = m % u;
    if 2 * r < u || (2 * r == u && q % 2 == 0) {
        u * q
    } else {
        u * q + u
    }
}

/// The value of the double that an arcana value `n` converts to (`n as
/// f64`), as an integer.
pub open spec fn nearest_double(n: int) -> int {
    if n < 0 {
        -nearest_double_magnitude(-n)
    } else {
        nearest_double_magnitude(n)
    }
}

/// The integer value of `n as f64`.
fn arcana_as_double(n: i64) -> (d: i128)
    ensures
        d == nearest_double(n as int),
{
    let m: i128 = if n < 0 {
        0i128 - n as i128
    } else {
        n as i128
    };
    let mut u: i128 = 1;
    let mut steps: u32 = 11;
    while steps > 0 && m >= 0x20_0000_0000_0000i128 * u
        invariant
            0 <= m <= 0x8000_0000_0000_0000,
            0 < u <= 2048,
            steps <= 11,
            double_spacing(m as int, u as int, steps as nat) == double_spacing(m as int, 1, 11),
        decreases steps,
    {
        u = 2 * u;
        steps = steps - 1;
    }
    let q = m / u;
    let r = m % u;
    proof {
        vstd::arithmetic::div_mod::lemma_fundamental_div_mod(m as int, u as int);
    }
    let mag: i128 = if 2 * r < u || (2 * r == u && q % 2 == 0) {
        u * q
    } else {
        u * q + u
    };
    proof {
        reveal(nearest_double_magnitude);
    }
    if n < 0 {
        0i128 - mag
    } else {
        mag
    }
}

/// `l op r` on integers.
pub open spec fn order_holds(op: OrderOp, l: int, r: int) -> bool {
    match op {
        OrderOp::Less => l < r,
        OrderOp::LessEq => l <= r,
        OrderOp::Greater => l > r,
        OrderOp::GreaterEq => l >= r,
    }
}

/// `o` is what the host gives for `l op r` on two doubles: `less` or
/// `less_eq` of the operands, in order for `<` and `<=`, swapped for `>`
/// and `>=`.
pub open spec fn host_order<M: AetherOps>(math: &M, op: OrderOp, l: u64, r: u64, o: bool) -> bool {
    match op {
        OrderOp::Less => call_ensures(M::less, (math, l, r), o),
        OrderOp::LessEq => call_ensures(M::less_eq, (math, l, r), o),
        OrderOp::Greater => call_ensures(M::less, (math, r, l), o),
        OrderOp::GreaterEq => call_ensures(M::less_eq, (math, r, l), o),
    }
}

/// `<`, `<=`, `>`, `>=` on two arcana or two aether values.
pub fn order_values<M: AetherOps>(
    math: &M,
    left: EvalResult,
    right: EvalResult,
    line_info: &Option<LineInfo>,
    op: OrderOp,
) -> (r: Result<EvalResult, EvalError>)
    ensures
        match (left, right) {
            (EvalResult::Data(Value::Arcana(l)), EvalResult::Data(Value::Arcana(rv))) => r matches Ok(res)
                && res@ == EvalResultV::Data(ValueV::Omen(order_holds(op, nearest_double(l as int), nearest_double(rv as int)))),
            (EvalResult::Data(Value::Aether(l)), EvalResult::Data(Value::Aether(rv))) => r matches Ok(
                EvalResult::Data(Value::Omen(o)),
            ) && host_order(math, op, l, rv, o),
            _ => is_invalid(r, "Comparison requires numeric types!"@, *line_info),
        },
{
    match (left, right) {
        (EvalResult::Data(Value::Arcana(l)), EvalResult::Data(Value::Arcana(rv))) => {
            let (dl, dr) = (arcana_as_double(l), arcana_as_double(rv));
            let b = match op {
                OrderOp::Less => dl < dr,
                OrderOp::LessEq => dl <= dr,
                OrderOp::Greater => dl > dr,
                OrderOp::GreaterEq => dl >= dr,
            };
            Ok(EvalResult::Data(Value::Omen(b)))
        },
        (EvalResult::Data(Value::Aether(l)), EvalResult::Data(Value::Aether(rv))) => {
            let b = match op {
                OrderOp::Less => math.less(l, rv),
                OrderOp::LessEq => math.less_eq(l, rv),
                OrderOp::Greater => math.less(rv, l),
                OrderOp::GreaterEq => math.less_eq(rv, l),
            };
            Ok(EvalResult::Data(Value::Omen(b)))
        },
        _ => Err(EvalError::InvalidOperation(owned("Comparison requires numeric types!"), *line_info)),
    }
}

/// `&&` (with `and` true) or `||` on two omens; both sides are evaluated.
pub fn logical_op(left: EvalResult, right: EvalResult, line_info: &Option<LineInfo>, and: bool) -> (r: Result<EvalResult, EvalError>)
    ensures
        match (left, right) {
            (EvalResult::Data(Value::Omen(l)), EvalResult::Data(Value::Omen(rv))) => r matches Ok(res)
                && res@ == EvalResultV::Data(ValueV::Omen(if and { l && rv } else { l || rv })),
            _ => is_invalid(r, "Logical operation requires two Omen!"@, *line_info),
        },
{
    match (left, right) {
        (EvalResult::Data(Value::Omen(l)), EvalResult::Data(Value::Omen(rv))) => {
            let b = if and { l && rv } else { l || rv };
            Ok(EvalResult::Data(Value::Omen(b)))
        },
        _ => Err(EvalError::InvalidOperation(owned("Logical operation requires two Omen!"), *line_info)),
    }
}

/// `!` on an omen.
pub fn logical_not(value: EvalResult, line_info: &Option<LineInfo>) -> (r: Result<EvalResult, EvalError>)
    ensures
        match value {
            EvalResult::Data(Value::Omen(b)) => r matches Ok(res) && res@ == EvalResultV::Data(ValueV::Omen(!b)),
            _ => is_invalid(r, "LogicalNot operation requires Omen!"@, *line_info),
        },
{
    match value {
        EvalResult::Data(Value::Omen(b)) => Ok(EvalResult::Data(Value::Omen(!b))),
        _ => Err(EvalError::InvalidOperation(owned("LogicalNot operation requires Omen!"), *line_info)),
    }
}

/// Whether `r` is a result with a value of the declared return type `t`.
pub open spec fn result_fits(r: EvalResultV, t: TypeV) -> bool {
    match t {
        TypeV::Materia => true,
        _ => r matches EvalResultV::Data(v) && value_fits(v, t),
    }
}

/// The result of a call, checked against the function's return type:
/// `materia` lets anything through.
pub fn check_return(result: EvalResult, return_type: &Type, function_name: &str, line_info: &Option<LineInfo>) -> (r: Result<EvalResult, EvalError>)
    ensures
        if result_fits(result@, return_type@) {
            r == Ok::<EvalResult, EvalError>(result)
        } else {
            is_type_error(r, "Type mismatch for return value of function "@ + function_name@, *line_info)
        },
{
    let ok = match return_type {
        Type::Materia => true,
        _ => match &result {
            EvalResult::Data(v) => fits(v, return_type),
            _ => false,
        },
    };
    if ok {
        Ok(result)
    } else {
        let mut m = owned("Type mismatch for return value of function ");
        push_str(&mut m, function_name);
        Err(EvalError::TypeError(m, *line_info))
    }
}

} // verus!
