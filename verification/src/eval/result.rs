//! The results and errors of evaluation.
use vstd::prelude::*;

use crate::ast::LineInfo;
use crate::env::{copy_value, value_view, ArtifactValue, Value, ValueV};
use crate::text::{int_to_string, int_text, owned, push_str};

verus! {

/// What evaluating a node gives: a value, or a control-flow signal that
/// travels up to the construct that handles it.
#[derive(Debug)]
pub enum EvalResult {
    Data(Value),
    Revealed(Box<EvalResult>),
    Resume(Option<String>),
    Eject(Option<String>),
}

/// The model of an [`EvalResult`].
pub enum EvalResultV {
    Data(ValueV),
    Revealed(Box<EvalResultV>),
    Resume(Option<Seq<char>>),
    Eject(Option<Seq<char>>),
}

/// The model of an optional label.
pub open spec fn label_view(l: Option<String>) -> Option<Seq<char>> {
    match l {
        Some(s) => Some(s@),
        None => None,
    }
}

/// The model of an evaluation result.
pub open spec fn result_view(r: EvalResult) -> EvalResultV
    decreases r,
{
    match r {
        EvalResult::Data(v) => EvalResultV::Data(value_view(v)),
        EvalResult::Revealed(inner) => EvalResultV::Revealed(Box::new(result_view(*inner))),
        EvalResult::Resume(l) => EvalResultV::Resume(label_view(l)),
        EvalResult::Eject(l) => EvalResultV::Eject(label_view(l)),
    }
}

impl View for EvalResult {
    type V = EvalResultV;

    open spec fn view(&self) -> EvalResultV {
        result_view(*self)
    }
}

impl EvalResult {
    /// The empty value.
    pub fn abyss() -> (r: EvalResult)
        ensures
            r@ == EvalResultV::Data(ValueV::Abyss),
    {
        EvalResult::Data(Value::Abyss)
    }

    /// A plain value.
    pub fn data(value: Value) -> (r: EvalResult)
        ensures
            r@ == EvalResultV::Data(value@),
    {
        EvalResult::Data(value)
    }

    /// An artifact instance.
    pub fn artifact(handle: ArtifactValue) -> (r: EvalResult)
        ensures
            r@ == EvalResultV::Data(Value::Artifact(handle)@),
    {
        EvalResult::Data(Value::Artifact(handle))
    }
}

/// A copy of an optional label.
pub fn copy_label(l: &Option<String>) -> (r: Option<String>)
    ensures
        label_view(r) == label_view(*l),
{
    match l {
        Some(s) => Some(s.clone()),
        None => None,
    }
}

/// A copy of an evaluation result.
pub fn copy_result(r: &EvalResult) -> (out: EvalResult)
    ensures
        out@ == r@,
    decreases r,
{
    match r {
        EvalResult::Data(v) => EvalResult::Data(copy_value(v)),
        EvalResult::Revealed(inner) => {
            let c = copy_result(inner);
            EvalResult::Revealed(Box::new(c))
        },
        EvalResult::Resume(l) => EvalResult::Resume(copy_label(l)),
        EvalResult::Eject(l) => EvalResult::Eject(copy_label(l)),
    }
}

/// What can go wrong while a program runs.
#[derive(Debug)]
pub enum EvalError {
    UndefinedVariable(String, Option<LineInfo>),
    InvalidOperation(String, Option<LineInfo>),
    NegativeExponent(Option<LineInfo>),
    TypeError(String, Option<LineInfo>),
    /// The program asked to end with the given exit code.
    Perished(i64, Option<LineInfo>),
}

/// The text of an error.
pub open spec fn error_message(e: EvalError) -> Seq<char> {
    match e {
        EvalError::UndefinedVariable(name, _) => "Variable "@ + name@ + " is not defined!"@,
        EvalError::InvalidOperation(op, _) => "Invalid operation: "@ + op@,
        EvalError::NegativeExponent(_) => "PowArcana operation requires a non-negative exponent!"@,
        EvalError::TypeError(t, _) => "Type error: "@ + t@,
        EvalError::Perished(code, _) => "Script perished with code "@ + int_text(code as int),
    }
}

/// Where an error arose, when known.
pub open spec fn error_line(e: EvalError) -> Option<LineInfo> {
    match e {
        EvalError::UndefinedVariable(_, l) => l,
        EvalError::InvalidOperation(_, l) => l,
        EvalError::NegativeExponent(l) => l,
        EvalError::TypeError(_, l) => l,
        EvalError::Perished(_, l) => l,
    }
}

impl EvalError {
    /// The text of the error, as it is shown to the user.
    pub fn message(&self) -> (m: String)
        ensures
            m@ == error_message(*self),
    {
        match self {
            EvalError::UndefinedVariable(name, _) => {
                let mut m = owned("Variable ");
                push_str(&mut m, name.as_str());
                push_str(&mut m, " is not defined!");
                m
            },
            EvalError::InvalidOperation(op, _) => {
                let mut m = owned("Invalid operation: ");
                push_str(&mut m, op.as_str());
                m
            },
            EvalError::NegativeExponent(_) => owned("PowArcana operation requires a non-negative exponent!"),
            EvalError::TypeError(t, _) => {
                let mut m = owned("Type error: ");
                push_str(&mut m, t.as_str());
                m
            },
            EvalError::Perished(code, _) => {
                let mut m = owned("Script perished with code ");
                let digits = int_to_string(*code);
                push_str(&mut m, digits.as_str());
                m
            },
        }
    }

    /// Where in the source the error arose, when known.
    pub fn line_info(&self) -> (r: Option<LineInfo>)
        ensures
            r == error_line(*self),
    {
        match self {
            EvalError::UndefinedVariable(_, l) => *l,
            EvalError::InvalidOperation(_, l) => *l,
            EvalError::NegativeExponent(l) => *l,
            EvalError::TypeError(_, l) => *l,
            EvalError::Perished(_, l) => *l,
        }
    }
}

} // verus!
