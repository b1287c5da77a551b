//! `perish`: ending a script on purpose.
use vstd::prelude::*;

use crate::ast::LineInfo;
use crate::env::{CallArg, Value};
use crate::eval::result::{EvalError, EvalResult};
use crate::eval::values::is_invalid;
use crate::text::owned;

verus! {

/// What `perish` promises of its result (see [`native_perish`]).
pub open spec fn perish_post(args: Seq<CallArg>, line: Option<LineInfo>, r: Result<EvalResult, EvalError>) -> bool {
    &&& (args.len() == 0 ==> (r matches Err(EvalError::Perished(c, l)) && c == 0 && l == line))
    &&& (args.len() == 1 ==> match args[0].value {
                EvalResult::Data(Value::Arcana(code)) => r matches Err(EvalError::Perished(c, l)) && c == code && l == line,
                _ => is_invalid(r, "perish() expects an arcana exit code"@, line),
            })
    &&& (args.len() > 1 ==> is_invalid(r, "perish() expects at most one arcana argument"@, line))
}

/// `perish(code)` ends the script with an exit code; `perish()` means
/// code 0. It travels as an error so that every enclosing construct
/// unwinds; the host decides what ending means.
pub fn native_perish(args: Vec<CallArg>, line_info: Option<LineInfo>) -> (r: Result<EvalResult, EvalError>)
    ensures
        perish_post(args@, line_info, r),
{
    if args.len() == 0 {
        return Err(EvalError::Perished(0, line_info));
    }
    if args.len() > 1 {
        return Err(EvalError::InvalidOperation(owned("perish() expects at most one arcana argument"), line_info));
    }
    match &args[0].value {
        EvalResult::Data(Value::Arcana(code)) => Err(EvalError::Perished(*code, line_info)),
        _ => Err(EvalError::InvalidOperation(owned("perish() expects an arcana exit code"), line_info)),
    }
}

} // verus!
