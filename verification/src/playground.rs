//! Running whole scripts: the browser playground, which captures what a
//! script prints, and the command line's script execution.
use vstd::prelude::*;

use crate::eval::result::{error_line, error_message, EvalError, EvalResult};
use crate::eval::statements::{evaluate, evaluates, lemma_evaluates_without_output};
use crate::env::{AetherOps, Environment, IoBridge};
use crate::parser::diagnostics::{holds_header, render_diagnostics, ParserDiagnostic};
use crate::parser::parses_to;
use crate::ast::AST;
use crate::parser::parse;
use crate::report::{error_with_source_text, format_error_with_source};
use crate::stdlib::{create_global_environment, invoked, is_global_environment, set_invocation};
use crate::text::{int_text, int_to_string, owned, push_str};

verus! {

/// The output host of the playground: what `unveil` writes is kept in
/// `stdout`; input cannot be read.
pub struct PlaygroundBridge {
    pub stdout: String,
}

/// The message of a read in the playground.
pub open spec fn playground_input_message() -> Seq<char> {
    "summon (interactive input) is not available in the Playground"@
}

impl IoBridge for PlaygroundBridge {
    open spec fn models_output(&self) -> bool {
        true
    }

    open spec fn written(&self) -> Seq<char> {
        self.stdout@
    }

    fn write_str(&mut self, content: &str) -> (r: Result<(), String>)
        ensures
            r is Ok,
            final(self).stdout@ == old(self).stdout@ + content@,
    {
        push_str(&mut self.stdout, content);
        Ok(())
    }

    fn flush(&mut self) -> (r: Result<(), String>)
        ensures
            r is Ok,
            final(self).stdout@ == old(self).stdout@,
    {
        Ok(())
    }

    fn read_line(&mut self) -> (r: Result<String, String>)
        ensures
            r matches Err(m) && m@ == playground_input_message(),
            final(self).stdout@ == old(self).stdout@,
    {
        Err(owned("summon (interactive input) is not available in the Playground"))
    }
}

/// What one run in the playground gives back: what the script printed,
/// the rendered diagnostic, and a summary when the run could not
/// complete.
#[derive(Debug)]
pub struct EvalOutcome {
    pub stdout: String,
    pub stderr: String,
    pub error: Option<String>,
}

/// The summary of a source that did not parse.
pub open spec fn diagnostics_summary(n: nat) -> Seq<char> {
    int_text(n as int) + " parser diagnostic(s) — see stderr for details"@
}

/// The report of parser diagnostics; the fallback prefix and why, where
/// a span does not lie within the source or a report cannot be rendered.
fn diagnostics_report(source_id: &str, source: &str, diagnostics: &Vec<ParserDiagnostic>, fallback_prefix: &str) -> (text: String)
    requires
        fallback_prefix@.len() > 0,
    ensures
        diagnostics@.len() == 0 ==> text@.len() == 0,
        diagnostics@.len() > 0 ==> text@.len() > 0,
{
    let len = source.unicode_len();
    let mut fit = true;
    let mut i: usize = 0;
    while i < diagnostics.len()
        invariant
            i <= diagnostics@.len(),
            len == source@.len(),
            fit == forall|k: int| 0 <= k < i ==> #[trigger] diagnostics@[k].span.start <= diagnostics@[k].span.end <= len,
        decreases diagnostics@.len() - i,
    {
        let ok = diagnostics[i].span.start <= diagnostics[i].span.end && diagnostics[i].span.end <= len;
        proof {
            if !ok {
                assert(!(diagnostics@[i as int].span.start <= diagnostics@[i as int].span.end <= len));
            }
            assert((forall|k: int| 0 <= k < i + 1 ==> #[trigger] diagnostics@[k].span.start <= diagnostics@[k].span.end <= len)
                == ((forall|k: int| 0 <= k < i ==> #[trigger] diagnostics@[k].span.start <= diagnostics@[k].span.end <= len) && ok));
        }
        fit = fit && ok;
        i = i + 1;
    }
    if fit {
        match render_diagnostics(source_id, source, diagnostics.as_slice()) {
            Ok(rendered) => {
                proof {
                    if diagnostics@.len() > 0 {
                        let parts = choose|parts: Seq<Seq<char>>| parts.len() == diagnostics@.len() && rendered@ == #[trigger] parts.flatten()
                            && forall|k: int| 0 <= k < parts.len() ==> holds_header(#[trigger] parts[k], diagnostics@[k].title@);
                        assert(holds_header(parts[0], diagnostics@[0].title@));
                        parts.lemma_flatten_length_ge_single_element_length(0);
                        parts.lemma_flatten_and_flatten_alt_are_equivalent();
                    }
                }
                rendered
            },
            Err(err) => {
                let mut text = owned(fallback_prefix);
                push_str(&mut text, err.as_str());
                text
            },
        }
    } else {
        let mut text = owned(fallback_prefix);
        push_str(&mut text, "a diagnostic span does not lie within the source");
        text
    }
}

/// `results` are what running the first `results.len()` statements of
/// `stmts` one after another gives by the contract of `evaluate` (see
/// [`evaluates`]), each statement in the environment the one before left
/// (`envs[i]` before statement `i`, `envs[i + 1]` after it) and after the
/// output the one before left (`outs[i]` written before statement `i`);
/// the run stops at the first error.
pub open spec fn runs_as(
    models: bool,
    stmts: Seq<AST>,
    envs: Seq<Environment>,
    outs: Seq<Seq<char>>,
    results: Seq<Result<EvalResult, EvalError>>,
) -> bool {
    &&& envs.len() == results.len() + 1
    &&& outs.len() == results.len() + 1
    &&& results.len() <= stmts.len()
    &&& forall|i: int| 0 <= i < results.len() ==> evaluates(stmts[i], envs[i], envs[i + 1], models, outs[i], outs[i + 1], #[trigger] results[i])
    &&& forall|i: int| 0 <= i < results.len() - 1 ==> (#[trigger] results[i]) is Ok
}

/// The run stopped at an error: its last result is that error.
pub open spec fn stopped_at(results: Seq<Result<EvalResult, EvalError>>, err: EvalError) -> bool {
    results.len() > 0 && results.last() == Err::<EvalResult, EvalError>(err)
}

/// Every statement ran and none failed.
pub open spec fn ran_through(stmts: Seq<AST>, results: Seq<Result<EvalResult, EvalError>>) -> bool {
    results.len() == stmts.len() && forall|i: int| 0 <= i < results.len() ==> (#[trigger] results[i]) is Ok
}

/// Runs a source in the playground: a source that does not parse is
/// reported and not run; otherwise its statements run in order (see
/// [`runs_as`]), output is captured (the captured text is what the
/// statements that ran wrote), and the first runtime error stops the run
/// and is reported beside its line, after what was printed until then.
pub fn run<M: AetherOps>(source: &str, math: &M) -> (out: EvalOutcome)
    ensures
        out.error is None ==> out.stderr@.len() == 0 && exists|
            stmts: Seq<AST>,
            envs: Seq<Environment>,
            outs: Seq<Seq<char>>,
            results: Seq<Result<EvalResult, EvalError>>,
        |
            #![trigger parses_to(source@, stmts), runs_as(true, stmts, envs, outs, results)]
            parses_to(source@, stmts) && runs_as(true, stmts, envs, outs, results) && is_global_environment(envs[0]) && outs[0].len() == 0
                && out.stdout@ == outs.last() && ran_through(stmts, results),
        out.error matches Some(e) ==> (out.stdout@.len() == 0 && e@ == diagnostics_summary(1) && out.stderr@.len() > 0) || exists|
            stmts: Seq<AST>,
            envs: Seq<Environment>,
            outs: Seq<Seq<char>>,
            results: Seq<Result<EvalResult, EvalError>>,
            err: EvalError,
        |
            #![trigger parses_to(source@, stmts), runs_as(true, stmts, envs, outs, results), stopped_at(results, err)]
            parses_to(source@, stmts) && runs_as(true, stmts, envs, outs, results) && is_global_environment(envs[0]) && outs[0].len() == 0
                && out.stdout@ == outs.last() && stopped_at(results, err)
                && e@ == error_message(err) && out.stderr@ == error_with_source_text(source@, error_line(err), error_message(err)),
        !(exists|stmts: Seq<AST>| #[trigger] parses_to(source@, stmts)) ==> out.stdout@.len() == 0
            && (out.error matches Some(e) && e@ == diagnostics_summary(1)),
{
    let parsed = parse(source);
    if parsed.diagnostics.len() > 0 {
        proof {
            reveal_strlit("Failed to render diagnostics: ");
        }
        let stderr = diagnostics_report("<playground>", source, &parsed.diagnostics, "Failed to render diagnostics: ");
        let mut summary = int_to_string(parsed.diagnostics.len() as i64);
        push_str(&mut summary, " parser diagnostic(s) — see stderr for details");
        assert(parsed.diagnostics@.len() == 1);
        return EvalOutcome { stdout: String::new(), stderr, error: Some(summary) };
    }
    let mut bridge = PlaygroundBridge { stdout: String::new() };
    let mut env = create_global_environment();
    let ghost mut envs: Seq<Environment> = seq![env];
    let ghost mut outs: Seq<Seq<char>> = seq![bridge.stdout@];
    let ghost mut results: Seq<Result<EvalResult, EvalError>> = Seq::empty();
    let mut i: usize = 0;
    assert(parses_to(source@, parsed.ast@));
    while i < parsed.ast.len()
        invariant
            env.scopes().len() >= 1,
            parses_to(source@, parsed.ast@),
            runs_as(true, parsed.ast@, envs, outs, results),
            results.len() == i,
            envs.last() == env,
            outs.last() == bridge.stdout@,
            outs[0].len() == 0,
            is_global_environment(envs[0]),
            forall|k: int| 0 <= k < results.len() ==> (#[trigger] results[k]) is Ok,
        decreases parsed.ast@.len() - i,
    {
        let r = evaluate(&parsed.ast[i], &mut env, &mut bridge, math);
        proof {
            let e0 = envs[0];
            let o0 = outs[0];
            results = results.push(r);
            envs = envs.push(env);
            outs = outs.push(bridge.stdout@);
            assert(envs[0] == e0 && outs[0] == o0);
            assert forall|k: int| 0 <= k < results.len() implies evaluates(parsed.ast@[k], envs[k], envs[k + 1], true, outs[k], outs[k + 1], #[trigger] results[k]) by {
                if k < i {
                    assert(results[k] == results.drop_last()[k]);
                }
            }
        }
        match r {
            Ok(_) => {},
            Err(error) => {
                let message = error.message();
                let stderr = report_runtime_error(source, &error);
                proof {
                    assert(stopped_at(results, error));
                    assert(parses_to(source@, parsed.ast@) && runs_as(true, parsed.ast@, envs, outs, results) && is_global_environment(envs[0]));
                }
                return EvalOutcome { stdout: bridge.stdout, stderr, error: Some(message) };
            },
        }
        i = i + 1;
    }
    assert(ran_through(parsed.ast@, results));
    EvalOutcome { stdout: bridge.stdout, stderr: String::new(), error: None }
}

/// The report of a runtime error beside its line of the script.
fn report_runtime_error(script: &str, error: &EvalError) -> (text: String)
    ensures
        text@ == error_with_source_text(script@, error_line(*error), error_message(*error)),
{
    let message = error.message();
    format_error_with_source(script, error.line_info(), message.as_str())
}

/// What running a script from the command line gives: its exit code, the
/// parser diagnostics (printed to standard output) and the report of a
/// runtime error (printed to standard error).
#[derive(Debug)]
pub struct ScriptRun {
    pub code: i32,
    pub diagnostics: Option<String>,
    pub error_report: Option<String>,
}

/// The exit code `perish(code)` asks for: the code itself where it fits
/// an `i32`, otherwise 1.
pub open spec fn exit_code(code: i64) -> i32 {
    if i32::MIN <= code <= i32::MAX { code as i32 } else { 1 }
}

/// How a run that `error` stopped ends (see [`stopped_by`]).
pub fn stop_script(script: &str, error: &EvalError) -> (r: ScriptRun)
    ensures
        stopped_by(script@, *error, r),
{
    match error {
        EvalError::Perished(code, _) => ScriptRun { code: exit_code_of(*code), diagnostics: None, error_report: None },
        _ => {
            let text = report_runtime_error(script, error);
            ScriptRun { code: 1, diagnostics: None, error_report: Some(text) }
        },
    }
}

fn exit_code_of(code: i64) -> (r: i32)
    ensures
        r == exit_code(code),
{
    if code >= i32::MIN as i64 && code <= i32::MAX as i64 {
        code as i32
    } else {
        1
    }
}

/// How a run that a runtime error stopped ends: `perish(code)` exits
/// silently with [`exit_code`] of its code; any other error exits with 1
/// and the report of the error beside its line of the script.
pub open spec fn stopped_by(script: Seq<char>, err: EvalError, r: ScriptRun) -> bool {
    match err {
        EvalError::Perished(code, _) => r.code == exit_code(code) && r.diagnostics is None && r.error_report is None,
        _ => {
            &&& r.code == 1
            &&& r.diagnostics is None
            &&& r.error_report matches Some(t) && t@ == error_with_source_text(script, error_line(err), error_message(err))
        },
    }
}

/// Runs a script with `args` bound to `invocation`: exit code 0 when it
/// runs to its end, 1 when it does not parse or a runtime error stops it
/// (with the diagnostic or the report to print), or the code `perish`
/// asked for, silently.
pub fn execute_script<B: IoBridge, M: AetherOps>(script: &str, args: &[String], io: &mut B, math: &M) -> (r: ScriptRun)
    ensures
        r.diagnostics is Some ==> r.code == 1 && r.error_report is None,
        r.error_report matches Some(t) ==> r.code == 1 && r.diagnostics is None && exists|err: EvalError| t@
            == #[trigger] error_with_source_text(script@, error_line(err), error_message(err)),
        r.code == 0 ==> r.diagnostics is None && r.error_report is None,
        r.diagnostics is None ==> exists|stmts: Seq<AST>| #[trigger] parses_to(script@, stmts),
        !(exists|stmts: Seq<AST>| #[trigger] parses_to(script@, stmts)) ==> r.code == 1 && r.diagnostics is Some,
        r.diagnostics is None ==> exists|
            stmts: Seq<AST>,
            envs: Seq<Environment>,
            outs: Seq<Seq<char>>,
            results: Seq<Result<EvalResult, EvalError>>,
        |
            #![trigger parses_to(script@, stmts), runs_as(false, stmts, envs, outs, results)]
            parses_to(script@, stmts) && runs_as(false, stmts, envs, outs, results) && outs[0] == old(io).written() && outs.last()
                == final(io).written() && (exists|e0: Environment| #[trigger] is_global_environment(e0)
                && invoked(e0, envs[0], args@)) && ((ran_through(stmts, results) && r.code == 0 && r.error_report is None)
                || exists|err: EvalError| #[trigger] stopped_at(results, err) && stopped_by(script@, err, r)),
{
    let mut env = create_global_environment();
    let ghost e0 = env;
    set_invocation(&mut env, args);
    let outcome = parse(script);
    if outcome.diagnostics.len() > 0 {
        proof {
            reveal_strlit("Failed to emit diagnostics: ");
        }
        let text = diagnostics_report("<script>", script, &outcome.diagnostics, "Failed to emit diagnostics: ");
        return ScriptRun { code: 1, diagnostics: Some(text), error_report: None };
    }
    let ghost mut envs: Seq<Environment> = seq![env];
    let ghost mut outs: Seq<Seq<char>> = seq![io.written()];
    let ghost mut results: Seq<Result<EvalResult, EvalError>> = Seq::empty();
    let mut i: usize = 0;
    assert(parses_to(script@, outcome.ast@));
    assert(is_global_environment(e0) && invoked(e0, envs[0], args@));
    while i < outcome.ast.len()
        invariant
            env.scopes().len() >= 1,
            parses_to(script@, outcome.ast@),
            runs_as(false, outcome.ast@, envs, outs, results),
            results.len() == i,
            envs.last() == env,
            outs.last() == io.written(),
            outs[0] == old(io).written(),
            is_global_environment(e0) && invoked(e0, envs[0], args@),
            forall|k: int| 0 <= k < results.len() ==> (#[trigger] results[k]) is Ok,
        decreases outcome.ast@.len() - i,
    {
        let ghost old_models = io.models_output();
        let r = evaluate(&outcome.ast[i], &mut env, io, math);
        proof {
            let first = envs[0];
            let o0 = outs[0];
            results = results.push(r);
            envs = envs.push(env);
            outs = outs.push(io.written());
            assert(envs[0] == first && outs[0] == o0);
            lemma_evaluates_without_output(outcome.ast@[i as int], envs[i as int], env, old_models, outs[i as int], io.written(), r);
            assert forall|k: int| 0 <= k < results.len() implies evaluates(outcome.ast@[k], envs[k], envs[k + 1], false, outs[k], outs[k + 1], #[trigger] results[k]) by {
                if k < i {
                    assert(results[k] == results.drop_last()[k]);
                }
            }
        }
        match r {
            Ok(_) => {},
            Err(error) => {
                let stop = stop_script(script, &error);
                proof {
                    assert(stopped_at(results, error));
                    assert(stopped_by(script@, error, stop));
                    assert(parses_to(script@, outcome.ast@) && runs_as(false, outcome.ast@, envs, outs, results));
                    assert(is_global_environment(e0) && invoked(e0, envs[0], args@));
                }
                return stop;
            },
        }
        i = i + 1;
    }
    assert(ran_through(outcome.ast@, results));
    ScriptRun { code: 0, diagnostics: None, error_report: None }
}

} // verus!
