use abyss_lang::ast::Type;
use abyss_lang::env::{AetherOps, CallArg, Environment, IoBridge, Value};
use abyss_lang::eval::result::{EvalError, EvalResult};
use abyss_lang::playground::{execute_script, run, stop_script};
use abyss_lang::stdlib::create_global_environment;
use abyss_lang::stdlib::runtime::native_perish;

struct Capture {
    out: String,
}

impl IoBridge for Capture {
    fn write_str(&mut self, content: &str) -> Result<(), String> {
        self.out.push_str(content);
        Ok(())
    }
    fn flush(&mut self) -> Result<(), String> {
        Ok(())
    }
    fn read_line(&mut self) -> Result<String, String> {
        Err("no input".to_string())
    }
}

struct Float;

impl AetherOps for Float {
    fn parse(&self, text: &str) -> Option<u64> {
        text.parse::<f64>().ok().map(f64::to_bits)
    }
    fn from_arcana(&self, n: i64) -> u64 {
        (n as f64).to_bits()
    }
    fn to_arcana(&self, a: u64) -> i64 {
        f64::from_bits(a) as i64
    }
    fn add(&self, a: u64, b: u64) -> u64 {
        (f64::from_bits(a) + f64::from_bits(b)).to_bits()
    }
    fn sub(&self, a: u64, b: u64) -> u64 {
        (f64::from_bits(a) - f64::from_bits(b)).to_bits()
    }
    fn mul(&self, a: u64, b: u64) -> u64 {
        (f64::from_bits(a) * f64::from_bits(b)).to_bits()
    }
    fn div(&self, a: u64, b: u64) -> u64 {
        (f64::from_bits(a) / f64::from_bits(b)).to_bits()
    }
    fn rem(&self, a: u64, b: u64) -> u64 {
        (f64::from_bits(a) % f64::from_bits(b)).to_bits()
    }
    fn pow(&self, a: u64, b: u64) -> u64 {
        f64::from_bits(a).powf(f64::from_bits(b)).to_bits()
    }
    fn approx_eq(&self, a: u64, b: u64) -> bool {
        (f64::from_bits(a) - f64::from_bits(b)).abs() < f64::EPSILON
    }
    fn less(&self, a: u64, b: u64) -> bool {
        f64::from_bits(a) < f64::from_bits(b)
    }
    fn less_eq(&self, a: u64, b: u64) -> bool {
        f64::from_bits(a) <= f64::from_bits(b)
    }
    fn to_text(&self, a: u64) -> String {
        f64::from_bits(a).to_string()
    }
}


#[test]
fn run_captures_unveil_output_via_bridge() {
    let outcome = run("unveil(\"hello\");", &Float);
    assert_eq!(outcome.stdout, "hello\n");
    assert!(outcome.stderr.is_empty(), "got stderr: {}", outcome.stderr);
    assert!(outcome.error.is_none(), "got error: {:?}", outcome.error);
}

#[test]
fn run_surfaces_parser_diagnostics_with_no_eval() {
    let outcome = run("forge x = 1;", &Float);
    assert!(outcome.stdout.is_empty());
    assert!(!outcome.stderr.is_empty());
    assert!(outcome.error.is_some());
    let summary = outcome.error.unwrap();
    assert!(summary.contains("parser diagnostic"), "unexpected error summary: {summary}");
}

#[test]
fn run_preserves_partial_stdout_on_runtime_error() {
    let source = "unveil(\"first\");\nreveal y;";
    let outcome = run(source, &Float);
    assert_eq!(outcome.stdout, "first\n");
    assert!(!outcome.stderr.is_empty());
    assert!(outcome.error.is_some());
    let summary = outcome.error.unwrap();
    assert!(summary.contains("Variable y"), "got: {summary}");
}

#[test]
fn run_rejects_summon_with_unsupported_message() {
    let source = r#"forge name: rune = summon("name?");"#;
    let outcome = run(source, &Float);
    assert!(outcome.error.is_some());
    let combined = format!("{}\n{}", outcome.stderr, outcome.error.unwrap());
    assert!(
        combined.contains("not available in the Playground"),
        "expected playground-specific summon error to reach the user; got: {combined}"
    );
}

#[test]
fn builtin_glyphs_are_seeded() {
    let env = create_global_environment();
    for glyph in ["arcana", "aether", "rune", "omen", "abyss", "scroll", "lexicon", "materia", "glyph"] {
        let entry = env.get_var(glyph).unwrap_or_else(|| panic!("missing glyph {}", glyph));
        assert!(matches!(entry.value, Value::Glyph(_)));
        assert_eq!(entry.var_type, Type::Glyph);
        assert!(!entry.is_morph);
    }
}

#[test]
fn perish_defaults_to_zero_and_accepts_code() {
    assert!(matches!(native_perish(vec![], None), Err(EvalError::Perished(0, _))));
    let arg = CallArg { value: EvalResult::data(Value::Arcana(3)), var_name: None };
    assert!(matches!(native_perish(vec![arg], None), Err(EvalError::Perished(3, _))));
}

#[test]
fn runtime_error_report_points_at_the_line() {
    let outcome = run("forge a: arcana = 1;\n  reveal y;", &Float);
    assert_eq!(outcome.error.as_deref(), Some("Variable y (did you mean: a?) is not defined!"));
    assert!(outcome.stderr.starts_with("Error at line 2, column "), "got {}", outcome.stderr);
    assert!(outcome.stderr.contains("\n    reveal y;\n"), "got {}", outcome.stderr);
}

#[test]
fn execute_script_reports_exit_codes() {
    let mut io = Capture { out: String::new() };
    let ok = execute_script("unveil(invocation);", &["a".to_string(), "b".to_string()], &mut io, &Float);
    assert_eq!(ok.code, 0);
    assert!(ok.diagnostics.is_none() && ok.error_report.is_none());
    assert_eq!(io.out, "[a, b]\n");

    let mut io = Capture { out: String::new() };
    let perished = execute_script("perish(7); unveil(1);", &[], &mut io, &Float);
    assert_eq!(perished.code, 7);
    assert_eq!(io.out, "");

    let mut io = Capture { out: String::new() };
    let big = execute_script("perish(5000000000);", &[], &mut io, &Float);
    assert_eq!(big.code, 1);

    let mut io = Capture { out: String::new() };
    let bad = execute_script("forge = ;", &[], &mut io, &Float);
    assert_eq!(bad.code, 1);
    assert!(bad.diagnostics.is_some());

    let mut io = Capture { out: String::new() };
    let failed = execute_script("x;", &[], &mut io, &Float);
    assert_eq!(failed.code, 1);
    assert_eq!(failed.error_report.as_deref(), Some("Error at line 1, column 1: Variable x is not defined!\n  x;\n  ^\n"));
}

#[test]
fn set_then_get_reads_back_the_value() {
    let mut env = Environment::new();
    env.set_var("x".to_string(), Value::Arcana(1), Type::Arcana, true, None);
    env.set_var("x".to_string(), Value::Arcana(2), Type::Arcana, true, None);
    assert!(matches!(env.get_var("x").unwrap().value, Value::Arcana(2)));
    env.push_scope();
    env.set_var("x".to_string(), Value::Arcana(3), Type::Arcana, false, None);
    assert!(matches!(env.get_var("x").unwrap().value, Value::Arcana(3)));
    env.pop_scope();
    assert!(matches!(env.get_var("x").unwrap().value, Value::Arcana(2)));
    assert!(env.assign_var("x", Value::Arcana(9)));
    assert!(matches!(env.get_var("x").unwrap().value, Value::Arcana(9)));
    assert!(!env.assign_var("nope", Value::Abyss));
}

#[test]
fn stop_script_ends_as_the_error_asks() {
    let perished = stop_script("perish(7);", &EvalError::Perished(7, None));
    assert_eq!(perished.code, 7);
    assert!(perished.diagnostics.is_none());
    assert!(perished.error_report.is_none());

    let failed = stop_script("x;", &EvalError::UndefinedVariable("x".to_string(), None));
    assert_eq!(failed.code, 1);
    assert!(failed.diagnostics.is_none());
    assert!(failed.error_report.is_some());
}
