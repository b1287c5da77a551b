use abyss_lang::env::{AetherOps, IoBridge, Value};
use abyss_lang::eval::result::{EvalError, EvalResult};
use abyss_lang::eval::statements::evaluate;
use abyss_lang::parser::parse;
use abyss_lang::stdlib::create_global_environment;

struct Capture {
    out: String,
}

impl IoBridge for Capture {
    fn write_str(&mut self, content: &str) -> Result<(), String> {
        self.out.push_str(content);
        Ok(())
    }
    fn flush(&mut self) -> Result<(), String> {
        Ok(())
    }
    fn read_line(&mut self) -> Result<String, String> {
        Err("no input".to_string())
    }
}

struct Float;

impl AetherOps for Float {
    fn parse(&self, text: &str) -> Option<u64> {
        text.parse::<f64>().ok().map(f64::to_bits)
    }
    fn from_arcana(&self, n: i64) -> u64 {
        (n as f64).to_bits()
    }
    fn to_arcana(&self, a: u64) -> i64 {
        f64::from_bits(a) as i64
    }
    fn add(&self, a: u64, b: u64) -> u64 {
        (f64::from_bits(a) + f64::from_bits(b)).to_bits()
    }
    fn sub(&self, a: u64, b: u64) -> u64 {
        (f64::from_bits(a) - f64::from_bits(b)).to_bits()
    }
    fn mul(&self, a: u64, b: u64) -> u64 {
        (f64::from_bits(a) * f64::from_bits(b)).to_bits()
    }
    fn div(&self, a: u64, b: u64) -> u64 {
        (f64::from_bits(a) / f64::from_bits(b)).to_bits()
    }
    fn rem(&self, a: u64, b: u64) -> u64 {
        (f64::from_bits(a) % f64::from_bits(b)).to_bits()
    }
    fn pow(&self, a: u64, b: u64) -> u64 {
        f64::from_bits(a).powf(f64::from_bits(b)).to_bits()
    }
    fn approx_eq(&self, a: u64, b: u64) -> bool {
        (f64::from_bits(a) - f64::from_bits(b)).abs() < f64::EPSILON
    }
    fn less(&self, a: u64, b: u64) -> bool {
        f64::from_bits(a) < f64::from_bits(b)
    }
    fn less_eq(&self, a: u64, b: u64) -> bool {
        f64::from_bits(a) <= f64::from_bits(b)
    }
    fn to_text(&self, a: u64) -> String {
        f64::from_bits(a).to_string()
    }
}

fn test_base(script: &str) -> Result<Vec<EvalResult>, EvalError> {
    let outcome = parse(script);
    assert!(outcome.diagnostics.is_empty(), "parser emitted diagnostics: {:?}", outcome.diagnostics);
    let mut env = create_global_environment();
    let mut io = Capture { out: String::new() };
    let mut results = Vec::new();
    for ast in &outcome.ast {
        results.push(evaluate(ast, &mut env, &mut io, &Float)?);
    }
    Ok(results)
}

fn is_rune(r: &EvalResult, expected: &str) -> bool {
    matches!(r, EvalResult::Data(Value::Rune(s)) if s == expected)
}

#[test]
fn test_oracle_simple_positive() {
    let input = r#"
    forge x: arcana = 1;
    oracle {
        (x > 0) => "x is positive";
        (x < 0) => "x is negative";
        _ => reveal("x is zero");
    };
    "#;
    match test_base(input) {
        Ok(results) => assert!(is_rune(&results[1], "x is positive")),
        Err(e) => panic!("Error: {:?}", e),
    }
}

#[test]
fn test_oracle_simple_zero() {
    let input = r#"
    forge x: arcana = 0;
    oracle {
        (x > 0) => "x is positive";
        (x < 0) => "x is negative";
        _ => "x is zero";
    };
    "#;
    match test_base(input) {
        Ok(results) => assert!(is_rune(&results[1], "x is zero")),
        Err(e) => panic!("Error: {:?}", e),
    }
}

#[test]
fn test_oracle_with_omen_hex() {
    let input = r#"
    forge x: arcana = -1;
    oracle (x > 0) {
        (boon) => reveal("x is positive");
        (hex) => reveal("x is negative or zero");
    };
    "#;
    match test_base(input) {
        Ok(results) => assert!(is_rune(&results[1], "x is negative or zero")),
        Err(e) => panic!("Error: {:?}", e),
    }
}

#[test]
fn test_oracle_with_computation() {
    let input = r#"
    forge x: arcana = 11;
    forge y: arcana = x ^ 2;
    oracle {
        (y > 100) => "y is greater than 100";
        (y == 100) => "y is equal to 100";
        _ => "y is less than 100";
    };
    "#;
    match test_base(input) {
        Ok(results) => assert!(is_rune(&results[2], "y is greater than 100")),
        Err(e) => panic!("Error: {:?}", e),
    }
}

#[test]
fn test_oracle_with_string_comparison() {
    let input = r#"
    forge a: rune = "abyss";
    oracle {
        (a == "abyss") => "a is abyss";
        _ => "a is not abyss";
    };
    "#;
    match test_base(input) {
        Ok(results) => assert!(is_rune(&results[1], "a is abyss")),
        Err(e) => panic!("Error: {:?}", e),
    }
}

#[test]
fn test_oracle_with_multiple_conditions_1() {
    let input = r#"
    forge a: arcana = 3;
    forge b: arcana = 2;
    oracle (a, b) {
        (1, 2) => reveal("a is 1 and b is 2");
        (_, 2) => reveal("a is not 1 and b is 2");
        (1, _) => reveal("a is 1 and b is not 2");
        _ => reveal("a is not 1 and b is not 2");
    };
    "#;
    match test_base(input) {
        Ok(results) => assert!(is_rune(&results[2], "a is not 1 and b is 2")),
        Err(e) => panic!("Error: {:?}", e),
    }
}

#[test]
fn test_oracle_with_multiple_conditions_2() {
    let input = r#"
    forge a: arcana = 1;
    forge b: arcana = 3;
    oracle {
        (a == 1 && b == 2) => reveal("a is 1 and b is 2");
        (a != 1 && b == 2) => reveal("a is not 1 and b is 2");
        (a == 1 && b != 2) => reveal("a is 1 and b is not 2");
        _ => reveal("a is not 1 and b is not 2");
    };
    "#;
    match test_base(input) {
        Ok(results) => assert!(is_rune(&results[2], "a is 1 and b is not 2")),
        Err(e) => panic!("Error: {:?}", e),
    }
}

#[test]
fn test_oracle_match_ward_passes_when_guard_is_boon() {
    let input = r#"
    forge mode: rune = "active";
    forge count: arcana = 5;
    forge result: rune = oracle (mode) {
        ("active") ward count > 0 => reveal("ready");
        ("active") => reveal("idle");
        _ => reveal("inactive");
    };
    result;
    "#;
    match test_base(input) {
        Ok(results) => assert!(is_rune(&results[3], "ready")),
        Err(e) => panic!("Error: {:?}", e),
    }
}

#[test]
fn test_oracle_match_ward_falls_through_when_guard_is_hex() {
    let input = r#"
    forge mode: rune = "active";
    forge count: arcana = 0;
    forge result: rune = oracle (mode) {
        ("active") ward count > 0 => reveal("ready");
        ("active") => reveal("idle");
        _ => reveal("inactive");
    };
    result;
    "#;
    match test_base(input) {
        Ok(results) => assert!(is_rune(&results[3], "idle")),
        Err(e) => panic!("Error: {:?}", e),
    }
}

#[test]
fn test_oracle_match_ward_with_non_omen_errors() {
    let input = r#"
    forge n: arcana = 1;
    oracle (n) {
        (1) ward 42 => "never";
        _ => "never either";
    };
    "#;
    match test_base(input) {
        Ok(results) => panic!("expected ward type error, got {:?}", results),
        Err(e) => {
            let msg = format!("{:?}", e);
            assert!(msg.contains("Oracle ward must evaluate to an omen"), "unexpected error: {}", msg)
        }
    }
}

#[test]
fn test_oracle_if_else_ward_acts_as_extra_condition() {
    let input = r#"
    forge x: arcana = 7;
    forge y: arcana = 3;
    forge result: rune = oracle {
        (x > 0) ward y > 0 => reveal("both positive");
        (x > 0) => reveal("only x positive");
        _ => reveal("other");
    };
    result;
    "#;
    match test_base(input) {
        Ok(results) => assert!(is_rune(&results[3], "both positive")),
        Err(e) => panic!("Error: {:?}", e),
    }
}

#[test]
fn test_oracle_match_binds_bare_identifier_pattern() {
    let input = r#"
    forge n: arcana = 7;
    forge result: arcana = oracle (n) {
        (x) => reveal(x * 2);
    };
    result;
    "#;
    match test_base(input) {
        Ok(results) => assert!(matches!(results[2], EvalResult::Data(Value::Arcana(14)))),
        Err(e) => panic!("Error: {:?}", e),
    }
}

#[test]
fn test_oracle_match_binding_visible_in_ward() {
    let input = r#"
    forge n: arcana = 7;
    forge result: rune = oracle (n) {
        (x) ward x > 0 => reveal("positive");
        (x) => reveal("non-positive");
    };
    result;
    "#;
    match test_base(input) {
        Ok(results) => assert!(is_rune(&results[2], "positive")),
        Err(e) => panic!("Error: {:?}", e),
    }
}

#[test]
fn test_oracle_match_multiple_bindings_across_scrutinees() {
    let input = r#"
    forge a: arcana = 3;
    forge b: arcana = 4;
    forge sum: arcana = oracle (a, b) {
        (x, y) => reveal(x + y);
    };
    sum;
    "#;
    match test_base(input) {
        Ok(results) => assert!(matches!(results[3], EvalResult::Data(Value::Arcana(7)))),
        Err(e) => panic!("Error: {:?}", e),
    }
}

#[test]
fn test_oracle_match_binding_mixed_with_literals_and_wildcards() {
    let input = r#"
    forge a: arcana = 1;
    forge b: arcana = 99;
    forge result: rune = oracle (a, b) {
        (1, x) => reveal("first is one");
        (_, x) => reveal("first is not one");
    };
    result;
    "#;
    match test_base(input) {
        Ok(results) => assert!(is_rune(&results[3], "first is one")),
        Err(e) => panic!("Error: {:?}", e),
    }
}

#[test]
fn test_oracle_match_binding_does_not_leak_to_outer_scope() {
    let input = r#"
    forge n: arcana = 5;
    oracle (n) {
        (x) => reveal(x);
    };
    x;
    "#;
    match test_base(input) {
        Ok(results) => panic!("expected the post-oracle reference to `x` to fail, got {:?}", results),
        Err(e) => {
            let msg = format!("{:?}", e);
            assert!(msg.contains("UndefinedVariable") && msg.contains('x'), "unexpected error: {}", msg)
        }
    }
}

#[test]
fn test_oracle_match_binding_does_not_leak_between_arms() {
    let input = r#"
    forge n: arcana = 5;
    forge picked: arcana = oracle (n) {
        (x) ward x > 100 => reveal(0);
        (x) => reveal(x);
    };
    picked;
    "#;
    match test_base(input) {
        Ok(results) => assert!(matches!(results[2], EvalResult::Data(Value::Arcana(5)))),
        Err(e) => panic!("Error: {:?}", e),
    }
}

#[test]
fn test_oracle_with_block_and_reveal() {
    let input = r#"
    forge x: arcana = -10;
    forge y: arcana = oracle (x > 0) {
        (boon) => reveal(x);
        (hex) => {
            forge z: arcana = x + 5;
            oracle (z > 0) {
                (boon) => reveal(x + 5);
                (hex) => reveal(x - 5);
            };
        }
    };
    y;
    "#;
    match test_base(input) {
        Ok(results) => assert!(matches!(results[2], EvalResult::Data(Value::Arcana(-15)))),
        Err(e) => panic!("Error: {:?}", e),
    }
}

#[test]
fn oracle_without_matching_branch_is_abyss() {
    let input = r#"
    forge x: arcana = 0;
    oracle {
        (x > 0) => "positive";
    };
    "#;
    let results = test_base(input).expect("runs");
    assert!(matches!(results[1], EvalResult::Data(Value::Abyss)));
}

#[test]
fn oracle_pattern_of_other_kind_is_an_error() {
    let input = r#"
    forge x: arcana = 1;
    oracle (x) {
        ("one") => "never";
        _ => "other";
    };
    "#;
    let err = test_base(input).expect_err("kind mismatch");
    assert!(format!("{:?}", err).contains("Oracle branch pattern type must match conditional type"));
}

#[test]
fn oracle_with_more_patterns_than_scrutinees_is_an_error() {
    let input = r#"
    forge x: arcana = 1;
    oracle (x) {
        (1, 2) => "never";
    };
    "#;
    let err = test_base(input).expect_err("too many patterns");
    assert!(format!("{:?}", err).contains("Oracle pattern has more elements than scrutinees"));
}

#[test]
fn oracle_first_matching_branch_gives_the_value() {
    let input = r#"
    forge n: arcana = 7;
    oracle (n) {
        (1) => reveal 10;
        (m) => reveal m * 3;
        (7) => reveal 0;
    };
    "#;
    let results = test_base(input).expect("runs");
    assert!(matches!(results[1], EvalResult::Data(Value::Arcana(21))));
}
