use abyss_lang::ast::Type;
use abyss_lang::env::{AetherOps, ArtifactValue, Environment, IoBridge, Value};
use abyss_lang::ast::ArtifactField;
use abyss_lang::eval::artifacts::{build_artifact_schema, values_equal};
use abyss_lang::types::{ArtifactFieldSchema, ArtifactSchema};
use abyss_lang::eval::result::{EvalError, EvalResult};
use abyss_lang::eval::statements::evaluate;
use abyss_lang::parser::parse;
use abyss_lang::stdlib::create_global_environment;

struct Capture {
    out: String,
}

impl IoBridge for Capture {
    fn write_str(&mut self, content: &str) -> Result<(), String> {
        self.out.push_str(content);
        Ok(())
    }
    fn flush(&mut self) -> Result<(), String> {
        Ok(())
    }
    fn read_line(&mut self) -> Result<String, String> {
        Err("no input".to_string())
    }
}

struct Float;

impl AetherOps for Float {
    fn parse(&self, text: &str) -> Option<u64> {
        text.parse::<f64>().ok().map(f64::to_bits)
    }
    fn from_arcana(&self, n: i64) -> u64 {
        (n as f64).to_bits()
    }
    fn to_arcana(&self, a: u64) -> i64 {
        f64::from_bits(a) as i64
    }
    fn add(&self, a: u64, b: u64) -> u64 {
        (f64::from_bits(a) + f64::from_bits(b)).to_bits()
    }
    fn sub(&self, a: u64, b: u64) -> u64 {
        (f64::from_bits(a) - f64::from_bits(b)).to_bits()
    }
    fn mul(&self, a: u64, b: u64) -> u64 {
        (f64::from_bits(a) * f64::from_bits(b)).to_bits()
    }
    fn div(&self, a: u64, b: u64) -> u64 {
        (f64::from_bits(a) / f64::from_bits(b)).to_bits()
    }
    fn rem(&self, a: u64, b: u64) -> u64 {
        (f64::from_bits(a) % f64::from_bits(b)).to_bits()
    }
    fn pow(&self, a: u64, b: u64) -> u64 {
        f64::from_bits(a).powf(f64::from_bits(b)).to_bits()
    }
    fn approx_eq(&self, a: u64, b: u64) -> bool {
        (f64::from_bits(a) - f64::from_bits(b)).abs() < f64::EPSILON
    }
    fn less(&self, a: u64, b: u64) -> bool {
        f64::from_bits(a) < f64::from_bits(b)
    }
    fn less_eq(&self, a: u64, b: u64) -> bool {
        f64::from_bits(a) <= f64::from_bits(b)
    }
    fn to_text(&self, a: u64) -> String {
        f64::from_bits(a).to_string()
    }
}

fn test_base(script: &str) -> Result<Vec<EvalResult>, EvalError> {
    let outcome = parse(script);
    assert!(outcome.diagnostics.is_empty(), "parser emitted diagnostics: {:?}", outcome.diagnostics);
    let mut env = create_global_environment();
    let mut io = Capture { out: String::new() };
    let mut results = Vec::new();
    for ast in &outcome.ast {
        results.push(evaluate(ast, &mut env, &mut io, &Float)?);
    }
    Ok(results)
}

fn is_rune(r: &EvalResult, expected: &str) -> bool {
    matches!(r, EvalResult::Data(Value::Rune(s)) if s == expected)
}


fn run_script(script: &str) -> (Result<Vec<EvalResult>, EvalError>, String) {
    let outcome = parse(script);
    assert!(outcome.diagnostics.is_empty(), "parser emitted diagnostics: {:?}", outcome.diagnostics);
    let mut env = create_global_environment();
    let mut io = Capture { out: String::new() };
    let mut results = Vec::new();
    for ast in &outcome.ast {
        match evaluate(ast, &mut env, &mut io, &Float) {
            Ok(r) => results.push(r),
            Err(e) => return (Err(e), io.out),
        }
    }
    (Ok(results), io.out)
}

fn arcana(r: &EvalResult) -> i64 {
    match r {
        EvalResult::Data(Value::Arcana(n)) => *n,
        other => panic!("expected arcana, got {other:?}"),
    }
}

#[test]
fn measure_handles_scroll_and_lexicon() {
    let script = r#"
        forge pack: scroll = [1, 2, 3];
        measure(pack);
        measure({"alpha": 1, "beta": 2});
    "#;

    let results = test_base(script).expect("execution failed");
    assert!(results.len() >= 3, "expected at least three statements");

    match &results[1] {
        EvalResult::Data(Value::Arcana(value)) => assert_eq!(*value, 3),
        other => panic!("expected arcana from first measure, got {other:?}"),
    }

    match &results[2] {
        EvalResult::Data(Value::Arcana(value)) => assert_eq!(*value, 2),
        other => panic!("expected arcana from second measure, got {other:?}"),
    }
}

#[test]
fn inscribe_and_retract_mutate_scroll() {
    let script = r#"
        forge morph pack: scroll = [1];
        inscribe(pack, 2);
        inscribe(pack, 3);
        measure(pack);
        retract(pack);
        measure(pack);
    "#;

    let results = test_base(script).expect("execution failed");
    assert!(results.len() >= 6, "expected at least six statements");

    match &results[3] {
        EvalResult::Data(Value::Arcana(value)) => assert_eq!(*value, 3),
        other => panic!("expected arcana from first measure, got {other:?}"),
    }

    match &results[4] {
        EvalResult::Data(Value::Arcana(value)) => assert_eq!(*value, 3),
        other => panic!("expected arcana from value returned by retract (popped value), got {other:?}"),
    }

    match &results[5] {
        EvalResult::Data(Value::Arcana(value)) => assert_eq!(*value, 2),
        other => panic!("expected arcana from second measure, got {other:?}"),
    }
}

#[test]
fn expunge_and_contents_update_lexicon() {
    let script = r#"
        forge morph ledger: lexicon = {"alpha": 1, "beta": 2};
        expunge(ledger, "alpha");
        contents(ledger);
        measure(ledger);
    "#;

    let results = test_base(script).expect("execution failed");
    assert!(results.len() >= 4, "expected at least four statements");

    match &results[2] {
        EvalResult::Data(Value::Scroll(items)) => {
            assert_eq!(items.len(), 1, "expected one rune key after expunge");
            match &items[0] {
                Value::Rune(key) => assert_eq!(key, "beta"),
                other => panic!("expected rune key, got {other:?}"),
            }
        }
        other => panic!("expected scroll result from contents, got {other:?}"),
    }

    match &results[3] {
        EvalResult::Data(Value::Arcana(value)) => assert_eq!(*value, 1),
        other => panic!("expected arcana from measure after expunge, got {other:?}"),
    }
}

#[test]
fn inscribe_then_retract_gives_back_the_value() {
    let results = test_base(
        r#"
        forge morph pack: scroll = [1, 2];
        inscribe(pack, "new");
        retract(pack);
        pack;
    "#,
    )
    .unwrap();
    assert!(matches!(&results[2], EvalResult::Data(Value::Rune(s)) if s == "new"));
    match &results[3] {
        EvalResult::Data(Value::Scroll(items)) => {
            assert_eq!(items.len(), 2);
            assert!(matches!(items[0], Value::Arcana(1)));
            assert!(matches!(items[1], Value::Arcana(2)));
        }
        other => panic!("expected scroll, got {other:?}"),
    }
}

#[test]
fn lexicon_index_assignment_reads_back() {
    let results = test_base(
        r#"
        forge morph ledger: lexicon = {"a": 1};
        ledger["b"] = 2;
        ledger["a"] = 10;
        ledger["a"];
        ledger["b"];
        contents(ledger);
    "#,
    )
    .unwrap();
    assert_eq!(arcana(&results[3]), 10);
    assert_eq!(arcana(&results[4]), 2);
    match &results[5] {
        EvalResult::Data(Value::Scroll(keys)) => {
            assert_eq!(keys.len(), 2);
            assert!(matches!(&keys[0], Value::Rune(k) if k == "a"));
            assert!(matches!(&keys[1], Value::Rune(k) if k == "b"));
        }
        other => panic!("expected scroll, got {other:?}"),
    }
}

#[test]
fn collection_rituals_report_their_errors() {
    let (r, _) = run_script("forge pack: scroll = [1]; inscribe(pack, 2);");
    assert!(format!("{:?}", r.unwrap_err()).contains("inscribe() target must be morph"));
    let (r, _) = run_script("forge morph pack: scroll = []; retract(pack);");
    assert!(format!("{:?}", r.unwrap_err()).contains("retract() cannot pop from an empty scroll"));
    let (r, _) = run_script("measure(1);");
    assert!(format!("{:?}", r.unwrap_err()).contains("measure() requires a scroll or lexicon"));
    let (r, _) = run_script("forge morph l: lexicon = {}; expunge(l, 1);");
    assert!(format!("{:?}", r.unwrap_err()).contains("expunge() key must be a rune"));
    let (r, _) = run_script("contents([1]);");
    assert!(format!("{:?}", r.unwrap_err()).contains("contents() argument must be a lexicon"));
    let (r, _) = run_script("inscribe([1], 2);");
    assert!(format!("{:?}", r.unwrap_err()).contains("inscribe() target must be a morph scroll variable"));
}

#[test]
fn arithmetic_follows_precedence_and_checks_overflow() {
    let results = test_base("1 + 2 * 3; (1 + 2) * 3; 7 / 2; -7 % 3; 2 ^ 10;").unwrap();
    assert_eq!(arcana(&results[0]), 7);
    assert_eq!(arcana(&results[1]), 9);
    assert_eq!(arcana(&results[2]), 3);
    assert_eq!(arcana(&results[3]), -1);
    assert_eq!(arcana(&results[4]), 1024);
    let (r, _) = run_script("1 / 0;");
    assert!(format!("{:?}", r.unwrap_err()).contains("Division by zero"));
    let (r, _) = run_script("9223372036854775807 + 1;");
    assert!(format!("{:?}", r.unwrap_err()).contains("Arithmetic overflow"));
    let (r, _) = run_script("2 ^ 64;");
    assert!(format!("{:?}", r.unwrap_err()).contains("Arithmetic overflow"));
    let (r, _) = run_script("2 ^ -1;");
    assert!(matches!(r.unwrap_err(), EvalError::NegativeExponent(_)));
    let (r, _) = run_script("1 + \"a\";");
    assert!(format!("{:?}", r.unwrap_err()).contains("Operation requires compatible types"));
}

#[test]
fn runes_concatenate_and_compare() {
    let results = test_base(r#""ab" + "cd"; "x" == "x"; "x" != "y";"#).unwrap();
    assert!(matches!(&results[0], EvalResult::Data(Value::Rune(s)) if s == "abcd"));
    assert!(matches!(results[1], EvalResult::Data(Value::Omen(true))));
    assert!(matches!(results[2], EvalResult::Data(Value::Omen(true))));
}

#[test]
fn unveil_prints_values_with_a_line_break() {
    let (r, out) = run_script(r#"unveil("a", 1, boon, [1, 2], {"k": hex}); unveil("x\ny");"#);
    r.unwrap();
    assert_eq!(out, "a1boon[1, 2]{\"k\": hex}\nx\ny\n");
}

#[test]
fn orbit_counts_and_honours_labels() {
    let (r, out) = run_script("orbit (i = 0..3) { unveil(i); };");
    r.unwrap();
    assert_eq!(out, "0\n1\n2\n");
    let (r, out) = run_script("orbit (i = 1..=2, j = 0..2) { unveil(i * 10 + j); };");
    r.unwrap();
    assert_eq!(out, "10\n11\n20\n21\n");
    let (r, out) = run_script("orbit (i = 0..5) { oracle { (i == 2) => { eject; } }; unveil(i); };");
    r.unwrap();
    assert_eq!(out, "0\n1\n");
    let (r, out) = run_script("orbit (i = 0..3, j = 0..3) { oracle { (j == 1) => { resume i; } }; unveil(j); };");
    r.unwrap();
    assert_eq!(out, "0\n0\n0\n");
    let (r, out) = run_script("forge morph n: arcana = 0; orbit { n += 1; oracle { (n == 3) => { eject; } }; }; unveil(n);");
    r.unwrap();
    assert_eq!(out, "3\n");
}

#[test]
fn engraved_functions_bind_parameters_and_check_returns() {
    let results = test_base(
        r#"
        engrave square(n: arcana) -> arcana { reveal n * n; };
        square(12);
        engrave fact(n: arcana) -> arcana {
            oracle {
                (n <= 1) => reveal 1;
                _ => reveal n * fact(n - 1);
            };
        };
        fact(10);
    "#,
    )
    .unwrap();
    assert_eq!(arcana(&results[1]), 144);
    assert_eq!(arcana(&results[3]), 3628800);
    let (r, _) = run_script(r#"engrave f(n: arcana) -> rune { reveal n; }; f(1);"#);
    assert!(format!("{:?}", r.unwrap_err()).contains("Type mismatch for return value of function f"));
    let (r, _) = run_script(r#"engrave f(n: arcana) -> arcana { reveal n; }; f(1, 2);"#);
    assert!(format!("{:?}", r.unwrap_err()).contains("Function 'f' expected 1 arguments but got 2."));
    let (r, _) = run_script(r#"engrave f(n: arcana) -> arcana { reveal n; }; f("x");"#);
    assert!(format!("{:?}", r.unwrap_err()).contains("Expected arcana value"));
}

#[test]
fn undefined_names_suggest_close_ones() {
    let (r, _) = run_script("forge counter: arcana = 1; countar;");
    match r.unwrap_err() {
        EvalError::UndefinedVariable(m, _) => assert_eq!(m, "countar (did you mean: counter?)"),
        other => panic!("unexpected {other:?}"),
    }
    let (r, _) = run_script("unveill(1);");
    match r.unwrap_err() {
        EvalError::UndefinedVariable(m, _) => assert_eq!(m, "unveill (did you mean: unveil?)"),
        other => panic!("unexpected {other:?}"),
    }
}

#[test]
fn immutable_variables_refuse_assignment() {
    let (r, _) = run_script("forge x: arcana = 1; x = 2;");
    assert!(format!("{:?}", r.unwrap_err()).contains("Cannot reassign to immutable variable x"));
    let results = test_base("forge morph x: arcana = 1; x += 4; x *= 3; x;").unwrap();
    assert_eq!(arcana(&results[3]), 15);
    let results = test_base(r#"forge morph s: rune = "a"; s += "b"; s;"#).unwrap();
    assert!(matches!(&results[2], EvalResult::Data(Value::Rune(s)) if s == "ab"));
}

#[test]
fn trans_converts_between_kinds() {
    let results = test_base(r#"trans "42" as arcana; trans 7 as rune; trans 2 as aether; trans 2.9 as arcana;"#).unwrap();
    assert_eq!(arcana(&results[0]), 42);
    assert!(matches!(&results[1], EvalResult::Data(Value::Rune(s)) if s == "7"));
    assert!(matches!(&results[2], EvalResult::Data(Value::Aether(bits)) if f64::from_bits(*bits) == 2.0));
    assert_eq!(arcana(&results[3]), 2);
    let (r, _) = run_script(r#"trans "x" as arcana;"#);
    assert!(format!("{:?}", r.unwrap_err()).contains("Failed to convert Rune to Arcana"));
    let (r, _) = run_script("trans 1 as omen;");
    assert!(format!("{:?}", r.unwrap_err()).contains("Casting to Omen is not supported"));
}

#[test]
fn aether_arithmetic_goes_through_the_host() {
    let results = test_base("1.5 + 2.25; 1.0 == 1.0; 0.5 < 0.25;").unwrap();
    assert!(matches!(&results[0], EvalResult::Data(Value::Aether(bits)) if f64::from_bits(*bits) == 3.75));
    assert!(matches!(results[1], EvalResult::Data(Value::Omen(true))));
    assert!(matches!(results[2], EvalResult::Data(Value::Omen(false))));
}

#[test]
fn artifacts_are_built_read_and_updated() {
    let results = test_base(
        r#"
        artifact Player { name: rune; health: arcana; };
        forge morph hero: Player = Player { name: "Ardyn", health: 100 };
        hero.health = 75;
        hero.health;
        hero.name;
    "#,
    )
    .unwrap();
    assert_eq!(arcana(&results[3]), 75);
    assert!(matches!(&results[4], EvalResult::Data(Value::Rune(s)) if s == "Ardyn"));
    let (r, _) = run_script("artifact P { a: arcana; }; forge p: P = P { a: 1 }; p.b;");
    assert!(format!("{:?}", r.unwrap_err()).contains("Field 'b' does not exist on artifact P (available: [a])"));
    let (r, _) = run_script("artifact P { a: arcana; b: rune; }; P { a: 1 };");
    assert!(format!("{:?}", r.unwrap_err()).contains("Missing field 'b' for artifact P"));
}

#[test]
fn perish_travels_as_an_error() {
    let (r, out) = run_script("unveil(1); perish(3); unveil(2);");
    assert!(matches!(r.unwrap_err(), EvalError::Perished(3, _)));
    assert_eq!(out, "1\n");
}

#[test]
fn index_access_reports_bad_indices() {
    let results = test_base("[10, 20, 30][1];").unwrap();
    assert_eq!(arcana(&results[0]), 20);
    let (r, _) = run_script("[1][5];");
    assert!(format!("{:?}", r.unwrap_err()).contains("out of bounds"));
    let (r, _) = run_script("[1][-1];");
    assert!(format!("{:?}", r.unwrap_err()).contains("Scroll index cannot be negative"));
    let (r, _) = run_script(r#"{"a": 1}["b"];"#);
    assert!(format!("{:?}", r.unwrap_err()).contains("does not exist"));
}

#[test]
fn values_equal_compares_structurally() {
    let env = Environment::new();
    let a = Value::Scroll(vec![Value::Arcana(1), Value::Rune("x".to_string())]);
    let b = Value::Scroll(vec![Value::Arcana(1), Value::Rune("x".to_string())]);
    let c = Value::Scroll(vec![Value::Arcana(1), Value::Rune("y".to_string())]);
    assert_eq!(values_equal(&env, &Float, &a, &b, &None).unwrap(), true);
    assert_eq!(values_equal(&env, &Float, &a, &c, &None).unwrap(), false);
    let l1 = Value::Lexicon(vec![("a".to_string(), Value::Arcana(1)), ("b".to_string(), Value::Omen(true))]);
    let l2 = Value::Lexicon(vec![("b".to_string(), Value::Omen(true)), ("a".to_string(), Value::Arcana(1))]);
    let l3 = Value::Lexicon(vec![("b".to_string(), Value::Omen(true))]);
    assert_eq!(values_equal(&env, &Float, &l1, &l2, &None).unwrap(), true);
    assert_eq!(values_equal(&env, &Float, &l1, &l3, &None).unwrap(), false);
    assert_eq!(values_equal(&env, &Float, &Value::Arcana(1), &Value::Rune("1".to_string()), &None).unwrap(), false);
    assert_eq!(values_equal(&env, &Float, &Value::Aether(1.5f64.to_bits()), &Value::Aether(1.5f64.to_bits()), &None).unwrap(), true);
}

#[test]
fn artifacts_compare_by_schema_fields() {
    let mut env = Environment::new();
    let make = |h: i64| {
        Value::Artifact(ArtifactValue {
            artifact: "P".to_string(),
            fields: vec![("health".to_string(), Value::Arcana(h))],
        })
    };
    assert!(values_equal(&env, &Float, &make(1), &make(1), &None).is_err());
    env.define_artifact(ArtifactSchema {
        name: "P".to_string(),
        fields: vec![ArtifactFieldSchema { name: "health".to_string(), field_type: Type::Arcana }],
        methods: vec![],
        line_info: None,
    });
    assert_eq!(values_equal(&env, &Float, &make(1), &make(1), &None).unwrap(), true);
    assert_eq!(values_equal(&env, &Float, &make(1), &make(2), &None).unwrap(), false);
}

#[test]
fn empty_ranges_run_nothing() {
    let (r, out) = run_script("orbit (i = 5..5) { unveil(i); }; orbit (i = 3..=2) { unveil(i); }; orbit (i = 2..=2) { unveil(i); };");
    r.unwrap();
    assert_eq!(out, "2\n");
}

#[test]
fn reveal_ends_the_block_with_its_value() {
    let results = test_base("engrave f() -> arcana { 1; reveal 2; 3; }; f();").unwrap();
    assert_eq!(arcana(&results[1]), 2);
    let results = test_base("engrave g() -> arcana { 1; 2; 3; }; g();").unwrap();
    assert_eq!(arcana(&results[1]), 3);
}

#[test]
fn forge_then_read_gives_the_value_back() {
    let results = test_base("forge x: arcana = 6 * 7; x; forge m: materia = \"any\"; m;").unwrap();
    assert!(matches!(results[0], EvalResult::Data(Value::Abyss)));
    assert_eq!(arcana(&results[1]), 42);
    assert!(matches!(&results[3], EvalResult::Data(Value::Rune(s)) if s == "any"));
    let (r, _) = run_script("forge x: rune = 1;");
    assert!(format!("{:?}", r.unwrap_err()).contains("Expected rune value"));
}

#[test]
fn engrave_then_call_binds_arguments_to_parameters() {
    let results = test_base(
        "forge a: arcana = 100; engrave add(a: arcana, b: arcana) -> arcana { reveal a + b; }; add(40, 2); a; \
         engrave twice(x: arcana, x: arcana) -> arcana { reveal x; }; twice(1, 2);",
    )
    .unwrap();
    assert_eq!(arcana(&results[2]), 42);
    assert_eq!(arcana(&results[3]), 100);
    assert_eq!(arcana(&results[5]), 2);
    let (r, _) = run_script("engrave square(n: arcana) -> arcana { reveal n * n; }; squar(2);");
    match r.unwrap_err() {
        EvalError::UndefinedVariable(m, _) => assert_eq!(m, "squar (did you mean: square?)"),
        other => panic!("unexpected {other:?}"),
    }
}

#[test]
fn assignment_stores_the_new_value_and_keeps_others() {
    let results = test_base(
        "forge morph n: arcana = 5; forge k: arcana = 1; n += 3; n; n ^= 2; n; k; \
         forge morph s: rune = \"a\"; s += \"b\"; s;",
    )
    .unwrap();
    assert_eq!(arcana(&results[3]), 8);
    assert_eq!(arcana(&results[5]), 64);
    assert_eq!(arcana(&results[6]), 1);
    assert!(matches!(&results[9], EvalResult::Data(Value::Rune(t)) if t == "ab"));
    let (r, _) = run_script("forge k: arcana = 1; k += 1;");
    assert!(format!("{:?}", r.unwrap_err()).contains("Cannot reassign to immutable variable k"));
}

#[test]
fn indexing_reads_elements_and_entries() {
    let results = test_base(
        "forge v: scroll = [1, 2, 3]; v[1] + v[2]; forge m: lexicon = {\"a\": 10, \"b\": 20}; m[\"b\"] - v[0];",
    )
    .unwrap();
    assert_eq!(arcana(&results[1]), 5);
    assert_eq!(arcana(&results[3]), 19);
    let (r, _) = run_script("forge v: scroll = [1]; v[3];");
    assert!(format!("{:?}", r.unwrap_err()).contains("Index 3 is out of bounds for scroll"));
}

#[test]
fn casting_an_arcana_to_a_rune_and_back_gives_it_back() {
    let results = test_base("forge n: arcana = -17; trans (trans n as rune) as arcana; trans 42 as rune;").unwrap();
    assert_eq!(arcana(&results[1]), -17);
    assert!(matches!(&results[2], EvalResult::Data(Value::Rune(t)) if t == "42"));
}

#[test]
fn blocks_bind_forged_names_in_the_current_scope() {
    let results = test_base(
        "engrave f(n: arcana) -> arcana { forge m: arcana = n * 2; reveal m + 1; }; f(20); \
         { forge y: arcana = 3; y + 1; }; y;",
    )
    .unwrap();
    assert_eq!(arcana(&results[1]), 41);
    assert_eq!(arcana(&results[2]), 4);
    assert_eq!(arcana(&results[3]), 3);
}

#[test]
fn literals_give_their_elements_and_entries() {
    let results = test_base("[1, 1 + 1, \"a\"]; {\"a\": 1, \"b\": 2, \"a\": 3};").unwrap();
    match &results[0] {
        EvalResult::Data(Value::Scroll(items)) => {
            assert_eq!(items.len(), 3);
            assert!(matches!(items[1], Value::Arcana(2)));
            assert!(matches!(&items[2], Value::Rune(t) if t == "a"));
        }
        other => panic!("unexpected {other:?}"),
    }
    match &results[1] {
        EvalResult::Data(Value::Lexicon(entries)) => {
            assert_eq!(entries.len(), 2);
            assert_eq!(entries[0].0, "a");
            assert!(matches!(entries[0].1, Value::Arcana(3)));
            assert_eq!(entries[1].0, "b");
        }
        other => panic!("unexpected {other:?}"),
    }
}

#[test]
fn orbit_passes_assign_outer_variables_once_per_value() {
    let results = test_base(
        "forge morph total: arcana = 0; orbit (i = 1..=4) { total += i; }; total; \
         forge morph steps: arcana = 0; orbit (j = 0..3) { forge d: arcana = j * 10; steps += d; }; steps; \
         orbit (k = 5..5) { total += 100; }; total;",
    )
    .unwrap();
    assert!(matches!(results[1], EvalResult::Data(Value::Abyss)));
    assert_eq!(arcana(&results[2]), 10);
    assert_eq!(arcana(&results[5]), 30);
    assert_eq!(arcana(&results[7]), 10);
}

#[test]
fn blocks_assign_to_variables_of_enclosing_scopes() {
    let results = test_base("forge morph n: arcana = 1; { n *= 5; forge m: arcana = n; n += m; }; n;").unwrap();
    assert!(matches!(results[1], EvalResult::Data(Value::Abyss)));
    assert_eq!(arcana(&results[2]), 10);
}

#[test]
fn builtin_calls_act_on_argument_values() {
    let results = test_base(
        "forge morph xs: scroll = [1, 2]; inscribe(xs, 1 + 2); measure(xs); retract(xs); measure([7, 8, 9, 10]); \
         contents({\"k\": 1, \"j\": 2});",
    )
    .unwrap();
    assert_eq!(arcana(&results[2]), 3);
    assert_eq!(arcana(&results[3]), 3);
    assert_eq!(arcana(&results[4]), 4);
    match &results[5] {
        EvalResult::Data(Value::Scroll(keys)) => {
            assert_eq!(keys.len(), 2);
            assert!(matches!(&keys[0], Value::Rune(k) if k == "k"));
            assert!(matches!(&keys[1], Value::Rune(k) if k == "j"));
        }
        other => panic!("unexpected {other:?}"),
    }
}

#[test]
fn parsed_oracle_statements_give_their_branch_values() {
    let results = test_base(
        "forge a: arcana = 3; forge b: arcana = 2; \
         oracle (a, b) { (1, 2) => reveal(\"one two\"); (_, 2) => reveal(\"not one, two\"); _ => reveal(\"other\"); }; \
         forge x: arcana = 1; oracle { (x > 0) => \"positive\"; _ => \"not\"; };",
    )
    .unwrap();
    assert!(is_rune(&results[2], "not one, two"));
    assert!(is_rune(&results[4], "positive"));
    let (r, _) = run_script("forge n: arcana = 1; oracle (n) { (1) ward 42 => \"never\"; _ => \"no\"; };");
    assert!(format!("{:?}", r.unwrap_err()).contains("Oracle ward must evaluate to an omen"));
}

#[test]
fn statement_errors_name_their_cause() {
    let (r, _) = run_script("forge k: arcana = 1; k = 2;");
    match r.unwrap_err() {
        EvalError::InvalidOperation(m, _) => assert_eq!(m, "Cannot reassign to immutable variable k"),
        other => panic!("unexpected {other:?}"),
    }
    let (r, _) = run_script("forge k: arcana = 1; k / 0;");
    assert!(matches!(r.unwrap_err(), EvalError::InvalidOperation(m, _) if m == "Division by zero"));
}

#[test]
fn forge_binds_the_value_of_an_oracle() {
    let results = test_base(
        "forge mode: rune = \"active\"; forge count: arcana = 0; \
         forge result: rune = oracle (mode) { (\"active\") ward count > 0 => reveal(\"ready\"); (\"active\") => reveal(\"idle\"); _ => reveal(\"inactive\"); }; \
         result; forge n: arcana = 7; forge doubled: arcana = oracle (n) { (x) => reveal(x * 2); }; doubled;",
    )
    .unwrap();
    assert!(is_rune(&results[3], "idle"));
    assert_eq!(arcana(&results[6]), 14);
    let (r, _) = run_script("forge n: arcana = 5; oracle (n) { (x) => reveal(x); }; x;");
    assert!(matches!(r.unwrap_err(), EvalError::UndefinedVariable(m, _) if m.starts_with("x")));
}

#[test]
fn arcana_order_as_doubles_do() {
    let results = test_base(
        "9007199254740993 > 9007199254740992; 9007199254740993 <= 9007199254740992; 9007199254740995 > 9007199254740994; 3 < 4; -9007199254740993 < -9007199254740992;",
    )
    .unwrap();
    assert!(matches!(results[0], EvalResult::Data(Value::Omen(false))));
    assert!(matches!(results[1], EvalResult::Data(Value::Omen(true))));
    assert!(matches!(results[2], EvalResult::Data(Value::Omen(true))));
    assert!(matches!(results[3], EvalResult::Data(Value::Omen(true))));
    assert!(matches!(results[4], EvalResult::Data(Value::Omen(false))));
}

#[test]
fn artifact_schema_errors_name_the_first_bad_field() {
    let env = create_global_environment();
    let field = |n: &str, t: Type| ArtifactField { name: n.to_string(), field_type: t, line_info: None };
    let dup = build_artifact_schema(
        "Point",
        &[field("x", Type::Arcana), field("y", Type::Artifact("Nowhere".to_string())), field("x", Type::Arcana)],
        &env,
        &None,
    );
    match dup {
        Err(EvalError::TypeError(m, _)) => assert_eq!(m, "Artifact field y references undefined type Nowhere"),
        other => panic!("unexpected {other:?}"),
    }
    let dup2 = build_artifact_schema("Point", &[field("x", Type::Arcana), field("x", Type::Rune)], &env, &None);
    match dup2 {
        Err(EvalError::InvalidOperation(m, _)) => assert_eq!(m, "Field 'x' is defined multiple times"),
        other => panic!("unexpected {other:?}"),
    }
    let ok = build_artifact_schema("Node", &[field("next", Type::Artifact("Node".to_string()))], &env, &None).unwrap();
    assert_eq!(ok.fields.len(), 1);
}

fn run_keeping_env(script: &str) -> (Vec<Result<EvalResult, EvalError>>, Environment) {
    let outcome = parse(script);
    assert!(outcome.diagnostics.is_empty(), "parser emitted diagnostics: {:?}", outcome.diagnostics);
    let mut env = create_global_environment();
    let mut io = Capture { out: String::new() };
    let results = outcome.ast.iter().map(|ast| evaluate(ast, &mut env, &mut io, &Float)).collect();
    (results, env)
}

#[test]
fn indexed_assignment_replaces_the_element() {
    let (results, env) = run_keeping_env("forge morph v: scroll = [1, 2, 3]; v[1] = 9;");
    assert!(results.iter().all(|r| r.is_ok()));
    match &env.get_var("v").unwrap().value {
        Value::Scroll(items) => {
            assert_eq!(items.len(), 3);
            assert!(matches!(items[0], Value::Arcana(1)));
            assert!(matches!(items[1], Value::Arcana(9)));
            assert!(matches!(items[2], Value::Arcana(3)));
        },
        other => panic!("unexpected {other:?}"),
    }
}

#[test]
fn arcana_powers_report_overflow_and_negative_exponents() {
    let (results, _) = run_keeping_env("2 ^ 64; 2 ^ -1; 2 ^ 10;");
    match &results[0] {
        Err(EvalError::InvalidOperation(m, _)) => assert_eq!(m, "Arithmetic overflow"),
        other => panic!("unexpected {other:?}"),
    }
    assert!(matches!(results[1], Err(EvalError::NegativeExponent(_))));
    assert!(matches!(results[2], Ok(EvalResult::Data(Value::Arcana(1024)))));
}

#[test]
fn refused_reassignment_keeps_the_value() {
    let (results, env) = run_keeping_env("forge x: arcana = 1; x = 2;");
    assert!(results[0].is_ok());
    match &results[1] {
        Err(EvalError::InvalidOperation(m, li)) => {
            assert_eq!(m, "Cannot reassign to immutable variable x");
            assert!(li.is_some());
        },
        other => panic!("unexpected {other:?}"),
    }
    assert!(matches!(env.get_var("x").unwrap().value, Value::Arcana(1)));
}

#[test]
fn lexicon_keys_stay_distinct() {
    let results = test_base(r#"measure({"a": 1, "a": 2, "b": 3}); forge l: lexicon = {"a": 1, "a": 2}; l["a"];"#).unwrap();
    assert!(matches!(results[0], EvalResult::Data(Value::Arcana(2))));
    assert!(matches!(results[2], EvalResult::Data(Value::Arcana(2))));
}

#[test]
fn rituals_leave_other_variables_alone() {
    let (results, env) = run_keeping_env(
        "forge morph s: scroll = [1]; forge other: arcana = 7; inscribe(s, 2); retract(s);",
    );
    assert!(results.iter().all(|r| r.is_ok()));
    assert!(matches!(env.get_var("other").unwrap().value, Value::Arcana(7)));
}
