use abyss_lang::parser::helpers::scrub_comments_preserve_layout;
use abyss_lang::ast::{Type, AST};
use abyss_lang::parser::diagnostics::{render_diagnostics, ParserDiagnostic};
use abyss_lang::parser::parse;
use abyss_lang::parser::span::Span;
use abyss_lang::parser::tokens::{lexer, Token};

fn parse_single(source: &str) -> Vec<AST> {
    let outcome = parse(source);
    assert!(outcome.diagnostics.is_empty(), "parser emitted diagnostics: {:?}", outcome.diagnostics);
    outcome.ast
}

#[test]
fn parse_reports_unexpected_token_with_help() {
    let outcome = parse(
        r#"
forge hero: arcana = ;
"#,
    );

    assert!(!outcome.diagnostics.is_empty(), "expected parser diagnostics, got none");

    let diag = &outcome.diagnostics[0];
    assert_eq!(diag.title, "Spell error: Incantation failed");
    assert!(diag.label.starts_with("Unexpected token"));
    assert!(
        diag.help.as_ref().is_some_and(|msg| msg.contains("Perhaps you meant one of:")),
        "expected helpful suggestion, got {:?}",
        diag.help
    );
}

#[test]
fn parses_artifact_definition_fields() {
    let ast = parse_single(
        r#"
artifact Player {
    name: rune;
    health: arcana;
};
"#,
    );

    assert_eq!(ast.len(), 1);
    match &ast[0] {
        AST::Statement(inner, _) => match inner.as_ref() {
            AST::ArtifactDef { name, fields, .. } => {
                assert_eq!(name, "Player");
                assert_eq!(fields.len(), 2);
                assert_eq!(fields[0].name, "name");
                assert_eq!(fields[0].field_type, Type::Rune);
                assert_eq!(fields[1].name, "health");
                assert_eq!(fields[1].field_type, Type::Arcana);
            }
            other => panic!("expected artifact definition, found {:?}", other),
        },
        other => panic!("expected statement node, found {:?}", other),
    }
}

#[test]
fn parses_artifact_literal_in_assignment() {
    let ast = parse_single(
        r#"
artifact Player { name: rune; health: arcana; };
forge hero: Player = Player { name: "Ardyn", health: 100 };
"#,
    );

    assert_eq!(ast.len(), 2);
    match &ast[1] {
        AST::Statement(inner, _) => match inner.as_ref() {
            AST::VarAssign { value, .. } => match value.as_ref() {
                AST::ArtifactLiteral { artifact_type, fields, .. } => {
                    assert_eq!(artifact_type, "Player");
                    assert_eq!(fields.len(), 2);
                    assert_eq!(fields[0].0, "name");
                    assert_eq!(fields[1].0, "health");
                }
                other => panic!("expected artifact literal, found {:?}", other),
            },
            other => panic!("expected variable assignment, found {:?}", other),
        },
        other => panic!("expected statement node, found {:?}", other),
    }
}

#[test]
fn parses_field_assignment_expression() {
    let ast = parse_single(
        r#"
artifact Player { name: rune; health: arcana; };
forge morph hero: Player = Player { name: "Ardyn", health: 100 };
hero.health = 75;
"#,
    );

    assert_eq!(ast.len(), 3);
    match &ast[2] {
        AST::Statement(inner, _) => match inner.as_ref() {
            AST::FieldAssignment { target, field, value, .. } => {
                assert_eq!(field, "health");
                match target.as_ref() {
                    AST::Var(name, _) => assert_eq!(name, "hero"),
                    other => panic!("expected base variable, found {:?}", other),
                }
                match value.as_ref() {
                    AST::Arcana(number, _) => assert_eq!(*number, 75),
                    other => panic!("expected arcana literal, found {:?}", other),
                }
            }
            other => panic!("expected field assignment, found {:?}", other),
        },
        other => panic!("expected statement node, found {:?}", other),
    }
}

#[test]
fn duplicate_artifact_fields_emit_diagnostic() {
    let outcome = parse(
        r#"
artifact Item {
    name: rune;
    name: arcana;
};
"#,
    );

    assert!(
        outcome.diagnostics.iter().any(|diag| diag.label.contains("Duplicate field `name`")),
        "expected duplicate-field diagnostic, got {:?}",
        outcome.diagnostics
    );
}

#[test]
fn render_diagnostics_renders_each_report() {
    let diagnostics = vec![ParserDiagnostic {
        title: "Test error".to_string(),
        label: "Something went wrong".to_string(),
        span: Span::new(0, 1),
        help: Some("Try adding a semicolon".to_string()),
    }];
    let text = render_diagnostics("<test>", "artifact Foo {};", &diagnostics).expect("ariadne renders");
    assert!(text.contains("Test error"));
    assert!(text.contains("Something went wrong"));
    assert!(text.contains("Try adding a semicolon"));
    let twice = render_diagnostics("<test>", "artifact Foo {};", &[diagnostics[0].clone(), diagnostics[0].clone()]).unwrap();
    assert_eq!(twice, format!("{}{}", text, text));
    assert_eq!(render_diagnostics("<test>", "x", &[]).unwrap(), "");
}

#[test]
fn lexing_errors_are_titled_by_their_stage() {
    let outcome = parse("forge x: arcana = 1 $ 2;");
    assert_eq!(outcome.diagnostics.len(), 1);
    assert_eq!(outcome.diagnostics[0].title, "Incantation unravelled at lexing stage");
    assert!(outcome.ast.is_empty());
}

#[test]
fn statements_are_wrapped_and_counted() {
    let ast = parse_single("forge x: arcana = 1; unveil(x); orbit (i = 0..3) { unveil(i); };");
    assert_eq!(ast.len(), 3);
    assert!(ast.iter().all(|s| matches!(s, AST::Statement(..))));
}

#[test]
fn scrubbing_comments_keeps_the_layout() {
    let source = "forge x: arcana = 1; // note\n/* a\nb */ x;";
    let scrubbed = scrub_comments_preserve_layout(source);
    assert_eq!(scrubbed, "forge x: arcana = 1;        \n    \n     x;");
    assert_eq!(scrubbed.chars().count(), source.chars().count());
    assert_eq!(scrub_comments_preserve_layout("a / b"), "a / b");
}

#[test]
fn lexer_skips_white_space_and_comments_between_tokens() {
    let toks = abyss_lang::parser::tokens::lexer("forge /* c */ x // d\n;").expect("lexes");
    assert_eq!(toks.len(), 3);
    assert!(matches!(toks[0].0, abyss_lang::parser::tokens::Token::Forge));
    assert_eq!((toks[0].1.start, toks[0].1.end), (0, 5));
    assert!(matches!(&toks[1].0, abyss_lang::parser::tokens::Token::Identifier(n) if n == "x"));
    assert_eq!((toks[1].1.start, toks[1].1.end), (14, 15));
    assert!(matches!(toks[2].0, abyss_lang::parser::tokens::Token::Semicolon));
    assert_eq!((toks[2].1.start, toks[2].1.end), (21, 22));
    assert!(abyss_lang::parser::tokens::lexer("  // only a comment").expect("lexes").is_empty());
}

#[test]
fn lexer_stops_where_no_token_starts_or_an_arcana_overflows() {
    let e = abyss_lang::parser::tokens::lexer("forge x = @;").expect_err("fails");
    assert_eq!((e.span.start, e.span.end), (10, 11));
    assert_eq!(e.found, Some('@'));
    assert_eq!(e.message, "Unexpected token `@`");

    let e = abyss_lang::parser::tokens::lexer("x \"open").expect_err("fails");
    assert_eq!((e.span.start, e.span.end), (2, 3));
    assert_eq!(e.message, "Unexpected token `\"`");

    let e = abyss_lang::parser::tokens::lexer("1 + 99999999999999999999;").expect_err("fails");
    assert_eq!((e.span.start, e.span.end), (4, 24));
    assert_eq!(e.found, Some('9'));
    assert_eq!(e.message, "Arcana literal out of range");

    let ok = abyss_lang::parser::tokens::lexer("-9223372036854775808").expect("lexes");
    assert!(matches!(ok[0].0, abyss_lang::parser::tokens::Token::Arcana(i64::MIN)));
}

#[test]
fn scrubbing_leaves_rune_literals_alone() {
    let source = r#"x = "a//b"; // note"#;
    assert_eq!(scrub_comments_preserve_layout(source), r#"x = "a//b";        "#);
    let escaped = r#"y = "q\"/*"; /* c */"#;
    assert_eq!(scrub_comments_preserve_layout(escaped), r#"y = "q\"/*";        "#);
}

#[test]
fn line_map_counts_bytes() {
    let map = abyss_lang::parser::helpers::LineMap::new("é\nx");
    assert_eq!(map.line_col(0), (1, 1));
    assert_eq!(map.line_col(3), (2, 1));
    let ascii = abyss_lang::parser::helpers::LineMap::new("ab\ncd");
    assert_eq!(ascii.line_col(2), (1, 3));
    assert_eq!(ascii.line_col(4), (2, 2));
}

#[test]
fn lexer_takes_the_longest_token() {
    let toks = lexer("forge == **= x1 -5 1.25").expect("lexes");
    assert_eq!(toks.len(), 6);
    assert!(matches!(toks[0].0, Token::Forge));
    assert!(matches!(toks[1].0, Token::Equal));
    assert!(matches!(toks[2].0, Token::PowAetherAssign));
    assert!(matches!(&toks[3].0, Token::Identifier(n) if n == "x1"));
    assert!(matches!(toks[4].0, Token::Arcana(-5)));
    assert!(matches!(&toks[5].0, Token::Aether(t) if t == "1.25"));
}

#[test]
fn render_diagnostics_of_none_is_empty() {
    assert_eq!(render_diagnostics("<t>", "x", &[]).unwrap(), "");
}

#[test]
fn scrubbing_keeps_byte_lengths() {
    let source = "x; // é\n/* ü€ */y;";
    let scrubbed = scrub_comments_preserve_layout(source);
    assert_eq!(scrubbed.len(), source.len());
    assert_eq!(scrubbed, format!("x;{}\n{}y;", " ".repeat(6), " ".repeat(11)));
}

#[test]
fn reports_are_rendered_from_the_diagnostic_fields() {
    let d = ParserDiagnostic {
        title: "t".to_string(),
        label: "l".to_string(),
        span: abyss_lang::parser::span::Span { start: 1, end: 2 },
        help: Some("h".to_string()),
    };
    let (title, label, start, end, help) = abyss_lang::parser::diagnostics::report_args(&d);
    assert_eq!((title, label, start, end, help), ("t", "l", 1, 2, Some("h")));
}
