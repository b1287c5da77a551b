use abyss_lang::analysis::{AnalysisError, SemanticAnalyzer};
use abyss_lang::ast::{Type, AST};
use abyss_lang::semantic::{SymbolKind, SymbolTable};
use abyss_lang::types::SpectrumSchema;

fn branch(pattern: Vec<AST>) -> AST {
    AST::OracleBranch { pattern, guard: None, body: Box::new(AST::Abyss(None)), line_info: None }
}

#[test]
fn test_symbol_table_scope_management() {
    let mut table = SymbolTable::new();
    assert_eq!(table.depth(), 1);

    table.push_scope();
    assert_eq!(table.depth(), 2);

    table.pop_scope();
    assert_eq!(table.depth(), 1);

    table.pop_scope();
    assert_eq!(table.depth(), 1);
}

#[test]
fn test_define_and_lookup_variable() {
    let mut table = SymbolTable::new();
    table.define_variable("x".to_string(), Type::Arcana, false).expect("failed to define symbol");

    let kind = table.lookup("x").expect("symbol not found");
    match kind {
        SymbolKind::Variable { var_type, is_mutable } => {
            assert_eq!(*var_type, Type::Arcana);
            assert!(!*is_mutable);
        }
        _ => panic!("expected variable"),
    }

    assert!(table.lookup("y").is_none());
}

#[test]
fn test_define_duplicate_in_same_scope() {
    let mut table = SymbolTable::new();
    table.define_variable("x".to_string(), Type::Arcana, false).expect("failed to define symbol");

    let result = table.define_variable("x".to_string(), Type::Aether, true);
    assert!(result.is_err());
}

#[test]
fn test_shadowing() {
    let mut table = SymbolTable::new();
    table.define_variable("x".to_string(), Type::Arcana, false).expect("failed to define symbol");

    table.push_scope();
    table.define_variable("x".to_string(), Type::Aether, true).expect("failed to shadow symbol");

    match table.lookup("x").expect("symbol not found") {
        SymbolKind::Variable { var_type, is_mutable } => {
            assert_eq!(*var_type, Type::Aether);
            assert!(*is_mutable);
        }
        _ => panic!("expected variable"),
    }

    table.pop_scope();
    match table.lookup("x").expect("symbol not found") {
        SymbolKind::Variable { var_type, is_mutable } => {
            assert_eq!(*var_type, Type::Arcana);
            assert!(!*is_mutable);
        }
        _ => panic!("expected variable"),
    }
}

#[test]
fn test_define_and_lookup_spectrum() {
    let mut table = SymbolTable::new();
    let schema = SpectrumSchema { name: "Color".to_string(), variants: Vec::new(), line_info: None };
    table.define_spectrum(schema.clone()).expect("failed to define spectrum");

    let lookup = table.lookup_spectrum("Color").expect("spectrum not found");
    assert_eq!(lookup.name, "Color");
}

#[test]
fn test_exhaustiveness_omen_missing_hex() {
    let mut analyzer = SemanticAnalyzer::new();
    let branches = vec![branch(vec![AST::Omen(true, None)])];
    analyzer.check_exhaustiveness(&[Type::Omen], &branches, None);
    assert_eq!(analyzer.errors().len(), 1);
    match &analyzer.errors()[0] {
        AnalysisError::NonExhaustiveMatch(msg, _) => {
            assert!(msg.contains("must cover both boon and hex"));
        }
        _ => panic!("Expected NonExhaustiveMatch error"),
    }
}

#[test]
fn test_exhaustiveness_omen_covered() {
    let mut analyzer = SemanticAnalyzer::new();
    let branches = vec![branch(vec![AST::Omen(true, None)]), branch(vec![AST::Omen(false, None)])];
    analyzer.check_exhaustiveness(&[Type::Omen], &branches, None);
    assert!(analyzer.errors().is_empty());
}

#[test]
fn test_exhaustiveness_catch_all() {
    let mut analyzer = SemanticAnalyzer::new();
    let branches = vec![branch(vec![AST::OracleDontCareItem(None)])];
    analyzer.check_exhaustiveness(&[Type::Omen], &branches, None);
    assert!(analyzer.errors().is_empty());
}

#[test]
fn test_exhaustiveness_spectrum_missing_variant() {
    let mut analyzer = SemanticAnalyzer::new();
    let schema = SpectrumSchema {
        name: "Color".to_string(),
        variants: vec![("Red".to_string(), vec![]), ("Blue".to_string(), vec![])],
        line_info: None,
    };
    analyzer.symbol_table_mut().define_spectrum(schema).unwrap();

    let branches = vec![branch(vec![AST::SpectrumPattern {
        spectrum: "Color".to_string(),
        variant: "Red".to_string(),
        args: vec![],
        line_info: None,
    }])];
    analyzer.check_exhaustiveness(&[Type::Spectrum("Color".to_string())], &branches, None);
    assert_eq!(analyzer.errors().len(), 1);
    match &analyzer.errors()[0] {
        AnalysisError::NonExhaustiveMatch(msg, _) => {
            assert!(msg.contains("Missing variants"));
            assert!(msg.contains("Blue"));
        }
        _ => panic!("Expected NonExhaustiveMatch error"),
    }
}

#[test]
fn test_exhaustiveness_arcana_missing_catch_all() {
    let mut analyzer = SemanticAnalyzer::new();
    let branches = vec![branch(vec![AST::Arcana(42, None)])];
    analyzer.check_exhaustiveness(&[Type::Arcana], &branches, None);
    assert_eq!(analyzer.errors().len(), 1);
    match &analyzer.errors()[0] {
        AnalysisError::NonExhaustiveMatch(msg, _) => {
            assert!(msg.contains("must use _ or variable binding"));
        }
        _ => panic!("Expected NonExhaustiveMatch error"),
    }
}

#[test]
fn multi_value_match_needs_catch_all() {
    let mut analyzer = SemanticAnalyzer::new();
    let branches = vec![branch(vec![AST::Arcana(1, None), AST::Arcana(2, None)])];
    analyzer.check_exhaustiveness(&[Type::Arcana, Type::Arcana], &branches, None);
    assert_eq!(analyzer.errors().len(), 1);
    match &analyzer.errors()[0] {
        AnalysisError::NonExhaustiveMatch(msg, _) => assert_eq!(msg, "Multi-value match requires a catch-all pattern"),
        _ => panic!("Expected NonExhaustiveMatch error"),
    }
}

#[test]
fn binding_pattern_is_catch_all_for_runes() {
    let mut analyzer = SemanticAnalyzer::new();
    let branches = vec![branch(vec![AST::PatternBinding { name: "x".to_string(), line_info: None }])];
    analyzer.check_exhaustiveness(&[Type::Rune], &branches, None);
    assert!(analyzer.errors().is_empty());
}

#[test]
fn lookup_in_popped_scope_is_gone() {
    let mut table = SymbolTable::new();
    table.push_scope();
    table.define_variable("inner".to_string(), Type::Rune, false).unwrap();
    assert!(table.lookup("inner").is_some());
    table.pop_scope();
    assert!(table.lookup("inner").is_none());
}

#[test]
fn lookup_mut_changes_the_visible_binding() {
    let mut table = SymbolTable::new();
    table.define_variable("x".to_string(), Type::Arcana, false).unwrap();
    table.push_scope();
    table.define_variable("x".to_string(), Type::Rune, false).unwrap();
    match table.lookup_mut("x") {
        Some(SymbolKind::Variable { is_mutable, .. }) => *is_mutable = true,
        _ => panic!("expected variable"),
    }
    match table.lookup("x").unwrap() {
        SymbolKind::Variable { var_type, is_mutable } => {
            assert_eq!(*var_type, Type::Rune);
            assert!(*is_mutable);
        }
        _ => panic!("expected variable"),
    }
    table.pop_scope();
    match table.lookup("x").unwrap() {
        SymbolKind::Variable { is_mutable, .. } => assert!(!*is_mutable),
        _ => panic!("expected variable"),
    }
    assert!(table.lookup_mut("missing").is_none());
}

#[test]
fn analysis_records_definitions_and_reports_redefinitions() {
    let outcome = abyss_lang::parser::parse(
        "forge x: arcana = 1; forge x: arcana = 2; { forge x: rune = \"inner\"; }; forge flag: omen = boon; \
         oracle (flag) { (boon) => 1; };",
    );
    assert!(outcome.diagnostics.is_empty(), "{:?}", outcome.diagnostics);
    let mut analyzer = SemanticAnalyzer::new();
    let mut errors = Vec::new();
    for ast in &outcome.ast {
        errors = analyzer.analyze(ast);
    }
    assert_eq!(errors.len(), 2, "{errors:?}");
    match &errors[0] {
        AnalysisError::DuplicateDefinition(msg, _) => assert_eq!(msg, "Symbol 'x' already defined in this scope"),
        other => panic!("unexpected {other:?}"),
    }
    match &errors[1] {
        AnalysisError::NonExhaustiveMatch(msg, _) => assert_eq!(msg, "Omen match must cover both boon and hex or use _"),
        other => panic!("unexpected {other:?}"),
    }
}
