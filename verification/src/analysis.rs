//! Semantic analysis: definitions are recorded in a symbol table, and
//! match-style oracles are checked for exhaustiveness.
use vstd::prelude::*;

use crate::ast::{copy_type, ConditionalAssignment, LineInfo, Type, TypeV, AST};
use crate::semantic::{
    define_model, duplicate_message, kind_model, lemma_define_model, lemma_lookup_model, lemma_pop_model, lemma_push_model,
    lookup_model, spec_lookup, table_model, variant_names, KindV, ScopeM, SymbolKind, SymbolTable,
};
use crate::text::{join, owned, push_str, str_eq};
use crate::types::{ArtifactSchema, SpectrumSchema};

verus! {

broadcast use vstd::std_specs::vec::axiom_vec_index_decreases;

/// An error found by the semantic analyser.
#[derive(Debug)]
pub enum AnalysisError {
    UndefinedVariable(String, Option<LineInfo>),
    TypeMismatch { expected: Type, found: Type, line_info: Option<LineInfo> },
    NonExhaustiveMatch(String, Option<LineInfo>),
    DuplicateDefinition(String, Option<LineInfo>),
    InvalidOperation(String, Option<LineInfo>),
}

/// The model of an analysis error: its kind, message (or types) and
/// position.
pub enum AnalysisErrorV {
    UndefinedVariable(Seq<char>, Option<LineInfo>),
    TypeMismatch { expected: TypeV, found: TypeV, line_info: Option<LineInfo> },
    NonExhaustiveMatch(Seq<char>, Option<LineInfo>),
    DuplicateDefinition(Seq<char>, Option<LineInfo>),
    InvalidOperation(Seq<char>, Option<LineInfo>),
}

impl View for AnalysisError {
    type V = AnalysisErrorV;

    open spec fn view(&self) -> AnalysisErrorV {
        match self {
            AnalysisError::UndefinedVariable(m, l) => AnalysisErrorV::UndefinedVariable(m@, *l),
            AnalysisError::TypeMismatch { expected, found, line_info } => AnalysisErrorV::TypeMismatch {
                expected: expected@,
                found: found@,
                line_info: *line_info,
            },
            AnalysisError::NonExhaustiveMatch(m, l) => AnalysisErrorV::NonExhaustiveMatch(m@, *l),
            AnalysisError::DuplicateDefinition(m, l) => AnalysisErrorV::DuplicateDefinition(m@, *l),
            AnalysisError::InvalidOperation(m, l) => AnalysisErrorV::InvalidOperation(m@, *l),
        }
    }
}

/// The models of a list of errors.
pub open spec fn errors_model(errors: Seq<AnalysisError>) -> Seq<AnalysisErrorV> {
    Seq::new(errors.len(), |i: int| errors[i]@)
}

/// What the analyser knows and has found: the model of its symbol table
/// and its errors, in the order found.
pub type AState = (Seq<ScopeM>, Seq<AnalysisErrorV>);

/// A pattern that matches every value: `_` or a binding.
pub open spec fn is_catch_all_spec(p: AST) -> bool {
    p is OracleDontCareItem || p is PatternBinding
}

/// A branch whose patterns all match every value (an empty pattern does too).
pub open spec fn is_catch_all_branch(b: AST) -> bool {
    b matches AST::OracleBranch { pattern, .. } && forall|k: int| 0 <= k < pattern@.len() ==> is_catch_all_spec(#[trigger] pattern@[k])
}

/// The first pattern of every branch that has one, in order.
pub open spec fn first_patterns(branches: Seq<AST>) -> Seq<AST>
    decreases branches.len(),
{
    if branches.len() == 0 {
        Seq::empty()
    } else {
        let rest = first_patterns(branches.drop_last());
        match branches.last() {
            AST::OracleBranch { pattern, .. } => if pattern@.len() > 0 { rest.push(pattern@[0]) } else { rest },
            _ => rest,
        }
    }
}

/// `p` is the omen literal `expected`.
pub open spec fn is_omen_literal(p: AST, expected: bool) -> bool {
    p matches AST::Omen(v, _) && v == expected
}

/// `p` is a spectrum pattern of variant `variant`.
pub open spec fn is_variant_pattern(p: AST, variant: Seq<char>) -> bool {
    p matches AST::SpectrumPattern { variant: v, .. } && v@ == variant
}

/// Some pattern is the omen literal `expected`.
pub open spec fn covers_omen(patterns: Seq<AST>, expected: bool) -> bool {
    exists|k: int| 0 <= k < patterns.len() && is_omen_literal(#[trigger] patterns[k], expected)
}

/// Some pattern is the spectrum pattern of variant `variant`.
pub open spec fn covers_variant(patterns: Seq<AST>, variant: Seq<char>) -> bool {
    exists|k: int| 0 <= k < patterns.len() && is_variant_pattern(#[trigger] patterns[k], variant)
}

/// The variants of `schema` that no pattern covers, in declaration order.
pub open spec fn missing_variants(variants: Seq<(String, Vec<Type>)>, patterns: Seq<AST>) -> Seq<Seq<char>>
    decreases variants.len(),
{
    if variants.len() == 0 {
        Seq::empty()
    } else {
        let rest = missing_variants(variants.drop_last(), patterns);
        if covers_variant(patterns, variants.last().0@) { rest } else { rest.push(variants.last().0@) }
    }
}

/// The names, each in double quotes, separated by commas, in brackets.
pub open spec fn quoted_list(names: Seq<Seq<char>>) -> Seq<char> {
    "["@ + join(Seq::new(names.len(), |i: int| "\""@ + names[i] + "\""@), ", "@) + "]"@
}

/// The message of the exhaustiveness error for scrutinees of `types`
/// matched by `branches`, or `None` when the match is exhaustive.
pub open spec fn exhaustiveness_message(types: Seq<Type>, branches: Seq<AST>, table: Seq<crate::semantic::ScopeV>) -> Option<Seq<char>> {
    let patterns = first_patterns(branches);
    if types.len() == 0 {
        None
    } else if exists|b: int| 0 <= b < branches.len() && is_catch_all_branch(#[trigger] branches[b]) {
        None
    } else if types.len() > 1 {
        Some("Multi-value match requires a catch-all pattern"@)
    } else {
        match types[0] {
            Type::Omen => if covers_omen(patterns, true) && covers_omen(patterns, false) {
                None
            } else {
                Some("Omen match must cover both boon and hex or use _"@)
            },
            Type::Arcana => Some("Arcana match must use _ or variable binding"@),
            Type::Aether => Some("Aether match must use _ or variable binding"@),
            Type::Rune => Some("Rune match must use _ or variable binding"@),
            Type::Spectrum(name) => match spec_lookup(table, name@) {
                Some(SymbolKind::Spectrum(schema)) => {
                    let missing = missing_variants(schema.variants@, patterns);
                    if missing.len() == 0 {
                        None
                    } else {
                        Some("Missing variants: "@ + quoted_list(missing))
                    }
                },
                _ => None,
            },
            _ => None,
        }
    }
}

/// The branch starts with the omen literal `value`.
pub open spec fn starts_with_omen(branch: AST, value: bool) -> bool {
    branch matches AST::OracleBranch { pattern, .. } && pattern@.len() > 0 && is_omen_literal(pattern@[0], value)
}

/// Some branch starts with the omen literal `value`.
pub open spec fn some_branch_starts_with(branches: Seq<AST>, value: bool) -> bool {
    exists|b: int| 0 <= b < branches.len() && starts_with_omen(#[trigger] branches[b], value)
}

proof fn lemma_first_patterns_omen(branches: Seq<AST>, value: bool)
    ensures
        covers_omen(first_patterns(branches), value) == some_branch_starts_with(branches, value),
    decreases branches.len(),
{
    if branches.len() > 0 {
        let pre = branches.drop_last();
        lemma_first_patterns_omen(pre, value);
        let fp = first_patterns(branches);
        let fpre = first_patterns(pre);
        if some_branch_starts_with(branches, value) {
            let b = choose|b: int| 0 <= b < branches.len() && starts_with_omen(#[trigger] branches[b], value);
            if b < branches.len() - 1 {
                assert(pre[b] == branches[b]);
                assert(some_branch_starts_with(pre, value));
                let k = choose|k: int| 0 <= k < fpre.len() && is_omen_literal(#[trigger] fpre[k], value);
                assert(fp[k] == fpre[k]);
            } else {
                assert(fp.last() == branches[b]->OracleBranch_pattern@[0]);
                assert(is_omen_literal(fp[fp.len() - 1], value));
            }
        }
        if covers_omen(fp, value) {
            let k = choose|k: int| 0 <= k < fp.len() && is_omen_literal(#[trigger] fp[k], value);
            if k < fpre.len() {
                assert(fp[k] == fpre[k]);
                assert(covers_omen(fpre, value));
                let b = choose|b: int| 0 <= b < pre.len() && starts_with_omen(#[trigger] pre[b], value);
                assert(branches[b] == pre[b]);
            } else {
                let b = branches.len() - 1;
                assert(branches[b] matches AST::OracleBranch { pattern, .. } && pattern@.len() > 0 && pattern@[0] == fp[k]);
            }
        }
    }
}

/// Law: a match on one omen with no branch that matches everything (all
/// of whose patterns are `_` or bindings) is exhaustive exactly when some
/// branch starts with the literal `boon` and some branch starts with the
/// literal `hex`; otherwise it is reported as not covering both.
pub proof fn law_omen_match_exhaustive(branches: Seq<AST>, table: Seq<crate::semantic::ScopeV>)
    requires
        forall|b: int| 0 <= b < branches.len() ==> !(#[trigger] branches[b] matches AST::OracleBranch { pattern, .. } && forall|k: int|
            0 <= k < pattern@.len() ==> (pattern@[k] is OracleDontCareItem || pattern@[k] is PatternBinding)),
    ensures
        exhaustiveness_message(seq![Type::Omen], branches, table) == if some_branch_starts_with(branches, true)
            && some_branch_starts_with(branches, false) {
            None::<Seq<char>>
        } else {
            Some("Omen match must cover both boon and hex or use _"@)
        },
{
    lemma_first_patterns_omen(branches, true);
    lemma_first_patterns_omen(branches, false);
    assert(!exists|b: int| 0 <= b < branches.len() && is_catch_all_branch(#[trigger] branches[b])) by {
        assert forall|b: int| 0 <= b < branches.len() implies !is_catch_all_branch(#[trigger] branches[b]) by {
            if is_catch_all_branch(branches[b]) {
                assert(branches[b] matches AST::OracleBranch { pattern, .. } && forall|k: int| 0 <= k < pattern@.len()
                    ==> (pattern@[k] is OracleDontCareItem || pattern@[k] is PatternBinding));
            }
        }
    }
}

/// The names among `names` that no pattern covers, in order.
pub open spec fn missing_names(names: Seq<Seq<char>>, patterns: Seq<AST>) -> Seq<Seq<char>>
    decreases names.len(),
{
    if names.len() == 0 {
        Seq::empty()
    } else {
        let rest = missing_names(names.drop_last(), patterns);
        if covers_variant(patterns, names.last()) { rest } else { rest.push(names.last()) }
    }
}

proof fn lemma_missing_names(variants: Seq<(String, Vec<Type>)>, patterns: Seq<AST>)
    ensures
        missing_variants(variants, patterns) == missing_names(variant_names(variants), patterns),
    decreases variants.len(),
{
    if variants.len() > 0 {
        assert(variant_names(variants).drop_last() =~= variant_names(variants.drop_last()));
        lemma_missing_names(variants.drop_last(), patterns);
    }
}

/// [`exhaustiveness_message`] read on the model of the table.
pub open spec fn exh_model(types: Seq<Type>, branches: Seq<AST>, table: Seq<ScopeM>) -> Option<Seq<char>> {
    let patterns = first_patterns(branches);
    if types.len() == 0 {
        None
    } else if exists|b: int| 0 <= b < branches.len() && is_catch_all_branch(#[trigger] branches[b]) {
        None
    } else if types.len() > 1 {
        Some("Multi-value match requires a catch-all pattern"@)
    } else {
        match types[0] {
            Type::Omen => if covers_omen(patterns, true) && covers_omen(patterns, false) {
                None
            } else {
                Some("Omen match must cover both boon and hex or use _"@)
            },
            Type::Arcana => Some("Arcana match must use _ or variable binding"@),
            Type::Aether => Some("Aether match must use _ or variable binding"@),
            Type::Rune => Some("Rune match must use _ or variable binding"@),
            Type::Spectrum(name) => match lookup_model(table, name@) {
                Some(KindV::Spectrum(names)) => {
                    let missing = missing_names(names, patterns);
                    if missing.len() == 0 {
                        None
                    } else {
                        Some("Missing variants: "@ + quoted_list(missing))
                    }
                },
                _ => None,
            },
            _ => None,
        }
    }
}

proof fn lemma_exh_model(types: Seq<Type>, branches: Seq<AST>, t: Seq<crate::semantic::ScopeV>)
    ensures
        exhaustiveness_message(types, branches, t) == exh_model(types, branches, table_model(t)),
{
    if types.len() > 0 {
        if let Type::Spectrum(name) = types[0] {
            lemma_lookup_model(t, name@);
            if let Some(SymbolKind::Spectrum(schema)) = spec_lookup(t, name@) {
                lemma_missing_names(schema.variants@, first_patterns(branches));
            }
        }
    }
}

/// The type the analyser infers for a scrutinee: that of a literal, of a
/// variable the table knows, or of an instantiation; `abyss` otherwise.
pub open spec fn infer_model(ast: AST, table: Seq<ScopeM>) -> Type {
    match ast {
        AST::Omen(..) => Type::Omen,
        AST::Arcana(..) => Type::Arcana,
        AST::Aether(..) => Type::Aether,
        AST::Rune(..) => Type::Rune,
        AST::Abyss(..) => Type::Abyss,
        AST::Var(name, _) => match lookup_model(table, name@) {
            Some(KindV::Variable(t, _)) => t,
            _ => Type::Abyss,
        },
        AST::SpectrumInstantiation { spectrum, .. } => Type::Spectrum(spectrum),
        AST::ArtifactLiteral { artifact_type, .. } => Type::Artifact(artifact_type),
        _ => Type::Abyss,
    }
}

/// Defining `name` as `kind`: bound in the innermost scope, or, where that
/// is refused, a `DuplicateDefinition` error.
pub open spec fn define_step(st: AState, name: Seq<char>, kind: KindV, line_info: Option<LineInfo>) -> AState {
    match define_model(st.0, name, kind) {
        Some(t) => (t, st.1),
        None => (st.0, st.1.push(AnalysisErrorV::DuplicateDefinition(duplicate_message(st.0.len(), name), line_info))),
    }
}

/// Leaving a scope of the model; the outermost one stays.
pub open spec fn pop_model(t: Seq<ScopeM>) -> Seq<ScopeM> {
    if t.len() > 1 {
        t.drop_last()
    } else {
        t
    }
}

/// What analysing `ast` does to the analyser's state: a block is analysed
/// in a scope of its own; spectrum, artifact and variable definitions are
/// recorded (a variable's value is analysed first), a refused one as an
/// error; an oracle's scrutinees and branches are analysed, and a match is
/// checked for exhaustiveness (see [`exh_model`]) with the scrutinees'
/// inferred types. Nothing else is analysed.
pub open spec fn run(ast: AST, st: AState) -> AState
    decreases ast, 0int,
{
    match ast {
        AST::Statement(inner, _) => run(*inner, st),
        AST::Block(stmts, _) => {
            let after = run_seq(stmts@, 0, (st.0.push(Seq::empty()), st.1));
            (pop_model(after.0), after.1)
        },
        AST::SpectrumDef { name, variants, line_info } => define_step(
            st,
            name@,
            KindV::Spectrum(Seq::new(variants@.len(), |i: int| variants@[i].name@)),
            line_info,
        ),
        AST::ArtifactDef { name, line_info, .. } => define_step(st, name@, KindV::Other, line_info),
        AST::VarAssign { name, value, var_type, is_morph, line_info } => define_step(
            run(*value, st),
            name@,
            KindV::Variable(var_type, is_morph),
            line_info,
        ),
        AST::Oracle { is_match, conditionals, branches, line_info } => {
            let s1 = run_conds(conditionals@, 0, st);
            let s2 = run_seq(branches@, 0, s1);
            if is_match {
                let types = Seq::new(conditionals@.len(), |k: int| infer_model(*conditionals@[k].expression, s2.0));
                match exh_model(types, branches@, s2.0) {
                    Some(m) => (s2.0, s2.1.push(AnalysisErrorV::NonExhaustiveMatch(m, line_info))),
                    None => s2,
                }
            } else {
                s2
            }
        },
        _ => st,
    }
}

/// Analysing the trees of `s` from the `i`-th on, in order.
pub open spec fn run_seq(s: Seq<AST>, i: nat, st: AState) -> AState
    decreases s, s.len() - i,
{
    if i >= s.len() {
        st
    } else {
        run_seq(s, i + 1, run(s[i as int], st))
    }
}

/// Analysing the scrutinee expressions of `c` from the `i`-th on, in order.
pub open spec fn run_conds(c: Seq<ConditionalAssignment>, i: nat, st: AState) -> AState
    decreases c, c.len() - i,
{
    if i >= c.len() {
        st
    } else {
        run_conds(c, i + 1, run(*c[i as int].expression, st))
    }
}

/// Walks a program, recording definitions and the errors it finds.
pub struct SemanticAnalyzer {
    symbol_table: SymbolTable,
    errors: Vec<AnalysisError>,
}

impl Default for SemanticAnalyzer {
    /// The same as [`SemanticAnalyzer::new`].
    fn default() -> (a: Self)
        ensures
            a.errors_view().len() == 0,
            a.table_view() == seq![Seq::<(Seq<char>, SymbolKind)>::empty()],
    {
        SemanticAnalyzer::new()
    }
}

impl SemanticAnalyzer {
    /// An analyser with an empty global scope and no errors.
    pub fn new() -> (a: Self)
        ensures
            a.errors_view().len() == 0,
            a.table_view() == seq![Seq::<(Seq<char>, SymbolKind)>::empty()],
    {
        SemanticAnalyzer { symbol_table: SymbolTable::new(), errors: Vec::new() }
    }

    /// The errors found so far, in the order found.
    pub closed spec fn errors_view(&self) -> Seq<AnalysisError> {
        self.errors@
    }

    /// The symbol table.
    pub closed spec fn table_view(&self) -> Seq<crate::semantic::ScopeV> {
        self.symbol_table@
    }

    /// What the analyser knows and has found (see [`AState`]).
    pub open spec fn state(&self) -> AState {
        (table_model(self.table_view()), errors_model(self.errors_view()))
    }

    /// The errors found so far.
    pub fn errors(&self) -> (e: &Vec<AnalysisError>)
        ensures
            e@ == self.errors_view(),
    {
        &self.errors
    }

    /// The symbol table, for defining symbols before a check.
    pub fn symbol_table_mut(&mut self) -> (t: &mut SymbolTable)
        ensures
            t@ == old(self).table_view(),
            final(self).errors_view() == old(self).errors_view(),
            final(self).table_view() == final(t)@,
    {
        &mut self.symbol_table
    }

    /// Analyses `ast` and returns every error found so far; earlier errors
    /// come first.
    pub fn analyze(&mut self, ast: &AST) -> (errs: Vec<AnalysisError>)
        ensures
            final(self).state() == run(*ast, old(self).state()),
            errs@ == final(self).errors_view(),
    {
        self.visit(ast);
        self.copy_errors()
    }

    fn copy_errors(&self) -> (errs: Vec<AnalysisError>)
        ensures
            errs@ == self.errors@,
    {
        let mut out: Vec<AnalysisError> = Vec::new();
        let mut i: usize = 0;
        while i < self.errors.len()
            invariant
                i <= self.errors@.len(),
                out@ == self.errors@.take(i as int),
            decreases self.errors.len() - i,
        {
            out.push(copy_error(&self.errors[i]));
            assert(self.errors@.take(i + 1) =~= self.errors@.take(i as int).push(self.errors@[i as int]));
            i = i + 1;
        }
        assert(self.errors@.take(self.errors@.len() as int) =~= self.errors@);
        out
    }

    /// Records what `ast` defines and the errors it holds (see [`run`]).
    fn visit(&mut self, ast: &AST)
        ensures
            final(self).state() == run(*ast, old(self).state()),
        decreases ast,
    {
        match ast {
            AST::Statement(stmt, _) => self.visit(stmt),
            AST::Block(stmts, _) => {
                let ghost st0 = self.state();
                self.symbol_table.push_scope();
                proof {
                    lemma_push_model(old(self).table_view());
                }
                let ghost start = self.state();
                assert(start == (st0.0.push(Seq::empty()), st0.1));
                let mut i: usize = 0;
                while i < stmts.len()
                    invariant
                        i <= stmts@.len(),
                        run_seq(stmts@, 0, start) == run_seq(stmts@, i as nat, self.state()),
                        decreases_to!(ast => stmts),
                    decreases stmts.len() - i,
                {
                    assert(decreases_to!(ast => stmts@[i as int]));
                    let ghost before = self.state();
                    self.visit(&stmts[i]);
                    assert(run_seq(stmts@, i as nat, before) == run_seq(stmts@, (i + 1) as nat, run(stmts@[i as int], before)));
                    i = i + 1;
                }
                let ghost after = self.state();
                proof {
                    lemma_pop_model(self.table_view());
                }
                self.symbol_table.pop_scope();
            },
            AST::SpectrumDef { name, variants, line_info } => {
                let mut entries: Vec<(String, Vec<Type>)> = Vec::new();
                let mut i: usize = 0;
                while i < variants.len()
                    invariant
                        i <= variants@.len(),
                        entries@.len() == i,
                        forall|k: int| 0 <= k < i ==> (#[trigger] entries@[k]).0@ == variants@[k].name@,
                    decreases variants.len() - i,
                {
                    let mut args: Vec<Type> = Vec::new();
                    let mut k: usize = 0;
                    while k < variants[i].args.len()
                        invariant
                            i < variants@.len(),
                            k <= variants@[i as int].args@.len(),
                        decreases variants@[i as int].args@.len() - k,
                    {
                        args.push(copy_type(&variants[i].args[k]));
                        k = k + 1;
                    }
                    entries.push((variants[i].name.clone(), args));
                    i = i + 1;
                }
                let schema = SpectrumSchema { name: name.clone(), variants: entries, line_info: *line_info };
                proof {
                    assert(variant_names(schema.variants@) =~= Seq::new(variants@.len(), |i: int| variants@[i].name@));
                    lemma_define_model(self.table_view(), name@, SymbolKind::Spectrum(schema));
                }
                let ghost errs0 = self.errors@;
                if let Err(e) = self.symbol_table.define_spectrum(schema) {
                    self.errors.push(AnalysisError::DuplicateDefinition(e, *line_info));
                    assert(errors_model(self.errors@) =~= errors_model(errs0).push(self.errors@.last()@));
                }
            },
            AST::ArtifactDef { name, line_info, .. } => {
                let schema = ArtifactSchema {
                    name: name.clone(),
                    fields: Vec::new(),
                    methods: Vec::new(),
                    line_info: *line_info,
                };
                proof {
                    lemma_define_model(self.table_view(), name@, SymbolKind::Artifact(schema));
                }
                let ghost errs0 = self.errors@;
                if let Err(e) = self.symbol_table.define_artifact(schema) {
                    self.errors.push(AnalysisError::DuplicateDefinition(e, *line_info));
                    assert(errors_model(self.errors@) =~= errors_model(errs0).push(self.errors@.last()@));
                }
            },
            AST::VarAssign { name, value, var_type, is_morph, line_info } => {
                self.visit(value);
                let t = copy_type(var_type);
                proof {
                    lemma_define_model(self.table_view(), name@, SymbolKind::Variable { var_type: t, is_mutable: *is_morph });
                }
                let ghost errs0 = self.errors@;
                if let Err(e) = self.symbol_table.define_variable(name.clone(), t, *is_morph) {
                    self.errors.push(AnalysisError::DuplicateDefinition(e, *line_info));
                    assert(errors_model(self.errors@) =~= errors_model(errs0).push(self.errors@.last()@));
                }
            },
            AST::Oracle { is_match, conditionals, branches, line_info } => {
                let ghost st0 = self.state();
                let mut i: usize = 0;
                while i < conditionals.len()
                    invariant
                        i <= conditionals@.len(),
                        run_conds(conditionals@, 0, st0) == run_conds(conditionals@, i as nat, self.state()),
                        decreases_to!(ast => conditionals),
                    decreases conditionals.len() - i,
                {
                    assert(decreases_to!(ast => conditionals@[i as int].expression));
                    let ghost before = self.state();
                    self.visit(&conditionals[i].expression);
                    assert(run_conds(conditionals@, i as nat, before) == run_conds(
                        conditionals@,
                        (i + 1) as nat,
                        run(*conditionals@[i as int].expression, before),
                    ));
                    i = i + 1;
                }
                let ghost st1 = self.state();
                let mut j: usize = 0;
                while j < branches.len()
                    invariant
                        j <= branches@.len(),
                        run_seq(branches@, 0, st1) == run_seq(branches@, j as nat, self.state()),
                        decreases_to!(ast => branches),
                    decreases branches.len() - j,
                {
                    assert(decreases_to!(ast => branches@[j as int]));
                    let ghost before = self.state();
                    self.visit(&branches[j]);
                    assert(run_seq(branches@, j as nat, before) == run_seq(branches@, (j + 1) as nat, run(branches@[j as int], before)));
                    j = j + 1;
                }
                if *is_match {
                    let ghost st2 = self.state();
                    let mut types: Vec<Type> = Vec::new();
                    let mut k: usize = 0;
                    while k < conditionals.len()
                        invariant
                            k <= conditionals@.len(),
                            self.state() == st2,
                            types@.len() == k,
                            forall|q: int| 0 <= q < k ==> #[trigger] types@[q] == infer_model(*conditionals@[q].expression, st2.0),
                        decreases conditionals.len() - k,
                    {
                        types.push(self.infer_type(&conditionals[k].expression));
                        k = k + 1;
                    }
                    proof {
                        assert(types@ =~= Seq::new(conditionals@.len(), |q: int| infer_model(*conditionals@[q].expression, st2.0)));
                        lemma_exh_model(types@, branches@, self.table_view());
                    }
                    let ghost errs0 = self.errors@;
                    self.check_exhaustiveness(types.as_slice(), branches.as_slice(), *line_info);
                    proof {
                        if self.errors@.len() > errs0.len() {
                            assert(self.errors@ =~= errs0.push(self.errors@.last()));
                            assert(errors_model(self.errors@) =~= errors_model(errs0).push(self.errors@.last()@));
                        }
                    }
                }
            },
            _ => {},
        }
    }

    /// The type of a literal, of a variable known to the table, or of an
    /// instantiation; `abyss` for anything else.
    pub fn infer_type(&self, ast: &AST) -> (t: Type)
        ensures
            t == infer_model(*ast, table_model(self.table_view())),
            ast is Omen ==> t is Omen,
            ast is Arcana ==> t is Arcana,
            ast is Aether ==> t is Aether,
            ast is Rune ==> t is Rune,
            ast is Abyss ==> t is Abyss,
            ast matches AST::SpectrumInstantiation { spectrum, .. } ==> t@ == crate::ast::TypeV::Spectrum(spectrum@),
            ast matches AST::ArtifactLiteral { artifact_type, .. } ==> t@ == crate::ast::TypeV::Artifact(artifact_type@),
    {
        match ast {
            AST::Omen(..) => Type::Omen,
            AST::Arcana(..) => Type::Arcana,
            AST::Aether(..) => Type::Aether,
            AST::Rune(..) => Type::Rune,
            AST::Abyss(..) => Type::Abyss,
            AST::Var(name, _) => {
                proof {
                    lemma_lookup_model(self.table_view(), name@);
                }
                match self.symbol_table.lookup(name.as_str()) {
                    Some(SymbolKind::Variable { var_type, .. }) => copy_type(var_type),
                    _ => Type::Abyss,
                }
            },
            AST::SpectrumInstantiation { spectrum, .. } => Type::Spectrum(spectrum.clone()),
            AST::ArtifactLiteral { artifact_type, .. } => Type::Artifact(artifact_type.clone()),
            _ => Type::Abyss,
        }
    }

    /// Records a `NonExhaustiveMatch` error when the branches do not cover
    /// every value of the scrutinee types (see [`exhaustiveness_message`]).
    pub fn check_exhaustiveness(&mut self, types: &[Type], branches: &[AST], line_info: Option<LineInfo>)
        ensures
            final(self).table_view() == old(self).table_view(),
            match exhaustiveness_message(types@, branches@, old(self).table_view()) {
                None => final(self).errors_view() == old(self).errors_view(),
                Some(msg) => final(self).errors_view().len() == old(self).errors_view().len() + 1
                    && final(self).errors_view().drop_last() == old(self).errors_view()
                    && (final(self).errors_view().last() matches AnalysisError::NonExhaustiveMatch(m, li)
                    && m@ == msg && li == line_info),
            },
    {
        let msg = self.exhaustiveness_message(types, branches);
        if let Some(m) = msg {
            self.errors.push(AnalysisError::NonExhaustiveMatch(m, line_info));
            assert(self.errors@.drop_last() =~= old(self).errors@);
        }
    }

    fn exhaustiveness_message(&self, types: &[Type], branches: &[AST]) -> (m: Option<String>)
        ensures
            match exhaustiveness_message(types@, branches@, self.table_view()) {
                None => m is None,
                Some(msg) => m matches Some(s) && s@ == msg,
            },
    {
        if types.len() == 0 {
            return None;
        }
        let mut b: usize = 0;
        while b < branches.len()
            invariant
                b <= branches@.len(),
                forall|k: int| 0 <= k < b ==> !is_catch_all_branch(#[trigger] branches@[k]),
            decreases branches.len() - b,
        {
            if let AST::OracleBranch { pattern, .. } = &branches[b] {
                let mut all = true;
                let mut p: usize = 0;
                while p < pattern.len()
                    invariant
                        p <= pattern@.len(),
                        all == forall|q: int| 0 <= q < p ==> is_catch_all_spec(#[trigger] pattern@[q]),
                    decreases pattern.len() - p,
                {
                    if !self.is_catch_all(&pattern[p]) {
                        all = false;
                    }
                    p = p + 1;
                }
                if all {
                    assert(is_catch_all_branch(branches@[b as int]));
                    return None;
                }
            }
            b = b + 1;
        }
        if types.len() > 1 {
            return Some(owned("Multi-value match requires a catch-all pattern"));
        }
        let patterns = first_patterns_of(branches);
        let ghost pats = first_patterns(branches@);
        assert(Seq::new(patterns@.len(), |i: int| *patterns@[i]) =~= pats);
        assert(!exists|b: int| 0 <= b < branches@.len() && is_catch_all_branch(#[trigger] branches@[b]));
        match &types[0] {
            Type::Omen => {
                let mut has_true = false;
                let mut has_false = false;
                let mut k: usize = 0;
                while k < patterns.len()
                    invariant
                        k <= patterns@.len(),
                        has_true == exists|q: int| 0 <= q < k && is_omen_literal(*#[trigger] patterns@[q], true),
                        has_false == exists|q: int| 0 <= q < k && is_omen_literal(*#[trigger] patterns@[q], false),
                    decreases patterns.len() - k,
                {
                    if self.is_bool_literal(patterns[k], true) {
                        has_true = true;
                    }
                    if self.is_bool_literal(patterns[k], false) {
                        has_false = true;
                    }
                    k = k + 1;
                }
                assert(has_true == covers_omen(pats, true));
                assert(has_false == covers_omen(pats, false));
                if has_true && has_false {
                    None
                } else {
                    Some(owned("Omen match must cover both boon and hex or use _"))
                }
            },
            Type::Arcana => Some(owned("Arcana match must use _ or variable binding")),
            Type::Aether => Some(owned("Aether match must use _ or variable binding")),
            Type::Rune => Some(owned("Rune match must use _ or variable binding")),
            Type::Spectrum(name) => match self.symbol_table.lookup_spectrum(name.as_str()) {
                Some(schema) => {
                    let missing = missing_variant_names(schema, &patterns);
                    if missing.len() == 0 {
                        None
                    } else {
                        let mut msg = owned("Missing variants: ");
                        let list = quoted_list_of(&missing);
                        push_str(&mut msg, list.as_str());
                        Some(msg)
                    }
                },
                None => None,
            },
            _ => None,
        }
    }

    /// Whether `ast` is a pattern that matches every value.
    pub fn is_catch_all(&self, ast: &AST) -> (r: bool)
        ensures
            r == is_catch_all_spec(*ast),
    {
        match ast {
            AST::OracleDontCareItem(_) => true,
            AST::PatternBinding { .. } => true,
            _ => false,
        }
    }

    /// Whether `ast` is the omen literal `expected`.
    pub fn is_bool_literal(&self, ast: &AST, expected: bool) -> (r: bool)
        ensures
            r == is_omen_literal(*ast, expected),
    {
        if let AST::Omen(v, _) = ast {
            *v == expected
        } else {
            false
        }
    }

    /// The variant that a spectrum pattern names.
    pub fn get_spectrum_variant(&self, ast: &AST) -> (r: Option<String>)
        ensures
            match *ast {
                AST::SpectrumPattern { variant, .. } => r matches Some(v) && v@ == variant@,
                _ => r is None,
            },
    {
        if let AST::SpectrumPattern { variant, .. } = ast {
            Some(variant.clone())
        } else {
            None
        }
    }
}

fn first_patterns_of(branches: &[AST]) -> (ps: Vec<&AST>)
    ensures
        ps@.len() == first_patterns(branches@).len(),
        forall|k: int| 0 <= k < ps@.len() ==> *#[trigger] ps@[k] == first_patterns(branches@)[k],
{
    let mut ps: Vec<&AST> = Vec::new();
    let mut i: usize = 0;
    while i < branches.len()
        invariant
            i <= branches@.len(),
            ps@.len() == first_patterns(branches@.take(i as int)).len(),
            forall|k: int| 0 <= k < ps@.len() ==> *#[trigger] ps@[k] == first_patterns(branches@.take(i as int))[k],
        decreases branches.len() - i,
    {
        proof {
            assert(branches@.take(i + 1).drop_last() =~= branches@.take(i as int));
        }
        if let AST::OracleBranch { pattern, .. } = &branches[i] {
            if pattern.len() > 0 {
                ps.push(&pattern[0]);
            }
        }
        i = i + 1;
    }
    assert(branches@.take(branches@.len() as int) =~= branches@);
    ps
}

fn missing_variant_names(schema: &SpectrumSchema, patterns: &Vec<&AST>) -> (names: Vec<String>)
    ensures
        Seq::new(names@.len(), |i: int| names@[i]@) == missing_variants(schema.variants@, Seq::new(patterns@.len(), |i: int| *patterns@[i])),
{
    let ghost pats = Seq::new(patterns@.len(), |i: int| *patterns@[i]);
    let mut names: Vec<String> = Vec::new();
    let mut i: usize = 0;
    while i < schema.variants.len()
        invariant
            pats == Seq::new(patterns@.len(), |i: int| *patterns@[i]),
            i <= schema.variants@.len(),
            Seq::new(names@.len(), |k: int| names@[k]@) == missing_variants(schema.variants@.take(i as int), pats),
        decreases schema.variants.len() - i,
    {
        proof {
            assert(schema.variants@.take(i + 1).drop_last() =~= schema.variants@.take(i as int));
        }
        let mut covered = false;
        let mut k: usize = 0;
        while k < patterns.len()
            invariant
                pats == Seq::new(patterns@.len(), |i: int| *patterns@[i]),
                i < schema.variants@.len(),
                k <= patterns@.len(),
                covered == exists|q: int| 0 <= q < k && is_variant_pattern(#[trigger] pats[q], schema.variants@[i as int].0@),
            decreases patterns.len() - k,
        {
            if let AST::SpectrumPattern { variant, .. } = patterns[k] {
                if str_eq(variant.as_str(), schema.variants[i].0.as_str()) {
                    covered = true;
                }
            }
            assert(pats[k as int] == *patterns@[k as int]);
            k = k + 1;
        }
        let ghost before = names@;
        if !covered {
            names.push(schema.variants[i].0.clone());
        }
        proof {
            assert(Seq::new(names@.len(), |k: int| names@[k]@) =~= missing_variants(schema.variants@.take(i + 1), pats));
        }
        i = i + 1;
    }
    assert(schema.variants@.take(schema.variants@.len() as int) =~= schema.variants@);
    names
}

fn quoted_list_of(names: &Vec<String>) -> (s: String)
    ensures
        s@ == quoted_list(Seq::new(names@.len(), |i: int| names@[i]@)),
{
    let ghost parts = Seq::new(names@.len(), |i: int| "\""@ + names@[i]@ + "\""@);
    let mut s = owned("[");
    let mut i: usize = 0;
    while i < names.len()
        invariant
            parts == Seq::new(names@.len(), |i: int| "\""@ + names@[i]@ + "\""@),
            i <= names@.len(),
            s@ == "["@ + join(parts.take(i as int), ", "@),
        decreases names.len() - i,
    {
        proof {
            assert(parts.take(i + 1).drop_last() =~= parts.take(i as int));
        }
        if i > 0 {
            push_str(&mut s, ", ");
        }
        push_str(&mut s, "\"");
        push_str(&mut s, names[i].as_str());
        push_str(&mut s, "\"");
        proof {
            if i == 0 {
                assert(parts.take(1) =~= seq![parts[0]]);
            }
            assert(s@ =~= "["@ + join(parts.take(i + 1), ", "@));
        }
        i = i + 1;
    }
    push_str(&mut s, "]");
    assert(parts.take(names@.len() as int) =~= parts);
    let ghost nv = Seq::new(names@.len(), |i: int| names@[i]@);
    assert(parts =~= Seq::new(nv.len(), |i: int| "\""@ + nv[i] + "\""@));
    s
}

fn copy_error(e: &AnalysisError) -> (r: AnalysisError)
    ensures
        r == *e,
{
    match e {
        AnalysisError::UndefinedVariable(s, l) => AnalysisError::UndefinedVariable(s.clone(), *l),
        AnalysisError::TypeMismatch { expected, found, line_info } => AnalysisError::TypeMismatch {
            expected: copy_type(expected),
            found: copy_type(found),
            line_info: *line_info,
        },
        AnalysisError::NonExhaustiveMatch(s, l) => AnalysisError::NonExhaustiveMatch(s.clone(), *l),
        AnalysisError::DuplicateDefinition(s, l) => AnalysisError::DuplicateDefinition(s.clone(), *l),
        AnalysisError::InvalidOperation(s, l) => AnalysisError::InvalidOperation(s.clone(), *l),
    }
}

} // verus!
