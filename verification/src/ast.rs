//! The abstract syntax tree of AbySS programs, and the types of the language.
use vstd::prelude::*;

verus! {

broadcast use vstd::std_specs::vec::axiom_vec_index_decreases;

/// A position in the source: 1-based line and column.
#[derive(Clone, Copy, Debug, PartialEq, Eq, Structural)]
pub struct LineInfo {
    pub line: usize,
    pub column: usize,
}

impl LineInfo {
    pub fn new(line: usize, column: usize) -> (r: LineInfo)
        ensures
            r.line == line,
            r.column == column,
    {
        LineInfo { line, column }
    }
}

/// The type of a variable or expression.
#[derive(Clone, Debug, PartialEq, Eq, Hash)]
pub enum Type {
    Arcana,
    Aether,
    Rune,
    Omen,
    Abyss,
    Scroll,
    Lexicon,
    Materia,
    Glyph,
    Artifact(String),
    Spectrum(String),
}

/// The mathematical model of a [`Type`]: names become character sequences.
pub enum TypeV {
    Arcana,
    Aether,
    Rune,
    Omen,
    Abyss,
    Scroll,
    Lexicon,
    Materia,
    Glyph,
    Artifact(Seq<char>),
    Spectrum(Seq<char>),
}

impl View for Type {
    type V = TypeV;

    open spec fn view(&self) -> TypeV {
        match self {
            Type::Arcana => TypeV::Arcana,
            Type::Aether => TypeV::Aether,
            Type::Rune => TypeV::Rune,
            Type::Omen => TypeV::Omen,
            Type::Abyss => TypeV::Abyss,
            Type::Scroll => TypeV::Scroll,
            Type::Lexicon => TypeV::Lexicon,
            Type::Materia => TypeV::Materia,
            Type::Glyph => TypeV::Glyph,
            Type::Artifact(n) => TypeV::Artifact(n@),
            Type::Spectrum(n) => TypeV::Spectrum(n@),
        }
    }
}

/// An assignment operator.
#[derive(Clone, Copy, Debug, PartialEq, Eq, Structural)]
pub enum AssignmentOp {
    Assign,
    AddAssign,
    SubAssign,
    MulAssign,
    DivAssign,
    ModAssign,
    PowArcanaAssign,
    PowAetherAssign,
}

/// A field of an artifact definition.
#[derive(Clone, Debug)]
pub struct ArtifactField {
    pub name: String,
    pub field_type: Type,
    pub line_info: Option<LineInfo>,
}

/// The artifact that an engraved function is a method of.
#[derive(Clone, Debug)]
pub struct ArtifactMethodTarget {
    pub artifact: String,
    pub requires_morph: bool,
}

/// A scrutinee of an oracle, optionally bound to a name.
#[derive(Debug)]
pub struct ConditionalAssignment {
    pub variable: String,
    pub expression: Box<AST>,
    pub line_info: Option<LineInfo>,
}

/// A variant of a spectrum definition with the types of its payload.
#[derive(Clone, Debug)]
pub struct SpectrumVariant {
    pub name: String,
    pub args: Vec<Type>,
}

/// The abstract syntax tree. An aether literal keeps its source text.
#[derive(Debug)]
pub enum AST {
    Statement(Box<AST>, Option<LineInfo>),
    Omen(bool, Option<LineInfo>),
    Arcana(i64, Option<LineInfo>),
    Aether(String, Option<LineInfo>),
    Rune(String, Option<LineInfo>),
    Abyss(Option<LineInfo>),
    Add(Box<AST>, Box<AST>, Option<LineInfo>),
    Sub(Box<AST>, Box<AST>, Option<LineInfo>),
    Mul(Box<AST>, Box<AST>, Option<LineInfo>),
    Div(Box<AST>, Box<AST>, Option<LineInfo>),
    Mod(Box<AST>, Box<AST>, Option<LineInfo>),
    PowArcana(Box<AST>, Box<AST>, Option<LineInfo>),
    PowAether(Box<AST>, Box<AST>, Option<LineInfo>),
    Equal(Box<AST>, Box<AST>, Option<LineInfo>),
    NotEqual(Box<AST>, Box<AST>, Option<LineInfo>),
    LessThan(Box<AST>, Box<AST>, Option<LineInfo>),
    LessThanOrEqual(Box<AST>, Box<AST>, Option<LineInfo>),
    GreaterThan(Box<AST>, Box<AST>, Option<LineInfo>),
    GreaterThanOrEqual(Box<AST>, Box<AST>, Option<LineInfo>),
    LogicalAnd(Box<AST>, Box<AST>, Option<LineInfo>),
    LogicalOr(Box<AST>, Box<AST>, Option<LineInfo>),
    LogicalNot(Box<AST>, Option<LineInfo>),
    VarAssign {
        name: String,
        value: Box<AST>,
        var_type: Type,
        is_morph: bool,
        line_info: Option<LineInfo>,
    },
    Assignment {
        name: String,
        value: Box<AST>,
        op: AssignmentOp,
        line_info: Option<LineInfo>,
    },
    Var(String, Option<LineInfo>),
    Trans(Box<AST>, Type, Option<LineInfo>),
    Reveal(Box<AST>, Option<LineInfo>),
    Oracle {
        is_match: bool,
        conditionals: Vec<ConditionalAssignment>,
        branches: Vec<AST>,
        line_info: Option<LineInfo>,
    },
    OracleBranch {
        pattern: Vec<AST>,
        guard: Option<Box<AST>>,
        body: Box<AST>,
        line_info: Option<LineInfo>,
    },
    OracleDontCareItem(Option<LineInfo>),
    PatternBinding {
        name: String,
        line_info: Option<LineInfo>,
    },
    Block(Vec<AST>, Option<LineInfo>),
    Comment(String, Option<LineInfo>),
    Orbit {
        params: Vec<AST>,
        body: Box<AST>,
        line_info: Option<LineInfo>,
    },
    OrbitParam {
        name: String,
        start: Box<AST>,
        end: Box<AST>,
        op: String,
        line_info: Option<LineInfo>,
    },
    Resume(Option<String>, Option<LineInfo>),
    Eject(Option<String>, Option<LineInfo>),
    Engrave {
        name: String,
        params: Vec<AST>,
        return_type: Type,
        body: Box<AST>,
        line_info: Option<LineInfo>,
    },
    EngraveParam {
        name: String,
        param_type: Type,
        is_morph: bool,
        line_info: Option<LineInfo>,
    },
    FuncCall {
        name: String,
        args: Vec<AST>,
        line_info: Option<LineInfo>,
    },
    ListLiteral {
        elements: Vec<AST>,
        line_info: Option<LineInfo>,
    },
    MapLiteral {
        entries: Vec<(String, AST)>,
        line_info: Option<LineInfo>,
    },
    IndexAccess {
        target: Box<AST>,
        index: Box<AST>,
        line_info: Option<LineInfo>,
    },
    IndexAssignment {
        target: Box<AST>,
        index: Box<AST>,
        value: Box<AST>,
        line_info: Option<LineInfo>,
    },
    ArtifactDef {
        name: String,
        fields: Vec<ArtifactField>,
        line_info: Option<LineInfo>,
    },
    ArtifactLiteral {
        artifact_type: String,
        fields: Vec<(String, AST)>,
        line_info: Option<LineInfo>,
    },
    FieldAccess {
        target: Box<AST>,
        field: String,
        line_info: Option<LineInfo>,
    },
    FieldAssignment {
        target: Box<AST>,
        field: String,
        value: Box<AST>,
        line_info: Option<LineInfo>,
    },
    SpectrumDef {
        name: String,
        variants: Vec<SpectrumVariant>,
        line_info: Option<LineInfo>,
    },
    SpectrumPattern {
        spectrum: String,
        variant: String,
        args: Vec<AST>,
        line_info: Option<LineInfo>,
    },
    SpectrumInstantiation {
        spectrum: String,
        variant: String,
        args: Vec<AST>,
        line_info: Option<LineInfo>,
    },
}

/// Whether two types are the same type.
pub fn type_eq(a: &Type, b: &Type) -> (r: bool)
    ensures
        r == (a@ == b@),
{
    match (a, b) {
        (Type::Arcana, Type::Arcana) => true,
        (Type::Aether, Type::Aether) => true,
        (Type::Rune, Type::Rune) => true,
        (Type::Omen, Type::Omen) => true,
        (Type::Abyss, Type::Abyss) => true,
        (Type::Scroll, Type::Scroll) => true,
        (Type::Lexicon, Type::Lexicon) => true,
        (Type::Materia, Type::Materia) => true,
        (Type::Glyph, Type::Glyph) => true,
        (Type::Artifact(x), Type::Artifact(y)) => *x == *y,
        (Type::Spectrum(x), Type::Spectrum(y)) => *x == *y,
        _ => false,
    }
}

/// A copy of a type.
pub fn copy_type(t: &Type) -> (r: Type)
    ensures
        r == *t,
{
    match t {
        Type::Arcana => Type::Arcana,
        Type::Aether => Type::Aether,
        Type::Rune => Type::Rune,
        Type::Omen => Type::Omen,
        Type::Abyss => Type::Abyss,
        Type::Scroll => Type::Scroll,
        Type::Lexicon => Type::Lexicon,
        Type::Materia => Type::Materia,
        Type::Glyph => Type::Glyph,
        Type::Artifact(n) => Type::Artifact(n.clone()),
        Type::Spectrum(n) => Type::Spectrum(n.clone()),
    }
}

/// Whether a tree is built from literals, names, operators, indexing,
/// casts, `reveal`, `forge` and parameter declarations alone: no part of it holds a list
/// of trees.
pub open spec fn is_simple(a: AST) -> bool
    decreases a,
{
    match a {
        AST::Statement(e, _) | AST::Reveal(e, _) | AST::LogicalNot(e, _) | AST::Trans(e, _, _) => is_simple(*e),
        AST::Omen(..) | AST::Arcana(..) | AST::Rune(..) | AST::Abyss(..) | AST::Var(..) | AST::OracleDontCareItem(..)
        | AST::EngraveParam { .. } => true,
        AST::Add(l, r, _) | AST::Sub(l, r, _) | AST::Mul(l, r, _) | AST::Div(l, r, _) | AST::Mod(l, r, _)
        | AST::PowArcana(l, r, _) | AST::Equal(l, r, _) | AST::NotEqual(l, r, _) | AST::LessThan(l, r, _)
        | AST::LessThanOrEqual(l, r, _) | AST::GreaterThan(l, r, _) | AST::GreaterThanOrEqual(l, r, _)
        | AST::LogicalAnd(l, r, _) | AST::LogicalOr(l, r, _) => is_simple(*l) && is_simple(*r),
        AST::IndexAccess { target, index, .. } => is_simple(*target) && is_simple(*index),
        AST::VarAssign { value, .. } => is_simple(*value),
        _ => false,
    }
}

/// `r` is a faithful copy of `a` as far as simple trees go: a simple tree
/// is copied exactly, and simplicity is kept.
pub open spec fn same_simple(r: AST, a: AST) -> bool {
    &&& is_simple(a) ==> r == a
    &&& is_simple(r) == is_simple(a)
}

/// `r` is a copy of `a`: faithful as far as simple trees go (see
/// [`same_simple`]), a block exactly when `a` is one, and then with its
/// statements copied in the same way.
pub open spec fn copy_of(r: AST, a: AST) -> bool {
    &&& same_simple(r, a)
    &&& (r is Block) == (a is Block)
    &&& a is Block ==> r->Block_0@.len() == a->Block_0@.len() && forall|i: int|
        0 <= i < a->Block_0@.len() ==> same_simple(#[trigger] r->Block_0@[i], a->Block_0@[i])
}

/// A copy of a syntax tree.
pub(crate) fn copy_ast(a: &AST) -> (r: AST)
    ensures
        copy_of(r, *a),
    decreases a, 1nat,
{
    match a {
        AST::Statement(e, l) => AST::Statement(Box::new(copy_ast(e)), *l),
        AST::Omen(b, l) => AST::Omen(*b, *l),
        AST::Arcana(n, l) => AST::Arcana(*n, *l),
        AST::Aether(s, l) => AST::Aether(s.clone(), *l),
        AST::Rune(s, l) => AST::Rune(s.clone(), *l),
        AST::Abyss(l) => AST::Abyss(*l),
        AST::Add(a, b, l) => AST::Add(Box::new(copy_ast(a)), Box::new(copy_ast(b)), *l),
        AST::Sub(a, b, l) => AST::Sub(Box::new(copy_ast(a)), Box::new(copy_ast(b)), *l),
        AST::Mul(a, b, l) => AST::Mul(Box::new(copy_ast(a)), Box::new(copy_ast(b)), *l),
        AST::Div(a, b, l) => AST::Div(Box::new(copy_ast(a)), Box::new(copy_ast(b)), *l),
        AST::Mod(a, b, l) => AST::Mod(Box::new(copy_ast(a)), Box::new(copy_ast(b)), *l),
        AST::PowArcana(a, b, l) => AST::PowArcana(Box::new(copy_ast(a)), Box::new(copy_ast(b)), *l),
        AST::PowAether(a, b, l) => AST::PowAether(Box::new(copy_ast(a)), Box::new(copy_ast(b)), *l),
        AST::Equal(a, b, l) => AST::Equal(Box::new(copy_ast(a)), Box::new(copy_ast(b)), *l),
        AST::NotEqual(a, b, l) => AST::NotEqual(Box::new(copy_ast(a)), Box::new(copy_ast(b)), *l),
        AST::LessThan(a, b, l) => AST::LessThan(Box::new(copy_ast(a)), Box::new(copy_ast(b)), *l),
        AST::LessThanOrEqual(a, b, l) => AST::LessThanOrEqual(Box::new(copy_ast(a)), Box::new(copy_ast(b)), *l),
        AST::GreaterThan(a, b, l) => AST::GreaterThan(Box::new(copy_ast(a)), Box::new(copy_ast(b)), *l),
        AST::GreaterThanOrEqual(a, b, l) => AST::GreaterThanOrEqual(Box::new(copy_ast(a)), Box::new(copy_ast(b)), *l),
        AST::LogicalAnd(a, b, l) => AST::LogicalAnd(Box::new(copy_ast(a)), Box::new(copy_ast(b)), *l),
        AST::LogicalOr(a, b, l) => AST::LogicalOr(Box::new(copy_ast(a)), Box::new(copy_ast(b)), *l),
        AST::LogicalNot(e, l) => AST::LogicalNot(Box::new(copy_ast(e)), *l),
        AST::VarAssign { name, value, var_type, is_morph, line_info } => AST::VarAssign { name: name.clone(), value: Box::new(copy_ast(value)), var_type: copy_type(var_type), is_morph: *is_morph, line_info: *line_info },
        AST::Assignment { name, value, op, line_info } => AST::Assignment { name: name.clone(), value: Box::new(copy_ast(value)), op: *op, line_info: *line_info },
        AST::Var(n, l) => AST::Var(n.clone(), *l),
        AST::Trans(e, t, l) => AST::Trans(Box::new(copy_ast(e)), copy_type(t), *l),
        AST::Reveal(e, l) => AST::Reveal(Box::new(copy_ast(e)), *l),
        AST::Oracle { is_match, conditionals, branches, line_info } => AST::Oracle { is_match: *is_match, conditionals: copy_conditionals(conditionals), branches: copy_asts(branches), line_info: *line_info },
        AST::OracleBranch { pattern, guard, body, line_info } => {
            let g = match guard {
                Some(e) => Some(Box::new(copy_ast(e))),
                None => None,
            };
            AST::OracleBranch { pattern: copy_asts(pattern), guard: g, body: Box::new(copy_ast(body)), line_info: *line_info }
        },
        AST::OracleDontCareItem(l) => AST::OracleDontCareItem(*l),
        AST::PatternBinding { name, line_info } => AST::PatternBinding { name: name.clone(), line_info: *line_info },
        AST::Block(items, l) => AST::Block(copy_asts(items), *l),
        AST::Comment(s, l) => AST::Comment(s.clone(), *l),
        AST::Orbit { params, body, line_info } => AST::Orbit { params: copy_asts(params), body: Box::new(copy_ast(body)), line_info: *line_info },
        AST::OrbitParam { name, start, end, op, line_info } => AST::OrbitParam { name: name.clone(), start: Box::new(copy_ast(start)), end: Box::new(copy_ast(end)), op: op.clone(), line_info: *line_info },
        AST::Resume(label, l) => AST::Resume(copy_opt_string(label), *l),
        AST::Eject(label, l) => AST::Eject(copy_opt_string(label), *l),
        AST::Engrave { name, params, return_type, body, line_info } => AST::Engrave { name: name.clone(), params: copy_asts(params), return_type: copy_type(return_type), body: Box::new(copy_ast(body)), line_info: *line_info },
        AST::EngraveParam { name, param_type, is_morph, line_info } => AST::EngraveParam { name: name.clone(), param_type: copy_type(param_type), is_morph: *is_morph, line_info: *line_info },
        AST::FuncCall { name, args, line_info } => AST::FuncCall { name: name.clone(), args: copy_asts(args), line_info: *line_info },
        AST::ListLiteral { elements, line_info } => AST::ListLiteral { elements: copy_asts(elements), line_info: *line_info },
        AST::MapLiteral { entries, line_info } => AST::MapLiteral { entries: copy_named_asts(entries), line_info: *line_info },
        AST::IndexAccess { target, index, line_info } => AST::IndexAccess { target: Box::new(copy_ast(target)), index: Box::new(copy_ast(index)), line_info: *line_info },
        AST::IndexAssignment { target, index, value, line_info } => AST::IndexAssignment { target: Box::new(copy_ast(target)), index: Box::new(copy_ast(index)), value: Box::new(copy_ast(value)), line_info: *line_info },
        AST::ArtifactDef { name, fields, line_info } => AST::ArtifactDef { name: name.clone(), fields: copy_fields(fields), line_info: *line_info },
        AST::ArtifactLiteral { artifact_type, fields, line_info } => AST::ArtifactLiteral { artifact_type: artifact_type.clone(), fields: copy_named_asts(fields), line_info: *line_info },
        AST::FieldAccess { target, field, line_info } => AST::FieldAccess { target: Box::new(copy_ast(target)), field: field.clone(), line_info: *line_info },
        AST::FieldAssignment { target, field, value, line_info } => AST::FieldAssignment { target: Box::new(copy_ast(target)), field: field.clone(), value: Box::new(copy_ast(value)), line_info: *line_info },
        AST::SpectrumDef { name, variants, line_info } => AST::SpectrumDef { name: name.clone(), variants: copy_variants(variants), line_info: *line_info },
        AST::SpectrumPattern { spectrum, variant, args, line_info } => AST::SpectrumPattern { spectrum: spectrum.clone(), variant: variant.clone(), args: copy_asts(args), line_info: *line_info },
        AST::SpectrumInstantiation { spectrum, variant, args, line_info } => AST::SpectrumInstantiation { spectrum: spectrum.clone(), variant: variant.clone(), args: copy_asts(args), line_info: *line_info },
    }
}

/// Copies of a sequence of syntax trees.
pub(crate) fn copy_asts(v: &Vec<AST>) -> (out: Vec<AST>)
    ensures
        out@.len() == v@.len(),
        forall|i: int| 0 <= i < v@.len() ==> copy_of(#[trigger] out@[i], v@[i]),
    decreases v, 0nat,
{
    let mut out: Vec<AST> = Vec::new();
    let mut i: usize = 0;
    while i < v.len()
        invariant
            i <= v@.len(),
            out@.len() == i,
            forall|k: int| 0 <= k < i ==> copy_of(#[trigger] out@[k], v@[k]),
        decreases v@.len() - i,
    {
        assert(decreases_to!(v => v@[i as int]));
        out.push(copy_ast(&v[i]));
        i = i + 1;
    }
    out
}

/// Copies of a sequence of named syntax trees.
pub(crate) fn copy_named_asts(v: &Vec<(String, AST)>) -> (out: Vec<(String, AST)>)
    ensures
        out@.len() == v@.len(),
    decreases v, 0nat,
{
    let mut out: Vec<(String, AST)> = Vec::new();
    let mut i: usize = 0;
    while i < v.len()
        invariant
            i <= v@.len(),
            out@.len() == i,
        decreases v@.len() - i,
    {
        assert(decreases_to!(v => v@[i as int].1));
        out.push((v[i].0.clone(), copy_ast(&v[i].1)));
        i = i + 1;
    }
    out
}

/// Copies of the scrutinees of an oracle.
pub(crate) fn copy_conditionals(v: &Vec<ConditionalAssignment>) -> (out: Vec<ConditionalAssignment>)
    ensures
        out@.len() == v@.len(),
    decreases v, 0nat,
{
    let mut out: Vec<ConditionalAssignment> = Vec::new();
    let mut i: usize = 0;
    while i < v.len()
        invariant
            i <= v@.len(),
            out@.len() == i,
        decreases v@.len() - i,
    {
        assert(decreases_to!(v => v@[i as int].expression));
        let c = ConditionalAssignment {
            variable: v[i].variable.clone(),
            expression: Box::new(copy_ast(&v[i].expression)),
            line_info: v[i].line_info,
        };
        out.push(c);
        i = i + 1;
    }
    out
}

/// A copy of an optional label.
fn copy_opt_string(s: &Option<String>) -> (r: Option<String>)
    ensures
        r == *s,
{
    match s {
        Some(x) => Some(x.clone()),
        None => None,
    }
}

/// Copies of artifact field declarations.
fn copy_fields(v: &Vec<ArtifactField>) -> (out: Vec<ArtifactField>)
    ensures
        out@.len() == v@.len(),
{
    let mut out: Vec<ArtifactField> = Vec::new();
    let mut i: usize = 0;
    while i < v.len()
        invariant
            i <= v@.len(),
            out@.len() == i,
        decreases v@.len() - i,
    {
        out.push(ArtifactField { name: v[i].name.clone(), field_type: copy_type(&v[i].field_type), line_info: v[i].line_info });
        i = i + 1;
    }
    out
}

/// Copies of spectrum variant declarations.
fn copy_variants(v: &Vec<SpectrumVariant>) -> (out: Vec<SpectrumVariant>)
    ensures
        out@.len() == v@.len(),
{
    let mut out: Vec<SpectrumVariant> = Vec::new();
    let mut i: usize = 0;
    while i < v.len()
        invariant
            i <= v@.len(),
            out@.len() == i,
        decreases v@.len() - i,
    {
        let mut args: Vec<Type> = Vec::new();
        let mut j: usize = 0;
        while j < v[i].args.len()
            invariant
                i < v@.len(),
                j <= v@[i as int].args@.len(),
            decreases v@[i as int].args@.len() - j,
        {
            args.push(copy_type(&v[i].args[j]));
            j = j + 1;
        }
        out.push(SpectrumVariant { name: v[i].name.clone(), args });
        i = i + 1;
    }
    out
}

} // verus!
