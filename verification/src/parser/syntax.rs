//! The grammar of AbySS as relations between tokens and syntax trees:
//! `x_at(t, i, a, j)` says that the tokens of `t` from `i` up to `j`
//! (excluded) spell the node `a` of syntactic category `x`. Line
//! information is not part of the relation. Lists are described from
//! their last element.
use vstd::prelude::*;

use crate::ast::{ArtifactField, AssignmentOp, ConditionalAssignment, LineInfo, Type, AST};
use crate::parser::tokens::{SpannedToken, Token};

verus! {

/// `k` is a position in `t`: where one token may end and the next begin.
pub open spec fn boundary(t: Seq<SpannedToken>, k: int) -> bool {
    0 <= k <= t.len()
}

/// Any line information: every value is one.
pub open spec fn line_any(li: Option<LineInfo>) -> bool {
    li is None || li is Some
}

/// Token `k` of `t` is `tok`.
pub open spec fn is_tok(t: Seq<SpannedToken>, k: int, tok: Token) -> bool {
    0 <= k < t.len() && t[k].0 == tok
}

/// Token `k` of `t` is an identifier.
pub open spec fn is_ident(t: Seq<SpannedToken>, k: int) -> bool {
    0 <= k < t.len() && t[k].0 is Identifier
}

/// Token `k` of `t` is the wildcard `_`.
pub open spec fn is_wild(t: Seq<SpannedToken>, k: int) -> bool {
    0 <= k < t.len() && (t[k].0 matches Token::Identifier(n) && n@ == "_"@)
}

/// Token `k` of `t` closes a pattern item: `,` or `)`.
pub open spec fn item_end(t: Seq<SpannedToken>, k: int) -> bool {
    is_tok(t, k, Token::Comma) || is_tok(t, k, Token::CloseParen)
}

/// Token `k` of `t` names type `ty`: a type keyword, or an artifact's name.
pub open spec fn type_at(t: Seq<SpannedToken>, k: int, ty: Type) -> bool {
    0 <= k < t.len() && match t[k].0 {
        Token::Type(x) => x == ty,
        Token::Identifier(n) => ty == Type::Artifact(n),
        _ => false,
    }
}

/// The name under which a type keyword is read as a value.
pub open spec fn glyph_text(ty: Type) -> Seq<char> {
    match ty {
        Type::Arcana => "arcana"@,
        Type::Aether => "aether"@,
        Type::Rune => "rune"@,
        Type::Omen => "omen"@,
        Type::Abyss => "abyss"@,
        Type::Scroll => "scroll"@,
        Type::Lexicon => "lexicon"@,
        Type::Materia => "materia"@,
        Type::Glyph => "glyph"@,
        Type::Artifact(n) => n@,
        Type::Spectrum(n) => n@,
    }
}

/// A `{` at `k` opens a lexicon literal: `{}` or `{ "key": ...`.
pub open spec fn map_start(t: Seq<SpannedToken>, k: int) -> bool {
    is_tok(t, k, Token::OpenBrace) && k + 1 < t.len() && (t[k + 1].0 == Token::CloseBrace || (t[k + 1].0 is Rune
        && is_tok(t, k + 2, Token::Colon)))
}

/// The token of an assignment operator.
pub open spec fn assign_token(op: AssignmentOp) -> Token {
    match op {
        AssignmentOp::Assign => Token::Assign,
        AssignmentOp::AddAssign => Token::AddAssign,
        AssignmentOp::SubAssign => Token::SubAssign,
        AssignmentOp::MulAssign => Token::MulAssign,
        AssignmentOp::DivAssign => Token::DivAssign,
        AssignmentOp::ModAssign => Token::ModAssign,
        AssignmentOp::PowArcanaAssign => Token::PowArcanaAssign,
        AssignmentOp::PowAetherAssign => Token::PowAetherAssign,
    }
}

/// Token `k` of `t` is an assignment operator.
pub open spec fn assign_op_at(t: Seq<SpannedToken>, k: int) -> bool {
    0 <= k < t.len() && exists|op: AssignmentOp| t[k].0 == #[trigger] assign_token(op)
}

/// A binary node: its precedence level (1 binds tightest), its operator
/// token, and its operands.
pub open spec fn binary_parts(a: AST) -> Option<(int, Token, AST, AST)> {
    match a {
        AST::LogicalOr(l, r, _) => Some((7, Token::DoublePipe, *l, *r)),
        AST::LogicalAnd(l, r, _) => Some((6, Token::DoubleAmpersand, *l, *r)),
        AST::Equal(l, r, _) => Some((5, Token::Equal, *l, *r)),
        AST::NotEqual(l, r, _) => Some((5, Token::NotEqual, *l, *r)),
        AST::LessThan(l, r, _) => Some((4, Token::LessThan, *l, *r)),
        AST::LessThanOrEqual(l, r, _) => Some((4, Token::LessThanOrEqual, *l, *r)),
        AST::GreaterThan(l, r, _) => Some((4, Token::GreaterThan, *l, *r)),
        AST::GreaterThanOrEqual(l, r, _) => Some((4, Token::GreaterThanOrEqual, *l, *r)),
        AST::Add(l, r, _) => Some((3, Token::Plus, *l, *r)),
        AST::Sub(l, r, _) => Some((3, Token::Minus, *l, *r)),
        AST::Mul(l, r, _) => Some((2, Token::Star, *l, *r)),
        AST::Div(l, r, _) => Some((2, Token::Slash, *l, *r)),
        AST::Mod(l, r, _) => Some((2, Token::Percent, *l, *r)),
        AST::PowArcana(l, r, _) => Some((1, Token::Caret, *l, *r)),
        AST::PowAether(l, r, _) => Some((1, Token::DoubleStar, *l, *r)),
        _ => None,
    }
}

/// An expression of precedence `level` (7 is a whole expression, 0 a
/// unary one): binary operators of one level associate to the left.
pub open spec fn expr_at(t: Seq<SpannedToken>, i: int, a: AST, j: int, level: int) -> bool
    decreases j - i, 10 + level,
{
    0 <= i < j <= t.len() && 0 <= level <= 7 && if level == 0 {
        unary_at(t, i, a, j)
    } else {
        ||| expr_at(t, i, a, j, level - 1)
        ||| (binary_parts(a) matches Some((lv, op, l, r)) && lv == level && exists|k: int|
            i < k < j - 1 && #[trigger] is_tok(t, k, op) && expr_at(t, i, l, k, level) && expr_at(t, k + 1, r, j, level - 1))
    }
}

/// A unary expression: `!` before a unary expression, or a postfix one.
pub open spec fn unary_at(t: Seq<SpannedToken>, i: int, a: AST, j: int) -> bool
    decreases j - i, 9int,
{
    0 <= i < j <= t.len() && {
        ||| (a matches AST::LogicalNot(inner, _) && is_tok(t, i, Token::Bang) && unary_at(t, i + 1, *inner, j))
        ||| postfix_at(t, i, a, j)
    }
}

/// A primary expression followed by calls, indexing and field accesses.
/// Only a name can be called.
pub open spec fn postfix_at(t: Seq<SpannedToken>, i: int, a: AST, j: int) -> bool
    decreases j - i, 8int,
{
    0 <= i < j <= t.len() && {
        ||| primary_at(t, i, a, j)
        ||| match a {
            AST::FuncCall { name, args, .. } => exists|k: int, li: Option<LineInfo>|
                #![trigger is_tok(t, k, Token::OpenParen), line_any(li)]
                i < k < j && is_tok(t, k, Token::OpenParen) && primary_at(t, i, AST::Var(name, li), k) && list_at(
                    t,
                    k,
                    args@,
                    j,
                    Token::OpenParen,
                    Token::CloseParen,
                ),
            AST::IndexAccess { target, index, .. } => exists|k: int|
                i < k < j - 2 && #[trigger] is_tok(t, k, Token::OpenBracket) && postfix_at(t, i, *target, k) && expr_at(
                    t,
                    k + 1,
                    *index,
                    j - 1,
                    7,
                ) && is_tok(t, j - 1, Token::CloseBracket),
            AST::FieldAccess { target, field, .. } => i < j - 2 && postfix_at(t, i, *target, j - 2) && is_tok(
                t,
                j - 2,
                Token::Dot,
            ) && t[j - 1].0 == Token::Identifier(field),
            _ => false,
        }
    }
}

/// A primary expression: a literal, a name, a parenthesised expression, a
/// scroll, lexicon or artifact literal, a block, `reveal`, `trans`, or an
/// oracle.
pub open spec fn primary_at(t: Seq<SpannedToken>, i: int, a: AST, j: int) -> bool
    decreases j - i, 7int,
{
    0 <= i < j <= t.len() && {
        ||| (i + 2 < j && is_tok(t, i, Token::OpenParen) && is_tok(t, j - 1, Token::CloseParen) && expr_at(t, i + 1, a, j - 1, 7))
        ||| match a {
            AST::Arcana(n, _) => j == i + 1 && t[i].0 == Token::Arcana(n),
            AST::Aether(s, _) => j == i + 1 && t[i].0 == Token::Aether(s),
            AST::Rune(s, _) => j == i + 1 && t[i].0 == Token::Rune(s),
            AST::Omen(b, _) => j == i + 1 && t[i].0 == Token::OmenLiteral(b),
            AST::Var(n, _) => j == i + 1 && ((t[i].0 == Token::Identifier(n) && !is_tok(t, i + 1, Token::OpenBrace)) || (
            t[i].0 matches Token::Type(ty) && glyph_text(ty) == n@)),
            AST::ListLiteral { elements, .. } => list_at(t, i, elements@, j, Token::OpenBracket, Token::CloseBracket),
            AST::MapLiteral { entries, .. } => i + 1 < j && is_tok(t, i, Token::OpenBrace) && is_tok(t, j - 1, Token::CloseBrace)
                && entries_at(t, i + 1, entries@, j - 1),
            AST::Block(stmts, _) => !map_start(t, i) && block_at(t, i, stmts@, j),
            AST::Reveal(e, _) => is_tok(t, i, Token::Reveal) && expr_at(t, i + 1, *e, j, 7),
            AST::Trans(e, ty, _) => i + 3 < j && is_tok(t, i, Token::Trans) && expr_at(t, i + 1, *e, j - 2, 7) && is_tok(
                t,
                j - 2,
                Token::As,
            ) && type_at(t, j - 1, ty),
            AST::Oracle { .. } => oracle_at(t, i, a, j),
            AST::ArtifactLiteral { artifact_type, fields, .. } => i + 2 < j && t[i].0 == Token::Identifier(artifact_type)
                && is_tok(t, i + 1, Token::OpenBrace) && is_tok(t, j - 1, Token::CloseBrace) && afields_at(t, i + 2, fields@, j - 1),
            _ => false,
        }
    }
}

/// `open items close`, the items whole expressions separated by commas.
pub open spec fn list_at(t: Seq<SpannedToken>, i: int, items: Seq<AST>, j: int, open: Token, close: Token) -> bool
    decreases j - i, 6int,
{
    0 <= i && i + 1 < j <= t.len() && is_tok(t, i, open) && is_tok(t, j - 1, close) && seq_at(t, i + 1, items, j - 1)
}

/// Whole expressions separated by commas (none when `i == j`).
pub open spec fn seq_at(t: Seq<SpannedToken>, i: int, items: Seq<AST>, j: int) -> bool
    decreases j - i, 30int,
{
    0 <= i <= j <= t.len() && if items.len() == 0 {
        i == j
    } else if items.len() == 1 {
        expr_at(t, i, items[0], j, 7)
    } else {
        exists|k: int|
            i < k < j - 1 && #[trigger] is_tok(t, k, Token::Comma) && seq_at(t, i, items.drop_last(), k) && expr_at(
                t,
                k + 1,
                items.last(),
                j,
                7,
            )
    }
}

/// Lexicon entries `"key": value` separated by commas.
pub open spec fn entries_at(t: Seq<SpannedToken>, i: int, entries: Seq<(String, AST)>, j: int) -> bool
    decreases j - i, 30int,
{
    0 <= i <= j <= t.len() && if entries.len() == 0 {
        i == j
    } else {
        exists|k: int|
            i <= k < j - 2 && #[trigger] t[k].0 == Token::Rune(entries.last().0) && is_tok(t, k + 1, Token::Colon) && expr_at(
                t,
                k + 2,
                entries.last().1,
                j,
                7,
            ) && if entries.len() == 1 {
                k == i
            } else {
                i < k - 1 && is_tok(t, k - 1, Token::Comma) && entries_at(t, i, entries.drop_last(), k - 1)
            }
    }
}

/// Artifact literal fields `name: value` separated by commas.
pub open spec fn afields_at(t: Seq<SpannedToken>, i: int, fields: Seq<(String, AST)>, j: int) -> bool
    decreases j - i, 30int,
{
    0 <= i <= j <= t.len() && if fields.len() == 0 {
        i == j
    } else {
        exists|k: int|
            i <= k < j - 2 && #[trigger] t[k].0 == Token::Identifier(fields.last().0) && is_tok(t, k + 1, Token::Colon)
                && expr_at(t, k + 2, fields.last().1, j, 7) && if fields.len() == 1 {
                k == i
            } else {
                i < k - 1 && is_tok(t, k - 1, Token::Comma) && afields_at(t, i, fields.drop_last(), k - 1)
            }
    }
}

/// `{ statements }`.
pub open spec fn block_at(t: Seq<SpannedToken>, i: int, stmts: Seq<AST>, j: int) -> bool
    decreases j - i, 6int,
{
    0 <= i && i + 1 < j <= t.len() && is_tok(t, i, Token::OpenBrace) && is_tok(t, j - 1, Token::CloseBrace) && stmts_at(
        t,
        i + 1,
        stmts,
        j - 1,
    )
}

/// Statements one after another (none when `i == j`).
pub open spec fn stmts_at(t: Seq<SpannedToken>, i: int, stmts: Seq<AST>, j: int) -> bool
    decreases j - i, 50int,
{
    0 <= i <= j <= t.len() && if stmts.len() == 0 {
        i == j
    } else {
        exists|k: int| #[trigger] boundary(t, k) && i <= k < j && stmts_at(t, i, stmts.drop_last(), k) && stmt_at(t, k, stmts.last(), j)
    }
}

/// A statement: its body and `;`.
pub open spec fn stmt_at(t: Seq<SpannedToken>, i: int, a: AST, j: int) -> bool
    decreases j - i, 45int,
{
    0 <= i && i + 1 < j <= t.len() && is_tok(t, j - 1, Token::Semicolon) && (a matches AST::Statement(body, _) && body_at(
        t,
        i,
        *body,
        j - 1,
    ))
}

/// The body of a statement: a definition, `forge`, an orbit, `resume`,
/// `eject`, an assignment, or an expression not followed by an
/// assignment operator.
pub open spec fn body_at(t: Seq<SpannedToken>, i: int, a: AST, j: int) -> bool
    decreases j - i, 40int,
{
    0 <= i < j <= t.len() && match a {
        AST::ArtifactDef { name, fields, .. } => i + 3 < j && is_tok(t, i, Token::Artifact) && t[i + 1].0 == Token::Identifier(
            name,
        ) && is_tok(t, i + 2, Token::OpenBrace) && is_tok(t, j - 1, Token::CloseBrace) && dfields_at(t, i + 3, fields@, j - 1),
        AST::VarAssign { name, value, var_type, is_morph, .. } => {
            let p = if is_morph { i + 2 } else { i + 1 };
            &&& is_tok(t, i, Token::Forge)
            &&& is_morph == is_tok(t, i + 1, Token::Morph)
            &&& p + 4 < j
            &&& t[p].0 == Token::Identifier(name)
            &&& is_tok(t, p + 1, Token::Colon)
            &&& type_at(t, p + 2, var_type)
            &&& is_tok(t, p + 3, Token::Assign)
            &&& expr_at(t, p + 4, *value, j, 7)
        },
        AST::Engrave { name, params, return_type, body, .. } => exists|k: int|
            i + 3 <= k && k + 3 < j && #[trigger] is_tok(t, k, Token::CloseParen) && is_tok(t, i, Token::Engrave) && t[i
                + 1].0 == Token::Identifier(name) && is_tok(t, i + 2, Token::OpenParen) && eparams_at(t, i + 3, params@, k)
                && is_tok(t, k + 1, Token::Arrow) && type_at(t, k + 2, return_type) && body_block_at(t, k + 3, *body, j),
        AST::Orbit { params, body, .. } => is_tok(t, i, Token::Orbit) && if params@.len() == 0 {
            !is_tok(t, i + 1, Token::OpenParen) && body_block_at(t, i + 1, *body, j)
        } else {
            exists|k: int|
                i + 2 < k && k + 1 < j && #[trigger] is_tok(t, k, Token::CloseParen) && is_tok(t, i + 1, Token::OpenParen)
                    && oparams_at(t, i + 2, params@, k) && body_block_at(t, k + 1, *body, j)
        },
        AST::Resume(label, _) => is_tok(t, i, Token::Resume) && match label {
            Some(n) => j == i + 2 && t[i + 1].0 == Token::Identifier(n),
            None => j == i + 1 && !is_ident(t, i + 1),
        },
        AST::Eject(label, _) => is_tok(t, i, Token::Eject) && match label {
            Some(n) => j == i + 2 && t[i + 1].0 == Token::Identifier(n),
            None => j == i + 1 && !is_ident(t, i + 1),
        },
        AST::Assignment { name, value, op, .. } => exists|k: int, li: Option<LineInfo>|
            #![trigger boundary(t, k), line_any(li)]
            i < k < j - 1 && t[k].0 == assign_token(op) && expr_at(t, i, AST::Var(name, li), k, 7) && expr_at(
                t,
                k + 1,
                *value,
                j,
                7,
            ),
        AST::IndexAssignment { target, index, value, .. } => exists|k: int, li: Option<LineInfo>|
            #![trigger is_tok(t, k, Token::Assign), line_any(li)]
            i < k < j - 1 && is_tok(t, k, Token::Assign) && expr_at(
                t,
                i,
                AST::IndexAccess { target, index, line_info: li },
                k,
                7,
            ) && expr_at(t, k + 1, *value, j, 7),
        AST::FieldAssignment { target, field, value, .. } => exists|k: int, li: Option<LineInfo>|
            #![trigger is_tok(t, k, Token::Assign), line_any(li)]
            i < k < j - 1 && is_tok(t, k, Token::Assign) && expr_at(
                t,
                i,
                AST::FieldAccess { target, field, line_info: li },
                k,
                7,
            ) && expr_at(t, k + 1, *value, j, 7),
        _ => expr_at(t, i, a, j, 7) && !assign_op_at(t, j),
    }
}

/// A block that is the body of a definition or an orbit.
pub open spec fn body_block_at(t: Seq<SpannedToken>, i: int, a: AST, j: int) -> bool
    decreases j - i, 7int,
{
    0 <= i < j <= t.len() && (a matches AST::Block(stmts, _) && block_at(t, i, stmts@, j))
}

/// Artifact fields `name: type;`, one after another, no name twice.
pub open spec fn dfields_at(t: Seq<SpannedToken>, i: int, fields: Seq<ArtifactField>, j: int) -> bool
    decreases j - i, 30int,
{
    &&& 0 <= i <= j <= t.len()
    &&& forall|a: int, b: int| 0 <= a < b < fields.len() ==> (#[trigger] fields[a]).name@ != (#[trigger] fields[b]).name@
    &&& if fields.len() == 0 {
        i == j
    } else {
        &&& i + 4 <= j
        &&& t[j - 4].0 == Token::Identifier(fields.last().name)
        &&& is_tok(t, j - 3, Token::Colon)
        &&& type_at(t, j - 2, fields.last().field_type)
        &&& is_tok(t, j - 1, Token::Semicolon)
        &&& dfields_at(t, i, fields.drop_last(), j - 4)
    }
}

/// Parameters of an engraved function `[morph] name: type`, separated by
/// commas (none when `i == j`).
pub open spec fn eparams_at(t: Seq<SpannedToken>, i: int, params: Seq<AST>, j: int) -> bool
    decreases j - i, 30int,
{
    0 <= i <= j <= t.len() && if params.len() == 0 {
        i == j
    } else {
        exists|k: int|
            i <= k < j - 2 && #[trigger] eparam_at(t, k, params.last(), j) && if params.len() == 1 {
                k == i
            } else {
                i < k - 1 && is_tok(t, k - 1, Token::Comma) && eparams_at(t, i, params.drop_last(), k - 1)
            }
    }
}

/// One parameter of an engraved function.
pub open spec fn eparam_at(t: Seq<SpannedToken>, i: int, a: AST, j: int) -> bool {
    a matches AST::EngraveParam { name, param_type, is_morph, .. } && {
        let p = if is_morph { i + 1 } else { i };
        &&& is_morph == is_tok(t, i, Token::Morph)
        &&& j == p + 3
        &&& 0 <= i && j <= t.len()
        &&& t[p].0 == Token::Identifier(name)
        &&& is_tok(t, p + 1, Token::Colon)
        &&& type_at(t, p + 2, param_type)
    }
}

/// Orbit parameters `name = start..end` (or `..=`), separated by commas.
pub open spec fn oparams_at(t: Seq<SpannedToken>, i: int, params: Seq<AST>, j: int) -> bool
    decreases j - i, 30int,
{
    0 <= i < j <= t.len() && params.len() > 0 && exists|k: int|
        #[trigger] boundary(t, k) && i <= k < j - 2 && oparam_at(t, k, params.last(), j) && if params.len() == 1 {
            k == i
        } else {
            i < k - 1 && is_tok(t, k - 1, Token::Comma) && oparams_at(t, i, params.drop_last(), k - 1)
        }
}

/// One orbit parameter.
pub open spec fn oparam_at(t: Seq<SpannedToken>, i: int, a: AST, j: int) -> bool
    decreases j - i, 25int,
{
    0 <= i < j <= t.len() && (a matches AST::OrbitParam { name, start, end, op, .. } && t[i].0 == Token::Identifier(name)
        && is_tok(t, i + 1, Token::Assign) && exists|k: int|
        i + 2 < k < j - 1 && #[trigger] range_op_at(t, k, op@) && expr_at(t, i + 2, *start, k, 7) && expr_at(t, k + 1, *end, j, 7))
}

/// Token `k` is the range operator written `op`.
pub open spec fn range_op_at(t: Seq<SpannedToken>, k: int, op: Seq<char>) -> bool {
    (is_tok(t, k, Token::RangeExclusive) && op == ".."@) || (is_tok(t, k, Token::RangeInclusive) && op == "..="@)
}

/// `oracle [(scrutinees)] { branches }`.
pub open spec fn oracle_at(t: Seq<SpannedToken>, i: int, a: AST, j: int) -> bool
    decreases j - i, 6int,
{
    0 <= i < j <= t.len() && is_tok(t, i, Token::Oracle) && (a matches AST::Oracle { is_match, conditionals, branches, .. } && (
    is_match == is_tok(t, i + 1, Token::OpenParen)) && if is_match {
        exists|k: int|
            i + 2 < k < j && #[trigger] is_tok(t, k, Token::CloseParen) && conds_at(t, i + 2, conditionals@, k)
                && branches_block_at(t, k + 1, branches@, j, true)
    } else {
        conditionals@.len() == 0 && branches_block_at(t, i + 1, branches@, j, false)
    })
}

/// Scrutinees `[name =] expression`, separated by commas, at least one.
pub open spec fn conds_at(t: Seq<SpannedToken>, i: int, conds: Seq<ConditionalAssignment>, j: int) -> bool
    decreases j - i, 30int,
{
    0 <= i < j <= t.len() && conds.len() > 0 && exists|k: int|
        #[trigger] boundary(t, k) && i <= k < j && cond_at(t, k, conds.last(), j) && if conds.len() == 1 {
            k == i
        } else {
            i < k - 1 && is_tok(t, k - 1, Token::Comma) && conds_at(t, i, conds.drop_last(), k - 1)
        }
}

/// One scrutinee: `name = expression` binds it, a bare expression does not.
pub open spec fn cond_at(t: Seq<SpannedToken>, i: int, c: ConditionalAssignment, j: int) -> bool
    decreases j - i, 25int,
{
    0 <= i < j <= t.len() && if is_ident(t, i) && is_tok(t, i + 1, Token::Assign) {
        i + 2 < j && t[i].0 == Token::Identifier(c.variable) && expr_at(t, i + 2, *c.expression, j, 7)
    } else {
        c.variable@ == ""@ && expr_at(t, i, *c.expression, j, 7)
    }
}

/// `{ branches }` of an oracle.
pub open spec fn branches_block_at(t: Seq<SpannedToken>, i: int, bs: Seq<AST>, j: int, m: bool) -> bool
    decreases j - i, 35int,
{
    0 <= i && i + 1 < j <= t.len() && is_tok(t, i, Token::OpenBrace) && is_tok(t, j - 1, Token::CloseBrace) && branches_at(
        t,
        i + 1,
        bs,
        j - 1,
        m,
    )
}

/// Oracle branches one after another (none when `i == j`).
pub open spec fn branches_at(t: Seq<SpannedToken>, i: int, bs: Seq<AST>, j: int, m: bool) -> bool
    decreases j - i, 30int,
{
    0 <= i <= j <= t.len() && if bs.len() == 0 {
        i == j
    } else {
        exists|k: int| #[trigger] boundary(t, k) && i <= k < j && branches_at(t, i, bs.drop_last(), k, m) && branch_at(t, k, bs.last(), j, m)
    }
}

/// One branch: `_` or `(patterns)`, an optional `ward` guard, `=>`, and a
/// body: a block (its `;` optional) or an expression and `;`.
pub open spec fn branch_at(t: Seq<SpannedToken>, i: int, b: AST, j: int, m: bool) -> bool
    decreases j - i, 25int,
{
    0 <= i < j <= t.len() && (b matches AST::OracleBranch { pattern, guard, body, .. } && exists|h: int, g: int|
        #![trigger boundary(t, h), is_tok(t, g, Token::FatArrow)]
        i < h <= g && g + 1 < j && is_tok(t, g, Token::FatArrow) && branch_head_at(t, i, pattern@, h, m)
            && guard_at(t, h, guard, g) && branch_body_at(t, g + 1, *body, j))
}

/// The patterns of a branch: `_`, or `(items)` when the first token is not `_`.
pub open spec fn branch_head_at(t: Seq<SpannedToken>, i: int, ps: Seq<AST>, j: int, m: bool) -> bool
    decreases j - i, 20int,
{
    0 <= i < j <= t.len() && if is_wild(t, i) {
        ps.len() == 0 && j == i + 1
    } else {
        i + 2 < j && is_tok(t, i, Token::OpenParen) && is_tok(t, j - 1, Token::CloseParen) && pats_at(t, i + 1, ps, j - 1, m)
    }
}

/// Pattern items separated by commas, at least one.
pub open spec fn pats_at(t: Seq<SpannedToken>, i: int, ps: Seq<AST>, j: int, m: bool) -> bool
    decreases j - i, 19int,
{
    0 <= i < j <= t.len() && ps.len() > 0 && exists|k: int|
        #[trigger] boundary(t, k) && i <= k < j && pat_at(t, k, ps.last(), j, m) && if ps.len() == 1 {
            k == i
        } else {
            i < k - 1 && is_tok(t, k - 1, Token::Comma) && pats_at(t, i, ps.drop_last(), k - 1, m)
        }
}

/// One pattern item: `_` (anything), a name that binds (in a matching
/// oracle), or an expression.
pub open spec fn pat_at(t: Seq<SpannedToken>, i: int, p: AST, j: int, m: bool) -> bool
    decreases j - i, 18int,
{
    0 <= i < j <= t.len() && if is_wild(t, i) && item_end(t, i + 1) {
        p is OracleDontCareItem && j == i + 1
    } else if m && is_ident(t, i) && item_end(t, i + 1) {
        p matches AST::PatternBinding { name, .. } && t[i].0 == Token::Identifier(name) && j == i + 1
    } else {
        expr_at(t, i, p, j, 7)
    }
}

/// An optional `ward` guard.
pub open spec fn guard_at(t: Seq<SpannedToken>, i: int, guard: Option<Box<AST>>, j: int) -> bool
    decreases j - i, 20int,
{
    0 <= i <= j <= t.len() && match guard {
        Some(g) => i + 1 < j && is_tok(t, i, Token::Ward) && expr_at(t, i + 1, *g, j, 7),
        None => i == j && !is_tok(t, i, Token::Ward),
    }
}

/// The body of a branch.
pub open spec fn branch_body_at(t: Seq<SpannedToken>, i: int, body: AST, j: int) -> bool
    decreases j - i, 20int,
{
    0 <= i < j <= t.len() && if is_tok(t, i, Token::OpenBrace) && !map_start(t, i) {
        body matches AST::Block(stmts, _) && ((is_tok(t, j - 1, Token::Semicolon) && block_at(t, i, stmts@, j - 1)) || (
        !is_tok(t, j, Token::Semicolon) && block_at(t, i, stmts@, j)))
    } else {
        is_tok(t, j - 1, Token::Semicolon) && expr_at(t, i, body, j - 1, 7)
    }
}

/// A whole program: its statements, one after another.
pub open spec fn program_at(t: Seq<SpannedToken>, stmts: Seq<AST>) -> bool {
    stmts_at(t, 0, stmts, t.len() as int)
}

/// A node that an expression can be: not a definition, a `forge`, an
/// orbit, `resume`, `eject` or an assignment.
pub open spec fn is_expr_node(a: AST) -> bool {
    !(a is ArtifactDef || a is VarAssign || a is Engrave || a is Orbit || a is Resume || a is Eject || a is Assignment
        || a is IndexAssignment || a is FieldAssignment || a is Statement)
}

/// A list with items spans at least one token.
pub proof fn lemma_seq_span(t: Seq<SpannedToken>, i: int, items: Seq<AST>, j: int)
    requires
        seq_at(t, i, items, j),
        items.len() > 0,
    ensures
        i < j,
{
    if items.len() == 1 {
        assert(expr_at(t, i, items[0], j, 7));
    }
}

} // verus!
