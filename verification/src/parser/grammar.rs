//! The grammar of AbySS: a recursive-descent parser from tokens to syntax
//! trees. Every parsing function consumes at least one token when it
//! succeeds.
use vstd::prelude::*;

use crate::ast::{copy_type, ArtifactField, AssignmentOp, ConditionalAssignment, LineInfo, Type, AST};
use crate::parser::diagnostics::ParseError;
use crate::parser::helpers::LineMap;
use crate::parser::span::Span;
use crate::parser::syntax::{
    afields_at, assign_op_at, boundary, line_any, assign_token, binary_parts, block_at, body_at, body_block_at, branch_at, branches_at,
    branches_block_at, cond_at, conds_at, dfields_at, entries_at, eparam_at, eparams_at, expr_at, glyph_text, is_expr_node,
    is_ident, is_tok, is_wild, item_end, list_at, map_start, oparam_at, oparams_at, oracle_at, pat_at, pats_at, postfix_at,
    primary_at, program_at, seq_at, stmt_at, stmts_at, type_at, unary_at, guard_at, branch_head_at, branch_body_at,
};
use crate::parser::tokens::{SpannedToken, Token};
use crate::text::{owned, push_str, str_eq};

verus! {

broadcast use vstd::std_specs::vec::axiom_vec_index_decreases;

const T_FORGE: u32 = 1;
const T_MORPH: u32 = 2;
const T_ORACLE: u32 = 3;
const T_ORBIT: u32 = 4;
const T_RESUME: u32 = 5;
const T_EJECT: u32 = 6;
const T_ENGRAVE: u32 = 7;
const T_REVEAL: u32 = 8;
const T_TRANS: u32 = 9;
const T_AS: u32 = 10;
const T_ARTIFACT: u32 = 11;
const T_WARD: u32 = 12;
const T_SEMI: u32 = 20;
const T_COLON: u32 = 21;
const T_COMMA: u32 = 22;
const T_DOT: u32 = 23;
const T_ARROW: u32 = 24;
const T_FAT_ARROW: u32 = 25;
const T_ASSIGN: u32 = 26;
const T_ADD_ASSIGN: u32 = 27;
const T_SUB_ASSIGN: u32 = 28;
const T_MUL_ASSIGN: u32 = 29;
const T_DIV_ASSIGN: u32 = 30;
const T_MOD_ASSIGN: u32 = 31;
const T_POW_ARCANA_ASSIGN: u32 = 32;
const T_POW_AETHER_ASSIGN: u32 = 33;
const T_EQ: u32 = 40;
const T_NE: u32 = 41;
const T_LT: u32 = 42;
const T_LE: u32 = 43;
const T_GT: u32 = 44;
const T_GE: u32 = 45;
const T_PLUS: u32 = 46;
const T_MINUS: u32 = 47;
const T_STAR: u32 = 48;
const T_SLASH: u32 = 49;
const T_PERCENT: u32 = 50;
const T_CARET: u32 = 51;
const T_DOUBLE_STAR: u32 = 52;
const T_OR: u32 = 53;
const T_AND: u32 = 54;
const T_BANG: u32 = 55;
const T_LPAREN: u32 = 60;
const T_RPAREN: u32 = 61;
const T_LBRACE: u32 = 62;
const T_RBRACE: u32 = 63;
const T_LBRACKET: u32 = 64;
const T_RBRACKET: u32 = 65;
const T_RANGE_INCLUSIVE: u32 = 66;
const T_RANGE_EXCLUSIVE: u32 = 67;

/// A distinct code for every token without a payload; 0 for the others.
spec fn code_of(t: Token) -> u32 {
    match t {
        Token::Forge => T_FORGE,
        Token::Morph => T_MORPH,
        Token::Oracle => T_ORACLE,
        Token::Orbit => T_ORBIT,
        Token::Resume => T_RESUME,
        Token::Eject => T_EJECT,
        Token::Engrave => T_ENGRAVE,
        Token::Reveal => T_REVEAL,
        Token::Trans => T_TRANS,
        Token::As => T_AS,
        Token::Artifact => T_ARTIFACT,
        Token::Ward => T_WARD,
        Token::Semicolon => T_SEMI,
        Token::Colon => T_COLON,
        Token::Comma => T_COMMA,
        Token::Dot => T_DOT,
        Token::Arrow => T_ARROW,
        Token::FatArrow => T_FAT_ARROW,
        Token::Assign => T_ASSIGN,
        Token::AddAssign => T_ADD_ASSIGN,
        Token::SubAssign => T_SUB_ASSIGN,
        Token::MulAssign => T_MUL_ASSIGN,
        Token::DivAssign => T_DIV_ASSIGN,
        Token::ModAssign => T_MOD_ASSIGN,
        Token::PowArcanaAssign => T_POW_ARCANA_ASSIGN,
        Token::PowAetherAssign => T_POW_AETHER_ASSIGN,
        Token::Equal => T_EQ,
        Token::NotEqual => T_NE,
        Token::LessThan => T_LT,
        Token::LessThanOrEqual => T_LE,
        Token::GreaterThan => T_GT,
        Token::GreaterThanOrEqual => T_GE,
        Token::Plus => T_PLUS,
        Token::Minus => T_MINUS,
        Token::Star => T_STAR,
        Token::Slash => T_SLASH,
        Token::Percent => T_PERCENT,
        Token::Caret => T_CARET,
        Token::DoubleStar => T_DOUBLE_STAR,
        Token::DoublePipe => T_OR,
        Token::DoubleAmpersand => T_AND,
        Token::Bang => T_BANG,
        Token::OpenParen => T_LPAREN,
        Token::CloseParen => T_RPAREN,
        Token::OpenBrace => T_LBRACE,
        Token::CloseBrace => T_RBRACE,
        Token::OpenBracket => T_LBRACKET,
        Token::CloseBracket => T_RBRACKET,
        Token::RangeInclusive => T_RANGE_INCLUSIVE,
        Token::RangeExclusive => T_RANGE_EXCLUSIVE,
        _ => 0,
    }
}

/// The token without a payload whose code is `c`.
spec fn tok_of_code(c: u32) -> Token {
    if c == T_FORGE { Token::Forge }
    else if c == T_MORPH { Token::Morph }
    else if c == T_ORACLE { Token::Oracle }
    else if c == T_ORBIT { Token::Orbit }
    else if c == T_RESUME { Token::Resume }
    else if c == T_EJECT { Token::Eject }
    else if c == T_ENGRAVE { Token::Engrave }
    else if c == T_REVEAL { Token::Reveal }
    else if c == T_TRANS { Token::Trans }
    else if c == T_AS { Token::As }
    else if c == T_ARTIFACT { Token::Artifact }
    else if c == T_WARD { Token::Ward }
    else if c == T_SEMI { Token::Semicolon }
    else if c == T_COLON { Token::Colon }
    else if c == T_COMMA { Token::Comma }
    else if c == T_DOT { Token::Dot }
    else if c == T_ARROW { Token::Arrow }
    else if c == T_FAT_ARROW { Token::FatArrow }
    else if c == T_ASSIGN { Token::Assign }
    else if c == T_ADD_ASSIGN { Token::AddAssign }
    else if c == T_SUB_ASSIGN { Token::SubAssign }
    else if c == T_MUL_ASSIGN { Token::MulAssign }
    else if c == T_DIV_ASSIGN { Token::DivAssign }
    else if c == T_MOD_ASSIGN { Token::ModAssign }
    else if c == T_POW_ARCANA_ASSIGN { Token::PowArcanaAssign }
    else if c == T_POW_AETHER_ASSIGN { Token::PowAetherAssign }
    else if c == T_EQ { Token::Equal }
    else if c == T_NE { Token::NotEqual }
    else if c == T_LT { Token::LessThan }
    else if c == T_LE { Token::LessThanOrEqual }
    else if c == T_GT { Token::GreaterThan }
    else if c == T_GE { Token::GreaterThanOrEqual }
    else if c == T_PLUS { Token::Plus }
    else if c == T_MINUS { Token::Minus }
    else if c == T_STAR { Token::Star }
    else if c == T_SLASH { Token::Slash }
    else if c == T_PERCENT { Token::Percent }
    else if c == T_CARET { Token::Caret }
    else if c == T_DOUBLE_STAR { Token::DoubleStar }
    else if c == T_OR { Token::DoublePipe }
    else if c == T_AND { Token::DoubleAmpersand }
    else if c == T_BANG { Token::Bang }
    else if c == T_LPAREN { Token::OpenParen }
    else if c == T_RPAREN { Token::CloseParen }
    else if c == T_LBRACE { Token::OpenBrace }
    else if c == T_RBRACE { Token::CloseBrace }
    else if c == T_LBRACKET { Token::OpenBracket }
    else if c == T_RBRACKET { Token::CloseBracket }
    else if c == T_RANGE_INCLUSIVE { Token::RangeInclusive }
    else { Token::RangeExclusive }
}

/// A distinct code for every token without a payload; 0 for the others.
fn token_code(t: &Token) -> (c: u32)
    ensures
        c == code_of(*t),
        c != 0 ==> *t == tok_of_code(c),
{
    match t {
        Token::Forge => T_FORGE,
        Token::Morph => T_MORPH,
        Token::Oracle => T_ORACLE,
        Token::Orbit => T_ORBIT,
        Token::Resume => T_RESUME,
        Token::Eject => T_EJECT,
        Token::Engrave => T_ENGRAVE,
        Token::Reveal => T_REVEAL,
        Token::Trans => T_TRANS,
        Token::As => T_AS,
        Token::Artifact => T_ARTIFACT,
        Token::Ward => T_WARD,
        Token::Semicolon => T_SEMI,
        Token::Colon => T_COLON,
        Token::Comma => T_COMMA,
        Token::Dot => T_DOT,
        Token::Arrow => T_ARROW,
        Token::FatArrow => T_FAT_ARROW,
        Token::Assign => T_ASSIGN,
        Token::AddAssign => T_ADD_ASSIGN,
        Token::SubAssign => T_SUB_ASSIGN,
        Token::MulAssign => T_MUL_ASSIGN,
        Token::DivAssign => T_DIV_ASSIGN,
        Token::ModAssign => T_MOD_ASSIGN,
        Token::PowArcanaAssign => T_POW_ARCANA_ASSIGN,
        Token::PowAetherAssign => T_POW_AETHER_ASSIGN,
        Token::Equal => T_EQ,
        Token::NotEqual => T_NE,
        Token::LessThan => T_LT,
        Token::LessThanOrEqual => T_LE,
        Token::GreaterThan => T_GT,
        Token::GreaterThanOrEqual => T_GE,
        Token::Plus => T_PLUS,
        Token::Minus => T_MINUS,
        Token::Star => T_STAR,
        Token::Slash => T_SLASH,
        Token::Percent => T_PERCENT,
        Token::Caret => T_CARET,
        Token::DoubleStar => T_DOUBLE_STAR,
        Token::DoublePipe => T_OR,
        Token::DoubleAmpersand => T_AND,
        Token::Bang => T_BANG,
        Token::OpenParen => T_LPAREN,
        Token::CloseParen => T_RPAREN,
        Token::OpenBrace => T_LBRACE,
        Token::CloseBrace => T_RBRACE,
        Token::OpenBracket => T_LBRACKET,
        Token::CloseBracket => T_RBRACKET,
        Token::RangeInclusive => T_RANGE_INCLUSIVE,
        Token::RangeExclusive => T_RANGE_EXCLUSIVE,
        _ => 0,
    }
}

/// How an expected token is named in a hint.
fn code_text(code: u32) -> String {
    let s = if code == T_SEMI { "`;`" }
        else if code == T_COLON { "`:`" }
        else if code == T_COMMA { "`,`" }
        else if code == T_ARROW { "`->`" }
        else if code == T_FAT_ARROW { "`=>`" }
        else if code == T_ASSIGN { "`=`" }
        else if code == T_AS { "`as`" }
        else if code == T_LPAREN { "`(`" }
        else if code == T_RPAREN { "`)`" }
        else if code == T_LBRACE { "`{`" }
        else if code == T_RBRACE { "`}`" }
        else if code == T_RBRACKET { "`]`" }
        else if code == T_RANGE_EXCLUSIVE { "`..`" }
        else { "`<token>`" };
    owned(s)
}

/// A parser over the tokens of one source.
pub struct Parser {
    toks: Vec<SpannedToken>,
    map: LineMap,
}

impl Parser {
    /// The tokens can be positioned in the source the map describes.
    pub closed spec fn wf(&self) -> bool {
        &&& self.map.wf()
        &&& self.toks@.len() <= usize::MAX
        &&& forall|k: int| 0 <= k < self.toks@.len() ==> #[trigger] self.toks@[k].1.start < usize::MAX
    }

    /// The number of tokens.
    pub closed spec fn len_spec(&self) -> nat {
        self.toks@.len()
    }

    /// The tokens.
    pub closed spec fn tokens(&self) -> Seq<SpannedToken> {
        self.toks@
    }

    /// A parser over `toks`, positioned by `map`.
    pub fn new(toks: Vec<SpannedToken>, map: LineMap) -> (p: Parser)
        requires
            map.wf(),
            forall|k: int| 0 <= k < toks@.len() ==> #[trigger] toks@[k].1.start < usize::MAX,
        ensures
            p.wf(),
            p.len_spec() == toks@.len(),
            p.tokens() == toks@,
    {
        let _n = toks.len();
        Parser { toks, map }
    }

    fn code(&self, pos: usize) -> (c: u32)
        ensures
            c != 0 ==> pos < self.toks@.len() && self.toks@[pos as int].0 == tok_of_code(c),
            c == (if pos < self.toks@.len() { code_of(self.toks@[pos as int].0) } else { 0 }),
    {
        if pos < self.toks.len() {
            token_code(&self.toks[pos].0)
        } else {
            0
        }
    }

    fn info(&self, pos: usize) -> Option<LineInfo>
        requires
            self.wf(),
    {
        if pos < self.toks.len() {
            self.map.line_info(self.toks[pos].1)
        } else {
            None
        }
    }

    fn ident_at(&self, pos: usize) -> (r: Option<String>)
        ensures
            r is Some ==> pos < self.toks@.len(),
            r matches Some(n) ==> self.toks@[pos as int].0 == Token::Identifier(n),
            r is None ==> !is_ident(self.toks@, pos as int),
    {
        if pos < self.toks.len() {
            match &self.toks[pos].0 {
                Token::Identifier(n) => Some(n.clone()),
                _ => None,
            }
        } else {
            None
        }
    }

    fn is_wildcard(&self, pos: usize) -> (r: bool)
        ensures
            r ==> pos < self.toks@.len(),
            r == is_wild(self.toks@, pos as int),
    {
        if pos < self.toks.len() {
            match &self.toks[pos].0 {
                Token::Identifier(n) => str_eq(n.as_str(), "_"),
                _ => false,
            }
        } else {
            false
        }
    }

    fn error(&self, pos: usize, expected: Vec<String>) -> ParseError {
        if pos < self.toks.len() {
            ParseError { span: self.toks[pos].1, found: Some(self.toks[pos].0.describe()), expected, custom: None }
        } else {
            let end = if self.toks.len() > 0 { self.toks[self.toks.len() - 1].1.end } else { 0 };
            ParseError { span: Span::new(end, end), found: None, expected, custom: None }
        }
    }

    fn error_one(&self, pos: usize, code: u32) -> ParseError {
        let mut e: Vec<String> = Vec::new();
        e.push(code_text(code));
        self.error(pos, e)
    }

    fn expect(&self, pos: usize, code: u32) -> (r: Result<usize, ParseError>)
        ensures
            r matches Ok(p) ==> p == pos + 1 && pos < self.toks@.len() && is_tok(self.toks@, pos as int, tok_of_code(code)),
    {
        if pos < self.toks.len() && token_code(&self.toks[pos].0) == code && code != 0 {
            Ok(pos + 1)
        } else {
            Err(self.error_one(pos, code))
        }
    }

    fn expect_ident(&self, pos: usize) -> (r: Result<(String, usize), ParseError>)
        requires
            self.wf(),
        ensures
            r matches Ok((n, p)) ==> p == pos + 1 && pos < self.toks@.len() && self.toks@[pos as int].0 == Token::Identifier(n),
    {
        match self.ident_at(pos) {
            Some(n) => Ok((n, pos + 1)),
            None => {
                let mut e: Vec<String> = Vec::new();
                e.push(owned("identifier"));
                Err(self.error(pos, e))
            },
        }
    }

    /// Parses a whole program: statements up to the end of the tokens. The
    /// statements are what the tokens spell (see [`program_at`]).
    #[verifier::loop_isolation(false)]
    pub fn parse_program(&self) -> (r: Result<Vec<AST>, ParseError>)
        requires
            self.wf(),
        ensures
            r matches Ok(stmts) ==> forall|k: int| 0 <= k < stmts@.len() ==> #[trigger] stmts@[k] is Statement,
            r matches Ok(stmts) ==> program_at(self.tokens(), stmts@),
    {
        let mut stmts: Vec<AST> = Vec::new();
        let mut pos: usize = 0;
        while pos < self.toks.len()
            invariant
                self.wf(),
                pos <= self.toks@.len(),
                forall|k: int| 0 <= k < stmts@.len() ==> #[trigger] stmts@[k] is Statement,
                stmts_at(self.toks@, 0, stmts@, pos as int),
            decreases self.toks@.len() - pos,
        {
            let (stmt, p) = self.parse_statement(pos)?;
            let ghost before = stmts@;
            let ghost st = stmt;
            stmts.push(stmt);
            proof {
                assert(stmts@.drop_last() =~= before);
                assert(stmts@.last() == st);
                assert(boundary(self.toks@, pos as int));
                assert(stmts_at(self.toks@, 0, stmts@.drop_last(), pos as int));
                assert(stmt_at(self.toks@, pos as int, stmts@.last(), p as int));
                assert(stmts_at(self.toks@, 0, stmts@, p as int));
            }
            pos = p;
        }
        Ok(stmts)
    }

    /// A statement: a statement body followed by `;`.
    fn parse_statement(&self, pos: usize) -> (r: Result<(AST, usize), ParseError>)
        requires
            self.wf(),
        ensures
            r matches Ok((a, p)) ==> pos < p <= self.toks@.len() && a is Statement && stmt_at(self.toks@, pos as int, a, p as int),
        decreases self.toks@.len() - pos, 30nat,
    {
        let info = self.info(pos);
        let (body, p) = self.parse_stmt_body(pos)?;
        let q = self.expect(p, T_SEMI)?;
        Ok((AST::Statement(Box::new(body), info), q))
    }

    fn parse_stmt_body(&self, pos: usize) -> (r: Result<(AST, usize), ParseError>)
        requires
            self.wf(),
        ensures
            r matches Ok((a, p)) ==> pos < p <= self.toks@.len() && body_at(self.toks@, pos as int, a, p as int),
        decreases self.toks@.len() - pos, 29nat,
    {
        let code = self.code(pos);
        let info = self.info(pos);
        if code == T_ARTIFACT {
            return self.parse_artifact_def(pos);
        }
        if code == T_FORGE {
            return self.parse_forge(pos);
        }
        if code == T_ENGRAVE {
            return self.parse_engrave(pos);
        }
        if code == T_ORBIT {
            return self.parse_orbit(pos);
        }
        if code == T_RESUME || code == T_EJECT {
            let (label, p) = match self.ident_at(pos + 1) {
                Some(n) => (Some(n), pos + 2),
                None => (None, pos + 1),
            };
            let node = if code == T_RESUME { AST::Resume(label, info) } else { AST::Eject(label, info) };
            assert(body_at(self.toks@, pos as int, node, p as int));
            return Ok((node, p));
        }
        let (target, p) = self.parse_expr(pos)?;
        let op_code = self.code(p);
        let op = if op_code == T_ASSIGN { Some(AssignmentOp::Assign) }
            else if op_code == T_ADD_ASSIGN { Some(AssignmentOp::AddAssign) }
            else if op_code == T_SUB_ASSIGN { Some(AssignmentOp::SubAssign) }
            else if op_code == T_MUL_ASSIGN { Some(AssignmentOp::MulAssign) }
            else if op_code == T_DIV_ASSIGN { Some(AssignmentOp::DivAssign) }
            else if op_code == T_MOD_ASSIGN { Some(AssignmentOp::ModAssign) }
            else if op_code == T_POW_ARCANA_ASSIGN { Some(AssignmentOp::PowArcanaAssign) }
            else if op_code == T_POW_AETHER_ASSIGN { Some(AssignmentOp::PowAetherAssign) }
            else { None };
        let ghost tg = target;
        proof {
            if op is None && assign_op_at(self.toks@, p as int) {
                let o = choose|o: AssignmentOp| self.toks@[p as int].0 == assign_token(o);
                match o {
                    AssignmentOp::Assign => {},
                    AssignmentOp::AddAssign => {},
                    AssignmentOp::SubAssign => {},
                    AssignmentOp::MulAssign => {},
                    AssignmentOp::DivAssign => {},
                    AssignmentOp::ModAssign => {},
                    AssignmentOp::PowArcanaAssign => {},
                    AssignmentOp::PowAetherAssign => {},
                }
            }
            if let Some(o) = op {
                assert(self.toks@[p as int].0 == assign_token(o));
            }
        }
        match op {
            None => {
                assert(body_at(self.toks@, pos as int, target, p as int));
                Ok((target, p))
            },
            Some(op) => {
                let is_plain = op_code == T_ASSIGN;
                match target {
                    AST::Var(name, li) => {
                        let (value, q) = self.parse_expr(p + 1)?;
                        proof {
                            assert(expr_at(self.toks@, pos as int, AST::Var(name, li), p as int, 7));
                            assert(boundary(self.toks@, p as int) && line_any(li));
                        }
                        Ok((AST::Assignment { name, value: Box::new(value), op, line_info: info }, q))
                    },
                    AST::IndexAccess { target: base, index, line_info: li } if is_plain => {
                        let (value, q) = self.parse_expr(p + 1)?;
                        proof {
                            assert(expr_at(self.toks@, pos as int, AST::IndexAccess { target: base, index, line_info: li }, p as int, 7));
                            assert(is_tok(self.toks@, p as int, Token::Assign) && line_any(li));
                        }
                        Ok((AST::IndexAssignment { target: base, index, value: Box::new(value), line_info: info }, q))
                    },
                    AST::FieldAccess { target: base, field, line_info: li } if is_plain => {
                        let (value, q) = self.parse_expr(p + 1)?;
                        proof {
                            assert(expr_at(self.toks@, pos as int, AST::FieldAccess { target: base, field, line_info: li }, p as int, 7));
                            assert(is_tok(self.toks@, p as int, Token::Assign) && line_any(li));
                        }
                        Ok((AST::FieldAssignment { target: base, field, value: Box::new(value), line_info: info }, q))
                    },
                    _ => {
                        let mut e: Vec<String> = Vec::new();
                        e.push(code_text(T_SEMI));
                        Err(self.error(p, e))
                    },
                }
            },
        }
    }

    fn parse_type(&self, pos: usize) -> (r: Result<(Type, usize), ParseError>)
        ensures
            r matches Ok((ty, p)) ==> p == pos + 1 && pos < self.toks@.len() && type_at(self.toks@, pos as int, ty),
    {
        if pos < self.toks.len() {
            match &self.toks[pos].0 {
                Token::Type(t) => return Ok((copy_type(t), pos + 1)),
                Token::Identifier(n) => return Ok((Type::Artifact(n.clone()), pos + 1)),
                _ => {},
            }
        }
        let mut e: Vec<String> = Vec::new();
        e.push(owned("type"));
        Err(self.error(pos, e))
    }

    /// `artifact Name { field: type; ... }`; a field named twice is an error.
    #[verifier::loop_isolation(false)]
    fn parse_artifact_def(&self, pos: usize) -> (r: Result<(AST, usize), ParseError>)
        requires
            self.wf(),
        ensures
            r matches Ok((a, p)) ==> pos < p <= self.toks@.len() && body_at(self.toks@, pos as int, a, p as int),
    {
        let info = self.info(pos);
        let p = self.expect(pos, T_ARTIFACT)?;
        let (name, p) = self.expect_ident(p)?;
        let mut p = self.expect(p, T_LBRACE)?;
        let mut fields: Vec<ArtifactField> = Vec::new();
        while self.code(p) != T_RBRACE
            invariant
                self.wf(),
                pos + 3 <= p <= self.toks@.len(),
                dfields_at(self.toks@, pos + 3, fields@, p as int),
            decreases self.toks@.len() - p,
        {
            let field_pos = p;
            let (fname, q) = self.expect_ident(p)?;
            let mut k: usize = 0;
            while k < fields.len()
                invariant
                    k <= fields@.len(),
                    forall|m: int| 0 <= m < k ==> (#[trigger] fields@[m]).name@ != fname@,
                decreases fields.len() - k,
            {
                if str_eq(fields[k].name.as_str(), fname.as_str()) {
                    let mut msg = owned("Duplicate field `");
                    push_str(&mut msg, fname.as_str());
                    push_str(&mut msg, "`");
                    return Err(ParseError {
                        span: self.toks[field_pos].1,
                        found: None,
                        expected: Vec::new(),
                        custom: Some(msg),
                    });
                }
                k = k + 1;
            }
            let q = self.expect(q, T_COLON)?;
            let (ftype, q) = self.parse_type(q)?;
            let q = self.expect(q, T_SEMI)?;
            let ghost before = fields@;
            fields.push(ArtifactField { name: fname, field_type: ftype, line_info: self.info(field_pos) });
            proof {
                let nf = fields@;
                assert(nf.drop_last() =~= before);
                assert forall|a: int, b: int| 0 <= a < b < nf.len() implies (#[trigger] nf[a]).name@ != (#[trigger] nf[b]).name@ by {
                    assert(nf[a] == before[a]);
                    if b < before.len() {
                        assert(nf[b] == before[b]);
                    }
                }
            }
            p = q;
        }
        let p = self.expect(p, T_RBRACE)?;
        Ok((AST::ArtifactDef { name, fields, line_info: info }, p))
    }

    /// `forge [morph] name: type = value`.
    fn parse_forge(&self, pos: usize) -> (r: Result<(AST, usize), ParseError>)
        requires
            self.wf(),
        ensures
            r matches Ok((a, p)) ==> pos < p <= self.toks@.len() && body_at(self.toks@, pos as int, a, p as int),
        decreases self.toks@.len() - pos, 20nat,
    {
        let info = self.info(pos);
        let p = self.expect(pos, T_FORGE)?;
        let (is_morph, p) = if self.code(p) == T_MORPH { (true, p + 1) } else { (false, p) };
        let (name, p) = self.expect_ident(p)?;
        let p = self.expect(p, T_COLON)?;
        let (var_type, p) = self.parse_type(p)?;
        let p = self.expect(p, T_ASSIGN)?;
        let (value, p) = self.parse_expr(p)?;
        Ok((AST::VarAssign { name, value: Box::new(value), var_type, is_morph, line_info: info }, p))
    }

    /// `engrave name(params) -> type { body }`.
    #[verifier::loop_isolation(false)]
    fn parse_engrave(&self, pos: usize) -> (r: Result<(AST, usize), ParseError>)
        requires
            self.wf(),
        ensures
            r matches Ok((a, p)) ==> pos < p <= self.toks@.len() && body_at(self.toks@, pos as int, a, p as int),
        decreases self.toks@.len() - pos, 20nat,
    {
        let info = self.info(pos);
        let p = self.expect(pos, T_ENGRAVE)?;
        let (name, p) = self.expect_ident(p)?;
        let mut p = self.expect(p, T_LPAREN)?;
        let mut params: Vec<AST> = Vec::new();
        if self.code(p) != T_RPAREN {
            loop
                invariant
                    self.wf(),
                    pos + 3 <= p <= self.toks@.len(),
                    params@.len() == 0 ==> p == pos + 3,
                    params@.len() > 0 ==> is_tok(self.toks@, p - 1, Token::Comma) && eparams_at(self.toks@, pos + 3, params@, p - 1),
                decreases self.toks@.len() - p,
            {
                let pinfo = self.info(p);
                let start = p;
                let (is_morph, q) = if self.code(p) == T_MORPH { (true, p + 1) } else { (false, p) };
                let (pname, q) = self.expect_ident(q)?;
                let q = self.expect(q, T_COLON)?;
                let (ptype, q) = self.parse_type(q)?;
                let ghost before = params@;
                params.push(AST::EngraveParam { name: pname, param_type: ptype, is_morph, line_info: pinfo });
                proof {
                    assert(params@.drop_last() =~= before);
                    assert(eparam_at(self.toks@, start as int, params@.last(), q as int));
                    assert(eparams_at(self.toks@, pos + 3, params@, q as int));
                }
                if self.code(q) == T_COMMA {
                    p = q + 1;
                } else {
                    p = q;
                    break;
                }
            }
        }
        let k = p;
        let p = self.expect(p, T_RPAREN)?;
        let p = self.expect(p, T_ARROW)?;
        let (return_type, p) = self.parse_type(p)?;
        let (body, p) = self.parse_block(p)?;
        proof {
            assert(is_tok(self.toks@, k as int, Token::CloseParen));
        }
        Ok((AST::Engrave { name, params, return_type, body: Box::new(body), line_info: info }, p))
    }

    /// `orbit [(name = start..end, ...)] { body }`.
    #[verifier::loop_isolation(false)]
    fn parse_orbit(&self, pos: usize) -> (r: Result<(AST, usize), ParseError>)
        requires
            self.wf(),
        ensures
            r matches Ok((a, p)) ==> pos < p <= self.toks@.len() && body_at(self.toks@, pos as int, a, p as int),
        decreases self.toks@.len() - pos, 20nat,
    {
        let info = self.info(pos);
        let mut p = self.expect(pos, T_ORBIT)?;
        let mut params: Vec<AST> = Vec::new();
        let has_params = self.code(p) == T_LPAREN;
        if has_params {
            p = p + 1;
            loop
                invariant
                    self.wf(),
                    pos + 2 <= p <= self.toks@.len(),
                    params@.len() == 0 ==> p == pos + 2,
                    params@.len() > 0 ==> is_tok(self.toks@, p - 1, Token::Comma) && oparams_at(self.toks@, pos + 2, params@, p - 1),
                decreases self.toks@.len() - p,
            {
                let pinfo = self.info(p);
                let start_pos = p;
                let (pname, q) = self.expect_ident(p)?;
                let q = self.expect(q, T_ASSIGN)?;
                let (start, q) = self.parse_expr(q)?;
                let range_code = self.code(q);
                let op = if range_code == T_RANGE_EXCLUSIVE {
                    owned("..")
                } else if range_code == T_RANGE_INCLUSIVE {
                    owned("..=")
                } else {
                    return Err(self.error_one(q, T_RANGE_EXCLUSIVE));
                };
                let range_pos = q;
                let (end, q) = self.parse_expr(q + 1)?;
                let ghost before = params@;
                proof {
                    assert(expr_at(self.toks@, start_pos + 2, start, range_pos as int, 7));
                    assert(expr_at(self.toks@, range_pos + 1, end, q as int, 7));
                }
                params.push(AST::OrbitParam { name: pname, start: Box::new(start), end: Box::new(end), op, line_info: pinfo });
                proof {
                    assert(params@.drop_last() =~= before);
                    assert(crate::parser::syntax::range_op_at(self.toks@, range_pos as int, params@.last()->OrbitParam_op@));
                    assert(oparam_at(self.toks@, start_pos as int, params@.last(), q as int));
                    assert(boundary(self.toks@, start_pos as int));
                    assert(start_pos + 2 < range_pos && range_pos + 1 < q);
                    if before.len() == 0 {
                        assert(start_pos == pos + 2);
                    } else {
                        assert(is_tok(self.toks@, start_pos - 1, Token::Comma));
                        assert(oparams_at(self.toks@, pos + 2, params@.drop_last(), start_pos - 1));
                    }
                    assert(oparams_at(self.toks@, pos + 2, params@, q as int));
                }
                if self.code(q) == T_COMMA {
                    p = q + 1;
                } else {
                    p = q;
                    break;
                }
            }
            let k = p;
            p = self.expect(p, T_RPAREN)?;
            proof {
                assert(is_tok(self.toks@, k as int, Token::CloseParen));
            }
        }
        let (body, p) = self.parse_block(p)?;
        Ok((AST::Orbit { params, body: Box::new(body), line_info: info }, p))
    }

    /// `{ statement* }`.
    #[verifier::loop_isolation(false)]
    fn parse_block(&self, pos: usize) -> (r: Result<(AST, usize), ParseError>)
        requires
            self.wf(),
        ensures
            r matches Ok((a, p)) ==> pos < p <= self.toks@.len() && is_expr_node(a) && body_block_at(self.toks@, pos as int, a, p as int),
        decreases self.toks@.len() - pos, 5nat,
    {
        let info = self.info(pos);
        let mut p = self.expect(pos, T_LBRACE)?;
        let mut stmts: Vec<AST> = Vec::new();
        while self.code(p) != T_RBRACE
            invariant
                self.wf(),
                pos < p <= self.toks@.len(),
                stmts_at(self.toks@, pos + 1, stmts@, p as int),
            decreases self.toks@.len() - p,
        {
            if p >= self.toks.len() {
                return Err(self.error_one(p, T_RBRACE));
            }
            let (stmt, q) = self.parse_statement(p)?;
            let ghost before = stmts@;
            let ghost st = stmt;
            stmts.push(stmt);
            proof {
                assert(stmts@.drop_last() =~= before);
                assert(stmts@.last() == st);
                assert(boundary(self.toks@, p as int));
                assert(stmts_at(self.toks@, pos + 1, stmts@.drop_last(), p as int));
                assert(stmt_at(self.toks@, p as int, stmts@.last(), q as int));
                assert(stmts_at(self.toks@, pos + 1, stmts@, q as int));
            }
            p = q;
        }
        let p = self.expect(p, T_RBRACE)?;
        Ok((AST::Block(stmts, info), p))
    }

    /// An expression.
    fn parse_expr(&self, pos: usize) -> (r: Result<(AST, usize), ParseError>)
        requires
            self.wf(),
        ensures
            r matches Ok((a, p)) ==> pos < p <= self.toks@.len() && is_expr_node(a) && expr_at(self.toks@, pos as int, a, p as int, 7),
        decreases self.toks@.len() - pos, 19nat,
    {
        self.parse_level(pos, 7)
    }

    /// The binary operators of each precedence level, loosest (7) first:
    /// `||`, `&&`, equality, comparison, `+ -`, `* / %`, `^ **`; all
    /// associate to the left.
    fn level_op(&self, level: u32, code: u32) -> (b: bool)
        ensures
            b == (1 <= level <= 7 && code_level(code) == level),
    {
        if level == 7 { code == T_OR }
        else if level == 6 { code == T_AND }
        else if level == 5 { code == T_EQ || code == T_NE }
        else if level == 4 { code == T_LT || code == T_LE || code == T_GT || code == T_GE }
        else if level == 3 { code == T_PLUS || code == T_MINUS }
        else if level == 2 { code == T_STAR || code == T_SLASH || code == T_PERCENT }
        else if level == 1 { code == T_CARET || code == T_DOUBLE_STAR }
        else { false }
    }

    #[verifier::loop_isolation(false)]
    fn parse_level(&self, pos: usize, level: u32) -> (r: Result<(AST, usize), ParseError>)
        requires
            self.wf(),
            1 <= level <= 7,
        ensures
            r matches Ok((a, p)) ==> pos < p <= self.toks@.len() && is_expr_node(a) && expr_at(self.toks@, pos as int, a, p as int, level as int),
        decreases self.toks@.len() - pos, 10 + level,
    {
        let (mut left, mut p) = if level == 1 {
            self.parse_unary(pos)?
        } else {
            self.parse_level(pos, level - 1)?
        };
        assert(expr_at(self.toks@, pos as int, left, p as int, level - 1));
        assert(expr_at(self.toks@, pos as int, left, p as int, level as int));
        while self.level_op(level, self.code(p))
            invariant
                self.wf(),
                1 <= level <= 7,
                pos < p <= self.toks@.len(),
                is_expr_node(left),
                expr_at(self.toks@, pos as int, left, p as int, level as int),
            decreases self.toks@.len() - p,
        {
            let code = self.code(p);
            let info = self.info(p);
            if p >= self.toks.len() {
                break;
            }
            let (right, q) = if level == 1 {
                self.parse_unary(p + 1)?
            } else {
                self.parse_level(p + 1, level - 1)?
            };
            assert(expr_at(self.toks@, p + 1, right, q as int, level - 1));
            let ghost l0 = left;
            left = make_binary(code, left, right, info);
            proof {
                assert(is_tok(self.toks@, p as int, tok_of_code(code)));
                assert(expr_at(self.toks@, pos as int, l0, p as int, level as int));
            }
            p = q;
        }
        Ok((left, p))
    }

    fn parse_unary(&self, pos: usize) -> (r: Result<(AST, usize), ParseError>)
        requires
            self.wf(),
        ensures
            r matches Ok((a, p)) ==> pos < p <= self.toks@.len() && is_expr_node(a) && unary_at(self.toks@, pos as int, a, p as int),
        decreases self.toks@.len() - pos, 9nat,
    {
        if self.code(pos) == T_BANG && pos < self.toks.len() {
            let info = self.info(pos);
            let (inner, p) = self.parse_unary(pos + 1)?;
            return Ok((AST::LogicalNot(Box::new(inner), info), p));
        }
        self.parse_postfix(pos)
    }

    #[verifier::loop_isolation(false)]
    fn parse_postfix(&self, pos: usize) -> (r: Result<(AST, usize), ParseError>)
        requires
            self.wf(),
        ensures
            r matches Ok((a, p)) ==> pos < p <= self.toks@.len() && is_expr_node(a) && postfix_at(self.toks@, pos as int, a, p as int),
        decreases self.toks@.len() - pos, 8nat,
    {
        let (mut node, mut p) = self.parse_primary(pos)?;
        loop
            invariant
                self.wf(),
                pos < p <= self.toks@.len(),
                is_expr_node(node),
                postfix_at(self.toks@, pos as int, node, p as int),
            decreases self.toks@.len() - p,
        {
            let code = self.code(p);
            let info = self.info(p);
            let is_var = match &node {
                AST::Var(..) => true,
                _ => false,
            };
            let ghost prev = node;
            if code == T_LPAREN && is_var {
                let name = match node {
                    AST::Var(n, _) => n,
                    _ => owned(""),
                };
                let (args, q) = self.parse_list_of(p, T_LPAREN, T_RPAREN)?;
                proof {
                    assert(primary_at(self.toks@, pos as int, AST::Var(name, prev->Var_1), p as int));
                    assert(is_tok(self.toks@, p as int, Token::OpenParen));
                    assert(line_any(prev->Var_1));
                }
                node = AST::FuncCall { name, args, line_info: info };
                p = q;
            } else if code == T_LBRACKET {
                let (index, q) = self.parse_expr(p + 1)?;
                let q = self.expect(q, T_RBRACKET)?;
                node = AST::IndexAccess { target: Box::new(node), index: Box::new(index), line_info: info };
                proof {
                    assert(is_tok(self.toks@, p as int, Token::OpenBracket));
                }
                p = q;
            } else if code == T_DOT {
                let (field, q) = self.expect_ident(p + 1)?;
                node = AST::FieldAccess { target: Box::new(node), field, line_info: info };
                p = q;
            } else {
                break;
            }
        }
        Ok((node, p))
    }

    /// `open expr, ... close` (an empty list is allowed).
    #[verifier::loop_isolation(false)]
    fn parse_list_of(&self, pos: usize, open: u32, close: u32) -> (r: Result<(Vec<AST>, usize), ParseError>)
        requires
            self.wf(),
        ensures
            r matches Ok((items, p)) ==> pos < p <= self.toks@.len() && list_at(
                self.toks@,
                pos as int,
                items@,
                p as int,
                tok_of_code(open),
                tok_of_code(close),
            ),
        decreases self.toks@.len() - pos, 6nat,
    {
        let mut p = self.expect(pos, open)?;
        let mut items: Vec<AST> = Vec::new();
        if self.code(p) != close {
            loop
                invariant
                    self.wf(),
                    pos < p <= self.toks@.len(),
                    items@.len() == 0 ==> p == pos + 1,
                    items@.len() > 0 ==> is_tok(self.toks@, p - 1, Token::Comma) && seq_at(self.toks@, pos + 1, items@, p - 1),
                decreases self.toks@.len() - p,
            {
                let start = p;
                let (item, q) = self.parse_expr(p)?;
                let ghost before = items@;
                let ghost it = item;
                items.push(item);
                proof {
                    assert(items@.drop_last() =~= before);
                    assert(items@.last() == it);
                    if before.len() == 0 {
                        assert(items@[0] == it);
                    } else {
                        assert(is_tok(self.toks@, start - 1, Token::Comma));
                        assert(seq_at(self.toks@, pos + 1, items@.drop_last(), start - 1));
                        crate::parser::syntax::lemma_seq_span(self.toks@, pos + 1, items@.drop_last(), start - 1);
                        assert(expr_at(self.toks@, start as int, items@.last(), q as int, 7));
                    }
                    assert(seq_at(self.toks@, pos + 1, items@, q as int));
                }
                if self.code(q) == T_COMMA && q < self.toks.len() {
                    p = q + 1;
                } else {
                    p = q;
                    break;
                }
            }
        }
        let p = self.expect(p, close)?;
        Ok((items, p))
    }

    fn is_map_literal_start(&self, pos: usize) -> (r: bool)
        requires
            self.wf(),
        ensures
            r == map_start(self.toks@, pos as int),
    {
        if self.code(pos) != T_LBRACE || pos + 1 >= self.toks.len() {
            return false;
        }
        if token_code(&self.toks[pos + 1].0) == T_RBRACE {
            return true;
        }
        match &self.toks[pos + 1].0 {
            Token::Rune(_) => self.code(pos + 2) == T_COLON,
            _ => false,
        }
    }

    fn parse_primary(&self, pos: usize) -> (r: Result<(AST, usize), ParseError>)
        requires
            self.wf(),
        ensures
            r matches Ok((a, p)) ==> pos < p <= self.toks@.len() && is_expr_node(a) && primary_at(self.toks@, pos as int, a, p as int),
        decreases self.toks@.len() - pos, 7nat,
    {
        let info = self.info(pos);
        if pos < self.toks.len() {
            match &self.toks[pos].0 {
                Token::Arcana(n) => return Ok((AST::Arcana(*n, info), pos + 1)),
                Token::Aether(t) => return Ok((AST::Aether(t.clone(), info), pos + 1)),
                Token::Rune(s) => return Ok((AST::Rune(s.clone(), info), pos + 1)),
                Token::OmenLiteral(b) => return Ok((AST::Omen(*b, info), pos + 1)),
                Token::Type(t) => return Ok((AST::Var(glyph_name(t), info), pos + 1)),
                Token::Identifier(n) => {
                    if self.code(pos + 1) == T_LBRACE && pos + 1 < self.toks.len() {
                        return self.parse_artifact_literal(pos);
                    }
                    return Ok((AST::Var(n.clone(), info), pos + 1));
                },
                _ => {},
            }
        }
        let code = self.code(pos);
        if code == T_LPAREN {
            let (inner, p) = self.parse_expr(pos + 1)?;
            let p = self.expect(p, T_RPAREN)?;
            return Ok((inner, p));
        }
        if code == T_LBRACKET {
            let (elements, p) = self.parse_list_of(pos, T_LBRACKET, T_RBRACKET)?;
            return Ok((AST::ListLiteral { elements, line_info: info }, p));
        }
        if code == T_LBRACE {
            if self.is_map_literal_start(pos) {
                return self.parse_map_literal(pos);
            }
            return self.parse_block(pos);
        }
        if code == T_REVEAL {
            let (inner, p) = self.parse_expr(pos + 1)?;
            return Ok((AST::Reveal(Box::new(inner), info), p));
        }
        if code == T_TRANS {
            let (inner, p) = self.parse_expr(pos + 1)?;
            let p = self.expect(p, T_AS)?;
            let (t, p) = self.parse_type(p)?;
            return Ok((AST::Trans(Box::new(inner), t, info), p));
        }
        if code == T_ORACLE {
            return self.parse_oracle(pos);
        }
        let mut e: Vec<String> = Vec::new();
        e.push(owned("literal"));
        e.push(owned("identifier"));
        e.push(code_text(T_LPAREN));
        e.push(owned("`[`"));
        e.push(code_text(T_LBRACE));
        e.push(owned("`oracle`"));
        e.push(owned("`reveal`"));
        e.push(owned("`trans`"));
        e.push(owned("`!`"));
        Err(self.error(pos, e))
    }

    /// `Name { field: value, ... }`.
    #[verifier::loop_isolation(false)]
    fn parse_artifact_literal(&self, pos: usize) -> (r: Result<(AST, usize), ParseError>)
        requires
            self.wf(),
        ensures
            r matches Ok((a, p)) ==> pos < p <= self.toks@.len() && is_expr_node(a) && primary_at(self.toks@, pos as int, a, p as int),
        decreases self.toks@.len() - pos, 6nat,
    {
        let info = self.info(pos);
        let (name, p) = self.expect_ident(pos)?;
        let mut p = self.expect(p, T_LBRACE)?;
        let mut fields: Vec<(String, AST)> = Vec::new();
        if self.code(p) != T_RBRACE {
            loop
                invariant
                    self.wf(),
                    pos + 2 <= p <= self.toks@.len(),
                    fields@.len() == 0 ==> p == pos + 2,
                    fields@.len() > 0 ==> is_tok(self.toks@, p - 1, Token::Comma) && afields_at(self.toks@, pos + 2, fields@, p - 1),
                decreases self.toks@.len() - p,
            {
                let start = p;
                let (fname, q) = self.expect_ident(p)?;
                let q = self.expect(q, T_COLON)?;
                let (value, q) = self.parse_expr(q)?;
                let ghost before = fields@;
                fields.push((fname, value));
                proof {
                    assert(fields@.drop_last() =~= before);
                    assert(self.toks@[start as int].0 == Token::Identifier(fields@.last().0));
                    assert(afields_at(self.toks@, pos + 2, fields@, q as int));
                }
                if self.code(q) == T_COMMA && q < self.toks.len() {
                    p = q + 1;
                } else {
                    p = q;
                    break;
                }
            }
        }
        let p = self.expect(p, T_RBRACE)?;
        Ok((AST::ArtifactLiteral { artifact_type: name, fields, line_info: info }, p))
    }

    /// `{ "key": value, ... }`.
    #[verifier::loop_isolation(false)]
    fn parse_map_literal(&self, pos: usize) -> (r: Result<(AST, usize), ParseError>)
        requires
            self.wf(),
        ensures
            r matches Ok((a, p)) ==> pos < p <= self.toks@.len() && is_expr_node(a) && primary_at(self.toks@, pos as int, a, p as int),
        decreases self.toks@.len() - pos, 6nat,
    {
        let info = self.info(pos);
        let mut p = self.expect(pos, T_LBRACE)?;
        let mut entries: Vec<(String, AST)> = Vec::new();
        if self.code(p) != T_RBRACE {
            loop
                invariant
                    self.wf(),
                    pos + 1 <= p <= self.toks@.len(),
                    entries@.len() == 0 ==> p == pos + 1,
                    entries@.len() > 0 ==> is_tok(self.toks@, p - 1, Token::Comma) && entries_at(self.toks@, pos + 1, entries@, p - 1),
                decreases self.toks@.len() - p,
            {
                let start = p;
                let key = if p < self.toks.len() {
                    match &self.toks[p].0 {
                        Token::Rune(k) => k.clone(),
                        _ => {
                            let mut e: Vec<String> = Vec::new();
                            e.push(owned("rune literal"));
                            return Err(self.error(p, e));
                        },
                    }
                } else {
                    let mut e: Vec<String> = Vec::new();
                    e.push(owned("rune literal"));
                    return Err(self.error(p, e));
                };
                let q = self.expect(p + 1, T_COLON)?;
                let (value, q) = self.parse_expr(q)?;
                let ghost before = entries@;
                entries.push((key, value));
                proof {
                    assert(entries@.drop_last() =~= before);
                    assert(self.toks@[start as int].0 == Token::Rune(entries@.last().0));
                    assert(entries_at(self.toks@, pos + 1, entries@, q as int));
                }
                if self.code(q) == T_COMMA && q < self.toks.len() {
                    p = q + 1;
                } else {
                    p = q;
                    break;
                }
            }
        }
        let p = self.expect(p, T_RBRACE)?;
        Ok((AST::MapLiteral { entries, line_info: info }, p))
    }

    /// `oracle [(scrutinee, ...)] { branch* }`: with scrutinees the branches
    /// match patterns against them, without they test conditions in turn.
    #[verifier::loop_isolation(false)]
    fn parse_oracle(&self, pos: usize) -> (r: Result<(AST, usize), ParseError>)
        requires
            self.wf(),
        ensures
            r matches Ok((a, p)) ==> pos < p <= self.toks@.len() && a is Oracle && oracle_at(self.toks@, pos as int, a, p as int),
        decreases self.toks@.len() - pos, 6nat,
    {
        let info = self.info(pos);
        let mut p = self.expect(pos, T_ORACLE)?;
        let mut conditionals: Vec<ConditionalAssignment> = Vec::new();
        let is_match = self.code(p) == T_LPAREN;
        if is_match {
            p = p + 1;
            loop
                invariant
                    self.wf(),
                    pos + 2 <= p <= self.toks@.len(),
                    conditionals@.len() == 0 ==> p == pos + 2,
                    conditionals@.len() > 0 ==> is_tok(self.toks@, p - 1, Token::Comma) && conds_at(self.toks@, pos + 2, conditionals@, p - 1),
                decreases self.toks@.len() - p,
            {
                let cinfo = self.info(p);
                let start = p;
                let (variable, from) = match self.ident_at(p) {
                    Some(n) => if self.code(p + 1) == T_ASSIGN { (n, p + 2) } else { (owned(""), p) },
                    None => (owned(""), p),
                };
                let (expression, q) = self.parse_expr(from)?;
                let ghost before = conditionals@;
                conditionals.push(ConditionalAssignment { variable, expression: Box::new(expression), line_info: cinfo });
                proof {
                    assert(conditionals@.drop_last() =~= before);
                    assert(cond_at(self.toks@, start as int, conditionals@.last(), q as int));
                    assert(boundary(self.toks@, start as int));
                    if before.len() == 0 {
                        assert(start == pos + 2);
                    } else {
                        assert(is_tok(self.toks@, start - 1, Token::Comma));
                        assert(conds_at(self.toks@, pos + 2, conditionals@.drop_last(), start - 1));
                    }
                    assert(conds_at(self.toks@, pos + 2, conditionals@, q as int));
                }
                if self.code(q) == T_COMMA && q < self.toks.len() {
                    p = q + 1;
                } else {
                    p = q;
                    break;
                }
            }
            let k = p;
            p = self.expect(p, T_RPAREN)?;
            proof {
                assert(is_tok(self.toks@, k as int, Token::CloseParen));
            }
        }
        let lb = p;
        let mut p = self.expect(p, T_LBRACE)?;
        let mut branches: Vec<AST> = Vec::new();
        while self.code(p) != T_RBRACE
            invariant
                self.wf(),
                lb < p <= self.toks@.len(),
                branches_at(self.toks@, lb + 1, branches@, p as int, is_match),
            decreases self.toks@.len() - p,
        {
            if p >= self.toks.len() {
                return Err(self.error_one(p, T_RBRACE));
            }
            let (branch, q) = self.parse_branch(p, is_match)?;
            let ghost before = branches@;
            let ghost br = branch;
            branches.push(branch);
            proof {
                assert(branches@.drop_last() =~= before);
                assert(branches@.last() == br);
                assert(boundary(self.toks@, p as int));
                assert(branches_at(self.toks@, lb + 1, branches@.drop_last(), p as int, is_match));
                assert(branch_at(self.toks@, p as int, branches@.last(), q as int, is_match));
                assert(branches_at(self.toks@, lb + 1, branches@, q as int, is_match));
            }
            p = q;
        }
        let p = self.expect(p, T_RBRACE)?;
        Ok((AST::Oracle { is_match, conditionals, branches, line_info: info }, p))
    }

    /// `_ => body` or `(pattern, ...) [ward guard] => body`; a block body
    /// may omit the `;` that ends every other body.
    #[verifier::loop_isolation(false)]
    #[verifier::rlimit(50)]
    fn parse_branch(&self, pos: usize, is_match: bool) -> (r: Result<(AST, usize), ParseError>)
        requires
            self.wf(),
        ensures
            r matches Ok((a, p)) ==> pos < p <= self.toks@.len() && branch_at(self.toks@, pos as int, a, p as int, is_match),
        decreases self.toks@.len() - pos, 5nat,
    {
        let info = self.info(pos);
        let mut pattern: Vec<AST> = Vec::new();
        let mut p: usize;
        if self.is_wildcard(pos) {
            p = pos + 1;
        } else {
            p = self.expect(pos, T_LPAREN)?;
            loop
                invariant
                    self.wf(),
                    pos < p <= self.toks@.len(),
                    !is_wild(self.toks@, pos as int),
                    is_tok(self.toks@, pos as int, Token::OpenParen),
                    pattern@.len() == 0 ==> p == pos + 1,
                    pattern@.len() > 0 ==> is_tok(self.toks@, p - 1, Token::Comma) && pats_at(self.toks@, pos + 1, pattern@, p - 1, is_match),
                decreases self.toks@.len() - p,
            {
                let einfo = self.info(p);
                let start = p;
                let next_code = if p < self.toks.len() { self.code(p + 1) } else { 0 };
                let ghost before = pattern@;
                if self.is_wildcard(p) && (next_code == T_COMMA || next_code == T_RPAREN) {
                    pattern.push(AST::OracleDontCareItem(einfo));
                    p = p + 1;
                } else {
                    let bound = if is_match && (next_code == T_COMMA || next_code == T_RPAREN) {
                        self.ident_at(p)
                    } else {
                        None
                    };
                    match bound {
                        Some(n) => {
                            pattern.push(AST::PatternBinding { name: n, line_info: einfo });
                            p = p + 1;
                        },
                        None => {
                            let (e, q) = self.parse_expr(p)?;
                            pattern.push(e);
                            p = q;
                        },
                    }
                }
                proof {
                    assert(pattern@.drop_last() =~= before);
                    assert(pat_at(self.toks@, start as int, pattern@.last(), p as int, is_match));
                    assert(boundary(self.toks@, start as int));
                    if before.len() == 0 {
                        assert(start == pos + 1);
                    } else {
                        assert(is_tok(self.toks@, start - 1, Token::Comma));
                        assert(pats_at(self.toks@, pos + 1, pattern@.drop_last(), start - 1, is_match));
                    }
                    assert(pats_at(self.toks@, pos + 1, pattern@, p as int, is_match));
                }
                if self.code(p) == T_COMMA && p < self.toks.len() {
                    p = p + 1;
                } else {
                    break;
                }
            }
            p = self.expect(p, T_RPAREN)?;
        }
        let h = p;
        assert(branch_head_at(self.toks@, pos as int, pattern@, h as int, is_match));
        let mut guard: Option<Box<AST>> = None;
        if self.code(p) == T_WARD && p < self.toks.len() {
            let (g, q) = self.parse_expr(p + 1)?;
            guard = Some(Box::new(g));
            p = q;
        }
        let g = p;
        assert(guard_at(self.toks@, h as int, guard, g as int));
        let p = self.expect(p, T_FAT_ARROW)?;
        let (body, q) = if self.code(p) == T_LBRACE && !self.is_map_literal_start(p) {
            let (b, q) = self.parse_block(p)?;
            let q = if self.code(q) == T_SEMI && q < self.toks.len() { q + 1 } else { q };
            (b, q)
        } else {
            let (b, q) = self.parse_expr(p)?;
            let q = self.expect(q, T_SEMI)?;
            (b, q)
        };
        assert(branch_body_at(self.toks@, p as int, body, q as int));
        assert(is_tok(self.toks@, g as int, Token::FatArrow));
        assert(boundary(self.toks@, h as int));
        Ok((AST::OracleBranch { pattern, guard, body: Box::new(body), line_info: info }, q))
    }
}

/// The name under which a type keyword is bound as a glyph value.
fn glyph_name(t: &Type) -> (r: String)
    ensures
        r@ == glyph_text(*t),
{
    match t {
        Type::Arcana => owned("arcana"),
        Type::Aether => owned("aether"),
        Type::Rune => owned("rune"),
        Type::Omen => owned("omen"),
        Type::Abyss => owned("abyss"),
        Type::Scroll => owned("scroll"),
        Type::Lexicon => owned("lexicon"),
        Type::Materia => owned("materia"),
        Type::Glyph => owned("glyph"),
        Type::Artifact(n) => n.clone(),
        Type::Spectrum(n) => n.clone(),
    }
}

/// The precedence level of a binary operator's code (see [`binary_parts`]).
spec fn code_level(code: u32) -> int {
    if code == T_OR { 7 }
    else if code == T_AND { 6 }
    else if code == T_EQ || code == T_NE { 5 }
    else if code == T_LT || code == T_LE || code == T_GT || code == T_GE { 4 }
    else if code == T_PLUS || code == T_MINUS { 3 }
    else if code == T_STAR || code == T_SLASH || code == T_PERCENT { 2 }
    else if code == T_CARET || code == T_DOUBLE_STAR { 1 }
    else { 0 }
}

/// The node for binary operator `code` applied to `l` and `r`.
fn make_binary(code: u32, l: AST, r: AST, info: Option<LineInfo>) -> (a: AST)
    requires
        code_level(code) > 0,
    ensures
        binary_parts(a) == Some((code_level(code), tok_of_code(code), l, r)),
        is_expr_node(a),
{
    let l = Box::new(l);
    let r = Box::new(r);
    if code == T_OR { AST::LogicalOr(l, r, info) }
    else if code == T_AND { AST::LogicalAnd(l, r, info) }
    else if code == T_EQ { AST::Equal(l, r, info) }
    else if code == T_NE { AST::NotEqual(l, r, info) }
    else if code == T_LT { AST::LessThan(l, r, info) }
    else if code == T_LE { AST::LessThanOrEqual(l, r, info) }
    else if code == T_GT { AST::GreaterThan(l, r, info) }
    else if code == T_GE { AST::GreaterThanOrEqual(l, r, info) }
    else if code == T_PLUS { AST::Add(l, r, info) }
    else if code == T_MINUS { AST::Sub(l, r, info) }
    else if code == T_STAR { AST::Mul(l, r, info) }
    else if code == T_SLASH { AST::Div(l, r, info) }
    else if code == T_PERCENT { AST::Mod(l, r, info) }
    else if code == T_CARET { AST::PowArcana(l, r, info) }
    else { AST::PowAether(l, r, info) }
}

} // verus!
