//! Lexing and parsing of AbySS source text.
pub mod diagnostics;
pub mod grammar;
pub mod helpers;
pub mod longest;
pub mod span;
pub mod syntax;
pub mod tokens;

use vstd::prelude::*;

use crate::ast::AST;
use crate::parser::diagnostics::{convert_simple_error, diagnostic_of, ParseError, ParserDiagnostic};
use crate::parser::grammar::Parser;
use crate::parser::helpers::LineMap;
use crate::parser::syntax::program_at;
use crate::parser::tokens::{arcana_overflow, lexer, lexes_to, no_token_at, tokens_cover, tokens_maximal, tokens_wf, SpannedToken};
use crate::text::owned;

verus! {

/// The result of parsing: the statements, and the diagnostics that stopped
/// parsing (none when the source parsed).
pub struct ParseOutcome {
    pub ast: Vec<AST>,
    pub diagnostics: Vec<ParserDiagnostic>,
}

/// `stmts` are what a lexing of the whole of `source` spells in the
/// grammar: tokens that are well formed, cover the source with only white
/// space and comments around them, are each as long as they can be, and
/// spell `stmts` (see [`program_at`]).
pub open spec fn parses_to(source: Seq<char>, stmts: Seq<AST>) -> bool {
    exists|toks: Seq<SpannedToken>| #[trigger] program_at(toks, stmts) && tokens_wf(toks, source) && tokens_cover(toks, source)
        && tokens_maximal(toks, source)
}

/// Parses a source into its statements: on success they are what a
/// lexing of the whole source (see [`lexer`]) spells in the grammar (see
/// [`program_at`]). A source that cannot be lexed or parsed gives no
/// statements and one diagnostic, titled by the stage that failed: the
/// lexing stage exactly when the source has no lexing into longest tokens
/// (see [`crate::parser::longest`]).
pub fn parse(source: &str) -> (out: ParseOutcome)
    ensures
        out.diagnostics@.len() == 0 ==> parses_to(source@, out.ast@),
        out.diagnostics@.len() <= 1,
        out.diagnostics@.len() == 1 ==> out.ast@.len() == 0,
        out.diagnostics@.len() == 0 ==> forall|k: int| 0 <= k < out.ast@.len() ==> #[trigger] out.ast@[k] is Statement,
        out.diagnostics@.len() == 1 ==> out.diagnostics@[0].title@ == "Incantation unravelled at lexing stage"@
            || out.diagnostics@[0].title@ == "Spell error: Incantation failed"@,
        out.diagnostics@.len() == 1 && out.diagnostics@[0].title@ == "Incantation unravelled at lexing stage"@ ==> {
            let sp = out.diagnostics@[0].span;
            &&& sp.start < sp.end <= source@.len()
            &&& exists|toks: Seq<SpannedToken>| #[trigger] lexes_to(toks, source@, sp.start as int)
            &&& no_token_at(source@, sp.start as int) || arcana_overflow(source@, sp.start as int, sp.end as int)
            &&& !exists|toks: Seq<SpannedToken>| #[trigger] tokens_wf(toks, source@) && tokens_cover(toks, source@)
                && tokens_maximal(toks, source@)
        },
        out.diagnostics@.len() == 1 && out.diagnostics@[0].title@ == "Spell error: Incantation failed"@ ==> exists|
            toks: Seq<SpannedToken>,
        | #[trigger] tokens_wf(toks, source@) && tokens_cover(toks, source@) && tokens_maximal(toks, source@),
        out.diagnostics@.len() == 1 && out.diagnostics@[0].title@ == "Spell error: Incantation failed"@ ==> exists|e: ParseError|
            #[trigger] diagnostic_of(out.diagnostics@[0], e, "Spell error: Incantation failed"@),
{
    let _len = source.unicode_len();
    let map = LineMap::new(source);
    match lexer(source) {
        Err(e) => {
            let label = e.message;
            let diag = ParserDiagnostic {
                title: owned("Incantation unravelled at lexing stage"),
                label,
                span: e.span,
                help: None,
            };
            proof {
                reveal_strlit("Incantation unravelled at lexing stage");
                reveal_strlit("Spell error: Incantation failed");
                assert(diag.title@[0] != "Spell error: Incantation failed"@[0]);
            }
            let mut diagnostics: Vec<ParserDiagnostic> = Vec::new();
            diagnostics.push(diag);
            ParseOutcome { ast: Vec::new(), diagnostics }
        },
        Ok(toks) => {
            proof {
                assert forall|k: int| 0 <= k < toks@.len() implies #[trigger] toks@[k].1.start < usize::MAX by {
                    assert(toks@[k].1.start < toks@[k].1.end);
                }
            }
            let ghost lexed = toks@;
            let parser = Parser::new(toks, map);
            match parser.parse_program() {
                Ok(ast) => {
                    assert(program_at(lexed, ast@));
                    ParseOutcome { ast, diagnostics: Vec::new() }
                },
                Err(e) => {
                    let diag = convert_simple_error(e, "Spell error: Incantation failed");
                    proof {
                        reveal_strlit("Incantation unravelled at lexing stage");
                        reveal_strlit("Spell error: Incantation failed");
                        assert(diag.title@[0] != "Incantation unravelled at lexing stage"@[0]);
                        assert(tokens_wf(lexed, source@) && tokens_cover(lexed, source@) && tokens_maximal(lexed, source@));
                    }
                    let mut diagnostics: Vec<ParserDiagnostic> = Vec::new();
                    diagnostics.push(diag);
                    ParseOutcome { ast: Vec::new(), diagnostics }
                },
            }
        },
    }
}

} // verus!
