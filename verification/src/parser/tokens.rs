//! The tokens of AbySS and the lexer that produces them from source text.
use vstd::prelude::*;

use crate::ast::Type;
use crate::parser::longest::lemma_lex_error_has_no_lexing;
use crate::parser::span::Span;
use crate::text::{
    all_digits, int_to_string, is_digit, owned, parse_int, parse_int_spec, push_char, push_str,
    string_from_chars, to_chars,
};

verus! {

/// A lexical token. An aether literal keeps its source text.
#[derive(Debug)]
pub enum Token {
    Forge,
    Morph,
    Oracle,
    Orbit,
    Resume,
    Eject,
    Engrave,
    Reveal,
    Trans,
    As,
    Artifact,
    Ward,
    Identifier(String),
    Type(Type),
    OmenLiteral(bool),
    Arcana(i64),
    Aether(String),
    Rune(String),
    Semicolon,
    Colon,
    Comma,
    Dot,
    Arrow,
    FatArrow,
    Assign,
    AddAssign,
    SubAssign,
    MulAssign,
    DivAssign,
    ModAssign,
    PowArcanaAssign,
    PowAetherAssign,
    Equal,
    NotEqual,
    LessThan,
    LessThanOrEqual,
    GreaterThan,
    GreaterThanOrEqual,
    Plus,
    Minus,
    Star,
    Slash,
    Percent,
    Caret,
    DoubleStar,
    DoublePipe,
    DoubleAmpersand,
    Bang,
    OpenParen,
    CloseParen,
    OpenBrace,
    CloseBrace,
    OpenBracket,
    CloseBracket,
    RangeInclusive,
    RangeExclusive,
}

/// A token with the span of source text it came from.
pub type SpannedToken = (Token, Span);

/// Why lexing stopped: where, at which character, and the diagnostic label.
#[derive(Debug)]
pub struct LexError {
    pub span: Span,
    pub found: Option<char>,
    pub message: String,
}

/// Unicode white space, as `char::is_whitespace` defines it.
pub open spec fn is_whitespace_spec(c: char) -> bool {
    ||| ('\u{9}' <= c && c <= '\u{d}')
    ||| c == ' '
    ||| c == '\u{85}'
    ||| c == '\u{a0}'
    ||| c == '\u{1680}'
    ||| ('\u{2000}' <= c && c <= '\u{200a}')
    ||| c == '\u{2028}'
    ||| c == '\u{2029}'
    ||| c == '\u{202f}'
    ||| c == '\u{205f}'
    ||| c == '\u{3000}'
}

/// Whether `c` is white space (see [`is_whitespace_spec`]).
pub fn is_whitespace(c: char) -> (r: bool)
    ensures
        r == is_whitespace_spec(c),
{
    ('\u{9}' <= c && c <= '\u{d}') || c == ' ' || c == '\u{85}' || c == '\u{a0}' || c == '\u{1680}'
        || ('\u{2000}' <= c && c <= '\u{200a}') || c == '\u{2028}' || c == '\u{2029}' || c == '\u{202f}'
        || c == '\u{205f}' || c == '\u{3000}'
}

/// A character that can start an identifier: an ASCII letter or `_`.
pub open spec fn is_ident_start(c: char) -> bool {
    ('a' <= c && c <= 'z') || ('A' <= c && c <= 'Z') || c == '_'
}

/// A character that can continue an identifier.
pub open spec fn is_ident_char(c: char) -> bool {
    is_ident_start(c) || is_digit(c)
}

/// A C-style identifier.
pub open spec fn is_ident_text(t: Seq<char>) -> bool {
    t.len() > 0 && is_ident_start(t[0]) && forall|k: int| 0 < k < t.len() ==> is_ident_char(#[trigger] t[k])
}

/// The token a reserved word stands for, if it is one.
pub open spec fn keyword_of(w: Seq<char>) -> Option<Token> {
    if w == "forge"@ { Some(Token::Forge) }
    else if w == "morph"@ { Some(Token::Morph) }
    else if w == "oracle"@ { Some(Token::Oracle) }
    else if w == "orbit"@ { Some(Token::Orbit) }
    else if w == "resume"@ { Some(Token::Resume) }
    else if w == "eject"@ { Some(Token::Eject) }
    else if w == "engrave"@ { Some(Token::Engrave) }
    else if w == "reveal"@ { Some(Token::Reveal) }
    else if w == "trans"@ { Some(Token::Trans) }
    else if w == "as"@ { Some(Token::As) }
    else if w == "artifact"@ { Some(Token::Artifact) }
    else if w == "ward"@ { Some(Token::Ward) }
    else if w == "arcana"@ { Some(Token::Type(Type::Arcana)) }
    else if w == "aether"@ { Some(Token::Type(Type::Aether)) }
    else if w == "rune"@ { Some(Token::Type(Type::Rune)) }
    else if w == "omen"@ { Some(Token::Type(Type::Omen)) }
    else if w == "abyss"@ { Some(Token::Type(Type::Abyss)) }
    else if w == "scroll"@ { Some(Token::Type(Type::Scroll)) }
    else if w == "lexicon"@ { Some(Token::Type(Type::Lexicon)) }
    else if w == "materia"@ { Some(Token::Type(Type::Materia)) }
    else if w == "glyph"@ { Some(Token::Type(Type::Glyph)) }
    else if w == "boon"@ { Some(Token::OmenLiteral(true)) }
    else if w == "hex"@ { Some(Token::OmenLiteral(false)) }
    else { None }
}

/// The text of a punctuation token.
pub open spec fn symbol_text(t: Token) -> Option<Seq<char>> {
    match t {
        Token::Semicolon => Some(";"@),
        Token::Colon => Some(":"@),
        Token::Comma => Some(","@),
        Token::Dot => Some("."@),
        Token::Arrow => Some("->"@),
        Token::FatArrow => Some("=>"@),
        Token::Assign => Some("="@),
        Token::AddAssign => Some("+="@),
        Token::SubAssign => Some("-="@),
        Token::MulAssign => Some("*="@),
        Token::DivAssign => Some("/="@),
        Token::ModAssign => Some("%="@),
        Token::PowArcanaAssign => Some("^="@),
        Token::PowAetherAssign => Some("**="@),
        Token::Equal => Some("=="@),
        Token::NotEqual => Some("!="@),
        Token::LessThan => Some("<"@),
        Token::LessThanOrEqual => Some("<="@),
        Token::GreaterThan => Some(">"@),
        Token::GreaterThanOrEqual => Some(">="@),
        Token::Plus => Some("+"@),
        Token::Minus => Some("-"@),
        Token::Star => Some("*"@),
        Token::Slash => Some("/"@),
        Token::Percent => Some("%"@),
        Token::Caret => Some("^"@),
        Token::DoubleStar => Some("**"@),
        Token::DoublePipe => Some("||"@),
        Token::DoubleAmpersand => Some("&&"@),
        Token::Bang => Some("!"@),
        Token::OpenParen => Some("("@),
        Token::CloseParen => Some(")"@),
        Token::OpenBrace => Some("{"@),
        Token::CloseBrace => Some("}"@),
        Token::OpenBracket => Some("["@),
        Token::CloseBracket => Some("]"@),
        Token::RangeInclusive => Some("..="@),
        Token::RangeExclusive => Some(".."@),
        _ => None,
    }
}

/// The character an escape `\c` stands for in a rune literal.
pub open spec fn escape_of(c: char) -> Option<char> {
    if c == '"' { Some('"') }
    else if c == 'n' { Some('\n') }
    else if c == 't' { Some('\t') }
    else if c == 'r' { Some('\r') }
    else if c == '\\' { Some('\\') }
    else { None }
}

/// Reads the body of a rune literal from position `j` of `s`: the position
/// of the closing quote and the characters denoted, or `None` when the
/// literal is malformed or unterminated.
pub open spec fn rune_scan(s: Seq<char>, j: int) -> Option<(int, Seq<char>)>
    decreases s.len() - j,
{
    if j < 0 || j >= s.len() {
        None
    } else if s[j] == '"' {
        Some((j, Seq::empty()))
    } else if s[j] == '\\' {
        if j + 1 < s.len() && escape_of(s[j + 1]) is Some {
            match rune_scan(s, j + 2) {
                Some((e, v)) => Some((e, seq![escape_of(s[j + 1]).unwrap()] + v)),
                None => None,
            }
        } else {
            None
        }
    } else {
        match rune_scan(s, j + 1) {
            Some((e, v)) => Some((e, seq![s[j]] + v)),
            None => None,
        }
    }
}

/// An aether literal: an optional `-`, digits, a point, digits.
pub open spec fn is_aether_text(t: Seq<char>) -> bool {
    exists|p: int| aether_split_at(unsigned_part(t), p)
}

/// `t` without a leading `-`.
pub open spec fn unsigned_part(t: Seq<char>) -> Seq<char> {
    if t.len() > 0 && t[0] == '-' { t.skip(1) } else { t }
}

/// `body` is digits, the point at `p`, digits.
pub open spec fn aether_split_at(body: Seq<char>, p: int) -> bool {
    0 < p < body.len() - 1 && body[p] == '.' && all_digits(body.take(p)) && all_digits(body.skip(p + 1))
}

/// A number literal can start at `i`: a digit, or `-` and a digit.
pub open spec fn number_start(s: Seq<char>, i: int) -> bool {
    ||| (0 <= i < s.len() && is_digit(s[i]))
    ||| (0 <= i && i + 1 < s.len() && s[i] == '-' && is_digit(s[i + 1]))
}

/// From `i` to `end` the source holds an arcana literal, as far as its
/// digits run and with no fraction after them, whose value does not fit
/// in an arcana.
pub open spec fn arcana_overflow(s: Seq<char>, i: int, end: int) -> bool {
    let t = s.subrange(i, end);
    &&& 0 <= i < end <= s.len()
    &&& unsigned_part(t).len() > 0
    &&& all_digits(unsigned_part(t))
    &&& (end == s.len() || !is_digit(s[end]))
    &&& !(end + 1 < s.len() && s[end] == '.' && is_digit(s[end + 1]))
    &&& parse_int_spec(t) is None
}

/// No punctuation token starts at `i`.
pub open spec fn no_symbol_at(s: Seq<char>, i: int) -> bool {
    forall|tok: Token, e: int| #![trigger symbol_text(tok), s.subrange(i, e)]
        i < e <= s.len() ==> symbol_text(tok) != Some(s.subrange(i, e))
}

/// The token at `start..end` is as long as it can be: a word is not
/// followed by a character that would continue it, a number by a digit
/// (nor an arcana by a point and a digit), and punctuation is the longest
/// punctuation at its start, where no number starts.
pub open spec fn maximal_at(tok: Token, src: Seq<char>, start: int, end: int) -> bool {
    match tok {
        Token::Arcana(_) => (end == src.len() || !is_digit(src[end])) && !(end + 1 < src.len() && src[end] == '.' && is_digit(
            src[end + 1],
        )),
        Token::Aether(_) => end == src.len() || !is_digit(src[end]),
        Token::Rune(_) => true,
        _ => if symbol_text(tok) is Some {
            !number_start(src, start) && no_longer_symbol(src, start, end)
        } else {
            end == src.len() || !is_ident_char(src[end])
        },
    }
}

/// Every token is as long as it can be (see [`maximal_at`]).
pub open spec fn tokens_maximal(toks: Seq<SpannedToken>, src: Seq<char>) -> bool {
    forall|k: int| 0 <= k < toks.len() ==> maximal_at(#[trigger] toks[k].0, src, toks[k].1.start as int, toks[k].1.end as int)
}

/// Token `tok` is what the source `src` holds from `start` to `end`.
pub open spec fn token_at(tok: Token, src: Seq<char>, start: int, end: int) -> bool {
    let text = src.subrange(start, end);
    match tok {
        Token::Identifier(name) => is_ident_text(text) && keyword_of(text) is None && name@ == text,
        Token::Arcana(n) => text.len() > 0 && text[0] != '+' && parse_int_spec(text) == Some(n),
        Token::Aether(t) => is_aether_text(text) && t@ == text,
        Token::Rune(v) => src[start] == '"' && rune_scan(src, start + 1) == Some((end - 1, v@)),
        _ => (is_ident_text(text) && keyword_of(text) == Some(tok)) || symbol_text(tok) == Some(text),
    }
}

/// The tokens are in order, do not overlap, and each is what the source
/// holds at its span.
pub open spec fn tokens_wf(toks: Seq<SpannedToken>, src: Seq<char>) -> bool {
    &&& forall|k: int| 0 <= k < toks.len() ==> {
        &&& #[trigger] toks[k].1.start < toks[k].1.end <= src.len()
        &&& token_at(toks[k].0, src, toks[k].1.start as int, toks[k].1.end as int)
    }
    &&& forall|k: int| 0 <= k < toks.len() - 1 ==> #[trigger] toks[k].1.end <= toks[k + 1].1.start
}

fn matches_at(s: &Vec<char>, i: usize, lit: &str) -> (r: bool)
    requires
        i <= s@.len(),
    ensures
        r == (i + lit@.len() <= s@.len() && s@.subrange(i as int, i + lit@.len()) == lit@),
{
    let l = to_chars(lit);
    let sl = s.len();
    if l.len() > sl - i {
        return false;
    }
    let mut k: usize = 0;
    while k < l.len()
        invariant
            l@ == lit@,
            sl == s@.len(),
            i + l@.len() <= sl,
            k <= l@.len(),
            forall|q: int| 0 <= q < k ==> s@[i + q] == l@[q],
        decreases l.len() - k,
    {
        if s[i + k] != l[k] {
            assert(s@.subrange(i as int, i + l@.len())[k as int] == s@[i + k]);
            return false;
        }
        k = k + 1;
    }
    assert(s@.subrange(i as int, i + l@.len()) =~= l@);
    true
}

fn seq_is(w: &Vec<char>, lit: &str) -> (r: bool)
    ensures
        r == (w@ == lit@),
{
    let l = to_chars(lit);
    crate::text::chars_eq(w, &l)
}

fn classify_word(w: &Vec<char>) -> (tok: Token)
    ensures
        match keyword_of(w@) {
            Some(k) => tok == k,
            None => tok matches Token::Identifier(name) && name@ == w@,
        },
{
    if seq_is(w, "forge") { Token::Forge }
    else if seq_is(w, "morph") { Token::Morph }
    else if seq_is(w, "oracle") { Token::Oracle }
    else if seq_is(w, "orbit") { Token::Orbit }
    else if seq_is(w, "resume") { Token::Resume }
    else if seq_is(w, "eject") { Token::Eject }
    else if seq_is(w, "engrave") { Token::Engrave }
    else if seq_is(w, "reveal") { Token::Reveal }
    else if seq_is(w, "trans") { Token::Trans }
    else if seq_is(w, "as") { Token::As }
    else if seq_is(w, "artifact") { Token::Artifact }
    else if seq_is(w, "ward") { Token::Ward }
    else if seq_is(w, "arcana") { Token::Type(Type::Arcana) }
    else if seq_is(w, "aether") { Token::Type(Type::Aether) }
    else if seq_is(w, "rune") { Token::Type(Type::Rune) }
    else if seq_is(w, "omen") { Token::Type(Type::Omen) }
    else if seq_is(w, "abyss") { Token::Type(Type::Abyss) }
    else if seq_is(w, "scroll") { Token::Type(Type::Scroll) }
    else if seq_is(w, "lexicon") { Token::Type(Type::Lexicon) }
    else if seq_is(w, "materia") { Token::Type(Type::Materia) }
    else if seq_is(w, "glyph") { Token::Type(Type::Glyph) }
    else if seq_is(w, "boon") { Token::OmenLiteral(true) }
    else if seq_is(w, "hex") { Token::OmenLiteral(false) }
    else { Token::Identifier(string_from_chars(w)) }
}

fn is_ident_start_char(c: char) -> (r: bool)
    ensures
        r == is_ident_start(c),
{
    ('a' <= c && c <= 'z') || ('A' <= c && c <= 'Z') || c == '_'
}

fn is_digit_char(c: char) -> (r: bool)
    ensures
        r == is_digit(c),
{
    '0' <= c && c <= '9'
}

fn copy_range(s: &Vec<char>, from: usize, to: usize) -> (out: Vec<char>)
    requires
        from <= to <= s@.len(),
    ensures
        out@ == s@.subrange(from as int, to as int),
{
    let mut out: Vec<char> = Vec::new();
    let mut k = from;
    while k < to
        invariant
            from <= k <= to <= s@.len(),
            out@ == s@.subrange(from as int, k as int),
        decreases to - k,
    {
        out.push(s[k]);
        assert(s@.subrange(from as int, k + 1) =~= s@.subrange(from as int, k as int).push(s@[k as int]));
        k = k + 1;
    }
    out
}

/// The position of the first line break at or after `j`, or the end.
pub open spec fn line_end(s: Seq<char>, j: int) -> int
    decreases s.len() - j,
{
    if j >= s.len() || s[j] == '\n' {
        j
    } else {
        line_end(s, j + 1)
    }
}

/// The position of the first `*/` at or after `k`, if there is one.
pub open spec fn block_close(s: Seq<char>, k: int) -> Option<int>
    decreases s.len() - k,
{
    if k + 1 >= s.len() {
        None
    } else if s[k] == '*' && s[k + 1] == '/' {
        Some(k)
    } else {
        block_close(s, k + 1)
    }
}

/// Where the text from `i` on stops being white space and comments: a line
/// comment runs to its line break (included), a block comment to its
/// `*/`; an unterminated block comment is not a comment.
pub open spec fn skip_spec(s: Seq<char>, i: int) -> int
    decreases s.len() - i, 0int,
{
    if i < 0 || i >= s.len() {
        i
    } else if is_whitespace_spec(s[i]) {
        skip_spec(s, i + 1)
    } else if s[i] == '/' && i + 1 < s.len() && s[i + 1] == '/' {
        let e = line_end(s, i + 2);
        proof {
            lemma_line_end(s, i + 2);
        }
        if e >= i + 2 {
            skip_spec(s, if e < s.len() { e + 1 } else { e })
        } else {
            i
        }
    } else if s[i] == '/' && i + 1 < s.len() && s[i + 1] == '*' {
        match block_close(s, i + 2) {
            Some(k) => if k >= i + 2 {
                proof {
                    lemma_block_close(s, i + 2);
                }
                skip_spec(s, k + 2)
            } else {
                i
            },
            None => i,
        }
    } else {
        i
    }
}

pub proof fn lemma_line_end(s: Seq<char>, j: int)
    requires
        0 <= j,
    ensures
        j <= line_end(s, j),
        line_end(s, j) <= s.len() || line_end(s, j) == j,
    decreases s.len() - j,
{
    if j < s.len() && s[j] != '\n' {
        lemma_line_end(s, j + 1);
    }
}

pub proof fn lemma_block_close(s: Seq<char>, k: int)
    ensures
        block_close(s, k) matches Some(c) ==> k <= c && c + 1 < s.len(),
    decreases s.len() - k,
{
    if k + 1 < s.len() && !(s[k] == '*' && s[k + 1] == '/') {
        lemma_block_close(s, k + 1);
    }
}

/// Skips white space and comments from `i` (see [`skip_spec`]).
#[verifier::loop_isolation(false)]
fn skip_trivia(s: &Vec<char>, i: usize) -> (j: usize)
    requires
        i <= s@.len(),
    ensures
        i <= j <= s@.len(),
        j == skip_spec(s@, i as int),
{
    let n = s.len();
    let mut j = i;
    while j < n
        invariant
            n == s@.len(),
            i <= j <= n,
            skip_spec(s@, i as int) == skip_spec(s@, j as int),
        decreases n - j,
    {
        let c = s[j];
        if is_whitespace(c) {
            j = j + 1;
        } else if c == '/' && j + 1 < n && s[j + 1] == '/' {
            let ghost j0 = j;
            proof {
                lemma_line_end(s@, j0 + 2);
            }
            j = j + 2;
            while j < n && s[j] != '\n'
                invariant
                    i <= j <= n,
                    j >= j0 + 2,
                    line_end(s@, j0 + 2) == line_end(s@, j as int),
                decreases n - j,
            {
                j = j + 1;
            }
            if j < n {
                j = j + 1;
            }
        } else if c == '/' && j + 1 < n && s[j + 1] == '*' {
            let ghost j0 = j;
            proof {
                lemma_block_close(s@, j0 + 2);
            }
            let mut k = j + 2;
            let mut found = false;
            while k < n - 1 && !found
                invariant
                    j + 2 <= k <= n,
                    j == j0,
                    found ==> k + 2 <= n && block_close(s@, j0 + 2) == Some(k as int),
                    !found ==> block_close(s@, j0 + 2) == block_close(s@, k as int),
                decreases n - k, if found { 0int } else { 1int },
            {
                if s[k] == '*' && s[k + 1] == '/' {
                    found = true;
                } else {
                    k = k + 1;
                }
            }
            if found {
                j = k + 2;
            } else {
                return j;
            }
        } else {
            return j;
        }
    }
    j
}

/// Reads an aether or arcana literal at `i` (an optional `-` and digits);
/// `Ok(None)` when there is none, `Err` when an arcana literal is out of range.
#[verifier::loop_isolation(false)]
fn scan_number(s: &Vec<char>, i: usize) -> (r: Result<Option<(Token, usize)>, usize>)
    requires
        i < s@.len(),
    ensures
        r matches Ok(Some((tok, end))) ==> i < end <= s@.len() && token_at(tok, s@, i as int, end as int) && (tok is Arcana
            || tok is Aether) && maximal_at(tok, s@, i as int, end as int),
        r matches Ok(None) ==> !number_start(s@, i as int),
        r matches Err(end) ==> arcana_overflow(s@, i as int, end as int),
{
    let n = s.len();
    let mut j = i;
    if s[j] == '-' {
        j = j + 1;
    }
    let digits_start = j;
    while j < n && is_digit_char(s[j])
        invariant
            digits_start <= j <= n,
            n == s@.len(),
            all_digits(s@.subrange(digits_start as int, j as int)),
        decreases n - j,
    {
        assert(s@.subrange(digits_start as int, j + 1) =~= s@.subrange(digits_start as int, j as int).push(s@[j as int]));
        j = j + 1;
    }
    if j == digits_start {
        return Ok(None);
    }
    let int_end = j;
    if j < n && j + 1 < n && s[j] == '.' && is_digit_char(s[j + 1]) {
        let mut k = j + 2;
        assert(s@.subrange(int_end + 1, k as int) =~= seq![s@[j + 1]]);
        while k < n && is_digit_char(s[k])
            invariant
                int_end + 1 <= k <= n,
                n == s@.len(),
                all_digits(s@.subrange(int_end + 1, k as int)),
            decreases n - k,
        {
            assert(s@.subrange(int_end + 1, k + 1) =~= s@.subrange(int_end + 1, k as int).push(s@[k as int]));
            k = k + 1;
        }
        let text = copy_range(s, i, k);
        proof {
            let t = s@.subrange(i as int, k as int);
            let body = unsigned_part(t);
            let p = int_end - digits_start;
            assert(body =~= s@.subrange(digits_start as int, k as int));
            assert(body.take(p) =~= s@.subrange(digits_start as int, int_end as int));
            assert(body.skip(p + 1) =~= s@.subrange(int_end + 1, k as int));
            assert(body[p] == '.');
            assert(0 < p < body.len() - 1);
            assert(aether_split_at(body, p));
            assert(is_aether_text(t));
        }
        return Ok(Some((Token::Aether(string_from_chars(&text)), k)));
    }
    let text = copy_range(s, i, int_end);
    match parse_int(&text) {
        Some(v) => {
            assert(text@[0] != '+') by {
                if i == digits_start {
                    assert(is_digit(text@[0]));
                }
            }
            Ok(Some((Token::Arcana(v), int_end)))
        },
        None => {
            proof {
                let t = s@.subrange(i as int, int_end as int);
                assert(unsigned_part(t) =~= s@.subrange(digits_start as int, int_end as int));
            }
            Err(int_end)
        },
    }
}

/// Reads a rune literal whose opening quote is at `i`.
fn scan_rune(s: &Vec<char>, i: usize) -> (r: Option<(Token, usize)>)
    requires
        i < s@.len(),
        s@[i as int] == '"',
    ensures
        r matches Some((tok, end)) ==> i < end <= s@.len() && token_at(tok, s@, i as int, end as int) && tok is Rune,
        r is None ==> rune_scan(s@, i + 1) is None,
{
    let n = s.len();
    let mut value: Vec<char> = Vec::new();
    let mut j = i + 1;
    while j < n
        invariant
            n == s@.len(),
            i + 1 <= j <= n,
            s@[i as int] == '"',
            rune_scan(s@, i + 1) == (match rune_scan(s@, j as int) {
                Some((e, v)) => Some((e, value@ + v)),
                None => None,
            }),
        decreases n - j,
    {
        let c = s[j];
        if c == '"' {
            let text = string_from_chars(&value);
            assert(rune_scan(s@, j as int) == Some((j as int, Seq::<char>::empty())));
            assert(value@ + Seq::<char>::empty() =~= value@);
            return Some((Token::Rune(text), j + 1));
        } else if c == '\\' {
            if j + 1 < n {
                let e = s[j + 1];
                let mapped: Option<char> = if e == '"' {
                    Some('"')
                } else if e == 'n' {
                    Some('\n')
                } else if e == 't' {
                    Some('\t')
                } else if e == 'r' {
                    Some('\r')
                } else if e == '\\' {
                    Some('\\')
                } else {
                    None
                };
                match mapped {
                    Some(m) => {
                        let ghost before = value@;
                        value.push(m);
                        proof {
                            match rune_scan(s@, j + 2) {
                                Some((e2, v2)) => {
                                    assert(before + (seq![m] + v2) =~= value@ + v2);
                                },
                                None => {},
                            }
                        }
                        j = j + 2;
                    },
                    None => {
                        return None;
                    },
                }
            } else {
                return None;
            }
        } else {
            let ghost before = value@;
            value.push(c);
            proof {
                match rune_scan(s@, j + 1) {
                    Some((e2, v2)) => {
                        assert(before + (seq![c] + v2) =~= value@ + v2);
                    },
                    None => {},
                }
            }
            j = j + 1;
        }
    }
    None
}

/// Reads an identifier or a reserved word at `i`.
#[verifier::loop_isolation(false)]
fn scan_word(s: &Vec<char>, i: usize) -> (r: (Token, usize))
    requires
        i < s@.len(),
        is_ident_start(s@[i as int]),
    ensures
        i < r.1 <= s@.len(),
        token_at(r.0, s@, i as int, r.1 as int),
        r.1 == s@.len() || !is_ident_char(s@[r.1 as int]),
        symbol_text(r.0) is None && !(r.0 is Arcana) && !(r.0 is Aether) && !(r.0 is Rune),
{
    let n = s.len();
    let mut j = i + 1;
    while j < n && (is_ident_start_char(s[j]) || is_digit_char(s[j]))
        invariant
            n == s@.len(),
            i < j <= n,
            is_ident_text(s@.subrange(i as int, j as int)),
        decreases n - j,
    {
        assert(s@.subrange(i as int, j + 1) =~= s@.subrange(i as int, j as int).push(s@[j as int]));
        j = j + 1;
    }
    let word = copy_range(s, i, j);
    let tok = classify_word(&word);
    (tok, j)
}

/// The punctuation tokens with their texts.
fn symbol_table() -> (table: Vec<(&'static str, Token)>)
    ensures
        forall|k: int| 0 <= k < table@.len() ==> symbol_text(#[trigger] table@[k].1) == Some(table@[k].0@),
        forall|t: Token| #[trigger] symbol_text(t) is Some ==> exists|k: int| 0 <= k < table@.len() && table@[k].1 == t,
{
    let table = vec![
        ("**=", Token::PowAetherAssign),
        ("**", Token::DoubleStar),
        ("^=", Token::PowArcanaAssign),
        ("+=", Token::AddAssign),
        ("-=", Token::SubAssign),
        ("*=", Token::MulAssign),
        ("/=", Token::DivAssign),
        ("%=", Token::ModAssign),
        ("=>", Token::FatArrow),
        ("->", Token::Arrow),
        ("||", Token::DoublePipe),
        ("&&", Token::DoubleAmpersand),
        ("==", Token::Equal),
        ("!=", Token::NotEqual),
        ("<=", Token::LessThanOrEqual),
        (">=", Token::GreaterThanOrEqual),
        ("..=", Token::RangeInclusive),
        ("..", Token::RangeExclusive),
        ("=", Token::Assign),
        ("+", Token::Plus),
        ("-", Token::Minus),
        ("*", Token::Star),
        ("/", Token::Slash),
        ("%", Token::Percent),
        ("^", Token::Caret),
        ("<", Token::LessThan),
        (">", Token::GreaterThan),
        ("!", Token::Bang),
        (";", Token::Semicolon),
        (":", Token::Colon),
        (",", Token::Comma),
        (".", Token::Dot),
        ("(", Token::OpenParen),
        (")", Token::CloseParen),
        ("{", Token::OpenBrace),
        ("}", Token::CloseBrace),
        ("[", Token::OpenBracket),
        ("]", Token::CloseBracket),
    ];
    assert forall|t: Token| #[trigger] symbol_text(t) is Some implies exists|k: int| 0 <= k < table@.len() && table@[k].1 == t by {
        match t {
            Token::PowAetherAssign => assert(table@[0].1 == t),
            Token::DoubleStar => assert(table@[1].1 == t),
            Token::PowArcanaAssign => assert(table@[2].1 == t),
            Token::AddAssign => assert(table@[3].1 == t),
            Token::SubAssign => assert(table@[4].1 == t),
            Token::MulAssign => assert(table@[5].1 == t),
            Token::DivAssign => assert(table@[6].1 == t),
            Token::ModAssign => assert(table@[7].1 == t),
            Token::FatArrow => assert(table@[8].1 == t),
            Token::Arrow => assert(table@[9].1 == t),
            Token::DoublePipe => assert(table@[10].1 == t),
            Token::DoubleAmpersand => assert(table@[11].1 == t),
            Token::Equal => assert(table@[12].1 == t),
            Token::NotEqual => assert(table@[13].1 == t),
            Token::LessThanOrEqual => assert(table@[14].1 == t),
            Token::GreaterThanOrEqual => assert(table@[15].1 == t),
            Token::RangeInclusive => assert(table@[16].1 == t),
            Token::RangeExclusive => assert(table@[17].1 == t),
            Token::Assign => assert(table@[18].1 == t),
            Token::Plus => assert(table@[19].1 == t),
            Token::Minus => assert(table@[20].1 == t),
            Token::Star => assert(table@[21].1 == t),
            Token::Slash => assert(table@[22].1 == t),
            Token::Percent => assert(table@[23].1 == t),
            Token::Caret => assert(table@[24].1 == t),
            Token::LessThan => assert(table@[25].1 == t),
            Token::GreaterThan => assert(table@[26].1 == t),
            Token::Bang => assert(table@[27].1 == t),
            Token::Semicolon => assert(table@[28].1 == t),
            Token::Colon => assert(table@[29].1 == t),
            Token::Comma => assert(table@[30].1 == t),
            Token::Dot => assert(table@[31].1 == t),
            Token::OpenParen => assert(table@[32].1 == t),
            Token::CloseParen => assert(table@[33].1 == t),
            Token::OpenBrace => assert(table@[34].1 == t),
            Token::CloseBrace => assert(table@[35].1 == t),
            Token::OpenBracket => assert(table@[36].1 == t),
            Token::CloseBracket => assert(table@[37].1 == t),
            _ => {},
        }
    }
    table
}

/// No punctuation token longer than `start..end` starts at `start`.
pub open spec fn no_longer_symbol(s: Seq<char>, start: int, end: int) -> bool {
    forall|tok: Token, e: int| #![trigger symbol_text(tok), s.subrange(start, e)]
        end < e <= s.len() ==> symbol_text(tok) != Some(s.subrange(start, e))
}

/// Reads the longest punctuation token at `i`.
fn scan_symbol(s: &Vec<char>, i: usize) -> (r: Option<(Token, usize)>)
    requires
        i < s@.len(),
    ensures
        r matches Some((tok, end)) ==> i < end <= s@.len() && symbol_text(tok) == Some(s@.subrange(i as int, end as int))
            && no_longer_symbol(s@, i as int, end as int),
        r is None ==> no_symbol_at(s@, i as int),
{
    let mut table = symbol_table();
    let n = table.len();
    let mut best: Option<(usize, usize)> = None;
    let mut k: usize = 0;
    while k < n
        invariant
            n == table@.len(),
            i < s@.len(),
            k <= n,
            forall|m: int| 0 <= m < table@.len() ==> symbol_text(#[trigger] table@[m].1) == Some(table@[m].0@),
            best matches Some((b, e)) ==> b < n && i < e <= s@.len() && e == i + table@[b as int].0@.len()
                && s@.subrange(i as int, e as int) == table@[b as int].0@,
            forall|m: int| 0 <= m < k ==> {
                let lit = (#[trigger] table@[m]).0@;
                (lit.len() > 0 && i + lit.len() <= s@.len() && s@.subrange(i as int, i + lit.len()) == lit) ==> (best matches Some((_, e))
                    && i + lit.len() <= e)
            },
        decreases n - k,
    {
        let lit = table[k].0;
        let len = lit.unicode_len();
        let longer = match best {
            Some((_, e)) => len > e - i,
            None => true,
        };
        if len > 0 && len <= s.len() - i && longer && matches_at(s, i, lit) {
            best = Some((k, i + len));
        }
        k = k + 1;
    }
    match best {
        Some((b, e)) => {
            let ghost tbl = table@;
            let (_, tok) = table.remove(b);
            proof {
                assert(tok == tbl[b as int].1);
                assert forall|t2: Token, e2: int| e < e2 <= s@.len() implies symbol_text(t2) != Some(s@.subrange(i as int, e2)) by {
                    if symbol_text(t2) == Some(s@.subrange(i as int, e2)) {
                        let m = choose|m: int| 0 <= m < tbl.len() && tbl[m].1 == t2;
                        assert(tbl[m].0@ == s@.subrange(i as int, e2));
                    }
                }
            }
            Some((tok, e))
        },
        None => {
            proof {
                assert forall|t2: Token, e2: int| i < e2 <= s@.len() implies symbol_text(t2) != Some(s@.subrange(i as int, e2)) by {
                    if symbol_text(t2) == Some(s@.subrange(i as int, e2)) {
                        let m = choose|m: int| 0 <= m < table@.len() && table@[m].1 == t2;
                        assert(table@[m].0@ == s@.subrange(i as int, e2));
                    }
                }
            }
            None
        },
    }
}

/// Only white space and comments (see [`skip_spec`]) lie before the first
/// token, between two tokens and after the last one.
pub open spec fn tokens_cover(toks: Seq<SpannedToken>, src: Seq<char>) -> bool {
    &&& toks.len() == 0 ==> skip_spec(src, 0) == src.len()
    &&& toks.len() > 0 ==> skip_spec(src, 0) == toks[0].1.start && skip_spec(src, toks.last().1.end as int) == src.len()
    &&& forall|k: int| 0 <= k < toks.len() - 1 ==> skip_spec(src, (#[trigger] toks[k]).1.end as int) == toks[k + 1].1.start
}

/// `toks` lex the source up to position `j`: they are well formed, and
/// only white space and comments lie before the first, between two of
/// them and from the last up to `j`.
pub open spec fn lexes_to(toks: Seq<SpannedToken>, src: Seq<char>, j: int) -> bool {
    &&& tokens_wf(toks, src)
    &&& toks.len() == 0 ==> skip_spec(src, 0) == j
    &&& toks.len() > 0 ==> skip_spec(src, 0) == toks[0].1.start && skip_spec(src, toks.last().1.end as int) == j
    &&& forall|k: int| 0 <= k < toks.len() - 1 ==> skip_spec(src, (#[trigger] toks[k]).1.end as int) == toks[k + 1].1.start
}

/// No token starts at `j`.
pub open spec fn no_token_at(s: Seq<char>, j: int) -> bool {
    forall|tok: Token, e: int| j < e <= s.len() ==> !#[trigger] token_at(tok, s, j, e)
}

/// An arcana or aether literal starts as a number does.
pub proof fn lemma_number_token_start(tok: Token, s: Seq<char>, i: int, e: int)
    requires
        0 <= i < e <= s.len(),
        tok is Arcana || tok is Aether,
        token_at(tok, s, i, e),
    ensures
        number_start(s, i),
{
    let t = s.subrange(i, e);
    assert(t[0] == s[i]);
    if t.len() > 1 {
        assert(t[1] == s[i + 1]);
    }
    match tok {
        Token::Arcana(_) => {
            let body = if t[0] == '-' { t.skip(1) } else { t };
            assert(is_digit(body[0]));
        },
        _ => {
            let p = choose|p: int| aether_split_at(unsigned_part(t), p);
            let u = unsigned_part(t);
            assert(u.take(p)[0] == u[0]);
            assert(is_digit(u[0]));
        },
    }
}

/// Splits `source` into tokens, skipping white space and comments. On
/// success the tokens are in order, do not overlap, each is what the
/// source holds at its span, and only white space and comments lie around
/// them. It fails only where, after a part that lexes, no token starts
/// (an unexpected character), or an arcana literal is out of range, and
/// then the source has no lexing into longest tokens at all.
pub fn lexer(source: &str) -> (r: Result<Vec<SpannedToken>, LexError>)
    ensures
        r matches Ok(toks) ==> tokens_wf(toks@, source@) && tokens_cover(toks@, source@) && tokens_maximal(toks@, source@),
        r matches Err(e) ==> e.span.start < e.span.end <= source@.len()
            && (exists|toks: Seq<SpannedToken>| #[trigger] lexes_to(toks, source@, e.span.start as int) && tokens_maximal(toks, source@))
            && (forall|all: Seq<SpannedToken>| !(#[trigger] tokens_wf(all, source@) && tokens_cover(all, source@)
                && tokens_maximal(all, source@)))
            && e.found == Some(source@[e.span.start as int])
            && ((no_token_at(source@, e.span.start as int) && e.span.end == e.span.start + 1
                    && e.message@ == "Unexpected token `"@ + seq![source@[e.span.start as int]] + "`"@)
                || (arcana_overflow(source@, e.span.start as int, e.span.end as int)
                    && e.message@ == "Arcana literal out of range"@)),
{
    let s = to_chars(source);
    let n = s.len();
    let mut toks: Vec<SpannedToken> = Vec::new();
    let mut i: usize = 0;
    while i < n
        invariant
            s@ == source@,
            n == s@.len(),
            i <= n,
            tokens_wf(toks@, s@),
            toks@.len() == 0 ==> i == 0,
            toks@.len() > 0 ==> toks@.last().1.end == i && skip_spec(s@, 0) == toks@[0].1.start,
            forall|k: int| 0 <= k < toks@.len() - 1 ==> skip_spec(s@, (#[trigger] toks@[k]).1.end as int) == toks@[k + 1].1.start,
            tokens_maximal(toks@, s@),
        ensures
            skip_spec(s@, i as int) == n,
        decreases n - i,
    {
        let j = skip_trivia(&s, i);
        if j == n {
            break;
        }
        proof {
            assert(lexes_to(toks@, s@, j as int));
        }
        let c = s[j];
        let scanned: Option<(Token, usize)>;
        match scan_number(&s, j) {
            Err(end) => {
                proof {
                    assert forall|all: Seq<SpannedToken>| !(#[trigger] tokens_wf(all, s@) && tokens_cover(all, s@)
                        && tokens_maximal(all, s@)) by {
                        lemma_lex_error_has_no_lexing(s@, toks@, j as int, end as int, all);
                    }
                }
                return Err(LexError { span: Span::new(j, end), found: Some(c), message: owned("Arcana literal out of range") });
            },
            Ok(Some(t)) => {
                scanned = Some(t);
            },
            Ok(None) => {
                let mut found: Option<(Token, usize)> = if c == '"' { scan_rune(&s, j) } else { None };
                if found.is_none() && is_ident_start_char(c) {
                    found = Some(scan_word(&s, j));
                }
                if found.is_none() {
                    found = scan_symbol(&s, j);
                    proof {
                        if found.is_none() {
                            assert forall|tok: Token, e: int| j < e <= s@.len() implies !#[trigger] token_at(tok, s@, j as int, e) by {
                                if token_at(tok, s@, j as int, e) {
                                    let t = s@.subrange(j as int, e);
                                    assert(t[0] == s@[j as int]);
                                    if tok is Arcana || tok is Aether {
                                        lemma_number_token_start(tok, s@, j as int, e);
                                    } else if !(tok is Rune) && !(tok is Identifier) {
                                        assert(symbol_text(tok) != Some(s@.subrange(j as int, e)));
                                    }
                                }
                            }
                        }
                    }
                }
                scanned = found;
            },
        }
        assert(scanned matches Some((tok, end)) ==> maximal_at(tok, s@, j as int, end as int));
        match scanned {
            Some((tok, end)) => {
                let ghost before = toks@;
                toks.push((tok, Span::new(j, end)));
                proof {
                    assert forall|k: int| 0 <= k < toks@.len() - 1 implies skip_spec(s@, (#[trigger] toks@[k]).1.end as int)
                        == toks@[k + 1].1.start by {
                        if k < before.len() - 1 {
                            assert(toks@[k] == before[k] && toks@[k + 1] == before[k + 1]);
                        } else {
                            assert(toks@[k] == before.last());
                        }
                    }
                    assert forall|k: int| 0 <= k < toks@.len() - 1 implies #[trigger] toks@[k].1.end <= toks@[k + 1].1.start by {
                        if k < before.len() - 1 {
                            assert(toks@[k] == before[k] && toks@[k + 1] == before[k + 1]);
                        }
                    }
                    assert forall|k: int| 0 <= k < toks@.len() implies {
                        &&& #[trigger] toks@[k].1.start < toks@[k].1.end <= s@.len()
                        &&& token_at(toks@[k].0, s@, toks@[k].1.start as int, toks@[k].1.end as int)
                    } by {
                        if k < before.len() {
                            assert(toks@[k] == before[k]);
                        }
                    }
                    assert forall|k: int| 0 <= k < toks@.len() implies maximal_at(
                        #[trigger] toks@[k].0,
                        s@,
                        toks@[k].1.start as int,
                        toks@[k].1.end as int,
                    ) by {
                        if k < before.len() {
                            assert(toks@[k] == before[k]);
                        }
                    }
                }
                i = end;
            },
            None => {
                let mut message = owned("Unexpected token `");
                push_char(&mut message, c);
                push_str(&mut message, "`");
                proof {
                    assert forall|all: Seq<SpannedToken>| !(#[trigger] tokens_wf(all, s@) && tokens_cover(all, s@)
                        && tokens_maximal(all, s@)) by {
                        lemma_lex_error_has_no_lexing(s@, toks@, j as int, j + 1, all);
                    }
                }
                return Err(LexError { span: Span::new(j, j + 1), found: Some(c), message });
            },
        }
    }
    Ok(toks)
}

/// The text of a keyword token.
pub open spec fn keyword_text(t: Token) -> Option<Seq<char>> {
    match t {
        Token::Forge => Some("forge"@),
        Token::Morph => Some("morph"@),
        Token::Oracle => Some("oracle"@),
        Token::Orbit => Some("orbit"@),
        Token::Resume => Some("resume"@),
        Token::Eject => Some("eject"@),
        Token::Engrave => Some("engrave"@),
        Token::Reveal => Some("reveal"@),
        Token::Trans => Some("trans"@),
        Token::As => Some("as"@),
        Token::Artifact => Some("artifact"@),
        Token::Ward => Some("ward"@),
        _ => None,
    }
}

/// How the debug output of the language writes a type.
pub open spec fn type_debug(t: crate::ast::TypeV) -> Seq<char> {
    match t {
        crate::ast::TypeV::Arcana => "Arcana"@,
        crate::ast::TypeV::Aether => "Aether"@,
        crate::ast::TypeV::Rune => "Rune"@,
        crate::ast::TypeV::Omen => "Omen"@,
        crate::ast::TypeV::Abyss => "Abyss"@,
        crate::ast::TypeV::Scroll => "Scroll"@,
        crate::ast::TypeV::Lexicon => "Lexicon"@,
        crate::ast::TypeV::Materia => "Materia"@,
        crate::ast::TypeV::Glyph => "Glyph"@,
        crate::ast::TypeV::Artifact(n) => "Artifact(\""@ + n + "\")"@,
        crate::ast::TypeV::Spectrum(n) => "Spectrum(\""@ + n + "\")"@,
    }
}

/// How diagnostics name a token.
pub open spec fn token_description(t: Token) -> Seq<char> {
    match t {
        Token::Identifier(name) => "identifier `"@ + name@ + "`"@,
        Token::Type(ty) => "type `"@ + type_debug(ty@) + "`"@,
        Token::Arcana(v) => "arcana literal "@ + crate::text::int_text(v as int),
        Token::Aether(text) => "aether literal "@ + text@,
        Token::Rune(v) => "rune literal \""@ + v@ + seq!['"'],
        Token::OmenLiteral(b) => if b { "boon"@ } else { "hex"@ },
        _ => match keyword_text(t) {
            Some(k) => k,
            None => symbol_text(t).unwrap(),
        },
    }
}

impl Token {
    /// How diagnostics name this token.
    pub fn describe(&self) -> (s: String)
        ensures
            s@ == token_description(*self),
    {
        match self {
            Token::Identifier(name) => {
                let mut s = owned("identifier `");
                push_str(&mut s, name.as_str());
                push_str(&mut s, "`");
                s
            },
            Token::Type(t) => {
                let mut s = owned("type `");
                push_str(&mut s, type_name_of(t).as_str());
                push_str(&mut s, "`");
                s
            },
            Token::Arcana(v) => {
                let mut s = owned("arcana literal ");
                push_str(&mut s, int_to_string(*v).as_str());
                s
            },
            Token::Aether(t) => {
                let mut s = owned("aether literal ");
                push_str(&mut s, t.as_str());
                s
            },
            Token::Rune(v) => {
                let mut s = owned("rune literal \"");
                push_str(&mut s, v.as_str());
                push_char(&mut s, '"');
                s
            },
            Token::OmenLiteral(true) => owned("boon"),
            Token::OmenLiteral(false) => owned("hex"),
            _ => owned(fixed_text(self)),
        }
    }
}

/// The name of a type as the language's debug output writes it.
pub fn type_name_of(t: &Type) -> (s: String)
    ensures
        s@ == type_debug(t@),
{
    match t {
        Type::Arcana => owned("Arcana"),
        Type::Aether => owned("Aether"),
        Type::Rune => owned("Rune"),
        Type::Omen => owned("Omen"),
        Type::Abyss => owned("Abyss"),
        Type::Scroll => owned("Scroll"),
        Type::Lexicon => owned("Lexicon"),
        Type::Materia => owned("Materia"),
        Type::Glyph => owned("Glyph"),
        Type::Artifact(n) => {
            let mut s = owned("Artifact(\"");
            push_str(&mut s, n.as_str());
            push_str(&mut s, "\")");
            s
        },
        Type::Spectrum(n) => {
            let mut s = owned("Spectrum(\"");
            push_str(&mut s, n.as_str());
            push_str(&mut s, "\")");
            s
        },
    }
}

fn fixed_text(t: &Token) -> (r: &'static str)
    ensures
        keyword_text(*t) matches Some(k) ==> r@ == k,
        keyword_text(*t) is None && symbol_text(*t) is Some ==> r@ == symbol_text(*t).unwrap(),
{
    match t {
        Token::Forge => "forge",
        Token::Morph => "morph",
        Token::Oracle => "oracle",
        Token::Orbit => "orbit",
        Token::Resume => "resume",
        Token::Eject => "eject",
        Token::Engrave => "engrave",
        Token::Reveal => "reveal",
        Token::Trans => "trans",
        Token::As => "as",
        Token::Artifact => "artifact",
        Token::Ward => "ward",
        Token::Semicolon => ";",
        Token::Colon => ":",
        Token::Comma => ",",
        Token::Dot => ".",
        Token::Arrow => "->",
        Token::FatArrow => "=>",
        Token::Assign => "=",
        Token::AddAssign => "+=",
        Token::SubAssign => "-=",
        Token::MulAssign => "*=",
        Token::DivAssign => "/=",
        Token::ModAssign => "%=",
        Token::PowArcanaAssign => "^=",
        Token::PowAetherAssign => "**=",
        Token::Equal => "==",
        Token::NotEqual => "!=",
        Token::LessThan => "<",
        Token::LessThanOrEqual => "<=",
        Token::GreaterThan => ">",
        Token::GreaterThanOrEqual => ">=",
        Token::Plus => "+",
        Token::Minus => "-",
        Token::Star => "*",
        Token::Slash => "/",
        Token::Percent => "%",
        Token::Caret => "^",
        Token::DoubleStar => "**",
        Token::DoublePipe => "||",
        Token::DoubleAmpersand => "&&",
        Token::Bang => "!",
        Token::OpenParen => "(",
        Token::CloseParen => ")",
        Token::OpenBrace => "{",
        Token::CloseBrace => "}",
        Token::OpenBracket => "[",
        Token::CloseBracket => "]",
        Token::RangeInclusive => "..=",
        Token::RangeExclusive => "..",
        _ => "",
    }
}

} // verus!
