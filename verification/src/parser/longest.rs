//! Longest-token lexing is unique: at a given start at most one token is
//! as long as it can be, so a source has at most one lexing into such
//! tokens, and where the lexer stops no such lexing exists.
use vstd::prelude::*;

use crate::parser::tokens::{
    arcana_overflow, aether_split_at, lemma_number_token_start, lexes_to, maximal_at, no_longer_symbol, no_token_at,
    number_start, symbol_text, token_at, tokens_cover, tokens_maximal, tokens_wf, unsigned_part, is_ident_start,
    is_ident_text, SpannedToken, Token, skip_spec,
};
use crate::text::{all_digits, is_digit, parse_int_spec};

verus! {

/// Where the digits of a number starting at `i` begin: after a leading `-`.
pub open spec fn digits_from(s: Seq<char>, i: int) -> int {
    if s[i] == '-' { i + 1 } else { i }
}

/// `i..e` holds an integer literal as far as its digits run, with no
/// fraction after it.
pub open spec fn int_run(s: Seq<char>, i: int, e: int) -> bool {
    &&& 0 <= i < e <= s.len()
    &&& digits_from(s, i) < e
    &&& forall|k: int| digits_from(s, i) <= k < e ==> is_digit(#[trigger] s[k])
    &&& (e == s.len() || !is_digit(s[e]))
    &&& !(e + 1 < s.len() && s[e] == '.' && is_digit(s[e + 1]))
}

/// `i..e` holds digits, a point at `q` and digits, as far as they run.
pub open spec fn frac_run(s: Seq<char>, i: int, q: int, e: int) -> bool {
    &&& 0 <= i && digits_from(s, i) < q && q + 1 < e <= s.len()
    &&& s[q] == '.'
    &&& forall|k: int| digits_from(s, i) <= k < q ==> is_digit(#[trigger] s[k])
    &&& forall|k: int| q < k < e ==> is_digit(#[trigger] s[k])
    &&& (e == s.len() || !is_digit(s[e]))
}

proof fn lemma_int_runs_agree(s: Seq<char>, i: int, e1: int, e2: int)
    requires
        int_run(s, i, e1),
        int_run(s, i, e2),
    ensures
        e1 == e2,
{
    if e1 < e2 {
        assert(is_digit(s[e1]));
    } else if e2 < e1 {
        assert(is_digit(s[e2]));
    }
}

proof fn lemma_int_frac_disagree(s: Seq<char>, i: int, e1: int, q: int, e2: int)
    requires
        int_run(s, i, e1),
    ensures
        !frac_run(s, i, q, e2),
{
    if !frac_run(s, i, q, e2) {
    } else if e1 < q {
        assert(is_digit(s[e1]));
    } else if e1 == q {
        assert(is_digit(s[q + 1]));
    } else {
        assert(is_digit(s[q]));
    }
}

proof fn lemma_frac_runs_agree(s: Seq<char>, i: int, q1: int, e1: int, q2: int, e2: int)
    requires
        frac_run(s, i, q1, e1),
        frac_run(s, i, q2, e2),
    ensures
        e1 == e2,
{
    if q1 < q2 {
        assert(is_digit(s[q1]));
    } else if q2 < q1 {
        assert(is_digit(s[q2]));
    }
    if e1 < e2 {
        assert(is_digit(s[e1]));
    } else if e2 < e1 {
        assert(is_digit(s[e2]));
    }
}

proof fn lemma_arcana_run(tok: Token, s: Seq<char>, i: int, e: int)
    requires
        0 <= i < e <= s.len(),
        tok is Arcana,
        token_at(tok, s, i, e),
        maximal_at(tok, s, i, e),
    ensures
        int_run(s, i, e),
{
    let t = s.subrange(i, e);
    assert(t[0] == s[i]);
    let body = if t[0] == '-' { t.skip(1) } else { t };
    assert(all_digits(body) && body.len() > 0);
    assert forall|k: int| digits_from(s, i) <= k < e implies is_digit(#[trigger] s[k]) by {
        assert(body[k - digits_from(s, i)] == s[k]);
    }
}

proof fn lemma_aether_run(tok: Token, s: Seq<char>, i: int, e: int) -> (q: int)
    requires
        0 <= i < e <= s.len(),
        tok is Aether,
        token_at(tok, s, i, e),
        maximal_at(tok, s, i, e),
    ensures
        frac_run(s, i, q, e),
{
    let t = s.subrange(i, e);
    assert(t[0] == s[i]);
    let u = unsigned_part(t);
    let p = choose|p: int| aether_split_at(u, p);
    let d = digits_from(s, i);
    assert(u =~= s.subrange(d, e));
    let q = d + p;
    assert(s[q] == u[p]);
    assert forall|k: int| d <= k < q implies is_digit(#[trigger] s[k]) by {
        assert(u.take(p)[k - d] == s[k]);
    }
    assert forall|k: int| q < k < e implies is_digit(#[trigger] s[k]) by {
        assert(u.skip(p + 1)[k - q - 1] == s[k]);
    }
    q
}

proof fn lemma_overflow_run(s: Seq<char>, i: int, e: int)
    requires
        arcana_overflow(s, i, e),
    ensures
        int_run(s, i, e),
        number_start(s, i),
{
    let t = s.subrange(i, e);
    assert(t[0] == s[i]);
    let u = unsigned_part(t);
    let d = digits_from(s, i);
    assert(u =~= s.subrange(d, e));
    assert forall|k: int| d <= k < e implies is_digit(#[trigger] s[k]) by {
        assert(u[k - d] == s[k]);
    }
    assert(is_digit(s[d]));
}

/// The first character of every punctuation token is neither a letter,
/// `_`, a digit nor a quote.
proof fn lemma_symbol_first(tok: Token)
    requires
        symbol_text(tok) is Some,
    ensures
        symbol_text(tok).unwrap().len() > 0,
        !is_ident_start(symbol_text(tok).unwrap()[0]),
        !is_digit(symbol_text(tok).unwrap()[0]),
        symbol_text(tok).unwrap()[0] != '"',
{
    reveal_strlit(";");
    reveal_strlit(":");
    reveal_strlit(",");
    reveal_strlit(".");
    reveal_strlit("->");
    reveal_strlit("=>");
    reveal_strlit("=");
    reveal_strlit("+=");
    reveal_strlit("-=");
    reveal_strlit("*=");
    reveal_strlit("/=");
    reveal_strlit("%=");
    reveal_strlit("^=");
    reveal_strlit("**=");
    reveal_strlit("==");
    reveal_strlit("!=");
    reveal_strlit("<");
    reveal_strlit("<=");
    reveal_strlit(">");
    reveal_strlit(">=");
    reveal_strlit("+");
    reveal_strlit("-");
    reveal_strlit("*");
    reveal_strlit("/");
    reveal_strlit("%");
    reveal_strlit("^");
    reveal_strlit("**");
    reveal_strlit("||");
    reveal_strlit("&&");
    reveal_strlit("!");
    reveal_strlit("(");
    reveal_strlit(")");
    reveal_strlit("{");
    reveal_strlit("}");
    reveal_strlit("[");
    reveal_strlit("]");
    reveal_strlit("..=");
    reveal_strlit("..");
}

/// A token that is neither a number, a rune nor punctuation is a word:
/// its text is an identifier's.
pub open spec fn is_word_token(tok: Token) -> bool {
    !(tok is Arcana || tok is Aether || tok is Rune) && symbol_text(tok) is None
}

proof fn lemma_word_text(tok: Token, s: Seq<char>, i: int, e: int)
    requires
        0 <= i < e <= s.len(),
        is_word_token(tok),
        token_at(tok, s, i, e),
    ensures
        is_ident_text(s.subrange(i, e)),
{
}

proof fn lemma_symbol_text(tok: Token, s: Seq<char>, i: int, e: int)
    requires
        0 <= i < e <= s.len(),
        symbol_text(tok) is Some,
        token_at(tok, s, i, e),
    ensures
        symbol_text(tok) == Some(s.subrange(i, e)),
{
}

/// Two tokens that start at the same place and are each as long as they
/// can be end at the same place.
pub proof fn lemma_longest_token_unique(s: Seq<char>, i: int, t1: Token, e1: int, t2: Token, e2: int)
    requires
        0 <= i < e1 <= s.len(),
        i < e2 <= s.len(),
        token_at(t1, s, i, e1),
        maximal_at(t1, s, i, e1),
        token_at(t2, s, i, e2),
        maximal_at(t2, s, i, e2),
    ensures
        e1 == e2,
{
    lemma_class(s, i, t1, e1);
    lemma_class(s, i, t2, e2);
    if t1 is Arcana || t1 is Aether {
        if t1 is Arcana {
            lemma_arcana_run(t1, s, i, e1);
            if t2 is Arcana {
                lemma_arcana_run(t2, s, i, e2);
                lemma_int_runs_agree(s, i, e1, e2);
            } else if t2 is Aether {
                let q2 = lemma_aether_run(t2, s, i, e2);
                lemma_int_frac_disagree(s, i, e1, q2, e2);
            }
        } else {
            let q1 = lemma_aether_run(t1, s, i, e1);
            if t2 is Arcana {
                lemma_arcana_run(t2, s, i, e2);
                lemma_int_frac_disagree(s, i, e2, q1, e1);
            } else if t2 is Aether {
                let q2 = lemma_aether_run(t2, s, i, e2);
                lemma_frac_runs_agree(s, i, q1, e1, q2, e2);
            }
        }
    } else if t1 is Rune {
        if t2 is Rune {
        }
    } else if symbol_text(t1) is Some {
        if symbol_text(t2) is Some {
            lemma_symbol_text(t1, s, i, e1);
            lemma_symbol_text(t2, s, i, e2);
            if e1 < e2 {
                assert(symbol_text(t2) != Some(s.subrange(i, e2)));
            } else if e2 < e1 {
                assert(symbol_text(t1) != Some(s.subrange(i, e1)));
            }
        }
    } else {
        if is_word_token(t2) {
            lemma_word_text(t1, s, i, e1);
            lemma_word_text(t2, s, i, e2);
            if e1 < e2 {
                assert(s.subrange(i, e2)[e1 - i] == s[e1]);
            } else if e2 < e1 {
                assert(s.subrange(i, e1)[e2 - i] == s[e2]);
            }
        }
    }
}

/// What a token that is as long as it can be says of its first character,
/// by its kind: a number starts as a number does, a rune with a quote,
/// punctuation with no letter, digit or quote and not where a number
/// starts, a word with a letter or `_`.
proof fn lemma_class(s: Seq<char>, i: int, t: Token, e: int)
    requires
        0 <= i < e <= s.len(),
        token_at(t, s, i, e),
        maximal_at(t, s, i, e),
    ensures
        (t is Arcana || t is Aether) ==> number_start(s, i),
        t is Rune ==> s[i] == '"',
        symbol_text(t) is Some ==> !is_ident_start(s[i]) && !is_digit(s[i]) && s[i] != '"' && !number_start(s, i),
        is_word_token(t) ==> is_ident_start(s[i]),
{
    let text = s.subrange(i, e);
    assert(text[0] == s[i]);
    if t is Arcana || t is Aether {
        lemma_number_token_start(t, s, i, e);
    } else if symbol_text(t) is Some {
        lemma_symbol_text(t, s, i, e);
        lemma_symbol_first(t);
    }
}

/// A lexing up to `j` into longest tokens agrees, token for token, with
/// a lexing of the whole source into longest tokens, which goes on with
/// a token at `j` unless `j` is the end of the source.
pub proof fn lemma_lexing_prefix(s: Seq<char>, toks: Seq<SpannedToken>, j: int, all: Seq<SpannedToken>)
    requires
        lexes_to(toks, s, j),
        tokens_maximal(toks, s),
        tokens_wf(all, s),
        tokens_cover(all, s),
        tokens_maximal(all, s),
    ensures
        toks.len() <= all.len(),
        forall|k: int| 0 <= k < toks.len() ==> (#[trigger] all[k]).1 == toks[k].1,
        toks.len() < all.len() ==> all[toks.len() as int].1.start == j,
        toks.len() == all.len() ==> j == s.len(),
    decreases toks.len(),
{
    let n = toks.len() as int;
    if n == 0 {
        if all.len() > 0 {
            assert(all[0].1.start == skip_spec(s, 0));
        }
    } else {
        let pre = toks.drop_last();
        let last = toks[n - 1];
        assert(lexes_to(pre, s, last.1.start as int)) by {
            assert forall|k: int| 0 <= k < pre.len() implies #[trigger] pre[k].1.start < pre[k].1.end <= s.len() && token_at(
                pre[k].0,
                s,
                pre[k].1.start as int,
                pre[k].1.end as int,
            ) by {
                assert(pre[k] == toks[k]);
            }
            assert forall|k: int| 0 <= k < pre.len() - 1 implies #[trigger] pre[k].1.end <= pre[k + 1].1.start by {
                assert(pre[k] == toks[k] && pre[k + 1] == toks[k + 1]);
            }
            assert forall|k: int| 0 <= k < pre.len() - 1 implies skip_spec(s, (#[trigger] pre[k]).1.end as int) == pre[k + 1].1.start by {
                assert(pre[k] == toks[k] && pre[k + 1] == toks[k + 1]);
            }
            if n > 1 {
                assert(pre.last() == toks[n - 2]);
                assert(skip_spec(s, (toks[n - 2]).1.end as int) == toks[n - 1].1.start);
            }
        }
        assert(tokens_maximal(pre, s)) by {
            assert forall|k: int| 0 <= k < pre.len() implies maximal_at(#[trigger] pre[k].0, s, pre[k].1.start as int, pre[k].1.end as int) by {
                assert(pre[k] == toks[k]);
            }
        }
        lemma_lexing_prefix(s, pre, last.1.start as int, all);
        assert(last.1.start < last.1.end <= s.len());
        assert(pre.len() < all.len());
        let a = all[n - 1];
        assert(a.1.start == last.1.start);
        assert(a.1.start < a.1.end <= s.len() && token_at(a.0, s, a.1.start as int, a.1.end as int));
        assert(maximal_at(a.0, s, a.1.start as int, a.1.end as int));
        assert(maximal_at(last.0, s, last.1.start as int, last.1.end as int));
        lemma_longest_token_unique(s, last.1.start as int, last.0, last.1.end as int, a.0, a.1.end as int);
        assert(a.1 == last.1);
        assert forall|k: int| 0 <= k < toks.len() implies (#[trigger] all[k]).1 == toks[k].1 by {
            if k < n - 1 {
                assert(pre[k] == toks[k]);
                assert(all[k].1 == pre[k].1);
            }
        }
        if n < all.len() {
            assert(skip_spec(s, (all[n - 1]).1.end as int) == all[n].1.start);
        } else {
            assert(all.last() == all[n - 1]);
        }
    }
}

/// A source has at most one lexing into longest tokens: two such lexings
/// have their tokens at the same spans.
pub proof fn lemma_longest_lexing_unique(s: Seq<char>, a: Seq<SpannedToken>, b: Seq<SpannedToken>)
    requires
        tokens_wf(a, s) && tokens_cover(a, s) && tokens_maximal(a, s),
        tokens_wf(b, s) && tokens_cover(b, s) && tokens_maximal(b, s),
    ensures
        a.len() == b.len(),
        forall|k: int| 0 <= k < a.len() ==> (#[trigger] a[k]).1 == b[k].1,
{
    if a.len() > 0 {
        assert(a.last() == a[a.len() - 1]);
    }
    assert(lexes_to(a, s, s.len() as int));
    lemma_lexing_prefix(s, a, s.len() as int, b);
    if a.len() < b.len() {
        assert(b[a.len() as int].1.start < b[a.len() as int].1.end <= s.len());
    }
}

/// Where the lexer stops (no token starts there, or an arcana literal is
/// out of range) after a part that lexes into longest tokens, the source
/// has no lexing into longest tokens at all.
pub proof fn lemma_lex_error_has_no_lexing(s: Seq<char>, toks: Seq<SpannedToken>, j: int, end: int, all: Seq<SpannedToken>)
    requires
        lexes_to(toks, s, j),
        tokens_maximal(toks, s),
        j < s.len(),
        no_token_at(s, j) || arcana_overflow(s, j, end),
    ensures
        !(tokens_wf(all, s) && tokens_cover(all, s) && tokens_maximal(all, s)),
{
    if tokens_wf(all, s) && tokens_cover(all, s) && tokens_maximal(all, s) {
        lemma_lexing_prefix(s, toks, j, all);
        let n = toks.len() as int;
        let a = all[n];
        assert(a.1.start < a.1.end <= s.len() && token_at(a.0, s, a.1.start as int, a.1.end as int));
        assert(maximal_at(a.0, s, a.1.start as int, a.1.end as int));
        if no_token_at(s, j) {
            assert(!token_at(a.0, s, j, a.1.end as int));
        } else {
            lemma_overflow_run(s, j, end);
            lemma_class(s, j, a.0, a.1.end as int);
            if a.0 is Arcana {
                lemma_arcana_run(a.0, s, j, a.1.end as int);
                lemma_int_runs_agree(s, j, end, a.1.end as int);
                assert(parse_int_spec(s.subrange(j, end)) is None);
            } else if a.0 is Aether {
                let q = lemma_aether_run(a.0, s, j, a.1.end as int);
                lemma_int_frac_disagree(s, j, end, q, a.1.end as int);
            } else {
                assert(s[j] == '-' || is_digit(s[j]));
            }
        }
    }
}

} // verus!
