//! The text that shows a runtime error beside the line of the script
//! where it arose.
use vstd::prelude::*;

use crate::ast::LineInfo;
use crate::text::{int_text, owned, push_char, push_str, to_chars, usize_to_string};

verus! {

/// The position of the first line break of `s`, or its length.
pub open spec fn line_end(s: Seq<char>) -> nat
    decreases s.len(),
{
    if s.len() == 0 {
        0
    } else if s[0] == '\n' {
        0
    } else {
        1 + line_end(s.skip(1))
    }
}

/// `s` without one carriage return at its end.
pub open spec fn strip_cr(s: Seq<char>) -> Seq<char> {
    if s.len() > 0 && s.last() == '\r' {
        s.drop_last()
    } else {
        s
    }
}

/// The `n`-th line of `s` (from 0), as `str::lines` gives them: split at
/// line breaks, a carriage return before a break dropped, no empty line
/// after a final break.
pub open spec fn nth_line(s: Seq<char>, n: nat) -> Option<Seq<char>>
    decreases s.len(),
{
    if s.len() == 0 {
        None
    } else {
        let e = line_end(s);
        if n == 0 {
            Some(strip_cr(s.take(e as int)))
        } else if e >= s.len() {
            None
        } else {
            nth_line(s.skip(e as int + 1), (n - 1) as nat)
        }
    }
}

proof fn lemma_line_end(s: Seq<char>)
    ensures
        line_end(s) <= s.len(),
        line_end(s) < s.len() ==> s[line_end(s) as int] == '\n',
        forall|k: int| 0 <= k < line_end(s) ==> s[k] != '\n',
    decreases s.len(),
{
    if s.len() > 0 && s[0] != '\n' {
        lemma_line_end(s.skip(1));
        assert forall|k: int| 0 <= k < line_end(s) implies s[k] != '\n' by {
            if k > 0 {
                assert(s.skip(1)[k - 1] == s[k]);
            }
        }
    }
}

proof fn lemma_line_end_at(s: Seq<char>, e: int)
    requires
        0 <= e <= s.len(),
        e < s.len() ==> s[e] == '\n',
        forall|k: int| 0 <= k < e ==> s[k] != '\n',
    ensures
        line_end(s) == e,
    decreases s.len(),
{
    if s.len() > 0 && e > 0 {
        assert forall|k: int| 0 <= k < e - 1 implies s.skip(1)[k] != '\n' by {
            assert(s.skip(1)[k] == s[k + 1]);
        }
        lemma_line_end_at(s.skip(1), e - 1);
    }
}

/// The `n`-th line of `script` (from 0), if it has one.
pub fn source_line(script: &str, n: usize) -> (r: Option<String>)
    ensures
        match r {
            Some(l) => nth_line(script@, n as nat) == Some(l@),
            None => nth_line(script@, n as nat) is None,
        },
{
    let chars = to_chars(script);
    let len = chars.len();
    let mut pos: usize = 0;
    let mut k: usize = 0;
    assert(script@.skip(0) =~= script@);
    loop
        invariant
            chars@ == script@,
            len == chars@.len(),
            pos <= len,
            k <= n,
            nth_line(script@, n as nat) == nth_line(script@.skip(pos as int), (n - k) as nat),
        decreases len - pos, n - k,
    {
        let ghost rest = script@.skip(pos as int);
        if pos == len {
            return None;
        }
        let mut e: usize = pos;
        while e < len && chars[e] != '\n'
            invariant
                chars@ == script@,
                len == chars@.len(),
                pos <= e <= len,
                forall|j: int| pos <= j < e ==> chars@[j] != '\n',
            decreases len - e,
        {
            e = e + 1;
        }
        proof {
            lemma_line_end_at(rest, e - pos);
        }
        if k == n {
            let mut line = String::new();
            let mut end = e;
            if end > pos && chars[end - 1] == '\r' {
                end = end - 1;
            }
            let mut j: usize = pos;
            while j < end
                invariant
                    chars@ == script@,
                    len == chars@.len(),
                    pos <= j <= end <= len,
                    line@ == script@.subrange(pos as int, j as int),
                decreases end - j,
            {
                push_char(&mut line, chars[j]);
                assert(script@.subrange(pos as int, j + 1) =~= script@.subrange(pos as int, j as int).push(script@[j as int]));
                j = j + 1;
            }
            proof {
                let taken = rest.take((e - pos) as int);
                if e > pos && script@[e - 1] == '\r' {
                    assert(strip_cr(taken) =~= script@.subrange(pos as int, end as int));
                } else {
                    assert(strip_cr(taken) =~= script@.subrange(pos as int, end as int));
                }
            }
            return Some(line);
        }
        if e == len {
            return None;
        }
        proof {
            assert(rest.skip((e - pos) + 1) =~= script@.skip(e + 1));
        }
        pos = e + 1;
        k = k + 1;
    }
}

/// `n` spaces.
pub open spec fn spaces(n: nat) -> Seq<char> {
    Seq::new(n, |i: int| ' ')
}

/// The text that shows `message` beside the line it arose at: a heading
/// with the line and column, the line itself, and a caret under the
/// column. Without a position, or with a line the script does not have,
/// only `Error: message`. Each line ends with a line break.
pub open spec fn error_with_source_text(script: Seq<char>, line_info: Option<LineInfo>, message: Seq<char>) -> Seq<char> {
    match line_info {
        Some(info) => if info.line >= 1 && nth_line(script, (info.line - 1) as nat) is Some {
            "Error at line "@ + int_text(info.line as int) + ", column "@ + int_text(info.column as int) + ": "@ + message
                + "\n  "@ + nth_line(script, (info.line - 1) as nat).unwrap() + "\n  "@ + spaces(
                if info.column >= 1 { (info.column - 1) as nat } else { 0 },
            ) + "^\n"@
        } else {
            "Error: "@ + message + "\n"@
        },
        None => "Error: "@ + message + "\n"@,
    }
}

/// The text that shows a runtime error beside its line of the script.
pub fn format_error_with_source(script: &str, line_info: Option<LineInfo>, message: &str) -> (out: String)
    ensures
        out@ == error_with_source_text(script@, line_info, message@),
{
    let plain = |message: &str| -> (out: String)
        ensures
            out@ == "Error: "@ + message@ + "\n"@,
        {
            let mut out = owned("Error: ");
            push_str(&mut out, message);
            push_str(&mut out, "\n");
            out
        };
    match line_info {
        Some(info) => {
            if info.line == 0 {
                return plain(message);
            }
            match source_line(script, info.line - 1) {
                Some(text) => {
                    let mut out = owned("Error at line ");
                    push_str(&mut out, usize_to_string(info.line).as_str());
                    push_str(&mut out, ", column ");
                    push_str(&mut out, usize_to_string(info.column).as_str());
                    push_str(&mut out, ": ");
                    push_str(&mut out, message);
                    push_str(&mut out, "\n  ");
                    push_str(&mut out, text.as_str());
                    push_str(&mut out, "\n  ");
                    let n = if info.column >= 1 { info.column - 1 } else { 0 };
                    let ghost before = out@;
                    let mut i: usize = 0;
                    while i < n
                        invariant
                            i <= n,
                            out@ == before + spaces(i as nat),
                        decreases n - i,
                    {
                        push_char(&mut out, ' ');
                        assert(spaces((i + 1) as nat) =~= spaces(i as nat).push(' '));
                        i = i + 1;
                    }
                    push_str(&mut out, "^\n");
                    out
                },
                None => plain(message),
            }
        },
        None => plain(message),
    }
}

} // verus!
