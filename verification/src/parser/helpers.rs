//! Positions in the source: the map from byte offsets to lines and
//! columns, and the comment scrubber that keeps the layout of a source.
use vstd::prelude::*;

use crate::ast::LineInfo;
use crate::parser::span::Span;
use crate::text::{push_char, to_chars};

verus! {

/// The number of bytes of the UTF-8 encoding of `c`.
pub open spec fn char_width(c: char) -> int {
    let v = c as u32;
    if v <= 0x7F {
        1
    } else if v <= 0x7FF {
        2
    } else if v <= 0xFFFF {
        3
    } else {
        4
    }
}

/// The number of bytes of the UTF-8 encoding of `s`.
pub open spec fn byte_len(s: Seq<char>) -> int {
    vstd::utf8::encode_utf8(s).len() as int
}

/// A character adds its width to the encoding.
pub proof fn lemma_byte_len_push(s: Seq<char>, c: char)
    ensures
        byte_len(s.push(c)) == byte_len(s) + char_width(c),
    decreases s.len(),
{
    vstd::utf8::char_is_scalar(c);
    let e = Seq::<char>::empty();
    assert(vstd::utf8::encode_utf8(e) =~= Seq::<u8>::empty());
    if s.len() == 0 {
        assert(s.push(c) =~= seq![c]);
        assert(seq![c][0] == c);
        assert(seq![c].drop_first() =~= e);
        assert(vstd::utf8::encode_utf8(seq![c]) == vstd::utf8::encode_scalar(c as u32) + vstd::utf8::encode_utf8(e));
    } else {
        vstd::utf8::char_is_scalar(s[0]);
        assert(s.push(c)[0] == s[0]);
        assert(s.push(c).drop_first() =~= s.drop_first().push(c));
        lemma_byte_len_push(s.drop_first(), c);
        assert(vstd::utf8::encode_utf8(s.push(c)) == vstd::utf8::encode_scalar(s[0] as u32) + vstd::utf8::encode_utf8(
            s.drop_first().push(c),
        ));
        assert(vstd::utf8::encode_utf8(s) == vstd::utf8::encode_scalar(s[0] as u32) + vstd::utf8::encode_utf8(s.drop_first()));
    }
}

/// A prefix encodes to no more bytes than the whole.
pub proof fn lemma_byte_len_prefix(s: Seq<char>, i: int)
    requires
        0 <= i <= s.len(),
    ensures
        byte_len(s.take(i)) <= byte_len(s),
    decreases s.len() - i,
{
    if i < s.len() {
        lemma_byte_len_prefix(s, i + 1);
        assert(s.take(i + 1) =~= s.take(i).push(s[i]));
        lemma_byte_len_push(s.take(i), s[i]);
    } else {
        assert(s.take(i) =~= s);
    }
}

/// The byte offsets at which the lines of `s` start: 0, and one past every
/// newline.
pub open spec fn line_starts_of(s: Seq<char>) -> Seq<int>
    decreases s.len(),
{
    if s.len() == 0 {
        seq![0]
    } else {
        let r = line_starts_of(s.drop_last());
        if s.last() == '\n' {
            r.push(byte_len(s))
        } else {
            r
        }
    }
}

/// Line starts begin at 0, strictly increase, and never pass the end.
pub open spec fn starts_wf(starts: Seq<int>, len: int) -> bool {
    &&& starts.len() >= 1
    &&& starts[0] == 0
    &&& forall|a: int, b: int| 0 <= a < b < starts.len() ==> #[trigger] starts[a] < #[trigger] starts[b]
    &&& forall|a: int| 0 <= a < starts.len() ==> #[trigger] starts[a] <= len
}

pub proof fn lemma_line_starts_wf(s: Seq<char>)
    ensures
        starts_wf(line_starts_of(s), byte_len(s)),
    decreases s.len(),
{
    if s.len() > 0 {
        lemma_line_starts_wf(s.drop_last());
        assert(s.drop_last().push(s.last()) =~= s);
        lemma_byte_len_push(s.drop_last(), s.last());
    }
}

/// A mapping between byte offsets and (line, column) positions.
#[derive(Debug, Clone)]
pub struct LineMap {
    line_starts: Vec<usize>,
}

impl LineMap {
    /// The offsets at which the mapped source's lines start.
    pub closed spec fn starts(&self) -> Seq<int> {
        Seq::new(self.line_starts@.len(), |i: int| self.line_starts@[i] as int)
    }

    /// The map is well formed for some source of length at most `usize::MAX`.
    pub closed spec fn wf(&self) -> bool {
        exists|len: int| len <= usize::MAX && starts_wf(self.starts(), len)
    }

    /// Maps `source`: one entry per line, at the byte offset where it starts.
    pub fn new(source: &str) -> (map: LineMap)
        ensures
            map.wf(),
            map.starts() == line_starts_of(source@),
    {
        let chars = to_chars(source);
        let bytes = source.as_bytes();
        let total = bytes.len();
        let mut starts: Vec<usize> = Vec::new();
        starts.push(0);
        let mut b: usize = 0;
        let mut i: usize = 0;
        while i < chars.len()
            invariant
                chars@ == source@,
                i <= chars@.len(),
                total == byte_len(source@),
                b == byte_len(source@.take(i as int)),
                Seq::new(starts@.len(), |k: int| starts@[k] as int) == line_starts_of(source@.take(i as int)),
            decreases chars.len() - i,
        {
            proof {
                assert(source@.take(i + 1).drop_last() =~= source@.take(i as int));
                assert(source@.take(i + 1) =~= source@.take(i as int).push(source@[i as int]));
                lemma_byte_len_push(source@.take(i as int), source@[i as int]);
                lemma_byte_len_prefix(source@, i + 1);
            }
            let c = chars[i];
            let v = c as u32;
            let w: usize = if v <= 0x7F {
                1
            } else if v <= 0x7FF {
                2
            } else if v <= 0xFFFF {
                3
            } else {
                4
            };
            b = b + w;
            let ghost before = starts@;
            if c == '\n' {
                starts.push(b);
            }
            proof {
                assert(Seq::new(starts@.len(), |k: int| starts@[k] as int) =~= line_starts_of(source@.take(i + 1)));
            }
            i = i + 1;
        }
        proof {
            assert(source@.take(chars@.len() as int) =~= source@);
            lemma_line_starts_wf(source@);
        }
        let map = LineMap { line_starts: starts };
        assert(starts_wf(map.starts(), byte_len(source@)));
        map
    }

    /// The 1-based (line, column) of a byte offset: the line is the last
    /// one that starts at or before `offset`.
    pub fn line_col(&self, offset: usize) -> (lc: (usize, usize))
        requires
            self.wf(),
            offset < usize::MAX,
        ensures
            1 <= lc.0 <= self.starts().len(),
            self.starts()[lc.0 - 1] <= offset,
            lc.0 < self.starts().len() ==> offset < self.starts()[lc.0 as int],
            lc.1 == offset - self.starts()[lc.0 - 1] + 1,
    {
        let ghost st = self.starts();
        let n = self.line_starts.len();
        // Find the last start that is <= offset: starts[lo] <= offset < starts[hi] (hi may be n).
        let mut lo: usize = 0;
        let mut hi: usize = n;
        while lo + 1 < hi
            invariant
                st == self.starts(),
                self.wf(),
                n == st.len(),
                0 <= lo < hi <= n,
                st[lo as int] <= offset,
                hi < n ==> offset < st[hi as int],
            decreases hi - lo,
        {
            let mid = lo + (hi - lo) / 2;
            if self.line_starts[mid] <= offset {
                lo = mid;
            } else {
                hi = mid;
            }
        }
        let line_start = self.line_starts[lo];
        (lo + 1, offset - line_start + 1)
    }

    /// The position of the start of `span`.
    pub fn line_info(&self, span: Span) -> (info: Option<LineInfo>)
        requires
            self.wf(),
            span.start < usize::MAX,
        ensures
            info matches Some(i) && i.line >= 1 && i.column >= 1
                && self.starts()[i.line - 1] <= span.start
                && i.column == span.start - self.starts()[i.line - 1] + 1,
    {
        let (line, column) = self.line_col(span.start);
        Some(LineInfo::new(line, column))
    }
}

/// Attaches the position of `span` in the source that `map` describes.
pub fn attach_line_info(map: &LineMap, span: Span) -> (info: Option<LineInfo>)
    requires
        map.wf(),
        span.start < usize::MAX,
    ensures
        info matches Some(i) && i.line >= 1 && i.column >= 1,
{
    map.line_info(span)
}

/// Where the comment scrubber stands: in code, in a line comment, in a
/// block comment (remembering whether the previous character was `*`), or
/// in a rune literal (remembering whether the previous character was an
/// escaping `\`).
pub enum ScrubMode {
    Code,
    Line,
    Block(bool),
    Rune(bool),
}

/// The scrubbed rest of `s` from position `i` in mode `mode`: comments
/// become spaces, newlines stay, code and rune literals are copied.
pub open spec fn scrub_from(s: Seq<char>, i: int, mode: ScrubMode) -> Seq<char>
    decreases s.len() - i,
{
    if i < 0 || i >= s.len() {
        Seq::empty()
    } else {
        match mode {
            ScrubMode::Code => {
                if s[i] == '/' && i + 1 < s.len() && s[i + 1] == '/' {
                    seq![' ', ' '] + scrub_from(s, i + 2, ScrubMode::Line)
                } else if s[i] == '/' && i + 1 < s.len() && s[i + 1] == '*' {
                    seq![' ', ' '] + scrub_from(s, i + 2, ScrubMode::Block(false))
                } else if s[i] == '"' {
                    seq![s[i]] + scrub_from(s, i + 1, ScrubMode::Rune(false))
                } else {
                    seq![s[i]] + scrub_from(s, i + 1, ScrubMode::Code)
                }
            },
            ScrubMode::Rune(escaped) => {
                let next = if escaped {
                    ScrubMode::Rune(false)
                } else if s[i] == '\\' {
                    ScrubMode::Rune(true)
                } else if s[i] == '"' {
                    ScrubMode::Code
                } else {
                    ScrubMode::Rune(false)
                };
                seq![s[i]] + scrub_from(s, i + 1, next)
            },
            ScrubMode::Line => {
                if s[i] == '\n' {
                    seq!['\n'] + scrub_from(s, i + 1, ScrubMode::Code)
                } else {
                    blank(s[i]) + scrub_from(s, i + 1, ScrubMode::Line)
                }
            },
            ScrubMode::Block(prev) => {
                if prev && s[i] == '/' {
                    blank(s[i]) + scrub_from(s, i + 1, ScrubMode::Code)
                } else {
                    blank(s[i]) + scrub_from(s, i + 1, ScrubMode::Block(s[i] == '*'))
                }
            },
        }
    }
}

/// `n` spaces.
pub open spec fn space_run(n: nat) -> Seq<char>
    decreases n,
{
    if n == 0 {
        Seq::empty()
    } else {
        space_run((n - 1) as nat).push(' ')
    }
}

/// What a character inside a comment becomes: a newline stays, any other
/// character becomes as many spaces as its encoding has bytes.
pub open spec fn blank(c: char) -> Seq<char> {
    if c == '\n' {
        seq!['\n']
    } else {
        space_run(char_width(c) as nat)
    }
}

/// What [`scrub_comments_preserve_layout`] returns for `s`.
pub open spec fn scrubbed(s: Seq<char>) -> Seq<char> {
    scrub_from(s, 0, ScrubMode::Code)
}

/// The encoding of two texts one after the other is their encodings one
/// after the other.
pub proof fn lemma_byte_len_concat(a: Seq<char>, b: Seq<char>)
    ensures
        byte_len(a + b) == byte_len(a) + byte_len(b),
    decreases b.len(),
{
    if b.len() == 0 {
        assert(a + b =~= a);
        assert(vstd::utf8::encode_utf8(b) =~= Seq::<u8>::empty());
    } else {
        lemma_byte_len_concat(a, b.drop_last());
        assert(a + b =~= (a + b.drop_last()).push(b.last()));
        assert(b =~= b.drop_last().push(b.last()));
        lemma_byte_len_push(a + b.drop_last(), b.last());
        lemma_byte_len_push(b.drop_last(), b.last());
    }
}

proof fn lemma_space_run_len(n: nat)
    ensures
        byte_len(space_run(n)) == n,
    decreases n,
{
    if n == 0 {
        assert(vstd::utf8::encode_utf8(space_run(0)) =~= Seq::<u8>::empty());
    } else {
        lemma_space_run_len((n - 1) as nat);
        lemma_byte_len_push(space_run((n - 1) as nat), ' ');
    }
}

proof fn lemma_one_char_len(c: char)
    ensures
        byte_len(seq![c]) == char_width(c),
        byte_len(blank(c)) == char_width(c),
{
    assert(seq![c] =~= Seq::<char>::empty().push(c));
    assert(vstd::utf8::encode_utf8(Seq::<char>::empty()) =~= Seq::<u8>::empty());
    lemma_byte_len_push(Seq::<char>::empty(), c);
    if c != '\n' {
        lemma_space_run_len(char_width(c) as nat);
    }
}

proof fn lemma_scrub_bytes(s: Seq<char>, i: int, mode: ScrubMode)
    requires
        0 <= i <= s.len(),
    ensures
        byte_len(scrub_from(s, i, mode)) == byte_len(s.subrange(i, s.len() as int)),
    decreases s.len() - i,
{
    let rest = s.subrange(i, s.len() as int);
    if i == s.len() {
        assert(rest =~= Seq::<char>::empty());
    } else {
        let r = scrub_from(s, i, mode);
        assert(rest =~= seq![s[i]] + s.subrange(i + 1, s.len() as int));
        lemma_byte_len_concat(seq![s[i]], s.subrange(i + 1, s.len() as int));
        lemma_one_char_len(s[i]);
        let two = i + 1 < s.len() && s[i] == '/' && (s[i + 1] == '/' || s[i + 1] == '*');
        if mode is Code && two {
            let next = if s[i + 1] == '/' { ScrubMode::Line } else { ScrubMode::Block(false) };
            assert(r == seq![' ', ' '] + scrub_from(s, i + 2, next));
            lemma_scrub_bytes(s, i + 2, next);
            assert(s.subrange(i + 1, s.len() as int) =~= seq![s[i + 1]] + s.subrange(i + 2, s.len() as int));
            lemma_byte_len_concat(seq![s[i + 1]], s.subrange(i + 2, s.len() as int));
            lemma_one_char_len(s[i + 1]);
            assert(seq![' ', ' '] =~= seq![' '] + seq![' ']);
            lemma_one_char_len(' ');
            lemma_byte_len_concat(seq![' '], seq![' ']);
            lemma_byte_len_concat(seq![' ', ' '], scrub_from(s, i + 2, next));
        } else {
            let (head, next) = match mode {
                ScrubMode::Code => (seq![s[i]], if s[i] == '"' { ScrubMode::Rune(false) } else { ScrubMode::Code }),
                ScrubMode::Rune(escaped) => (seq![s[i]], if escaped {
                    ScrubMode::Rune(false)
                } else if s[i] == '\\' {
                    ScrubMode::Rune(true)
                } else if s[i] == '"' {
                    ScrubMode::Code
                } else {
                    ScrubMode::Rune(false)
                }),
                ScrubMode::Line => if s[i] == '\n' {
                    (seq!['\n'], ScrubMode::Code)
                } else {
                    (blank(s[i]), ScrubMode::Line)
                },
                ScrubMode::Block(prev) => (blank(s[i]), if prev && s[i] == '/' {
                    ScrubMode::Code
                } else {
                    ScrubMode::Block(s[i] == '*')
                }),
            };
            assert(r == head + scrub_from(s, i + 1, next));
            lemma_scrub_bytes(s, i + 1, next);
            lemma_byte_len_concat(head, scrub_from(s, i + 1, next));
        }
    }
}

/// Scrubbing keeps the layout in bytes: the result encodes to as many
/// bytes as the source, so a byte span of the source addresses the same
/// place in the result.
pub proof fn lemma_scrub_preserves_layout(s: Seq<char>)
    ensures
        byte_len(scrubbed(s)) == byte_len(s),
{
    lemma_scrub_bytes(s, 0, ScrubMode::Code);
    assert(s.subrange(0, s.len() as int) =~= s);
}

/// Appends what `c` becomes inside a comment (see [`blank`]).
fn push_blank(out: &mut String, c: char)
    ensures
        final(out)@ == old(out)@ + blank(c),
{
    if c == '\n' {
        push_char(out, '\n');
        assert(old(out)@.push('\n') =~= old(out)@ + seq!['\n']);
    } else {
        let v = c as u32;
        let w: usize = if v <= 0x7F {
            1
        } else if v <= 0x7FF {
            2
        } else if v <= 0xFFFF {
            3
        } else {
            4
        };
        let mut k: usize = 0;
        while k < w
            invariant
                k <= w,
                w == char_width(c),
                c != '\n',
                out@ == old(out)@ + space_run(k as nat),
            decreases w - k,
        {
            push_char(out, ' ');
            assert(old(out)@ + space_run((k + 1) as nat) =~= (old(out)@ + space_run(k as nat)).push(' '));
            k = k + 1;
        }
    }
}

/// Replaces comments with whitespace of equal length in bytes (a newline
/// stays, any other character of a comment becomes as many spaces as it
/// has bytes), so that byte spans in the result address the source.
pub fn scrub_comments_preserve_layout(source: &str) -> (result: String)
    ensures
        result@ == scrubbed(source@),
        byte_len(result@) == byte_len(source@),
{
    proof {
        lemma_scrub_preserves_layout(source@);
    }
    let s = to_chars(source);
    let ghost sv = s@;
    let n = s.len();
    let mut result = String::new();
    let mut i: usize = 0;
    let mut mode = ScrubMode::Code;
    while i < n
        invariant
            sv == s@,
            sv == source@,
            n == sv.len(),
            i <= n,
            result@ + scrub_from(sv, i as int, mode) == scrubbed(sv),
        decreases n - i,
    {
        let c = s[i];
        let ghost before = result@;
        match mode {
            ScrubMode::Code => {
                if c == '/' && i + 1 < n && s[i + 1] == '/' {
                    push_char(&mut result, ' ');
                    push_char(&mut result, ' ');
                    assert(result@ + scrub_from(sv, i + 2, ScrubMode::Line) =~= before + scrub_from(sv, i as int, ScrubMode::Code));
                    mode = ScrubMode::Line;
                    i = i + 2;
                } else if c == '/' && i + 1 < n && s[i + 1] == '*' {
                    push_char(&mut result, ' ');
                    push_char(&mut result, ' ');
                    assert(result@ + scrub_from(sv, i + 2, ScrubMode::Block(false)) =~= before + scrub_from(sv, i as int, ScrubMode::Code));
                    mode = ScrubMode::Block(false);
                    i = i + 2;
                } else if c == '"' {
                    push_char(&mut result, c);
                    assert(result@ + scrub_from(sv, i + 1, ScrubMode::Rune(false)) =~= before + scrub_from(sv, i as int, ScrubMode::Code));
                    mode = ScrubMode::Rune(false);
                    i = i + 1;
                } else {
                    push_char(&mut result, c);
                    assert(result@ + scrub_from(sv, i + 1, ScrubMode::Code) =~= before + scrub_from(sv, i as int, ScrubMode::Code));
                    i = i + 1;
                }
            },
            ScrubMode::Rune(escaped) => {
                push_char(&mut result, c);
                let next = if escaped {
                    ScrubMode::Rune(false)
                } else if c == '\\' {
                    ScrubMode::Rune(true)
                } else if c == '"' {
                    ScrubMode::Code
                } else {
                    ScrubMode::Rune(false)
                };
                assert(c == sv[i as int]);
                assert(result@ + scrub_from(sv, i + 1, next) =~= before + scrub_from(sv, i as int, ScrubMode::Rune(escaped)));
                mode = next;
                i = i + 1;
            },
            ScrubMode::Line => {
                if c == '\n' {
                    push_char(&mut result, '\n');
                    assert(result@ + scrub_from(sv, i + 1, ScrubMode::Code) =~= before + scrub_from(sv, i as int, ScrubMode::Line));
                    mode = ScrubMode::Code;
                } else {
                    push_blank(&mut result, c);
                    assert(c == sv[i as int]);
                    assert(result@ + scrub_from(sv, i + 1, ScrubMode::Line) =~= before + scrub_from(sv, i as int, ScrubMode::Line));
                }
                i = i + 1;
            },
            ScrubMode::Block(prev) => {
                push_blank(&mut result, c);
                assert(c == sv[i as int]);
                if prev && c == '/' {
                    assert(result@ + scrub_from(sv, i + 1, ScrubMode::Code) =~= before + scrub_from(sv, i as int, ScrubMode::Block(prev)));
                    mode = ScrubMode::Code;
                } else {
                    assert(scrub_from(sv, i as int, ScrubMode::Block(prev)) == blank(c) + scrub_from(sv, i + 1, ScrubMode::Block(c == '*')));
                    assert(result@ + scrub_from(sv, i + 1, ScrubMode::Block(c == '*')) =~= before + scrub_from(sv, i as int, ScrubMode::Block(prev)));
                    mode = ScrubMode::Block(c == '*');
                }
                i = i + 1;
            },
        }
    }
    assert(result@ =~= scrubbed(sv));
    result
}

} // verus!
