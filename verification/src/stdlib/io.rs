//! `unveil` and `summon`: the text a value prints as, and the calls that
//! write it out and read a line back.
use vstd::prelude::*;

use crate::ast::{LineInfo, Type, TypeV};
use crate::env::{
    entries_view, lemma_entries_view_len, lemma_values_view_len, value_view, values_view, AetherOps, CallArg,
    IoBridge, Value, ValueV,
};
use crate::eval::result::{EvalError, EvalResult, EvalResultV};
use crate::eval::values::{is_invalid, is_type_error};
use crate::text::{int_text, join, owned, push_char, push_str};

verus! {

broadcast use vstd::std_specs::vec::axiom_vec_index_decreases, vstd::std_specs::vec::axiom_vec_decreases_to_view;

/// `s` with every `\n` escape (a backslash, then `n`) turned into a line
/// break, scanning from the left.
pub open spec fn unescape_newlines(s: Seq<char>) -> Seq<char>
    decreases s.len(),
{
    if s.len() == 0 {
        s
    } else if s.len() >= 2 && s[0] == '\\' && s[1] == 'n' {
        seq!['\n'] + unescape_newlines(s.skip(2))
    } else {
        seq![s[0]] + unescape_newlines(s.skip(1))
    }
}

/// The name a type is written with.
pub open spec fn type_text(t: TypeV) -> Seq<char> {
    match t {
        TypeV::Arcana => "arcana"@,
        TypeV::Aether => "aether"@,
        TypeV::Rune => "rune"@,
        TypeV::Omen => "omen"@,
        TypeV::Abyss => "abyss"@,
        TypeV::Scroll => "scroll"@,
        TypeV::Lexicon => "lexicon"@,
        TypeV::Materia => "materia"@,
        TypeV::Glyph => "glyph"@,
        TypeV::Artifact(n) => n,
        TypeV::Spectrum(n) => n,
    }
}

/// Whether a value holds no aether anywhere (the text of an aether value
/// is the host's).
pub open spec fn aether_free(v: ValueV) -> bool
    decreases v, 1nat,
{
    match v {
        ValueV::Aether(_) => false,
        ValueV::Scroll(items) => items_free(items),
        ValueV::Lexicon(entries) => entries_free(entries),
        ValueV::Artifact(_, fields) => entries_free(fields),
        _ => true,
    }
}

pub open spec fn items_free(s: Seq<ValueV>) -> bool
    decreases s, 0nat,
{
    if s.len() == 0 {
        true
    } else {
        items_free(s.drop_last()) && aether_free(s.last())
    }
}

pub open spec fn entries_free(s: Seq<(Seq<char>, ValueV)>) -> bool
    decreases s, 0nat,
{
    if s.len() == 0 {
        true
    } else {
        entries_free(s.drop_last()) && aether_free(s.last().1)
    }
}

/// The text `unveil` prints for a value: omens as `boon`/`hex`, arcana in
/// decimal, runes with `\n` escapes expanded, abyss as nothing, scrolls as
/// `[a, b]`, lexicons as `{"k": v}`, artifacts as `Name { f: v }`, glyphs
/// by their type's name.
pub open spec fn value_text(v: ValueV) -> Seq<char>
    decreases v, 1nat,
{
    match v {
        ValueV::Omen(b) => if b { "boon"@ } else { "hex"@ },
        ValueV::Arcana(n) => int_text(n as int),
        ValueV::Aether(_) => Seq::empty(),
        ValueV::Rune(s) => unescape_newlines(s),
        ValueV::Abyss => Seq::empty(),
        ValueV::Scroll(items) => "["@ + join(items_text(items), ", "@) + "]"@,
        ValueV::Lexicon(entries) => "{"@ + join(entries_text(entries, "\""@, "\": "@), ", "@) + "}"@,
        ValueV::Artifact(name, fields) => name + " { "@ + join(entries_text(fields, ""@, ": "@), ", "@) + " }"@,
        ValueV::Glyph(t) => type_text(t),
    }
}

pub open spec fn items_text(s: Seq<ValueV>) -> Seq<Seq<char>>
    decreases s, 0nat,
{
    if s.len() == 0 {
        Seq::empty()
    } else {
        items_text(s.drop_last()).push(value_text(s.last()))
    }
}

/// Each entry as its key between `open` and `close`, then its value.
pub open spec fn entries_text(s: Seq<(Seq<char>, ValueV)>, open: Seq<char>, close: Seq<char>) -> Seq<Seq<char>>
    decreases s, 0nat,
{
    if s.len() == 0 {
        Seq::empty()
    } else {
        entries_text(s.drop_last(), open, close).push(open + s.last().0 + close + value_text(s.last().1))
    }
}

/// Expands the `\n` escapes of `s`.
pub fn unescape(s: &str) -> (out: String)
    ensures
        out@ == unescape_newlines(s@),
{
    let chars = crate::text::to_chars(s);
    let mut out = String::new();
    let mut i: usize = 0;
    assert(chars@.skip(0) =~= chars@);
    while i < chars.len()
        invariant
            chars@ == s@,
            i <= chars@.len(),
            out@ + unescape_newlines(chars@.skip(i as int)) == unescape_newlines(s@),
        decreases chars.len() - i,
    {
        let ghost rest = chars@.skip(i as int);
        if i + 1 < chars.len() && chars[i] == '\\' && chars[i + 1] == 'n' {
            push_char(&mut out, '\n');
            proof {
                assert(rest.skip(2) =~= chars@.skip(i + 2));
            }
            i = i + 2;
        } else {
            push_char(&mut out, chars[i]);
            proof {
                assert(rest.skip(1) =~= chars@.skip(i + 1));
            }
            i = i + 1;
        }
    }
    proof {
        assert(chars@.skip(i as int) =~= Seq::<char>::empty());
    }
    out
}

/// The name a type is written with.
pub fn format_type(t: &Type) -> (s: String)
    ensures
        s@ == type_text(t@),
{
    match t {
        Type::Arcana => owned("arcana"),
        Type::Aether => owned("aether"),
        Type::Rune => owned("rune"),
        Type::Omen => owned("omen"),
        Type::Abyss => owned("abyss"),
        Type::Scroll => owned("scroll"),
        Type::Lexicon => owned("lexicon"),
        Type::Materia => owned("materia"),
        Type::Glyph => owned("glyph"),
        Type::Artifact(n) => n.clone(),
        Type::Spectrum(n) => n.clone(),
    }
}

/// The text `unveil` prints for a value; aether values are written by the
/// host.
pub fn format_value<M: AetherOps>(value: &Value, math: &M) -> (s: String)
    ensures
        aether_free(value@) ==> s@ == value_text(value@),
        value matches Value::Aether(bits) ==> call_ensures(M::to_text, (math, *bits), s),
    decreases value, 1nat,
{
    match value {
        Value::Omen(b) => {
            assert(value@ == ValueV::Omen(*b));
            if *b { owned("boon") } else { owned("hex") }
        },
        Value::Arcana(n) => {
            assert(value@ == ValueV::Arcana(*n));
            crate::text::int_to_string(*n)
        },
        Value::Aether(bits) => math.to_text(*bits),
        Value::Rune(s) => unescape(s.as_str()),
        Value::Abyss => String::new(),
        Value::Scroll(items) => {
            let mut out = owned("[");
            format_items(items, math, &mut out);
            push_str(&mut out, "]");
            out
        },
        Value::Lexicon(entries) => {
            let mut out = owned("{");
            format_entries(entries, math, "\"", "\": ", &mut out);
            push_str(&mut out, "}");
            out
        },
        Value::Artifact(a) => {
            let mut out = a.artifact.clone();
            push_str(&mut out, " { ");
            format_entries(&a.fields, math, "", ": ", &mut out);
            push_str(&mut out, " }");
            out
        },
        Value::Glyph(t) => format_type(t),
    }
}

/// Appends the texts of `items`, separated by `, `.
fn format_items<M: AetherOps>(items: &Vec<Value>, math: &M, out: &mut String)
    ensures
        items_free(values_view(items@)) ==> final(out)@ == old(out)@ + join(items_text(values_view(items@)), ", "@),
    decreases items, 0nat,
{
    let ghost start = old(out)@;
    let ghost vs = values_view(items@);
    proof {
        lemma_values_view_len(items@);
    }
    let mut i: usize = 0;
    while i < items.len()
        invariant
            vs == values_view(items@),
            vs.len() == items@.len(),
            forall|k: int| 0 <= k < items@.len() ==> #[trigger] vs[k] == value_view(items@[k]),
            i <= items@.len(),
            items_free(vs) ==> out@ == start + join(items_text(vs.take(i as int)), ", "@),
        decreases items@.len() - i,
    {
        if i > 0 {
            push_str(out, ", ");
        }
        assert(decreases_to!(items => items@[i as int]));
        let t = format_value(&items[i], math);
        push_str(out, t.as_str());
        proof {
            assert(vs.take(i + 1).drop_last() =~= vs.take(i as int));
            if items_free(vs) {
                lemma_items_free_take(vs, i as int);
                assert(items_text(vs.take(i + 1)) == items_text(vs.take(i as int)).push(value_text(vs[i as int])));
                lemma_join_push(items_text(vs.take(i as int)), value_text(vs[i as int]), ", "@);
                assert(items_text(vs.take(i as int)).len() == i) by {
                    lemma_items_text_len(vs.take(i as int));
                }
            }
        }
        i = i + 1;
    }
    proof {
        assert(vs.take(items@.len() as int) =~= vs);
    }
}

/// Appends the texts of `entries`, each key between `open` and `close`,
/// separated by `, `.
fn format_entries<M: AetherOps>(entries: &Vec<(String, Value)>, math: &M, open: &str, close: &str, out: &mut String)
    ensures
        entries_free(entries_view(entries@)) ==> final(out)@ == old(out)@ + join(
            entries_text(entries_view(entries@), open@, close@),
            ", "@,
        ),
    decreases entries, 0nat,
{
    let ghost start = old(out)@;
    let ghost es = entries_view(entries@);
    proof {
        lemma_entries_view_len(entries@);
    }
    let mut i: usize = 0;
    while i < entries.len()
        invariant
            es == entries_view(entries@),
            es.len() == entries@.len(),
            forall|k: int| 0 <= k < entries@.len() ==> #[trigger] es[k] == (entries@[k].0@, value_view(entries@[k].1)),
            i <= entries@.len(),
            entries_free(es) ==> out@ == start + join(entries_text(es.take(i as int), open@, close@), ", "@),
        decreases entries@.len() - i,
    {
        if i > 0 {
            push_str(out, ", ");
        }
        push_str(out, open);
        push_str(out, entries[i].0.as_str());
        push_str(out, close);
        assert(decreases_to!(entries => entries@[i as int].1));
        let t = format_value(&entries[i].1, math);
        push_str(out, t.as_str());
        proof {
            assert(es.take(i + 1).drop_last() =~= es.take(i as int));
            if entries_free(es) {
                lemma_entries_free_take(es, i as int);
                let piece = open@ + es[i as int].0 + close@ + value_text(es[i as int].1);
                assert(entries_text(es.take(i + 1), open@, close@) == entries_text(es.take(i as int), open@, close@).push(piece));
                lemma_join_push(entries_text(es.take(i as int), open@, close@), piece, ", "@);
                lemma_entries_text_len(es.take(i as int), open@, close@);
            }
        }
        i = i + 1;
    }
    proof {
        assert(es.take(entries@.len() as int) =~= es);
    }
}

proof fn lemma_items_text_len(s: Seq<ValueV>)
    ensures
        items_text(s).len() == s.len(),
    decreases s.len(),
{
    if s.len() > 0 {
        lemma_items_text_len(s.drop_last());
    }
}

proof fn lemma_entries_text_len(s: Seq<(Seq<char>, ValueV)>, open: Seq<char>, close: Seq<char>)
    ensures
        entries_text(s, open, close).len() == s.len(),
    decreases s.len(),
{
    if s.len() > 0 {
        lemma_entries_text_len(s.drop_last(), open, close);
    }
}

/// Joining one more part adds the separator (when there were parts
/// before) and the part.
proof fn lemma_join_push(parts: Seq<Seq<char>>, p: Seq<char>, sep: Seq<char>)
    ensures
        join(parts.push(p), sep) == (if parts.len() == 0 { p } else { join(parts, sep) + sep + p }),
{
    assert(parts.push(p).drop_last() =~= parts);
    if parts.len() == 0 {
        assert(parts.push(p)[0] == p);
    }
}

/// Every element of an aether-free sequence up to `i` is aether-free, and
/// so is the prefix.
pub proof fn lemma_items_free_take(s: Seq<ValueV>, i: int)
    requires
        items_free(s),
        0 <= i < s.len(),
    ensures
        aether_free(s[i]),
        items_free(s.take(i + 1)),
    decreases s.len(),
{
    if i < s.len() - 1 {
        lemma_items_free_take(s.drop_last(), i);
        assert(s.drop_last().take(i + 1) =~= s.take(i + 1));
        assert(s.drop_last()[i] == s[i]);
    } else {
        assert(s.take(i + 1) =~= s);
    }
}

pub proof fn lemma_entries_free_take(s: Seq<(Seq<char>, ValueV)>, i: int)
    requires
        entries_free(s),
        0 <= i < s.len(),
    ensures
        aether_free(s[i].1),
        entries_free(s.take(i + 1)),
    decreases s.len(),
{
    if i < s.len() - 1 {
        lemma_entries_free_take(s.drop_last(), i);
        assert(s.drop_last().take(i + 1) =~= s.take(i + 1));
        assert(s.drop_last()[i] == s[i]);
    } else {
        assert(s.take(i + 1) =~= s);
    }
}

/// The text of a call argument; a control-flow signal cannot be printed.
pub fn format_eval_result<M: AetherOps>(value: &EvalResult, math: &M, line_info: &Option<LineInfo>) -> (r: Result<String, EvalError>)
    ensures
        match *value {
            EvalResult::Data(v) => r matches Ok(s) && (aether_free(v@) ==> s@ == value_text(v@)) && (v matches Value::Aether(
                bits,
            ) ==> call_ensures(M::to_text, (math, bits), s)),
            EvalResult::Revealed(_) => is_invalid(r, "Cannot unveil a Revealed value (control flow construct)"@, *line_info),
            EvalResult::Resume(_) => is_invalid(r, "Cannot unveil a Resume value (control flow construct)"@, *line_info),
            EvalResult::Eject(_) => is_invalid(r, "Cannot unveil an Eject value (control flow construct)"@, *line_info),
        },
{
    match value {
        EvalResult::Data(v) => Ok(format_value(v, math)),
        EvalResult::Revealed(_) => Err(EvalError::InvalidOperation(owned("Cannot unveil a Revealed value (control flow construct)"), *line_info)),
        EvalResult::Resume(_) => Err(EvalError::InvalidOperation(owned("Cannot unveil a Resume value (control flow construct)"), *line_info)),
        EvalResult::Eject(_) => Err(EvalError::InvalidOperation(owned("Cannot unveil an Eject value (control flow construct)"), *line_info)),
    }
}

/// Whether every argument is a plain, aether-free value.
pub open spec fn args_plain(args: Seq<CallArg>) -> bool {
    forall|i: int| 0 <= i < args.len() ==> (#[trigger] args[i].value matches EvalResult::Data(v) && aether_free(v@))
}

/// The texts of the arguments, concatenated.
pub open spec fn args_text(args: Seq<CallArg>) -> Seq<char>
    decreases args.len(),
{
    if args.len() == 0 {
        Seq::empty()
    } else {
        args_text(args.drop_last()) + match args.last().value {
            EvalResult::Data(v) => value_text(v@),
            _ => Seq::empty(),
        }
    }
}

/// `t` is the text `unveil` prints for the argument `a`: a plain value's
/// text (see [`value_text`]), and for an aether value the host's decimal
/// text of it (`to_text`).
pub open spec fn arg_text<M: AetherOps>(math: &M, a: CallArg, t: Seq<char>) -> bool {
    match a.value {
        EvalResult::Data(v) => (aether_free(v@) ==> t == value_text(v@)) && (v matches Value::Aether(bits) ==> exists|s: String|
            s@ == t && call_ensures(M::to_text, (math, bits), s)),
        _ => false,
    }
}

/// `t` is the line `unveil` prints for `args`: the texts of the arguments
/// (see [`arg_text`]), one after the other, and a line break.
pub open spec fn unveil_line<M: AetherOps>(math: &M, args: Seq<CallArg>, t: Seq<char>) -> bool {
    exists|pieces: Seq<Seq<char>>| pieces.len() == args.len() && t == pieces.flatten() + seq!['\n'] && forall|k: int|
        0 <= k < pieces.len() ==> arg_text(math, #[trigger] args[k], pieces[k])
}

/// The line `unveil` prints: the texts of its arguments, one after the
/// other, and a line break. It needs at least one argument, and none may
/// be a control-flow signal.
pub fn unveil_text<M: AetherOps>(args: &Vec<CallArg>, math: &M, line: &Option<LineInfo>) -> (r: Result<String, EvalError>)
    ensures
        args@.len() == 0 ==> is_invalid(r, "unveil() requires at least 1 argument"@, *line),
        args@.len() > 0 && args_plain(args@) ==> (r matches Ok(s) && s@ == args_text(args@) + seq!['\n']),
        (exists|i: int| 0 <= i < args@.len() && !(#[trigger] args@[i].value is Data)) ==> r is Err,
        args@.len() > 0 && (forall|i: int| 0 <= i < args@.len() ==> (#[trigger] args@[i].value is Data)) ==> r is Ok,
        r matches Ok(s) ==> unveil_line(math, args@, s@),
{
    if args.len() == 0 {
        return Err(EvalError::InvalidOperation(owned("unveil() requires at least 1 argument"), *line));
    }
    let mut out = String::new();
    let ghost mut pieces: Seq<Seq<char>> = Seq::empty();
    let mut i: usize = 0;
    while i < args.len()
        invariant
            0 < args@.len(),
            i <= args@.len(),
            forall|k: int| 0 <= k < i ==> #[trigger] args@[k].value is Data,
            args_plain(args@) ==> out@ == args_text(args@.take(i as int)),
            pieces.len() == i,
            out@ == pieces.flatten(),
            forall|k: int| 0 <= k < pieces.len() ==> arg_text(math, #[trigger] args@[k], pieces[k]),
        decreases args@.len() - i,
    {
        let piece = format_eval_result(&args[i].value, math, line)?;
        push_str(&mut out, piece.as_str());
        proof {
            pieces.lemma_flatten_push(piece@);
            pieces = pieces.push(piece@);
            assert(arg_text(math, args@[i as int], piece@));
            assert(args@.take(i + 1).drop_last() =~= args@.take(i as int));
            assert(args@.take(i + 1).last() == args@[i as int]);
        }
        i = i + 1;
    }
    proof {
        assert(args@.take(args@.len() as int) =~= args@);
    }
    let ghost before = out@;
    push_char(&mut out, '\n');
    assert(out@ == pieces.flatten() + seq!['\n']);
    assert(unveil_line(math, args@, out@));
    Ok(out)
}

/// What `unveil` promises of its result (see [`native_unveil`]).
pub open spec fn unveil_post(args: Seq<CallArg>, line: Option<LineInfo>, r: Result<EvalResult, EvalError>) -> bool {
    &&& (args.len() == 0 ==> is_invalid(r, "unveil() requires at least 1 argument"@, line))
    &&& ((exists|i: int| 0 <= i < args.len() && !(#[trigger] args[i].value is Data)) ==> r is Err)
    &&& (r matches Ok(v) ==> v@ == EvalResultV::Data(ValueV::Abyss))
}

/// What `unveil` on `args` writes: where its arguments are plain values
/// and the write succeeds, the output `before` is followed by the line of
/// their texts.
pub open spec fn unveil_writes(args: Seq<CallArg>, before: Seq<char>, after: Seq<char>, r: Result<EvalResult, EvalError>) -> bool {
    (args.len() > 0 && args_plain(args) && r is Ok) ==> after == before + args_text(args) + seq!['\n']
}

/// `unveil(a, b, ...)`: writes the line of [`unveil_text`] to the output.
pub fn native_unveil<B: IoBridge, M: AetherOps>(io: &mut B, math: &M, args: Vec<CallArg>, line: Option<LineInfo>) -> (r: Result<EvalResult, EvalError>)
    ensures
        unveil_post(args@, line, r),
        old(io).models_output() ==> unveil_writes(args@, old(io).written(), final(io).written(), r),
        old(io).models_output() && r is Ok ==> exists|t: Seq<char>| unveil_line(math, args@, t) && final(io).written()
            == old(io).written() + t,
{
    let text = unveil_text(&args, math, &line)?;
    match io.write_str(text.as_str()) {
        Ok(()) => {
            proof {
                if old(io).models_output() && args@.len() > 0 && args_plain(args@) {
                    assert(io.written() =~= old(io).written() + args_text(args@) + seq!['\n']);
                }
                if old(io).models_output() {
                    assert(unveil_line(math, args@, text@));
                }
            }
            Ok(EvalResult::Data(Value::Abyss))
        },
        Err(msg) => Err(EvalError::InvalidOperation(msg, line)),
    }
}

/// What `summon` promises of its result (see [`native_summon`]).
pub open spec fn summon_post(args: Seq<CallArg>, line: Option<LineInfo>, r: Result<EvalResult, EvalError>) -> bool {
    &&& (args.len() != 1 ==> is_invalid(r, "summon() requires exactly 1 argument (prompt)"@, line))
    &&& (args.len() == 1 && !(args[0].value matches EvalResult::Data(Value::Rune(_))) ==> is_type_error(
                r,
                "summon() argument must be a Rune (prompt)"@,
                line,
            ))
    &&& (r matches Ok(v) ==> v@ matches EvalResultV::Data(ValueV::Rune(_)))
}

/// `summon(prompt)`: writes the prompt, flushes, and reads a line, which
/// comes back without surrounding whitespace. A failure of the host is an
/// error carrying the host's message.
pub fn native_summon<B: IoBridge>(io: &mut B, args: Vec<CallArg>, line: Option<LineInfo>) -> (r: Result<EvalResult, EvalError>)
    ensures
        summon_post(args@, line, r),
{
    if args.len() != 1 {
        return Err(EvalError::InvalidOperation(owned("summon() requires exactly 1 argument (prompt)"), line));
    }
    let prompt = match &args[0].value {
        EvalResult::Data(Value::Rune(r)) => r,
        _ => {
            return Err(EvalError::TypeError(owned("summon() argument must be a Rune (prompt)"), line));
        },
    };
    if let Err(msg) = io.write_str(prompt.as_str()) {
        return Err(EvalError::InvalidOperation(msg, line));
    }
    if let Err(msg) = io.flush() {
        return Err(EvalError::InvalidOperation(msg, line));
    }
    match io.read_line() {
        Ok(input) => Ok(EvalResult::Data(Value::Rune(crate::text::trim(input.as_str())))),
        Err(msg) => Err(EvalError::InvalidOperation(msg, line)),
    }
}

} // verus!
