//! Scrolls and lexicons: indexing, keyed lookup and update, and the
//! place an indexed assignment writes to.
use vstd::prelude::*;

use crate::ast::{LineInfo, AST};
use crate::env::{copy_value, entries_view, lemma_entries_view_len, lemma_values_view_len, value_view, values_view, Value, ValueV};
use crate::eval::result::{EvalError, EvalResult, EvalResultV};
use crate::eval::values::{is_invalid, is_type_error};
use crate::text::{int_text, int_to_string, owned, push_str, str_eq};

verus! {

broadcast use vstd::std_specs::vec::axiom_vec_index_decreases;

/// The position of the first entry under `key`.
pub open spec fn entry_index(s: Seq<(String, Value)>, key: Seq<char>) -> Option<int>
    decreases s.len(),
{
    if s.len() == 0 {
        None
    } else {
        match entry_index(s.drop_last(), key) {
            Some(i) => Some(i),
            None => if s.last().0@ == key { Some(s.len() - 1) } else { None },
        }
    }
}

/// The value stored under `key`.
pub open spec fn entry_get(s: Seq<(String, Value)>, key: Seq<char>) -> Option<ValueV> {
    match entry_index(s, key) {
        Some(i) => Some(value_view(s[i].1)),
        None => None,
    }
}

/// The entries after storing `v` under `k`: an existing entry is replaced
/// in place, otherwise the entry is added at the end.
pub open spec fn entry_insert(s: Seq<(String, Value)>, k: String, v: Value) -> Seq<(String, Value)> {
    match entry_index(s, k@) {
        Some(i) => s.update(i, (k, v)),
        None => s.push((k, v)),
    }
}

/// The entries after removing the first entry under `key`.
pub open spec fn entry_remove(s: Seq<(String, Value)>, key: Seq<char>) -> Seq<(String, Value)> {
    match entry_index(s, key) {
        Some(i) => s.remove(i),
        None => s,
    }
}

pub proof fn lemma_entry_index(s: Seq<(String, Value)>, key: Seq<char>)
    ensures
        entry_index(s, key) matches Some(i) ==> 0 <= i < s.len() && s[i].0@ == key
            && forall|j: int| 0 <= j < i ==> #[trigger] s[j].0@ != key,
        entry_index(s, key) is None ==> forall|j: int| 0 <= j < s.len() ==> #[trigger] s[j].0@ != key,
    decreases s.len(),
{
    if s.len() > 0 {
        lemma_entry_index(s.drop_last(), key);
        assert forall|j: int| 0 <= j < s.len() - 1 implies #[trigger] s[j] == s.drop_last()[j] by {}
    }
}

proof fn lemma_entry_index_first(s: Seq<(String, Value)>, key: Seq<char>, i: int)
    requires
        0 <= i < s.len(),
        s[i].0@ == key,
        forall|j: int| 0 <= j < i ==> #[trigger] s[j].0@ != key,
    ensures
        entry_index(s, key) == Some(i),
{
    lemma_entry_index(s, key);
    if let Some(k) = entry_index(s, key) {
        assert(k == i) by {
            if k < i {
                assert(s[k].0@ != key);
            }
        }
    }
}

/// The key positions agree on every key but those whose entries changed.
proof fn lemma_entry_index_same_keys(a: Seq<(String, Value)>, b: Seq<(String, Value)>, key: Seq<char>)
    requires
        a.len() == b.len(),
        forall|j: int| 0 <= j < a.len() ==> (#[trigger] a[j]).0@ == b[j].0@,
    ensures
        entry_index(a, key) == entry_index(b, key),
{
    lemma_entry_index(a, key);
    lemma_entry_index(b, key);
    if let Some(i) = entry_index(a, key) {
        assert forall|j: int| 0 <= j < i implies #[trigger] b[j].0@ != key by {
            assert(a[j].0@ != key);
        }
        lemma_entry_index_first(b, key, i);
    } else if let Some(i) = entry_index(b, key) {
        assert(a[i].0@ == key);
    }
}

/// The position of the first entry under `key`, on models.
pub open spec fn view_index(s: Seq<(Seq<char>, ValueV)>, key: Seq<char>) -> Option<int>
    decreases s.len(),
{
    if s.len() == 0 {
        None
    } else {
        match view_index(s.drop_last(), key) {
            Some(i) => Some(i),
            None => if s.last().0 == key { Some(s.len() - 1) } else { None },
        }
    }
}

/// The entries without the first one under `key`, on models.
pub open spec fn view_remove(s: Seq<(Seq<char>, ValueV)>, key: Seq<char>) -> Seq<(Seq<char>, ValueV)> {
    match view_index(s, key) {
        Some(i) => s.remove(i),
        None => s,
    }
}

/// The value under `key`, on models.
pub open spec fn view_get(s: Seq<(Seq<char>, ValueV)>, key: Seq<char>) -> Option<ValueV> {
    match view_index(s, key) {
        Some(i) => Some(s[i].1),
        None => None,
    }
}

pub proof fn lemma_view_index(s: Seq<(String, Value)>, key: Seq<char>)
    ensures
        view_index(entries_view(s), key) == entry_index(s, key),
    decreases s.len(),
{
    if s.len() > 0 {
        lemma_view_index(s.drop_last(), key);
        lemma_entries_view_len(s);
        assert(entries_view(s).drop_last() == entries_view(s.drop_last()));
        assert(entries_view(s).last() == (s.last().0@, value_view(s.last().1)));
    }
}

/// The entries after storing `v` under `key`, on models.
pub open spec fn view_insert(s: Seq<(Seq<char>, ValueV)>, key: Seq<char>, v: ValueV) -> Seq<(Seq<char>, ValueV)> {
    match view_index(s, key) {
        Some(i) => s.update(i, (key, v)),
        None => s.push((key, v)),
    }
}

/// No two entries share a key (as the map that a lexicon stands for).
pub open spec fn keys_distinct(es: Seq<(Seq<char>, ValueV)>) -> bool {
    forall|i: int, j: int| 0 <= i < j < es.len() ==> #[trigger] es[i].0 != #[trigger] es[j].0
}

proof fn lemma_view_index_facts(es: Seq<(Seq<char>, ValueV)>, key: Seq<char>)
    ensures
        view_index(es, key) is None ==> forall|i: int| 0 <= i < es.len() ==> #[trigger] es[i].0 != key,
        view_index(es, key) matches Some(i) ==> 0 <= i < es.len() && es[i].0 == key,
    decreases es.len(),
{
    if es.len() > 0 {
        lemma_view_index_facts(es.drop_last(), key);
        if view_index(es, key) is None {
            assert forall|i: int| 0 <= i < es.len() implies #[trigger] es[i].0 != key by {
                if i < es.len() - 1 {
                    assert(es.drop_last()[i] == es[i]);
                }
            }
        }
    }
}

/// Law: storing under a key and removing a key keep the keys of a lexicon
/// distinct.
pub proof fn law_lexicon_keys_stay_distinct(es: Seq<(Seq<char>, ValueV)>, key: Seq<char>, v: ValueV)
    requires
        keys_distinct(es),
    ensures
        keys_distinct(view_insert(es, key, v)),
        keys_distinct(view_remove(es, key)),
{
    lemma_view_index_facts(es, key);
    let ins = view_insert(es, key, v);
    assert forall|i: int, j: int| 0 <= i < j < ins.len() implies #[trigger] ins[i].0 != #[trigger] ins[j].0 by {
        if view_index(es, key) is None && j == es.len() {
            assert(ins[i] == es[i]);
        } else if view_index(es, key) is Some {
            let p = view_index(es, key).unwrap();
            if i == p {
                assert(ins[j] == es[j]);
                assert(es[p].0 != es[j].0);
            } else if j == p {
                assert(ins[i] == es[i]);
                assert(es[i].0 != es[p].0);
            } else {
                assert(ins[i] == es[i] && ins[j] == es[j]);
            }
        } else {
            assert(ins[i] == es[i] && ins[j] == es[j]);
        }
    }
    let rem = view_remove(es, key);
    assert forall|i: int, j: int| 0 <= i < j < rem.len() implies #[trigger] rem[i].0 != #[trigger] rem[j].0 by {
        if view_index(es, key) is Some {
            let p = view_index(es, key).unwrap();
            let a = if i < p { i } else { i + 1 };
            let b = if j < p { j } else { j + 1 };
            assert(rem[i] == es[a] && rem[j] == es[b]);
        } else {
            assert(rem[i] == es[i] && rem[j] == es[j]);
        }
    }
}

/// Storing on models is storing on the entries, then taking models.
pub proof fn lemma_insert_view(s: Seq<(String, Value)>, k: String, v: Value)
    ensures
        entries_view(entry_insert(s, k, v)) == view_insert(entries_view(s), k@, v@),
{
    lemma_view_index(s, k@);
    lemma_entry_index(s, k@);
    lemma_entries_view_len(s);
    lemma_entries_view_len(entry_insert(s, k, v));
    assert(entries_view(entry_insert(s, k, v)) =~= view_insert(entries_view(s), k@, v@));
}

/// Removing on models is removing on the entries, then taking models.
pub proof fn lemma_remove_view(s: Seq<(String, Value)>, key: Seq<char>)
    ensures
        entries_view(entry_remove(s, key)) == view_remove(entries_view(s), key),
        entry_get(s, key) == view_get(entries_view(s), key),
{
    lemma_view_index(s, key);
    lemma_entry_index(s, key);
    lemma_entries_view_len(s);
    if let Some(i) = entry_index(s, key) {
        let t = s.remove(i);
        lemma_entries_view_len(t);
        assert(entries_view(t) =~= entries_view(s).remove(i)) by {
            assert forall|j: int| 0 <= j < t.len() implies #[trigger] entries_view(t)[j] == entries_view(s).remove(i)[j] by {
                if j < i {
                    assert(t[j] == s[j]);
                } else {
                    assert(t[j] == s[j + 1]);
                }
            }
        }
    }
}

/// Law: after storing `v` under `k`, reading `k` gives `v`.
pub proof fn law_lexicon_read_after_write(s: Seq<(String, Value)>, k: String, v: Value)
    ensures
        entry_get(entry_insert(s, k, v), k@) == Some(value_view(v)),
{
    lemma_entry_index(s, k@);
    let t = entry_insert(s, k, v);
    match entry_index(s, k@) {
        Some(i) => {
            assert forall|j: int| 0 <= j < t.len() implies (#[trigger] t[j]).0@ == s[j].0@ by {}
            lemma_entry_index_same_keys(t, s, k@);
        },
        None => {
            assert forall|j: int| 0 <= j < s.len() implies #[trigger] t[j].0@ != k@ by {
                assert(t[j] == s[j]);
            }
            lemma_entry_index_first(t, k@, s.len() as int);
        },
    }
}

/// Law: storing under `k` leaves every other key's value as it was.
pub proof fn law_lexicon_write_keeps_others(s: Seq<(String, Value)>, k: String, v: Value, other: Seq<char>)
    requires
        other != k@,
    ensures
        entry_get(entry_insert(s, k, v), other) == entry_get(s, other),
{
    lemma_entry_index(s, k@);
    lemma_entry_index(s, other);
    let t = entry_insert(s, k, v);
    match entry_index(s, k@) {
        Some(i) => {
            assert forall|j: int| 0 <= j < t.len() implies (#[trigger] t[j]).0@ == s[j].0@ by {}
            lemma_entry_index_same_keys(t, s, other);
            if let Some(p) = entry_index(s, other) {
                assert(p != i);
                assert(t[p] == s[p]);
            }
        },
        None => {
            lemma_entry_index(t, other);
            match entry_index(s, other) {
                Some(p) => {
                    assert forall|j: int| 0 <= j < p implies #[trigger] t[j].0@ != other by {
                        assert(t[j] == s[j]);
                    }
                    assert(t[p] == s[p]);
                    lemma_entry_index_first(t, other, p);
                },
                None => {
                    if let Some(p) = entry_index(t, other) {
                        if p < s.len() {
                            assert(t[p] == s[p]);
                        }
                    }
                },
            }
        },
    }
}

/// Law: after removing `k` from entries without repeated keys, `k` is
/// gone.
pub proof fn law_lexicon_remove_then_absent(s: Seq<(String, Value)>, k: Seq<char>)
    requires
        forall|i: int, j: int| 0 <= i < j < s.len() ==> (#[trigger] s[i]).0@ != (#[trigger] s[j]).0@,
    ensures
        entry_get(entry_remove(s, k), k) is None,
{
    lemma_entry_index(s, k);
    let t = entry_remove(s, k);
    lemma_entry_index(t, k);
    if let Some(i) = entry_index(s, k) {
        if let Some(p) = entry_index(t, k) {
            if p < i {
                assert(t[p] == s[p]);
            } else {
                assert(t[p] == s[p + 1]);
            }
        }
    }
}

/// Where the first entry under `key` lies.
pub fn lexicon_find(entries: &Vec<(String, Value)>, key: &str) -> (r: Option<usize>)
    ensures
        match r {
            Some(i) => entry_index(entries@, key@) == Some(i as int),
            None => entry_index(entries@, key@) is None,
        },
{
    let mut i: usize = 0;
    while i < entries.len()
        invariant
            i <= entries@.len(),
            forall|j: int| 0 <= j < i ==> #[trigger] entries@[j].0@ != key@,
        decreases entries.len() - i,
    {
        if str_eq(entries[i].0.as_str(), key) {
            proof {
                lemma_entry_index_first(entries@, key@, i as int);
            }
            return Some(i);
        }
        i = i + 1;
    }
    proof {
        lemma_entry_index(entries@, key@);
        if let Some(k) = entry_index(entries@, key@) {
            assert(entries@[k].0@ != key@);
        }
    }
    None
}

/// Stores `value` under `key`.
pub fn lexicon_insert(entries: &mut Vec<(String, Value)>, key: String, value: Value)
    ensures
        final(entries)@ == entry_insert(old(entries)@, key, value),
{
    proof {
        lemma_entry_index(entries@, key@);
    }
    match lexicon_find(entries, key.as_str()) {
        Some(i) => {
            entries.set(i, (key, value));
        },
        None => {
            entries.push((key, value));
        },
    }
}

/// Removes the entry under `key`, if there is one.
pub fn lexicon_remove(entries: &mut Vec<(String, Value)>, key: &str)
    ensures
        final(entries)@ == entry_remove(old(entries)@, key@),
{
    proof {
        lemma_entry_index(entries@, key@);
    }
    match lexicon_find(entries, key) {
        Some(i) => {
            let _ = entries.remove(i);
        },
        None => {},
    }
}

/// A copy of the value stored under `key`.
pub fn lexicon_get(entries: &Vec<(String, Value)>, key: &str) -> (r: Option<Value>)
    ensures
        match r {
            Some(v) => entry_get(entries@, key@) == Some(v@),
            None => entry_get(entries@, key@) is None,
        },
{
    proof {
        lemma_entry_index(entries@, key@);
    }
    match lexicon_find(entries, key) {
        Some(i) => Some(copy_value(&entries[i].1)),
        None => None,
    }
}

/// The index a result denotes: a non-negative arcana.
pub fn expect_arcana_index(index: &EvalResult, line_info: &Option<LineInfo>) -> (r: Result<u64, EvalError>)
    ensures
        match *index {
            EvalResult::Data(Value::Arcana(n)) => if n < 0 {
                is_invalid(r, "Scroll index cannot be negative"@, *line_info)
            } else {
                r == Ok::<u64, EvalError>(n as u64)
            },
            _ => is_type_error(r, "Scroll index must be arcana"@, *line_info),
        },
{
    match index {
        EvalResult::Data(Value::Arcana(n)) => {
            if *n < 0 {
                Err(EvalError::InvalidOperation(owned("Scroll index cannot be negative"), *line_info))
            } else {
                Ok(*n as u64)
            }
        },
        _ => Err(EvalError::TypeError(owned("Scroll index must be arcana"), *line_info)),
    }
}

/// The key a result denotes: a rune.
pub fn expect_rune_key(index: &EvalResult, line_info: &Option<LineInfo>) -> (r: Result<String, EvalError>)
    ensures
        match *index {
            EvalResult::Data(Value::Rune(s)) => r matches Ok(k) && k@ == s@,
            _ => is_type_error(r, "Lexicon key must be rune"@, *line_info),
        },
{
    match index {
        EvalResult::Data(Value::Rune(s)) => Ok(s.clone()),
        _ => Err(EvalError::TypeError(owned("Lexicon key must be rune"), *line_info)),
    }
}

/// The variable and the index expressions of `a[i][j]...`, outermost
/// index first; `None` unless the chain starts at a variable.
pub open spec fn index_chain(ast: AST) -> Option<(Seq<char>, Seq<AST>)>
    decreases ast,
{
    match ast {
        AST::Var(name, _) => Some((name@, Seq::empty())),
        AST::IndexAccess { target, index, .. } => match index_chain(*target) {
            Some((base, idx)) => Some((base, idx.push(*index))),
            None => None,
        },
        _ => None,
    }
}

/// The variable an index chain starts at and its index expressions.
pub fn collect_index_chain(target: &AST) -> (r: Option<(String, Vec<&AST>)>)
    ensures
        match index_chain(*target) {
            Some((base, idx)) => r matches Some((b, v)) && b@ == base && v@.len() == idx.len()
                && forall|k: int| 0 <= k < idx.len() ==> *(#[trigger] v@[k]) == idx[k],
            None => r is None,
        },
    decreases target,
{
    match target {
        AST::Var(name, _) => Some((name.clone(), Vec::new())),
        AST::IndexAccess { target: inner, index, .. } => {
            match collect_index_chain(inner) {
                Some((base, v)) => {
                    let mut v = v;
                    let ghost before = v@;
                    v.push(&**index);
                    assert forall|k: int| 0 <= k < v@.len() - 1 implies #[trigger] v@[k] == before[k] by {}
                    Some((base, v))
                },
                None => None,
            }
        },
        _ => None,
    }
}


/// The message for an index past the end of a scroll.
pub open spec fn out_of_bounds_message(idx: int) -> Seq<char> {
    "Index "@ + int_text(idx) + " is out of bounds for scroll"@
}

/// The message for a key a lexicon does not hold.
pub open spec fn missing_key_message(key: Seq<char>) -> Seq<char> {
    "Lexicon key '"@ + key + "' does not exist"@
}

fn out_of_bounds(idx: u64, line_info: &Option<LineInfo>) -> (e: EvalError)
    requires
        idx <= i64::MAX,
    ensures
        e matches EvalError::InvalidOperation(m, l) && m@ == out_of_bounds_message(idx as int) && l == *line_info,
{
    let mut m = owned("Index ");
    push_str(&mut m, int_to_string(idx as i64).as_str());
    push_str(&mut m, " is out of bounds for scroll");
    EvalError::InvalidOperation(m, *line_info)
}

fn missing_key(key: &str, line_info: &Option<LineInfo>) -> (e: EvalError)
    ensures
        e matches EvalError::InvalidOperation(m, l) && m@ == missing_key_message(key@) && l == *line_info,
{
    let mut m = owned("Lexicon key '");
    push_str(&mut m, key);
    push_str(&mut m, "' does not exist");
    EvalError::InvalidOperation(m, *line_info)
}

/// The element at `idx` of a scroll or the entry under a rune key of a
/// lexicon.
pub fn index_value(collection: &Value, idx_value: &EvalResult, line_info: &Option<LineInfo>) -> (r: Result<EvalResult, EvalError>)
    ensures
        match *collection {
            Value::Scroll(items) => match *idx_value {
                EvalResult::Data(Value::Arcana(n)) => if n < 0 {
                    is_invalid(r, "Scroll index cannot be negative"@, *line_info)
                } else if n < items@.len() {
                    r matches Ok(EvalResult::Data(v)) && v@ == value_view(items@[n as int])
                } else {
                    is_invalid(r, out_of_bounds_message(n as int), *line_info)
                },
                _ => is_type_error(r, "Scroll index must be arcana"@, *line_info),
            },
            Value::Lexicon(entries) => match *idx_value {
                EvalResult::Data(Value::Rune(k)) => match entry_get(entries@, k@) {
                    Some(v) => r matches Ok(EvalResult::Data(x)) && x@ == v,
                    None => is_invalid(r, missing_key_message(k@), *line_info),
                },
                _ => is_type_error(r, "Lexicon key must be rune"@, *line_info),
            },
            _ => is_invalid(r, "Indexing is only supported for scroll or lexicon"@, *line_info),
        },
{
    match collection {
        Value::Scroll(items) => {
            let idx = expect_arcana_index(idx_value, line_info)?;
            if idx < items.len() as u64 {
                Ok(EvalResult::Data(copy_value(&items[idx as usize])))
            } else {
                Err(out_of_bounds(idx, line_info))
            }
        },
        Value::Lexicon(entries) => {
            let key = expect_rune_key(idx_value, line_info)?;
            match lexicon_get(entries, key.as_str()) {
                Some(v) => Ok(EvalResult::Data(v)),
                None => Err(missing_key(key.as_str(), line_info)),
            }
        },
        _ => Err(EvalError::InvalidOperation(owned("Indexing is only supported for scroll or lexicon"), *line_info)),
    }
}

/// The value `v` becomes by `v[p0][p1]...[idx] = nv`, the indices `path`
/// leading to the scroll or lexicon whose element `idx` is stored: a scroll
/// index must be an arcana within the scroll, a lexicon key on the path a
/// rune under which the lexicon holds an entry, and the last key a rune
/// (stored, or added at the end). `None` where the path cannot be followed.
pub open spec fn set_at_path(v: ValueV, path: Seq<EvalResultV>, idx: EvalResultV, nv: ValueV) -> Option<ValueV>
    decreases path.len(),
{
    if path.len() == 0 {
        match v {
            ValueV::Scroll(items) => match idx {
                EvalResultV::Data(ValueV::Arcana(n)) => if 0 <= n < items.len() {
                    Some(ValueV::Scroll(items.update(n as int, nv)))
                } else {
                    None
                },
                _ => None,
            },
            ValueV::Lexicon(es) => match idx {
                EvalResultV::Data(ValueV::Rune(k)) => Some(ValueV::Lexicon(view_insert(es, k, nv))),
                _ => None,
            },
            _ => None,
        }
    } else {
        match v {
            ValueV::Scroll(items) => match path[0] {
                EvalResultV::Data(ValueV::Arcana(n)) => if 0 <= n < items.len() {
                    match set_at_path(items[n as int], path.skip(1), idx, nv) {
                        Some(w) => Some(ValueV::Scroll(items.update(n as int, w))),
                        None => None,
                    }
                } else {
                    None
                },
                _ => None,
            },
            ValueV::Lexicon(es) => match path[0] {
                EvalResultV::Data(ValueV::Rune(k)) => match view_index(es, k) {
                    Some(q) => match set_at_path(es[q].1, path.skip(1), idx, nv) {
                        Some(w) => Some(ValueV::Lexicon(es.update(q, (es[q].0, w)))),
                        None => None,
                    },
                    None => None,
                },
                _ => None,
            },
            _ => None,
        }
    }
}

/// The models of the results from position `start` on.
pub open spec fn results_from(path: Seq<EvalResult>, start: int) -> Seq<EvalResultV> {
    Seq::new((path.len() - start) as nat, |k: int| path[start + k]@)
}

/// Writes `new_value` at the element or entry `final_index` of the
/// collection reached from `value` through `path`.
pub fn assign_at_path(
    value: &mut Value,
    path: &[EvalResult],
    start: usize,
    final_index: &EvalResult,
    new_value: Value,
    line_info: &Option<LineInfo>,
) -> (r: Result<(), EvalError>)
    requires
        start <= path@.len(),
    ensures
        (r is Ok) == (set_at_path(old(value)@, results_from(path@, start as int), final_index@, new_value@) is Some),
        r is Ok ==> final(value)@ == set_at_path(old(value)@, results_from(path@, start as int), final_index@, new_value@).unwrap(),
        start == path@.len() ==> match *old(value) {
            Value::Scroll(items) => match *final_index {
                EvalResult::Data(Value::Arcana(n)) => if 0 <= n < items@.len() {
                    r is Ok && (*final(value) matches Value::Scroll(after) && after@ == items@.update(n as int, new_value))
                } else {
                    r is Err
                },
                _ => r is Err,
            },
            Value::Lexicon(entries) => match *final_index {
                EvalResult::Data(Value::Rune(k)) => r is Ok && (*final(value) matches Value::Lexicon(after)
                    && exists|key: String| key@ == k@ && after@ == #[trigger] entry_insert(entries@, key, new_value)),
                _ => r is Err,
            },
            _ => is_invalid(r, "Indexed assignment requires a scroll or lexicon"@, *line_info),
        },
    decreases path@.len() - start,
{
    let ghost v0 = old(value)@;
    let ghost pv = results_from(path@, start as int);
    if start < path.len() {
        let idx = &path[start];
        proof {
            assert(pv[0] == path@[start as int]@);
            assert(results_from(path@, start + 1) =~= pv.skip(1));
        }
        match value {
            Value::Scroll(items) => {
                let ghost its = items@;
                proof {
                    lemma_values_view_len(its);
                }
                let i = expect_arcana_index(idx, line_info)?;
                if i >= items.len() as u64 {
                    return Err(out_of_bounds(i, line_info));
                }
                let iu = i as usize;
                let mut slot = items.remove(iu);
                let ghost slot0 = slot;
                let res = assign_at_path(&mut slot, path, start + 1, final_index, new_value, line_info);
                items.insert(iu, slot);
                proof {
                    assert(values_view(its)[iu as int] == slot0@);
                    if res is Ok {
                        let w = set_at_path(slot0@, pv.skip(1), final_index@, new_value@).unwrap();
                        assert(items@ =~= its.update(iu as int, slot));
                        lemma_values_view_len(items@);
                        assert(values_view(items@) =~= values_view(its).update(iu as int, w));
                    }
                }
                res
            },
            Value::Lexicon(entries) => {
                let ghost es = entries@;
                let key = expect_rune_key(idx, line_info)?;
                proof {
                    lemma_entry_index(entries@, key@);
                    lemma_view_index(entries@, key@);
                    lemma_entries_view_len(es);
                }
                match lexicon_find(entries, key.as_str()) {
                    Some(p) => {
                        let (k, mut slot) = entries.remove(p);
                        let ghost slot0 = slot;
                        let ghost k0 = k;
                        let res = assign_at_path(&mut slot, path, start + 1, final_index, new_value, line_info);
                        entries.insert(p, (k, slot));
                        proof {
                            assert(entries_view(es)[p as int] == (k0@, slot0@));
                            if res is Ok {
                                let w = set_at_path(slot0@, pv.skip(1), final_index@, new_value@).unwrap();
                                assert(entries@ =~= es.update(p as int, (k0, slot)));
                                lemma_entries_view_len(entries@);
                                assert(entries_view(entries@) =~= entries_view(es).update(p as int, (k0@, w)));
                            }
                        }
                        res
                    },
                    None => Err(missing_key(key.as_str(), line_info)),
                }
            },
            _ => Err(EvalError::InvalidOperation(owned("Indexing is only supported for scroll or lexicon"), *line_info)),
        }
    } else {
        proof {
            assert(pv.len() == 0);
        }
        match value {
            Value::Scroll(items) => {
                let ghost its = items@;
                proof {
                    lemma_values_view_len(its);
                }
                let i = expect_arcana_index(final_index, line_info)?;
                if i >= items.len() as u64 {
                    return Err(out_of_bounds(i, line_info));
                }
                items.set(i as usize, new_value);
                proof {
                    lemma_values_view_len(items@);
                    assert(values_view(items@) =~= values_view(its).update(i as int, new_value@));
                }
                Ok(())
            },
            Value::Lexicon(entries) => {
                let ghost es = entries@;
                let key = expect_rune_key(final_index, line_info)?;
                let ghost kk = key;
                lexicon_insert(entries, key, new_value);
                proof {
                    lemma_insert_view(es, kk, new_value);
                }
                Ok(())
            },
            _ => Err(EvalError::InvalidOperation(owned("Indexed assignment requires a scroll or lexicon"), *line_info)),
        }
    }
}

} // verus!
