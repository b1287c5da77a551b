//! The evaluator proper: what each node of a program computes and how it
//! changes the environment.
use vstd::prelude::*;

use crate::ast::{copy_ast, copy_of, copy_type, LineInfo, Type, TypeV, AST};
use crate::diagnostics::{suggestion_label, suggestions};
use crate::env::{
    all_names, copy_value, fn_index, schema_index, var_lookup, var_position, var_value, AetherOps, CallArg, Callable, Environment, IoBridge, Value, ValueV,
};
use crate::eval::artifacts::{build_artifact_schema, expect_artifact_from_eval, lookup_schema_by_name, missing_field_error};
use crate::eval::calls::{
    arg_name, builtin_args, builtin_of, builtin_post, model_bind, same_bindings, values_of, all_valued, arity_message, bind_prefix, call_arity, call_undefined, call_value, engraved_from, lemma_bind_prefix_shorter,
    lemma_fn_body_copy, lemma_fn_body_same, lemma_pure_same, lemma_same_bindings_push, lemma_scope_for, lemma_scope_for_empty,
    lemma_set_var_model, scope_for, scope_model,
};
use crate::eval::oracles::{eval_oracle, oracle_value};
use crate::eval::stacks::{assign_stack, block_exec, forge_binding, forge_stack, orbit_run, same_vars, unwrapped};
use crate::eval::collections::{assign_at_path, collect_index_chain, index_value, lexicon_find, lexicon_get, lexicon_insert};
use crate::eval::expressions::{
    assign_result, function_names_spec, assignment_value, call_builtin, conditional_binding, pattern_matches, trans_value, undefined_function,
    undefined_variable,
};
use crate::eval::result::{copy_label, label_view, EvalError, EvalResult, EvalResultV};
use crate::eval::values::{
    binary_numeric_op, check_return, compare_values, value_fits, convert_to_typed_value, eval_result_to_value_checked, logical_not,
    arcana_failure, arcana_op, logical_op, nearest_double, order_holds, order_values, pow_aether_op, pow_arcana_op, pow_int, NumOp, OrderOp,
};
use crate::text::{int_to_string, owned, push_str, str_eq};
use crate::types::EngravedFunction;

verus! {

broadcast use vstd::std_specs::vec::axiom_vec_index_decreases;

/// How deep calls of engraved functions may nest: more than any run can
/// reach; it only makes the recursion of the evaluator well founded.
pub const MAX_CALL_DEPTH: u64 = 18446744073709551615;

/// The measure that orders a node above the helpers that evaluate it.
pub open spec fn node_rank(ast: AST) -> nat {
    match ast {
        AST::Orbit { params, .. } => params@.len() + 2,
        AST::Oracle { .. } => 3,
        _ => 2,
    }
}

/// The measure of the loop over the `idx`-th parameter of an orbit.
pub open spec fn orbit_rank(ast: AST, idx: int) -> nat {
    match ast {
        AST::Orbit { params, .. } => if idx < params@.len() { (params@.len() - idx + 1) as nat } else { 0 },
        _ => 0,
    }
}

/// What evaluation keeps of any environment: at least one scope, and a
/// budget of unbounded iterations that only shrinks.
pub open spec fn keeps(before: Environment, after: Environment) -> bool {
    after.scopes().len() >= 1 && after.budget() <= before.budget()
}

/// What a leaf node evaluates to, where it is a leaf: literals, names,
/// comments and the control-flow signals.
pub open spec fn leaf_value(ast: AST, scopes: Seq<crate::env::VarScope>) -> Option<EvalResultV> {
    match ast {
        AST::Omen(b, _) => Some(EvalResultV::Data(ValueV::Omen(b))),
        AST::Arcana(n, _) => Some(EvalResultV::Data(ValueV::Arcana(n))),
        AST::Rune(s, _) => Some(EvalResultV::Data(ValueV::Rune(s@))),
        AST::Abyss(_) => Some(EvalResultV::Data(ValueV::Abyss)),
        AST::Comment(..) => Some(EvalResultV::Data(ValueV::Abyss)),
        AST::OracleDontCareItem(_) => Some(EvalResultV::Data(ValueV::Omen(true))),
        AST::Resume(l, _) => Some(EvalResultV::Resume(label_view(l))),
        AST::Eject(l, _) => Some(EvalResultV::Eject(label_view(l))),
        AST::Var(name, _) => match var_lookup(scopes, name@) {
            Some(info) => Some(EvalResultV::Data(info.value@)),
            None => None,
        },
        _ => None,
    }
}

/// The value of `l op r` from the values of its operands.
pub open spec fn num_value(op: NumOp, a: Option<ValueV>, b: Option<ValueV>) -> Option<ValueV> {
    match (a, b) {
        (Some(ValueV::Arcana(x)), Some(ValueV::Arcana(y))) => match arcana_op(op, x, y) {
            Some(n) => Some(ValueV::Arcana(n)),
            None => None,
        },
        (Some(ValueV::Rune(x)), Some(ValueV::Rune(y))) => if op == NumOp::Add { Some(ValueV::Rune(x + y)) } else { None },
        _ => None,
    }
}

/// The value of `l ^ r` on arcana operands.
pub open spec fn pow_value(a: Option<ValueV>, b: Option<ValueV>) -> Option<ValueV> {
    match (a, b) {
        (Some(ValueV::Arcana(x)), Some(ValueV::Arcana(e))) => if e >= 0 && i64::MIN <= pow_int(x as int, e as nat) <= i64::MAX {
            Some(ValueV::Arcana(pow_int(x as int, e as nat) as i64))
        } else {
            None
        },
        _ => None,
    }
}

/// The value of `l == r` (or, with `equality` false, `l != r`) on arcana
/// or rune operands.
pub open spec fn eq_value(a: Option<ValueV>, b: Option<ValueV>, equality: bool) -> Option<ValueV> {
    match (a, b) {
        (Some(ValueV::Arcana(x)), Some(ValueV::Arcana(y))) => Some(ValueV::Omen((x == y) == equality)),
        (Some(ValueV::Rune(x)), Some(ValueV::Rune(y))) => Some(ValueV::Omen((x == y) == equality)),
        _ => None,
    }
}

/// The value of an ordering of arcana operands.
pub open spec fn ord_value(op: OrderOp, a: Option<ValueV>, b: Option<ValueV>) -> Option<ValueV> {
    match (a, b) {
        (Some(ValueV::Arcana(x)), Some(ValueV::Arcana(y))) => Some(ValueV::Omen(order_holds(op, nearest_double(x as int), nearest_double(y as int)))),
        _ => None,
    }
}

/// The value of `&&` (with `and` true) or `||` on omen operands.
pub open spec fn logic_value(and: bool, a: Option<ValueV>, b: Option<ValueV>) -> Option<ValueV> {
    match (a, b) {
        (Some(ValueV::Omen(x)), Some(ValueV::Omen(y))) => Some(ValueV::Omen(if and { x && y } else { x || y })),
        _ => None,
    }
}

/// The value of an expression built from literals, variables, arithmetic,
/// comparisons, logic, indexing and casts between arcana and runes, when
/// every step of it succeeds (no aether, no call): what the language's
/// operators compute on its operands. `None`
/// for any other expression, or one whose evaluation fails.
pub open spec fn pure_value(ast: AST, scopes: Seq<crate::env::VarScope>) -> Option<ValueV>
    decreases ast,
{
    match ast {
        AST::Statement(inner, _) => pure_value(*inner, scopes),
        AST::Omen(b, _) => Some(ValueV::Omen(b)),
        AST::Arcana(n, _) => Some(ValueV::Arcana(n)),
        AST::Rune(s, _) => Some(ValueV::Rune(s@)),
        AST::Abyss(_) => Some(ValueV::Abyss),
        AST::OracleDontCareItem(_) => Some(ValueV::Omen(true)),
        AST::Var(name, _) => match var_lookup(scopes, name@) {
            Some(info) => Some(info.value@),
            None => None,
        },
        AST::Add(l, r, _) => num_value(NumOp::Add, pure_value(*l, scopes), pure_value(*r, scopes)),
        AST::Sub(l, r, _) => num_value(NumOp::Sub, pure_value(*l, scopes), pure_value(*r, scopes)),
        AST::Mul(l, r, _) => num_value(NumOp::Mul, pure_value(*l, scopes), pure_value(*r, scopes)),
        AST::Div(l, r, _) => num_value(NumOp::Div, pure_value(*l, scopes), pure_value(*r, scopes)),
        AST::Mod(l, r, _) => num_value(NumOp::Mod, pure_value(*l, scopes), pure_value(*r, scopes)),
        AST::PowArcana(l, r, _) => pow_value(pure_value(*l, scopes), pure_value(*r, scopes)),
        AST::Equal(l, r, _) => eq_value(pure_value(*l, scopes), pure_value(*r, scopes), true),
        AST::NotEqual(l, r, _) => eq_value(pure_value(*l, scopes), pure_value(*r, scopes), false),
        AST::LessThan(l, r, _) => ord_value(OrderOp::Less, pure_value(*l, scopes), pure_value(*r, scopes)),
        AST::LessThanOrEqual(l, r, _) => ord_value(OrderOp::LessEq, pure_value(*l, scopes), pure_value(*r, scopes)),
        AST::GreaterThan(l, r, _) => ord_value(OrderOp::Greater, pure_value(*l, scopes), pure_value(*r, scopes)),
        AST::GreaterThanOrEqual(l, r, _) => ord_value(OrderOp::GreaterEq, pure_value(*l, scopes), pure_value(*r, scopes)),
        AST::LogicalAnd(l, r, _) => logic_value(true, pure_value(*l, scopes), pure_value(*r, scopes)),
        AST::LogicalOr(l, r, _) => logic_value(false, pure_value(*l, scopes), pure_value(*r, scopes)),
        AST::LogicalNot(e, _) => match pure_value(*e, scopes) {
            Some(ValueV::Omen(b)) => Some(ValueV::Omen(!b)),
            _ => None,
        },
        AST::IndexAccess { target, index, .. } => index_of_value(pure_value(*target, scopes), pure_value(*index, scopes)),
        AST::Trans(e, target, _) => cast_value(pure_value(*e, scopes), target@),
        _ => None,
    }
}

/// `trans v as t` between arcana and runes: a rune that reads as an
/// arcana becomes it, an arcana becomes its decimal text.
pub open spec fn cast_value(v: Option<ValueV>, t: TypeV) -> Option<ValueV> {
    match (t, v) {
        (TypeV::Arcana, Some(ValueV::Rune(s))) => match crate::text::parse_int_spec(s) {
            Some(n) => Some(ValueV::Arcana(n)),
            None => None,
        },
        (TypeV::Rune, Some(ValueV::Arcana(n))) => Some(ValueV::Rune(crate::text::int_text(n as int))),
        _ => None,
    }
}

/// Law: an arcana cast to a rune and back is itself.
pub proof fn law_cast_roundtrip(e: AST, scopes: Seq<crate::env::VarScope>, l1: Option<LineInfo>, l2: Option<LineInfo>)
    requires
        pure_value(e, scopes) matches Some(ValueV::Arcana(_)),
    ensures
        pure_value(
            AST::Trans(Box::new(AST::Trans(Box::new(e), Type::Rune, l1)), Type::Arcana, l2),
            scopes,
        ) == pure_value(e, scopes),
{
    let n = pure_value(e, scopes).unwrap()->Arcana_0;
    crate::text::law_int_text_roundtrip(n);
    let inner = AST::Trans(Box::new(e), Type::Rune, l1);
    assert(Type::Rune@ == TypeV::Rune && Type::Arcana@ == TypeV::Arcana);
    assert(pure_value(inner, scopes) == Some(ValueV::Rune(crate::text::int_text(n as int))));
}

/// The element at an index of a scroll, or the entry under a rune key of a
/// lexicon, where there is one.
pub open spec fn index_of_value(c: Option<ValueV>, i: Option<ValueV>) -> Option<ValueV> {
    match (c, i) {
        (Some(ValueV::Scroll(items)), Some(ValueV::Arcana(n))) => if 0 <= n < items.len() {
            Some(items[n as int])
        } else {
            None
        },
        (Some(ValueV::Lexicon(entries)), Some(ValueV::Rune(k))) => crate::eval::collections::view_get(entries, k),
        _ => None,
    }
}

/// For `forge name: T = e` where `e` has a value (see [`pure_value`]) that
/// `T` admits: the name and the value.
pub open spec fn forge_value(ast: AST, scopes: Seq<crate::env::VarScope>) -> Option<(Seq<char>, ValueV)> {
    match ast {
        AST::VarAssign { name, value, var_type, .. } => forge_of(name@, *value, var_type@, scopes),
        AST::Statement(inner, _) => match *inner {
            AST::VarAssign { name, value, var_type, .. } => forge_of(name@, *value, var_type@, scopes),
            _ => None,
        },
        _ => None,
    }
}

/// `forge name: t = value` where the value has one that `t` admits.
pub open spec fn forge_of(name: Seq<char>, value: AST, t: TypeV, scopes: Seq<crate::env::VarScope>) -> Option<(Seq<char>, ValueV)> {
    match pure_value(value, scopes) {
        Some(v) => if value_fits(v, t) { Some((name, v)) } else { None },
        None => None,
    }
}

/// For `name op= e` where `e` has a value (see [`pure_value`]) and `name`
/// is a morph variable whose type takes the assignment (see
/// [`assign_result`]): the name and its new value.
pub open spec fn assign_effect(ast: AST, scopes: Seq<crate::env::VarScope>) -> Option<(Seq<char>, ValueV)> {
    match ast {
        AST::Assignment { name, value, op, .. } => match (pure_value(*value, scopes), var_lookup(scopes, name@)) {
            (Some(v), Some(info)) => if info.is_morph {
                match assign_result(info, op, v) {
                    Some(nv) => Some((name@, nv)),
                    None => None,
                }
            } else {
                None
            },
            _ => None,
        },
        _ => None,
    }
}

/// What `v[i] = e` stores, where the values of `i` and `e` are known and
/// `v` is a morph variable: `v` and its new value, the old one with the
/// element at `i` replaced (see [`crate::eval::collections::set_at_path`],
/// which also says what a longer index path stores).
#[verifier::opaque]
pub open spec fn index_assign_effect(ast: AST, scopes: Seq<crate::env::VarScope>) -> Option<(Seq<char>, ValueV)> {
    match ast {
        AST::IndexAssignment { target, index, value, .. } => match (
            crate::eval::collections::index_chain(*target),
            pure_value(*index, scopes),
            pure_value(*value, scopes),
        ) {
            (Some((base, idx)), Some(iv), Some(nv)) => match var_lookup(scopes, base) {
                Some(info) => if info.is_morph && idx.len() == 0 {
                    match crate::eval::collections::set_at_path(info.value@, Seq::empty(), EvalResultV::Data(iv), nv) {
                        Some(w) => Some((base, w)),
                        None => None,
                    }
                } else {
                    None
                },
                _ => None,
            },
            _ => None,
        },
        _ => None,
    }
}

/// Law: after `forge name: T = e`, reading `name` gives back the value of
/// `e`.
pub proof fn law_forge_then_read(forge: AST, read: AST, before: Seq<crate::env::VarScope>, after: Seq<crate::env::VarScope>)
    requires
        forge_value(forge, before) is Some,
        var_value(after, forge_value(forge, before).unwrap().0) == Some(forge_value(forge, before).unwrap().1),
        read matches AST::Var(n, _) && n@ == forge_value(forge, before).unwrap().0,
    ensures
        pure_value(read, after) == Some(forge_value(forge, before).unwrap().1),
{
}

/// Law: after `name op= e`, reading `name` gives back its new value.
pub proof fn law_assign_then_read(assign: AST, read: AST, before: Seq<crate::env::VarScope>, after: Seq<crate::env::VarScope>)
    requires
        assign_effect(assign, before) is Some,
        var_value(after, assign_effect(assign, before).unwrap().0) == Some(assign_effect(assign, before).unwrap().1),
        read matches AST::Var(n, _) && n@ == assign_effect(assign, before).unwrap().0,
    ensures
        pure_value(read, after) == Some(assign_effect(assign, before).unwrap().1),
{
}

/// The value revealed by `reveal e` (written alone or as a statement)
/// where `e` has a value (see [`pure_value`]).
pub open spec fn reveal_value(ast: AST, scopes: Seq<crate::env::VarScope>) -> Option<ValueV> {
    match ast {
        AST::Reveal(e, _) => pure_value(*e, scopes),
        AST::Statement(inner, _) => match *inner {
            AST::Reveal(e, _) => pure_value(*e, scopes),
            _ => None,
        },
        _ => None,
    }
}

/// The stack after `forge name = v`: its innermost scope binds `name` to
/// `v` (see [`model_bind`]), the other scopes stay.
pub open spec fn forge_scopes(s: Seq<crate::env::VarScope>, name: Seq<char>, v: ValueV) -> Seq<crate::env::VarScope> {
    s.drop_last().push(scope_for(model_bind(scope_model(s.last()), name, v)))
}

/// Running the statements of a block in order, where each has a value: a
/// `reveal` ends the block with its value; a `forge` binds its name in the
/// innermost scope (see [`forge_scopes`]); an expression's value is the
/// block's value so far (`last` at the start). Gives the block's value and
/// the stack at its end.
pub open spec fn block_run(stmts: Seq<AST>, scopes: Seq<crate::env::VarScope>, last: ValueV) -> Option<
    (ValueV, Seq<crate::env::VarScope>),
>
    decreases stmts.len(),
{
    if stmts.len() == 0 {
        Some((last, scopes))
    } else {
        match reveal_value(stmts[0], scopes) {
            Some(v) => Some((v, scopes)),
            None => match forge_value(stmts[0], scopes) {
                Some((n, v)) => block_run(stmts.drop_first(), forge_scopes(scopes, n, v), ValueV::Abyss),
                None => match pure_value(stmts[0], scopes) {
                    Some(v) => block_run(stmts.drop_first(), scopes, v),
                    None => None,
                },
            },
        }
    }
}

/// The value of a block (see [`block_run`]).
pub open spec fn block_value(stmts: Seq<AST>, scopes: Seq<crate::env::VarScope>, last: ValueV) -> Option<ValueV> {
    match block_run(stmts, scopes, last) {
        Some((v, _)) => Some(v),
        None => None,
    }
}

/// Law: a `reveal` ends its block with the revealed value; the statements
/// after it do not count.
pub proof fn law_reveal_ends_block(first: AST, rest: Seq<AST>, scopes: Seq<crate::env::VarScope>, last: ValueV)
    requires
        reveal_value(first, scopes) is Some,
    ensures
        block_value(seq![first] + rest, scopes, last) == reveal_value(first, scopes),
{
    assert((seq![first] + rest)[0] == first);
}

/// The range of the `idx`-th parameter of an orbit whose bounds have
/// values (see [`pure_value`]): first value, last value, and whether the
/// last is included (`..=`).
pub open spec fn orbit_range(ast: AST, idx: int, scopes: Seq<crate::env::VarScope>) -> Option<(i64, i64, bool)> {
    match ast {
        AST::Orbit { params, .. } => if 0 <= idx < params@.len() {
            match params@[idx] {
                AST::OrbitParam { start, end, op, .. } => match (pure_value(*start, scopes), pure_value(*end, scopes)) {
                    (Some(ValueV::Arcana(a)), Some(ValueV::Arcana(b))) => Some((a, b, op@ != ".."@)),
                    _ => None,
                },
                _ => None,
            }
        } else {
            None
        },
        _ => None,
    }
}

/// Whether a range holds no value.
pub open spec fn range_empty(first: i64, last: i64, inclusive: bool) -> bool {
    if inclusive { first > last } else { first >= last }
}

/// Whether the patterns of an if-else oracle branch all hold: each is an
/// omen, tested in order, the first `hex` deciding; `None` where a pattern
/// has no value (see [`pure_value`]).
pub open spec fn cond_value(patterns: Seq<AST>, scopes: Seq<crate::env::VarScope>) -> Option<bool>
    decreases patterns.len(),
{
    if patterns.len() == 0 {
        Some(true)
    } else {
        match pure_value(patterns[0], scopes) {
            Some(ValueV::Omen(true)) => cond_value(patterns.drop_first(), scopes),
            Some(_) => Some(false),
            None => None,
        }
    }
}

/// The value of a branch body: a revealed value, the value of a block, or
/// the value of an expression.
pub open spec fn body_value(body: AST, scopes: Seq<crate::env::VarScope>) -> Option<ValueV> {
    match reveal_value(body, scopes) {
        Some(v) => Some(v),
        None => match body {
            AST::Block(stmts, _) => block_value(stmts@, scopes, ValueV::Abyss),
            _ => pure_value(body, scopes),
        },
    }
}

/// The value of a scroll literal whose elements all have values (see
/// [`pure_value`]): the scroll of those values.
pub open spec fn list_value(ast: AST, scopes: Seq<crate::env::VarScope>) -> Option<ValueV> {
    match ast {
        AST::ListLiteral { elements, .. } => if all_valued(elements@, scopes) {
            Some(ValueV::Scroll(values_of(elements@, scopes)))
        } else {
            None
        },
        _ => None,
    }
}

/// Whether every entry of a lexicon literal has a value.
pub open spec fn entries_valued(entries: Seq<(String, AST)>, scopes: Seq<crate::env::VarScope>) -> bool {
    forall|k: int| 0 <= k < entries.len() ==> (#[trigger] pure_value(entries[k].1, scopes)) is Some
}

/// The first `n` entries of a lexicon literal stored in order, a later
/// entry under a key replacing an earlier one.
pub open spec fn entries_fold(entries: Seq<(String, AST)>, scopes: Seq<crate::env::VarScope>, n: nat) -> Seq<
    (Seq<char>, ValueV),
>
    decreases n,
{
    if n == 0 {
        Seq::empty()
    } else {
        crate::eval::collections::view_insert(
            entries_fold(entries, scopes, (n - 1) as nat),
            entries[n - 1].0@,
            pure_value(entries[n - 1].1, scopes).unwrap(),
        )
    }
}

/// The value of a lexicon literal whose entries all have values.
pub open spec fn map_value(ast: AST, scopes: Seq<crate::env::VarScope>) -> Option<ValueV> {
    match ast {
        AST::MapLiteral { entries, .. } => if entries_valued(entries@, scopes) {
            Some(ValueV::Lexicon(entries_fold(entries@, scopes, entries@.len())))
        } else {
            None
        },
        _ => None,
    }
}

/// What kind of result each kind of node gives when it succeeds:
/// definitions and assignments give abyss, operators and literals give
/// plain values, `reveal` a revealed value, `resume` and `eject` their
/// signals, and an orbit abyss, or a labelled signal it passes outwards
/// (only an orbit with parameters does so).
pub open spec fn shape_ok(ast: AST, r: Result<EvalResult, EvalError>) -> bool {
    match r {
        Err(_) => true,
        Ok(v) => match ast {
            AST::VarAssign { .. } | AST::Assignment { .. } | AST::IndexAssignment { .. } | AST::Engrave { .. }
            | AST::ArtifactDef { .. } | AST::FieldAssignment { .. } | AST::Comment(..) => v@ == EvalResultV::Data(ValueV::Abyss),
            AST::Orbit { params, .. } => v@ == EvalResultV::Data(ValueV::Abyss) || (params@.len() > 0 && (v matches EvalResult::Resume(
                Some(_),
            ) || v matches EvalResult::Eject(Some(_)))),
            AST::Reveal(..) => v is Revealed,
            AST::Resume(..) => v is Resume,
            AST::Eject(..) => v is Eject,
            AST::Omen(..) | AST::Arcana(..) | AST::Aether(..) | AST::Rune(..) | AST::Abyss(..) | AST::ListLiteral { .. }
            | AST::MapLiteral { .. } | AST::Add(..) | AST::Sub(..) | AST::Mul(..) | AST::Div(..) | AST::Mod(..)
            | AST::PowArcana(..) | AST::PowAether(..) | AST::Equal(..) | AST::NotEqual(..) | AST::LessThan(..)
            | AST::LessThanOrEqual(..) | AST::GreaterThan(..) | AST::GreaterThanOrEqual(..) | AST::LogicalAnd(..)
            | AST::LogicalOr(..) | AST::LogicalNot(..) | AST::Var(..) | AST::Trans(..) | AST::IndexAccess { .. }
            | AST::ArtifactLiteral { .. } | AST::FieldAccess { .. } | AST::OracleDontCareItem(..) => v is Data,
            _ => true,
        },
    }
}

/// For `forge name: t = e` where `e` is an oracle or a call with a value
/// (see [`oracle_value`] and [`call_value`]) that `t` admits: the name
/// and the value.
pub open spec fn forge_rhs(
    ast: AST,
    scopes: Seq<crate::env::VarScope>,
    functions: Seq<(String, Callable)>,
) -> Option<(Seq<char>, ValueV)> {
    match ast {
        AST::VarAssign { name, value, var_type, .. } => {
            let v = match oracle_value(*value, scopes) {
                Some(v) => Some(v),
                None => call_value(*value, scopes, functions),
            };
            match v {
                Some(v) => if value_fits(v, var_type@) { Some((name@, v)) } else { None },
                None => None,
            }
        },
        _ => None,
    }
}

/// The operator and operands of an arithmetic node.
pub open spec fn arith_parts(ast: AST) -> Option<(NumOp, AST, AST)> {
    match ast {
        AST::Add(l, r, _) => Some((NumOp::Add, *l, *r)),
        AST::Sub(l, r, _) => Some((NumOp::Sub, *l, *r)),
        AST::Mul(l, r, _) => Some((NumOp::Mul, *l, *r)),
        AST::Div(l, r, _) => Some((NumOp::Div, *l, *r)),
        AST::Mod(l, r, _) => Some((NumOp::Mod, *l, *r)),
        _ => None,
    }
}

/// Why arithmetic on two arcana whose values are known fails, where it
/// does: division by zero or a result out of range (see [`arcana_op`]),
/// or a power `a ^ b` out of range.
pub open spec fn arith_failure(ast: AST, scopes: Seq<crate::env::VarScope>) -> Option<Seq<char>> {
    if let AST::PowArcana(l, r, _) = ast {
        match (pure_value(*l, scopes), pure_value(*r, scopes)) {
            (Some(ValueV::Arcana(a)), Some(ValueV::Arcana(b))) => if b >= 0 && !(i64::MIN <= pow_int(a as int, b as nat) <= i64::MAX) {
                Some("Arithmetic overflow"@)
            } else {
                None
            },
            _ => None,
        }
    } else {
        match arith_parts(ast) {
        Some((op, l, r)) => match (pure_value(l, scopes), pure_value(r, scopes)) {
            (Some(ValueV::Arcana(a)), Some(ValueV::Arcana(b))) => if arcana_op(op, a, b) is None {
                Some(arcana_failure(op, b))
            } else {
                None
            },
            _ => None,
        },
        None => None,
    }
    }
}

/// Whether a node is `a ^ b` on two arcana whose values are known, with a
/// negative exponent.
pub open spec fn pow_negative(ast: AST, scopes: Seq<crate::env::VarScope>) -> bool {
    match ast {
        AST::PowArcana(l, r, _) => match (pure_value(*l, scopes), pure_value(*r, scopes)) {
            (Some(ValueV::Arcana(_)), Some(ValueV::Arcana(b))) => b < 0,
            _ => false,
        },
        _ => false,
    }
}

/// The name an assignment to an immutable variable targets, where its
/// value is known (see [`pure_value`]) and the variable is not morph.
pub open spec fn immutable_target(ast: AST, scopes: Seq<crate::env::VarScope>) -> Option<Seq<char>> {
    match ast {
        AST::Assignment { name, value, .. } => match (pure_value(*value, scopes), var_lookup(scopes, name@)) {
            (Some(_), Some(info)) => if !info.is_morph { Some(name@) } else { None },
            _ => None,
        },
        _ => None,
    }
}

/// Whether a node is a leaf.
pub open spec fn is_leaf(ast: AST) -> bool {
    ast is Omen || ast is Arcana || ast is Rune || ast is Abyss || ast is Comment || ast is OracleDontCareItem
        || ast is Resume || ast is Eject || ast is Var
}

/// What evaluating `ast` may do, by the contract of [`evaluate`]: how the
/// environment `before` becomes `after`, the output written so far `w0`
/// becomes `w1` (stated where the host keeps a model of its output,
/// `models`), and what the result `r` is (see [`evaluate`] for the
/// clauses in words).
#[verifier::opaque]
pub open spec fn evaluates(
    ast: AST,
    before: Environment,
    after: Environment,
    models: bool,
    w0: Seq<char>,
    w1: Seq<char>,
    r: Result<EvalResult, EvalError>,
) -> bool {
    &&& (pure_value(ast, before.scopes()) is Some ==> w1 == w0)
    &&& (keeps(before, after))
    &&& (is_leaf(ast) ==> after.scopes() == before.scopes())
    &&& (leaf_value(ast, before.scopes()) matches Some(v) ==> (r matches Ok(res) && res@ == v))
    &&& ((unwrapped(ast) matches AST::Var(name, l) && var_lookup(before.scopes(), name@) is None) ==> (r matches Err(
        EvalError::UndefinedVariable(m, li),
        ) && unwrapped(ast)->Var_1 == li && m@ == suggestion_label(unwrapped(ast)->Var_0@, suggestions(unwrapped(ast)->Var_0@, all_names(before.scopes()), 3))))
    &&& (pure_value(ast, before.scopes()) matches Some(v) ==> (r matches Ok(res) && res@ == EvalResultV::Data(v)
        && after.scopes() == before.scopes()))
    &&& (list_value(unwrapped(ast), before.scopes()) matches Some(v) ==> (r matches Ok(res) && res@ == EvalResultV::Data(v)
        && after.scopes() == before.scopes()))
    &&& (map_value(unwrapped(ast), before.scopes()) matches Some(v) ==> (r matches Ok(res) && res@ == EvalResultV::Data(v)
        && after.scopes() == before.scopes()))
    &&& (forge_value(ast, before.scopes()) matches Some((name, v)) ==> (r matches Ok(res) && res@ == EvalResultV::Data(
        ValueV::Abyss,
        ) && var_value(after.scopes(), name) == Some(v) && after.scopes().len() == before.scopes().len()
        && after.scopes().drop_last() == before.scopes().drop_last() && scope_model(after.scopes().last())
        == model_bind(scope_model(before.scopes().last()), name, v)))
    &&& (assign_effect(ast, before.scopes()) matches Some((n, nv)) ==> (r matches Ok(res) && res@ == EvalResultV::Data(
        ValueV::Abyss,
        ) && var_value(after.scopes(), n) == Some(nv) && forall|o: Seq<char>| o != n ==> #[trigger] var_lookup(
        after.scopes(),
        o,
        ) == var_lookup(before.scopes(), o)))
    &&& (forge_binding(ast, before.scopes()) matches Some(bnd) ==> same_vars(after.scopes(), forge_stack(before.scopes(), bnd)))
    &&& (unwrapped(ast) matches AST::Block(stmts, _) ==> (block_exec(stmts@, before.scopes(), ValueV::Abyss) matches Some((v, s2)) ==> (r matches Ok(
        res,
        ) && res@ == EvalResultV::Data(v) && same_vars(after.scopes(), s2))))
    &&& (assign_effect(unwrapped(ast), before.scopes()) matches Some((n, nv)) ==> (r matches Ok(res) && res@ == EvalResultV::Data(
        ValueV::Abyss,
        ) && same_vars(after.scopes(), assign_stack(before.scopes(), n, nv))))
    &&& (unwrapped(ast) is IndexAssignment ==> (index_assign_effect(unwrapped(ast), before.scopes()) matches Some((n, nv)) ==> (r matches Ok(res) && res@
        == EvalResultV::Data(ValueV::Abyss) && var_value(after.scopes(), n) == Some(nv) && forall|o: Seq<char>| o != n
        ==> #[trigger] var_lookup(after.scopes(), o) == var_lookup(before.scopes(), o))))
    &&& (crate::eval::oracles::oracle_ward_fails(unwrapped(ast), before.scopes()) ==> (r matches Err(
        EvalError::InvalidOperation(mm, _),
        ) && mm@ == "Oracle ward must evaluate to an omen"@))
    &&& (arith_failure(unwrapped(ast), before.scopes()) matches Some(m) ==> (r matches Err(EvalError::InvalidOperation(mm, _))
        && mm@ == m))
    &&& (immutable_target(unwrapped(ast), before.scopes()) matches Some(n) ==> (r matches Err(EvalError::InvalidOperation(mm, li))
        && mm@ == "Cannot reassign to immutable variable "@ + n && li == unwrapped(ast)->Assignment_line_info
        && after.scopes() == before.scopes()))
    &&& (pow_negative(unwrapped(ast), before.scopes()) ==> (r matches Err(EvalError::NegativeExponent(li))
        && li == unwrapped(ast)->PowArcana_2))
    &&& ((forge_rhs(unwrapped(ast), before.scopes(), before.functions()) matches Some((n, v)) ==> (r matches Ok(
        res,
        ) && res@ == EvalResultV::Data(ValueV::Abyss) && var_value(after.scopes(), n) == Some(v)
        && after.scopes().len() == before.scopes().len() && after.scopes().drop_last() == before.scopes().drop_last() && scope_model(after.scopes().last()) == model_bind(scope_model(before.scopes().last()), n, v))))
    &&& (shape_ok(ast, r))
    &&& (unwrapped(ast) matches AST::Engrave { name, .. } ==> r is Ok && after.scopes() == before.scopes() && (fn_index(
        after.functions(),
        name@,
        ) matches Some(i) && after.functions()[i].1 matches Callable::Engraved(f) && engraved_from(f, unwrapped(ast))))
    &&& (oracle_value(unwrapped(ast), before.scopes()) matches Some(v) ==> (r matches Ok(res) && res@ == EvalResultV::Data(v)
        && after.scopes() == before.scopes()))
    &&& (unwrapped(ast) matches AST::ArtifactDef { name, fields, .. } ==> (r is Ok ==> (schema_index(after.artifacts(), name@) matches Some(
        i,
        ) && after.artifacts()[i].fields@.len() == fields@.len())))
    &&& ((orbit_range(unwrapped(ast), 0, before.scopes()) matches Some((a, b, inc)) && range_empty(a, b, inc)) ==> (r matches Ok(v)
        && v@ == EvalResultV::Data(ValueV::Abyss) && after.scopes() == before.scopes()))
    &&& (orbit_run(unwrapped(ast), before.scopes()) matches Some(e) ==> (r matches Ok(v) && v@ == EvalResultV::Data(ValueV::Abyss)
        && same_vars(after.scopes(), e)))
    &&& (reveal_value(ast, before.scopes()) matches Some(v) ==> (r matches Ok(res) && res@ == EvalResultV::Revealed(
        Box::new(EvalResultV::Data(v)),
        ) && after.scopes() == before.scopes()))
    &&& ((unwrapped(ast) matches AST::Block(stmts, _) && block_run(stmts@, before.scopes(), ValueV::Abyss) is Some) ==> (r matches Ok(
        res,
        ) && res@ == EvalResultV::Data(block_value(unwrapped(ast)->Block_0@, before.scopes(), ValueV::Abyss).unwrap())
        && after.scopes().len() == before.scopes().len() && after.scopes().drop_last() == before.scopes().drop_last() && same_bindings(
        after.scopes(),
        block_run(unwrapped(ast)->Block_0@, before.scopes(), ValueV::Abyss).unwrap().1,
        )))
    &&& (call_value(unwrapped(ast), before.scopes(), before.functions()) matches Some(v) ==> (r matches Ok(res) && res@
        == EvalResultV::Data(v) && after.scopes() == before.scopes()))
    &&& (call_undefined(unwrapped(ast), before.functions()) matches Some(n) ==> (r matches Err(EvalError::UndefinedVariable(m, l))
        && l == unwrapped(ast)->FuncCall_line_info && m@ == suggestion_label(n, suggestions(n, function_names_spec(before), 3))))
    &&& (call_arity(unwrapped(ast), before.scopes(), before.functions()) matches Some((n, p, a)) ==> (r matches Err(
        EvalError::InvalidOperation(m, l),
        ) && l == unwrapped(ast)->FuncCall_line_info && m@ == arity_message(n, p, a)))
    &&& (builtin_of(unwrapped(ast), before.functions()) matches Some(b) ==> (all_valued(unwrapped(ast)->FuncCall_args@, before.scopes())
        ==> exists|cargs: Seq<CallArg>| #[trigger] builtin_args(cargs, unwrapped(ast)->FuncCall_args@, before.scopes())
        && builtin_post(b, before.scopes(), after, cargs, unwrapped(ast)->FuncCall_line_info, r)
        && (models ==> crate::eval::expressions::builtin_writes(b, cargs, w0, w1, r))))
}

/// What `evaluate` promises with a model of the output promises, with
/// the output left aside, too.
pub proof fn lemma_evaluates_without_output(
    ast: AST,
    before: Environment,
    after: Environment,
    models: bool,
    w0: Seq<char>,
    w1: Seq<char>,
    r: Result<EvalResult, EvalError>,
)
    requires
        evaluates(ast, before, after, models, w0, w1, r),
    ensures
        evaluates(ast, before, after, false, w0, w1, r),
{
    reveal(evaluates);
}

/// Evaluates a node of a program in `env`. Output and input go through
/// `io`; aether arithmetic is done by `math`.
///
/// Its contract: at least one scope always remains and the budget of
/// unbounded iterations only shrinks; literals, names and signals give
/// their values and change nothing; an unknown name is reported with the
/// close names suggested; expressions of literals, names, arithmetic,
/// comparisons, logic, indexing and casts between arcana and runes give
/// what the operators compute and change nothing; scroll and lexicon
/// literals of such expressions give their values (a later entry under a
/// key replacing an earlier one); `forge` binds the value
/// it was given in the innermost scope; `name op= e` on a morph variable
/// stores its new value and leaves every other name as it was; `reveal`
/// gives a revealed value; a block runs its statements (`forge`,
/// assignments, expressions, `reveal`) in the current scope and gives the
/// value of the first `reveal` or of its last statement; an oracle binds its scrutinees and gives the body of the
/// first branch whose patterns match (or, without a match, whose
/// conditions hold) and whose ward holds, or abyss when there is none; an
/// orbit over an empty range does nothing, and one with a single
/// parameter runs its block body once per value of the range, in order,
/// each pass in a new scope that binds the parameter; definitions bind what they
/// define (`engrave` a copy of the function); a call of an engraved
/// function whose arguments have values runs its body with the parameters
/// bound in a new scope, a call of a built-in whose arguments have values
/// does what that built-in promises for those values (with the variable
/// each bare-variable argument reads; `unveil` appends its line to the
/// output where the host keeps a model of it, see
/// [`crate::env::IoBridge::models_output`], and an expression whose value
/// is known leaves the host untouched), a call of an unknown function is reported with
/// close names suggested, and one with the wrong number of arguments is
/// reported with both counts; and each kind of node gives its kind of
/// result.
pub fn evaluate<B: IoBridge, M: AetherOps>(ast: &AST, env: &mut Environment, io: &mut B, math: &M) -> (r: Result<EvalResult, EvalError>)
    requires
        old(env).scopes().len() >= 1,
    ensures
        evaluates(*ast, *old(env), *final(env), old(io).models_output(), old(io).written(), final(io).written(), r),
        keeps(*old(env), *final(env)),
{
    let r = eval_node(ast, env, io, math, MAX_CALL_DEPTH);
    proof {
        reveal(evaluates);
    }
    r
}

/// Evaluates each expression of `items` into a value.
fn eval_values<B: IoBridge, M: AetherOps>(
    node: &AST,
    env: &mut Environment,
    io: &mut B,
    math: &M,
    depth: u64,
) -> (r: Result<Vec<Value>, EvalError>)
    requires
        old(env).scopes().len() >= 1,
        node is ListLiteral,
    ensures
        keeps(*old(env), *final(env)),
        all_valued(node->ListLiteral_elements@, old(env).scopes()) ==> (r matches Ok(out) && crate::env::values_view(out@)
            == values_of(node->ListLiteral_elements@, old(env).scopes()) && final(env).scopes() == old(env).scopes()),
    decreases depth, node, 1nat,
{
    match node {
        AST::ListLiteral { elements, line_info } => {
            let ghost s0 = old(env).scopes();
            let ghost ok = all_valued(elements@, s0);
            let mut out: Vec<Value> = Vec::new();
            let mut i: usize = 0;
            while i < elements.len()
                invariant
                    i <= elements@.len(),
                    keeps(*old(env), *env),
                    decreases_to!(node => elements),
                    s0 == old(env).scopes(),
                    ok == all_valued(elements@, s0),
                    *node == (AST::ListLiteral { elements: *elements, line_info: *line_info }),
                    ok ==> env.scopes() == s0 && out@.len() == i && forall|k: int| 0 <= k < i ==> (#[trigger] out@[k])@
                        == values_of(elements@, s0)[k],
                decreases elements@.len() - i,
            {
                assert(decreases_to!(node => elements@[i as int]));
                proof {
                    if ok {
                        assert(pure_value(elements@[i as int], s0) is Some);
                    }
                }
                let v = eval_node(&elements[i], env, io, math, depth)?;
                let v = eval_result_to_value_checked(v, *line_info)?;
                out.push(v);
                i = i + 1;
            }
            proof {
                if ok {
                    crate::env::lemma_values_view_len(out@);
                    assert(crate::env::values_view(out@) =~= values_of(elements@, s0));
                }
            }
            Ok(out)
        },
        _ => Ok(Vec::new()),
    }
}

/// Evaluates the entries of a lexicon literal; a later entry under the
/// same key replaces an earlier one.
fn eval_entries<B: IoBridge, M: AetherOps>(
    node: &AST,
    env: &mut Environment,
    io: &mut B,
    math: &M,
    depth: u64,
) -> (r: Result<Vec<(String, Value)>, EvalError>)
    requires
        old(env).scopes().len() >= 1,
    ensures
        keeps(*old(env), *final(env)),
        (node matches AST::MapLiteral { entries, .. } && entries_valued(entries@, old(env).scopes())) ==> (r matches Ok(out)
            && crate::env::entries_view(out@) == entries_fold(node->MapLiteral_entries@, old(env).scopes(), node->MapLiteral_entries@.len())
            && final(env).scopes() == old(env).scopes()),
    decreases depth, node, 0nat,
{
    let ghost s0 = old(env).scopes();
    let ghost ok = node matches AST::MapLiteral { entries, .. } && entries_valued(entries@, s0);
    let (entries, line_info) = match node {
        AST::MapLiteral { entries, line_info } => (entries, line_info),
        AST::ArtifactLiteral { fields, line_info, .. } => (fields, line_info),
        _ => {
            return Ok(Vec::new());
        },
    };
    let mut out: Vec<(String, Value)> = Vec::new();
    let mut i: usize = 0;
    while i < entries.len()
        invariant
            i <= entries@.len(),
            keeps(*old(env), *env),
            decreases_to!(node => entries),
            s0 == old(env).scopes(),
            ok == (node matches AST::MapLiteral { entries, .. } && entries_valued(entries@, s0)),
            ok ==> *entries == node->MapLiteral_entries && entries_valued(entries@, s0),
            ok ==> env.scopes() == s0 && crate::env::entries_view(out@) == entries_fold(entries@, s0, i as nat),
        decreases entries@.len() - i,
    {
        assert(decreases_to!(node => entries@[i as int].1));
        proof {
            if ok {
                assert(pure_value(entries@[i as int].1, s0) is Some);
            }
        }
        let v = eval_node(&entries[i].1, env, io, math, depth)?;
        let v = eval_result_to_value_checked(v, *line_info)?;
        let key = entries[i].0.clone();
        proof {
            crate::eval::collections::lemma_insert_view(out@, key, v);
        }
        lexicon_insert(&mut out, key, v);
        i = i + 1;
    }
    Ok(out)
}

/// Evaluates a node, with `depth` more nested calls of engraved functions
/// allowed.
#[verifier::rlimit(45)]
pub fn eval_node<B: IoBridge, M: AetherOps>(
    ast: &AST,
    env: &mut Environment,
    io: &mut B,
    math: &M,
    depth: u64,
) -> (r: Result<EvalResult, EvalError>)
    requires
        old(env).scopes().len() >= 1,
    ensures
        keeps(*old(env), *final(env)),
        is_leaf(*ast) ==> final(env).scopes() == old(env).scopes(),
        leaf_value(*ast, old(env).scopes()) matches Some(v) ==> (r matches Ok(res) && res@ == v),
        (unwrapped(*ast) matches AST::Var(name, l) && var_lookup(old(env).scopes(), name@) is None) ==> (r matches Err(
            EvalError::UndefinedVariable(m, li),
        ) && unwrapped(*ast)->Var_1 == li && m@ == suggestion_label(unwrapped(*ast)->Var_0@, suggestions(unwrapped(*ast)->Var_0@, all_names(old(env).scopes()), 3))),
        pure_value(*ast, old(env).scopes()) matches Some(v) ==> (r matches Ok(res) && res@ == EvalResultV::Data(v)
            && final(env).scopes() == old(env).scopes()),
        pure_value(*ast, old(env).scopes()) is Some ==> *final(io) == *old(io),
        list_value(unwrapped(*ast), old(env).scopes()) matches Some(v) ==> (r matches Ok(res) && res@ == EvalResultV::Data(v)
            && final(env).scopes() == old(env).scopes()),
        map_value(unwrapped(*ast), old(env).scopes()) matches Some(v) ==> (r matches Ok(res) && res@ == EvalResultV::Data(v)
            && final(env).scopes() == old(env).scopes()),
        forge_value(*ast, old(env).scopes()) matches Some((name, v)) ==> (r matches Ok(res) && res@ == EvalResultV::Data(
            ValueV::Abyss,
        ) && var_value(final(env).scopes(), name) == Some(v) && final(env).scopes().len() == old(env).scopes().len()
            && final(env).scopes().drop_last() == old(env).scopes().drop_last() && scope_model(final(env).scopes().last())
            == model_bind(scope_model(old(env).scopes().last()), name, v)),
        assign_effect(*ast, old(env).scopes()) matches Some((n, nv)) ==> (r matches Ok(res) && res@ == EvalResultV::Data(
            ValueV::Abyss,
        ) && var_value(final(env).scopes(), n) == Some(nv) && forall|o: Seq<char>| o != n ==> #[trigger] var_lookup(
            final(env).scopes(),
            o,
        ) == var_lookup(old(env).scopes(), o)),
        forge_binding(*ast, old(env).scopes()) matches Some(bnd) ==> same_vars(final(env).scopes(), forge_stack(old(env).scopes(), bnd)),
        unwrapped(*ast) matches AST::Block(stmts, _) ==> (block_exec(stmts@, old(env).scopes(), ValueV::Abyss) matches Some((v, s2)) ==> (r matches Ok(
            res,
        ) && res@ == EvalResultV::Data(v) && same_vars(final(env).scopes(), s2))),
        assign_effect(unwrapped(*ast), old(env).scopes()) matches Some((n, nv)) ==> (r matches Ok(res) && res@ == EvalResultV::Data(
            ValueV::Abyss,
        ) && same_vars(final(env).scopes(), assign_stack(old(env).scopes(), n, nv))),
        unwrapped(*ast) is IndexAssignment ==> (index_assign_effect(unwrapped(*ast), old(env).scopes()) matches Some((n, nv)) ==> (r matches Ok(res) && res@
            == EvalResultV::Data(ValueV::Abyss) && var_value(final(env).scopes(), n) == Some(nv) && forall|o: Seq<char>| o != n
            ==> #[trigger] var_lookup(final(env).scopes(), o) == var_lookup(old(env).scopes(), o))),
        crate::eval::oracles::oracle_ward_fails(unwrapped(*ast), old(env).scopes()) ==> (r matches Err(
            EvalError::InvalidOperation(mm, _),
        ) && mm@ == "Oracle ward must evaluate to an omen"@),
        arith_failure(unwrapped(*ast), old(env).scopes()) matches Some(m) ==> (r matches Err(EvalError::InvalidOperation(mm, _))
            && mm@ == m),
        immutable_target(unwrapped(*ast), old(env).scopes()) matches Some(n) ==> (r matches Err(EvalError::InvalidOperation(mm, li))
            && mm@ == "Cannot reassign to immutable variable "@ + n && li == unwrapped(*ast)->Assignment_line_info
            && final(env).scopes() == old(env).scopes()),
        pow_negative(unwrapped(*ast), old(env).scopes()) ==> (r matches Err(EvalError::NegativeExponent(li))
            && li == unwrapped(*ast)->PowArcana_2),
        depth > 0 ==> (forge_rhs(unwrapped(*ast), old(env).scopes(), old(env).functions()) matches Some((n, v)) ==> (r matches Ok(
            res,
        ) && res@ == EvalResultV::Data(ValueV::Abyss) && var_value(final(env).scopes(), n) == Some(v)
            && final(env).scopes().len() == old(env).scopes().len() && final(env).scopes().drop_last() == old(
            env,
        ).scopes().drop_last() && scope_model(final(env).scopes().last()) == model_bind(scope_model(old(env).scopes().last()), n, v))),
        shape_ok(*ast, r),
        unwrapped(*ast) matches AST::Engrave { name, .. } ==> r is Ok && final(env).scopes() == old(env).scopes() && (fn_index(
            final(env).functions(),
            name@,
        ) matches Some(i) && final(env).functions()[i].1 matches Callable::Engraved(f) && engraved_from(f, unwrapped(*ast))),
        oracle_value(unwrapped(*ast), old(env).scopes()) matches Some(v) ==> (r matches Ok(res) && res@ == EvalResultV::Data(v)
            && final(env).scopes() == old(env).scopes()),
        unwrapped(*ast) matches AST::ArtifactDef { name, fields, .. } ==> (r is Ok ==> (schema_index(final(env).artifacts(), name@) matches Some(
            i,
        ) && final(env).artifacts()[i].fields@.len() == fields@.len())),
        (orbit_range(unwrapped(*ast), 0, old(env).scopes()) matches Some((a, b, inc)) && range_empty(a, b, inc)) ==> (r matches Ok(v)
            && v@ == EvalResultV::Data(ValueV::Abyss) && final(env).scopes() == old(env).scopes()),
        orbit_run(unwrapped(*ast), old(env).scopes()) matches Some(e) ==> (r matches Ok(v) && v@ == EvalResultV::Data(ValueV::Abyss)
            && same_vars(final(env).scopes(), e)),
        reveal_value(*ast, old(env).scopes()) matches Some(v) ==> (r matches Ok(res) && res@ == EvalResultV::Revealed(
            Box::new(EvalResultV::Data(v)),
        ) && final(env).scopes() == old(env).scopes()),
        (unwrapped(*ast) matches AST::Block(stmts, _) && block_run(stmts@, old(env).scopes(), ValueV::Abyss) is Some) ==> (r matches Ok(
            res,
        ) && res@ == EvalResultV::Data(block_value(unwrapped(*ast)->Block_0@, old(env).scopes(), ValueV::Abyss).unwrap())
            && final(env).scopes().len() == old(env).scopes().len() && final(env).scopes().drop_last() == old(
            env,
        ).scopes().drop_last() && same_bindings(
            final(env).scopes(),
            block_run(unwrapped(*ast)->Block_0@, old(env).scopes(), ValueV::Abyss).unwrap().1,
        )),
        depth > 0 ==> (call_value(unwrapped(*ast), old(env).scopes(), old(env).functions()) matches Some(v) ==> (r matches Ok(res)
            && res@ == EvalResultV::Data(v) && final(env).scopes() == old(env).scopes())),
        call_undefined(unwrapped(*ast), old(env).functions()) matches Some(n) ==> (r matches Err(EvalError::UndefinedVariable(m, l))
            && l == unwrapped(*ast)->FuncCall_line_info && m@ == suggestion_label(n, suggestions(n, function_names_spec(*old(env)), 3))),
        call_arity(unwrapped(*ast), old(env).scopes(), old(env).functions()) matches Some((n, p, a)) ==> (r matches Err(
            EvalError::InvalidOperation(m, l),
        ) && l == unwrapped(*ast)->FuncCall_line_info && m@ == arity_message(n, p, a)),
        builtin_of(unwrapped(*ast), old(env).functions()) matches Some(b) ==> (all_valued(unwrapped(*ast)->FuncCall_args@, old(env).scopes())
            ==> exists|cargs: Seq<CallArg>| #[trigger] builtin_args(cargs, unwrapped(*ast)->FuncCall_args@, old(env).scopes())
            && builtin_post(b, old(env).scopes(), *final(env), cargs, unwrapped(*ast)->FuncCall_line_info, r)
            && (old(io).models_output() ==> crate::eval::expressions::builtin_writes(b, cargs, old(io).written(), final(io).written(), r))),
    decreases depth, ast, node_rank(*ast),
{
    proof {
        crate::eval::oracles::lemma_oracle_value_kind(*ast, old(env).scopes());
        crate::eval::calls::lemma_call_value_kind(*ast, old(env).scopes(), old(env).functions());
        crate::eval::oracles::lemma_oracle_value_kind(unwrapped(*ast), old(env).scopes());
        crate::eval::calls::lemma_call_value_kind(unwrapped(*ast), old(env).scopes(), old(env).functions());
    }
    match ast {
        AST::Statement(inner, _) => eval_node(inner, env, io, math, depth),
        AST::Omen(b, _) => Ok(EvalResult::Data(Value::Omen(*b))),
        AST::Arcana(n, _) => Ok(EvalResult::Data(Value::Arcana(*n))),
        AST::Aether(text, line_info) => match math.parse(text.as_str()) {
            Some(bits) => Ok(EvalResult::Data(Value::Aether(bits))),
            None => Err(EvalError::InvalidOperation(owned("Invalid aether literal"), *line_info)),
        },
        AST::Rune(s, _) => Ok(EvalResult::Data(Value::Rune(s.clone()))),
        AST::Abyss(_) => Ok(EvalResult::Data(Value::Abyss)),
        AST::ListLiteral { .. } => {
            let items = eval_values(ast, env, io, math, depth)?;
            Ok(EvalResult::Data(Value::Scroll(items)))
        },
        AST::MapLiteral { .. } => {
            let entries = eval_entries(ast, env, io, math, depth)?;
            Ok(EvalResult::Data(Value::Lexicon(entries)))
        },
        AST::Add(l, rt, li) => {
            let a = eval_node(l, env, io, math, depth)?;
            let b = eval_node(rt, env, io, math, depth)?;
            binary_numeric_op(math, NumOp::Add, a, b, li)
        },
        AST::Sub(l, rt, li) => {
            let a = eval_node(l, env, io, math, depth)?;
            let b = eval_node(rt, env, io, math, depth)?;
            binary_numeric_op(math, NumOp::Sub, a, b, li)
        },
        AST::Mul(l, rt, li) => {
            let a = eval_node(l, env, io, math, depth)?;
            let b = eval_node(rt, env, io, math, depth)?;
            binary_numeric_op(math, NumOp::Mul, a, b, li)
        },
        AST::Div(l, rt, li) => {
            let a = eval_node(l, env, io, math, depth)?;
            let b = eval_node(rt, env, io, math, depth)?;
            binary_numeric_op(math, NumOp::Div, a, b, li)
        },
        AST::Mod(l, rt, li) => {
            let a = eval_node(l, env, io, math, depth)?;
            let b = eval_node(rt, env, io, math, depth)?;
            binary_numeric_op(math, NumOp::Mod, a, b, li)
        },
        AST::PowArcana(l, rt, li) => {
            let a = eval_node(l, env, io, math, depth)?;
            let b = eval_node(rt, env, io, math, depth)?;
            pow_arcana_op(a, b, li)
        },
        AST::PowAether(l, rt, li) => {
            let a = eval_node(l, env, io, math, depth)?;
            let b = eval_node(rt, env, io, math, depth)?;
            pow_aether_op(math, a, b, li)
        },
        AST::Equal(l, rt, li) => {
            let a = eval_node(l, env, io, math, depth)?;
            let b = eval_node(rt, env, io, math, depth)?;
            compare_values(math, a, b, li, true)
        },
        AST::NotEqual(l, rt, li) => {
            let a = eval_node(l, env, io, math, depth)?;
            let b = eval_node(rt, env, io, math, depth)?;
            compare_values(math, a, b, li, false)
        },
        AST::LessThan(l, rt, li) => {
            let a = eval_node(l, env, io, math, depth)?;
            let b = eval_node(rt, env, io, math, depth)?;
            order_values(math, a, b, li, OrderOp::Less)
        },
        AST::LessThanOrEqual(l, rt, li) => {
            let a = eval_node(l, env, io, math, depth)?;
            let b = eval_node(rt, env, io, math, depth)?;
            order_values(math, a, b, li, OrderOp::LessEq)
        },
        AST::GreaterThan(l, rt, li) => {
            let a = eval_node(l, env, io, math, depth)?;
            let b = eval_node(rt, env, io, math, depth)?;
            order_values(math, a, b, li, OrderOp::Greater)
        },
        AST::GreaterThanOrEqual(l, rt, li) => {
            let a = eval_node(l, env, io, math, depth)?;
            let b = eval_node(rt, env, io, math, depth)?;
            order_values(math, a, b, li, OrderOp::GreaterEq)
        },
        AST::LogicalAnd(l, rt, li) => {
            let a = eval_node(l, env, io, math, depth)?;
            let b = eval_node(rt, env, io, math, depth)?;
            logical_op(a, b, li, true)
        },
        AST::LogicalOr(l, rt, li) => {
            let a = eval_node(l, env, io, math, depth)?;
            let b = eval_node(rt, env, io, math, depth)?;
            logical_op(a, b, li, false)
        },
        AST::LogicalNot(e, li) => {
            let a = eval_node(e, env, io, math, depth)?;
            logical_not(a, li)
        },
        AST::Var(name, line_info) => match env.get_var(name.as_str()) {
            Some(info) => Ok(EvalResult::Data(copy_value(&info.value))),
            None => Err(undefined_variable(env, name.as_str(), line_info)),
        },
        AST::Trans(e, target, li) => {
            let v = eval_node(e, env, io, math, depth)?;
            trans_value(math, v, target, li)
        },
        AST::IndexAccess { .. } => eval_index(ast, env, io, math, depth),
        AST::FuncCall { .. } => eval_call(ast, env, io, math, depth),
        AST::VarAssign { name, value, var_type, is_morph, line_info } => {
            proof {
                crate::eval::oracles::lemma_oracle_value_kind(**value, old(env).scopes());
                crate::eval::calls::lemma_call_value_kind(**value, old(env).scopes(), old(env).functions());
            }
            let v = eval_node(value, env, io, math, depth)?;
            let stored = convert_to_typed_value(v, var_type, line_info)?;
            let key = name.clone();
            let t = copy_type(var_type);
            let ghost before = env.scopes();
            let ghost info = crate::env::VarInfo { value: stored, var_type: t, is_morph: *is_morph, line_info: *line_info };
            let ghost k = key;
            proof {
                assert(before =~= before.drop_last().push(before.last()));
                lemma_set_var_model(before.drop_last(), before.last(), k, info);
            }
            env.set_var(key, stored, t, *is_morph, *line_info);
            proof {
                crate::env::lemma_set_var_lookup(before, k, info, name@);
                crate::eval::stacks::lemma_set_var_full(before, k, info);
            }
            Ok(EvalResult::Data(Value::Abyss))
        },
        AST::Assignment { .. } => eval_assignment(ast, env, io, math, depth),
        AST::IndexAssignment { .. } => eval_index_assignment(ast, env, io, math, depth),
        AST::Oracle { .. } => eval_oracle(ast, env, io, math, depth),
        AST::Reveal(e, _) => {
            let v = eval_node(e, env, io, math, depth)?;
            Ok(EvalResult::Revealed(Box::new(v)))
        },
        AST::Block(..) => eval_block(ast, env, io, math, depth),
        AST::OracleDontCareItem(_) => Ok(EvalResult::Data(Value::Omen(true))),
        AST::Orbit { params, body, line_info } => {
            if params.len() == 0 {
                eval_loop(ast, env, io, math, depth)
            } else {
                eval_orbit(ast, 0, env, io, math, depth)
            }
        },
        AST::Resume(label, _) => Ok(EvalResult::Resume(copy_label(label))),
        AST::Eject(label, _) => Ok(EvalResult::Eject(copy_label(label))),
        AST::Engrave { name, params, return_type, body, line_info } => {
            let function = EngravedFunction {
                name: name.clone(),
                params: crate::ast::copy_asts(params),
                return_type: copy_type(return_type),
                body: Box::new(copy_ast(body)),
                line_info: *line_info,
            };
            let key = name.clone();
            let callable = Callable::Engraved(function);
            proof {
                crate::env::law_set_function_then_get(env.functions(), key, callable);
            }
            env.set_function(key, callable);
            Ok(EvalResult::Data(Value::Abyss))
        },
        AST::Comment(..) => Ok(EvalResult::Data(Value::Abyss)),
        AST::ArtifactDef { name, fields, line_info } => {
            let schema = build_artifact_schema(name.as_str(), fields.as_slice(), env, line_info)?;
            proof {
                crate::env::law_define_artifact_then_lookup(env.artifacts(), schema);
            }
            env.define_artifact(schema);
            Ok(EvalResult::Data(Value::Abyss))
        },
        AST::ArtifactLiteral { .. } => eval_artifact_literal(ast, env, io, math, depth),
        AST::FieldAccess { target, field, line_info } => {
            let t = eval_node(target, env, io, math, depth)?;
            let handle = expect_artifact_from_eval(t, line_info)?;
            let v = crate::eval::artifacts::read_artifact_field(env, &handle, field.as_str(), line_info)?;
            Ok(EvalResult::Data(v))
        },
        AST::FieldAssignment { .. } => eval_field_assignment(ast, env, io, math, depth),
        _ => {
            let mut m = owned("Unsupported operation: ");
            push_str(&mut m, unsupported_kind(ast));
            Err(EvalError::InvalidOperation(m, None))
        },
    }
}

/// The name of a node that cannot be evaluated on its own.
fn unsupported_kind(ast: &AST) -> &'static str {
    match ast {
        AST::OracleBranch { .. } => "OracleBranch",
        AST::PatternBinding { .. } => "PatternBinding",
        AST::OrbitParam { .. } => "OrbitParam",
        AST::EngraveParam { .. } => "EngraveParam",
        AST::SpectrumDef { .. } => "SpectrumDef",
        AST::SpectrumPattern { .. } => "SpectrumPattern",
        AST::SpectrumInstantiation { .. } => "SpectrumInstantiation",
        _ => "node",
    }
}

/// A block: its statements run in order, in the current scope; a `reveal`
/// ends it with the revealed value, `resume` and `eject` end it with their
/// signal, and otherwise its value is that of its last statement.
fn eval_block<B: IoBridge, M: AetherOps>(
    node: &AST,
    env: &mut Environment,
    io: &mut B,
    math: &M,
    depth: u64,
) -> (r: Result<EvalResult, EvalError>)
    requires
        old(env).scopes().len() >= 1,
        node is Block,
    ensures
        keeps(*old(env), *final(env)),
        block_run(node->Block_0@, old(env).scopes(), ValueV::Abyss) matches Some((v, s2)) ==> (r matches Ok(res) && res@
            == EvalResultV::Data(v) && final(env).scopes().len() == old(env).scopes().len() && final(env).scopes().drop_last()
            == old(env).scopes().drop_last() && same_bindings(final(env).scopes(), s2)),
        block_exec(node->Block_0@, old(env).scopes(), ValueV::Abyss) matches Some((v, s2)) ==> (r matches Ok(res) && res@
            == EvalResultV::Data(v) && same_vars(final(env).scopes(), s2)),
    decreases depth, node, 1nat,
{
    let statements = match node {
        AST::Block(statements, _) => statements,
        _ => {
            return Ok(EvalResult::Data(Value::Abyss));
        },
    };
    let mut last = EvalResult::Data(Value::Abyss);
    let ghost scopes0 = old(env).scopes();
    let ghost target = block_run(statements@, scopes0, ValueV::Abyss);
    let ghost mut lv = ValueV::Abyss;
    let ghost mut sc = scopes0;
    let ghost target2 = block_exec(statements@, scopes0, ValueV::Abyss);
    let ghost mut lv2 = ValueV::Abyss;
    let ghost mut sc2 = scopes0;
    let mut i: usize = 0;
    assert(statements@.skip(0) =~= statements@);
    proof {
        lemma_same_bindings_refl(scopes0);
    }
    while i < statements.len()
        invariant
            i <= statements@.len(),
            keeps(*old(env), *env),
            decreases_to!(node => statements),
            *node == AST::Block(*statements, node->Block_1),
            scopes0 == old(env).scopes(),
            scopes0.len() >= 1,
            target == block_run(statements@, scopes0, ValueV::Abyss),
            target is Some ==> last@ == EvalResultV::Data(lv) && block_run(statements@.skip(i as int), sc, lv) == target
                && same_bindings(env.scopes(), sc) && env.scopes().len() == scopes0.len() && env.scopes().drop_last()
                == scopes0.drop_last() && sc.len() == scopes0.len(),
            target2 == block_exec(statements@, scopes0, ValueV::Abyss),
            target2 is Some ==> last@ == EvalResultV::Data(lv2) && block_exec(statements@.skip(i as int), sc2, lv2) == target2
                && same_vars(env.scopes(), sc2) && sc2.len() == scopes0.len(),
        decreases statements@.len() - i,
    {
        assert(decreases_to!(node => statements@[i as int]));
        let ghost cur = env.scopes();
        proof {
            assert(statements@.skip(i as int)[0] == statements@[i as int]);
            assert(statements@.skip(i as int).drop_first() =~= statements@.skip(i + 1));
            if target is Some {
                lemma_same_bindings_sym(cur, sc);
                crate::eval::calls::lemma_stmt_same(statements@[i as int], sc, cur);
            }
            if target2 is Some {
                crate::eval::stacks::lemma_same_vars_trans(cur, sc2, sc2);
                crate::eval::stacks::lemma_stmt_full(statements@[i as int], sc2, cur);
            }
        }
        let result = eval_node(&statements[i], env, io, math, depth)?;
        proof {
            if target is Some {
                let st = statements@[i as int];
                if reveal_value(st, sc) is None {
                    if let Some((n, v)) = forge_value(st, sc) {
                        lemma_forge_step(cur, env.scopes(), sc, n, v);
                        sc = forge_scopes(sc, n, v);
                        lv = ValueV::Abyss;
                    } else if let Some(v) = pure_value(st, sc) {
                        lv = v;
                    }
                }
            }
            if target2 is Some {
                let st = statements@[i as int];
                if reveal_value(st, sc2) is None {
                    if let Some(bnd) = forge_binding(st, sc2) {
                        crate::eval::stacks::lemma_forge_stack_same(cur, sc2, bnd);
                        assert(result@ == EvalResultV::Data(ValueV::Abyss));
                        crate::eval::stacks::lemma_same_vars_trans(env.scopes(), forge_stack(cur, bnd), forge_stack(sc2, bnd));
                        sc2 = forge_stack(sc2, bnd);
                        lv2 = ValueV::Abyss;
                    } else if let Some((n, nv)) = assign_effect(unwrapped(st), sc2) {
                        crate::eval::stacks::lemma_assign_stack_same(cur, sc2, n, nv);
                        crate::env::lemma_var_position_bounds(sc2, n);
                        assert(result@ == EvalResultV::Data(ValueV::Abyss));
                        crate::eval::stacks::lemma_same_vars_trans(env.scopes(), assign_stack(cur, n, nv), assign_stack(sc2, n, nv));
                        sc2 = assign_stack(sc2, n, nv);
                        lv2 = ValueV::Abyss;
                    } else if let Some(v) = pure_value(st, sc2) {
                        lv2 = v;
                    }
                }
            }
        }
        match result {
            EvalResult::Revealed(inner) => {
                return Ok(*inner);
            },
            EvalResult::Resume(_) | EvalResult::Eject(_) => {
                return Ok(result);
            },
            _ => {},
        }
        last = result;
        i = i + 1;
    }
    Ok(last)
}

/// `same_bindings` is reflexive.
proof fn lemma_same_bindings_refl(a: Seq<crate::env::VarScope>)
    ensures
        same_bindings(a, a),
{
}

/// `same_bindings` is symmetric.
proof fn lemma_same_bindings_sym(a: Seq<crate::env::VarScope>, b: Seq<crate::env::VarScope>)
    requires
        same_bindings(a, b),
    ensures
        same_bindings(b, a),
{
}

/// After a `forge` in stacks with the same bindings, the stack it left
/// and the one [`forge_scopes`] describes have the same bindings.
proof fn lemma_forge_step(
    before: Seq<crate::env::VarScope>,
    after: Seq<crate::env::VarScope>,
    sc: Seq<crate::env::VarScope>,
    n: Seq<char>,
    v: ValueV,
)
    requires
        same_bindings(before, sc),
        before.len() >= 1,
        after.len() == before.len(),
        after.drop_last() == before.drop_last(),
        scope_model(after.last()) == model_bind(scope_model(before.last()), n, v),
    ensures
        same_bindings(after, forge_scopes(sc, n, v)),
        forge_scopes(sc, n, v).len() == sc.len(),
{
    let m = model_bind(scope_model(sc.last()), n, v);
    assert(scope_model(before.last()) == scope_model(sc.last()));
    lemma_scope_for(m, after.last());
    let f = forge_scopes(sc, n, v);
    assert forall|i: int| 0 <= i < after.len() implies scope_model(#[trigger] after[i]) == scope_model(f[i]) by {
        if i < after.len() - 1 {
            assert(after[i] == after.drop_last()[i]);
            assert(before[i] == before.drop_last()[i]);
            assert(f[i] == sc[i]);
        }
    }
}

/// An orbit without parameters: runs its body until it ejects, each pass
/// in a new scope, within the environment's budget of iterations.
fn eval_loop<B: IoBridge, M: AetherOps>(
    node: &AST,
    env: &mut Environment,
    io: &mut B,
    math: &M,
    depth: u64,
) -> (r: Result<EvalResult, EvalError>)
    requires
        old(env).scopes().len() >= 1,
    ensures
        keeps(*old(env), *final(env)),
        r matches Ok(v) ==> v@ == EvalResultV::Data(ValueV::Abyss),
    decreases depth, node, 1nat,
{
    let (body, line_info) = match node {
        AST::Orbit { body, line_info, .. } => (body, line_info),
        _ => {
            return Err(EvalError::InvalidOperation(owned("Expected an orbit"), None));
        },
    };
    loop
        invariant
            keeps(*old(env), *env),
            decreases_to!(node => body),
        decreases env.budget(),
    {
        if !env.spend() {
            return Err(EvalError::InvalidOperation(owned("Orbit exceeded its iteration budget"), *line_info));
        }
        env.push_scope();
        let result = eval_node(body, env, io, math, depth)?;
        match result {
            EvalResult::Resume(_) => {
                continue;
            },
            EvalResult::Eject(_) => {
                break;
            },
            _ => {},
        }
        env.pop_scope();
    }
    Ok(EvalResult::Data(Value::Abyss))
}

/// The loop over the `idx`-th parameter of an orbit, `name = start..end`
/// (or `..=`), running the orbit over the remaining parameters, or its
/// body, once per value, each in a new scope. `resume` and `eject` with
/// this parameter's name, or with none, act here; with another name they
/// travel outwards.
#[verifier::rlimit(80)]
#[verifier::spinoff_prover]
fn eval_orbit<B: IoBridge, M: AetherOps>(
    node: &AST,
    idx: usize,
    env: &mut Environment,
    io: &mut B,
    math: &M,
    depth: u64,
) -> (r: Result<EvalResult, EvalError>)
    requires
        old(env).scopes().len() >= 1,
    ensures
        keeps(*old(env), *final(env)),
        r matches Ok(v) ==> v@ == EvalResultV::Data(ValueV::Abyss) || v matches EvalResult::Resume(Some(_)) || v matches EvalResult::Eject(Some(_)),
        (orbit_range(*node, idx as int, old(env).scopes()) matches Some((a, b, inc)) && range_empty(a, b, inc)) ==> (r matches Ok(
            v,
        ) && v@ == EvalResultV::Data(ValueV::Abyss) && final(env).scopes() == old(env).scopes()),
        idx == 0 ==> (orbit_run(*node, old(env).scopes()) matches Some(e) ==> (r matches Ok(v) && v@ == EvalResultV::Data(
            ValueV::Abyss,
        ) && same_vars(final(env).scopes(), e))),
    decreases depth, node, orbit_rank(*node, idx as int),
{
    let (params, body, line_info) = match node {
        AST::Orbit { params, body, line_info } => (params, body, line_info),
        _ => {
            return Err(EvalError::InvalidOperation(owned("Expected an orbit"), None));
        },
    };
    if idx >= params.len() {
        return Err(EvalError::InvalidOperation(owned("Expected OrbitParam in Orbit"), *line_info));
    }
    assert(decreases_to!(node => params@[idx as int]));
    let (name, start, end, op) = match &params[idx] {
        AST::OrbitParam { name, start, end, op, .. } => (name, start, end, op),
        _ => {
            return Err(EvalError::InvalidOperation(owned("Expected OrbitParam in Orbit"), *line_info));
        },
    };
    let start_value = eval_node(start, env, io, math, depth)?;
    let end_value = eval_node(end, env, io, math, depth)?;
    let (first, last) = match (start_value, end_value) {
        (EvalResult::Data(Value::Arcana(s)), EvalResult::Data(Value::Arcana(e))) => (s, e),
        _ => {
            let mut m = owned("Orbit parameter must be of type Arcana: ");
            push_str(&mut m, name.as_str());
            return Err(EvalError::TypeError(m, *line_info));
        },
    };
    let stop: i128 = if str_eq(op.as_str(), "..") { last as i128 } else { last as i128 + 1 };
    let next = idx + 1;
    let is_last = next == params.len();
    assert(decreases_to!(node => **body));
    let mut cur: i128 = first as i128;
    let ghost scopes0 = old(env).scopes();
    let ghost empty = orbit_range(*node, idx as int, scopes0) matches Some((a, b, inc)) && range_empty(a, b, inc);
    proof {
        if empty {
            assert(params@[idx as int] == params[idx as int]);
        }
    }
    assert(empty ==> stop <= cur && env.scopes() == scopes0);
    let ghost run = if idx == 0 { orbit_run(*node, scopes0) } else { None };
    let ghost stmts: Seq<AST> = if (**body) is Block { (**body)->Block_0@ } else { Seq::empty() };
    let ghost mut sc = scopes0;
    proof {
        if run is Some {
            assert(params@[idx as int] == params[idx as int]);
            assert(is_last);
            crate::eval::stacks::lemma_same_vars_refl(scopes0);
        }
    }
    while cur < stop
        invariant
            empty ==> stop <= cur && env.scopes() == scopes0,
            scopes0 == old(env).scopes(),
            empty == (orbit_range(*node, idx as int, scopes0) matches Some((a, b, inc)) && range_empty(a, b, inc)),
            keeps(*old(env), *env),
            first <= cur,
            stop <= i64::MAX as i128 + 1,
            decreases_to!(node => **body),
            next == idx + 1,
            orbit_rank(*node, next as int) < orbit_rank(*node, idx as int),
            run is Some ==> is_last && (**body) is Block && (**body)->Block_0@ == stmts && crate::eval::stacks::orbit_exec(
                stmts,
                name@,
                sc,
                cur as int,
                stop as int,
            ) == run && same_vars(env.scopes(), sc) && sc.len() == scopes0.len(),
            run == (if idx == 0 { orbit_run(*node, scopes0) } else { None }),
        ensures
            keeps(*old(env), *env),
            empty ==> env.scopes() == scopes0,
            run is Some ==> stop <= cur && crate::eval::stacks::orbit_exec(stmts, name@, sc, cur as int, stop as int) == run
                && same_vars(env.scopes(), sc),
        decreases stop - cur,
    {
        let ghost prev = env.scopes();
        env.push_scope();
        let key = name.clone();
        let ghost info = crate::env::VarInfo { value: Value::Arcana(cur as i64), var_type: Type::Arcana, is_morph: true, line_info: *line_info };
        proof {
            if run is Some {
                crate::eval::stacks::lemma_orbit_pass_runs(stmts, key, sc, cur as int, stop as int, prev, info);
            }
        }
        env.set_var(key, Value::Arcana(cur as i64), Type::Arcana, true, *line_info);
        let result = if is_last {
            eval_node(body, env, io, math, depth)?
        } else {
            eval_orbit(node, next, env, io, math, depth)?
        };
        match result {
            EvalResult::Resume(label) => {
                if let Some(id) = &label {
                    if !str_eq(id.as_str(), name.as_str()) {
                        env.pop_scope();
                        return Ok(EvalResult::Resume(label));
                    }
                }
                cur = cur + 1;
                continue;
            },
            EvalResult::Eject(label) => {
                if let Some(id) = &label {
                    if !str_eq(id.as_str(), name.as_str()) {
                        env.pop_scope();
                        return Ok(EvalResult::Eject(label));
                    }
                }
                break;
            },
            _ => {},
        }
        let ghost done = env.scopes();
        proof {
            if run is Some {
                sc = crate::eval::stacks::lemma_orbit_pass_done(stmts, key, sc, cur as int, stop as int, prev, info, done);
            }
        }
        env.pop_scope();
        cur = cur + 1;
    }
    Ok(EvalResult::Data(Value::Abyss))
}

/// `c[i]`: the element at an arcana index of a scroll, or the entry under
/// a rune key of a lexicon.
fn eval_index<B: IoBridge, M: AetherOps>(
    node: &AST,
    env: &mut Environment,
    io: &mut B,
    math: &M,
    depth: u64,
) -> (r: Result<EvalResult, EvalError>)
    requires
        old(env).scopes().len() >= 1,
        node is IndexAccess,
    ensures
        keeps(*old(env), *final(env)),
        r matches Ok(v) ==> v is Data,
        pure_value(*node, old(env).scopes()) matches Some(v) ==> (r matches Ok(res) && res@ == EvalResultV::Data(v)
            && final(env).scopes() == old(env).scopes() && *final(io) == *old(io)),
    decreases depth, node, 1nat,
{
    match node {
        AST::IndexAccess { target, index, line_info } => {
            let collection = eval_node(target, env, io, math, depth)?;
            let idx = eval_node(index, env, io, math, depth)?;
            match collection {
                EvalResult::Data(c) => {
                    proof {
                        if c is Scroll {
                            crate::env::lemma_values_view_len(c->Scroll_0@);
                        }
                        if c is Lexicon && idx matches EvalResult::Data(Value::Rune(_)) {
                            crate::eval::collections::lemma_remove_view(c->Lexicon_0@, idx->Data_0->Rune_0@);
                        }
                    }
                    index_value(&c, &idx, line_info)
                },
                _ => Err(EvalError::InvalidOperation(owned("Indexing is only supported for scroll or lexicon"), *line_info)),
            }
        },
        _ => Err(EvalError::InvalidOperation(owned("Expected an index"), None)),
    }
}

/// A call: the function is looked up, the arguments are evaluated in
/// order, then a built-in runs on them, or an engraved function runs its
/// body in a new scope where its parameters are bound.
#[verifier::rlimit(40)]
fn eval_call<B: IoBridge, M: AetherOps>(
    node: &AST,
    env: &mut Environment,
    io: &mut B,
    math: &M,
    depth: u64,
) -> (r: Result<EvalResult, EvalError>)
    requires
        old(env).scopes().len() >= 1,
    ensures
        keeps(*old(env), *final(env)),
        depth > 0 ==> (call_value(*node, old(env).scopes(), old(env).functions()) matches Some(v) ==> (r matches Ok(res)
            && res@ == EvalResultV::Data(v) && final(env).scopes() == old(env).scopes())),
        call_undefined(*node, old(env).functions()) matches Some(n) ==> (r matches Err(EvalError::UndefinedVariable(m, l))
            && l == node->FuncCall_line_info && m@ == suggestion_label(n, suggestions(n, function_names_spec(*old(env)), 3))),
        call_arity(*node, old(env).scopes(), old(env).functions()) matches Some((n, p, a)) ==> (r matches Err(
            EvalError::InvalidOperation(m, l),
        ) && l == node->FuncCall_line_info && m@ == arity_message(n, p, a)),
        builtin_of(*node, old(env).functions()) matches Some(b) ==> (all_valued(node->FuncCall_args@, old(env).scopes())
            ==> exists|cargs: Seq<CallArg>| #[trigger] builtin_args(cargs, node->FuncCall_args@, old(env).scopes())
            && builtin_post(b, old(env).scopes(), *final(env), cargs, node->FuncCall_line_info, r)
            && (old(io).models_output() ==> crate::eval::expressions::builtin_writes(b, cargs, old(io).written(), final(io).written(), r))),
    decreases depth, node, 1nat,
{
    proof {
        reveal(call_value);
    }
    let ghost scopes0 = old(env).scopes();
    let ghost funcs0 = old(env).functions();
    let (name, args, line_info) = match node {
        AST::FuncCall { name, args, line_info } => (name, args, line_info),
        _ => {
            return Err(EvalError::InvalidOperation(owned("Expected a call"), None));
        },
    };
    let mut builtin = None;
    let mut engraved: Option<EngravedFunction> = None;
    let ghost mut orig: EngravedFunction = arbitrary();
    match env.get_function(name.as_str()) {
        None => {
            return Err(undefined_function(env, name.as_str(), line_info));
        },
        Some(Callable::Builtin(b)) => {
            builtin = Some(b.func);
        },
        Some(Callable::Engraved(f)) => {
            proof {
                orig = *f;
            }
            engraved = Some(EngravedFunction {
                name: f.name.clone(),
                params: crate::ast::copy_asts(&f.params),
                return_type: copy_type(&f.return_type),
                body: Box::new(copy_ast(&f.body)),
                line_info: f.line_info,
            });
        },
    }
    let ghost engraved_ok = engraved is Some;
    proof {
        if engraved_ok {
            let c = engraved.unwrap();
            assert(fn_index(funcs0, name@) matches Some(i) && funcs0[i].1 == Callable::Engraved(orig));
            assert(c.name == orig.name && c.return_type == orig.return_type && c.params@.len() == orig.params@.len());
        }
    }
    let ghost vals = values_of(args@, scopes0);
    let ghost pure = all_valued(args@, scopes0);
    let mut call_args: Vec<CallArg> = Vec::new();
    let mut i: usize = 0;
    while i < args.len()
        invariant
            i <= args@.len(),
            call_args@.len() == i,
            keeps(*old(env), *env),
            decreases_to!(node => args),
            scopes0 == old(env).scopes(),
            vals == values_of(args@, scopes0),
            pure == all_valued(args@, scopes0),
            pure ==> env.scopes() == scopes0 && forall|k: int| 0 <= k < i ==> (#[trigger] call_args@[k]).value@ == EvalResultV::Data(vals[k]),
            pure ==> *io == *old(io),
            funcs0 == old(env).functions(),
            call_undefined(*node, funcs0) is None,
            call_value(*node, scopes0, funcs0) is Some ==> pure,
            call_arity(*node, scopes0, funcs0) is Some ==> pure,
        forall|k: int| 0 <= k < i ==> (#[trigger] call_args@[k]).var_name == arg_name(args@[k]),
        builtin_of(*node, funcs0) is Some && all_valued(node->FuncCall_args@, scopes0) ==> pure,
        builtin_of(*node, funcs0) is Some ==> builtin is Some && builtin_of(*node, funcs0) == builtin,
        decreases args@.len() - i,
    {
        assert(decreases_to!(node => args@[i as int]));
        proof {
            if pure {
                assert(pure_value(args@[i as int], scopes0) is Some);
            }
        }
        let value = eval_node(&args[i], env, io, math, depth)?;
        let var_name = match &args[i] {
            AST::Var(n, _) => Some(n.clone()),
            _ => None,
        };
        call_args.push(CallArg { value, var_name });
        i = i + 1;
    }
    if let Some(func) = builtin {
        let ghost cargs = call_args@;
        let ghost mid = *env;
        let r = call_builtin(env, io, math, func, call_args, *line_info);
        proof {
            if pure {
                assert(builtin_args(cargs, args@, scopes0));
                assert(crate::eval::calls::builtin_call_post(func, mid, *env, cargs, *line_info, r));
                assert(builtin_post(func, old(env).scopes(), *env, cargs, *line_info, r));
            }
        }
        return r;
    }
    let function = match engraved {
        Some(f) => f,
        None => {
            return Err(EvalError::InvalidOperation(owned("Expected a function"), *line_info));
        },
    };
    env.push_scope();
    if call_args.len() != function.params.len() {
        let mut m = owned("Function '");
        push_str(&mut m, function.name.as_str());
        push_str(&mut m, "' expected ");
        let expected = int_to_string(function.params.len() as i64);
        push_str(&mut m, expected.as_str());
        push_str(&mut m, " arguments but got ");
        let got = int_to_string(call_args.len() as i64);
        push_str(&mut m, got.as_str());
        push_str(&mut m, ".");
        return Err(EvalError::InvalidOperation(m, *line_info));
    }
    let ghost ok = pure && bind_prefix(orig.params@, vals, args@.len() as nat) is Some;
    proof {
        assert(fn_index(funcs0, name@) matches Some(j) && funcs0[j].1 == Callable::Engraved(orig));
    }
    let ghost ca0 = call_args@;
    let ghost mut ps: crate::env::VarScope = Seq::empty();
    let mut call_args = call_args;
    let mut k: usize = 0;
    while k < function.params.len()
        invariant
            k <= function.params@.len(),
            call_args@.len() + k == function.params@.len(),
            keeps(*old(env), *env),
            function.params@.len() == orig.params@.len(),
            forall|j: int| 0 <= j < orig.params@.len() ==> copy_of(#[trigger] function.params@[j], orig.params@[j]),
            args@.len() == function.params@.len(),
            ok == (pure && bind_prefix(orig.params@, vals, args@.len() as nat) is Some),
            ok ==> env.scopes() == scopes0.push(ps) && bind_prefix(orig.params@, vals, k as nat) == Some(scope_model(ps)),
            ok ==> forall|j: int| 0 <= j < call_args@.len() ==> (#[trigger] call_args@[j]).value@ == EvalResultV::Data(vals[j + k]),
            scopes0.len() >= 1,
            scopes0 == old(env).scopes(),
            funcs0 == old(env).functions(),
            call_undefined(*node, funcs0) is None,
            call_arity(*node, scopes0, funcs0) is None,
            call_value(*node, scopes0, funcs0) is Some ==> ok,
            builtin_of(*node, funcs0) is None,
        decreases function.params@.len() - k,
    {
        let ghost before = call_args@;
        let arg = call_args.remove(0);
        proof {
            assert(arg == before[0]);
            assert forall|j: int| 0 <= j < call_args@.len() implies call_args@[j] == before[j + 1] by {}
            if ok {
                lemma_bind_prefix_shorter(orig.params@, vals, args@.len() as nat, (k + 1) as nat);
                assert(copy_of(function.params@[k as int], orig.params@[k as int]));
                assert(orig.params@[k as int] is EngraveParam);
                assert(value_fits(vals[k as int], orig.params@[k as int]->EngraveParam_param_type@));
                assert(function.params@[k as int] == orig.params@[k as int]);
                assert(arg.value@ == EvalResultV::Data(vals[k as int]));
                assert(arg.value is Data);
            }
        }
        match &function.params[k] {
            AST::EngraveParam { name: pname, param_type, .. } => {
                let value = convert_to_typed_value(arg.value, param_type, line_info)?;
                let key = pname.clone();
                let t = copy_type(param_type);
                let ghost info = crate::env::VarInfo { value, var_type: t, is_morph: false, line_info: *line_info };
                proof {
                    lemma_set_var_model(scopes0, ps, key, info);
                }
                env.set_var(key, value, t, false, *line_info);
                proof {
                    if ok {
                        ps = env.scopes().last();
                    }
                }
            },
            _ => {
                let mut m = owned("Expected EngraveParam in function definition: ");
                push_str(&mut m, function.name.as_str());
                return Err(EvalError::InvalidOperation(m, *line_info));
            },
        }
        k = k + 1;
    }
    if depth == 0 {
        return Err(EvalError::InvalidOperation(owned("Maximum call depth exceeded"), *line_info));
    }
    proof {
        reveal(call_value);
        if ok {
            let m = bind_prefix(orig.params@, vals, args@.len() as nat).unwrap();
            assert(scope_model(ps) == m);
            let pc = crate::eval::calls::scope_for(m);
            lemma_same_bindings_push(scopes0, pc, ps);
            lemma_fn_body_same(*orig.body, scopes0.push(pc), scopes0.push(ps));
            lemma_fn_body_copy(*function.body, *orig.body, scopes0.push(ps));
        }
    }
    let result = eval_node(&function.body, env, io, math, depth - 1)?;
    env.pop_scope();
    proof {
        if ok {
            assert(scopes0.push(ps).drop_last() =~= scopes0);
        }
    }
    check_return(result, &function.return_type, function.name.as_str(), &function.line_info)
}

/// `name op= value` on a morph variable.
fn eval_assignment<B: IoBridge, M: AetherOps>(
    node: &AST,
    env: &mut Environment,
    io: &mut B,
    math: &M,
    depth: u64,
) -> (r: Result<EvalResult, EvalError>)
    requires
        old(env).scopes().len() >= 1,
    ensures
        keeps(*old(env), *final(env)),
        r matches Ok(v) ==> v@ == EvalResultV::Data(ValueV::Abyss),
        assign_effect(*node, old(env).scopes()) matches Some((n, nv)) ==> (r is Ok && var_value(final(env).scopes(), n) == Some(nv)
            && forall|o: Seq<char>| o != n ==> #[trigger] var_lookup(final(env).scopes(), o) == var_lookup(old(env).scopes(), o)),
        assign_effect(*node, old(env).scopes()) matches Some((n, nv)) ==> same_vars(final(env).scopes(), assign_stack(old(env).scopes(), n, nv)),
        immutable_target(*node, old(env).scopes()) matches Some(n) ==> (r matches Err(EvalError::InvalidOperation(m, li)) && m@
            == "Cannot reassign to immutable variable "@ + n && li == node->Assignment_line_info && final(env).scopes() == old(env).scopes()),
    decreases depth, node, 1nat,
{
    let (name, value, op, line_info) = match node {
        AST::Assignment { name, value, op, line_info } => (name, value, op, line_info),
        _ => {
            return Err(EvalError::InvalidOperation(owned("Expected an assignment"), None));
        },
    };
    let v = eval_node(value, env, io, math, depth)?;
    let new_value = match env.get_var(name.as_str()) {
        None => {
            return Err(undefined_variable(env, name.as_str(), line_info));
        },
        Some(info) => {
            if !info.is_morph {
                let mut m = owned("Cannot reassign to immutable variable ");
                push_str(&mut m, name.as_str());
                return Err(EvalError::InvalidOperation(m, *line_info));
            }
            assignment_value(math, info, name.as_str(), *op, v, line_info)?
        },
    };
    let ghost cur = env.scopes();
    let ghost nv = new_value;
    let _ = env.assign_var(name.as_str(), new_value);
    proof {
        if var_position(cur, name@) is Some {
            crate::eval::stacks::lemma_assign_full(cur, env.scopes(), name@, nv);
        }
    }
    Ok(EvalResult::Data(Value::Abyss))
}

/// `v[i][j]... = value` on a morph variable holding scrolls and lexicons.
#[verifier::rlimit(25)]
fn eval_index_assignment<B: IoBridge, M: AetherOps>(
    node: &AST,
    env: &mut Environment,
    io: &mut B,
    math: &M,
    depth: u64,
) -> (r: Result<EvalResult, EvalError>)
    requires
        old(env).scopes().len() >= 1,
    ensures
        keeps(*old(env), *final(env)),
        r matches Ok(v) ==> v@ == EvalResultV::Data(ValueV::Abyss),
        index_assign_effect(*node, old(env).scopes()) matches Some((n, nv)) ==> (r is Ok && var_value(final(env).scopes(), n)
            == Some(nv) && forall|o: Seq<char>| o != n ==> #[trigger] var_lookup(final(env).scopes(), o) == var_lookup(
            old(env).scopes(),
            o,
        )),
    decreases depth, node, 1nat,
{
    let ghost scopes0 = old(env).scopes();
    let (target, index, value, line_info) = match node {
        AST::IndexAssignment { target, index, value, line_info } => (target, index, value, line_info),
        _ => {
            assert(index_assign_effect(*node, scopes0) is None) by {
                reveal(index_assign_effect);
            }
            return Err(EvalError::InvalidOperation(owned("Expected an indexed assignment"), None));
        },
    };
    let (base, chain) = match collect_index_chain(target) {
        Some(c) => c,
        None => {
            assert(index_assign_effect(*node, scopes0) is None) by {
                reveal(index_assign_effect);
            }
            return Err(EvalError::InvalidOperation(owned("Indexed assignment requires a mutable variable target"), *line_info));
        },
    };
    let mut path: Vec<EvalResult> = Vec::new();
    if chain.len() > 0 {
        assert(index_assign_effect(*node, scopes0) is None) by {
            reveal(index_assign_effect);
        }
        let mut i: usize = 0;
        while i < chain.len()
            invariant
                index_assign_effect(*node, old(env).scopes()) is None,
                i <= chain@.len(),
                keeps(*old(env), *env),
                crate::eval::collections::index_chain(**target) matches Some((b, idx)) && idx.len() == chain@.len()
                    && forall|k: int| 0 <= k < idx.len() ==> *(#[trigger] chain@[k]) == idx[k],
                decreases_to!(node => target),
            decreases chain@.len() - i,
        {
            proof {
                lemma_index_chain_decreases(**target, i as int);
            }
            let v = eval_node(chain[i], env, io, math, depth)?;
            path.push(v);
            i = i + 1;
        }
    }
    proof {
        reveal(index_assign_effect);
    }
    let final_index = eval_node(index, env, io, math, depth)?;
    let v = eval_node(value, env, io, math, depth)?;
    let new_value = eval_result_to_value_checked(v, *line_info)?;
    let mut current = match env.get_var(base.as_str()) {
        None => {
            return Err(undefined_variable(env, base.as_str(), line_info));
        },
        Some(info) => {
            if !info.is_morph {
                let mut m = owned("Cannot reassign to immutable variable ");
                push_str(&mut m, base.as_str());
                return Err(EvalError::InvalidOperation(m, *line_info));
            }
            copy_value(&info.value)
        },
    };
    proof {
        if chain@.len() == 0 {
            assert(crate::eval::collections::results_from(path@, 0) =~= Seq::<EvalResultV>::empty());
        }
    }
    assign_at_path(&mut current, path.as_slice(), 0, &final_index, new_value, line_info)?;
    let _ = env.assign_var(base.as_str(), current);
    Ok(EvalResult::Data(Value::Abyss))
}

/// Each index expression of an index chain lies below its root.
proof fn lemma_index_chain_decreases(ast: AST, k: int)
    requires
        index_chain_has(ast, k),
    ensures
        decreases_to!(ast => crate::eval::collections::index_chain(ast).unwrap().1[k]),
    decreases ast,
{
    match ast {
        AST::IndexAccess { target, index, .. } => {
            let (b, idx) = crate::eval::collections::index_chain(*target).unwrap();
            if k < idx.len() {
                lemma_index_chain_decreases(*target, k);
            }
        },
        _ => {},
    }
}

/// Whether the index chain of `ast` has a `k`-th index expression.
pub open spec fn index_chain_has(ast: AST, k: int) -> bool {
    crate::eval::collections::index_chain(ast) matches Some((b, idx)) && 0 <= k < idx.len()
}

/// An artifact literal: every field of the artifact's schema must be given
/// once, with a value of the field's type; the instance keeps the schema's
/// field order.
fn eval_artifact_literal<B: IoBridge, M: AetherOps>(
    node: &AST,
    env: &mut Environment,
    io: &mut B,
    math: &M,
    depth: u64,
) -> (r: Result<EvalResult, EvalError>)
    requires
        old(env).scopes().len() >= 1,
    ensures
        keeps(*old(env), *final(env)),
        r matches Ok(v) ==> v is Data,
    decreases depth, node, 1nat,
{
    let (artifact_type, line_info) = match node {
        AST::ArtifactLiteral { artifact_type, line_info, .. } => (artifact_type, line_info),
        _ => {
            return Err(EvalError::InvalidOperation(owned("Expected an artifact literal"), None));
        },
    };
    let given = eval_entries(node, env, io, math, depth)?;
    let schema = lookup_schema_by_name(env, artifact_type.as_str(), line_info)?;
    let mut g: usize = 0;
    while g < given.len()
        invariant
            keeps(*old(env), *env),
        decreases given@.len() - g,
    {
        if schema.field(given[g].0.as_str()).is_none() {
            return Err(missing_field_error(schema, given[g].0.as_str(), line_info));
        }
        g = g + 1;
    }
    let mut fields: Vec<(String, Value)> = Vec::new();
    let mut i: usize = 0;
    while i < schema.fields.len()
        invariant
            keeps(*old(env), *env),
        decreases schema.fields@.len() - i,
    {
        let fname = schema.fields[i].name.as_str();
        match lexicon_get(&given, fname) {
            Some(v) => {
                let checked = convert_to_typed_value(EvalResult::Data(v), &schema.fields[i].field_type, line_info)?;
                fields.push((schema.fields[i].name.clone(), checked));
            },
            None => {
                let mut m = owned("Missing field '");
                push_str(&mut m, fname);
                push_str(&mut m, "' for artifact ");
                push_str(&mut m, artifact_type.as_str());
                return Err(EvalError::InvalidOperation(m, *line_info));
            },
        }
        i = i + 1;
    }
    Ok(EvalResult::Data(Value::Artifact(crate::eval::artifacts::instantiate_artifact_handle(artifact_type.as_str(), fields))))
}

/// Writes `value` into the field reached by the chain `fields` from
/// `current`.
fn set_field_path(current: &mut Value, fields: &[String], start: usize, value: Value, line_info: &Option<LineInfo>) -> (r: Result<(), EvalError>)
    requires
        start <= fields@.len(),
    decreases fields@.len() - start,
{
    if start == fields.len() {
        *current = value;
        return Ok(());
    }
    match current {
        Value::Artifact(a) => {
            match lexicon_find(&a.fields, fields[start].as_str()) {
                Some(p) => {
                    proof {
                        crate::eval::collections::lemma_entry_index(a.fields@, fields@[start as int]@);
                    }
                    let (k, mut slot) = a.fields.remove(p);
                    let res = set_field_path(&mut slot, fields, start + 1, value, line_info);
                    a.fields.insert(p, (k, slot));
                    res
                },
                None => {
                    let mut m = owned("Field '");
                    push_str(&mut m, fields[start].as_str());
                    push_str(&mut m, "' does not exist on artifact ");
                    push_str(&mut m, a.artifact.as_str());
                    Err(EvalError::InvalidOperation(m, *line_info))
                },
            }
        },
        _ => Err(EvalError::InvalidOperation(owned("Field assignment requires an artifact value"), *line_info)),
    }
}

/// `v.f.g = value` on a morph variable holding an artifact.
fn eval_field_assignment<B: IoBridge, M: AetherOps>(
    node: &AST,
    env: &mut Environment,
    io: &mut B,
    math: &M,
    depth: u64,
) -> (r: Result<EvalResult, EvalError>)
    requires
        old(env).scopes().len() >= 1,
    ensures
        keeps(*old(env), *final(env)),
        r matches Ok(v) ==> v@ == EvalResultV::Data(ValueV::Abyss),
    decreases depth, node, 1nat,
{
    let (target, field, value, line_info) = match node {
        AST::FieldAssignment { target, field, value, line_info } => (target, field, value, line_info),
        _ => {
            return Err(EvalError::InvalidOperation(owned("Expected a field assignment"), None));
        },
    };
    let (base, chain) = match crate::eval::artifacts::collect_field_chain(target) {
        Some(c) => c,
        None => {
            return Err(EvalError::InvalidOperation(owned("Field assignment requires a mutable variable target"), *line_info));
        },
    };
    let v = eval_node(value, env, io, math, depth)?;
    let new_value = eval_result_to_value_checked(v, *line_info)?;
    let mut current = match env.get_var(base.as_str()) {
        None => {
            return Err(undefined_variable(env, base.as_str(), line_info));
        },
        Some(info) => {
            if !info.is_morph {
                let mut m = owned("Cannot reassign to immutable variable ");
                push_str(&mut m, base.as_str());
                return Err(EvalError::InvalidOperation(m, *line_info));
            }
            copy_value(&info.value)
        },
    };
    let mut path = chain;
    path.push(field.clone());
    set_field_path(&mut current, path.as_slice(), 0, new_value, line_info)?;
    let _ = env.assign_var(base.as_str(), current);
    Ok(EvalResult::Data(Value::Abyss))
}

} // verus!
