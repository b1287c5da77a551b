//! What a call of an engraved function computes: its arguments are bound
//! to its parameters in a new scope, and its body gives the value.
use vstd::prelude::*;

use crate::ast::{copy_of, is_simple, same_simple, TypeV, AST};
use crate::env::{fn_index, scope_index, var_lookup, var_position, Builtin, CallArg, Callable, Environment, ValueV, VarInfo, VarScope};
use crate::eval::result::EvalError;
use crate::eval::result::EvalResult;
use crate::ast::LineInfo;
use crate::eval::collections::view_index;
use crate::eval::result::EvalResultV;
use crate::eval::statements::{block_run, block_value, forge_scopes, forge_value, pure_value, reveal_value};
use crate::eval::values::{result_fits, value_fits};
use crate::text::int_text;
use crate::types::EngravedFunction;

verus! {

/// The model of a scope: each bound name with its value.
pub open spec fn scope_model(scope: VarScope) -> Seq<(Seq<char>, ValueV)> {
    Seq::new(scope.len(), |i: int| (scope[i].0@, scope[i].1.value@))
}

/// A scope model after binding `name` to `v`: a binding of it is replaced
/// in place, otherwise the binding is added at the end.
pub open spec fn model_bind(m: Seq<(Seq<char>, ValueV)>, name: Seq<char>, v: ValueV) -> Seq<(Seq<char>, ValueV)> {
    match view_index(m, name) {
        Some(i) => m.update(i, (name, v)),
        None => m.push((name, v)),
    }
}

/// A scope whose model is `m`.
pub open spec fn scope_for(m: Seq<(Seq<char>, ValueV)>) -> VarScope {
    choose|ps: VarScope| scope_model(ps) == m
}

/// Two stacks of scopes that bind the same names to the same values,
/// scope by scope and position by position.
pub open spec fn same_bindings(a: Seq<VarScope>, b: Seq<VarScope>) -> bool {
    a.len() == b.len() && forall|i: int| 0 <= i < a.len() ==> scope_model(#[trigger] a[i]) == scope_model(b[i])
}

/// The position of a name in a scope is the position in its model.
pub proof fn lemma_scope_index_model(scope: VarScope, name: Seq<char>)
    ensures
        scope_index(scope, name) == view_index(scope_model(scope), name),
    decreases scope.len(),
{
    if scope.len() > 0 {
        assert(scope_model(scope.drop_last()) =~= scope_model(scope).drop_last());
        lemma_scope_index_model(scope.drop_last(), name);
    }
}

/// Stacks with the same bindings place every name alike and give it the
/// same value.
pub proof fn lemma_lookup_same(a: Seq<VarScope>, b: Seq<VarScope>, name: Seq<char>)
    requires
        same_bindings(a, b),
    ensures
        var_position(a, name) == var_position(b, name),
        var_lookup(a, name) is Some == var_lookup(b, name) is Some,
        var_lookup(a, name) matches Some(x) ==> x.value@ == var_lookup(b, name).unwrap().value@,
    decreases a.len(),
{
    if a.len() > 0 {
        assert(scope_model(a.last()) == scope_model(b.last()));
        lemma_scope_index_model(a.last(), name);
        lemma_scope_index_model(b.last(), name);
        assert(same_bindings(a.drop_last(), b.drop_last())) by {
            assert forall|i: int| 0 <= i < a.drop_last().len() implies scope_model(#[trigger] a.drop_last()[i])
                == scope_model(b.drop_last()[i]) by {
                assert(a.drop_last()[i] == a[i]);
                assert(b.drop_last()[i] == b[i]);
            }
        }
        lemma_lookup_same(a.drop_last(), b.drop_last(), name);
        crate::env::lemma_var_position_bounds(a, name);
        if let Some((s, i)) = var_position(a, name) {
            assert(scope_model(a[s]) == scope_model(b[s]));
            assert(scope_model(a[s])[i] == (a[s][i].0@, a[s][i].1.value@));
            assert(scope_model(b[s])[i] == (b[s][i].0@, b[s][i].1.value@));
        }
    }
}

/// Stacks with the same bindings give every expression the same value.
pub proof fn lemma_pure_same(ast: AST, a: Seq<VarScope>, b: Seq<VarScope>)
    requires
        same_bindings(a, b),
    ensures
        pure_value(ast, a) == pure_value(ast, b),
    decreases ast,
{
    match ast {
        AST::Statement(inner, _) => lemma_pure_same(*inner, a, b),
        AST::Var(name, _) => lemma_lookup_same(a, b, name@),
        AST::Add(l, r, _) | AST::Sub(l, r, _) | AST::Mul(l, r, _) | AST::Div(l, r, _) | AST::Mod(l, r, _)
        | AST::PowArcana(l, r, _) | AST::Equal(l, r, _) | AST::NotEqual(l, r, _) | AST::LessThan(l, r, _)
        | AST::LessThanOrEqual(l, r, _) | AST::GreaterThan(l, r, _) | AST::GreaterThanOrEqual(l, r, _)
        | AST::LogicalAnd(l, r, _) | AST::LogicalOr(l, r, _) => {
            lemma_pure_same(*l, a, b);
            lemma_pure_same(*r, a, b);
        },
        AST::LogicalNot(e, _) | AST::Trans(e, _, _) => lemma_pure_same(*e, a, b),
        AST::IndexAccess { target, index, .. } => {
            lemma_pure_same(*target, a, b);
            lemma_pure_same(*index, a, b);
        },
        _ => {},
    }
}

/// Stacks with the same bindings give every statement the same meaning.
pub proof fn lemma_stmt_same(stmt: AST, a: Seq<VarScope>, b: Seq<VarScope>)
    requires
        same_bindings(a, b),
    ensures
        pure_value(stmt, a) == pure_value(stmt, b),
        reveal_value(stmt, a) == reveal_value(stmt, b),
        forge_value(stmt, a) == forge_value(stmt, b),
{
    lemma_pure_same(stmt, a, b);
    match stmt {
        AST::Reveal(e, _) => lemma_pure_same(*e, a, b),
        AST::VarAssign { value, .. } => lemma_pure_same(*value, a, b),
        AST::Statement(inner, _) => match *inner {
            AST::Reveal(e, _) => lemma_pure_same(*e, a, b),
            AST::VarAssign { value, .. } => lemma_pure_same(*value, a, b),
            _ => {},
        },
        _ => {},
    }
}

/// Binding a name alike in stacks with the same bindings keeps them alike.
pub proof fn lemma_forge_scopes_same(a: Seq<VarScope>, b: Seq<VarScope>, name: Seq<char>, v: ValueV)
    requires
        same_bindings(a, b),
        a.len() >= 1,
    ensures
        same_bindings(forge_scopes(a, name, v), forge_scopes(b, name, v)),
{
    assert(scope_model(a.last()) == scope_model(b.last()));
    lemma_same_bindings_push_both(a.drop_last(), b.drop_last(), scope_for(model_bind(scope_model(a.last()), name, v)), scope_for(
        model_bind(scope_model(b.last()), name, v),
    ));
}

/// Stacks with the same bindings run every block alike: the same value,
/// and stacks with the same bindings at its end.
pub proof fn lemma_block_same(stmts: Seq<AST>, a: Seq<VarScope>, b: Seq<VarScope>, last: ValueV)
    requires
        same_bindings(a, b),
        a.len() >= 1,
    ensures
        block_value(stmts, a, last) == block_value(stmts, b, last),
        block_run(stmts, a, last) matches Some((_, a2)) ==> (block_run(stmts, b, last) matches Some((_, b2)) && same_bindings(
            a2,
            b2,
        ) && a2.len() == a.len()),
    decreases stmts.len(),
{
    if stmts.len() > 0 {
        lemma_stmt_same(stmts[0], a, b);
        if reveal_value(stmts[0], a) is None {
            if let Some((n, v)) = forge_value(stmts[0], a) {
                lemma_forge_scopes_same(a, b, n, v);
                lemma_block_same(stmts.drop_first(), forge_scopes(a, n, v), forge_scopes(b, n, v), ValueV::Abyss);
            } else if let Some(v) = pure_value(stmts[0], a) {
                lemma_block_same(stmts.drop_first(), a, b, v);
            }
        }
    }
}

/// The value of the body of an engraved function: the value of its block,
/// or of its expression.
pub open spec fn fn_body_value(body: AST, scopes: Seq<VarScope>) -> Option<ValueV> {
    match body {
        AST::Block(stmts, _) => block_value(stmts@, scopes, ValueV::Abyss),
        _ => pure_value(body, scopes),
    }
}

/// Stacks with the same bindings give every function body the same value.
pub proof fn lemma_fn_body_same(body: AST, a: Seq<VarScope>, b: Seq<VarScope>)
    requires
        same_bindings(a, b),
        a.len() >= 1,
    ensures
        fn_body_value(body, a) == fn_body_value(body, b),
{
    match body {
        AST::Block(stmts, _) => lemma_block_same(stmts@, a, b, ValueV::Abyss),
        _ => lemma_pure_same(body, a, b),
    }
}

/// Only simple trees have values.
pub proof fn lemma_valued_simple(ast: AST, s: Seq<VarScope>)
    ensures
        pure_value(ast, s) is Some ==> is_simple(ast),
        reveal_value(ast, s) is Some ==> is_simple(ast),
        forge_value(ast, s) is Some ==> is_simple(ast),
    decreases ast,
{
    match ast {
        AST::Statement(inner, _) => {
            lemma_valued_simple(*inner, s);
        },
        AST::Reveal(e, _) => lemma_valued_simple(*e, s),
        AST::VarAssign { value, .. } => lemma_valued_simple(*value, s),
        AST::Add(l, r, _) | AST::Sub(l, r, _) | AST::Mul(l, r, _) | AST::Div(l, r, _) | AST::Mod(l, r, _)
        | AST::PowArcana(l, r, _) | AST::Equal(l, r, _) | AST::NotEqual(l, r, _) | AST::LessThan(l, r, _)
        | AST::LessThanOrEqual(l, r, _) | AST::GreaterThan(l, r, _) | AST::GreaterThanOrEqual(l, r, _)
        | AST::LogicalAnd(l, r, _) | AST::LogicalOr(l, r, _) => {
            lemma_valued_simple(*l, s);
            lemma_valued_simple(*r, s);
        },
        AST::LogicalNot(e, _) | AST::Trans(e, _, _) => lemma_valued_simple(*e, s),
        AST::IndexAccess { target, index, .. } => {
            lemma_valued_simple(*target, s);
            lemma_valued_simple(*index, s);
        },
        _ => {},
    }
}

/// A faithful copy of a statement has the same value.
proof fn lemma_same_simple_values(r: AST, a: AST, s: Seq<VarScope>)
    requires
        same_simple(r, a),
    ensures
        pure_value(r, s) == pure_value(a, s),
        reveal_value(r, s) == reveal_value(a, s),
        forge_value(r, s) == forge_value(a, s),
{
    lemma_valued_simple(r, s);
    lemma_valued_simple(a, s);
}

/// Statements copied faithfully give a block the same value.
proof fn lemma_block_copy(c: Seq<AST>, stmts: Seq<AST>, s: Seq<VarScope>, last: ValueV)
    requires
        c.len() == stmts.len(),
        forall|i: int| 0 <= i < stmts.len() ==> same_simple(#[trigger] c[i], stmts[i]),
    ensures
        block_value(c, s, last) == block_value(stmts, s, last),
    decreases stmts.len(),
{
    if stmts.len() > 0 {
        lemma_same_simple_values(c[0], stmts[0], s);
        assert forall|i: int| 0 <= i < stmts.drop_first().len() implies same_simple(
            #[trigger] c.drop_first()[i],
            stmts.drop_first()[i],
        ) by {
            assert(same_simple(c[i + 1], stmts[i + 1]));
        }
        if reveal_value(stmts[0], s) is None {
            if let Some((n, v)) = forge_value(stmts[0], s) {
                lemma_block_copy(c.drop_first(), stmts.drop_first(), forge_scopes(s, n, v), ValueV::Abyss);
            } else if let Some(v) = pure_value(stmts[0], s) {
                lemma_block_copy(c.drop_first(), stmts.drop_first(), s, v);
            }
        }
    }
}

/// A copy of a function body has the same value.
pub proof fn lemma_fn_body_copy(c: AST, body: AST, s: Seq<VarScope>)
    requires
        copy_of(c, body),
    ensures
        fn_body_value(c, s) == fn_body_value(body, s),
{
    match body {
        AST::Block(stmts, _) => {
            lemma_block_copy(c->Block_0@, stmts@, s, ValueV::Abyss);
        },
        _ => {
            lemma_same_simple_values(c, body, s);
        },
    }
}

/// Whether every expression of `exprs` has a value (see [`pure_value`]).
pub open spec fn all_valued(exprs: Seq<AST>, scopes: Seq<VarScope>) -> bool {
    forall|k: int| 0 <= k < exprs.len() ==> (#[trigger] pure_value(exprs[k], scopes)) is Some
}

/// The values of the expressions of `exprs`, in order.
pub open spec fn values_of(exprs: Seq<AST>, scopes: Seq<VarScope>) -> Seq<ValueV> {
    Seq::new(exprs.len(), |k: int| pure_value(exprs[k], scopes).unwrap())
}

/// The new scope of a call after binding its first `k` parameters, each
/// a parameter declaration whose type admits its argument's value.
pub open spec fn bind_prefix(params: Seq<AST>, vals: Seq<ValueV>, k: nat) -> Option<Seq<(Seq<char>, ValueV)>>
    decreases k,
{
    if k == 0 {
        Some(Seq::empty())
    } else {
        match bind_prefix(params, vals, (k - 1) as nat) {
            Some(m) => match params[k - 1] {
                AST::EngraveParam { name, param_type, .. } => if value_fits(vals[k - 1], param_type@) {
                    Some(model_bind(m, name@, vals[k - 1]))
                } else {
                    None
                },
                _ => None,
            },
            None => None,
        }
    }
}

/// A binding of all parameters binds each shorter prefix of them.
pub proof fn lemma_bind_prefix_shorter(params: Seq<AST>, vals: Seq<ValueV>, k: nat, j: nat)
    requires
        j <= k,
        bind_prefix(params, vals, k) is Some,
    ensures
        bind_prefix(params, vals, j) is Some,
    decreases k,
{
    if j < k {
        lemma_bind_prefix_shorter(params, vals, (k - 1) as nat, j);
    }
}

/// The value of running a function with parameters `params`, return type
/// `return_type` and body `body` on the arguments `args`, all of which have
/// values: the arguments, as many as the parameters and each admitted by
/// its parameter's type, are bound in a new innermost scope, and the body
/// gives a value that the return type admits.
pub open spec fn run_value(params: Seq<AST>, return_type: TypeV, body: AST, args: Seq<AST>, scopes: Seq<VarScope>) -> Option<
    ValueV,
> {
    if all_valued(args, scopes) && args.len() == params.len() {
        match bind_prefix(params, values_of(args, scopes), args.len() as nat) {
            Some(m) => {
                match fn_body_value(body, scopes.push(scope_for(m))) {
                    Some(v) => if result_fits(EvalResultV::Data(v), return_type) {
                        Some(v)
                    } else {
                        None
                    },
                    None => None,
                }
            },
            None => None,
        }
    } else {
        None
    }
}

/// The value of a call of an engraved function (see [`run_value`]).
#[verifier::opaque]
pub open spec fn call_value(ast: AST, scopes: Seq<VarScope>, functions: Seq<(String, Callable)>) -> Option<ValueV> {
    match ast {
        AST::FuncCall { name, args, .. } => match fn_index(functions, name@) {
            Some(i) => match functions[i].1 {
                Callable::Engraved(f) => run_value(f.params@, f.return_type@, *f.body, args@, scopes),
                _ => None,
            },
            None => None,
        },
        _ => None,
    }
}

/// Only a call has a call's value.
pub proof fn lemma_call_value_kind(ast: AST, scopes: Seq<VarScope>, functions: Seq<(String, Callable)>)
    ensures
        call_value(ast, scopes, functions) is Some ==> ast is FuncCall,
{
    reveal(call_value);
}

/// `f` is what `engrave` defines: its name, return type, and copies of its
/// parameters and body (see [`copy_of`]).
pub open spec fn engraved_from(f: EngravedFunction, ast: AST) -> bool {
    match ast {
        AST::Engrave { name, params, return_type, body, .. } => {
            &&& f.name@ == name@
            &&& f.return_type == return_type
            &&& f.params@.len() == params@.len()
            &&& forall|j: int| 0 <= j < params@.len() ==> copy_of(#[trigger] f.params@[j], params@[j])
            &&& copy_of(*f.body, *body)
        },
        _ => false,
    }
}

/// Copied parameters bind arguments alike.
pub proof fn lemma_bind_prefix_copy(c: Seq<AST>, params: Seq<AST>, vals: Seq<ValueV>, k: nat)
    requires
        c.len() == params.len(),
        k <= params.len(),
        forall|j: int| 0 <= j < params.len() ==> copy_of(#[trigger] c[j], params[j]),
    ensures
        bind_prefix(c, vals, k) == bind_prefix(params, vals, k),
    decreases k,
{
    if k > 0 {
        lemma_bind_prefix_copy(c, params, vals, (k - 1) as nat);
        assert(copy_of(c[k - 1], params[k - 1]));
    }
}

/// Law: a call of a function that `engrave` bound runs the engraved body,
/// with the engraved parameters bound to the call's arguments.
pub proof fn law_engrave_then_call(
    engrave: AST,
    stored: EngravedFunction,
    functions: Seq<(String, Callable)>,
    call: AST,
    scopes: Seq<VarScope>,
)
    requires
        engraved_from(stored, engrave),
        fn_index(functions, stored.name@) matches Some(i) && functions[i].1 == Callable::Engraved(stored),
        call matches AST::FuncCall { name, .. } && name@ == stored.name@,
    ensures
        call_value(call, scopes, functions) == run_value(
            engrave->Engrave_params@,
            engrave->Engrave_return_type@,
            *engrave->Engrave_body,
            call->FuncCall_args@,
            scopes,
        ),
{
    reveal(call_value);
    let params = engrave->Engrave_params@;
    let args = call->FuncCall_args@;
    if all_valued(args, scopes) && args.len() == params.len() {
        lemma_bind_prefix_copy(stored.params@, params, values_of(args, scopes), args.len() as nat);
        if let Some(m) = bind_prefix(params, values_of(args, scopes), args.len() as nat) {
            lemma_fn_body_copy(*stored.body, *engrave->Engrave_body, scopes.push(scope_for(m)));
        }
    }
}

/// The name of a call of a function that is not bound.
pub open spec fn call_undefined(ast: AST, functions: Seq<(String, Callable)>) -> Option<Seq<char>> {
    match ast {
        AST::FuncCall { name, .. } => if fn_index(functions, name@) is None {
            Some(name@)
        } else {
            None
        },
        _ => None,
    }
}

/// For a call of an engraved function whose arguments all have values
/// but are not as many as its parameters: the function's name, the number
/// of its parameters and the number of arguments.
pub open spec fn call_arity(ast: AST, scopes: Seq<VarScope>, functions: Seq<(String, Callable)>) -> Option<
    (Seq<char>, i64, i64),
> {
    match ast {
        AST::FuncCall { args, name, .. } => match fn_index(functions, name@) {
            Some(i) => match functions[i].1 {
                Callable::Engraved(f) => if all_valued(args@, scopes) && args@.len() != f.params@.len() {
                    Some((f.name@, f.params@.len() as i64, args@.len() as i64))
                } else {
                    None
                },
                _ => None,
            },
            None => None,
        },
        _ => None,
    }
}

/// The error message for a call with the wrong number of arguments.
pub open spec fn arity_message(name: Seq<char>, expected: i64, got: i64) -> Seq<char> {
    "Function '"@ + name + "' expected "@ + int_text(expected as int) + " arguments but got "@ + int_text(got as int)
        + "."@
}

/// Binding a name in the innermost scope binds it in that scope's model.
pub proof fn lemma_set_var_model(outer: Seq<VarScope>, ps: VarScope, name: String, info: VarInfo)
    ensures
        crate::env::spec_set_var(outer.push(ps), name, info) == outer.push(
            crate::env::spec_set_var(outer.push(ps), name, info).last(),
        ),
        scope_model(crate::env::spec_set_var(outer.push(ps), name, info).last()) == model_bind(
            scope_model(ps),
            name@,
            info.value@,
        ),
{
    let t = crate::env::spec_set_var(outer.push(ps), name, info);
    assert(outer.push(ps).last() == ps);
    lemma_scope_index_model(ps, name@);
    crate::env::lemma_scope_index_bounds(ps, name@);
    assert(t =~= outer.push(t.last()));
    assert(scope_model(t.last()) =~= model_bind(scope_model(ps), name@, info.value@));
}

/// Stacks that differ only in innermost scopes with the same model have
/// the same bindings.
pub proof fn lemma_same_bindings_push(outer: Seq<VarScope>, p: VarScope, q: VarScope)
    requires
        scope_model(p) == scope_model(q),
    ensures
        same_bindings(outer.push(p), outer.push(q)),
{
    lemma_same_bindings_push_both(outer, outer, p, q);
}

/// Entering scopes with the same model keeps two stacks with the same
/// bindings alike.
pub proof fn lemma_same_bindings_push_both(a: Seq<VarScope>, b: Seq<VarScope>, p: VarScope, q: VarScope)
    requires
        a.len() == b.len(),
        forall|i: int| 0 <= i < a.len() ==> scope_model(#[trigger] a[i]) == scope_model(b[i]),
        scope_model(p) == scope_model(q),
    ensures
        same_bindings(a.push(p), b.push(q)),
{
    assert forall|i: int| 0 <= i < a.push(p).len() implies scope_model(#[trigger] a.push(p)[i]) == scope_model(
        b.push(q)[i],
    ) by {
        if i < a.len() {
            assert(a.push(p)[i] == a[i]);
            assert(b.push(q)[i] == b[i]);
        }
    }
}

/// The scope chosen for a model has that model, where some scope has it.
pub proof fn lemma_scope_for(m: Seq<(Seq<char>, ValueV)>, witness: VarScope)
    requires
        scope_model(witness) == m,
    ensures
        scope_model(scope_for(m)) == m,
{
}

/// The only scope with no bindings is the empty one.
pub proof fn lemma_scope_for_empty()
    ensures
        scope_for(Seq::empty()) == Seq::<(String, VarInfo)>::empty(),
{
    let e = Seq::<(String, VarInfo)>::empty();
    assert(scope_model(e) =~= Seq::empty());
    let c = scope_for(Seq::empty());
    assert(scope_model(c).len() == c.len());
    assert(c =~= e);
}

/// The built-in that a call names, where the function under its name is
/// one.
pub open spec fn builtin_of(ast: AST, functions: Seq<(String, Callable)>) -> Option<Builtin> {
    match ast {
        AST::FuncCall { name, .. } => match fn_index(functions, name@) {
            Some(i) => match functions[i].1 {
                Callable::Builtin(b) => Some(b.func),
                _ => None,
            },
            None => None,
        },
        _ => None,
    }
}

/// The variable an argument reads, where it is a bare variable.
pub open spec fn arg_name(a: AST) -> Option<String> {
    match a {
        AST::Var(n, _) => Some(n),
        _ => None,
    }
}

/// `cargs` is what a built-in receives for the arguments `args`, which all
/// have values: each value, with the variable that a bare-variable
/// argument reads.
pub open spec fn builtin_args(cargs: Seq<CallArg>, args: Seq<AST>, scopes: Seq<VarScope>) -> bool {
    &&& cargs.len() == args.len()
    &&& forall|k: int| 0 <= k < args.len() ==> (#[trigger] cargs[k]).value@ == EvalResultV::Data(values_of(args, scopes)[k])
        && cargs[k].var_name == arg_name(args[k])
}

/// What built-in `b` promises of a call with `args` (see the built-ins'
/// own contracts), from the environment `before` to `after`.
pub open spec fn builtin_call_post(
    b: Builtin,
    before: Environment,
    after: Environment,
    args: Seq<CallArg>,
    line: Option<LineInfo>,
    r: Result<EvalResult, EvalError>,
) -> bool {
    &&& after.scopes().len() == before.scopes().len()
    &&& (b != Builtin::Inscribe && b != Builtin::Retract && b != Builtin::Expunge ==> after.scopes() == before.scopes())
    &&& match b {
        Builtin::Unveil => crate::stdlib::io::unveil_post(args, line, r),
        Builtin::Summon => crate::stdlib::io::summon_post(args, line, r),
        Builtin::Measure => crate::stdlib::collections::measure_post(args, line, r),
        Builtin::Inscribe => crate::stdlib::collections::inscribe_post(before, after, args, line, r),
        Builtin::Retract => crate::stdlib::collections::retract_post(before, after, args, line, r),
        Builtin::Expunge => crate::stdlib::collections::expunge_post(before, after, args, line, r),
        Builtin::Contents => crate::stdlib::collections::contents_post(args, line, r),
        Builtin::Perish => crate::stdlib::runtime::perish_post(args, line, r),
    }
}

/// What a call of built-in `b` gives, where its arguments were evaluated
/// from the variables `before` without changing them: what the built-in
/// promises from an environment with those variables.
pub open spec fn builtin_post(
    b: Builtin,
    before: Seq<VarScope>,
    after: Environment,
    args: Seq<CallArg>,
    line: Option<LineInfo>,
    r: Result<EvalResult, EvalError>,
) -> bool {
    exists|mid: Environment| mid.scopes() == before && #[trigger] builtin_call_post(b, mid, after, args, line, r)
}

} // verus!
