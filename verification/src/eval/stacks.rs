//! Stacks of scopes as models that keep, for each binding, its name,
//! value, type and whether it is morph: what statements that assign read
//! and change, so that blocks and orbits whose statements assign can be
//! described.
use vstd::prelude::*;

use crate::ast::{TypeV, AST};
use crate::env::{scope_index, var_lookup, var_position, ValueV, VarInfo, VarScope};
use crate::eval::calls::{same_bindings, scope_model};
use crate::eval::statements::{assign_effect, forge_value, orbit_range, pure_value, reveal_value};

verus! {

/// A binding in a full model: name, value, type, and whether it is morph.
pub type FullBinding = (Seq<char>, ValueV, TypeV, bool);

/// The full model of a scope.
pub open spec fn scope_full(scope: VarScope) -> Seq<FullBinding> {
    Seq::new(scope.len(), |i: int| (scope[i].0@, scope[i].1.value@, scope[i].1.var_type@, scope[i].1.is_morph))
}

/// Two stacks whose scopes have the same full models, scope by scope.
pub open spec fn same_vars(a: Seq<VarScope>, b: Seq<VarScope>) -> bool {
    a.len() == b.len() && forall|i: int| 0 <= i < a.len() ==> scope_full(#[trigger] a[i]) == scope_full(b[i])
}

/// A scope whose full model is `m`.
pub open spec fn scope_of(m: Seq<FullBinding>) -> VarScope {
    choose|ps: VarScope| scope_full(ps) == m
}

/// The position of the first binding of `name` in a full model.
pub open spec fn full_index(m: Seq<FullBinding>, name: Seq<char>) -> Option<int>
    decreases m.len(),
{
    if m.len() == 0 {
        None
    } else {
        match full_index(m.drop_last(), name) {
            Some(i) => Some(i),
            None => if m.last().0 == name { Some(m.len() - 1) } else { None },
        }
    }
}

/// A full model after binding `name`: a binding of it is replaced in
/// place, otherwise the binding is added at the end.
pub open spec fn full_bind(m: Seq<FullBinding>, b: FullBinding) -> Seq<FullBinding> {
    match full_index(m, b.0) {
        Some(i) => m.update(i, b),
        None => m.push(b),
    }
}

/// The stack after `forge`: its innermost scope binds the new binding.
pub open spec fn forge_stack(s: Seq<VarScope>, b: FullBinding) -> Seq<VarScope> {
    s.drop_last().push(scope_of(full_bind(scope_full(s.last()), b)))
}

/// The stack after storing `nv` in the visible binding of `name`, whose
/// type and morph flag stay.
pub open spec fn assign_stack(s: Seq<VarScope>, name: Seq<char>, nv: ValueV) -> Seq<VarScope> {
    match var_position(s, name) {
        Some((k, i)) => {
            let m = scope_full(s[k]);
            s.update(k, scope_of(m.update(i, (name, nv, m[i].2, m[i].3))))
        },
        None => s,
    }
}

/// The node a statement wraps, or the node itself.
pub open spec fn unwrapped(ast: AST) -> AST {
    match ast {
        AST::Statement(inner, _) => *inner,
        _ => ast,
    }
}

/// The binding a `forge` makes, where it has one (see [`forge_value`]).
pub open spec fn forge_binding(ast: AST, s: Seq<VarScope>) -> Option<FullBinding> {
    match forge_value(ast, s) {
        Some((n, v)) => match unwrapped(ast) {
            AST::VarAssign { var_type, is_morph, .. } => Some((n, v, var_type@, is_morph)),
            _ => None,
        },
        None => None,
    }
}

/// Running the statements of a block in order, where each has a value: a
/// `reveal` ends the block with its value; a `forge` binds its name in the
/// innermost scope (see [`forge_stack`]); an assignment to a morph
/// variable stores its new value (see [`assign_stack`]); an expression's
/// value is the block's value so far (`last` at the start). Gives the
/// block's value and the stack at its end.
pub open spec fn block_exec(stmts: Seq<AST>, s: Seq<VarScope>, last: ValueV) -> Option<(ValueV, Seq<VarScope>)>
    decreases stmts.len(),
{
    if stmts.len() == 0 {
        Some((last, s))
    } else {
        match reveal_value(stmts[0], s) {
            Some(v) => Some((v, s)),
            None => match forge_binding(stmts[0], s) {
                Some(b) => block_exec(stmts.drop_first(), forge_stack(s, b), ValueV::Abyss),
                None => match assign_effect(unwrapped(stmts[0]), s) {
                    Some((n, nv)) => block_exec(stmts.drop_first(), assign_stack(s, n, nv), ValueV::Abyss),
                    None => match pure_value(stmts[0], s) {
                        Some(v) => block_exec(stmts.drop_first(), s, v),
                        None => None,
                    },
                },
            },
        }
    }
}

/// The position of a name in a scope is its position in the full model.
pub proof fn lemma_scope_index_full(scope: VarScope, name: Seq<char>)
    ensures
        scope_index(scope, name) == full_index(scope_full(scope), name),
    decreases scope.len(),
{
    if scope.len() > 0 {
        assert(scope_full(scope.drop_last()) =~= scope_full(scope).drop_last());
        lemma_scope_index_full(scope.drop_last(), name);
    }
}

/// Scopes with the same full model have the same model.
pub proof fn lemma_full_model(p: VarScope, q: VarScope)
    requires
        scope_full(p) == scope_full(q),
    ensures
        scope_model(p) == scope_model(q),
{
    assert(scope_full(p).len() == p.len() && scope_full(q).len() == q.len());
    assert forall|i: int| 0 <= i < p.len() implies scope_model(p)[i] == scope_model(q)[i] by {
        assert(scope_full(p)[i] == scope_full(q)[i]);
    }
    assert(scope_model(p) =~= scope_model(q));
}

/// Stacks with the same full models have the same bindings.
pub proof fn lemma_same_vars_bindings(a: Seq<VarScope>, b: Seq<VarScope>)
    requires
        same_vars(a, b),
    ensures
        same_bindings(a, b),
{
    assert forall|i: int| 0 <= i < a.len() implies scope_model(#[trigger] a[i]) == scope_model(b[i]) by {
        lemma_full_model(a[i], b[i]);
    }
}

/// `same_vars` is reflexive.
pub proof fn lemma_same_vars_refl(a: Seq<VarScope>)
    ensures
        same_vars(a, a),
{
}

/// `same_vars` is symmetric and transitive.
pub proof fn lemma_same_vars_trans(a: Seq<VarScope>, b: Seq<VarScope>, c: Seq<VarScope>)
    requires
        same_vars(a, b),
        same_vars(b, c),
    ensures
        same_vars(a, c),
        same_vars(b, a),
{
}

/// The scope chosen for a full model has it, where some scope has it.
pub proof fn lemma_scope_of(m: Seq<FullBinding>, witness: VarScope)
    requires
        scope_full(witness) == m,
    ensures
        scope_full(scope_of(m)) == m,
{
}

/// Stacks with the same full models see the same binding of every name:
/// at the same place, with the same value, type and morph flag.
pub proof fn lemma_lookup_full(a: Seq<VarScope>, b: Seq<VarScope>, name: Seq<char>)
    requires
        same_vars(a, b),
    ensures
        var_position(a, name) == var_position(b, name),
        var_lookup(a, name) is Some == var_lookup(b, name) is Some,
        var_lookup(a, name) matches Some(x) ==> {
            let y = var_lookup(b, name).unwrap();
            x.value@ == y.value@ && x.var_type@ == y.var_type@ && x.is_morph == y.is_morph
        },
{
    lemma_same_vars_bindings(a, b);
    crate::eval::calls::lemma_lookup_same(a, b, name);
    crate::env::lemma_var_position_bounds(a, name);
    if let Some((k, i)) = var_position(a, name) {
        assert(scope_full(a[k]) == scope_full(b[k]));
        assert(scope_full(a[k])[i] == scope_full(b[k])[i]);
    }
}

/// Stacks with the same full models give a statement the same reveal,
/// forge, assignment and value.
pub proof fn lemma_stmt_full(st: AST, a: Seq<VarScope>, b: Seq<VarScope>)
    requires
        same_vars(a, b),
    ensures
        reveal_value(st, a) == reveal_value(st, b),
        forge_binding(st, a) == forge_binding(st, b),
        assign_effect(unwrapped(st), a) == assign_effect(unwrapped(st), b),
        pure_value(st, a) == pure_value(st, b),
{
    lemma_same_vars_bindings(a, b);
    crate::eval::calls::lemma_stmt_same(st, a, b);
    match unwrapped(st) {
        AST::Assignment { name, value, .. } => {
            crate::eval::calls::lemma_pure_same(*value, a, b);
            lemma_lookup_full(a, b, name@);
        },
        _ => {},
    }
}

/// Binding alike in stacks with the same full models keeps them alike.
pub proof fn lemma_forge_stack_same(a: Seq<VarScope>, b: Seq<VarScope>, bnd: FullBinding)
    requires
        same_vars(a, b),
        a.len() >= 1,
    ensures
        same_vars(forge_stack(a, bnd), forge_stack(b, bnd)),
{
    assert(scope_full(a.last()) == scope_full(b.last()));
    let fa = forge_stack(a, bnd);
    let fb = forge_stack(b, bnd);
    assert forall|i: int| 0 <= i < fa.len() implies scope_full(#[trigger] fa[i]) == scope_full(fb[i]) by {
        if i < a.len() - 1 {
            assert(fa[i] == a[i] && fb[i] == b[i]);
        }
    }
}

/// Assigning alike in stacks with the same full models keeps them alike.
pub proof fn lemma_assign_stack_same(a: Seq<VarScope>, b: Seq<VarScope>, n: Seq<char>, nv: ValueV)
    requires
        same_vars(a, b),
    ensures
        same_vars(assign_stack(a, n, nv), assign_stack(b, n, nv)),
{
    lemma_lookup_full(a, b, n);
    crate::env::lemma_var_position_bounds(a, n);
    if let Some((k, i)) = var_position(a, n) {
        assert(scope_full(a[k]) == scope_full(b[k]));
        let fa = assign_stack(a, n, nv);
        let fb = assign_stack(b, n, nv);
        assert forall|j: int| 0 <= j < fa.len() implies scope_full(#[trigger] fa[j]) == scope_full(fb[j]) by {
            if j != k {
                assert(fa[j] == a[j] && fb[j] == b[j]);
            }
        }
    }
}

/// Stacks with the same full models run a block alike: the same value,
/// and ends with the same full models.
pub proof fn lemma_block_exec_same(stmts: Seq<AST>, a: Seq<VarScope>, b: Seq<VarScope>, last: ValueV)
    requires
        same_vars(a, b),
        a.len() >= 1,
    ensures
        block_exec(stmts, a, last) is Some == block_exec(stmts, b, last) is Some,
        block_exec(stmts, a, last) matches Some((v, e)) ==> v == block_exec(stmts, b, last).unwrap().0 && same_vars(e, block_exec(stmts, b, last).unwrap().1),
    decreases stmts.len(),
{
    if stmts.len() > 0 {
        let st = stmts[0];
        lemma_stmt_full(st, a, b);
        if reveal_value(st, a) is None {
            if let Some(bnd) = forge_binding(st, a) {
                lemma_forge_stack_same(a, b, bnd);
                lemma_block_exec_same(stmts.drop_first(), forge_stack(a, bnd), forge_stack(b, bnd), ValueV::Abyss);
            } else if let Some((n, nv)) = assign_effect(unwrapped(st), a) {
                lemma_assign_stack_same(a, b, n, nv);
                crate::env::lemma_var_position_bounds(a, n);
                lemma_block_exec_same(stmts.drop_first(), assign_stack(a, n, nv), assign_stack(b, n, nv), ValueV::Abyss);
            } else if let Some(v) = pure_value(st, a) {
                lemma_block_exec_same(stmts.drop_first(), a, b, v);
            }
        }
    }
}

/// Binding a variable in the innermost scope makes the stack that
/// [`forge_stack`] describes, up to full models.
pub proof fn lemma_set_var_full(before: Seq<VarScope>, name: String, info: VarInfo)
    requires
        before.len() >= 1,
    ensures
        same_vars(
            crate::env::spec_set_var(before, name, info),
            forge_stack(before, (name@, info.value@, info.var_type@, info.is_morph)),
        ),
        crate::env::spec_set_var(before, name, info).len() == before.len(),
{
    let t = crate::env::spec_set_var(before, name, info);
    let bnd = (name@, info.value@, info.var_type@, info.is_morph);
    let last = before.last();
    lemma_scope_index_full(last, name@);
    crate::env::lemma_scope_index_bounds(last, name@);
    assert(scope_full(t.last()) =~= full_bind(scope_full(last), bnd));
    lemma_scope_of(full_bind(scope_full(last), bnd), t.last());
    let f = forge_stack(before, bnd);
    assert forall|i: int| 0 <= i < t.len() implies scope_full(#[trigger] t[i]) == scope_full(f[i]) by {
        if i < before.len() - 1 {
            assert(t[i] == before[i] && f[i] == before[i]);
        }
    }
}

/// Storing a value in the visible binding of a name makes the stack that
/// [`assign_stack`] describes, up to full models.
pub proof fn lemma_assign_full(before: Seq<VarScope>, after: Seq<VarScope>, name: Seq<char>, value: crate::env::Value)
    requires
        var_position(before, name) matches Some((s, i)) && after == before.update(s, before[s].update(i,
            (before[s][i].0, VarInfo { value, ..before[s][i].1 }))),
    ensures
        same_vars(after, assign_stack(before, name, value@)),
{
    crate::env::lemma_var_position_bounds(before, name);
    let (k, i) = var_position(before, name).unwrap();
    let m = scope_full(before[k]);
    let nm = m.update(i, (name, value@, m[i].2, m[i].3));
    assert(scope_full(after[k]) =~= nm);
    lemma_scope_of(nm, after[k]);
    let f = assign_stack(before, name, value@);
    assert forall|j: int| 0 <= j < after.len() implies scope_full(#[trigger] after[j]) == scope_full(f[j]) by {
        if j != k {
            assert(after[j] == before[j] && f[j] == before[j]);
        }
    }
}

/// The stack in which an orbit's body runs for the value `i` of its
/// variable `name`: a new scope binding it, morph, to that arcana.
pub open spec fn orbit_frame(s: Seq<VarScope>, name: Seq<char>, i: int) -> Seq<VarScope> {
    s.push(scope_of(seq![(name, ValueV::Arcana(i as i64), TypeV::Arcana, true)]))
}

/// Running the body `stmts` of an orbit for the values from `cur` up to
/// `stop` (excluded), each pass in a new scope that binds `name` to the
/// value and is dropped after the pass (see [`block_exec`]). Gives the
/// stack at the end; `None` where a pass has no value.
pub open spec fn orbit_exec(stmts: Seq<AST>, name: Seq<char>, s: Seq<VarScope>, cur: int, stop: int) -> Option<Seq<VarScope>>
    decreases stop - cur,
{
    if cur >= stop {
        Some(s)
    } else {
        match block_exec(stmts, orbit_frame(s, name, cur), ValueV::Abyss) {
            Some((_, e)) => orbit_exec(stmts, name, e.drop_last(), cur + 1, stop),
            None => None,
        }
    }
}

/// The stack after an orbit with one parameter, whose bounds have values
/// (see [`orbit_range`]) and whose body is a block: the passes of
/// [`orbit_exec`] over the range, the last value included for `..=`.
pub open spec fn orbit_run(node: AST, s: Seq<VarScope>) -> Option<Seq<VarScope>> {
    match node {
        AST::Orbit { params, body, .. } => if params@.len() == 1 {
            match (orbit_range(node, 0, s), params@[0], *body) {
                (Some((a, b, inc)), AST::OrbitParam { name, .. }, AST::Block(stmts, _)) => orbit_exec(
                    stmts@,
                    name@,
                    s,
                    a as int,
                    if inc { b + 1 } else { b as int },
                ),
                _ => None,
            }
        } else {
            None
        },
        _ => None,
    }
}

/// Stacks with the same full models stay alike when the same scope is
/// pushed, and when their innermost scopes are dropped.
pub proof fn lemma_same_vars_push_pop(a: Seq<VarScope>, b: Seq<VarScope>, p: VarScope)
    requires
        same_vars(a, b),
    ensures
        same_vars(a.push(p), b.push(p)),
        a.len() >= 1 ==> same_vars(a.drop_last(), b.drop_last()),
{
    assert forall|i: int| 0 <= i < a.len() + 1 implies scope_full(#[trigger] a.push(p)[i]) == scope_full(b.push(p)[i]) by {
        if i < a.len() {
            assert(a.push(p)[i] == a[i] && b.push(p)[i] == b[i]);
        }
    }
    if a.len() >= 1 {
        assert forall|i: int| 0 <= i < a.len() - 1 implies scope_full(#[trigger] a.drop_last()[i]) == scope_full(b.drop_last()[i]) by {
            assert(a.drop_last()[i] == a[i] && b.drop_last()[i] == b[i]);
        }
    }
}

/// Binding a variable in a new, empty scope makes the stack of
/// [`orbit_frame`], up to full models.
pub proof fn lemma_frame_full(before: Seq<VarScope>, sc: Seq<VarScope>, name: String, info: VarInfo, i: int)
    requires
        same_vars(before, sc),
        info.value@ == ValueV::Arcana(i as i64),
        info.var_type@ == TypeV::Arcana,
        info.is_morph,
    ensures
        same_vars(crate::env::spec_set_var(before.push(Seq::empty()), name, info), orbit_frame(sc, name@, i)),
{
    let pushed = before.push(Seq::<(String, VarInfo)>::empty());
    let bnd = (name@, info.value@, info.var_type@, info.is_morph);
    lemma_set_var_full(pushed, name, info);
    assert(pushed.last() == Seq::<(String, VarInfo)>::empty());
    assert(scope_full(pushed.last()) =~= Seq::<FullBinding>::empty());
    assert(full_bind(Seq::<FullBinding>::empty(), bnd) =~= seq![bnd]);
    assert(pushed.drop_last() =~= before);
    assert(forge_stack(pushed, bnd) == before.push(scope_of(seq![bnd])));
    lemma_same_vars_push_pop(before, sc, scope_of(seq![bnd]));
}

/// Before a pass of an orbit whose remaining passes have values: the
/// stack after binding the variable in a new scope runs the body.
pub proof fn lemma_orbit_pass_runs(
    stmts: Seq<AST>,
    name: String,
    sc: Seq<VarScope>,
    cur: int,
    stop: int,
    prev: Seq<VarScope>,
    info: VarInfo,
)
    requires
        cur < stop,
        orbit_exec(stmts, name@, sc, cur, stop) is Some,
        same_vars(prev, sc),
        sc.len() >= 1,
        info.value@ == ValueV::Arcana(cur as i64),
        info.var_type@ == TypeV::Arcana,
        info.is_morph,
    ensures
        block_exec(stmts, crate::env::spec_set_var(prev.push(Seq::empty()), name, info), ValueV::Abyss) is Some,
{
    let mid = crate::env::spec_set_var(prev.push(Seq::empty()), name, info);
    lemma_frame_full(prev, sc, name, info, cur);
    lemma_block_exec_same(stmts, mid, orbit_frame(sc, name@, cur), ValueV::Abyss);
}

/// After a pass of an orbit whose remaining passes have values: dropping
/// the pass's scope leaves a stack alike the one the next passes start
/// from.
pub proof fn lemma_orbit_pass_done(
    stmts: Seq<AST>,
    name: String,
    sc: Seq<VarScope>,
    cur: int,
    stop: int,
    prev: Seq<VarScope>,
    info: VarInfo,
    done: Seq<VarScope>,
) -> (next: Seq<VarScope>)
    requires
        cur < stop,
        orbit_exec(stmts, name@, sc, cur, stop) is Some,
        same_vars(prev, sc),
        sc.len() >= 1,
        info.value@ == ValueV::Arcana(cur as i64),
        info.var_type@ == TypeV::Arcana,
        info.is_morph,
        block_exec(stmts, crate::env::spec_set_var(prev.push(Seq::empty()), name, info), ValueV::Abyss) matches Some((_, e))
            && same_vars(done, e),
    ensures
        orbit_exec(stmts, name@, next, cur + 1, stop) == orbit_exec(stmts, name@, sc, cur, stop),
        same_vars(done.drop_last(), next),
        next.len() == sc.len(),
        done.len() == sc.len() + 1,
{
    let mid = crate::env::spec_set_var(prev.push(Seq::empty()), name, info);
    lemma_frame_full(prev, sc, name, info, cur);
    lemma_block_exec_same(stmts, mid, orbit_frame(sc, name@, cur), ValueV::Abyss);
    let e1 = block_exec(stmts, mid, ValueV::Abyss).unwrap().1;
    let e2 = block_exec(stmts, orbit_frame(sc, name@, cur), ValueV::Abyss).unwrap().1;
    lemma_block_exec_len(stmts, orbit_frame(sc, name@, cur), ValueV::Abyss);
    lemma_same_vars_trans(done, e1, e2);
    lemma_same_vars_push_pop(done, e2, Seq::empty());
    e2.drop_last()
}

/// A block keeps the number of scopes.
pub proof fn lemma_block_exec_len(stmts: Seq<AST>, s: Seq<VarScope>, last: ValueV)
    requires
        s.len() >= 1,
    ensures
        block_exec(stmts, s, last) matches Some((_, e)) ==> e.len() == s.len(),
    decreases stmts.len(),
{
    if stmts.len() > 0 {
        let st = stmts[0];
        if reveal_value(st, s) is None {
            if let Some(bnd) = forge_binding(st, s) {
                lemma_block_exec_len(stmts.drop_first(), forge_stack(s, bnd), ValueV::Abyss);
            } else if let Some((n, nv)) = assign_effect(unwrapped(st), s) {
                crate::env::lemma_var_position_bounds(s, n);
                lemma_block_exec_len(stmts.drop_first(), assign_stack(s, n, nv), ValueV::Abyss);
            } else if let Some(v) = pure_value(st, s) {
                lemma_block_exec_len(stmts.drop_first(), s, v);
            }
        }
    }
}

} // verus!
