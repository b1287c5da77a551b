//! What an oracle computes. Its scrutinees are bound, in order, in a new
//! scope; then the first branch whose patterns hold (and whose ward, if
//! any, is `boon`) runs in a scope of its own, and its body gives the
//! oracle's value. With no such branch the value is abyss.
use vstd::prelude::*;

use crate::ast::{ConditionalAssignment, Type, AST};
use crate::env::{AetherOps, Environment, IoBridge, Value, ValueV, VarScope};
use crate::eval::calls::{
    lemma_block_same, lemma_pure_same, lemma_same_bindings_push, lemma_same_bindings_push_both, lemma_scope_for,
    lemma_scope_for_empty, lemma_set_var_model, model_bind, same_bindings, scope_for, scope_model,
};
use crate::eval::expressions::{conditional_binding, pattern_matches};
use crate::eval::result::{EvalError, EvalResult, EvalResultV};
use crate::eval::statements::{block_value, body_value, cond_value, eval_node, keeps, pure_value, reveal_value};
use crate::eval::values::eval_result_to_value_checked;
use crate::text::owned;

verus! {

/// The model of a scope: each bound name with its value.
pub type ScopeModel = Seq<(Seq<char>, ValueV)>;

/// Whether a value can be scrutinised by an oracle.
pub open spec fn scrutable(v: ValueV) -> bool {
    v is Arcana || v is Rune || v is Omen
}

/// The scope of an oracle's scrutinees after binding the first `k` of
/// them, each evaluated (see [`pure_value`]) with the earlier ones bound.
pub open spec fn scrutinee_scope(conds: Seq<ConditionalAssignment>, s0: Seq<VarScope>, k: nat) -> Option<ScopeModel>
    decreases k,
{
    if k == 0 {
        Some(Seq::empty())
    } else {
        match scrutinee_scope(conds, s0, (k - 1) as nat) {
            Some(m) => match pure_value(*conds[k - 1].expression, s0.push(scope_for(m))) {
                Some(v) => if scrutable(v) {
                    Some(model_bind(m, conds[k - 1].variable@, v))
                } else {
                    None
                },
                None => None,
            },
            None => None,
        }
    }
}

/// Binding all scrutinees binds each shorter prefix of them.
pub proof fn lemma_scrutinee_scope_shorter(conds: Seq<ConditionalAssignment>, s0: Seq<VarScope>, k: nat, j: nat)
    requires
        j <= k,
        scrutinee_scope(conds, s0, k) is Some,
    ensures
        scrutinee_scope(conds, s0, j) is Some,
    decreases k,
{
    if j < k {
        lemma_scrutinee_scope_shorter(conds, s0, (k - 1) as nat, j);
    }
}

/// Whether a scrutinee's value `s` equals a pattern's value `p`; `None`
/// for values of different kinds.
pub open spec fn values_match(s: ValueV, p: ValueV) -> Option<bool> {
    match (s, p) {
        (ValueV::Arcana(a), ValueV::Arcana(b)) => Some(a == b),
        (ValueV::Rune(a), ValueV::Rune(b)) => Some(a == b),
        (ValueV::Omen(a), ValueV::Omen(b)) => Some(a == b),
        _ => None,
    }
}

/// Testing the patterns of a match branch from the `k`-th on, with the
/// branch's bindings `m` so far: `_` matches anything, a name binds the
/// scrutinee's value, and any other pattern must equal the scrutinee. Each
/// scrutinee expression is evaluated again, in the branch's scope. Gives
/// whether all patterns match, and the branch's bindings.
pub open spec fn match_patterns(
    pats: Seq<AST>,
    conds: Seq<ConditionalAssignment>,
    s1: Seq<VarScope>,
    k: nat,
    m: ScopeModel,
) -> Option<(bool, ScopeModel)>
    decreases pats.len() - k,
{
    if k >= pats.len() {
        Some((true, m))
    } else {
        let s = s1.push(scope_for(m));
        match pats[k as int] {
            AST::OracleDontCareItem(_) => match_patterns(pats, conds, s1, k + 1, m),
            AST::PatternBinding { name, .. } => if k < conds.len() {
                match pure_value(*conds[k as int].expression, s) {
                    Some(v) => match_patterns(pats, conds, s1, k + 1, model_bind(m, name@, v)),
                    None => None,
                }
            } else {
                None
            },
            p => if k < conds.len() {
                match (pure_value(p, s), pure_value(*conds[k as int].expression, s)) {
                    (Some(pv), Some(sv)) => match values_match(sv, pv) {
                        Some(true) => match_patterns(pats, conds, s1, k + 1, m),
                        Some(false) => Some((false, m)),
                        None => None,
                    },
                    _ => None,
                }
            } else {
                None
            },
        }
    }
}

/// Testing the patterns of a branch: by matching, or, in an if-else
/// oracle, as conditions (see [`cond_value`]) in a new scope.
pub open spec fn branch_test(pats: Seq<AST>, is_match: bool, conds: Seq<ConditionalAssignment>, s1: Seq<VarScope>) -> Option<
    (bool, ScopeModel),
> {
    if is_match {
        match_patterns(pats, conds, s1, 0, Seq::empty())
    } else {
        match cond_value(pats, s1.push(Seq::empty())) {
            Some(b) => Some((b, Seq::empty())),
            None => None,
        }
    }
}

/// Whether a branch's ward lets it run: no ward, or one that is an omen.
pub open spec fn ward_holds(guard: Option<Box<AST>>, s: Seq<VarScope>) -> Option<bool> {
    match guard {
        None => Some(true),
        Some(g) => match pure_value(*g, s) {
            Some(ValueV::Omen(w)) => Some(w),
            _ => None,
        },
    }
}

/// Whether a branch runs: its patterns match (binding the names they
/// bind) and its ward, if any, holds there, whatever its body is.
pub open spec fn branch_fires(branch: AST, is_match: bool, conds: Seq<ConditionalAssignment>, s1: Seq<VarScope>) -> bool {
    branch matches AST::OracleBranch { pattern, guard, .. } && branch_test(pattern@, is_match, conds, s1) matches Some((true, m))
        && ward_holds(guard, s1.push(scope_for(m))) == Some(true)
}

/// What a branch does: `Some(None)` when it does not run, `Some(Some(v))`
/// when it runs and its body gives `v` (see [`body_value`]); `None` where
/// that depends on something without a value.
#[verifier::opaque]
pub open spec fn branch_outcome(branch: AST, is_match: bool, conds: Seq<ConditionalAssignment>, s1: Seq<VarScope>) -> Option<
    Option<ValueV>,
> {
    match branch {
        AST::OracleBranch { pattern, guard, body, .. } => match branch_test(pattern@, is_match, conds, s1) {
            Some((true, m)) => {
                let s = s1.push(scope_for(m));
                match ward_holds(guard, s) {
                    Some(true) => match body_value(*body, s) {
                        Some(v) => Some(Some(v)),
                        None => None,
                    },
                    Some(false) => Some(None),
                    None => None,
                }
            },
            Some((false, _)) => Some(None),
            None => None,
        },
        _ => Some(None),
    }
}

/// The value given by the first branch that runs, or abyss when none does.
pub open spec fn branch_choice(branches: Seq<AST>, is_match: bool, conds: Seq<ConditionalAssignment>, s1: Seq<VarScope>) -> Option<
    ValueV,
>
    decreases branches.len(),
{
    if branches.len() == 0 {
        Some(ValueV::Abyss)
    } else {
        match branch_outcome(branches[0], is_match, conds, s1) {
            Some(Some(v)) => Some(v),
            Some(None) => branch_choice(branches.drop_first(), is_match, conds, s1),
            None => None,
        }
    }
}

/// The value of an oracle, where it has one.
#[verifier::opaque]
pub open spec fn oracle_value(ast: AST, s0: Seq<VarScope>) -> Option<ValueV> {
    match ast {
        AST::Oracle { is_match, conditionals, branches, .. } => match scrutinee_scope(
            conditionals@,
            s0,
            conditionals@.len(),
        ) {
            Some(m) => branch_choice(branches@, is_match, conditionals@, s0.push(scope_for(m))),
            None => None,
        },
        _ => None,
    }
}

/// A branch whose patterns hold and whose ward has a value that is not an
/// omen.
pub open spec fn ward_fails(branch: AST, is_match: bool, conds: Seq<ConditionalAssignment>, s1: Seq<VarScope>) -> bool {
    match branch {
        AST::OracleBranch { pattern, guard, .. } => match branch_test(pattern@, is_match, conds, s1) {
            Some((true, m)) => match guard {
                Some(g) => match pure_value(*g, s1.push(scope_for(m))) {
                    Some(v) => !(v is Omen),
                    None => false,
                },
                None => false,
            },
            _ => false,
        },
        _ => false,
    }
}

/// Trying the branches in order reaches, past branches that do not run, one
/// whose ward is not an omen.
pub open spec fn choice_ward_fails(branches: Seq<AST>, is_match: bool, conds: Seq<ConditionalAssignment>, s1: Seq<VarScope>) -> bool
    decreases branches.len(),
{
    branches.len() > 0 && (ward_fails(branches[0], is_match, conds, s1) || (branch_outcome(branches[0], is_match, conds, s1)
        == Some(None::<ValueV>) && choice_ward_fails(branches.drop_first(), is_match, conds, s1)))
}

/// An oracle whose scrutinees have values and whose branches, tried in
/// order, reach a ward that is not an omen.
pub open spec fn oracle_ward_fails(ast: AST, s0: Seq<VarScope>) -> bool {
    match ast {
        AST::Oracle { is_match, conditionals, branches, .. } => match scrutinee_scope(conditionals@, s0, conditionals@.len()) {
            Some(m) => choice_ward_fails(branches@, is_match, conditionals@, s0.push(scope_for(m))),
            None => false,
        },
        _ => false,
    }
}

/// Stacks with the same bindings find the same failing wards.
pub proof fn lemma_choice_ward_same(branches: Seq<AST>, is_match: bool, conds: Seq<ConditionalAssignment>, a: Seq<VarScope>, b: Seq<VarScope>)
    requires
        same_bindings(a, b),
    ensures
        choice_ward_fails(branches, is_match, conds, a) == choice_ward_fails(branches, is_match, conds, b),
    decreases branches.len(),
{
    if branches.len() > 0 {
        lemma_outcome_same(branches[0], is_match, conds, a, b);
        match branches[0] {
            AST::OracleBranch { pattern, guard, .. } => {
                lemma_match_same(pattern@, conds, a, b, 0, Seq::empty());
                lemma_same_push(a, b, Seq::empty());
                lemma_cond_same(pattern@, a.push(Seq::empty()), b.push(Seq::empty()));
                if let Some((t, m)) = branch_test(pattern@, is_match, conds, a) {
                    let p = scope_for(m);
                    lemma_same_push(a, b, p);
                    if let Some(g) = guard {
                        lemma_pure_same(*g, a.push(p), b.push(p));
                    }
                }
            },
            _ => {},
        }
        lemma_choice_ward_same(branches.drop_first(), is_match, conds, a, b);
    }
}

/// Only an oracle has an oracle's value.
pub proof fn lemma_oracle_value_kind(ast: AST, s0: Seq<VarScope>)
    ensures
        oracle_value(ast, s0) is Some ==> ast is Oracle,
{
    reveal(oracle_value);
}

/// Stacks with the same bindings give every body the same value.
pub proof fn lemma_body_same(body: AST, a: Seq<VarScope>, b: Seq<VarScope>)
    requires
        same_bindings(a, b),
        a.len() >= 1,
    ensures
        body_value(body, a) == body_value(body, b),
        reveal_value(body, a) == reveal_value(body, b),
{
    lemma_pure_same(body, a, b);
    match body {
        AST::Reveal(e, _) => lemma_pure_same(*e, a, b),
        AST::Statement(inner, _) => match *inner {
            AST::Reveal(e, _) => lemma_pure_same(*e, a, b),
            _ => {},
        },
        AST::Block(stmts, _) => lemma_block_same(stmts@, a, b, ValueV::Abyss),
        _ => {},
    }
}

/// Stacks with the same bindings decide every list of conditions alike.
pub proof fn lemma_cond_same(pats: Seq<AST>, a: Seq<VarScope>, b: Seq<VarScope>)
    requires
        same_bindings(a, b),
    ensures
        cond_value(pats, a) == cond_value(pats, b),
    decreases pats.len(),
{
    if pats.len() > 0 {
        lemma_pure_same(pats[0], a, b);
        lemma_cond_same(pats.drop_first(), a, b);
    }
}

/// The same bindings, one scope deeper on both sides.
proof fn lemma_same_push(a: Seq<VarScope>, b: Seq<VarScope>, p: VarScope)
    requires
        same_bindings(a, b),
    ensures
        same_bindings(a.push(p), b.push(p)),
{
    lemma_same_bindings_push_both(a, b, p, p);
}

/// Stacks with the same bindings match every branch alike.
pub proof fn lemma_match_same(
    pats: Seq<AST>,
    conds: Seq<ConditionalAssignment>,
    a: Seq<VarScope>,
    b: Seq<VarScope>,
    k: nat,
    m: ScopeModel,
)
    requires
        same_bindings(a, b),
    ensures
        match_patterns(pats, conds, a, k, m) == match_patterns(pats, conds, b, k, m),
    decreases pats.len() - k,
{
    if k < pats.len() {
        let p = scope_for(m);
        lemma_same_push(a, b, p);
        lemma_pure_same(pats[k as int], a.push(p), b.push(p));
        if k < conds.len() {
            lemma_pure_same(*conds[k as int].expression, a.push(p), b.push(p));
            if let Some(v) = pure_value(*conds[k as int].expression, a.push(p)) {
                lemma_match_same(pats, conds, a, b, k + 1, model_bind(m, pats[k as int]->PatternBinding_name@, v));
            }
        }
        lemma_match_same(pats, conds, a, b, k + 1, m);
    }
}

/// Stacks with the same bindings give every branch the same outcome.
pub proof fn lemma_outcome_same(branch: AST, is_match: bool, conds: Seq<ConditionalAssignment>, a: Seq<VarScope>, b: Seq<VarScope>)
    requires
        same_bindings(a, b),
    ensures
        branch_outcome(branch, is_match, conds, a) == branch_outcome(branch, is_match, conds, b),
{
    reveal(branch_outcome);
    match branch {
        AST::OracleBranch { pattern, guard, body, .. } => {
            lemma_match_same(pattern@, conds, a, b, 0, Seq::empty());
            lemma_same_push(a, b, Seq::empty());
            lemma_cond_same(pattern@, a.push(Seq::empty()), b.push(Seq::empty()));
            if let Some((t, m)) = branch_test(pattern@, is_match, conds, a) {
                let p = scope_for(m);
                lemma_same_push(a, b, p);
                if let Some(g) = guard {
                    lemma_pure_same(*g, a.push(p), b.push(p));
                }
                lemma_body_same(*body, a.push(p), b.push(p));
            }
        },
        _ => {},
    }
}

/// Stacks with the same bindings choose the same branch.
pub proof fn lemma_choice_same(branches: Seq<AST>, is_match: bool, conds: Seq<ConditionalAssignment>, a: Seq<VarScope>, b: Seq<VarScope>)
    requires
        same_bindings(a, b),
    ensures
        branch_choice(branches, is_match, conds, a) == branch_choice(branches, is_match, conds, b),
    decreases branches.len(),
{
    if branches.len() > 0 {
        lemma_outcome_same(branches[0], is_match, conds, a, b);
        lemma_choice_same(branches.drop_first(), is_match, conds, a, b);
    }
}

/// An oracle: its scrutinees are bound in a new scope; the first branch
/// whose patterns (and ward) hold runs, in a scope of its own, and gives
/// the oracle's value, a revealed value unwrapped. With no branch holding,
/// the value is abyss.
pub(crate) fn eval_oracle<B: IoBridge, M: AetherOps>(
    node: &AST,
    env: &mut Environment,
    io: &mut B,
    math: &M,
    depth: u64,
) -> (r: Result<EvalResult, EvalError>)
    requires
        old(env).scopes().len() >= 1,
    ensures
        keeps(*old(env), *final(env)),
        oracle_value(*node, old(env).scopes()) matches Some(v) ==> (r matches Ok(res) && res@ == EvalResultV::Data(v)
            && final(env).scopes() == old(env).scopes()),
        oracle_ward_fails(*node, old(env).scopes()) ==> (r matches Err(EvalError::InvalidOperation(m, _)) && m@
            == "Oracle ward must evaluate to an omen"@),
    decreases depth, node, 2nat,
{
    proof {
        reveal(oracle_value);
    }
    let (is_match, conditionals, branches, line_info) = match node {
        AST::Oracle { is_match, conditionals, branches, line_info } => (is_match, conditionals, branches, line_info),
        _ => {
            return Err(EvalError::InvalidOperation(owned("Expected an oracle"), None));
        },
    };
    let ghost s0 = old(env).scopes();
    let ghost target = oracle_value(*node, s0);
    let ghost all = scrutinee_scope(conditionals@, s0, conditionals@.len());
    let ghost wf = oracle_ward_fails(*node, s0);
    env.push_scope();
    let ghost mut pc: crate::env::VarScope = Seq::empty();
    let mut c: usize = 0;
    while c < conditionals.len()
        invariant
            c <= conditionals@.len(),
            keeps(*old(env), *env),
            decreases_to!(node => conditionals),
            s0 == old(env).scopes(),
            s0.len() >= 1,
            target == oracle_value(*node, s0),
            all == scrutinee_scope(conditionals@, s0, conditionals@.len()),
            target is Some ==> all is Some,
            wf == oracle_ward_fails(*node, s0),
            wf ==> all is Some,
            all is Some ==> env.scopes() == s0.push(pc) && scrutinee_scope(conditionals@, s0, c as nat) == Some(scope_model(pc)),
        decreases conditionals@.len() - c,
    {
        assert(decreases_to!(node => conditionals@[c as int].expression));
        proof {
            if all is Some {
                lemma_scrutinee_scope_shorter(conditionals@, s0, conditionals@.len(), (c + 1) as nat);
                let m = scope_model(pc);
                lemma_scope_for(m, pc);
                lemma_same_bindings_push(s0, scope_for(m), pc);
                lemma_pure_same(*conditionals@[c as int].expression, s0.push(scope_for(m)), s0.push(pc));
            }
        }
        let result = eval_node(&conditionals[c].expression, env, io, math, depth)?;
        let (value, t) = conditional_binding(result, line_info)?;
        let key = conditionals[c].variable.clone();
        let ghost info = crate::env::VarInfo { value, var_type: t, is_morph: false, line_info: *line_info };
        proof {
            lemma_set_var_model(s0, pc, key, info);
        }
        env.set_var(key, value, t, false, *line_info);
        proof {
            if all is Some {
                pc = env.scopes().last();
            }
        }
        c = c + 1;
    }
    let ghost s1 = env.scopes();
    proof {
        if target is Some {
            let m = all.unwrap();
            lemma_scope_for(m, pc);
            lemma_same_bindings_push(s0, scope_for(m), pc);
            lemma_choice_same(branches@, *is_match, conditionals@, s0.push(scope_for(m)), s0.push(pc));
        }
        if wf {
            let m = all.unwrap();
            lemma_scope_for(m, pc);
            lemma_same_bindings_push(s0, scope_for(m), pc);
            lemma_choice_ward_same(branches@, *is_match, conditionals@, s0.push(scope_for(m)), s0.push(pc));
        }
        assert(branches@.skip(0) =~= branches@);
    }
    let mut b: usize = 0;
    while b < branches.len()
        invariant
            b <= branches@.len(),
            keeps(*old(env), *env),
            s0 == old(env).scopes(),
            s0.len() >= 1,
            *node == (AST::Oracle { is_match: *is_match, conditionals: *conditionals, branches: *branches, line_info: *line_info }),
            target == oracle_value(*node, s0),
            target is Some ==> s1 == s0.push(pc) && env.scopes() == s1 && branch_choice(
                branches@.skip(b as int),
                *is_match,
                conditionals@,
                s1,
            ) == target,
            wf == oracle_ward_fails(*node, s0),
            wf ==> s1 == s0.push(pc) && env.scopes() == s1 && choice_ward_fails(branches@.skip(b as int), *is_match, conditionals@, s1),
        decreases branches@.len() - b,
    {
        proof {
            assert(branches@.skip(b as int)[0] == branches@[b as int]);
            assert(branches@.skip(b as int).drop_first() =~= branches@.skip(b + 1));
        }
        match eval_branch(node, b, env, io, math, depth)? {
            Some(result) => {
                env.pop_scope();
                proof {
                    if target is Some {
                        assert(s1.drop_last() =~= s0);
                    }
                }
                return Ok(result);
            },
            None => {},
        }
        b = b + 1;
    }
    env.pop_scope();
    proof {
        if target is Some {
            assert(branches@.skip(b as int).len() == 0);
            assert(s1.drop_last() =~= s0);
        }
    }
    Ok(EvalResult::Data(Value::Abyss))
}

/// One branch of an oracle: its patterns are tested in a new scope, then
/// its ward; when both hold, its body runs there and gives the branch's
/// result (a revealed value unwrapped); `None` when the branch does not run.
#[verifier::rlimit(40)]
fn eval_branch<B: IoBridge, M: AetherOps>(
    node: &AST,
    b: usize,
    env: &mut Environment,
    io: &mut B,
    math: &M,
    depth: u64,
) -> (r: Result<Option<EvalResult>, EvalError>)
    requires
        old(env).scopes().len() >= 1,
        node matches AST::Oracle { branches, .. } && b < branches@.len(),
    ensures
        keeps(*old(env), *final(env)),
        branch_outcome(node->Oracle_branches@[b as int], node->Oracle_is_match, node->Oracle_conditionals@, old(env).scopes()) matches Some(o)
            ==> (r matches Ok(x) && final(env).scopes() == old(env).scopes() && match o {
            None => x is None,
            Some(v) => x matches Some(res) && res@ == EvalResultV::Data(v),
        }),
        ward_fails(node->Oracle_branches@[b as int], node->Oracle_is_match, node->Oracle_conditionals@, old(env).scopes()) ==> (
        r matches Err(EvalError::InvalidOperation(m, _)) && m@ == "Oracle ward must evaluate to an omen"@),
        branch_fires(node->Oracle_branches@[b as int], node->Oracle_is_match, node->Oracle_conditionals@, old(env).scopes()) ==> !(r matches Ok(None)),
    decreases depth, node, 1nat,
{
    let (is_match, conditionals, branches) = match node {
        AST::Oracle { is_match, conditionals, branches, .. } => (is_match, conditionals, branches),
        _ => {
            return Ok(None);
        },
    };
    assert(decreases_to!(node => branches@[b as int]));
    proof {
        reveal(branch_outcome);
    }
    let ghost s = old(env).scopes();
    let ghost target = branch_outcome(branches@[b as int], *is_match, conditionals@, s);
    match &branches[b] {
        AST::OracleBranch { pattern, guard, body, line_info: branch_line } => {
            let ghost test = branch_test(pattern@, *is_match, conditionals@, s);
            env.push_scope();
            let ghost mut bs: crate::env::VarScope = Seq::empty();
            let mut matched = true;
            let mut k: usize = 0;
            proof {
                assert(pattern@.skip(0) =~= pattern@);
                assert(scope_model(bs) =~= Seq::empty());
            }
            while k < pattern.len() && matched
                invariant
                    k <= pattern@.len(),
                    keeps(*old(env), *env),
                    decreases_to!(node => pattern),
                    decreases_to!(node => conditionals),
                    s == old(env).scopes(),
                    s.len() >= 1,
                    test == branch_test(pattern@, *is_match, conditionals@, s),
                    target == branch_outcome(branches@[b as int], *is_match, conditionals@, s),
                    node is Oracle && node->Oracle_branches == *branches && node->Oracle_conditionals == *conditionals
                        && node->Oracle_is_match == *is_match,
                    b < branches@.len(),
                    branches@[b as int] == (AST::OracleBranch { pattern: *pattern, guard: *guard, body: *body, line_info: *branch_line }),
                    target is Some ==> test is Some,
                    test is Some ==> env.scopes() == s.push(bs),
                    test is Some && *is_match ==> (matched ==> test == match_patterns(
                        pattern@,
                        conditionals@,
                        s,
                        k as nat,
                        scope_model(bs),
                    )) && (!matched ==> test == Some((false, scope_model(bs)))),
                    test is Some && !*is_match ==> bs == Seq::<(String, crate::env::VarInfo)>::empty() && (matched ==> cond_value(
                        pattern@,
                        s.push(Seq::empty()),
                    ) == cond_value(pattern@.skip(k as int), s.push(Seq::empty()))) && (!matched ==> cond_value(
                        pattern@,
                        s.push(Seq::empty()),
                    ) == Some(false)),
                decreases pattern@.len() - k,
            {
                assert(decreases_to!(node => pattern@[k as int]));
                proof {
                    assert(pattern@.skip(k as int)[0] == pattern@[k as int]);
                    assert(pattern@.skip(k as int).drop_first() =~= pattern@.skip(k + 1));
                    if test is Some && !*is_match {
                        lemma_scope_for_empty();
                    }
                }
                if *is_match {
                    proof {
                        if test is Some {
                            assert(s.push(bs).drop_last() =~= s);
                            assert(s.push(bs).last() == bs);
                        }
                    }
                    matched = eval_match_pattern(node, b, k, env, io, math, depth)?;
                    proof {
                        if test is Some {
                            assert(env.scopes() =~= s.push(env.scopes().last()));
                            bs = env.scopes().last();
                        }
                    }
                } else {
                    let holds = match eval_node(&pattern[k], env, io, math, depth) {
                        Ok(EvalResult::Data(Value::Omen(true))) => true,
                        _ => false,
                    };
                    matched = holds;
                }
                k = k + 1;
            }
            proof {
                if test is Some && matched {
                    assert(pattern@.skip(k as int).len() == 0);
                }
                if test is Some && !*is_match {
                    lemma_scope_for_empty();
                    assert(scope_model(bs) =~= Seq::empty());
                }
            }
            if matched {
                if let Some(g) = guard {
                    assert(decreases_to!(node => **g));
                    proof {
                        if test is Some {
                            let m = scope_model(bs);
                            lemma_scope_for(m, bs);
                            lemma_same_bindings_push(s, scope_for(m), bs);
                            lemma_pure_same(**g, s.push(scope_for(m)), s.push(bs));
                        }
                    }
                    match eval_node(g, env, io, math, depth)? {
                        EvalResult::Data(Value::Omen(w)) => {
                            matched = w;
                        },
                        _ => {
                            return Err(EvalError::InvalidOperation(owned("Oracle ward must evaluate to an omen"), *branch_line));
                        },
                    }
                }
            }
            if matched {
                assert(decreases_to!(node => **body));
                proof {
                    if test is Some {
                        let m = scope_model(bs);
                        lemma_scope_for(m, bs);
                        lemma_same_bindings_push(s, scope_for(m), bs);
                        lemma_body_same(**body, s.push(scope_for(m)), s.push(bs));
                    }
                }
                let result = eval_node(body, env, io, math, depth)?;
                let result = match result {
                    EvalResult::Revealed(inner) => *inner,
                    other => other,
                };
                env.pop_scope();
                proof {
                    if test is Some {
                        assert(s.push(bs).drop_last() =~= s);
                    }
                }
                return Ok(Some(result));
            }
            env.pop_scope();
            proof {
                if test is Some {
                    assert(s.push(bs).drop_last() =~= s);
                }
            }
            Ok(None)
        },
        _ => Ok(None),
    }
}

/// Whether testing the `k`-th pattern of a match branch went as
/// [`match_patterns`] says, from the branch's bindings `m` before to `m2`
/// after, with `matched` its outcome.
pub open spec fn match_step(
    pats: Seq<AST>,
    conds: Seq<ConditionalAssignment>,
    s: Seq<VarScope>,
    k: nat,
    m: ScopeModel,
    matched: bool,
    m2: ScopeModel,
) -> bool {
    &&& matched ==> match_patterns(pats, conds, s, k, m) == match_patterns(pats, conds, s, k + 1, m2)
    &&& !matched ==> match_patterns(pats, conds, s, k, m) == Some((false, m2))
}

/// Tests the `k`-th pattern of a match branch against its scrutinee, in
/// the branch's scope (the innermost one): `_` matches anything, a name
/// binds the scrutinee's value there, and any other pattern must equal the
/// scrutinee.
fn eval_match_pattern<B: IoBridge, M: AetherOps>(
    node: &AST,
    b: usize,
    k: usize,
    env: &mut Environment,
    io: &mut B,
    math: &M,
    depth: u64,
) -> (r: Result<bool, EvalError>)
    requires
        old(env).scopes().len() >= 1,
        node is Oracle,
        b < node->Oracle_branches@.len(),
        node->Oracle_branches@[b as int] is OracleBranch,
        k < node->Oracle_branches@[b as int]->OracleBranch_pattern@.len(),
    ensures
        keeps(*old(env), *final(env)),
        match_patterns(
            node->Oracle_branches@[b as int]->OracleBranch_pattern@,
            node->Oracle_conditionals@,
            old(env).scopes().drop_last(),
            k as nat,
            scope_model(old(env).scopes().last()),
        ) is Some ==> (r matches Ok(matched) && final(env).scopes().len() == old(env).scopes().len()
            && final(env).scopes().drop_last() == old(env).scopes().drop_last() && match_step(
            node->Oracle_branches@[b as int]->OracleBranch_pattern@,
            node->Oracle_conditionals@,
            old(env).scopes().drop_last(),
            k as nat,
            scope_model(old(env).scopes().last()),
            matched,
            scope_model(final(env).scopes().last()),
        )),
    decreases depth, node, 0nat,
{
    let (conditionals, branches) = match node {
        AST::Oracle { conditionals, branches, .. } => (conditionals, branches),
        _ => {
            return Ok(false);
        },
    };
    assert(decreases_to!(node => branches@[b as int]));
    let (pattern, branch_line) = match &branches[b] {
        AST::OracleBranch { pattern, line_info, .. } => (pattern, line_info),
        _ => {
            return Ok(false);
        },
    };
    assert(decreases_to!(node => pattern@[k as int]));
    let ghost s = old(env).scopes().drop_last();
    let ghost bs = old(env).scopes().last();
    let ghost m = scope_model(bs);
    proof {
        assert(old(env).scopes() =~= s.push(bs));
        lemma_scope_for(m, bs);
        lemma_same_bindings_push(s, scope_for(m), bs);
        lemma_pure_same(pattern@[k as int], s.push(scope_for(m)), s.push(bs));
        if k < conditionals@.len() {
            lemma_pure_same(*conditionals@[k as int].expression, s.push(scope_for(m)), s.push(bs));
        }
    }
    match &pattern[k] {
        AST::OracleDontCareItem(_) => Ok(true),
        AST::PatternBinding { name, .. } => {
            if k >= conditionals.len() {
                return Err(EvalError::InvalidOperation(owned("Oracle pattern has more elements than scrutinees"), *branch_line));
            }
            assert(decreases_to!(node => conditionals@[k as int].expression));
            let scrutinee = eval_node(&conditionals[k].expression, env, io, math, depth)?;
            let bound = eval_result_to_value_checked(scrutinee, *branch_line)?;
            let key = name.clone();
            let ghost info = crate::env::VarInfo { value: bound, var_type: Type::Materia, is_morph: false, line_info: *branch_line };
            proof {
                lemma_set_var_model(s, bs, key, info);
            }
            env.set_var(key, bound, Type::Materia, false, *branch_line);
            Ok(true)
        },
        p => {
            if k >= conditionals.len() {
                return Err(EvalError::InvalidOperation(owned("Oracle pattern has more elements than scrutinees"), *branch_line));
            }
            let pattern_result = eval_node(p, env, io, math, depth)?;
            assert(decreases_to!(node => conditionals@[k as int].expression));
            let scrutinee = eval_node(&conditionals[k].expression, env, io, math, depth)?;
            pattern_matches(math, &scrutinee, &pattern_result, branch_line)
        },
    }
}

} // verus!
