//! Laws of the evaluator, stated against the same specification
//! functions that every executable function's contract is proved
//! against.
use crate::ast::{SpecExpr, SpecSymbol};
use crate::environment::SpecEnv;
use crate::error::EvalKind;
use crate::eval::{spec_eval, spec_eval_children, spec_eval_input};
use crate::operator::{spec_define, spec_head, spec_join, spec_tail};
use vstd::prelude::*;

verus! {

/// Reducing a group that holds exactly one number returns that number
/// unchanged, and leaves the table alone.
pub proof fn lemma_singleton_number_collapse(n: i64, env: SpecEnv, fuel: nat)
    requires
        fuel >= 1,
    ensures
        spec_eval_input(SpecExpr::Sexp(seq![SpecExpr::Val(n)]), env, fuel) == (Ok::<
            SpecExpr,
            EvalKind,
        >(SpecExpr::Val(n)), env),
{
    let ch = seq![SpecExpr::Val(n)];
    let f = (fuel - 1) as nat;
    assert(spec_eval_input(ch[0], env, f) == (Ok::<SpecExpr, EvalKind>(SpecExpr::Val(n)), env));
    assert(spec_eval_children(ch, 1, env, f) == (Ok::<Seq<SpecExpr>, EvalKind>(Seq::empty()), env));
    assert(spec_eval_children(ch, 0, env, f) == (Ok::<Seq<SpecExpr>, EvalKind>(
        seq![SpecExpr::Val(n)] + Seq::empty(),
    ), env));
    assert((seq![SpecExpr::Val(n)] + Seq::<SpecExpr>::empty()) =~= ch);
    assert(spec_eval(ch, env, f) == (Ok::<SpecExpr, EvalKind>(ch[0]), env));
}

/// A group that is, at every level, made only of groups with no other
/// content.  The empty group is the base case.
pub open spec fn nested_empty(e: SpecExpr) -> bool
    decreases e, 0int,
{
    e is Sexp && all_nested_empty(e->Sexp_0)
}

/// Every expression of the sequence is a nest of empty groups.
pub open spec fn all_nested_empty(s: Seq<SpecExpr>) -> bool
    decreases s, 1int,
{
    if s.len() == 0 {
        true
    } else {
        nested_empty(s.last()) && all_nested_empty(s.drop_last())
    }
}

/// How deep a nest of groups goes: what the recursion budget must
/// cover to reduce it.
pub open spec fn nest_height(e: SpecExpr) -> nat
    decreases e, 0int,
{
    if e is Sexp {
        1 + seq_height(e->Sexp_0)
    } else {
        0
    }
}

/// The greatest nest height in a sequence.
pub open spec fn seq_height(s: Seq<SpecExpr>) -> nat
    decreases s, 1int,
{
    if s.len() == 0 {
        0
    } else if nest_height(s.last()) >= seq_height(s.drop_last()) {
        nest_height(s.last())
    } else {
        seq_height(s.drop_last())
    }
}

proof fn lemma_seq_height_bound(s: Seq<SpecExpr>, i: int)
    requires
        0 <= i < s.len(),
    ensures
        nest_height(s[i]) <= seq_height(s),
    decreases s,
{
    if i == s.len() - 1 {
    } else {
        lemma_seq_height_bound(s.drop_last(), i);
    }
}

proof fn lemma_all_nested_empty_index(s: Seq<SpecExpr>, i: int)
    requires
        all_nested_empty(s),
        0 <= i < s.len(),
    ensures
        nested_empty(s[i]),
    decreases s,
{
    if i == s.len() - 1 {
    } else {
        lemma_all_nested_empty_index(s.drop_last(), i);
    }
}

/// Reducing an empty group, or a group nested solely of empty groups,
/// yields the empty marker and leaves the table alone, whenever the
/// budget covers the nesting depth.
pub proof fn lemma_nested_empty_collapse(e: SpecExpr, env: SpecEnv, fuel: nat)
    requires
        nested_empty(e),
        fuel >= nest_height(e),
    ensures
        spec_eval_input(e, env, fuel) == (Ok::<SpecExpr, EvalKind>(SpecExpr::Empty), env),
    decreases e, 0int,
{
    let ch = e->Sexp_0;
    let f = (fuel - 1) as nat;
    lemma_nested_empty_children(ch, 0, env, f);
    assert(spec_eval(ch, env, f) == (Ok::<SpecExpr, EvalKind>(SpecExpr::Empty), env));
}

/// The children of a nest of empty groups all reduce to the empty
/// marker and are all dropped: no survivors, no table change.
proof fn lemma_nested_empty_children(ch: Seq<SpecExpr>, i: int, env: SpecEnv, fuel: nat)
    requires
        all_nested_empty(ch),
        fuel >= seq_height(ch),
        0 <= i <= ch.len(),
    ensures
        spec_eval_children(ch, i, env, fuel) == (Ok::<Seq<SpecExpr>, EvalKind>(Seq::empty()), env),
    decreases ch, ch.len() - i + 2,
{
    if i < ch.len() {
        lemma_all_nested_empty_index(ch, i);
        lemma_seq_height_bound(ch, i);
        assert(decreases_to!(ch, ch.len() - i + 2 => ch[i], 0int));
        lemma_nested_empty_collapse(ch[i], env, fuel);
        lemma_nested_empty_children(ch, i + 1, env, fuel);
    }
}

/// For a non-empty literal, joining its head and its tail gives back
/// the literal itself, element order preserved.
pub proof fn lemma_head_tail_complement(v: Seq<SpecExpr>)
    requires
        v.len() > 0,
    ensures
        spec_head(seq![SpecExpr::Qexp(v)]) == Ok::<SpecExpr, EvalKind>(
            SpecExpr::Qexp(seq![v[0]]),
        ),
        spec_tail(seq![SpecExpr::Qexp(v)]) == Ok::<SpecExpr, EvalKind>(
            SpecExpr::Qexp(v.drop_first()),
        ),
        spec_join(seq![SpecExpr::Qexp(seq![v[0]]), SpecExpr::Qexp(v.drop_first())]) == Ok::<
            SpecExpr,
            EvalKind,
        >(SpecExpr::Qexp(v)),
{
    let h = SpecExpr::Qexp(seq![v[0]]);
    let t = SpecExpr::Qexp(v.drop_first());
    let ops = seq![h, t];
    assert(forall|j: int| 0 <= j < ops.len() ==> ops[j] is Qexp);
    assert(crate::operator::join_concat(ops, 2) =~= Seq::<SpecExpr>::empty());
    assert(crate::operator::join_concat(ops, 1) =~= v.drop_first());
    assert(crate::operator::join_concat(ops, 0) =~= seq![v[0]] + v.drop_first());
    assert(seq![v[0]] + v.drop_first() =~= v);
}

/// After `def` binds one name to a value, evaluating a reference to
/// that name against the same table returns exactly that value.
pub proof fn lemma_def_then_lookup(id: Seq<char>, val: SpecExpr, env: SpecEnv, fuel: nat)
    ensures
        spec_define(seq![SpecExpr::Qexp(seq![SpecExpr::Sym(SpecSymbol::Var(id))]), val], env) == (
        Ok::<SpecExpr, EvalKind>(SpecExpr::Empty), env.insert(id, val)),
        spec_eval_input(SpecExpr::Sym(SpecSymbol::Var(id)), env.insert(id, val), fuel) == (Ok::<
            SpecExpr,
            EvalKind,
        >(val), env.insert(id, val)),
{
    let rest = seq![SpecExpr::Qexp(seq![SpecExpr::Sym(SpecSymbol::Var(id))]), val];
    let names = seq![SpecExpr::Sym(SpecSymbol::Var(id))];
    assert(crate::operator::spec_bind_names(names, rest, 1, env.insert(id, val)) == (Ok::<
        SpecExpr,
        EvalKind,
    >(SpecExpr::Empty), env.insert(id, val)));
    assert(crate::operator::spec_bind_names(names, rest, 0, env) == (Ok::<SpecExpr, EvalKind>(
        SpecExpr::Empty,
    ), env.insert(id, val)));
}

} // verus!
