//! The evaluator: the recursive algorithm that reduces an expression
//! tree to a normal form, using the binding table for lookups and
//! operator dispatch for builtin invocation.
//!
//! Every recursive descent is paid for from an explicit budget; when
//! it runs out the walk stops with a typed failure instead of
//! exhausting the call stack.  The executable walker is proved to
//! return exactly what the specification-level walker describes, step
//! for step, including the state of the binding table.
use crate::ast::{views_of, Expr, SpecExpr, SpecSymbol, Symbol};
use crate::environment::{Env, SpecEnv};
use crate::error::{EvalKind, EvalResult, LangError};
use crate::operator::{agrees, dispatch_symbol, fail, spec_symbol_operate};
use crate::syntax::{spec_parse_text, Parser};
use vstd::prelude::*;
use vstd::string::StringExecFns;

verus! {

/// Reads one line of surface text into an evaluable group; a text
/// outside the language becomes a displayable message instead.
pub fn parse_input(input: &str) -> (r: Result<Expr, String>)
    ensures
        match r {
            Ok(e) => spec_parse_text(input@) == Some(e@),
            Err(_) => spec_parse_text(input@) is None,
        },
{
    match Parser::new().parse(input) {
        Ok(v) => Ok(v),
        Err(_) => Err(String::from_str("Parse error")),
    }
}

/// What reducing one expression yields, and the table it leaves
/// behind.  A group spends one unit of budget and delegates to
/// `spec_eval`; every other variant reduces at once.
pub open spec fn spec_eval_input(e: SpecExpr, env: SpecEnv, fuel: nat) -> (Result<
    SpecExpr,
    EvalKind,
>, SpecEnv)
    decreases fuel, 0int, 0int,
{
    match e {
        SpecExpr::Val(_) => (Ok(e), env),
        SpecExpr::Sym(s) => match s {
            SpecSymbol::Var(id) => if env.contains_key(id) {
                (Ok(env[id]), env)
            } else {
                (Err(EvalKind::Lang(LangError::UnboundSymbol)), env)
            },
            _ => (Ok(e), env),
        },
        SpecExpr::Sexp(children) => if fuel == 0 {
            (Err(EvalKind::Lang(LangError::DepthExceeded)), env)
        } else {
            spec_eval(children, env, (fuel - 1) as nat)
        },
        SpecExpr::Qexp(_) => (Ok(e), env),
        SpecExpr::Empty => (Ok(e), env),
        SpecExpr::Error => (Err(EvalKind::Lang(LangError::ParseFailure)), env),
    }
}

/// Reduces the children of a group from position `i` onward, left to
/// right and fail-fast, discarding every result equal to the empty
/// marker.  Yields the surviving results and the table they leave.
pub open spec fn spec_eval_children(
    children: Seq<SpecExpr>,
    i: int,
    env: SpecEnv,
    fuel: nat,
) -> (Result<Seq<SpecExpr>, EvalKind>, SpecEnv)
    decreases fuel, children.len() - i + 1, 0int,
{
    if i < 0 || i >= children.len() {
        (Ok(Seq::empty()), env)
    } else {
        let (r0, env0) = spec_eval_input(children[i], env, fuel);
        match r0 {
            Err(k) => (Err(k), env0),
            Ok(v) => {
                let (rr, env1) = spec_eval_children(children, i + 1, env0, fuel);
                match rr {
                    Err(k) => (Err(k), env1),
                    Ok(rest) => (
                        Ok(
                            if v is Empty {
                                rest
                            } else {
                                seq![v] + rest
                            },
                        ),
                        env1,
                    ),
                }
            },
        }
    }
}

/// What a whole group reduces to: its children are reduced and
/// filtered; no survivor yields the empty marker, one survivor
/// collapses to itself, and two or more dispatch on a symbol head.
pub open spec fn spec_eval(children: Seq<SpecExpr>, env: SpecEnv, fuel: nat) -> (Result<
    SpecExpr,
    EvalKind,
>, SpecEnv)
    decreases fuel, children.len() + 2, 0int,
{
    let (cr, env1) = spec_eval_children(children, 0, env, fuel);
    match cr {
        Err(k) => (Err(k), env1),
        Ok(survivors) => if survivors.len() == 0 {
            (Ok(SpecExpr::Empty), env1)
        } else if survivors.len() == 1 {
            (Ok(survivors[0]), env1)
        } else {
            match survivors[0] {
                SpecExpr::Sym(s) => spec_symbol_operate(s, survivors, env1, fuel),
                _ => (Err(EvalKind::Lang(LangError::InvalidOperator)), env1),
            }
        },
    }
}

/// First level of evaluation: reduces a single expression against the
/// binding table, with `fuel` bounding how deep the walk may go.
pub fn eval_input(expr: &Expr, env: &mut Env, fuel: u64) -> (r: EvalResult<Expr>)
    ensures
        agrees(r, final(env)@, spec_eval_input(expr@, old(env)@, fuel as nat)),
    decreases fuel, 0int, 0int,
{
    match expr {
        Expr::Val(v) => Ok(Expr::Val(*v)),
        Expr::Sym(v) => match v {
            Symbol::Arith(a) => Ok(Expr::Sym(Symbol::Arith(*a))),
            Symbol::Builtin(b) => Ok(Expr::Sym(Symbol::Builtin(*b))),
            Symbol::Var(var) => match env.lookup(&var.ident) {
                Some(value) => Ok(value),
                None => Err(fail(EvalKind::Lang(LangError::UnboundSymbol))),
            },
        },
        Expr::Sexp(v) => {
            if fuel == 0 {
                Err(fail(EvalKind::Lang(LangError::DepthExceeded)))
            } else {
                eval(v, env, fuel - 1)
            }
        },
        Expr::Qexp(_) => Ok(expr.clone()),
        Expr::Empty => Ok(Expr::Empty),
        Expr::Error => Err(fail(EvalKind::Lang(LangError::ParseFailure))),
    }
}

/// Reduces every child of a group in order, drops the empty results,
/// and either collapses the survivors or dispatches the symbol at
/// their head.
pub fn eval(exprs: &Vec<Expr>, env: &mut Env, fuel: u64) -> (r: EvalResult<Expr>)
    ensures
        agrees(r, final(env)@, spec_eval(views_of(exprs@), old(env)@, fuel as nat)),
    decreases fuel, exprs@.len() + 2, 0int,
{
    proof {
        crate::ast::lemma_views_of(exprs@);
    }
    let ghost ch = views_of(exprs@);
    let ghost env0 = env@;
    let mut updated_exp: Vec<Expr> = Vec::new();
    let n = exprs.len();
    let mut i: usize = 0;
    while i < n
        invariant
            0 <= i <= n,
            n == exprs@.len(),
            ch == views_of(exprs@),
            ch.len() == n,
            forall|j: int| 0 <= j < n ==> ch[j] == exprs@[j]@,
            env0 == old(env)@,
            spec_eval_children(ch, 0, env0, fuel as nat) == (match spec_eval_children(
                ch,
                i as int,
                env@,
                fuel as nat,
            ).0 {
                Ok(rest) => (
                    Ok(views_of(updated_exp@) + rest),
                    spec_eval_children(ch, i as int, env@, fuel as nat).1,
                ),
                Err(k) => spec_eval_children(ch, i as int, env@, fuel as nat),
            }),
        decreases n - i,
    {
        proof {
            assert(decreases_to!(fuel as int, exprs@.len() + 2, 0int => fuel as int, 0int, 0int));
        }
        let ghost env_pre = env@;
        let ghost upd_pre = updated_exp@;
        let result = match eval_input(&exprs[i], env, fuel) {
            Ok(v) => v,
            Err(e) => {
                proof {
                    let step = spec_eval_input(ch[i as int], env_pre, fuel as nat);
                    assert(spec_eval_children(ch, i as int, env_pre, fuel as nat) == (
                    Err::<Seq<SpecExpr>, EvalKind>(step.0->Err_0), step.1));
                }
                return Err(e);
            },
        };
        proof {
            let step = spec_eval_input(ch[i as int], env_pre, fuel as nat);
            let restc = spec_eval_children(ch, i + 1, env@, fuel as nat);
            assert(spec_eval_children(ch, i as int, env_pre, fuel as nat) == (match restc.0 {
                Err(k) => (Err::<Seq<SpecExpr>, EvalKind>(k), restc.1),
                Ok(rest) => (
                    Ok::<Seq<SpecExpr>, EvalKind>(
                        if step.0->Ok_0 is Empty {
                            rest
                        } else {
                            seq![step.0->Ok_0] + rest
                        },
                    ),
                    restc.1,
                ),
            }));
        }
        match result {
            Expr::Empty => {
            },
            other => {
                let ghost v = other@;
                updated_exp.push(other);
                proof {
                    crate::ast::lemma_views_of(upd_pre);
                    crate::ast::lemma_views_of(updated_exp@);
                    assert(views_of(updated_exp@) =~= views_of(upd_pre) + seq![v]);
                    assert forall|rest: Seq<SpecExpr>|
                        true implies (views_of(upd_pre) + (seq![v] + rest)) =~= (views_of(
                        updated_exp@,
                    ) + rest) by {
                    }
                }
            },
        }
        i = i + 1;
    }
    proof {
        assert(spec_eval_children(ch, n as int, env@, fuel as nat) == (Ok::<
            Seq<SpecExpr>,
            EvalKind,
        >(Seq::empty()), env@));
        assert(views_of(updated_exp@) + Seq::<SpecExpr>::empty() =~= views_of(updated_exp@));
        crate::ast::lemma_views_of(updated_exp@);
    }
    // Empty results were removed as the children reduced; a group
    // whose survivors all vanished reduces to the empty marker.
    if updated_exp.len() == 0 {
        return Ok(Expr::Empty);
    }
    // A single surviving expression, such as `(5)`, collapses to
    // itself.
    if updated_exp.len() == 1 {
        let first = updated_exp.remove(0);
        return Ok(first);
    }
    // Several survivors: the first must be a symbol, dispatched over
    // the rest; anything else is a structurally invalid expression.
    match &updated_exp[0] {
        Expr::Sym(sym) => {
            proof {
                assert(views_of(updated_exp@)[0] == SpecExpr::Sym(sym@));
            }
            dispatch_symbol(sym, &updated_exp, env, fuel)
        },
        _ => {
            proof {
                assert(!(views_of(updated_exp@)[0] is Sym));
            }
            Err(fail(EvalKind::Lang(LangError::InvalidOperator)))
        },
    }
}

} // verus!
