//! Operator dispatch: the closed set of arithmetic and list builtins,
//! each with its own argument-count and type contract.
//!
//! Arithmetic folds the operator over the operands starting from a
//! per-operator seed (0 for `+` and `-`, 1 for `*`, `/` and `%`), as
//! the surrounding language defines it; with more than one trailing
//! operand, `-` and `/` therefore do not behave like conventional
//! left-associative subtraction or division.  Steps wrap on overflow,
//! quotient and remainder truncate toward zero, and a zero divisor is
//! a typed failure.
use crate::ast::{views_of, Arith, Builtin, Expr, Number, SpecExpr, SpecSymbol, Symbol};
use crate::environment::{Env, SpecEnv};
use crate::error::{make_error, EvalKind, EvalResult, LangError, LispyError, ProgramError};
use vstd::prelude::*;
use vstd::string::StringExecFns;

verus! {

/// How an executable outcome relates to a specified one: same success
/// or failure, same view of the value, same kind of fault.
pub open spec fn agrees_result(r: EvalResult<Expr>, s: Result<SpecExpr, EvalKind>) -> bool {
    match (r, s) {
        (Ok(e), Ok(se)) => e@ == se,
        (Err(e), Err(k)) => e.kind == k,
        _ => false,
    }
}

/// As `agrees_result`, together with the state of the binding table.
pub open spec fn agrees(
    r: EvalResult<Expr>,
    envv: SpecEnv,
    s: (Result<SpecExpr, EvalKind>, SpecEnv),
) -> bool {
    envv == s.1 && agrees_result(r, s.0)
}

/// The display message that belongs to each kind of fault.
pub open spec fn spec_kind_message(kind: EvalKind) -> Seq<char> {
    match kind {
        EvalKind::Program(ProgramError::WrongArity) => "wrong number of operands"@,
        EvalKind::Program(ProgramError::WrongType) => "wrong type of operand"@,
        EvalKind::Program(ProgramError::EmptyList) => "the literal is empty"@,
        EvalKind::Program(ProgramError::DivisionByZero) => "division by zero"@,
        EvalKind::Lang(LangError::UnboundSymbol) => "unbound symbol"@,
        EvalKind::Lang(LangError::InvalidOperator) => "the group head is not a symbol"@,
        EvalKind::Lang(LangError::ParseFailure) => "a parsing error occurred"@,
        EvalKind::Lang(LangError::DepthExceeded) => "expression nested too deeply"@,
    }
}

/// A short display message for each kind of fault.
fn kind_message(kind: EvalKind) -> (r: &'static str)
    ensures
        r@ == spec_kind_message(kind),
{
    match kind {
        EvalKind::Program(ProgramError::WrongArity) => "wrong number of operands",
        EvalKind::Program(ProgramError::WrongType) => "wrong type of operand",
        EvalKind::Program(ProgramError::EmptyList) => "the literal is empty",
        EvalKind::Program(ProgramError::DivisionByZero) => "division by zero",
        EvalKind::Lang(LangError::UnboundSymbol) => "unbound symbol",
        EvalKind::Lang(LangError::InvalidOperator) => "the group head is not a symbol",
        EvalKind::Lang(LangError::ParseFailure) => "a parsing error occurred",
        EvalKind::Lang(LangError::DepthExceeded) => "expression nested too deeply",
    }
}

/// Builds the failure an operator reports, from its kind.
pub fn fail(kind: EvalKind) -> (e: LispyError<EvalKind>)
    ensures
        e.kind == kind,
        e.message@ == spec_kind_message(kind),
{
    make_error(kind, String::from_str(kind_message(kind)))
}

/// The seed an arithmetic fold starts from.
pub open spec fn arith_seed(op: Arith) -> i64 {
    match op {
        Arith::Add => 0,
        Arith::Sub => 0,
        Arith::Mul => 1,
        Arith::Div => 1,
        Arith::Mod => 1,
    }
}

/// One arithmetic step: wrapping on overflow, quotient and remainder
/// truncating toward zero, and `None` exactly on a zero divisor.
pub open spec fn arith_step(op: Arith, a: i64, b: i64) -> Option<i64> {
    match op {
        Arith::Add => Some(a.wrapping_add(b)),
        Arith::Sub => Some(a.wrapping_sub(b)),
        Arith::Mul => Some(a.wrapping_mul(b)),
        Arith::Div => if b == 0 {
            None
        } else if a == i64::MIN && b == -1 {
            Some(i64::MIN)
        } else {
            a.checked_div(b)
        },
        Arith::Mod => if b == 0 {
            None
        } else if a == i64::MIN && b == -1 {
            Some(0)
        } else {
            a.checked_rem(b)
        },
    }
}

/// Away from the two singular inputs, a truncating quotient stays in
/// range, so `checked_div` succeeds.
proof fn lemma_div_in_range(a: i64, b: i64)
    requires
        b != 0,
        !(a == i64::MIN && b == -1),
    ensures
        a.checked_div(b) is Some,
{
    let x = a as int;
    let d = b as int;
    if x > 0 && d > 0 {
        vstd::arithmetic::div_mod::lemma_div_pos_is_pos(x, d);
        vstd::arithmetic::div_mod::lemma_div_nonincreasing(x, d);
    } else if x < 0 && d < 0 {
        vstd::arithmetic::div_mod::lemma_div_pos_is_pos(x * -1, d * -1);
        if a == i64::MIN {
            vstd::arithmetic::div_mod::lemma_div_is_ordered_by_denominator(x * -1, 2, d * -1);
            vstd::arithmetic::div_mod::lemma_fundamental_div_mod_converse(
                0x8000_0000_0000_0000,
                2,
                0x4000_0000_0000_0000,
                0,
            );
        } else {
            vstd::arithmetic::div_mod::lemma_div_nonincreasing(x * -1, d * -1);
        }
    } else if x < 0 {
        vstd::arithmetic::div_mod::lemma_div_pos_is_pos(x * -1, d);
        vstd::arithmetic::div_mod::lemma_div_nonincreasing(x * -1, d);
    } else if x > 0 {
        vstd::arithmetic::div_mod::lemma_div_pos_is_pos(x, d * -1);
        vstd::arithmetic::div_mod::lemma_div_nonincreasing(x, d * -1);
    }
}

/// A truncating remainder never leaves the range either, so
/// `checked_rem` succeeds away from the singular inputs.
proof fn lemma_rem_in_range(a: i64, b: i64)
    requires
        b != 0,
        !(a == i64::MIN && b == -1),
    ensures
        a.checked_rem(b) is Some,
{
    let x = a as int;
    let d = b as int;
    if x > 0 && d > 0 {
        vstd::arithmetic::div_mod::lemma_mod_pos_bound(x, d);
    } else if x < 0 && d < 0 {
        vstd::arithmetic::div_mod::lemma_mod_pos_bound(x * -1, d * -1);
    } else if x < 0 {
        vstd::arithmetic::div_mod::lemma_mod_pos_bound(x * -1, d);
    } else if x > 0 {
        vstd::arithmetic::div_mod::lemma_mod_pos_bound(x, d * -1);
    }
}

/// One arithmetic step on machine numbers; the zero-divisor case is
/// ruled out by the caller.
pub fn perform_artih_op(op: &Arith, lhs: Number, rhs: Number) -> (r: Number)
    requires
        (*op is Div || *op is Mod) ==> rhs != 0,
    ensures
        arith_step(*op, lhs, rhs) == Some(r),
{
    match op {
        Arith::Add => lhs.wrapping_add(rhs),
        Arith::Sub => lhs.wrapping_sub(rhs),
        Arith::Mul => lhs.wrapping_mul(rhs),
        Arith::Div => {
            if lhs == i64::MIN && rhs == -1 {
                i64::MIN
            } else {
                proof {
                    lemma_div_in_range(lhs, rhs);
                }
                match lhs.checked_div(rhs) {
                    Some(q) => q,
                    None => 0,
                }
            }
        },
        Arith::Mod => {
            if lhs == i64::MIN && rhs == -1 {
                0
            } else {
                proof {
                    lemma_rem_in_range(lhs, rhs);
                }
                match lhs.checked_rem(rhs) {
                    Some(m) => m,
                    None => 0,
                }
            }
        },
    }
}

/// The arithmetic fold from position `i` onward, starting at `acc`:
/// every operand must be a number, and each step may fail on a zero
/// divisor.
pub open spec fn spec_arith_fold(
    op: Arith,
    acc: i64,
    operands: Seq<SpecExpr>,
    i: int,
) -> Result<i64, EvalKind>
    decreases operands.len() - i,
{
    if i < 0 || i >= operands.len() {
        Ok(acc)
    } else {
        match operands[i] {
            SpecExpr::Val(v) => match arith_step(op, acc, v) {
                Some(acc2) => spec_arith_fold(op, acc2, operands, i + 1),
                None => Err(EvalKind::Program(ProgramError::DivisionByZero)),
            },
            _ => Err(EvalKind::Program(ProgramError::WrongType)),
        }
    }
}

/// What an arithmetic symbol reduces its operand group to: the fold
/// over everything after the symbol itself.
pub open spec fn spec_arith_operate(op: Arith, operands: Seq<SpecExpr>) -> Result<
    SpecExpr,
    EvalKind,
> {
    match spec_arith_fold(op, arith_seed(op), operands, 1) {
        Ok(n) => Ok(SpecExpr::Val(n)),
        Err(k) => Err(k),
    }
}

/// Runs an arithmetic operator over `operands[1..]`.
fn dispatch_arith(op: &Arith, operands: &Vec<Expr>) -> (r: EvalResult<Expr>)
    ensures
        agrees_result(r, spec_arith_operate(*op, views_of(operands@))),
{
    proof {
        crate::ast::lemma_views_of(operands@);
    }
    let ghost ops = views_of(operands@);
    let mut acc: i64 = match op {
        Arith::Add => 0,
        Arith::Sub => 0,
        Arith::Mul => 1,
        Arith::Div => 1,
        Arith::Mod => 1,
    };
    let n = operands.len();
    let mut i: usize = 1;
    while i < n
        invariant
            1 <= i <= n + 1,
            n == operands@.len(),
            ops == views_of(operands@),
            ops.len() == n,
            forall|j: int| 0 <= j < n ==> ops[j] == operands@[j]@,
            spec_arith_fold(*op, arith_seed(*op), ops, 1) == spec_arith_fold(*op, acc, ops, i as int),
        decreases n - i,
    {
        let v = match &operands[i] {
            Expr::Val(v) => *v,
            _ => {
                return Err(fail(EvalKind::Program(ProgramError::WrongType)));
            },
        };
        if (matches!(op, Arith::Div) || matches!(op, Arith::Mod)) && v == 0 {
            return Err(fail(EvalKind::Program(ProgramError::DivisionByZero)));
        }
        acc = perform_artih_op(op, acc, v);
        i = i + 1;
    }
    Ok(Expr::Val(acc))
}

/// A structural copy of the elements from position `from` onward.
pub fn clone_range(v: &Vec<Expr>, from: usize) -> (r: Vec<Expr>)
    requires
        from <= v@.len(),
    ensures
        views_of(r@) =~= views_of(v@).subrange(from as int, v@.len() as int),
        r@.len() == v@.len() - from,
{
    let mut r: Vec<Expr> = Vec::new();
    let n = v.len();
    let mut i = from;
    while i < n
        invariant
            from <= i <= n,
            n == v@.len(),
            r@.len() == i - from,
            forall|j: int| 0 <= j < r@.len() ==> r@[j]@ == v@[j + from]@,
        decreases n - i,
    {
        proof {
            assert(decreases_to!(v => v@[i as int]));
        }
        r.push(v[i].clone());
        i = i + 1;
    }
    proof {
        crate::ast::lemma_views_of(r@);
        crate::ast::lemma_views_of(v@);
    }
    r
}

/// What `head` returns: a literal holding only the first element of
/// its single, non-empty literal operand.
pub open spec fn spec_head(rest: Seq<SpecExpr>) -> Result<SpecExpr, EvalKind> {
    if rest.len() != 1 {
        Err(EvalKind::Program(ProgramError::WrongArity))
    } else {
        match rest[0] {
            SpecExpr::Qexp(v) => if v.len() == 0 {
                Err(EvalKind::Program(ProgramError::EmptyList))
            } else {
                Ok(SpecExpr::Qexp(seq![v[0]]))
            },
            _ => Err(EvalKind::Program(ProgramError::WrongType)),
        }
    }
}

/// What `tail` returns: a literal of everything after the first
/// element of its single literal operand; empty when the operand has
/// at most one element.
pub open spec fn spec_tail(rest: Seq<SpecExpr>) -> Result<SpecExpr, EvalKind> {
    if rest.len() != 1 {
        Err(EvalKind::Program(ProgramError::WrongArity))
    } else {
        match rest[0] {
            SpecExpr::Qexp(v) => if v.len() == 0 {
                Ok(SpecExpr::Qexp(Seq::empty()))
            } else {
                Ok(SpecExpr::Qexp(v.drop_first()))
            },
            _ => Err(EvalKind::Program(ProgramError::WrongType)),
        }
    }
}

/// What `list` returns: a literal wrapping all operands as they are.
pub open spec fn spec_list(rest: Seq<SpecExpr>) -> Result<SpecExpr, EvalKind> {
    Ok(SpecExpr::Qexp(rest))
}

/// The concatenation of the contents of a run of literals, from
/// position `i` onward.
pub open spec fn join_concat(rest: Seq<SpecExpr>, i: int) -> Seq<SpecExpr>
    decreases rest.len() - i,
{
    if i < 0 || i >= rest.len() {
        Seq::empty()
    } else {
        rest[i]->Qexp_0 + join_concat(rest, i + 1)
    }
}

/// What `join` returns: the concatenation of its literal operands, in
/// operand order; any operand of another variant is a type fault.
pub open spec fn spec_join(rest: Seq<SpecExpr>) -> Result<SpecExpr, EvalKind> {
    if forall|j: int| 0 <= j < rest.len() ==> rest[j] is Qexp {
        Ok(SpecExpr::Qexp(join_concat(rest, 0)))
    } else {
        Err(EvalKind::Program(ProgramError::WrongType))
    }
}

/// The element count of a literal, clamped to the numeric type.
pub open spec fn spec_len_value(v: Seq<SpecExpr>) -> i64 {
    if v.len() > 0x7fff_ffff_ffff_ffff {
        i64::MAX
    } else {
        v.len() as i64
    }
}

/// What `len` returns: the element count of its single literal
/// operand, as a number.
pub open spec fn spec_len(rest: Seq<SpecExpr>) -> Result<SpecExpr, EvalKind> {
    if rest.len() != 1 {
        Err(EvalKind::Program(ProgramError::WrongArity))
    } else {
        match rest[0] {
            SpecExpr::Qexp(v) => Ok(SpecExpr::Val(spec_len_value(v))),
            _ => Err(EvalKind::Program(ProgramError::WrongType)),
        }
    }
}

/// Binds the names of a binding list, left to right, each to the
/// positionally matching operand.  A non-variable entry stops the walk
/// with a type fault; names already walked stay bound.
pub open spec fn spec_bind_names(
    names: Seq<SpecExpr>,
    rest: Seq<SpecExpr>,
    i: int,
    env: SpecEnv,
) -> (Result<SpecExpr, EvalKind>, SpecEnv)
    decreases names.len() - i,
{
    if i < 0 || i >= names.len() {
        (Ok(SpecExpr::Empty), env)
    } else {
        match names[i] {
            SpecExpr::Sym(SpecSymbol::Var(id)) => spec_bind_names(
                names,
                rest,
                i + 1,
                env.insert(id, rest[i + 1]),
            ),
            _ => (Err(EvalKind::Program(ProgramError::WrongType)), env),
        }
    }
}

/// What `def` does: its first operand must be a literal of variable
/// references, one per remaining operand; each name is bound to its
/// operand and the whole reduces to the empty marker.
pub open spec fn spec_define(rest: Seq<SpecExpr>, env: SpecEnv) -> (Result<SpecExpr, EvalKind>, SpecEnv) {
    if rest.len() == 0 {
        (Err(EvalKind::Program(ProgramError::WrongArity)), env)
    } else {
        match rest[0] {
            SpecExpr::Qexp(names) => if names.len() != rest.len() - 1 {
                (Err(EvalKind::Program(ProgramError::WrongArity)), env)
            } else {
                spec_bind_names(names, rest, 0, env)
            },
            _ => (Err(EvalKind::Program(ProgramError::WrongType)), env),
        }
    }
}

impl Builtin {
    /// The first element of a single, non-empty literal operand,
    /// wrapped as a literal.
    pub fn head(&self, operands: &Vec<Expr>) -> (r: EvalResult<Expr>)
        ensures
            agrees_result(r, spec_head(views_of(operands@))),
    {
        proof {
            crate::ast::lemma_views_of(operands@);
        }
        if operands.len() != 1 {
            return Err(fail(EvalKind::Program(ProgramError::WrongArity)));
        }
        match &operands[0] {
            Expr::Qexp(v) => {
                proof {
                    crate::ast::lemma_views_of(v@);
                }
                if v.len() == 0 {
                    Err(fail(EvalKind::Program(ProgramError::EmptyList)))
                } else {
                    let mut q: Vec<Expr> = Vec::new();
                    q.push(v[0].clone());
                    proof {
                        crate::ast::lemma_views_of(q@);
                        assert(views_of(q@) =~= seq![views_of(v@)[0]]);
                    }
                    Ok(Expr::Qexp(q))
                }
            },
            _ => Err(fail(EvalKind::Program(ProgramError::WrongType))),
        }
    }

    /// Everything after the first element of a single literal operand,
    /// as a literal; empty when at most one element was there.
    pub fn tail(&self, operands: &Vec<Expr>) -> (r: EvalResult<Expr>)
        ensures
            agrees_result(r, spec_tail(views_of(operands@))),
    {
        proof {
            crate::ast::lemma_views_of(operands@);
        }
        if operands.len() != 1 {
            return Err(fail(EvalKind::Program(ProgramError::WrongArity)));
        }
        match &operands[0] {
            Expr::Qexp(v) => {
                proof {
                    crate::ast::lemma_views_of(v@);
                }
                if v.len() == 0 {
                    Ok(Expr::Qexp(Vec::new()))
                } else {
                    let q = clone_range(v, 1);
                    proof {
                        assert(views_of(q@) =~= views_of(v@).drop_first());
                    }
                    Ok(Expr::Qexp(q))
                }
            },
            _ => Err(fail(EvalKind::Program(ProgramError::WrongType))),
        }
    }

    /// All operands, wrapped as a literal without change.
    pub fn list(&self, operands: &Vec<Expr>) -> (r: EvalResult<Expr>)
        ensures
            agrees_result(r, spec_list(views_of(operands@))),
    {
        let q = crate::ast::clone_exprs(operands);
        proof {
            assert(views_of(q@) =~= views_of(operands@));
        }
        Ok(Expr::Qexp(q))
    }

    /// The concatenation of all literal operands, in operand order.
    pub fn join(&self, operands: &Vec<Expr>) -> (r: EvalResult<Expr>)
        ensures
            agrees_result(r, spec_join(views_of(operands@))),
    {
        proof {
            crate::ast::lemma_views_of(operands@);
        }
        let ghost ops = views_of(operands@);
        let n = operands.len();
        let mut i: usize = 0;
        while i < n
            invariant
                0 <= i <= n,
                n == operands@.len(),
                ops == views_of(operands@),
                ops.len() == n,
                forall|j: int| 0 <= j < n ==> ops[j] == operands@[j]@,
                forall|j: int| 0 <= j < i ==> ops[j] is Qexp,
            decreases n - i,
        {
            match &operands[i] {
                Expr::Qexp(_) => {
                },
                _ => {
                    proof {
                        assert(!(ops[i as int] is Qexp));
                    }
                    return Err(fail(EvalKind::Program(ProgramError::WrongType)));
                },
            }
            i = i + 1;
        }
        let mut new_expr: Vec<Expr> = Vec::new();
        let mut i: usize = 0;
        while i < n
            invariant
                0 <= i <= n,
                n == operands@.len(),
                ops == views_of(operands@),
                ops.len() == n,
                forall|j: int| 0 <= j < n ==> ops[j] == operands@[j]@,
                forall|j: int| 0 <= j < n ==> ops[j] is Qexp,
                join_concat(ops, 0) =~= views_of(new_expr@) + join_concat(ops, i as int),
            decreases n - i,
        {
            match &operands[i] {
                Expr::Qexp(v) => {
                    let ghost old_new = new_expr@;
                    let mut part = crate::ast::clone_exprs(v);
                    let ghost part_pre = part@;
                    new_expr.append(&mut part);
                    proof {
                        crate::ast::lemma_views_of(v@);
                        crate::ast::lemma_views_of(old_new);
                        crate::ast::lemma_views_of(new_expr@);
                        crate::ast::lemma_views_of(part_pre);
                        assert(new_expr@ == old_new + part_pre);
                        assert(views_of(part_pre) =~= views_of(v@));
                        assert(views_of(new_expr@) =~= views_of(old_new) + views_of(v@));
                        assert(ops[i as int] == operands@[i as int]@);
                        assert(ops[i as int]->Qexp_0 =~= views_of(v@));
                        assert(join_concat(ops, i as int) == ops[i as int]->Qexp_0
                            + join_concat(ops, i + 1));
                        assert(views_of(old_new) + (views_of(v@) + join_concat(ops, i + 1)) =~= (
                        views_of(old_new) + views_of(v@)) + join_concat(ops, i + 1));
                    }
                },
                _ => {
                    proof {
                        assert(!(ops[i as int] is Qexp));
                        assert(false);
                    }
                },
            }
            i = i + 1;
        }
        proof {
            assert(join_concat(ops, n as int) =~= Seq::<SpecExpr>::empty());
            assert(views_of(new_expr@) =~= join_concat(ops, 0));
        }
        Ok(Expr::Qexp(new_expr))
    }

    /// The element count of a single literal operand, as a number.
    pub fn len(&self, operands: &Vec<Expr>) -> (r: EvalResult<Expr>)
        ensures
            agrees_result(r, spec_len(views_of(operands@))),
    {
        proof {
            crate::ast::lemma_views_of(operands@);
        }
        if operands.len() != 1 {
            return Err(fail(EvalKind::Program(ProgramError::WrongArity)));
        }
        match &operands[0] {
            Expr::Qexp(v) => {
                proof {
                    crate::ast::lemma_views_of(v@);
                }
                let n = v.len();
                let val: i64 = if n as u64 > 0x7fff_ffff_ffff_ffff {
                    i64::MAX
                } else {
                    n as i64
                };
                Ok(Expr::Val(val))
            },
            _ => Err(fail(EvalKind::Program(ProgramError::WrongType))),
        }
    }

    /// Binds each name of the binding list to the positionally
    /// matching remaining operand, overwriting prior bindings, and
    /// reduces to the empty marker.
    pub fn define(&self, operands: &Vec<Expr>, env: &mut Env) -> (r: EvalResult<Expr>)
        ensures
            agrees(r, final(env)@, spec_define(views_of(operands@), old(env)@)),
    {
        proof {
            crate::ast::lemma_views_of(operands@);
        }
        let ghost ops = views_of(operands@);
        if operands.len() == 0 {
            return Err(fail(EvalKind::Program(ProgramError::WrongArity)));
        }
        match &operands[0] {
            Expr::Qexp(names) => {
                proof {
                    crate::ast::lemma_views_of(names@);
                }
                let ghost snames = views_of(names@);
                if names.len() != operands.len() - 1 {
                    return Err(fail(EvalKind::Program(ProgramError::WrongArity)));
                }
                let n = names.len();
                let mut idx: usize = 0;
                while idx < n
                    invariant
                        0 <= idx <= n,
                        n == names@.len(),
                        n == operands@.len() - 1,
                        snames == views_of(names@),
                        ops == views_of(operands@),
                        snames.len() == n,
                        ops.len() == n + 1,
                        forall|j: int| 0 <= j < n ==> snames[j] == names@[j]@,
                        forall|j: int| 0 <= j < n + 1 ==> ops[j] == operands@[j]@,
                        ops[0] == SpecExpr::Qexp(snames),
                        spec_bind_names(snames, ops, 0, old(env)@) == spec_bind_names(
                            snames,
                            ops,
                            idx as int,
                            env@,
                        ),
                    decreases n - idx,
                {
                    match &names[idx] {
                        Expr::Sym(Symbol::Var(var)) => {
                            let ghost pre = env@;
                            env.bind(var.ident.clone(), operands[idx + 1].clone());
                            proof {
                                assert(snames[idx as int] == SpecExpr::Sym(
                                    SpecSymbol::Var(var.ident@),
                                ));
                                assert(env@ == pre.insert(var.ident@, ops[idx + 1]));
                                assert(spec_bind_names(snames, ops, idx as int, pre)
                                    == spec_bind_names(
                                    snames,
                                    ops,
                                    idx + 1,
                                    pre.insert(var.ident@, ops[idx + 1]),
                                ));
                            }
                        },
                        _ => {
                            proof {
                                assert(spec_bind_names(snames, ops, idx as int, env@) == (
                                Err::<SpecExpr, EvalKind>(
                                    EvalKind::Program(ProgramError::WrongType),
                                ), env@));
                                assert(ops[0] == SpecExpr::Qexp(snames));
                                assert(spec_define(ops, old(env)@) == spec_bind_names(
                                    snames,
                                    ops,
                                    0,
                                    old(env)@,
                                ));
                            }
                            return Err(fail(EvalKind::Program(ProgramError::WrongType)));
                        },
                    }
                    idx = idx + 1;
                }
                proof {
                    assert(ops[0] == SpecExpr::Qexp(snames));
                    assert(spec_bind_names(snames, ops, n as int, env@) == (Ok::<
                        SpecExpr,
                        EvalKind,
                    >(SpecExpr::Empty), env@));
                }
                Ok(Expr::Empty)
            },
            _ => Err(fail(EvalKind::Program(ProgramError::WrongType))),
        }
    }

    /// Re-interprets the contents of a single literal operand as a
    /// group and reduces it: the way quoted data becomes code.
    pub fn eval(&self, operands: &Vec<Expr>, env: &mut Env, fuel: u64) -> (r: EvalResult<Expr>)
        ensures
            agrees(r, final(env)@, spec_eval_op(views_of(operands@), old(env)@, fuel as nat)),
        decreases fuel, 0int, 0int,
    {
        proof {
            crate::ast::lemma_views_of(operands@);
        }
        if operands.len() != 1 {
            return Err(fail(EvalKind::Program(ProgramError::WrongArity)));
        }
        match &operands[0] {
            Expr::Qexp(v) => {
                if fuel == 0 {
                    return Err(fail(EvalKind::Lang(LangError::DepthExceeded)));
                }
                let sexp = Expr::Sexp(crate::ast::clone_exprs(v));
                proof {
                    assert(views_of(operands@)[0] == SpecExpr::Qexp(views_of(v@)));
                    assert(sexp@ == SpecExpr::Sexp(views_of(v@)));
                }
                crate::eval::eval_input(&sexp, env, fuel - 1)
            },
            _ => Err(fail(EvalKind::Program(ProgramError::WrongType))),
        }
    }
}

/// What `eval` does: its single literal operand becomes a group and
/// is reduced, one level of budget deeper.
pub open spec fn spec_eval_op(rest: Seq<SpecExpr>, env: SpecEnv, fuel: nat) -> (Result<
    SpecExpr,
    EvalKind,
>, SpecEnv)
    decreases fuel, 0int, 0int,
{
    if rest.len() != 1 {
        (Err(EvalKind::Program(ProgramError::WrongArity)), env)
    } else {
        match rest[0] {
            SpecExpr::Qexp(v) => if fuel == 0 {
                (Err(EvalKind::Lang(LangError::DepthExceeded)), env)
            } else {
                crate::eval::spec_eval_input(SpecExpr::Sexp(v), env, (fuel - 1) as nat)
            },
            _ => (Err(EvalKind::Program(ProgramError::WrongType)), env),
        }
    }
}

/// What a builtin symbol does to its operand group: the operands
/// after the symbol itself go to the named builtin.
pub open spec fn spec_builtin_operate(b: Builtin, operands: Seq<SpecExpr>, env: SpecEnv, fuel: nat) -> (Result<
    SpecExpr,
    EvalKind,
>, SpecEnv)
    decreases fuel, 0int, 1int,
{
    let rest = operands.subrange(1, operands.len() as int);
    match b {
        Builtin::Head => (spec_head(rest), env),
        Builtin::Tail => (spec_tail(rest), env),
        Builtin::List => (spec_list(rest), env),
        Builtin::Join => (spec_join(rest), env),
        Builtin::Eval => spec_eval_op(rest, env, fuel),
        Builtin::Len => (spec_len(rest), env),
        Builtin::Def => spec_define(rest, env),
    }
}

/// What a symbol at the head of a group does.  A variable reference
/// cannot be dispatched on (it was already substituted); defensively
/// it reduces to the empty marker.
pub open spec fn spec_symbol_operate(s: SpecSymbol, operands: Seq<SpecExpr>, env: SpecEnv, fuel: nat) -> (Result<
    SpecExpr,
    EvalKind,
>, SpecEnv)
    decreases fuel, 0int, 2int,
{
    match s {
        SpecSymbol::Arith(op) => (spec_arith_operate(op, operands), env),
        SpecSymbol::Builtin(b) => spec_builtin_operate(b, operands, env, fuel),
        SpecSymbol::Var(_) => (Ok(SpecExpr::Empty), env),
    }
}

/// Runs a builtin symbol over `operands[1..]`, threading the table.
pub fn dispatch_builtin(b: &Builtin, operands: &Vec<Expr>, env: &mut Env, fuel: u64) -> (r:
    EvalResult<Expr>)
    requires
        operands@.len() >= 1,
    ensures
        agrees(r, final(env)@, spec_builtin_operate(*b, views_of(operands@), old(env)@, fuel as nat)),
    decreases fuel, 0int, 1int,
{
    proof {
        crate::ast::lemma_views_of(operands@);
    }
    let rest = clone_range(operands, 1);
    proof {
        assert(views_of(rest@) =~= views_of(operands@).subrange(
            1,
            views_of(operands@).len() as int,
        ));
    }
    match b {
        Builtin::Head => b.head(&rest),
        Builtin::Tail => b.tail(&rest),
        Builtin::List => b.list(&rest),
        Builtin::Join => b.join(&rest),
        Builtin::Eval => b.eval(&rest, env, fuel),
        Builtin::Len => b.len(&rest),
        Builtin::Def => b.define(&rest, env),
    }
}

/// Runs the symbol at the head of a group over the whole operand
/// sequence.
pub fn dispatch_symbol(sym: &Symbol, operands: &Vec<Expr>, env: &mut Env, fuel: u64) -> (r:
    EvalResult<Expr>)
    requires
        operands@.len() >= 1,
    ensures
        agrees(r, final(env)@, spec_symbol_operate(sym@, views_of(operands@), old(env)@, fuel as nat)),
    decreases fuel, 0int, 2int,
{
    match sym {
        Symbol::Arith(op) => dispatch_arith(op, operands),
        Symbol::Builtin(b) => dispatch_builtin(b, operands, env, fuel),
        Symbol::Var(_) => Ok(Expr::Empty),
    }
}

/// What every dispatchable symbol offers: an executable operation and
/// the mathematical description it is held to.
pub trait Operate {
    /// What operating on the operand group yields and how it leaves
    /// the table.
    spec fn spec_operate(&self, operands: Seq<SpecExpr>, env: SpecEnv, fuel: nat) -> (Result<
        SpecExpr,
        EvalKind,
    >, SpecEnv);

    /// Operates on the group; `operands[0]` is the symbol itself.
    fn operate(&self, operands: &Vec<Expr>, env: &mut Env, fuel: u64) -> (r: EvalResult<Expr>)
        requires
            operands@.len() >= 1,
        ensures
            agrees(r, final(env)@, self.spec_operate(views_of(operands@), old(env)@, fuel as nat)),
    ;

    /// Builds the failure an operator reports, from its kind.
    fn handle_error(&self, kind: EvalKind) -> (e: LispyError<EvalKind>)
        ensures
            e.kind == kind,
    {
        fail(kind)
    }
}

impl Operate for Arith {
    open spec fn spec_operate(&self, operands: Seq<SpecExpr>, env: SpecEnv, fuel: nat) -> (Result<
        SpecExpr,
        EvalKind,
    >, SpecEnv) {
        (spec_arith_operate(*self, operands), env)
    }

    fn operate(&self, operands: &Vec<Expr>, env: &mut Env, fuel: u64) -> (r: EvalResult<Expr>) {
        dispatch_arith(self, operands)
    }
}

impl Operate for Builtin {
    open spec fn spec_operate(&self, operands: Seq<SpecExpr>, env: SpecEnv, fuel: nat) -> (Result<
        SpecExpr,
        EvalKind,
    >, SpecEnv) {
        spec_builtin_operate(*self, operands, env, fuel)
    }

    fn operate(&self, operands: &Vec<Expr>, env: &mut Env, fuel: u64) -> (r: EvalResult<Expr>) {
        dispatch_builtin(self, operands, env, fuel)
    }
}

impl Operate for Symbol {
    open spec fn spec_operate(&self, operands: Seq<SpecExpr>, env: SpecEnv, fuel: nat) -> (Result<
        SpecExpr,
        EvalKind,
    >, SpecEnv) {
        spec_symbol_operate(self@, operands, env, fuel)
    }

    fn operate(&self, operands: &Vec<Expr>, env: &mut Env, fuel: u64) -> (r: EvalResult<Expr>) {
        dispatch_symbol(self, operands, env, fuel)
    }
}

/// Executes a symbol's operation over an operand group: the public
/// face of operator dispatch.
pub fn builtin_op<T: Operate>(exprs: &Vec<Expr>, op: &T, env: &mut Env, fuel: u64) -> (r:
    EvalResult<Expr>)
    requires
        exprs@.len() >= 1,
    ensures
        agrees(r, final(env)@, op.spec_operate(views_of(exprs@), old(env)@, fuel as nat)),
{
    op.operate(exprs, env, fuel)
}

} // verus!
