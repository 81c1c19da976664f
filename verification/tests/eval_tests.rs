use lispy::ast::{Expr, Symbol, Variable};
use lispy::environment::Env;
use lispy::error::{EvalKind, LangError, ProgramError};
use lispy::eval::{eval_input, parse_input};

const FUEL: u64 = 64;

fn run(input: &str, env: &mut Env) -> Result<Expr, EvalKind> {
    let parsed = parse_input(input).unwrap();
    eval_input(&parsed, env, FUEL).map_err(|e| e.kind)
}

#[test]
fn singleton_collapse() {
    let mut env = Env::new();
    let group = Expr::Sexp(vec![Expr::Val(5)]);
    assert_eq!(eval_input(&group, &mut env, FUEL).unwrap(), Expr::Val(5));
    assert_eq!(run("(5)", &mut env).unwrap(), Expr::Val(5));
}

#[test]
fn empty_collapse() {
    let mut env = Env::new();
    assert_eq!(run("()", &mut env).unwrap(), Expr::Empty);
    assert_eq!(run("(() (()))", &mut env).unwrap(), Expr::Empty);
    let nested = Expr::Sexp(vec![
        Expr::Sexp(vec![]),
        Expr::Sexp(vec![Expr::Sexp(vec![])]),
    ]);
    assert_eq!(eval_input(&nested, &mut env, FUEL).unwrap(), Expr::Empty);
}

#[test]
fn arithmetic_fold_with_seed() {
    let mut env = Env::new();
    assert_eq!(run("+ 1 2 3", &mut env).unwrap(), Expr::Val(6));
    assert_eq!(run("* 2 3 4", &mut env).unwrap(), Expr::Val(24));
    // The fold starts from the seed, so subtraction over 10 and 2
    // yields (0 - 10) - 2, not 10 - 2.
    assert_eq!(run("- 10 2", &mut env).unwrap(), Expr::Val(-12));
    // Division seeds with 1 and truncates toward zero.
    assert_eq!(run("/ 1", &mut env).unwrap(), Expr::Val(1));
    assert_eq!(run("% 10 3", &mut env).unwrap(), Expr::Val(1));
}

#[test]
fn arithmetic_wraps() {
    let mut env = Env::new();
    assert_eq!(
        run("+ 9223372036854775807 1", &mut env).unwrap(),
        Expr::Val(i64::MIN)
    );
}

#[test]
fn head_tail_join_round_trip() {
    let mut env = Env::new();
    assert_eq!(
        run("join (head {1 2 3}) (tail {1 2 3})", &mut env).unwrap(),
        Expr::Qexp(vec![Expr::Val(1), Expr::Val(2), Expr::Val(3)])
    );
}

#[test]
fn len_counts_elements() {
    let mut env = Env::new();
    assert_eq!(run("len {1 2 3 4 5}", &mut env).unwrap(), Expr::Val(5));
}

#[test]
fn def_then_lookup() {
    let mut env = Env::new();
    assert_eq!(run("def {x} 100", &mut env).unwrap(), Expr::Empty);
    let reference = Expr::Sym(Symbol::Var(Variable {
        ident: "x".to_string(),
    }));
    assert_eq!(eval_input(&reference, &mut env, FUEL).unwrap(), Expr::Val(100));
}

#[test]
fn def_last_write_wins() {
    let mut env = Env::new();
    run("def {x} 1", &mut env).unwrap();
    run("def {x} 2", &mut env).unwrap();
    assert_eq!(run("+ x 0", &mut env).unwrap(), Expr::Val(2));
}

#[test]
fn quoted_code_execution() {
    let mut env = Env::new();
    assert_eq!(run("eval {+ 1 2}", &mut env).unwrap(), Expr::Val(3));
}

#[test]
fn error_head_of_empty() {
    let mut env = Env::new();
    assert_eq!(
        run("head {}", &mut env).unwrap_err(),
        EvalKind::Program(ProgramError::EmptyList)
    );
}

#[test]
fn error_join_wrong_type() {
    let mut env = Env::new();
    assert_eq!(
        run("join 1 {2}", &mut env).unwrap_err(),
        EvalKind::Program(ProgramError::WrongType)
    );
}

#[test]
fn error_head_wrong_arity() {
    let mut env = Env::new();
    assert_eq!(
        run("head 1 2", &mut env).unwrap_err(),
        EvalKind::Program(ProgramError::WrongArity)
    );
}

#[test]
fn error_unbound_symbol() {
    let mut env = Env::new();
    assert_eq!(
        run("+ y 1", &mut env).unwrap_err(),
        EvalKind::Lang(LangError::UnboundSymbol)
    );
}

#[test]
fn error_invalid_operator() {
    let mut env = Env::new();
    assert_eq!(
        run("1 2 3", &mut env).unwrap_err(),
        EvalKind::Lang(LangError::InvalidOperator)
    );
}

#[test]
fn error_division_by_zero() {
    let mut env = Env::new();
    assert_eq!(
        run("/ 1 0", &mut env).unwrap_err(),
        EvalKind::Program(ProgramError::DivisionByZero)
    );
    assert_eq!(
        run("% 1 0", &mut env).unwrap_err(),
        EvalKind::Program(ProgramError::DivisionByZero)
    );
}

#[test]
fn error_parse_sentinel() {
    let mut env = Env::new();
    let e = eval_input(&Expr::Error, &mut env, FUEL).unwrap_err();
    assert_eq!(e.kind, EvalKind::Lang(LangError::ParseFailure));
}

#[test]
fn error_depth_exceeded() {
    let mut env = Env::new();
    let nested = Expr::Sexp(vec![Expr::Sexp(vec![Expr::Val(1)])]);
    let e = eval_input(&nested, &mut env, 1).unwrap_err();
    assert_eq!(e.kind, EvalKind::Lang(LangError::DepthExceeded));
    assert_eq!(eval_input(&nested, &mut env, 2).unwrap(), Expr::Val(1));
}

#[test]
fn failed_evaluation_keeps_session_going() {
    let mut env = Env::new();
    assert!(run("head {}", &mut env).is_err());
    assert_eq!(run("+ 1 1", &mut env).unwrap(), Expr::Val(2));
}
