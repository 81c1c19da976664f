use lispy::ast::{Expr, Number, Builtin};
use lispy::environment::Env;
use lispy::error::{EvalKind, ProgramError};
use lispy::eval::parse_input;
use lispy::operator::{builtin_op, Operate};

/// The operand list of a parsed line: the children of the root group.
fn extract_operands(input: &str) -> Vec<Expr> {
    if let Expr::Sexp(val) = parse_input(input).unwrap() {
        val
    } else {
        panic!("Operand is not an S-expression");
    }
}

fn make_qexp(values: &[i64]) -> Expr {
    let mut temp = vec![];
    for v in values {
        temp.push(Expr::Val(*v as Number));
    }
    Expr::Qexp(temp)
}

#[test]
fn extract_operands_test() {
    let ast = extract_operands("1 2 3");
    assert_eq!(ast.len(), 3);
    assert_eq!(ast[0], Expr::Val(1 as Number));
}

#[test]
fn make_qexp_test() {
    let exp = make_qexp(&[1, 2]);
    if let Expr::Qexp(v) = exp {
        assert_eq!(v[0], Expr::Val(1 as Number));
    }
}

#[test]
fn head_test() {
    let ast = extract_operands("{1 2 5}");
    let expected = make_qexp(&[1]);

    let result = Builtin::Head.head(&ast).unwrap();
    assert_eq!(result, expected);
}

#[test]
fn tail_test() {
    let ast = extract_operands("{1 2 5}");
    let expected = make_qexp(&[2, 5]);

    let result = Builtin::Tail.tail(&ast).unwrap();
    assert_eq!(result, expected);
}

#[test]
fn list_test() {
    let ast = extract_operands("1 2 5");
    let expected = make_qexp(&[1, 2, 5]);

    let result = Builtin::List.list(&ast).unwrap();
    assert_eq!(result, expected);
}

#[test]
fn len_test() {
    let ast = extract_operands("{1 2 3 4 5}");
    let expected = Expr::Val(5 as Number);

    let result = Builtin::Len.len(&ast).unwrap();

    assert_eq!(result, expected);
}

#[test]
fn define_test() {
    let ast = extract_operands("{x} 100");
    let expected = Expr::Empty;

    let mut env = Env::new();

    let result = Builtin::Def.define(&ast, &mut env).unwrap();
    assert_eq!(expected, result);
    assert!(env.lookup(&"x".to_string()).is_some());
    assert_eq!(env.lookup(&"x".to_string()).unwrap(), Expr::Val(100 as Number));
}

#[test]
fn tail_of_empty_is_empty() {
    let ast = extract_operands("{}");
    assert_eq!(Builtin::Tail.tail(&ast).unwrap(), make_qexp(&[]));
}

#[test]
fn head_arity_fault() {
    // Two operands where exactly one is expected.
    let operands = vec![Expr::Val(1), Expr::Val(2)];
    let e = Builtin::Head.head(&operands).unwrap_err();
    assert_eq!(e.kind, EvalKind::Program(ProgramError::WrongArity));
}

#[test]
fn head_empty_fault() {
    let ast = extract_operands("{}");
    let e = Builtin::Head.head(&ast).unwrap_err();
    assert_eq!(e.kind, EvalKind::Program(ProgramError::EmptyList));
}

#[test]
fn join_type_fault() {
    let operands = vec![Expr::Val(1), make_qexp(&[2])];
    let e = Builtin::Join.join(&operands).unwrap_err();
    assert_eq!(e.kind, EvalKind::Program(ProgramError::WrongType));
}

#[test]
fn join_concatenates_in_order() {
    let operands = vec![make_qexp(&[1, 2]), make_qexp(&[3]), make_qexp(&[4, 5])];
    assert_eq!(
        Builtin::Join.join(&operands).unwrap(),
        make_qexp(&[1, 2, 3, 4, 5])
    );
}

#[test]
fn dispatch_through_operate() {
    // The full operand group, symbol first, through the public
    // dispatch.
    let mut env = Env::new();
    let exprs = extract_operands("head {7 8}");
    let sym = match &exprs[0] {
        Expr::Sym(s) => s.clone(),
        _ => panic!("head of the group is not a symbol"),
    };
    let result = builtin_op(&exprs, &sym, &mut env, 16).unwrap();
    assert_eq!(result, make_qexp(&[7]));
}

#[test]
fn handle_error_carries_kind() {
    let e = Builtin::Head.handle_error(EvalKind::Program(ProgramError::EmptyList));
    assert_eq!(e.kind, EvalKind::Program(ProgramError::EmptyList));
}
