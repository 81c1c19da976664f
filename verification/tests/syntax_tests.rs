use lispy::ast::{Arith, Builtin, Expr, Symbol};
use lispy::syntax::Parser;

#[test]
fn it_works() {
    let parser = Parser::new();
    assert!(parser.parse("+ 5 8 (* 10 9)").is_ok());
}

#[test]
fn sexpr_test() {
    let parser = Parser::new();
    assert!(parser.parse("+ 9 (8 37 8)").is_ok());
}

#[test]
fn qexpr_test() {
    let parser = Parser::new();
    assert!(parser.parse("+ 9 (8 37 8) {9 8 (3 8)}").is_ok());
}

#[test]
fn builtin_test() {
    let parser = Parser::new();
    assert!(parser.parse("eval (tail {tail tail {5 6 7}})").is_ok());
}

#[test]
fn variable_test() {
    let parser = Parser::new();
    match parser.parse("def {x} 100") {
        Ok(v) => println!("Result: {:?}", v),
        Err(e) => panic!("Err: {:?}", e),
    }
}

#[test]
fn parse_shapes() {
    let parser = Parser::new();
    let parsed = parser.parse("+ 1 {2 x}").unwrap();
    let expected = Expr::Sexp(vec![
        Expr::Sym(Symbol::Arith(Arith::Add)),
        Expr::Val(1),
        Expr::Qexp(vec![
            Expr::Val(2),
            Expr::Sym(Symbol::Var(lispy::ast::Variable {
                ident: "x".to_string(),
            })),
        ]),
    ]);
    assert_eq!(parsed, expected);
    let builtins = parser.parse("head tail list join eval len def").unwrap();
    assert_eq!(
        builtins,
        Expr::Sexp(vec![
            Expr::Sym(Symbol::Builtin(Builtin::Head)),
            Expr::Sym(Symbol::Builtin(Builtin::Tail)),
            Expr::Sym(Symbol::Builtin(Builtin::List)),
            Expr::Sym(Symbol::Builtin(Builtin::Join)),
            Expr::Sym(Symbol::Builtin(Builtin::Eval)),
            Expr::Sym(Symbol::Builtin(Builtin::Len)),
            Expr::Sym(Symbol::Builtin(Builtin::Def)),
        ])
    );
}

#[test]
fn parse_rejects_unbalanced() {
    let parser = Parser::new();
    assert!(parser.parse("(1 2").is_err());
    assert!(parser.parse("1 2)").is_err());
    assert!(parser.parse("{1 (2 }").is_err());
    assert!(parser.parse("( }").is_err());
}

#[test]
fn parse_rejects_foreign_text() {
    let parser = Parser::new();
    // The numeric type is an integer: a decimal point is outside the
    // language.
    assert!(parser.parse("3.14").is_err());
    assert!(parser.parse("a#b").is_err());
    // An atom that mixes operators into a word stands for nothing.
    assert!(parser.parse("a+b").is_err());
}

#[test]
fn parse_number_range() {
    let parser = Parser::new();
    assert_eq!(
        parser.parse("9223372036854775807").unwrap(),
        Expr::Sexp(vec![Expr::Val(i64::MAX)])
    );
    assert_eq!(
        parser.parse("-9223372036854775808").unwrap(),
        Expr::Sexp(vec![Expr::Val(i64::MIN)])
    );
    assert!(parser.parse("9223372036854775808").is_err());
    assert!(parser.parse("99999999999999999999999999").is_err());
}
