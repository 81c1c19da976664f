use lispy::parser::{
    binary, expr, group, literal, number, operator, unary, BinaryExpr, Expr, Literal, Number,
    Operator,
};

#[test]
fn test_oereator() {
    assert_eq!(operator(&"+"[..]), Ok(("", Operator::Add)));
}

#[test]
fn test_unary() {
    assert_eq!(
        unary(&"-9;"[..]),
        Ok((
            ";",
            Expr::Unary(
                Operator::Subtract,
                Box::new(Expr::Literal(Literal::Num(Number { value: 9 })))
            )
        ))
    );
}

#[test]
fn integer_number() {
    assert_eq!(number(&"8892;"[..]), Ok((";", Number { value: 8892 })));
    assert_eq!(number(&" 42 ;"[..]), Ok((";", Number { value: 42 })));
    assert_eq!(number(&"-7;"[..]), Ok((";", Number { value: -7 })));
    assert!(number(&"x"[..]).is_err());
    assert!(number(&""[..]).is_err());
}

#[test]
fn integer_literal() {
    assert_eq!(
        literal(&"18;"[..]),
        Ok((";", Expr::Literal(Literal::Num(Number { value: 18 }))))
    );
}

#[test]
fn integer_binary() {
    assert_eq!(
        binary(&"7 + 9;"[..]),
        Ok((
            ";",
            Expr::Binary(Box::new(BinaryExpr {
                op: Operator::Add,
                lhs: Expr::Literal(Literal::Num(Number { value: 7 })),
                rhs: Expr::Literal(Literal::Num(Number { value: 9 }))
            }))
        ))
    );
}

#[test]
fn integer_group() {
    assert_eq!(
        group(&"(7 + 9)"[..]),
        Ok((
            "",
            Expr::Group(Box::new(Expr::Binary(Box::new(BinaryExpr {
                op: Operator::Add,
                lhs: Expr::Literal(Literal::Num(Number { value: 7 })),
                rhs: Expr::Literal(Literal::Num(Number { value: 9 })),
            }))))
        ))
    );

    assert_eq!(
        group(&"(42)"[..]),
        Ok((
            "",
            Expr::Group(Box::new(Expr::Literal(Literal::Num(Number { value: 42 }))))
        ))
    );
}

#[test]
fn expr_prefers_unary() {
    assert_eq!(
        expr(&"!7"[..]),
        Ok((
            "",
            Expr::Unary(
                Operator::Negation,
                Box::new(Expr::Literal(Literal::Num(Number { value: 7 })))
            )
        ))
    );
    assert!(expr(&")"[..]).is_err());
}
