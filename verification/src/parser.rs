//! A small standalone expression reader: numbers with an optional
//! sign, the six operator tokens, unary and binary applications, and
//! one level of parenthesized grouping.
//!
//! Each reader returns the rest of the input beside its value, and is
//! proved to return exactly what the specification readers describe.
//! Numbers here are integers, as everywhere in this library.
use crate::syntax::{dval, fits_number, is_digit, is_space};
use vstd::prelude::*;
use vstd::string::StrSliceExecFns;

verus! {

/// An operator token of this reader.
#[derive(Copy, Clone, PartialEq, Eq, Structural, Debug)]
pub enum Operator {
    Add,
    Subtract,
    Multiply,
    Divide,
    Modulo,
    Negation,
}

/// A numeric literal.
#[derive(Copy, Clone, PartialEq, Eq, Structural, Debug)]
pub struct Number {
    pub value: i64,
}

/// A literal form.
#[derive(Copy, Clone, PartialEq, Eq, Structural, Debug)]
pub enum Literal {
    Num(Number),
}

/// An expression of this small grammar.
#[derive(PartialEq, Debug)]
pub enum Expr {
    Unary(Operator, Box<Expr>),
    Binary(Box<BinaryExpr>),
    Group(Box<Expr>),
    Literal(Literal),
}

/// A binary application.
#[derive(PartialEq, Debug)]
pub struct BinaryExpr {
    pub op: Operator,
    pub lhs: Expr,
    pub rhs: Expr,
}

/// A reader failure: the input does not start with the expected form.
#[derive(Copy, Clone, PartialEq, Eq, Structural, Debug)]
pub enum ParserError {
    Unrecognized,
}

/// What a reader returns: the rest of the input beside the value.
pub type IResult<'a, T> = Result<(&'a str, T), ParserError>;

/// Whether a character is one of the six operator tokens.
pub open spec fn is_operator_char(c: char) -> bool {
    c == '+' || c == '-' || c == '*' || c == '/' || c == '%' || c == '!'
}

/// The operator a token character stands for.
pub open spec fn spec_operator(c: char) -> Operator {
    if c == '+' {
        Operator::Add
    } else if c == '-' {
        Operator::Subtract
    } else if c == '*' {
        Operator::Multiply
    } else if c == '/' {
        Operator::Divide
    } else if c == '%' {
        Operator::Modulo
    } else {
        Operator::Negation
    }
}

/// The first position at or after `i` that does not hold whitespace.
pub open spec fn sp_skip(s: Seq<char>, i: int) -> int
    decreases s.len() - i,
{
    if i < 0 || i >= s.len() || !is_space(s[i]) {
        i
    } else {
        sp_skip(s, i + 1)
    }
}

/// The first position at or after `i` that does not hold a digit.
pub open spec fn digit_end(s: Seq<char>, i: int) -> int
    decreases s.len() - i,
{
    if i < 0 || i >= s.len() || !is_digit(s[i]) {
        i
    } else {
        digit_end(s, i + 1)
    }
}

proof fn lemma_digit_end_bounds(s: Seq<char>, i: int)
    requires
        0 <= i <= s.len(),
    ensures
        i <= digit_end(s, i) <= s.len(),
        forall|k: int| i <= k < digit_end(s, i) ==> is_digit(s[k]),
    decreases s.len() - i,
{
    if i < s.len() && is_digit(s[i]) {
        lemma_digit_end_bounds(s, i + 1);
    }
}

/// What reading a number from position `i` yields: optional
/// whitespace, an optional minus sign, one or more digits whose value
/// fits the numeric type, then optional whitespace.
pub open spec fn spec_number(s: Seq<char>, i: int) -> Option<(i64, int)> {
    let p = sp_skip(s, i);
    let q0 = if p < s.len() && s[p] == '-' {
        p + 1
    } else {
        p
    };
    let q = digit_end(s, q0);
    if q == q0 {
        None
    } else {
        let m = dval(s.subrange(q0, q), q - q0);
        let v = if p < s.len() && s[p] == '-' {
            -m
        } else {
            m
        };
        if fits_number(v) {
            Some((v as i64, sp_skip(s, q)))
        } else {
            None
        }
    }
}

/// What reading an operator token at position 0 yields.
pub open spec fn spec_operator_token(s: Seq<char>) -> Option<(Operator, int)> {
    if s.len() >= 1 && is_operator_char(s[0]) {
        Some((spec_operator(s[0]), 1))
    } else {
        None
    }
}

/// What reading a literal yields: a number, as a literal expression.
pub open spec fn spec_literal(s: Seq<char>) -> Option<(Expr, int)> {
    match spec_number(s, 0) {
        Some((v, next)) => Some((Expr::Literal(Literal::Num(Number { value: v })), next)),
        None => None,
    }
}

/// What reading a unary application yields: an operator token, then a
/// literal.
pub open spec fn spec_unary(s: Seq<char>) -> Option<(Expr, int)> {
    match spec_operator_token(s) {
        None => None,
        Some((op, rest)) => match spec_number(s, rest) {
            None => None,
            Some((v, next)) => Some(
                (
                    Expr::Unary(op, Box::new(Expr::Literal(Literal::Num(Number { value: v })))),
                    next,
                ),
            ),
        },
    }
}

/// What reading a binary application yields: a literal, an operator
/// token amid whitespace, and a literal.
pub open spec fn spec_binary(s: Seq<char>) -> Option<(Expr, int)> {
    match spec_number(s, 0) {
        None => None,
        Some((lhs, after_lhs)) => {
            let p = sp_skip(s, after_lhs);
            if p < s.len() && is_operator_char(s[p]) {
                let q = sp_skip(s, p + 1);
                match spec_number(s, q) {
                    None => None,
                    Some((rhs, next)) => Some(
                        (
                            Expr::Binary(
                                Box::new(
                                    BinaryExpr {
                                        op: spec_operator(s[p]),
                                        lhs: Expr::Literal(Literal::Num(Number { value: lhs })),
                                        rhs: Expr::Literal(Literal::Num(Number { value: rhs })),
                                    },
                                ),
                            ),
                            next,
                        ),
                    ),
                }
            } else {
                None
            }
        },
    }
}

/// What reading an expression yields: a unary application, else a
/// binary application, else a literal.
pub open spec fn spec_expr(s: Seq<char>) -> Option<(Expr, int)> {
    if spec_unary(s) is Some {
        spec_unary(s)
    } else if spec_binary(s) is Some {
        spec_binary(s)
    } else {
        spec_literal(s)
    }
}

/// What reading a parenthesized group yields: an expression between
/// one pair of parentheses.
pub open spec fn spec_group(s: Seq<char>) -> Option<(Expr, int)> {
    if s.len() >= 1 && s[0] == '(' {
        match spec_expr(s.subrange(1, s.len() as int)) {
            None => None,
            Some((e, next)) => if next + 1 < s.len() && s[next + 1] == ')' {
                Some((Expr::Group(Box::new(e)), next + 2))
            } else {
                None
            },
        }
    } else {
        None
    }
}

/// Maps an operator token to the operator it stands for.
pub fn match_operator(op: &str) -> (r: Operator)
    requires
        op@.len() == 1,
        is_operator_char(op@[0]),
    ensures
        r == spec_operator(op@[0]),
{
    let c = op.get_char(0);
    if c == '+' {
        Operator::Add
    } else if c == '-' {
        Operator::Subtract
    } else if c == '*' {
        Operator::Multiply
    } else if c == '/' {
        Operator::Divide
    } else if c == '%' {
        Operator::Modulo
    } else {
        Operator::Negation
    }
}

/// Reads one operator token from the front of the input.
pub fn operator_token(input: &str) -> (r: IResult<&str>)
    ensures
        match r {
            Ok((rest, tok)) => spec_operator_token(input@) == Some(
                (spec_operator(input@[0]), 1int),
            ) && tok@ == input@.subrange(0, 1) && rest@ == input@.subrange(
                1,
                input@.len() as int,
            ),
            Err(_) => spec_operator_token(input@) is None,
        },
{
    let n = input.unicode_len();
    if n == 0 {
        return Err(ParserError::Unrecognized);
    }
    let c = input.get_char(0);
    if c == '+' || c == '-' || c == '*' || c == '/' || c == '%' || c == '!' {
        let tok = input.substring_char(0, 1);
        let rest = input.substring_char(1, n);
        Ok((rest, tok))
    } else {
        Err(ParserError::Unrecognized)
    }
}

/// Reads one operator from the front of the input.
pub fn operator(input: &str) -> (r: IResult<Operator>)
    ensures
        match r {
            Ok((rest, op)) => spec_operator_token(input@) == Some((op, 1int)) && rest@
                == input@.subrange(1, input@.len() as int),
            Err(_) => spec_operator_token(input@) is None,
        },
{
    match operator_token(input) {
        Ok((rest, tok)) => {
            proof {
                assert(tok@[0] == input@[0]);
            }
            Ok((rest, match_operator(tok)))
        },
        Err(e) => Err(e),
    }
}

/// Skips whitespace from position `i` on.
fn skip_spaces(input: &str, i: usize, n: usize) -> (r: usize)
    requires
        n == input@.len(),
        i <= n,
    ensures
        r == sp_skip(input@, i as int),
        i <= r <= n,
{
    let mut j = i;
    while j < n
        invariant
            i <= j <= n,
            n == input@.len(),
            sp_skip(input@, i as int) == sp_skip(input@, j as int),
        decreases n - j,
    {
        let c = input.get_char(j);
        let u = c as u32;
        if !(u == 32 || u == 9 || u == 13 || u == 10) {
            return j;
        }
        j = j + 1;
    }
    j
}

/// Finds the end of the digit run starting at position `i`.
fn scan_digits(input: &str, i: usize, n: usize) -> (r: usize)
    requires
        n == input@.len(),
        i <= n,
    ensures
        r == digit_end(input@, i as int),
        i <= r <= n,
{
    let mut j = i;
    while j < n
        invariant
            i <= j <= n,
            n == input@.len(),
            digit_end(input@, i as int) == digit_end(input@, j as int),
        decreases n - j,
    {
        let c = input.get_char(j);
        let u = c as u32;
        if !(48 <= u && u <= 57) {
            return j;
        }
        j = j + 1;
    }
    j
}

/// Reads a whitespace-wrapped number from position `i`; the position
/// after it comes back beside the value.
fn number_at(input: &str, i: usize, n: usize) -> (r: Option<(i64, usize)>)
    requires
        n == input@.len(),
        i <= n,
    ensures
        match r {
            Some((v, next)) => spec_number(input@, i as int) == Some((v, next as int)) && next
                <= n,
            None => spec_number(input@, i as int) is None,
        },
{
    let p = skip_spaces(input, i, n);
    let neg = p < n && input.get_char(p) == '-';
    let q0: usize = if neg {
        p + 1
    } else {
        p
    };
    let q = scan_digits(input, q0, n);
    if q == q0 {
        return None;
    }
    proof {
        lemma_digit_end_bounds(input@, q0 as int);
    }
    let m = match crate::syntax::digits_value(input, q0, q) {
        Some(m) => m,
        None => {
            // The digit run exceeds even the unsigned machine range.
            return None;
        },
    };
    if neg {
        if m > 0x8000_0000_0000_0000u64 {
            None
        } else if m == 0x8000_0000_0000_0000u64 {
            let next = skip_spaces(input, q, n);
            Some((i64::MIN, next))
        } else {
            let next = skip_spaces(input, q, n);
            Some((-(m as i64), next))
        }
    } else {
        if m > 0x7fff_ffff_ffff_ffffu64 {
            None
        } else {
            let next = skip_spaces(input, q, n);
            Some((m as i64, next))
        }
    }
}

/// Reads a number from the front of the input.
pub fn number(input: &str) -> (r: IResult<Number>)
    ensures
        match r {
            Ok((rest, v)) => ({
                &&& spec_number(input@, 0) is Some
                &&& 0 <= spec_number(input@, 0)->Some_0.1 <= input@.len()
                &&& v.value == spec_number(input@, 0)->Some_0.0
                &&& rest@ == input@.subrange(
                    spec_number(input@, 0)->Some_0.1,
                    input@.len() as int,
                )
            }),
            Err(_) => spec_number(input@, 0) is None,
        },
{
    let n = input.unicode_len();
    match number_at(input, 0, n) {
        Some((v, next)) => Ok((input.substring_char(next, n), Number { value: v })),
        None => Err(ParserError::Unrecognized),
    }
}

/// Reads a literal from the front of the input.
pub fn literal(input: &str) -> (r: IResult<Expr>)
    ensures
        match r {
            Ok((rest, e)) => ({
                &&& spec_literal(input@) is Some
                &&& 0 <= spec_literal(input@)->Some_0.1 <= input@.len()
                &&& e == spec_literal(input@)->Some_0.0
                &&& rest@ == input@.subrange(
                    spec_literal(input@)->Some_0.1,
                    input@.len() as int,
                )
            }),
            Err(_) => spec_literal(input@) is None,
        },
{
    match number(input) {
        Ok((rest, v)) => Ok((rest, Expr::Literal(Literal::Num(v)))),
        Err(e) => Err(e),
    }
}

/// Reads a unary application from the front of the input.
pub fn unary(input: &str) -> (r: IResult<Expr>)
    ensures
        match r {
            Ok((rest, e)) => ({
                &&& spec_unary(input@) is Some
                &&& 0 <= spec_unary(input@)->Some_0.1 <= input@.len()
                &&& e == spec_unary(input@)->Some_0.0
                &&& rest@ == input@.subrange(spec_unary(input@)->Some_0.1, input@.len() as int)
            }),
            Err(_) => spec_unary(input@) is None,
        },
{
    let n = input.unicode_len();
    if n == 0 {
        return Err(ParserError::Unrecognized);
    }
    let c = input.get_char(0);
    if !(c == '+' || c == '-' || c == '*' || c == '/' || c == '%' || c == '!') {
        return Err(ParserError::Unrecognized);
    }
    let op = if c == '+' {
        Operator::Add
    } else if c == '-' {
        Operator::Subtract
    } else if c == '*' {
        Operator::Multiply
    } else if c == '/' {
        Operator::Divide
    } else if c == '%' {
        Operator::Modulo
    } else {
        Operator::Negation
    };
    match number_at(input, 1, n) {
        Some((v, next)) => Ok(
            (
                input.substring_char(next, n),
                Expr::Unary(op, Box::new(Expr::Literal(Literal::Num(Number { value: v })))),
            ),
        ),
        None => Err(ParserError::Unrecognized),
    }
}

/// Reads a binary application from the front of the input.
pub fn binary(input: &str) -> (r: IResult<Expr>)
    ensures
        match r {
            Ok((rest, e)) => ({
                &&& spec_binary(input@) is Some
                &&& 0 <= spec_binary(input@)->Some_0.1 <= input@.len()
                &&& e == spec_binary(input@)->Some_0.0
                &&& rest@ == input@.subrange(spec_binary(input@)->Some_0.1, input@.len() as int)
            }),
            Err(_) => spec_binary(input@) is None,
        },
{
    let n = input.unicode_len();
    let (lhs, after_lhs) = match number_at(input, 0, n) {
        Some(p) => p,
        None => {
            return Err(ParserError::Unrecognized);
        },
    };
    let p = skip_spaces(input, after_lhs, n);
    if p >= n {
        return Err(ParserError::Unrecognized);
    }
    let c = input.get_char(p);
    if !(c == '+' || c == '-' || c == '*' || c == '/' || c == '%' || c == '!') {
        return Err(ParserError::Unrecognized);
    }
    let op = if c == '+' {
        Operator::Add
    } else if c == '-' {
        Operator::Subtract
    } else if c == '*' {
        Operator::Multiply
    } else if c == '/' {
        Operator::Divide
    } else if c == '%' {
        Operator::Modulo
    } else {
        Operator::Negation
    };
    let q = skip_spaces(input, p + 1, n);
    match number_at(input, q, n) {
        Some((rhs, next)) => Ok(
            (
                input.substring_char(next, n),
                Expr::Binary(
                    Box::new(
                        BinaryExpr {
                            op,
                            lhs: Expr::Literal(Literal::Num(Number { value: lhs })),
                            rhs: Expr::Literal(Literal::Num(Number { value: rhs })),
                        },
                    ),
                ),
            ),
        ),
        None => Err(ParserError::Unrecognized),
    }
}

/// Reads an expression: a unary application, else a binary
/// application, else a literal.
pub fn expr(input: &str) -> (r: IResult<Expr>)
    ensures
        match r {
            Ok((rest, e)) => ({
                &&& spec_expr(input@) is Some
                &&& 0 <= spec_expr(input@)->Some_0.1 <= input@.len()
                &&& e == spec_expr(input@)->Some_0.0
                &&& rest@ == input@.subrange(spec_expr(input@)->Some_0.1, input@.len() as int)
            }),
            Err(_) => spec_expr(input@) is None,
        },
{
    match unary(input) {
        Ok(v) => {
            return Ok(v);
        },
        Err(_) => {
        },
    }
    match binary(input) {
        Ok(v) => {
            return Ok(v);
        },
        Err(_) => {
        },
    }
    literal(input)
}

/// Reads a parenthesized group from the front of the input.
pub fn group(input: &str) -> (r: IResult<Expr>)
    ensures
        match r {
            Ok((rest, e)) => ({
                &&& spec_group(input@) is Some
                &&& e == spec_group(input@)->Some_0.0
                &&& rest@ == input@.subrange(spec_group(input@)->Some_0.1, input@.len() as int)
            }),
            Err(_) => spec_group(input@) is None,
        },
{
    let n = input.unicode_len();
    if n == 0 || input.get_char(0) != '(' {
        return Err(ParserError::Unrecognized);
    }
    let inner = input.substring_char(1, n);
    proof {
        assert(inner@ == input@.subrange(1, n as int));
    }
    match expr(inner) {
        Err(_) => Err(ParserError::Unrecognized),
        Ok((rest1, e)) => {
            let ghost next = spec_expr(inner@)->Some_0.1;
            let n1 = rest1.unicode_len();
            proof {
                assert(rest1@ == inner@.subrange(next, inner@.len() as int));
                assert(n1 == n - 1 - next);
                assert(forall|k: int| 0 <= k < n1 ==> rest1@[k] == input@[next + 1 + k]);
            }
            if n1 == 0 || rest1.get_char(0) != ')' {
                return Err(ParserError::Unrecognized);
            }
            let restf = rest1.substring_char(1, n1);
            proof {
                assert(restf@ =~= input@.subrange(next + 2, n as int));
            }
            Ok((restf, Expr::Group(Box::new(e))))
        },
    }
}

} // verus!
