//! The reader for the language's surface text: numeric literals,
//! operator, builtin and identifier symbols, parenthesized groups and
//! brace-delimited literals, separated by whitespace.
//!
//! Scanning and parsing are both specified as total functions over
//! the input characters, and the executable reader is proved to
//! return exactly what they describe.
use crate::ast::{views_of, Arith, Builtin, Expr, SpecExpr, SpecSymbol, Symbol, Variable};
use vstd::prelude::*;
use vstd::string::{StrSliceExecFns, StringExecFns};

verus! {

/// Whitespace between tokens.
pub open spec fn is_space(c: char) -> bool {
    c as u32 == 32 || c as u32 == 9 || c as u32 == 13 || c as u32 == 10
}

/// A decimal digit.
pub open spec fn is_digit(c: char) -> bool {
    48 <= c as u32 <= 57
}

/// A letter or underscore: what an identifier may start with.
pub open spec fn is_alpha(c: char) -> bool {
    (97 <= c as u32 <= 122) || (65 <= c as u32 <= 90) || c as u32 == 95
}

/// One of the five operator characters.
pub open spec fn is_op_char(c: char) -> bool {
    c as u32 == 43 || c as u32 == 45 || c as u32 == 42 || c as u32 == 47 || c as u32 == 37
}

/// Any character that may stand inside an atom.
pub open spec fn is_atom_char(c: char) -> bool {
    is_digit(c) || is_alpha(c) || is_op_char(c)
}

/// The numeric value of the digit prefix `d[0..j]`.
pub open spec fn dval(d: Seq<char>, j: int) -> int
    decreases j,
{
    if j <= 0 {
        0
    } else {
        dval(d, j - 1) * 10 + ((d[j - 1] as u32) as int - 48)
    }
}

/// A run of one or more digits.
pub open spec fn is_digit_seq(d: Seq<char>) -> bool {
    d.len() >= 1 && forall|j: int| 0 <= j < d.len() ==> is_digit(d[j])
}

/// An atom shaped like a number: digits, with an optional leading
/// minus sign.
pub open spec fn atom_number_shape(a: Seq<char>) -> bool {
    is_digit_seq(a) || (a.len() >= 2 && a[0] == '-' && is_digit_seq(a.subrange(1, a.len() as int)))
}

/// The value a number-shaped atom denotes.
pub open spec fn atom_number_value(a: Seq<char>) -> int {
    if a.len() >= 1 && a[0] == '-' {
        -dval(a.subrange(1, a.len() as int), a.len() - 1)
    } else {
        dval(a, a.len() as int)
    }
}

/// Whether a value fits the numeric type of the language.
pub open spec fn fits_number(v: int) -> bool {
    i64::MIN <= v <= i64::MAX
}

/// An atom shaped like an identifier: a letter or underscore, then
/// letters, underscores and digits.
pub open spec fn ident_shape(a: Seq<char>) -> bool {
    a.len() >= 1 && is_alpha(a[0]) && forall|j: int|
        0 <= j < a.len() ==> is_digit(a[j]) || is_alpha(a[j])
}

/// What an atom stands for: an operator, a builtin, a number that
/// fits, or an identifier; anything else is a scan failure.
pub open spec fn classify_atom(a: Seq<char>) -> Option<SpecExpr> {
    if a == "+"@ {
        Some(SpecExpr::Sym(SpecSymbol::Arith(Arith::Add)))
    } else if a == "-"@ {
        Some(SpecExpr::Sym(SpecSymbol::Arith(Arith::Sub)))
    } else if a == "*"@ {
        Some(SpecExpr::Sym(SpecSymbol::Arith(Arith::Mul)))
    } else if a == "/"@ {
        Some(SpecExpr::Sym(SpecSymbol::Arith(Arith::Div)))
    } else if a == "%"@ {
        Some(SpecExpr::Sym(SpecSymbol::Arith(Arith::Mod)))
    } else if a == "head"@ {
        Some(SpecExpr::Sym(SpecSymbol::Builtin(Builtin::Head)))
    } else if a == "tail"@ {
        Some(SpecExpr::Sym(SpecSymbol::Builtin(Builtin::Tail)))
    } else if a == "list"@ {
        Some(SpecExpr::Sym(SpecSymbol::Builtin(Builtin::List)))
    } else if a == "join"@ {
        Some(SpecExpr::Sym(SpecSymbol::Builtin(Builtin::Join)))
    } else if a == "eval"@ {
        Some(SpecExpr::Sym(SpecSymbol::Builtin(Builtin::Eval)))
    } else if a == "len"@ {
        Some(SpecExpr::Sym(SpecSymbol::Builtin(Builtin::Len)))
    } else if a == "def"@ {
        Some(SpecExpr::Sym(SpecSymbol::Builtin(Builtin::Def)))
    } else if atom_number_shape(a) {
        if fits_number(atom_number_value(a)) {
            Some(SpecExpr::Val(atom_number_value(a) as i64))
        } else {
            None
        }
    } else if ident_shape(a) {
        Some(SpecExpr::Sym(SpecSymbol::Var(a)))
    } else {
        None
    }
}

/// One token of the surface text.
pub enum Token {
    LParen,
    RParen,
    LBrace,
    RBrace,
    Atom(Expr),
}

/// The mathematical view of a token.
pub enum SpecToken {
    LParen,
    RParen,
    LBrace,
    RBrace,
    Atom(SpecExpr),
}

impl View for Token {
    type V = SpecToken;

    open spec fn view(&self) -> SpecToken {
        match self {
            Token::LParen => SpecToken::LParen,
            Token::RParen => SpecToken::RParen,
            Token::LBrace => SpecToken::LBrace,
            Token::RBrace => SpecToken::RBrace,
            Token::Atom(e) => SpecToken::Atom(e@),
        }
    }
}

/// The view of a sequence of tokens, element by element.
pub open spec fn token_views(s: Seq<Token>) -> Seq<SpecToken>
    decreases s,
{
    if s.len() == 0 {
        Seq::empty()
    } else {
        token_views(s.drop_last()).push(s.last()@)
    }
}

/// `token_views` keeps the length and maps each position through
/// `view`.
pub broadcast proof fn lemma_token_views(s: Seq<Token>)
    ensures
        (#[trigger] token_views(s)).len() == s.len(),
        forall|i: int| 0 <= i < s.len() ==> token_views(s)[i] == s[i]@,
    decreases s,
{
    if s.len() > 0 {
        lemma_token_views(s.drop_last());
        assert(token_views(s) == token_views(s.drop_last()).push(s.last()@));
        assert forall|i: int| 0 <= i < s.len() implies token_views(s)[i] == s[i]@ by {
            if i < s.len() - 1 {
                assert(token_views(s)[i] == token_views(s.drop_last())[i]);
            } else {
                assert(token_views(s)[i] == s.last()@);
            }
        }
    }
}

/// Appends a pending atom, if any, to the scanned tokens; a pending
/// atom that stands for nothing fails the scan.
pub open spec fn flush_atom(acc: Seq<SpecToken>, cur: Seq<char>) -> Option<Seq<SpecToken>> {
    if cur.len() == 0 {
        Some(acc)
    } else {
        match classify_atom(cur) {
            Some(e) => Some(acc.push(SpecToken::Atom(e))),
            None => None,
        }
    }
}

/// Scans the text from position `i` with a pending atom `cur` and
/// tokens `acc` already made: atom characters extend the pending
/// atom, whitespace and brackets close it, and any other character
/// fails the scan.
pub open spec fn spec_tokenize_from(
    s: Seq<char>,
    i: int,
    cur: Seq<char>,
    acc: Seq<SpecToken>,
) -> Option<Seq<SpecToken>>
    decreases s.len() - i,
{
    if i < 0 || i >= s.len() {
        flush_atom(acc, cur)
    } else {
        let c = s[i];
        if is_atom_char(c) {
            spec_tokenize_from(s, i + 1, cur.push(c), acc)
        } else if is_space(c) {
            match flush_atom(acc, cur) {
                Some(acc2) => spec_tokenize_from(s, i + 1, Seq::empty(), acc2),
                None => None,
            }
        } else if c == '(' || c == ')' || c == '{' || c == '}' {
            match flush_atom(acc, cur) {
                Some(acc2) => spec_tokenize_from(
                    s,
                    i + 1,
                    Seq::empty(),
                    acc2.push(
                        if c == '(' {
                            SpecToken::LParen
                        } else if c == ')' {
                            SpecToken::RParen
                        } else if c == '{' {
                            SpecToken::LBrace
                        } else {
                            SpecToken::RBrace
                        },
                    ),
                ),
                None => None,
            }
        } else {
            None
        }
    }
}

/// What scanning the whole text yields.
pub open spec fn spec_tokenize(s: Seq<char>) -> Option<Seq<SpecToken>> {
    spec_tokenize_from(s, 0, Seq::empty(), Seq::empty())
}

/// Pushing a token commutes with taking views.
proof fn lemma_token_views_push(s: Seq<Token>, t: Token)
    ensures
        token_views(s.push(t)) == token_views(s).push(t@),
{
    assert(s.push(t).drop_last() =~= s);
    assert(s.push(t).last() == t);
}

/// Character-for-character string comparison.
fn str_equal(a: &str, b: &str) -> (r: bool)
    ensures
        r == (a@ == b@),
{
    let na = a.unicode_len();
    let nb = b.unicode_len();
    if na != nb {
        return false;
    }
    let mut j: usize = 0;
    while j < na
        invariant
            0 <= j <= na,
            na == a@.len(),
            na == b@.len(),
            forall|k: int| 0 <= k < j ==> a@[k] == b@[k],
        decreases na - j,
    {
        if a.get_char(j) != b.get_char(j) {
            return false;
        }
        j = j + 1;
    }
    proof {
        assert(a@ =~= b@);
    }
    true
}

fn ch_is_space(c: char) -> (r: bool)
    ensures
        r == is_space(c),
{
    let u = c as u32;
    u == 32 || u == 9 || u == 13 || u == 10
}

fn ch_is_digit(c: char) -> (r: bool)
    ensures
        r == is_digit(c),
{
    let u = c as u32;
    48 <= u && u <= 57
}

fn ch_is_alpha(c: char) -> (r: bool)
    ensures
        r == is_alpha(c),
{
    let u = c as u32;
    (97 <= u && u <= 122) || (65 <= u && u <= 90) || u == 95
}

fn ch_is_atom(c: char) -> (r: bool)
    ensures
        r == is_atom_char(c),
{
    let u = c as u32;
    ch_is_digit(c) || ch_is_alpha(c) || u == 43 || u == 45 || u == 42 || u == 47 || u == 37
}

/// Digit prefixes never shrink in value as they grow.
proof fn lemma_dval_nonneg(d: Seq<char>, j: int)
    requires
        j <= d.len(),
        forall|k: int| 0 <= k < j ==> is_digit(d[k]),
    ensures
        dval(d, j) >= 0,
    decreases j,
{
    if j > 0 {
        lemma_dval_nonneg(d, j - 1);
    }
}

/// A longer digit prefix denotes at least as large a value.
proof fn lemma_dval_mono(d: Seq<char>, j1: int, j2: int)
    requires
        0 <= j1 <= j2 <= d.len(),
        forall|k: int| 0 <= k < j2 ==> is_digit(d[k]),
    ensures
        dval(d, j1) <= dval(d, j2),
    decreases j2 - j1,
{
    if j1 < j2 {
        lemma_dval_mono(d, j1, j2 - 1);
        lemma_dval_nonneg(d, j2 - 1);
    }
}

/// Checks that every character of `a` from `start` on is a digit.
fn all_digits_from(a: &str, start: usize, n: usize) -> (r: bool)
    requires
        n == a@.len(),
        start <= n,
    ensures
        r == forall|j: int| start <= j < n ==> is_digit(a@[j]),
{
    let mut j = start;
    while j < n
        invariant
            start <= j <= n,
            n == a@.len(),
            forall|k: int| start <= k < j ==> is_digit(a@[k]),
        decreases n - j,
    {
        if !ch_is_digit(a.get_char(j)) {
            return false;
        }
        j = j + 1;
    }
    true
}

/// Checks that every character of `a` may stand in an identifier.
fn all_ident_chars(a: &str, n: usize) -> (r: bool)
    requires
        n == a@.len(),
    ensures
        r == forall|j: int| 0 <= j < n ==> is_digit(a@[j]) || is_alpha(a@[j]),
{
    let mut j: usize = 0;
    while j < n
        invariant
            0 <= j <= n,
            n == a@.len(),
            forall|k: int| 0 <= k < j ==> is_digit(a@[k]) || is_alpha(a@[k]),
        decreases n - j,
    {
        let c = a.get_char(j);
        if !ch_is_digit(c) && !ch_is_alpha(c) {
            return false;
        }
        j = j + 1;
    }
    true
}

/// The value of the digit run `a[start..n]`, or `None` when it
/// exceeds even the unsigned machine range.
pub(crate) fn digits_value(a: &str, start: usize, n: usize) -> (r: Option<u64>)
    requires
        n <= a@.len(),
        start <= n,
        forall|j: int| start <= j < n ==> is_digit(a@[j]),
    ensures
        ({
            let d = a@.subrange(start as int, n as int);
            match r {
                Some(m) => m as int == dval(d, n - start),
                None => dval(d, n - start) > u64::MAX,
            }
        }),
{
    let ghost d = a@.subrange(start as int, n as int);
    let mut mag: u64 = 0;
    let mut j = start;
    while j < n
        invariant
            start <= j <= n,
            n <= a@.len(),
            d == a@.subrange(start as int, n as int),
            forall|k: int| start <= k < n ==> is_digit(a@[k]),
            forall|k: int| 0 <= k < d.len() ==> d[k] == a@[k + start],
            mag as int == dval(d, j - start),
        decreases n - j,
    {
        let c = a.get_char(j);
        let dig = (c as u32 - 48) as u64;
        if mag > (u64::MAX - dig) / 10 {
            proof {
                vstd::arithmetic::div_mod::lemma_fundamental_div_mod(
                    u64::MAX - dig,
                    10,
                );
                assert(mag as int * 10 + dig > u64::MAX);
                assert(dval(d, j - start + 1) == dval(d, j - start) * 10 + ((d[
                    j - start
                ] as u32) as int - 48));
                lemma_dval_mono(d, j - start + 1, d.len() as int);
            }
            return None;
        }
        proof {
            vstd::arithmetic::div_mod::lemma_fundamental_div_mod(u64::MAX - dig, 10);
            assert(mag as int * 10 + dig <= u64::MAX);
            assert(dval(d, j - start + 1) == dval(d, j - start) * 10 + ((d[
                j - start
            ] as u32) as int - 48));
        }
        mag = mag * 10 + dig;
        j = j + 1;
    }
    Some(mag)
}

/// Classifies one atom of the surface text.
fn classify_atom_str(a: &str) -> (r: Option<Expr>)
    ensures
        match r {
            Some(e) => classify_atom(a@) == Some(e@),
            None => classify_atom(a@) is None,
        },
{
    if str_equal(a, "+") {
        return Some(Expr::Sym(Symbol::Arith(Arith::Add)));
    }
    if str_equal(a, "-") {
        return Some(Expr::Sym(Symbol::Arith(Arith::Sub)));
    }
    if str_equal(a, "*") {
        return Some(Expr::Sym(Symbol::Arith(Arith::Mul)));
    }
    if str_equal(a, "/") {
        return Some(Expr::Sym(Symbol::Arith(Arith::Div)));
    }
    if str_equal(a, "%") {
        return Some(Expr::Sym(Symbol::Arith(Arith::Mod)));
    }
    if str_equal(a, "head") {
        return Some(Expr::Sym(Symbol::Builtin(Builtin::Head)));
    }
    if str_equal(a, "tail") {
        return Some(Expr::Sym(Symbol::Builtin(Builtin::Tail)));
    }
    if str_equal(a, "list") {
        return Some(Expr::Sym(Symbol::Builtin(Builtin::List)));
    }
    if str_equal(a, "join") {
        return Some(Expr::Sym(Symbol::Builtin(Builtin::Join)));
    }
    if str_equal(a, "eval") {
        return Some(Expr::Sym(Symbol::Builtin(Builtin::Eval)));
    }
    if str_equal(a, "len") {
        return Some(Expr::Sym(Symbol::Builtin(Builtin::Len)));
    }
    if str_equal(a, "def") {
        return Some(Expr::Sym(Symbol::Builtin(Builtin::Def)));
    }
    let n = a.unicode_len();
    if n == 0 {
        return None;
    }
    let c0 = a.get_char(0);
    let neg = c0 == '-';
    let start: usize = if neg {
        1
    } else {
        0
    };
    let number_shape = if neg {
        n >= 2 && all_digits_from(a, 1, n)
    } else {
        all_digits_from(a, 0, n)
    };
    proof {
        if neg {
            let sub = a@.subrange(1, a@.len() as int);
            assert(forall|j: int| 0 <= j < sub.len() ==> sub[j] == a@[j + 1]);
            if number_shape {
                assert forall|k: int| 0 <= k < sub.len() implies is_digit(sub[k]) by {
                    assert(sub[k] == a@[k + 1]);
                }
                assert(is_digit_seq(sub));
                assert(!is_digit(a@[0]));
                assert(!is_digit_seq(a@));
                assert(atom_number_shape(a@));
            } else {
                if a@.len() >= 2 && is_digit_seq(sub) {
                    assert forall|j: int| 1 <= j < n implies is_digit(a@[j]) by {
                        assert(is_digit(sub[j - 1]));
                    }
                    assert(false);
                }
                if a@.len() >= 1 && is_digit_seq(a@) {
                    assert(is_digit(a@[0]));
                    assert(false);
                }
                assert(!atom_number_shape(a@));
            }
        } else {
            if number_shape {
                assert(is_digit_seq(a@));
            } else {
                assert(!is_digit_seq(a@));
                assert(a@[0] != '-');
                assert(!atom_number_shape(a@));
            }
        }
    }
    if number_shape {
        let ghost d = a@.subrange(start as int, n as int);
        proof {
            if neg {
                assert(atom_number_value(a@) == -dval(d, n - 1));
            } else {
                assert(d =~= a@);
                assert(atom_number_value(a@) == dval(d, n as int));
            }
        }
        match digits_value(a, start, n) {
            None => {
                // The magnitude exceeds even the unsigned range, so
                // the value cannot fit the numeric type.
                return None;
            },
            Some(mag) => {
                if neg {
                    if mag > 0x8000_0000_0000_0000u64 {
                        return None;
                    } else if mag == 0x8000_0000_0000_0000u64 {
                        return Some(Expr::Val(i64::MIN));
                    } else {
                        return Some(Expr::Val(-(mag as i64)));
                    }
                } else {
                    if mag > 0x7fff_ffff_ffff_ffffu64 {
                        return None;
                    } else {
                        return Some(Expr::Val(mag as i64));
                    }
                }
            },
        }
    }
    if ch_is_alpha(c0) && all_ident_chars(a, n) {
        return Some(Expr::Sym(Symbol::Var(Variable { ident: a.to_owned() })));
    }
    proof {
        assert(!atom_number_shape(a@));
        assert(!ident_shape(a@));
    }
    None
}

/// Scans the whole input into tokens; `None` on a character outside
/// the language or an atom that stands for nothing.
pub fn tokenize(input: &str) -> (r: Option<Vec<Token>>)
    ensures
        match r {
            Some(toks) => spec_tokenize(input@) == Some(token_views(toks@)),
            None => spec_tokenize(input@) is None,
        },
{
    let n = input.unicode_len();
    let mut acc: Vec<Token> = Vec::new();
    let mut start: usize = 0;
    let mut i: usize = 0;
    proof {
        assert(input@.subrange(0, 0) =~= Seq::<char>::empty());
        assert(token_views(acc@) =~= Seq::<SpecToken>::empty());
    }
    while i < n
        invariant
            0 <= start <= i <= n,
            n == input@.len(),
            spec_tokenize(input@) == spec_tokenize_from(
                input@,
                i as int,
                input@.subrange(start as int, i as int),
                token_views(acc@),
            ),
        decreases n - i,
    {
        let ghost cur = input@.subrange(start as int, i as int);
        let c = input.get_char(i);
        if ch_is_atom(c) {
            proof {
                assert(spec_tokenize_from(input@, i as int, cur, token_views(acc@))
                    == spec_tokenize_from(input@, i + 1, cur.push(c), token_views(acc@)));
                assert(input@.subrange(start as int, i + 1) =~= cur.push(c));
            }
            i = i + 1;
        } else if ch_is_space(c) || c == '(' || c == ')' || c == '{' || c == '}' {
            let ghost acc0 = token_views(acc@);
            if i > start {
                let atom = input.substring_char(start, i);
                match classify_atom_str(atom) {
                    Some(e) => {
                        let ghost acc_pre = acc@;
                        acc.push(Token::Atom(e));
                        proof {
                            lemma_token_views_push(acc_pre, Token::Atom(e));
                            assert(flush_atom(acc0, cur) == Some(token_views(acc@)));
                        }
                    },
                    None => {
                        proof {
                            assert(flush_atom(acc0, cur) is None);
                            assert(spec_tokenize_from(input@, i as int, cur, acc0) is None);
                        }
                        return None;
                    },
                }
            } else {
                proof {
                    assert(cur =~= Seq::<char>::empty());
                    assert(flush_atom(acc0, cur) == Some(token_views(acc@)));
                }
            }
            let ghost acc1 = token_views(acc@);
            if !ch_is_space(c) {
                let tok = if c == '(' {
                    Token::LParen
                } else if c == ')' {
                    Token::RParen
                } else if c == '{' {
                    Token::LBrace
                } else {
                    Token::RBrace
                };
                let ghost acc_pre = acc@;
                acc.push(tok);
                proof {
                    lemma_token_views_push(acc_pre, tok);
                    assert(token_views(acc@) == acc1.push(tok@));
                    assert(spec_tokenize_from(input@, i as int, cur, acc0) == spec_tokenize_from(
                        input@,
                        i + 1,
                        Seq::empty(),
                        token_views(acc@),
                    ));
                }
            } else {
                proof {
                    assert(spec_tokenize_from(input@, i as int, cur, acc0) == spec_tokenize_from(
                        input@,
                        i + 1,
                        Seq::empty(),
                        acc1,
                    ));
                }
            }
            start = i + 1;
            i = i + 1;
            proof {
                assert(input@.subrange(start as int, i as int) =~= Seq::<char>::empty());
            }
        } else {
            proof {
                assert(spec_tokenize_from(input@, i as int, cur, token_views(acc@)) is None);
            }
            return None;
        }
    }
    let ghost cur = input@.subrange(start as int, n as int);
    let ghost accv = token_views(acc@);
    proof {
        assert(spec_tokenize_from(input@, n as int, cur, accv) == flush_atom(accv, cur));
    }
    if n > start {
        let atom = input.substring_char(start, n);
        match classify_atom_str(atom) {
            Some(e) => {
                let ghost acc_pre = acc@;
                acc.push(Token::Atom(e));
                proof {
                    lemma_token_views_push(acc_pre, Token::Atom(e));
                    assert(flush_atom(accv, cur) == Some(token_views(acc@)));
                }
            },
            None => {
                proof {
                    assert(flush_atom(accv, cur) is None);
                }
                return None;
            },
        }
    } else {
        proof {
            assert(cur =~= Seq::<char>::empty());
            assert(flush_atom(accv, cur) == Some(token_views(acc@)));
        }
    }
    Some(acc)
}

/// Which bracket opened a frame under construction; the bottom frame
/// of the stack is the root and was opened by no bracket.
#[derive(Copy, Clone, PartialEq, Eq, Structural)]
pub enum Opener {
    Root,
    Paren,
    Brace,
}

/// A partially built sequence of expressions and the bracket that
/// opened it.
struct Frame {
    opener: Opener,
    items: Vec<Expr>,
}

/// The mathematical view of a stack of frames.
spec fn stack_views(s: Seq<Frame>) -> Seq<(Opener, Seq<SpecExpr>)>
    decreases s,
{
    if s.len() == 0 {
        Seq::empty()
    } else {
        stack_views(s.drop_last()).push((s.last().opener, views_of(s.last().items@)))
    }
}

proof fn lemma_stack_views(s: Seq<Frame>)
    ensures
        stack_views(s).len() == s.len(),
        forall|i: int|
            0 <= i < s.len() ==> stack_views(s)[i] == (s[i].opener, views_of(s[i].items@)),
    decreases s,
{
    if s.len() > 0 {
        lemma_stack_views(s.drop_last());
        assert(stack_views(s) == stack_views(s.drop_last()).push(
            (s.last().opener, views_of(s.last().items@)),
        ));
        assert forall|i: int|
            0 <= i < s.len() implies stack_views(s)[i] == (
            s[i].opener,
            views_of(s[i].items@),
        ) by {
            if i < s.len() - 1 {
                assert(stack_views(s)[i] == stack_views(s.drop_last())[i]);
            } else {
                assert(stack_views(s)[i] == (s.last().opener, views_of(s.last().items@)));
            }
        }
    }
}

/// Appends an expression to the items of the topmost frame.
pub open spec fn push_item(
    stack: Seq<(Opener, Seq<SpecExpr>)>,
    e: SpecExpr,
) -> Seq<(Opener, Seq<SpecExpr>)> {
    stack.update(stack.len() - 1, (stack.last().0, stack.last().1.push(e)))
}

/// Parses the tokens from position `i` against a stack of open
/// frames: an atom joins the top frame, an opening bracket opens a
/// frame, a closing bracket folds the top frame into the one below as
/// a group or a literal, and at the end exactly the root frame must
/// remain.
pub open spec fn spec_parse_toks(
    toks: Seq<SpecToken>,
    i: int,
    stack: Seq<(Opener, Seq<SpecExpr>)>,
) -> Option<Seq<SpecExpr>>
    decreases toks.len() - i,
{
    if stack.len() == 0 {
        None
    } else if i < 0 || i >= toks.len() {
        if stack.len() == 1 && stack[0].0 is Root {
            Some(stack[0].1)
        } else {
            None
        }
    } else {
        match toks[i] {
            SpecToken::Atom(e) => spec_parse_toks(toks, i + 1, push_item(stack, e)),
            SpecToken::LParen => spec_parse_toks(
                toks,
                i + 1,
                stack.push((Opener::Paren, Seq::empty())),
            ),
            SpecToken::LBrace => spec_parse_toks(
                toks,
                i + 1,
                stack.push((Opener::Brace, Seq::empty())),
            ),
            SpecToken::RParen => if stack.len() >= 2 && stack.last().0 is Paren {
                spec_parse_toks(
                    toks,
                    i + 1,
                    push_item(stack.drop_last(), SpecExpr::Sexp(stack.last().1)),
                )
            } else {
                None
            },
            SpecToken::RBrace => if stack.len() >= 2 && stack.last().0 is Brace {
                spec_parse_toks(
                    toks,
                    i + 1,
                    push_item(stack.drop_last(), SpecExpr::Qexp(stack.last().1)),
                )
            } else {
                None
            },
        }
    }
}

/// The root stack a parse starts from.
pub open spec fn root_stack() -> Seq<(Opener, Seq<SpecExpr>)> {
    seq![(Opener::Root, Seq::empty())]
}

/// What parsing a whole text yields: the scanned tokens parsed from
/// the root, wrapped as one evaluable group.
pub open spec fn spec_parse_text(s: Seq<char>) -> Option<SpecExpr> {
    match spec_tokenize(s) {
        None => None,
        Some(toks) => match spec_parse_toks(toks, 0, root_stack()) {
            None => None,
            Some(items) => Some(SpecExpr::Sexp(items)),
        },
    }
}

/// Parses scanned tokens into the root sequence of expressions.
fn parse_tokens(toks: &Vec<Token>) -> (r: Option<Vec<Expr>>)
    ensures
        match r {
            Some(items) => spec_parse_toks(token_views(toks@), 0, root_stack()) == Some(
                views_of(items@),
            ),
            None => spec_parse_toks(token_views(toks@), 0, root_stack()) is None,
        },
{
    proof {
        lemma_token_views(toks@);
    }
    let ghost tv = token_views(toks@);
    let mut stack: Vec<Frame> = Vec::new();
    stack.push(Frame { opener: Opener::Root, items: Vec::new() });
    proof {
        lemma_stack_views(stack@);
        assert(stack_views(stack@) =~= root_stack());
    }
    let n = toks.len();
    let mut i: usize = 0;
    while i < n
        invariant
            0 <= i <= n,
            n == toks@.len(),
            tv == token_views(toks@),
            tv.len() == n,
            forall|j: int| 0 <= j < n ==> tv[j] == toks@[j]@,
            stack@.len() >= 1,
            spec_parse_toks(tv, 0, root_stack()) == spec_parse_toks(
                tv,
                i as int,
                stack_views(stack@),
            ),
        decreases n - i,
    {
        let ghost sv = stack_views(stack@);
        proof {
            lemma_stack_views(stack@);
        }
        match &toks[i] {
            Token::Atom(e) => {
                let ghost old_stack = stack@;
                let item = e.clone();
                let mut top = stack.pop().unwrap();
                top.items.push(item);
                stack.push(top);
                proof {
                    lemma_stack_views(stack@);
                    lemma_stack_views(old_stack);
                    crate::ast::lemma_views_of(old_stack.last().items@);
                    crate::ast::lemma_views_of(stack@.last().items@);
                    assert(stack@.last().items@ == old_stack.last().items@.push(item));
                    assert(views_of(stack@.last().items@) =~= sv.last().1.push(e@));
                    assert(stack@ == old_stack.drop_last().push(stack@.last()));
                    assert(stack_views(stack@) =~~= push_item(sv, e@));
                }
            },
            Token::LParen => {
                stack.push(Frame { opener: Opener::Paren, items: Vec::new() });
                proof {
                    lemma_stack_views(stack@);
                    assert(stack_views(stack@) =~= sv.push((Opener::Paren, Seq::empty())));
                }
            },
            Token::LBrace => {
                stack.push(Frame { opener: Opener::Brace, items: Vec::new() });
                proof {
                    lemma_stack_views(stack@);
                    assert(stack_views(stack@) =~= sv.push((Opener::Brace, Seq::empty())));
                }
            },
            Token::RParen => {
                let ghost old_stack = stack@;
                let top = stack.pop().unwrap();
                if !matches!(top.opener, Opener::Paren) || stack.len() == 0 {
                    proof {
                        lemma_stack_views(old_stack);
                        assert(sv.last().0 == old_stack.last().opener);
                    }
                    return None;
                }
                let ghost after_pop = stack@;
                let folded = Expr::Sexp(top.items);
                let mut below = stack.pop().unwrap();
                below.items.push(folded);
                stack.push(below);
                proof {
                    lemma_stack_views(stack@);
                    lemma_stack_views(old_stack);
                    lemma_stack_views(after_pop);
                    crate::ast::lemma_views_of(after_pop.last().items@);
                    crate::ast::lemma_views_of(stack@.last().items@);
                    assert(stack@.last().items@ == after_pop.last().items@.push(folded));
                    assert(folded@ == SpecExpr::Sexp(sv.last().1));
                    assert(views_of(stack@.last().items@) =~= sv.drop_last().last().1.push(
                        folded@,
                    ));
                    assert(stack@ == after_pop.drop_last().push(stack@.last()));
                    assert(stack_views(after_pop) =~~= sv.drop_last());
                    assert(stack_views(stack@) =~~= push_item(
                        sv.drop_last(),
                        SpecExpr::Sexp(sv.last().1),
                    ));
                }
            },
            Token::RBrace => {
                let ghost old_stack = stack@;
                let top = stack.pop().unwrap();
                if !matches!(top.opener, Opener::Brace) || stack.len() == 0 {
                    proof {
                        lemma_stack_views(old_stack);
                        assert(sv.last().0 == old_stack.last().opener);
                    }
                    return None;
                }
                let ghost after_pop = stack@;
                let folded = Expr::Qexp(top.items);
                let mut below = stack.pop().unwrap();
                below.items.push(folded);
                stack.push(below);
                proof {
                    lemma_stack_views(stack@);
                    lemma_stack_views(old_stack);
                    lemma_stack_views(after_pop);
                    crate::ast::lemma_views_of(after_pop.last().items@);
                    crate::ast::lemma_views_of(stack@.last().items@);
                    assert(stack@.last().items@ == after_pop.last().items@.push(folded));
                    assert(folded@ == SpecExpr::Qexp(sv.last().1));
                    assert(views_of(stack@.last().items@) =~= sv.drop_last().last().1.push(
                        folded@,
                    ));
                    assert(stack@ == after_pop.drop_last().push(stack@.last()));
                    assert(stack_views(after_pop) =~~= sv.drop_last());
                    assert(stack_views(stack@) =~~= push_item(
                        sv.drop_last(),
                        SpecExpr::Qexp(sv.last().1),
                    ));
                }
            },
        }
        i = i + 1;
    }
    proof {
        lemma_stack_views(stack@);
    }
    if stack.len() != 1 {
        return None;
    }
    let root = stack.pop().unwrap();
    if !matches!(root.opener, Opener::Root) {
        return None;
    }
    Some(root.items)
}

/// The token spelling of one expression: an atom stands as itself,
/// a group or literal as its children between its brackets.
pub open spec fn toks_of_expr(e: SpecExpr) -> Seq<SpecToken>
    decreases e, 0int,
{
    match e {
        SpecExpr::Sexp(v) => seq![SpecToken::LParen] + toks_of_list(v) + seq![SpecToken::RParen],
        SpecExpr::Qexp(v) => seq![SpecToken::LBrace] + toks_of_list(v) + seq![SpecToken::RBrace],
        _ => seq![SpecToken::Atom(e)],
    }
}

/// The token spelling of a sequence of expressions, in order.
pub open spec fn toks_of_list(s: Seq<SpecExpr>) -> Seq<SpecToken>
    decreases s, 1int,
{
    if s.len() == 0 {
        Seq::empty()
    } else {
        toks_of_expr(s[0]) + toks_of_list(s.drop_first())
    }
}

/// Appends a whole sequence to the items of the topmost frame.
pub open spec fn push_items(
    stack: Seq<(Opener, Seq<SpecExpr>)>,
    items: Seq<SpecExpr>,
) -> Seq<(Opener, Seq<SpecExpr>)> {
    stack.update(stack.len() - 1, (stack.last().0, stack.last().1 + items))
}

/// Consuming the token spelling of one expression pushes exactly that
/// expression onto the topmost frame.
proof fn lemma_parse_expr_seg(
    toks: Seq<SpecToken>,
    i: int,
    stack: Seq<(Opener, Seq<SpecExpr>)>,
    e: SpecExpr,
)
    requires
        stack.len() >= 1,
        0 <= i,
        i + toks_of_expr(e).len() <= toks.len(),
        toks.subrange(i, i + toks_of_expr(e).len()) == toks_of_expr(e),
    ensures
        spec_parse_toks(toks, i, stack) == spec_parse_toks(
            toks,
            i + toks_of_expr(e).len(),
            push_item(stack, e),
        ),
    decreases e, 0int,
{
    let seg = toks_of_expr(e);
    match e {
        SpecExpr::Sexp(v) => {
            let inner = toks_of_list(v);
            assert(seg.len() == inner.len() + 2);
            assert(toks[i] == seg[0]);
            assert(seg[0] == SpecToken::LParen);
            let opened = stack.push((Opener::Paren, Seq::empty()));
            assert(spec_parse_toks(toks, i, stack) == spec_parse_toks(toks, i + 1, opened));
            assert(toks.subrange(i + 1, i + 1 + inner.len()) =~= inner) by {
                assert(forall|k: int|
                    0 <= k < inner.len() ==> toks[i + 1 + k] == seg[1 + k] && seg[1 + k]
                        == inner[k]);
            }
            lemma_parse_list_seg(toks, i + 1, opened, v);
            let filled = push_items(opened, v);
            assert(filled =~~= stack.push((Opener::Paren, Seq::<SpecExpr>::empty() + v)));
            assert(Seq::<SpecExpr>::empty() + v =~= v);
            assert(toks[i + 1 + inner.len() as int] == seg[1 + inner.len() as int]);
            assert(seg[1 + inner.len() as int] == SpecToken::RParen);
            assert(filled.last().0 is Paren);
            assert(filled.len() >= 2);
            assert(spec_parse_toks(toks, i + 1 + inner.len(), filled) == spec_parse_toks(
                toks,
                i + seg.len(),
                push_item(filled.drop_last(), SpecExpr::Sexp(filled.last().1)),
            ));
            assert(filled.drop_last() =~~= stack);
            assert(SpecExpr::Sexp(filled.last().1) == e);
        },
        SpecExpr::Qexp(v) => {
            let inner = toks_of_list(v);
            assert(seg.len() == inner.len() + 2);
            assert(toks[i] == seg[0]);
            assert(seg[0] == SpecToken::LBrace);
            let opened = stack.push((Opener::Brace, Seq::empty()));
            assert(spec_parse_toks(toks, i, stack) == spec_parse_toks(toks, i + 1, opened));
            assert(toks.subrange(i + 1, i + 1 + inner.len()) =~= inner) by {
                assert(forall|k: int|
                    0 <= k < inner.len() ==> toks[i + 1 + k] == seg[1 + k] && seg[1 + k]
                        == inner[k]);
            }
            lemma_parse_list_seg(toks, i + 1, opened, v);
            let filled = push_items(opened, v);
            assert(filled =~~= stack.push((Opener::Brace, Seq::<SpecExpr>::empty() + v)));
            assert(Seq::<SpecExpr>::empty() + v =~= v);
            assert(toks[i + 1 + inner.len() as int] == seg[1 + inner.len() as int]);
            assert(seg[1 + inner.len() as int] == SpecToken::RBrace);
            assert(filled.last().0 is Brace);
            assert(filled.len() >= 2);
            assert(spec_parse_toks(toks, i + 1 + inner.len(), filled) == spec_parse_toks(
                toks,
                i + seg.len(),
                push_item(filled.drop_last(), SpecExpr::Qexp(filled.last().1)),
            ));
            assert(filled.drop_last() =~~= stack);
            assert(SpecExpr::Qexp(filled.last().1) == e);
        },
        _ => {
            assert(toks[i] == seg[0]);
            assert(seg[0] == SpecToken::Atom(e));
        },
    }
}

/// Consuming the token spelling of a sequence of expressions appends
/// exactly that sequence to the topmost frame.
proof fn lemma_parse_list_seg(
    toks: Seq<SpecToken>,
    i: int,
    stack: Seq<(Opener, Seq<SpecExpr>)>,
    items: Seq<SpecExpr>,
)
    requires
        stack.len() >= 1,
        0 <= i,
        i + toks_of_list(items).len() <= toks.len(),
        toks.subrange(i, i + toks_of_list(items).len()) == toks_of_list(items),
    ensures
        spec_parse_toks(toks, i, stack) == spec_parse_toks(
            toks,
            i + toks_of_list(items).len(),
            push_items(stack, items),
        ),
    decreases items, 2int,
{
    let seg = toks_of_list(items);
    if items.len() == 0 {
        assert(push_items(stack, items) =~~= stack) by {
            assert(stack.last().1 + items =~= stack.last().1);
        }
    } else {
        let seg0 = toks_of_expr(items[0]);
        let rest = toks_of_list(items.drop_first());
        assert(seg == seg0 + rest);
        assert(seg.len() == seg0.len() + rest.len());
        assert(toks.subrange(i, i + seg0.len()) =~= seg0) by {
            assert(forall|k: int| 0 <= k < seg0.len() ==> toks[i + k] == seg[k] && seg[k] == seg0[k]);
        }
        lemma_parse_expr_seg(toks, i, stack, items[0]);
        assert(toks.subrange(i + seg0.len(), i + seg.len()) =~= rest) by {
            assert(forall|k: int|
                0 <= k < rest.len() ==> toks[i + seg0.len() + k] == seg[seg0.len() + k] && seg[
                    seg0.len() + k
                ] == rest[k]);
        }
        let stack1 = push_item(stack, items[0]);
        lemma_parse_list_seg(toks, i + seg0.len(), stack1, items.drop_first());
        assert(push_items(stack1, items.drop_first()) =~~= push_items(stack, items)) by {
            assert(stack.last().1.push(items[0]) + items.drop_first() =~= stack.last().1 + items);
        }
    }
}

/// Every sequence of expressions can be spelled in tokens, and the
/// parser maps that spelling back to exactly that sequence: the
/// grammar loses nothing.
pub proof fn lemma_parse_round_trip(items: Seq<SpecExpr>)
    ensures
        spec_parse_toks(toks_of_list(items), 0, root_stack()) == Some(items),
{
    let toks = toks_of_list(items);
    assert(toks.subrange(0, toks.len() as int) =~= toks);
    lemma_parse_list_seg(toks, 0, root_stack(), items);
    let end_stack = push_items(root_stack(), items);
    assert(end_stack.len() == 1);
    assert(end_stack[0].0 is Root);
    assert(end_stack[0].1 =~= items);
    assert(spec_parse_toks(toks, toks.len() as int, end_stack) == Some(end_stack[0].1));
}

/// A failure to read the surface text.
#[derive(PartialEq, Eq, Debug)]
pub enum SyntaxError {
    ParseError(String),
}

/// The reader for the surface text.
pub struct Parser {}

impl Parser {
    /// A fresh reader.
    pub fn new() -> (r: Self) {
        Parser {}
    }

    /// Reads one line of surface text into an evaluable group, or
    /// reports that the text is not a sentence of the language.
    pub fn parse(&self, input: &str) -> (r: Result<Expr, SyntaxError>)
        ensures
            match r {
                Ok(e) => spec_parse_text(input@) == Some(e@),
                Err(_) => spec_parse_text(input@) is None,
            },
    {
        match tokenize(input) {
            None => Err(
                SyntaxError::ParseError(
                    String::from_str("a character or atom outside the language"),
                ),
            ),
            Some(toks) => match parse_tokens(&toks) {
                None => Err(SyntaxError::ParseError(String::from_str("unbalanced brackets"))),
                Some(items) => Ok(Expr::Sexp(items)),
            },
        }
    }
}

} // verus!
