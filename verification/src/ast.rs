//! The expression model: the recursive tagged type that every other part
//! of the library works on, together with its mathematical view.
use vstd::prelude::*;

verus! {

/// The numeric type of the language: a 64-bit signed integer.
pub type Number = i64;

/// An arithmetic operator symbol.
#[derive(Copy, Clone, PartialEq, Eq, Structural, Debug)]
pub enum Arith {
    Add,
    Sub,
    Mul,
    Div,
    Mod,
}

/// A list builtin symbol.
#[derive(Copy, Clone, PartialEq, Eq, Structural, Debug)]
pub enum Builtin {
    Head,
    Tail,
    List,
    Join,
    Eval,
    Len,
    Def,
}

/// A reference to a named binding in the table.
#[derive(PartialEq, Eq, Debug)]
pub struct Variable {
    pub ident: String,
}

/// An unevaluated operator or identifier reference.
#[derive(PartialEq, Debug)]
pub enum Symbol {
    Arith(Arith),
    Builtin(Builtin),
    Var(Variable),
}

/// An expression tree.
///
/// `Sexp` is an evaluable group: evaluating it reduces it to a single
/// expression.  `Qexp` is a quoted literal list: it is never evaluated
/// implicitly.  `Empty` is the unit marker for operations with no
/// meaningful result, and `Error` is the sentinel for input whose parse
/// failed upstream.
#[derive(PartialEq, Debug)]
pub enum Expr {
    Val(Number),
    Sym(Symbol),
    Sexp(Vec<Expr>),
    Qexp(Vec<Expr>),
    Empty,
    Error,
}

/// The mathematical view of a `Symbol`: the identifier is a character
/// sequence.
pub enum SpecSymbol {
    Arith(Arith),
    Builtin(Builtin),
    Var(Seq<char>),
}

/// The mathematical view of an `Expr`: children are sequences.
#[verifier::ext_equal]
pub enum SpecExpr {
    Val(i64),
    Sym(SpecSymbol),
    Sexp(Seq<SpecExpr>),
    Qexp(Seq<SpecExpr>),
    Empty,
    Error,
}

impl View for Symbol {
    type V = SpecSymbol;

    open spec fn view(&self) -> SpecSymbol {
        match self {
            Symbol::Arith(op) => SpecSymbol::Arith(*op),
            Symbol::Builtin(b) => SpecSymbol::Builtin(*b),
            Symbol::Var(v) => SpecSymbol::Var(v.ident@),
        }
    }
}

impl View for Expr {
    type V = SpecExpr;

    open spec fn view(&self) -> SpecExpr
        decreases self,
    {
        match self {
            Expr::Val(n) => SpecExpr::Val(*n),
            Expr::Sym(s) => SpecExpr::Sym(s@),
            Expr::Sexp(v) => SpecExpr::Sexp(views_of(v@)),
            Expr::Qexp(v) => SpecExpr::Qexp(views_of(v@)),
            Expr::Empty => SpecExpr::Empty,
            Expr::Error => SpecExpr::Error,
        }
    }
}

/// The view of a sequence of expressions, element by element.
pub open spec fn views_of(s: Seq<Expr>) -> Seq<SpecExpr>
    decreases s,
{
    if s.len() == 0 {
        Seq::empty()
    } else {
        views_of(s.drop_last()).push(s.last()@)
    }
}

/// `views_of` is the element-wise view: it keeps the length and maps
/// each position through `view`.
pub broadcast proof fn lemma_views_of(s: Seq<Expr>)
    ensures
        (#[trigger] views_of(s)).len() == s.len(),
        forall|i: int| 0 <= i < s.len() ==> views_of(s)[i] == s[i]@,
    decreases s,
{
    broadcast use vstd::seq::group_seq_axioms;

    if s.len() > 0 {
        lemma_views_of(s.drop_last());
        assert(views_of(s) == views_of(s.drop_last()).push(s.last()@));
        assert forall|i: int| 0 <= i < s.len() implies views_of(s)[i] == s[i]@ by {
            if i < s.len() - 1 {
                assert(views_of(s)[i] == views_of(s.drop_last())[i]);
                assert(s.drop_last()[i] == s[i]);
            } else {
                assert(views_of(s)[i] == s.last()@);
            }
        }
    }
}

impl Clone for Variable {
    fn clone(&self) -> (r: Self)
        ensures
            r == *self,
    {
        Variable { ident: self.ident.clone() }
    }
}

impl Clone for Symbol {
    fn clone(&self) -> (r: Self)
        ensures
            r == *self,
    {
        match self {
            Symbol::Arith(op) => Symbol::Arith(*op),
            Symbol::Builtin(b) => Symbol::Builtin(*b),
            Symbol::Var(v) => Symbol::Var(v.clone()),
        }
    }
}

impl Clone for Expr {
    /// A structural copy; the view is preserved exactly.
    fn clone(&self) -> (r: Self)
        ensures
            r@ == self@,
        decreases self,
    {
        match self {
            Expr::Val(n) => Expr::Val(*n),
            Expr::Sym(s) => Expr::Sym(s.clone()),
            Expr::Sexp(v) => Expr::Sexp(clone_exprs(v)),
            Expr::Qexp(v) => Expr::Qexp(clone_exprs(v)),
            Expr::Empty => Expr::Empty,
            Expr::Error => Expr::Error,
        }
    }
}

/// A structural copy of a whole child list, element by element.
pub fn clone_exprs(v: &Vec<Expr>) -> (r: Vec<Expr>)
    ensures
        views_of(r@) =~= views_of(v@),
        r@.len() == v@.len(),
    decreases v,
{
    let mut r: Vec<Expr> = Vec::new();
    let n = v.len();
    for i in 0..n
        invariant
            n == v@.len(),
            r@.len() == i,
            forall|j: int| 0 <= j < i ==> r@[j]@ == v@[j]@,
        decreases n - i,
    {
        proof {
            assert(decreases_to!(v => v@[i as int]));
        }
        r.push(v[i].clone());
    }
    proof {
        lemma_views_of(r@);
        lemma_views_of(v@);
    }
    r
}

} // verus!
