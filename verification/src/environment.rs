//! The binding table: one flat mapping from identifier to expression
//! value for the whole session.
//!
//! The table is kept as an append-only list of pairs; a later pair for
//! the same identifier shadows an earlier one, so a rebind is a push
//! and the newest pair wins on lookup.  Its mathematical view is the
//! `Map` obtained by inserting the pairs in order.
use crate::ast::{Expr, SpecExpr};
use vstd::prelude::*;

verus! {

/// The mathematical state of a binding table: identifier to value.
pub type SpecEnv = Map<Seq<char>, SpecExpr>;

/// The map described by an association list: pairs inserted first to
/// last, so the last pair for a key wins.
pub open spec fn assoc_map(s: Seq<(String, Expr)>) -> Map<Seq<char>, SpecExpr>
    decreases s,
{
    if s.len() == 0 {
        Map::empty()
    } else {
        assoc_map(s.drop_last()).insert(s.last().0@, s.last().1@)
    }
}

/// If no pair at or after position `i` has key `k`, the tail makes no
/// difference to the described map at `k`.
proof fn lemma_assoc_skip_tail(s: Seq<(String, Expr)>, i: int, k: Seq<char>)
    requires
        0 <= i <= s.len(),
        forall|j: int| i <= j < s.len() ==> s[j].0@ != k,
    ensures
        assoc_map(s).contains_key(k) == assoc_map(s.subrange(0, i)).contains_key(k),
        assoc_map(s).contains_key(k) ==> assoc_map(s)[k] == assoc_map(s.subrange(0, i))[k],
    decreases s.len() - i,
{
    if i < s.len() {
        lemma_assoc_skip_tail(s, i + 1, k);
        assert(s.subrange(0, i + 1).drop_last() =~= s.subrange(0, i));
        assert(assoc_map(s.subrange(0, i + 1)) == assoc_map(s.subrange(0, i)).insert(
            s[i].0@,
            s[i].1@,
        ));
    } else {
        assert(s.subrange(0, i) =~= s);
    }
}

/// If the pair at position `i` has key `k` and no later pair does,
/// position `i` decides the described map at `k`.
proof fn lemma_assoc_hit(s: Seq<(String, Expr)>, i: int, k: Seq<char>)
    requires
        0 <= i < s.len(),
        s[i].0@ == k,
        forall|j: int| i < j < s.len() ==> s[j].0@ != k,
    ensures
        assoc_map(s).contains_key(k),
        assoc_map(s)[k] == s[i].1@,
{
    lemma_assoc_skip_tail(s, i + 1, k);
    assert(s.subrange(0, i + 1).drop_last() =~= s.subrange(0, i));
    assert(s.subrange(0, i + 1).last() == s[i]);
    assert(assoc_map(s.subrange(0, i + 1)) == assoc_map(s.subrange(0, i)).insert(
        s[i].0@,
        s[i].1@,
    ));
}

/// The binding table.
pub struct Env {
    table: Vec<(String, Expr)>,
}

impl View for Env {
    type V = Map<Seq<char>, SpecExpr>;

    closed spec fn view(&self) -> Map<Seq<char>, SpecExpr> {
        assoc_map(self.table@)
    }
}

impl Env {
    /// A fresh table with no bindings.
    pub fn new() -> (r: Self)
        ensures
            r@ == Map::<Seq<char>, SpecExpr>::empty(),
    {
        Env { table: Vec::new() }
    }

    /// Looks an identifier up by exact match; the newest binding wins.
    /// A miss is not itself an error: the caller decides what it means.
    pub fn lookup(&self, id: &String) -> (r: Option<Expr>)
        ensures
            match r {
                Some(e) => self@.contains_key(id@) && e@ == self@[id@],
                None => !self@.contains_key(id@),
            },
    {
        let ghost s = self.table@;
        let mut i = self.table.len();
        while i > 0
            invariant
                i <= s.len(),
                s == self.table@,
                forall|j: int| i <= j < s.len() ==> s[j].0@ != id@,
            decreases i,
        {
            i = i - 1;
            if self.table[i].0 == *id {
                proof {
                    lemma_assoc_hit(s, i as int, id@);
                }
                return Some(self.table[i].1.clone());
            }
        }
        proof {
            lemma_assoc_skip_tail(s, 0, id@);
            assert(s.subrange(0, 0) =~= Seq::empty());
        }
        None
    }

    /// Binds an identifier to a value, inserting or overwriting.
    pub fn bind(&mut self, id: String, value: Expr)
        ensures
            final(self)@ == old(self)@.insert(id@, value@),
    {
        let ghost s = self.table@;
        let ghost p = (id, value);
        self.table.push((id, value));
        proof {
            assert(self.table@.drop_last() =~= s);
            assert(self.table@.last() == p);
        }
    }
}

} // verus!
