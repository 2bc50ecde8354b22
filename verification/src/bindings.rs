//! Bindings: a mapping from pattern-variable names to the expressions they
//! matched, built fresh per match attempt.

use vstd::prelude::*;
use crate::expr::{Expr, SpecExpr};

verus! {

/// A mapping from variable name to bound expression.
///
/// Keys are unique in the abstract map; a later insertion for the same name
/// overrides an earlier one.
pub struct Bindings {
    pairs: Vec<(String, Expr)>,
}

/// The map described by a sequence of (name, value) pairs, later pairs
/// overriding earlier ones.
spec fn map_of(s: Seq<(String, Expr)>) -> Map<Seq<char>, SpecExpr>
    decreases s.len(),
{
    if s.len() == 0 {
        Map::empty()
    } else {
        map_of(s.drop_last()).insert(s.last().0@, s.last().1@)
    }
}

/// Entries at positions `from..` of `s` never bind `k`, so the map of `s`
/// agrees at `k` with the map of the prefix before `from`.
proof fn lemma_map_of_skip(s: Seq<(String, Expr)>, k: Seq<char>, from: int)
    requires
        0 <= from <= s.len(),
        forall|j: int| from <= j < s.len() ==> s[j].0@ != k,
    ensures
        map_of(s).contains_key(k) == map_of(s.take(from)).contains_key(k),
        map_of(s).contains_key(k) ==> map_of(s)[k] == map_of(s.take(from))[k],
    decreases s.len() - from,
{
    if from == s.len() {
        assert(s.take(from) =~= s);
    } else {
        lemma_map_of_skip(s, k, from + 1);
        assert(s.take(from + 1).drop_last() =~= s.take(from));
        assert(s.take(from + 1).last() == s[from]);
    }
}

impl Bindings {
    /// The abstract mapping from names to expression values.
    pub closed spec fn view(&self) -> Map<Seq<char>, SpecExpr> {
        map_of(self.pairs@)
    }

    /// An empty set of bindings.
    pub fn new() -> (r: Bindings)
        ensures
            r@ == Map::<Seq<char>, SpecExpr>::empty(),
    {
        Bindings { pairs: Vec::new() }
    }

    /// Binds `name` to `value`, overriding any earlier binding of `name`.
    pub fn insert(&mut self, name: String, value: Expr)
        ensures
            final(self)@ == old(self)@.insert(name@, value@),
    {
        let ghost before = self.pairs@;
        self.pairs.push((name, value));
        proof {
            assert(self.pairs@.drop_last() =~= before);
        }
    }

    /// Looks up the expression bound to `name`, if any.
    pub fn get(&self, name: &String) -> (r: Option<&Expr>)
        ensures
            match r {
                Some(e) => self@.contains_key(name@) && e@ == self@[name@],
                None => !self@.contains_key(name@),
            },
    {
        let ghost s = self.pairs@;
        let mut i: usize = self.pairs.len();
        while i > 0
            invariant
                i <= self.pairs@.len(),
                s == self.pairs@,
                forall|j: int| i <= j < s.len() ==> s[j].0@ != name@,
            decreases i,
        {
            i = i - 1;
            if self.pairs[i].0.eq(name) {
                proof {
                    lemma_map_of_skip(s, name@, i + 1);
                    assert(s.take(i + 1).drop_last() =~= s.take(i as int));
                    assert(s.take(i + 1).last() == s[i as int]);
                }
                return Some(&self.pairs[i].1);
            }
        }
        proof {
            lemma_map_of_skip(s, name@, 0);
            assert(s.take(0) =~= Seq::<(String, Expr)>::empty());
        }
        None
    }
}

} // verus!
