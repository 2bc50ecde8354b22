//! The pattern matcher: computes variable bindings from a pattern against a
//! concrete expression, or fails.

use vstd::prelude::*;
use crate::expr::{Expr, SpecExpr, expr_clone, expr_eq, seq_view};
use crate::bindings::Bindings;

verus! {

/// One match step, threading the bindings accumulated so far.
///
/// A pattern symbol is a variable binder: on first occurrence it binds to the
/// value unconditionally; on a later occurrence the match succeeds only if the
/// value equals what the variable is already bound to.  A pattern application
/// matches only an application with the same name and arity whose arguments
/// match pairwise, left to right.
pub open spec fn spec_match(
    p: SpecExpr,
    v: SpecExpr,
    b: Map<Seq<char>, SpecExpr>,
) -> Option<Map<Seq<char>, SpecExpr>>
    decreases p,
{
    match p {
        SpecExpr::Sym { name } => {
            if b.contains_key(name) {
                if b[name] == v {
                    Some(b)
                } else {
                    None
                }
            } else {
                Some(b.insert(name, v))
            }
        },
        SpecExpr::Fun { name, args } => match v {
            SpecExpr::Fun { name: vname, args: vargs } => {
                if name == vname && args.len() == vargs.len() {
                    spec_match_args(args, vargs, b)
                } else {
                    None
                }
            },
            _ => None,
        },
    }
}

/// Matches two argument sequences pairwise, left to right, threading the
/// bindings and short-circuiting on the first failure.
pub open spec fn spec_match_args(
    ps: Seq<SpecExpr>,
    vs: Seq<SpecExpr>,
    b: Map<Seq<char>, SpecExpr>,
) -> Option<Map<Seq<char>, SpecExpr>>
    decreases ps,
{
    if ps.len() == 0 {
        Some(b)
    } else if vs.len() == 0 {
        None
    } else {
        match spec_match(ps[0], vs[0], b) {
            Some(b1) => spec_match_args(ps.drop_first(), vs.drop_first(), b1),
            None => None,
        }
    }
}

/// Matches `pattern` against `value`, extending `bindings` in place.
/// On failure the bindings are in an unspecified intermediate state; the
/// caller discards them.
fn pattern_match_impl(pattern: &Expr, value: &Expr, bindings: &mut Bindings) -> (r: bool)
    ensures
        match spec_match(pattern@, value@, old(bindings)@) {
            Some(m) => r && final(bindings)@ == m,
            None => !r,
        },
    decreases *pattern,
{
    match pattern {
        Expr::Sym(name) => match bindings.get(name) {
            Some(bound) => expr_eq(bound, value),
            None => {
                bindings.insert(name.clone(), expr_clone(value));
                true
            },
        },
        Expr::Fun(name, args) => match value {
            Expr::Fun(vname, vargs) => {
                proof {
                    assert(pattern@ == (SpecExpr::Fun { name: name@, args: seq_view(args@) }));
                    assert(value@ == (SpecExpr::Fun { name: vname@, args: seq_view(vargs@) }));
                }
                if !name.eq(vname) {
                    return false;
                }
                if args.len() != vargs.len() {
                    return false;
                }
                let ghost b0 = bindings@;
                let ghost ps = seq_view(args@);
                let ghost vs = seq_view(vargs@);
                let mut i: usize = 0;
                proof {
                    assert((*pattern)->Fun_1 == *args);
                    assert(ps.skip(0) =~= ps);
                    assert(vs.skip(0) =~= vs);
                    assert(spec_match(pattern@, value@, b0) == spec_match_args(ps, vs, b0));
                }
                while i < args.len()
                    invariant
                        i <= args.len(),
                        args@.len() == vargs@.len(),
                        *pattern is Fun,
                        (*pattern)->Fun_1@ == args@,
                        ps == seq_view(args@),
                        vs == seq_view(vargs@),
                        spec_match_args(ps.skip(i as int), vs.skip(i as int), bindings@)
                            == spec_match_args(ps, vs, b0),
                        spec_match(pattern@, value@, b0) == spec_match_args(ps, vs, b0),
                        b0 == old(bindings)@,
                    decreases args.len() - i,
                {
                    proof {
                        assert(decreases_to!(*pattern => (*pattern)->Fun_1));
                        assert(decreases_to!((*pattern)->Fun_1 => (*pattern)->Fun_1@));
                        assert(decreases_to!((*pattern)->Fun_1@ => (*pattern)->Fun_1@[i as int]));
                        assert(decreases_to!(*pattern => args@[i as int]));
                        assert(ps.skip(i as int)[0] == ps[i as int]);
                        assert(vs.skip(i as int)[0] == vs[i as int]);
                    }
                    let ghost b_cur = bindings@;
                    if !pattern_match_impl(&args[i], &vargs[i], bindings) {
                        proof {
                            assert(spec_match(ps[i as int], vs[i as int], b_cur) is None);
                            assert(spec_match_args(ps.skip(i as int), vs.skip(i as int), b_cur)
                                is None);
                        }
                        return false;
                    }
                    proof {
                        assert(ps.skip(i as int).drop_first() =~= ps.skip(i as int + 1));
                        assert(vs.skip(i as int).drop_first() =~= vs.skip(i as int + 1));
                    }
                    i = i + 1;
                }
                proof {
                    assert(ps.skip(args@.len() as int) =~= Seq::<SpecExpr>::empty());
                }
                true
            },
            _ => false,
        },
    }
}

/// Matches `pattern` against `value` starting from no bindings.
///
/// Returns the computed bindings on success, `None` on any mismatch
/// (including a pattern variable that would have to bind to two different
/// subtrees).
pub fn pattern_match(pattern: &Expr, value: &Expr) -> (r: Option<Bindings>)
    ensures
        match spec_match(pattern@, value@, Map::empty()) {
            Some(m) => r matches Some(b) && b@ == m,
            None => r is None,
        },
{
    let mut bindings = Bindings::new();
    if pattern_match_impl(pattern, value, &mut bindings) {
        Some(bindings)
    } else {
        None
    }
}

/// Linearity: a variable that occurs twice in a pattern must match equal
/// subtrees.  Matching `n(x, x)` against `n(v1, v2)` from no bindings
/// succeeds exactly when `v1 == v2`, and then binds `x` to that value.
pub proof fn lemma_match_linear(n: Seq<char>, x: Seq<char>, v1: SpecExpr, v2: SpecExpr)
    ensures
        spec_match(
            SpecExpr::Fun { name: n, args: seq![SpecExpr::Sym { name: x }, SpecExpr::Sym { name: x }] },
            SpecExpr::Fun { name: n, args: seq![v1, v2] },
            Map::empty(),
        ) == if v1 == v2 {
            Some(Map::<Seq<char>, SpecExpr>::empty().insert(x, v1))
        } else {
            None::<Map<Seq<char>, SpecExpr>>
        },
{
    let ps = seq![SpecExpr::Sym { name: x }, SpecExpr::Sym { name: x }];
    let vs = seq![v1, v2];
    let b0 = Map::<Seq<char>, SpecExpr>::empty();
    let b1 = b0.insert(x, v1);
    assert(spec_match(ps[0], vs[0], b0) == Some(b1));
    assert(ps.drop_first() =~= seq![SpecExpr::Sym { name: x }]);
    assert(vs.drop_first() =~= seq![v2]);
    assert(spec_match(ps.drop_first()[0], v2, b1) == if v1 == v2 {
        Some(b1)
    } else {
        None::<Map<Seq<char>, SpecExpr>>
    });
    if v1 == v2 {
        assert(ps.drop_first().drop_first() =~= Seq::<SpecExpr>::empty());
        assert(spec_match_args(ps.drop_first().drop_first(), vs.drop_first().drop_first(), b1)
            == Some(b1));
    }
    assert(vs.drop_first()[0] == v2);
    assert(spec_match_args(ps.drop_first(), vs.drop_first(), b1) == if v1 == v2 {
        Some(b1)
    } else {
        None::<Map<Seq<char>, SpecExpr>>
    });
    assert(spec_match_args(ps, vs, b0) == if v1 == v2 {
        Some(b1)
    } else {
        None::<Map<Seq<char>, SpecExpr>>
    });
}

/// A pattern application never matches a value with a different head name or
/// a different argument count, nor a bare symbol, whatever bindings are
/// already present.
pub proof fn lemma_match_mismatch(
    pname: Seq<char>,
    pargs: Seq<SpecExpr>,
    v: SpecExpr,
    b: Map<Seq<char>, SpecExpr>,
)
    requires
        match v {
            SpecExpr::Sym { .. } => true,
            SpecExpr::Fun { name, args } => name != pname || args.len() != pargs.len(),
        },
    ensures
        spec_match(SpecExpr::Fun { name: pname, args: pargs }, v, b) is None,
{
}

} // verus!
