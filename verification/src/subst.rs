//! The substitutor: replaces bound variables (including bound function
//! names) in a body expression.

use vstd::prelude::*;
use crate::expr::{Expr, SpecExpr, expr_clone, seq_view};
use crate::bindings::Bindings;

verus! {

/// Substitution failure: a variable standing in function-name position was
/// bound to something other than a bare symbol.
#[derive(Debug, Clone, Copy, PartialEq, Eq, Structural)]
pub enum SubstError {
    InvalidSubstitutionTarget,
}

/// The result of substituting `b` into `e`, or `None` if a bound variable in
/// function-name position is bound to a non-symbol.
///
/// A bound symbol is replaced by its binding; an unbound one stays.  An
/// application's own name is looked up too: a rule may rename a function
/// symbol, but only to another bare symbol.
pub open spec fn spec_subst(b: Map<Seq<char>, SpecExpr>, e: SpecExpr) -> Option<SpecExpr>
    decreases e,
{
    match e {
        SpecExpr::Sym { name } => Some(
            if b.contains_key(name) {
                b[name]
            } else {
                e
            },
        ),
        SpecExpr::Fun { name, args } => {
            if b.contains_key(name) {
                match b[name] {
                    SpecExpr::Sym { name: new_name } => match spec_subst_args(b, args) {
                        Some(new_args) => Some(SpecExpr::Fun { name: new_name, args: new_args }),
                        None => None,
                    },
                    _ => None,
                }
            } else {
                match spec_subst_args(b, args) {
                    Some(new_args) => Some(SpecExpr::Fun { name, args: new_args }),
                    None => None,
                }
            }
        },
    }
}

/// Substitutes into each argument in order, failing if any argument fails.
pub open spec fn spec_subst_args(b: Map<Seq<char>, SpecExpr>, args: Seq<SpecExpr>) -> Option<
    Seq<SpecExpr>,
>
    decreases args,
{
    if args.len() == 0 {
        Some(Seq::empty())
    } else {
        match spec_subst(b, args[0]) {
            Some(h) => match spec_subst_args(b, args.drop_first()) {
                Some(t) => Some(seq![h] + t),
                None => None,
            },
            None => None,
        }
    }
}

/// Substitutes `bindings` into `expr`, producing a fresh tree.
///
/// Returns `Err(InvalidSubstitutionTarget)` exactly when some application
/// name in `expr` is bound to a non-symbol value.
pub fn substitute_bindings(bindings: &Bindings, expr: &Expr) -> (r: Result<Expr, SubstError>)
    ensures
        match spec_subst(bindings@, expr@) {
            Some(se) => r matches Ok(out) && out@ == se,
            None => r == Err::<Expr, SubstError>(SubstError::InvalidSubstitutionTarget),
        },
    decreases *expr,
{
    match expr {
        Expr::Sym(name) => match bindings.get(name) {
            Some(v) => Ok(expr_clone(v)),
            None => Ok(Expr::Sym(name.clone())),
        },
        Expr::Fun(name, args) => {
            proof {
                assert(expr@ == (SpecExpr::Fun { name: name@, args: seq_view(args@) }));
                assert((*expr)->Fun_1 == *args);
            }
            let new_name: String = match bindings.get(name) {
                Some(bound) => match bound {
                    Expr::Sym(n2) => n2.clone(),
                    _ => {
                        return Err(SubstError::InvalidSubstitutionTarget);
                    },
                },
                None => name.clone(),
            };
            let ghost b = bindings@;
            let ghost sargs = seq_view(args@);
            let mut new_args: Vec<Expr> = Vec::new();
            let mut i: usize = 0;
            proof {
                assert(sargs.skip(0) =~= sargs);
                assert(seq_view(new_args@) =~= Seq::<SpecExpr>::empty());
            }
            while i < args.len()
                invariant
                    i <= args.len(),
                    *expr is Fun,
                    (*expr)->Fun_1@ == args@,
                    sargs == seq_view(args@),
                    b == bindings@,
                    new_args@.len() == i as int,
                    spec_subst_args(b, sargs) == match spec_subst_args(b, sargs.skip(i as int)) {
                        Some(t) => Some(seq_view(new_args@) + t),
                        None => None::<Seq<SpecExpr>>,
                    },
                decreases args.len() - i,
            {
                proof {
                    assert(decreases_to!(*expr => (*expr)->Fun_1));
                    assert(decreases_to!((*expr)->Fun_1 => (*expr)->Fun_1@));
                    assert(decreases_to!((*expr)->Fun_1@ => (*expr)->Fun_1@[i as int]));
                    assert(decreases_to!(*expr => args@[i as int]));
                    assert(sargs.skip(i as int)[0] == sargs[i as int]);
                }
                let ghost done = seq_view(new_args@);
                match substitute_bindings(bindings, &args[i]) {
                    Ok(sub) => {
                        new_args.push(sub);
                        proof {
                            assert(sargs.skip(i as int).drop_first() =~= sargs.skip(i as int + 1));
                            assert(seq_view(new_args@) =~= done + seq![sub@]);
                            if let Some(t) = spec_subst_args(b, sargs.skip(i as int + 1)) {
                                assert(done + (seq![sub@] + t) =~= (done + seq![sub@]) + t);
                            }
                        }
                    },
                    Err(er) => {
                        proof {
                            assert(spec_subst_args(b, sargs.skip(i as int)) is None);
                        }
                        return Err(er);
                    },
                }
                i = i + 1;
            }
            proof {
                assert(sargs.skip(args@.len() as int) =~= Seq::<SpecExpr>::empty());
                assert(seq_view(new_args@) + Seq::<SpecExpr>::empty() =~= seq_view(new_args@));
            }
            Ok(Expr::Fun(new_name, new_args))
        },
    }
}

/// Substitution identity: empty bindings change nothing.
pub proof fn lemma_subst_empty(e: SpecExpr)
    ensures
        spec_subst(Map::empty(), e) == Some(e),
    decreases e,
{
    match e {
        SpecExpr::Sym { .. } => {},
        SpecExpr::Fun { name, args } => {
            lemma_subst_args_empty(args);
        },
    }
}

/// Substitution identity over an argument sequence.
proof fn lemma_subst_args_empty(args: Seq<SpecExpr>)
    ensures
        spec_subst_args(Map::empty(), args) == Some(args),
    decreases args,
{
    if args.len() == 0 {
        assert(args =~= Seq::<SpecExpr>::empty());
    } else {
        lemma_subst_empty(args[0]);
        lemma_subst_args_empty(args.drop_first());
        assert(seq![args[0]] + args.drop_first() =~= args);
    }
}

} // verus!
