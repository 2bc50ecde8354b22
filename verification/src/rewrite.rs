//! The rewriter: applies one rule over a whole expression tree in a single
//! deterministic top-down pass.

use vstd::prelude::*;
use crate::expr::{Expr, SpecExpr, expr_clone, seq_view, spec_render};
use crate::matcher::{pattern_match, spec_match};
use crate::subst::{spec_subst, substitute_bindings, SubstError};

verus! {

/// A rewrite rule: a head pattern and a replacement body.
#[derive(Debug)]
pub struct Rule {
    pub head: Expr,
    pub body: Expr,
}

impl Clone for Rule {
    /// A clone carries the same head and body.
    fn clone(&self) -> (r: Self)
        ensures
            r.head@ == self.head@,
            r.body@ == self.body@,
    {
        Rule { head: expr_clone(&self.head), body: expr_clone(&self.body) }
    }
}

impl Rule {
    /// Renders the canonical textual form of this rule: `head = body`.
    pub fn render(&self) -> (s: String)
        ensures
            s@ == spec_render(self.head@) + seq![' ', '=', ' '] + spec_render(self.body@),
    {
        let mut s = self.head.render();
        s.append(" = ");
        let b = self.body.render();
        s.append(b.as_str());
        proof {
            reveal_strlit(" = ");
            assert(" = "@ =~= seq![' ', '=', ' ']);
            assert(s@ =~= spec_render(self.head@) + seq![' ', '=', ' '] + spec_render(self.body@));
        }
        s
    }
}

/// One top-down rewriting pass of the rule `head = body` over `e`.
///
/// At each node, first try to match `head` against the whole node: on success
/// the node is replaced by `body` under the computed bindings and the
/// replacement is not revisited; on failure a symbol stays as it is and an
/// application keeps its name while each argument is rewritten independently.
/// `None` reports a failed substitution (a variable in function-name position
/// bound to a non-symbol).
pub open spec fn spec_apply_all(head: SpecExpr, body: SpecExpr, e: SpecExpr) -> Option<SpecExpr>
    decreases e,
{
    match spec_match(head, e, Map::empty()) {
        Some(b) => spec_subst(b, body),
        None => match e {
            SpecExpr::Sym { .. } => Some(e),
            SpecExpr::Fun { name, args } => match spec_apply_args(head, body, args) {
                Some(new_args) => Some(SpecExpr::Fun { name, args: new_args }),
                None => None,
            },
        },
    }
}

/// One rewriting pass over each expression of a sequence, in order.
pub open spec fn spec_apply_args(head: SpecExpr, body: SpecExpr, args: Seq<SpecExpr>) -> Option<
    Seq<SpecExpr>,
>
    decreases args,
{
    if args.len() == 0 {
        Some(Seq::empty())
    } else {
        match spec_apply_all(head, body, args[0]) {
            Some(h) => match spec_apply_args(head, body, args.drop_first()) {
                Some(t) => Some(seq![h] + t),
                None => None,
            },
            None => None,
        }
    }
}

impl Rule {
    /// Applies this rule to `expr` in one top-down pass.
    ///
    /// Returns `Err(InvalidSubstitutionTarget)` exactly when a successful
    /// match leads to a substitution that puts a non-symbol in function-name
    /// position.
    pub fn apply_all(&self, expr: &Expr) -> (r: Result<Expr, SubstError>)
        ensures
            match spec_apply_all(self.head@, self.body@, expr@) {
                Some(se) => r matches Ok(out) && out@ == se,
                None => r == Err::<Expr, SubstError>(SubstError::InvalidSubstitutionTarget),
            },
        decreases *expr,
    {
        let ghost h = self.head@;
        let ghost bo = self.body@;
        match pattern_match(&self.head, expr) {
            Some(bindings) => substitute_bindings(&bindings, &self.body),
            None => match expr {
                Expr::Sym(_) => Ok(expr_clone(expr)),
                Expr::Fun(name, args) => {
                    proof {
                        assert(expr@ == (SpecExpr::Fun { name: name@, args: seq_view(args@) }));
                        assert((*expr)->Fun_1 == *args);
                    }
                    let ghost sargs = seq_view(args@);
                    let mut new_args: Vec<Expr> = Vec::new();
                    let mut i: usize = 0;
                    proof {
                        assert(sargs.skip(0) =~= sargs);
                        assert(seq_view(new_args@) =~= Seq::<SpecExpr>::empty());
                    }
                    while i < args.len()
                        invariant
                            i <= args.len(),
                            *expr is Fun,
                            (*expr)->Fun_1@ == args@,
                            sargs == seq_view(args@),
                            expr@ == (SpecExpr::Fun { name: name@, args: sargs }),
                            spec_match(h, expr@, Map::empty()) is None,
                            h == self.head@,
                            bo == self.body@,
                            new_args@.len() == i as int,
                            spec_apply_args(h, bo, sargs) == match spec_apply_args(
                                h,
                                bo,
                                sargs.skip(i as int),
                            ) {
                                Some(t) => Some(seq_view(new_args@) + t),
                                None => None::<Seq<SpecExpr>>,
                            },
                        decreases args.len() - i,
                    {
                        proof {
                            assert(decreases_to!(*expr => (*expr)->Fun_1));
                            assert(decreases_to!((*expr)->Fun_1 => (*expr)->Fun_1@));
                            assert(decreases_to!((*expr)->Fun_1@ => (*expr)->Fun_1@[i as int]));
                            assert(decreases_to!(*expr => args@[i as int]));
                            assert(sargs.skip(i as int)[0] == sargs[i as int]);
                        }
                        let ghost done = seq_view(new_args@);
                        match self.apply_all(&args[i]) {
                            Ok(sub) => {
                                new_args.push(sub);
                                proof {
                                    assert(sargs.skip(i as int).drop_first() =~= sargs.skip(
                                        i as int + 1,
                                    ));
                                    assert(seq_view(new_args@) =~= done + seq![sub@]);
                                    if let Some(t) = spec_apply_args(h, bo, sargs.skip(i as int + 1)) {
                                        assert(done + (seq![sub@] + t) =~= (done + seq![sub@]) + t);
                                    }
                                }
                            },
                            Err(er) => {
                                proof {
                                    assert(spec_apply_args(h, bo, sargs.skip(i as int)) is None);
                                }
                                return Err(er);
                            },
                        }
                        i = i + 1;
                    }
                    proof {
                        assert(sargs.skip(args@.len() as int) =~= Seq::<SpecExpr>::empty());
                        assert(seq_view(new_args@) + Seq::<SpecExpr>::empty() =~= seq_view(
                            new_args@,
                        ));
                    }
                    Ok(Expr::Fun(name.clone(), new_args))
                },
            },
        }
    }
}

/// Whether the rule head matches nowhere in `e`: neither at the root nor in
/// any subtree.
pub open spec fn no_redex(head: SpecExpr, e: SpecExpr) -> bool
    decreases e,
{
    &&& spec_match(head, e, Map::empty()) is None
    &&& match e {
        SpecExpr::Fun { args, .. } => forall|i: int|
            0 <= i < args.len() ==> no_redex(head, #[trigger] args[i]),
        SpecExpr::Sym { .. } => true,
    }
}

/// No-match passthrough: if the rule head matches nowhere in `e`, one
/// rewriting pass returns `e` unchanged.
pub proof fn lemma_no_match_passthrough(head: SpecExpr, body: SpecExpr, e: SpecExpr)
    requires
        no_redex(head, e),
    ensures
        spec_apply_all(head, body, e) == Some(e),
    decreases e,
{
    match e {
        SpecExpr::Sym { .. } => {},
        SpecExpr::Fun { name, args } => {
            lemma_no_match_passthrough_args(head, body, args);
        },
    }
}

/// No-match passthrough over an argument sequence.
proof fn lemma_no_match_passthrough_args(head: SpecExpr, body: SpecExpr, args: Seq<SpecExpr>)
    requires
        forall|i: int| 0 <= i < args.len() ==> no_redex(head, #[trigger] args[i]),
    ensures
        spec_apply_args(head, body, args) == Some(args),
    decreases args,
{
    if args.len() == 0 {
        assert(args =~= Seq::<SpecExpr>::empty());
    } else {
        lemma_no_match_passthrough(head, body, args[0]);
        lemma_no_match_passthrough_args(head, body, args.drop_first());
        assert(seq![args[0]] + args.drop_first() =~= args);
    }
}

} // verus!
