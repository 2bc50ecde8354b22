//! The expression data model: symbol / application trees, their mathematical
//! view, structural equality, cloning, and canonical text rendering.

use vstd::prelude::*;

verus! {

/// Mathematical value of an expression tree: an atomic symbol, or a named
/// application of an ordered sequence of sub-expressions.
#[verifier::ext_equal]
pub enum SpecExpr {
    Sym { name: Seq<char> },
    Fun { name: Seq<char>, args: Seq<SpecExpr> },
}

/// An expression: an atomic symbol `a`, or an application `f(e1, ..., en)`.
///
/// Expressions are immutable value trees; every operation on them returns a
/// fresh owned tree.  Equality is structural.
#[derive(Debug, PartialEq)]
pub enum Expr {
    Sym(String),
    Fun(String, Vec<Expr>),
}

/// The views of the elements of a sequence of expressions.
pub open spec fn seq_view(s: Seq<Expr>) -> Seq<SpecExpr>
    decreases s,
{
    Seq::new(
        s.len(),
        |i: int|
            if 0 <= i < s.len() {
                s[i]@
            } else {
                SpecExpr::Sym { name: Seq::empty() }
            },
    )
}

impl View for Expr {
    type V = SpecExpr;

    open spec fn view(&self) -> SpecExpr
        decreases self,
    {
        match self {
            Expr::Sym(name) => SpecExpr::Sym { name: name@ },
            Expr::Fun(name, args) => SpecExpr::Fun { name: name@, args: seq_view(args@) },
        }
    }
}

/// Whether `c` may start an identifier: a letter or an underscore.
pub open spec fn is_ident_start_char(c: char) -> bool {
    ('a' <= c && c <= 'z') || ('A' <= c && c <= 'Z') || c == '_'
}

/// Whether `c` may continue an identifier: a letter, a digit, or an underscore.
pub open spec fn is_ident_char(c: char) -> bool {
    is_ident_start_char(c) || ('0' <= c && c <= '9')
}

/// A valid identifier: non-empty, identifier characters only, not starting
/// with a digit.
pub open spec fn wf_name(name: Seq<char>) -> bool {
    &&& name.len() > 0
    &&& is_ident_start_char(name[0])
    &&& forall|i: int| 0 <= i < name.len() ==> is_ident_char(#[trigger] name[i])
}

/// Whether every name in the tree is a valid identifier, i.e. whether the
/// expression could have been built from the surface grammar.
pub open spec fn wf_sexpr(e: SpecExpr) -> bool
    decreases e,
{
    match e {
        SpecExpr::Sym { name } => wf_name(name),
        SpecExpr::Fun { name, args } => {
            &&& wf_name(name)
            &&& forall|i: int| 0 <= i < args.len() ==> wf_sexpr(#[trigger] args[i])
        },
    }
}

/// Returns a fresh tree with the same mathematical value.
pub fn expr_clone(e: &Expr) -> (r: Expr)
    ensures
        r@ == e@,
    decreases *e,
{
    match e {
        Expr::Sym(name) => Expr::Sym(name.clone()),
        Expr::Fun(name, args) => {
            let mut new_args: Vec<Expr> = Vec::new();
            let mut i: usize = 0;
            proof {
                assert((*e)->Fun_1 == *args);
            }
            while i < args.len()
                invariant
                    i <= args.len(),
                    *e is Fun,
                    (*e)->Fun_1@ == args@,
                    new_args@.len() == i as int,
                    forall|k: int| 0 <= k < i ==> new_args@[k]@ == args@[k]@,
                decreases args.len() - i,
            {
                proof {
                    assert(decreases_to!(*e => (*e)->Fun_1));
                    assert(decreases_to!((*e)->Fun_1 => (*e)->Fun_1@));
                    assert(decreases_to!((*e)->Fun_1@ => (*e)->Fun_1@[i as int]));
                    assert(decreases_to!(*e => args@[i as int]));
                }
                new_args.push(expr_clone(&args[i]));
                i = i + 1;
            }
            let r = Expr::Fun(name.clone(), new_args);
            proof {
                assert(seq_view(new_args@) =~= seq_view(args@));
                assert(r@ == e@);
            }
            r
        },
    }
}

impl Clone for Expr {
    /// A clone is structurally equal to the original.
    fn clone(&self) -> (r: Self)
        ensures
            r@ == self@,
    {
        expr_clone(self)
    }
}

/// Decides structural equality of two expression trees.
pub fn expr_eq(a: &Expr, b: &Expr) -> (r: bool)
    ensures
        r == (a@ == b@),
    decreases *a,
{
    match (a, b) {
        (Expr::Sym(n1), Expr::Sym(n2)) => n1.eq(n2),
        (Expr::Fun(n1, args1), Expr::Fun(n2, args2)) => {
            proof {
                assert(a@ == (SpecExpr::Fun { name: n1@, args: seq_view(args1@) }));
                assert(b@ == (SpecExpr::Fun { name: n2@, args: seq_view(args2@) }));
            }
            if !n1.eq(n2) {
                return false;
            }
            if args1.len() != args2.len() {
                proof {
                    assert(seq_view(args1@).len() != seq_view(args2@).len());
                }
                return false;
            }
            let mut i: usize = 0;
            proof {
                assert((*a)->Fun_1 == *args1);
            }
            while i < args1.len()
                invariant
                    i <= args1.len(),
                    *a is Fun,
                    (*a)->Fun_1@ == args1@,
                    args1@.len() == args2@.len(),
                    a@ == (SpecExpr::Fun { name: n1@, args: seq_view(args1@) }),
                    b@ == (SpecExpr::Fun { name: n1@, args: seq_view(args2@) }),
                    forall|k: int| 0 <= k < i ==> args1@[k]@ == args2@[k]@,
                decreases args1.len() - i,
            {
                proof {
                    assert(decreases_to!(*a => (*a)->Fun_1));
                    assert(decreases_to!((*a)->Fun_1 => (*a)->Fun_1@));
                    assert(decreases_to!((*a)->Fun_1@ => (*a)->Fun_1@[i as int]));
                    assert(decreases_to!(*a => args1@[i as int]));
                }
                if !expr_eq(&args1[i], &args2[i]) {
                    proof {
                        assert(seq_view(args1@)[i as int] != seq_view(args2@)[i as int]);
                    }
                    return false;
                }
                i = i + 1;
            }
            proof {
                assert(seq_view(args1@) =~= seq_view(args2@));
            }
            true
        },
        _ => {
            proof {
                assert(a@ != b@);
            }
            false
        },
    }
}

/// Canonical text of an expression: a bare name for a symbol,
/// `name(arg0, arg1, ...)` for an application (`name()` for no arguments).
pub open spec fn spec_render(e: SpecExpr) -> Seq<char>
    decreases e,
{
    match e {
        SpecExpr::Sym { name } => name,
        SpecExpr::Fun { name, args } => name + seq!['('] + spec_render_args(args) + seq![')'],
    }
}

/// Canonical text of an argument list, comma-space-separated.
pub open spec fn spec_render_args(args: Seq<SpecExpr>) -> Seq<char>
    decreases args,
{
    if args.len() == 0 {
        Seq::empty()
    } else if args.len() == 1 {
        spec_render(args[0])
    } else {
        spec_render(args[0]) + seq![',', ' '] + spec_render_args(args.drop_first())
    }
}

impl Expr {
    /// Renders the canonical textual form of this expression.
    pub fn render(&self) -> (s: String)
        ensures
            s@ == spec_render(self@),
        decreases *self, 0int,
    {
        match self {
            Expr::Sym(name) => name.clone(),
            Expr::Fun(name, args) => {
                let mut s = name.clone();
                s.append("(");
                let rest = render_args_from(args, 0);
                s.append(rest.as_str());
                s.append(")");
                proof {
                    reveal_strlit("(");
                    reveal_strlit(")");
                    assert("("@ =~= seq!['(']);
                    assert(")"@ =~= seq![')']);
                    assert(args@.skip(0) =~= args@);
                    assert(seq_view(args@.skip(0)) =~= seq_view(args@));
                    assert(s@ =~= spec_render(self@));
                }
                s
            },
        }
    }
}

/// Renders the arguments from index `from` on, comma-space-separated.
fn render_args_from(args: &Vec<Expr>, from: usize) -> (s: String)
    requires
        from <= args@.len(),
    ensures
        s@ == spec_render_args(seq_view(args@.skip(from as int))),
    decreases *args, args@.len() - from,
{
    let ghost tail = seq_view(args@.skip(from as int));
    if from == args.len() {
        proof {
            assert(tail =~= Seq::<SpecExpr>::empty());
        }
        String::new()
    } else {
        let mut s = args[from].render();
        if from + 1 < args.len() {
            s.append(", ");
            let rest = render_args_from(args, from + 1);
            s.append(rest.as_str());
        }
        proof {
            reveal_strlit(", ");
            assert(", "@ =~= seq![',', ' ']);
            assert(tail[0] == args@[from as int]@);
            assert(tail.drop_first() =~= seq_view(args@.skip(from as int + 1)));
            assert(s@ =~= spec_render_args(tail));
        }
        s
    }
}

} // verus!
