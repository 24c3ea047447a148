//! One concrete visitor: serializes an expression tree to its fully
//! parenthesized, prefix-notation text, a deterministic fingerprint of the
//! tree's shape. A binary node renders as `(op left right)`, a grouping as
//! `(Group inner)`, a unary as `(op right)`, and a literal as its text, or
//! `nil` when it carries none.

use vstd::prelude::*;

use crate::expression::{Binary, Expr, Grouping, Literal, Unary, Visitor};
use vstd::string::StringExecFns;
use vstd::string::StrSliceExecFns;

verus! {

/// The exact text the printer renders for an expression.
pub open spec fn print_expr_model(e: Expr) -> Seq<char>
    decreases e,
{
    match e {
        Expr::Binary(b) => "("@ + b.operator.lexeme@ + " "@ + print_expr_model(*b.left) + " "@
            + print_expr_model(*b.right) + ")"@,
        Expr::Grouping(g) => "("@ + "Group"@ + " "@ + print_expr_model(*g.expression) + ")"@,
        Expr::Literal(l) => match l.value {
            Some(v) => v@,
            None => "nil"@,
        },
        Expr::Unary(u) => "("@ + u.operator.lexeme@ + " "@ + print_expr_model(*u.right) + ")"@,
    }
}

/// The rendered argument list: one space before each rendered element.
pub open spec fn print_args_model(exprs: Seq<Expr>) -> Seq<char>
    decreases exprs.len(),
{
    if exprs.len() == 0 {
        Seq::empty()
    } else {
        print_args_model(exprs.drop_last()) + " "@ + print_expr_model(exprs.last())
    }
}

/// The parenthesized form: the name, then each rendered element, spaces
/// between, all in one pair of parentheses.
pub open spec fn parenthesize_model(name: Seq<char>, exprs: Seq<Expr>) -> Seq<char> {
    "("@ + name + print_args_model(exprs) + ")"@
}

pub open spec fn deref_exprs(exprs: Seq<&Expr>) -> Seq<Expr> {
    exprs.map_values(|e: &Expr| *e)
}

/// The prefix printer. Stateless: one value serves for any number of
/// trees.
#[derive(Clone, Copy)]
pub struct AstPrinter {}

impl AstPrinter {
    pub fn new() -> (p: AstPrinter)
        ensures
            p == (AstPrinter {  }),
    {
        AstPrinter {  }
    }

    /// Renders one expression tree to its full prefix text.
    pub fn print(&self, expression: &Expr) -> (r: String)
        ensures
            r@ == print_expr_model(*expression),
        decreases *expression,
    {
        match expression {
            Expr::Binary(e) => {
                let mut builder = String::new();
                builder.append("(");
                builder.append(e.operator.lexeme.as_str());
                builder.append(" ");
                let left = self.print(&*e.left);
                builder.append(left.as_str());
                builder.append(" ");
                let right = self.print(&*e.right);
                builder.append(right.as_str());
                builder.append(")");
                builder
            },
            Expr::Grouping(e) => {
                let mut builder = String::new();
                builder.append("(");
                builder.append("Group");
                builder.append(" ");
                let inner = self.print(&*e.expression);
                builder.append(inner.as_str());
                builder.append(")");
                builder
            },
            Expr::Literal(e) => {
                match &e.value {
                    Some(v) => v.clone(),
                    None => String::from_str("nil"),
                }
            },
            Expr::Unary(e) => {
                let mut builder = String::new();
                builder.append("(");
                builder.append(e.operator.lexeme.as_str());
                builder.append(" ");
                let right = self.print(&*e.right);
                builder.append(right.as_str());
                builder.append(")");
                builder
            },
        }
    }

    /// Renders `(name e1 e2 ...)`: every element in order, a space before
    /// each, inside one pair of parentheses.
    fn parenthesize(self, name: String, exprs: Vec<&Expr>) -> (r: String)
        ensures
            r@ == parenthesize_model(name@, deref_exprs(exprs@)),
    {
        let mut builder = String::new();
        builder.append("(");
        builder.append(name.as_str());
        let mut i: usize = 0;
        while i < exprs.len()
            invariant
                i <= exprs@.len(),
                builder@ == "("@ + name@ + print_args_model(deref_exprs(exprs@).take(i as int)),
            decreases exprs@.len() - i,
        {
            builder.append(" ");
            let rendered = self.print(exprs[i]);
            builder.append(rendered.as_str());
            proof {
                let all = deref_exprs(exprs@);
                assert(all.take(i + 1).drop_last() =~= all.take(i as int));
                assert(all.take(i + 1).last() == all[i as int]);
            }
            i = i + 1;
        }
        builder.append(")");
        proof {
            assert(deref_exprs(exprs@).take(exprs@.len() as int) =~= deref_exprs(exprs@));
        }
        builder
    }
}

impl Visitor<String> for AstPrinter {
    open spec fn visits_binary(&self, element: &Binary, r: String) -> bool {
        r@ == print_expr_model(Expr::Binary(*element))
    }

    open spec fn visits_grouping(&self, element: &Grouping, r: String) -> bool {
        r@ == print_expr_model(Expr::Grouping(*element))
    }

    open spec fn visits_literal(&self, element: &Literal, r: String) -> bool {
        r@ == print_expr_model(Expr::Literal(*element))
    }

    open spec fn visits_unary(&self, element: &Unary, r: String) -> bool {
        r@ == print_expr_model(Expr::Unary(*element))
    }

    fn visit_binary(&self, element: &Binary) -> (r: String) {
        let args: Vec<&Expr> = vec![&*element.left, &*element.right];
        let ghost args_view = args@;
        let r = self.parenthesize(element.operator.lexeme.clone(), args);
        proof {
            let l = *element.left;
            let rt = *element.right;
            let e0 = Seq::<Expr>::empty();
            let flat = deref_exprs(args_view);
            assert(flat =~= seq![l, rt]);
            assert(print_args_model(e0) == Seq::<char>::empty());
            assert(seq![l].drop_last() =~= e0);
            assert(print_args_model(seq![l]) == print_args_model(e0) + " "@ + print_expr_model(l));
            assert(seq![l, rt].drop_last() =~= seq![l]);
            assert(print_args_model(seq![l, rt]) == print_args_model(seq![l]) + " "@
                + print_expr_model(rt));
            assert(r@ =~= print_expr_model(Expr::Binary(*element)));
        }
        r
    }

    fn visit_grouping(&self, element: &Grouping) -> (r: String) {
        let args: Vec<&Expr> = vec![&*element.expression];
        let ghost args_view = args@;
        let r = self.parenthesize(String::from_str("Group"), args);
        proof {
            let inner = *element.expression;
            let e0 = Seq::<Expr>::empty();
            let flat = deref_exprs(args_view);
            assert(flat =~= seq![inner]);
            assert(print_args_model(e0) == Seq::<char>::empty());
            assert(seq![inner].drop_last() =~= e0);
            assert(print_args_model(seq![inner]) == print_args_model(e0) + " "@
                + print_expr_model(inner));
            reveal_strlit("(");
            reveal_strlit("Group");
            assert(r@ =~= print_expr_model(Expr::Grouping(*element)));
        }
        r
    }

    fn visit_literal(&self, element: &Literal) -> (r: String) {
        match &element.value {
            Some(v) => v.clone(),
            None => String::from_str("nil"),
        }
    }

    fn visit_unary(&self, element: &Unary) -> (r: String) {
        let args: Vec<&Expr> = vec![&*element.right];
        let ghost args_view = args@;
        let r = self.parenthesize(element.operator.lexeme.clone(), args);
        proof {
            let rt = *element.right;
            let e0 = Seq::<Expr>::empty();
            let flat = deref_exprs(args_view);
            assert(flat =~= seq![rt]);
            assert(print_args_model(e0) == Seq::<char>::empty());
            assert(seq![rt].drop_last() =~= e0);
            assert(print_args_model(seq![rt]) == print_args_model(e0) + " "@
                + print_expr_model(rt));
            assert(r@ =~= print_expr_model(Expr::Unary(*element)));
        }
        r
    }
}

} // verus!
