//! The syntax tree that the evaluator consumes, and its mathematical view.

use crate::shared::share;
use std::rc::Rc;
use vstd::prelude::*;

verus! {

/// An identifier. Names are compared letter for letter, with no normalisation.
pub type Name = String;

/// A shared sub-expression: one body may be held by many closures.
pub type BExpr = Rc<Expr>;

/// An expression of the language.
#[derive(Debug, PartialEq, Eq)]
pub enum Expr {
    /// A reference to a bound name.
    Var(Name),
    /// A function of one parameter: the parameter and the body.
    Lam(Name, BExpr),
    /// An application: the callee and the argument.
    App(BExpr, BExpr),
    /// A non-recursive binding: the name, the bound expression and the body.
    Let(Name, BExpr, BExpr),
    /// An integer literal.
    Int(i32),
    /// The sum of two expressions.
    Add(BExpr, BExpr),
}

/// The view of an [`Expr`]: the same tree with names as character sequences.
pub enum ExprView {
    Var(Seq<char>),
    Lam(Seq<char>, Box<ExprView>),
    App(Box<ExprView>, Box<ExprView>),
    Let(Seq<char>, Box<ExprView>, Box<ExprView>),
    Int(i32),
    Add(Box<ExprView>, Box<ExprView>),
}

impl View for Expr {
    type V = ExprView;

    open spec fn view(&self) -> ExprView
        decreases self,
    {
        match self {
            Expr::Var(x) => ExprView::Var(x@),
            Expr::Lam(p, body) => ExprView::Lam(p@, Box::new((**body).view())),
            Expr::App(f, a) => ExprView::App(Box::new((**f).view()), Box::new((**a).view())),
            Expr::Let(x, bound, body) => ExprView::Let(
                x@,
                Box::new((**bound).view()),
                Box::new((**body).view()),
            ),
            Expr::Int(n) => ExprView::Int(*n),
            Expr::Add(l, r) => ExprView::Add(Box::new((**l).view()), Box::new((**r).view())),
        }
    }
}

impl Clone for Expr {
    /// A copy of the root that shares every sub-expression with `self`.
    fn clone(&self) -> (r: Expr)
        ensures
            r == *self,
    {
        match self {
            Expr::Var(x) => Expr::Var(x.clone()),
            Expr::Lam(p, body) => Expr::Lam(p.clone(), share(body)),
            Expr::App(f, a) => Expr::App(share(f), share(a)),
            Expr::Let(x, bound, body) => Expr::Let(x.clone(), share(bound), share(body)),
            Expr::Int(n) => Expr::Int(*n),
            Expr::Add(l, r) => Expr::Add(share(l), share(r)),
        }
    }
}

/// A top-level item: a whole program, or one definition of it.
#[derive(Debug, PartialEq, Eq)]
pub enum TopLevel {
    /// A program: its items in source order.
    TopLoad(Vec<Rc<TopLevel>>),
    /// One definition: the name and the expression bound to it.
    TopDef(Name, Expr),
}

/// The view of a [`TopLevel`].
pub enum TopLevelView {
    TopLoad(Seq<TopLevelView>),
    TopDef(Seq<char>, ExprView),
}

impl View for TopLevel {
    type V = TopLevelView;

    open spec fn view(&self) -> TopLevelView
        decreases self,
    {
        match self {
            TopLevel::TopLoad(items) => TopLevelView::TopLoad(items_view(items@)),
            TopLevel::TopDef(name, expr) => TopLevelView::TopDef(name@, expr@),
        }
    }
}

impl Clone for TopLevel {
    /// A copy of the root that shares every item with `self`.
    fn clone(&self) -> (r: TopLevel)
        ensures
            r@ == self@,
    {
        match self {
            TopLevel::TopLoad(items) => {
                let mut copy: Vec<Rc<TopLevel>> = Vec::new();
                let mut i: usize = 0;
                while i < items.len()
                    invariant
                        i <= items@.len(),
                        copy@ == items@.take(i as int),
                    decreases items@.len() - i,
                {
                    copy.push(share(&items[i]));
                    assert(copy@ =~= items@.take(i + 1));
                    i += 1;
                }
                assert(copy@ =~= items@);
                TopLevel::TopLoad(copy)
            },
            TopLevel::TopDef(name, expr) => TopLevel::TopDef(name.clone(), expr.clone()),
        }
    }
}

/// The views of the items of a program, in order.
pub open spec fn items_view(items: Seq<Rc<TopLevel>>) -> Seq<TopLevelView>
    decreases items,
{
    if items.len() == 0 {
        Seq::empty()
    } else {
        items_view(items.drop_last()).push((*items.last()).view())
    }
}

/// The view of a list of items has one view for each item, at its place.
pub proof fn lemma_items_view(items: Seq<Rc<TopLevel>>)
    ensures
        items_view(items).len() == items.len(),
        forall|i: int| 0 <= i < items.len() ==> #[trigger] items_view(items)[i] == (*items[i])@,
    decreases items.len(),
{
    if items.len() > 0 {
        lemma_items_view(items.drop_last());
        assert(items_view(items) == items_view(items.drop_last()).push((*items.last())@));
    }
}

} // verus!
