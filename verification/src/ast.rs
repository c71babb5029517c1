//! Expression trees produced by the parser, and their mathematical model.

use vstd::prelude::*;

verus! {

/// One node of the parsed tree.  The four directional commands wrap the
/// single sub-expression giving the amount; `Repeat` holds a count and a
/// block body; `To` holds a procedure name, its parameter list and a body;
/// `Call` holds a procedure name and an argument list; numbers, identifiers
/// and variable references are leaves.
#[derive(Debug, PartialEq, Eq)]
pub enum Expression {
    Forward(Box<Expression>),
    Back(Box<Expression>),
    Right(Box<Expression>),
    Left(Box<Expression>),
    Repeat(Box<Expression>, Vec<Expression>),
    To(Box<Expression>, Vec<Expression>, Vec<Expression>),
    Call(Box<Expression>, Vec<Expression>),
    Number(i32),
    Ident(String),
    Var(String),
}

/// The mathematical model of an expression node: sequences in place of
/// vectors, character sequences in place of strings, unbounded integers in
/// place of machine integers.
pub enum ExprModel {
    Forward(Box<ExprModel>),
    Back(Box<ExprModel>),
    Right(Box<ExprModel>),
    Left(Box<ExprModel>),
    Repeat(Box<ExprModel>, Seq<ExprModel>),
    To(Box<ExprModel>, Seq<ExprModel>, Seq<ExprModel>),
    Call(Box<ExprModel>, Seq<ExprModel>),
    Number(int),
    Ident(Seq<char>),
    Var(Seq<char>),
}

/// The model of an expression node.
pub open spec fn expr_model(e: Expression) -> ExprModel
    decreases e,
{
    match e {
        Expression::Forward(a) => ExprModel::Forward(Box::new(expr_model(*a))),
        Expression::Back(a) => ExprModel::Back(Box::new(expr_model(*a))),
        Expression::Right(a) => ExprModel::Right(Box::new(expr_model(*a))),
        Expression::Left(a) => ExprModel::Left(Box::new(expr_model(*a))),
        Expression::Repeat(c, body) => ExprModel::Repeat(
            Box::new(expr_model(*c)),
            exprs_model(body@),
        ),
        Expression::To(name, params, body) => ExprModel::To(
            Box::new(expr_model(*name)),
            exprs_model(params@),
            exprs_model(body@),
        ),
        Expression::Call(name, args) => ExprModel::Call(
            Box::new(expr_model(*name)),
            exprs_model(args@),
        ),
        Expression::Number(n) => ExprModel::Number(n as int),
        Expression::Ident(s) => ExprModel::Ident(s@),
        Expression::Var(s) => ExprModel::Var(s@),
    }
}

/// The model of a sequence of expression nodes, element by element.
pub open spec fn exprs_model(v: Seq<Expression>) -> Seq<ExprModel>
    decreases v,
{
    if v.len() == 0 {
        Seq::empty()
    } else {
        seq![expr_model(v[0])] + exprs_model(v.drop_first())
    }
}

/// How `exprs_model` reads pointwise: the model of a sequence of nodes has
/// the same length and holds the model of each node.
pub broadcast proof fn lemma_exprs_model(v: Seq<Expression>)
    ensures
        (#[trigger] exprs_model(v)).len() == v.len(),
        forall|i: int| 0 <= i < v.len() ==> exprs_model(v)[i] == expr_model(v[i]),
    decreases v.len(),
{
    if v.len() > 0 {
        lemma_exprs_model(v.drop_first());
    }
}

impl DeepView for Expression {
    type V = ExprModel;

    open spec fn deep_view(&self) -> ExprModel {
        expr_model(*self)
    }
}

/// The model of a vector of nodes agrees with the element models; vectors of
/// expressions are compared through this fact throughout the parser proofs.
pub broadcast proof fn lemma_exprs_deep_view(v: Vec<Expression>)
    ensures
        #[trigger] v.deep_view() == exprs_model(v@),
{
    lemma_exprs_model(v@);
    assert(v.deep_view() =~= exprs_model(v@));
}

} // verus!
