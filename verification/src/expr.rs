//! Expression trees.
use vstd::prelude::*;
use crate::token::Operator;

verus! {

/// The sign in front of an operand.
#[derive(Clone, Copy, Debug, PartialEq, Eq, Structural)]
pub enum Sign {
    Plus,
    Minus,
}

/// A parsed expression.  Every node owns its children.
#[derive(Debug, PartialEq, Eq)]
pub enum Expression {
    /// A numeric literal, by its spelling.
    Literal(String),
    /// A named constant.
    Variable(String),
    UnaryOp(Sign, Box<Expression>),
    BinaryOp(Operator, Box<Expression>, Box<Expression>),
    /// A function applied to its arguments, in order.
    Call(String, Vec<Expression>),
}

/// The mathematical content of an [`Expression`].
pub enum ExpressionView {
    Literal(Seq<char>),
    Variable(Seq<char>),
    UnaryOp(Sign, Box<ExpressionView>),
    BinaryOp(Operator, Box<ExpressionView>, Box<ExpressionView>),
    Call(Seq<char>, Seq<ExpressionView>),
}

impl Expression {
    /// The tree with every string replaced by its characters.
    pub open spec fn model(self) -> ExpressionView
        decreases self,
    {
        match self {
            Expression::Literal(s) => ExpressionView::Literal(s@),
            Expression::Variable(n) => ExpressionView::Variable(n@),
            Expression::UnaryOp(sign, x) => ExpressionView::UnaryOp(sign, Box::new(x.model())),
            Expression::BinaryOp(op, l, r) => ExpressionView::BinaryOp(
                op,
                Box::new(l.model()),
                Box::new(r.model()),
            ),
            Expression::Call(n, args) => ExpressionView::Call(
                n@,
                Seq::new(
                    args@.len(),
                    |i: int|
                        if 0 <= i < args@.len() {
                            args@[i].model()
                        } else {
                            ExpressionView::Literal(Seq::empty())
                        },
                ),
            ),
        }
    }
}

impl View for Expression {
    type V = ExpressionView;

    open spec fn view(&self) -> ExpressionView {
        self.model()
    }
}

/// The contents of a sequence of expressions, one by one.
pub open spec fn expression_views(es: Seq<Expression>) -> Seq<ExpressionView> {
    es.map_values(|e: Expression| e@)
}

/// The content of a call is the callee's name and the contents of the
/// arguments.
pub proof fn lemma_call_view(name: String, args: Vec<Expression>)
    ensures
        Expression::Call(name, args)@ == ExpressionView::Call(name@, expression_views(args@)),
{
    let inner = Expression::Call(name, args).model();
    assert(inner->Call_1 =~= expression_views(args@));
}

} // verus!
