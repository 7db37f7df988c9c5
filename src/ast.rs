//! The syntax tree of the source language.
use vstd::prelude::*;

verus! {

/// An expression.
#[derive(Debug)]
pub enum Expr {
    /// An integer literal.
    Literal(i32),
    /// A string literal.
    StringLiteral(String),
    /// A reference to a parameter or a `let` binding.
    Identifier(String),
    /// `left op right`, with `op` one of `+ - * / == > <` once compiled.
    Binary { left: Box<Expr>, op: String, right: Box<Expr> },
    /// A layout statement used as a value.
    Layout(Box<Node>),
    /// A call of a declared function.
    Call { name: String, args: Vec<Expr> },
}

/// A statement, or a layout element.
#[derive(Debug)]
pub enum Node {
    /// A container that places its children along one axis.
    Group {
        direction: String,
        gap: i32,
        align: String,
        justify: String,
        padding: i32,
        children: Vec<Node>,
    },
    /// A rectangle.
    Box { x: i32, y: i32, width: i32, height: i32 },
    /// A text drawn at a position.
    Text { x: i32, y: i32, value: Expr },
    /// A list of text items placed one after the other.
    List { direction: String, gap: i32, padding: i32, items: Vec<Node> },
    /// One item of a list.
    Item { value: String },
    /// A conditional.
    If { condition: Expr, then_body: Vec<Node>, else_body: Option<Vec<Node>> },
    /// A local binding.
    Let { name: String, value: Expr },
    /// A function declaration: name, `(parameter name, type name)` pairs, body.
    Function { name: String, params: Vec<(String, String)>, body: Vec<Node> },
    /// An expression evaluated for its effect; its value is discarded.
    Expr(Expr),
}

/// An expression as plain values.
pub enum ExprView {
    Literal(i32),
    StringLiteral(Seq<char>),
    Identifier(Seq<char>),
    Binary(Box<ExprView>, Seq<char>, Box<ExprView>),
    Layout(Box<NodeView>),
    Call(Seq<char>, Seq<ExprView>),
}

/// A statement as plain values.
pub enum NodeView {
    Group {
        direction: Seq<char>,
        gap: i32,
        align: Seq<char>,
        justify: Seq<char>,
        padding: i32,
        children: Seq<NodeView>,
    },
    Box { x: i32, y: i32, width: i32, height: i32 },
    Text { x: i32, y: i32, value: ExprView },
    List { direction: Seq<char>, gap: i32, padding: i32, items: Seq<NodeView> },
    Item(Seq<char>),
    If { condition: ExprView, then_body: Seq<NodeView>, else_body: Option<Seq<NodeView>> },
    Let(Seq<char>, ExprView),
    Function(Seq<char>, Seq<(Seq<char>, Seq<char>)>, Seq<NodeView>),
    Expr(ExprView),
}

pub open spec fn expr_view(e: Expr) -> ExprView
    decreases e,
{
    match e {
        Expr::Literal(n) => ExprView::Literal(n),
        Expr::StringLiteral(s) => ExprView::StringLiteral(s@),
        Expr::Identifier(s) => ExprView::Identifier(s@),
        Expr::Binary { left, op, right } => ExprView::Binary(
            Box::new(expr_view(*left)),
            op@,
            Box::new(expr_view(*right)),
        ),
        Expr::Layout(n) => ExprView::Layout(Box::new(node_view(*n))),
        Expr::Call { name, args } => ExprView::Call(name@, exprs_view(args@)),
    }
}

pub open spec fn exprs_view(s: Seq<Expr>) -> Seq<ExprView>
    decreases s,
{
    if s.len() == 0 {
        Seq::empty()
    } else {
        exprs_view(s.subrange(0, s.len() - 1)).push(expr_view(s[s.len() - 1]))
    }
}

pub open spec fn node_view(n: Node) -> NodeView
    decreases n,
{
    match n {
        Node::Group { direction, gap, align, justify, padding, children } => NodeView::Group {
            direction: direction@,
            gap,
            align: align@,
            justify: justify@,
            padding,
            children: nodes_view(children@),
        },
        Node::Box { x, y, width, height } => NodeView::Box { x, y, width, height },
        Node::Text { x, y, value } => NodeView::Text { x, y, value: expr_view(value) },
        Node::List { direction, gap, padding, items } => NodeView::List {
            direction: direction@,
            gap,
            padding,
            items: nodes_view(items@),
        },
        Node::Item { value } => NodeView::Item(value@),
        Node::If { condition, then_body, else_body } => NodeView::If {
            condition: expr_view(condition),
            then_body: nodes_view(then_body@),
            else_body: match else_body {
                Some(b) => Some(nodes_view(b@)),
                None => None,
            },
        },
        Node::Let { name, value } => NodeView::Let(name@, expr_view(value)),
        Node::Function { name, params, body } => NodeView::Function(
            name@,
            params@.map_values(|p: (String, String)| (p.0@, p.1@)),
            nodes_view(body@),
        ),
        Node::Expr(e) => NodeView::Expr(expr_view(e)),
    }
}

pub open spec fn nodes_view(s: Seq<Node>) -> Seq<NodeView>
    decreases s,
{
    if s.len() == 0 {
        Seq::empty()
    } else {
        nodes_view(s.subrange(0, s.len() - 1)).push(node_view(s[s.len() - 1]))
    }
}

} // verus!
