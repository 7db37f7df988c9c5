//! The grammar of the source language, as functions from a token list and a
//! position to what is read there and the position after it (`None` where
//! the tokens do not fit the grammar).
use vstd::prelude::*;
use crate::ast::{ExprView, NodeView};
use crate::lexer::TokenView;

verus! {

/// The token at `i`; `Eof` outside the list.
pub open spec fn tok(ts: Seq<TokenView>, i: int) -> TokenView {
    if 0 <= i < ts.len() {
        ts[i]
    } else {
        TokenView::Eof
    }
}

/// The token at `i` is the identifier `w`.
pub open spec fn is_kw(ts: Seq<TokenView>, i: int, w: Seq<char>) -> bool {
    tok(ts, i) == TokenView::Ident(w)
}

/// The position after an optional `,` at `k`.
pub open spec fn after_comma(ts: Seq<TokenView>, k: int) -> int {
    if tok(ts, k) is Comma {
        k + 1
    } else {
        k
    }
}

/// A word argument: a string literal or an identifier.
pub open spec fn word_at(ts: Seq<TokenView>, i: int) -> Option<Seq<char>> {
    match tok(ts, i) {
        TokenView::Str(s) => Some(s),
        TokenView::Ident(s) => Some(s),
        _ => None,
    }
}

/// The attributes of a group: direction, gap, align, justify, padding.
pub type GroupAttrs = (Seq<char>, i32, Seq<char>, Seq<char>, i32);

/// The attributes of a list: direction, gap, padding.
pub type ListAttrs = (Seq<char>, i32, i32);

/// A statement: chosen by its leading identifier; an identifier followed by
/// `(` is a call.
pub open spec fn g_node(ts: Seq<TokenView>, i: int) -> Option<(NodeView, int)>
    decreases ts.len() - i, 1nat,
{
    if i < 0 || i >= ts.len() {
        None
    } else if is_kw(ts, i, "if"@) {
        g_if(ts, i)
    } else if is_kw(ts, i, "group"@) {
        g_group(ts, i)
    } else if is_kw(ts, i, "box"@) {
        g_box(ts, i)
    } else if is_kw(ts, i, "text"@) {
        g_text(ts, i)
    } else if is_kw(ts, i, "list"@) {
        g_list(ts, i)
    } else if is_kw(ts, i, "let"@) {
        g_let(ts, i)
    } else if is_kw(ts, i, "function"@) {
        g_function(ts, i)
    } else if tok(ts, i) is Ident && tok(ts, i + 1) is LParen {
        match g_call(ts, i) {
            Some((e, k)) => Some((NodeView::Expr(e), k)),
            None => None,
        }
    } else {
        None
    }
}

/// `{ statement* }`
pub open spec fn g_block(ts: Seq<TokenView>, i: int) -> Option<(Seq<NodeView>, int)>
    decreases ts.len() - i, 0nat,
{
    if 0 <= i < ts.len() && tok(ts, i) is LBrace {
        g_stmts(ts, i + 1, Seq::empty())
    } else {
        None
    }
}

/// Statements from `j` up to a `}`, after the statements `acc`.
pub open spec fn g_stmts(ts: Seq<TokenView>, j: int, acc: Seq<NodeView>) -> Option<(Seq<NodeView>, int)>
    decreases ts.len() - j, 2nat,
{
    if j < 0 || j >= ts.len() {
        None
    } else if tok(ts, j) is RBrace {
        Some((acc, j + 1))
    } else {
        match g_node(ts, j) {
            Some((n, k)) => if j < k <= ts.len() {
                g_stmts(ts, k, acc.push(n))
            } else {
                None
            },
            None => None,
        }
    }
}

/// `group [( name: value, ... )] { statement* }`
pub open spec fn g_group(ts: Seq<TokenView>, i: int) -> Option<(NodeView, int)>
    decreases ts.len() - i, 0nat,
{
    if !(0 <= i < ts.len()) || !is_kw(ts, i, "group"@) {
        None
    } else {
        let defaults: GroupAttrs = ("vertical"@, 0i32, "start"@, "start"@, 0i32);
        let attrs = if tok(ts, i + 1) is LParen {
            g_group_attrs(ts, i + 2, defaults)
        } else {
            Some((defaults, i + 1))
        };
        match attrs {
            Some((a, k)) => if i < k <= ts.len() {
                match g_block(ts, k) {
                    Some((children, m)) => Some(
                        (
                            NodeView::Group {
                                direction: a.0,
                                gap: a.1,
                                align: a.2,
                                justify: a.3,
                                padding: a.4,
                                children,
                            },
                            m,
                        ),
                    ),
                    None => None,
                }
            } else {
                None
            },
            None => None,
        }
    }
}

/// The named group attributes from `j` up to `)`.
pub open spec fn g_group_attrs(ts: Seq<TokenView>, j: int, a: GroupAttrs) -> Option<(GroupAttrs, int)>
    decreases ts.len() - j,
{
    if j < 0 || j >= ts.len() {
        None
    } else if tok(ts, j) is RParen {
        Some((a, j + 1))
    } else if tok(ts, j) is Ident && tok(ts, j + 1) is Colon {
        let key = tok(ts, j)->Ident_0;
        let next: Option<GroupAttrs> = if key == "gap"@ {
            match tok(ts, j + 2) {
                TokenView::Number(n) => Some((a.0, n, a.2, a.3, a.4)),
                _ => None,
            }
        } else if key == "padding"@ {
            match tok(ts, j + 2) {
                TokenView::Number(n) => Some((a.0, a.1, a.2, a.3, n)),
                _ => None,
            }
        } else if key == "direction"@ {
            match word_at(ts, j + 2) {
                Some(w) => Some((w, a.1, a.2, a.3, a.4)),
                None => None,
            }
        } else if key == "align"@ {
            match word_at(ts, j + 2) {
                Some(w) => Some((a.0, a.1, w, a.3, a.4)),
                None => None,
            }
        } else if key == "justify"@ {
            match word_at(ts, j + 2) {
                Some(w) => Some((a.0, a.1, a.2, w, a.4)),
                None => None,
            }
        } else {
            None
        };
        let k = after_comma(ts, j + 3);
        match next {
            Some(b) => if k <= ts.len() {
                g_group_attrs(ts, k, b)
            } else {
                None
            },
            None => None,
        }
    } else {
        None
    }
}

/// `list [( name: value, ... )] { "item"* }`
pub open spec fn g_list(ts: Seq<TokenView>, i: int) -> Option<(NodeView, int)>
    decreases ts.len() - i, 0nat,
{
    if !(0 <= i < ts.len()) || !is_kw(ts, i, "list"@) {
        None
    } else {
        let defaults: ListAttrs = ("vertical"@, 0i32, 0i32);
        let attrs = if tok(ts, i + 1) is LParen {
            g_list_attrs(ts, i + 2, defaults)
        } else {
            Some((defaults, i + 1))
        };
        match attrs {
            Some((a, k)) => if i < k <= ts.len() && tok(ts, k) is LBrace {
                match g_items(ts, k + 1, Seq::empty()) {
                    Some((items, m)) => Some(
                        (NodeView::List { direction: a.0, gap: a.1, padding: a.2, items }, m),
                    ),
                    None => None,
                }
            } else {
                None
            },
            None => None,
        }
    }
}

/// The named list attributes from `j` up to `)`.
pub open spec fn g_list_attrs(ts: Seq<TokenView>, j: int, a: ListAttrs) -> Option<(ListAttrs, int)>
    decreases ts.len() - j,
{
    if j < 0 || j >= ts.len() {
        None
    } else if tok(ts, j) is RParen {
        Some((a, j + 1))
    } else if tok(ts, j) is Ident && tok(ts, j + 1) is Colon {
        let key = tok(ts, j)->Ident_0;
        let next: Option<ListAttrs> = if key == "gap"@ {
            match tok(ts, j + 2) {
                TokenView::Number(n) => Some((a.0, n, a.2)),
                _ => None,
            }
        } else if key == "padding"@ {
            match tok(ts, j + 2) {
                TokenView::Number(n) => Some((a.0, a.1, n)),
                _ => None,
            }
        } else if key == "direction"@ {
            match word_at(ts, j + 2) {
                Some(w) => Some((w, a.1, a.2)),
                None => None,
            }
        } else {
            None
        };
        let k = after_comma(ts, j + 3);
        match next {
            Some(b) => if k <= ts.len() {
                g_list_attrs(ts, k, b)
            } else {
                None
            },
            None => None,
        }
    } else {
        None
    }
}

/// String items from `j` up to `}`, each optionally followed by `,`.
pub open spec fn g_items(ts: Seq<TokenView>, j: int, acc: Seq<NodeView>) -> Option<(Seq<NodeView>, int)>
    decreases ts.len() - j,
{
    if j < 0 || j >= ts.len() {
        None
    } else if tok(ts, j) is RBrace {
        Some((acc, j + 1))
    } else if tok(ts, j) is Str {
        let k = after_comma(ts, j + 1);
        if k <= ts.len() {
            g_items(ts, k, acc.push(NodeView::Item(tok(ts, j)->Str_0)))
        } else {
            None
        }
    } else {
        None
    }
}

/// `box( name: N, ... )` with each of `x`, `y`, `width`, `height` given.
pub open spec fn g_box(ts: Seq<TokenView>, i: int) -> Option<(NodeView, int)>
    decreases ts.len() - i, 0nat,
{
    if 0 <= i && is_kw(ts, i, "box"@) && tok(ts, i + 1) is LParen {
        g_box_args(ts, i + 2, None, None, None, None)
    } else {
        None
    }
}

/// The box arguments from `j` up to `)`; a later value of a name replaces an
/// earlier one.
pub open spec fn g_box_args(
    ts: Seq<TokenView>,
    j: int,
    x: Option<i32>,
    y: Option<i32>,
    w: Option<i32>,
    h: Option<i32>,
) -> Option<(NodeView, int)>
    decreases ts.len() - j,
{
    if j < 0 || j >= ts.len() {
        None
    } else if tok(ts, j) is RParen {
        match (x, y, w, h) {
            (Some(x), Some(y), Some(width), Some(height)) => Some(
                (NodeView::Box { x, y, width, height }, j + 1),
            ),
            _ => None,
        }
    } else if tok(ts, j) is Ident && tok(ts, j + 1) is Colon && tok(ts, j + 2) is Number {
        let key = tok(ts, j)->Ident_0;
        let v = tok(ts, j + 2)->Number_0;
        let k = after_comma(ts, j + 3);
        if k > ts.len() {
            None
        } else if key == "x"@ {
            g_box_args(ts, k, Some(v), y, w, h)
        } else if key == "y"@ {
            g_box_args(ts, k, x, Some(v), w, h)
        } else if key == "width"@ {
            g_box_args(ts, k, x, y, Some(v), h)
        } else if key == "height"@ {
            g_box_args(ts, k, x, y, w, Some(v))
        } else {
            None
        }
    } else {
        None
    }
}

/// `text( name: value, ... )` with `x`, `y` numbers defaulting to 0 and a
/// required `value` expression.
pub open spec fn g_text(ts: Seq<TokenView>, i: int) -> Option<(NodeView, int)>
    decreases ts.len() - i, 0nat,
{
    if 0 <= i && is_kw(ts, i, "text"@) && tok(ts, i + 1) is LParen {
        g_text_args(ts, i + 2, 0, 0, None)
    } else {
        None
    }
}

/// The text arguments from `j` up to `)`.
pub open spec fn g_text_args(ts: Seq<TokenView>, j: int, x: i32, y: i32, v: Option<ExprView>) -> Option<(NodeView, int)>
    decreases ts.len() - j, 0nat,
{
    if j < 0 || j >= ts.len() {
        None
    } else if tok(ts, j) is RParen {
        match v {
            Some(e) => Some((NodeView::Text { x, y, value: e }, j + 1)),
            None => None,
        }
    } else if tok(ts, j) is Ident && tok(ts, j + 1) is Colon {
        let key = tok(ts, j)->Ident_0;
        if key == "x"@ || key == "y"@ {
            match tok(ts, j + 2) {
                TokenView::Number(n) => {
                    let k = after_comma(ts, j + 3);
                    if k > ts.len() {
                        None
                    } else if key == "x"@ {
                        g_text_args(ts, k, n, y, v)
                    } else {
                        g_text_args(ts, k, x, n, v)
                    }
                },
                _ => None,
            }
        } else if key == "value"@ {
            match g_expr(ts, j + 2) {
                Some((e, k0)) => {
                    let k = after_comma(ts, k0);
                    if j < k <= ts.len() {
                        g_text_args(ts, k, x, y, Some(e))
                    } else {
                        None
                    }
                },
                None => None,
            }
        } else {
            None
        }
    } else {
        None
    }
}

/// `if (expr) { statement* } [else { statement* }]`
pub open spec fn g_if(ts: Seq<TokenView>, i: int) -> Option<(NodeView, int)>
    decreases ts.len() - i, 0nat,
{
    if !(0 <= i && is_kw(ts, i, "if"@) && tok(ts, i + 1) is LParen) {
        None
    } else {
        match g_expr(ts, i + 2) {
            Some((c, k)) => if i < k <= ts.len() && tok(ts, k) is RParen {
                match g_block(ts, k + 1) {
                    Some((then_body, m)) => if i < m <= ts.len() && is_kw(ts, m, "else"@) {
                        match g_block(ts, m + 1) {
                            Some((els, q)) => Some(
                                (NodeView::If { condition: c, then_body, else_body: Some(els) }, q),
                            ),
                            None => None,
                        }
                    } else if i < m <= ts.len() {
                        Some((NodeView::If { condition: c, then_body, else_body: None }, m))
                    } else {
                        None
                    },
                    None => None,
                }
            } else {
                None
            },
            None => None,
        }
    }
}

/// `let name = expr`
pub open spec fn g_let(ts: Seq<TokenView>, i: int) -> Option<(NodeView, int)>
    decreases ts.len() - i, 0nat,
{
    if 0 <= i && is_kw(ts, i, "let"@) && tok(ts, i + 1) is Ident && tok(ts, i + 2) == TokenView::Operator(
        "="@,
    ) {
        match g_expr(ts, i + 3) {
            Some((e, k)) => Some((NodeView::Let(tok(ts, i + 1)->Ident_0, e), k)),
            None => None,
        }
    } else {
        None
    }
}

/// `function name(param: type, ...) { statement* }`
pub open spec fn g_function(ts: Seq<TokenView>, i: int) -> Option<(NodeView, int)>
    decreases ts.len() - i, 0nat,
{
    if 0 <= i && is_kw(ts, i, "function"@) && tok(ts, i + 1) is Ident && tok(ts, i + 2) is LParen {
        match g_params(ts, i + 3, Seq::empty()) {
            Some((params, k)) => if i < k <= ts.len() {
                match g_block(ts, k) {
                    Some((body, m)) => Some((NodeView::Function(tok(ts, i + 1)->Ident_0, params, body), m)),
                    None => None,
                }
            } else {
                None
            },
            None => None,
        }
    } else {
        None
    }
}

/// Parameters `name: type` from `j` up to `)`.
pub open spec fn g_params(ts: Seq<TokenView>, j: int, acc: Seq<(Seq<char>, Seq<char>)>) -> Option<(Seq<(Seq<char>, Seq<char>)>, int)>
    decreases ts.len() - j,
{
    if j < 0 || j >= ts.len() {
        None
    } else if tok(ts, j) is RParen {
        Some((acc, j + 1))
    } else if tok(ts, j) is Ident && tok(ts, j + 1) is Colon && tok(ts, j + 2) is Ident {
        let k = after_comma(ts, j + 3);
        if k <= ts.len() {
            g_params(ts, k, acc.push((tok(ts, j)->Ident_0, tok(ts, j + 2)->Ident_0)))
        } else {
            None
        }
    } else {
        None
    }
}

/// `name(expr, ...)`
pub open spec fn g_call(ts: Seq<TokenView>, i: int) -> Option<(ExprView, int)>
    decreases ts.len() - i, 0nat,
{
    if 0 <= i && tok(ts, i) is Ident && tok(ts, i + 1) is LParen {
        g_args(ts, i + 2, tok(ts, i)->Ident_0, Seq::empty())
    } else {
        None
    }
}

/// Call arguments from `j` up to `)`.
pub open spec fn g_args(ts: Seq<TokenView>, j: int, name: Seq<char>, acc: Seq<ExprView>) -> Option<(ExprView, int)>
    decreases ts.len() - j, 5nat,
{
    if j < 0 || j >= ts.len() {
        None
    } else if tok(ts, j) is RParen {
        Some((ExprView::Call(name, acc), j + 1))
    } else {
        match g_expr(ts, j) {
            Some((a, k0)) => {
                let k = after_comma(ts, k0);
                if j < k <= ts.len() {
                    g_args(ts, k, name, acc.push(a))
                } else {
                    None
                }
            },
            None => None,
        }
    }
}

/// Operands joined by operators other than `=`, combined from left to right.
pub open spec fn g_expr(ts: Seq<TokenView>, i: int) -> Option<(ExprView, int)>
    decreases ts.len() - i, 4nat,
{
    if i < 0 || i > ts.len() {
        None
    } else {
        match g_primary(ts, i) {
            Some((l, k)) => if i < k <= ts.len() {
                g_binops(ts, k, l)
            } else {
                None
            },
            None => None,
        }
    }
}

/// The operator chain from `j`, with `left` read so far.
pub open spec fn g_binops(ts: Seq<TokenView>, j: int, left: ExprView) -> Option<(ExprView, int)>
    decreases ts.len() - j, 0nat,
{
    if 0 <= j < ts.len() && tok(ts, j) is Operator && tok(ts, j)->Operator_0 != "="@ {
        match g_primary(ts, j + 1) {
            Some((r, k)) => if j < k <= ts.len() {
                g_binops(ts, k, ExprView::Binary(Box::new(left), tok(ts, j)->Operator_0, Box::new(r)))
            } else {
                None
            },
            None => None,
        }
    } else {
        Some((left, j))
    }
}

/// A literal, a name, a call, a layout element, or `( expr )`.
pub open spec fn g_primary(ts: Seq<TokenView>, i: int) -> Option<(ExprView, int)>
    decreases ts.len() - i, 3nat,
{
    if i < 0 || i > ts.len() {
        None
    } else if is_kw(ts, i, "box"@) || is_kw(ts, i, "group"@) || is_kw(ts, i, "text"@) || is_kw(
        ts,
        i,
        "list"@,
    ) {
        match g_node(ts, i) {
            Some((n, k)) => Some((ExprView::Layout(Box::new(n)), k)),
            None => None,
        }
    } else if tok(ts, i) is Ident && tok(ts, i + 1) is LParen {
        g_call(ts, i)
    } else {
        match tok(ts, i) {
            TokenView::Number(n) => Some((ExprView::Literal(n), i + 1)),
            TokenView::Str(s) => Some((ExprView::StringLiteral(s), i + 1)),
            TokenView::Ident(s) => Some((ExprView::Identifier(s), i + 1)),
            TokenView::LParen => match g_expr(ts, i + 1) {
                Some((e, k)) => if i < k <= ts.len() && tok(ts, k) is RParen {
                    Some((e, k + 1))
                } else {
                    None
                },
                None => None,
            },
            _ => None,
        }
    }
}

/// Statements from `i` to the end of the list, after `acc`.
pub open spec fn g_program(ts: Seq<TokenView>, i: int, acc: Seq<NodeView>) -> Option<Seq<NodeView>>
    decreases ts.len() - i,
{
    if i < 0 || i >= ts.len() {
        Some(acc)
    } else {
        match g_node(ts, i) {
            Some((n, k)) => if i < k <= ts.len() {
                g_program(ts, k, acc.push(n))
            } else {
                None
            },
            None => None,
        }
    }
}

} // verus!
