//! What the generator emits, as functions of the syntax tree: the code and
//! semantic map entries of each statement and expression, given the state
//! of the body being generated.
use vstd::prelude::*;
use vstd::utf8::encode_utf8;
use crate::ast::{ExprView, NodeView};
use crate::codegen::{
    Instr, ADD_ROOT_FUNC, DRAW_RECT_FUNC, DRAW_TEXT_FUNC, FIRST_USER_FUNC, GC_ALLOC_FUNC,
    GROUP_PAYLOAD, MARK_USED_FUNC, TAG_BOX, TAG_GROUP, TAG_TEXT,
};
use crate::layout::{
    anchor_of, fits_i32, lemma_space_between_increasing, lemma_start_at_padding, placeable, position,
    total_main, Anchor, CHAR_WIDTH, CONTAINER_SIZE,
    FALLBACK_EXTENT, TEXT_HEIGHT, UNKNOWN_TEXT_WIDTH,
};

verus! {

/// The code of a box: allocate a box object into the scratch slot `t`, root
/// it, mark it used, and draw the rectangle.
pub open spec fn box_code(t: u32, x: i32, y: i32, width: i32, height: i32) -> Seq<Instr> {
    seq![
        Instr::I32Const(0),
        Instr::I32Const(TAG_BOX),
        Instr::Call(GC_ALLOC_FUNC),
        Instr::LocalTee(t),
        Instr::LocalGet(t),
        Instr::Call(ADD_ROOT_FUNC),
        Instr::Drop,
        Instr::LocalGet(t),
        Instr::Call(MARK_USED_FUNC),
        Instr::I32Const(x),
        Instr::I32Const(y),
        Instr::I32Const(width),
        Instr::I32Const(height),
        Instr::Call(DRAW_RECT_FUNC),
    ]
}

/// The stores that write `bytes[0..i]` at the pointer in slot `t`.
pub open spec fn byte_stores(t: u32, bytes: Seq<u8>, i: int) -> Seq<Instr>
    decreases i,
{
    if i <= 0 {
        Seq::empty()
    } else {
        byte_stores(t, bytes, i - 1) + seq![
            Instr::LocalGet(t),
            Instr::I32Const((i - 1) as i32),
            Instr::I32Add,
            Instr::I32Const(bytes[i - 1] as i32),
            Instr::I32Store8,
        ]
    }
}

/// The code of a string: allocate a text buffer of the string's byte length
/// into slot `t` (leaving the pointer on the stack as well with `keep`),
/// root it, mark it used, and store each byte.
pub open spec fn string_code(t: u32, bytes: Seq<u8>, keep: bool) -> Seq<Instr> {
    seq![
        Instr::I32Const(bytes.len() as i32),
        Instr::I32Const(TAG_TEXT),
        Instr::Call(GC_ALLOC_FUNC),
        if keep {
            Instr::LocalTee(t)
        } else {
            Instr::LocalSet(t)
        },
        Instr::LocalGet(t),
        Instr::Call(ADD_ROOT_FUNC),
        Instr::LocalGet(t),
        Instr::Call(MARK_USED_FUNC),
    ] + byte_stores(t, bytes, bytes.len() as int)
}

/// The code of a literal text at (x, y): its buffer, then the draw call with
/// the buffer's pointer and byte length.
pub open spec fn text_code(t: u32, x: i32, y: i32, bytes: Seq<u8>) -> Seq<Instr> {
    string_code(t, bytes, false) + seq![
        Instr::I32Const(x),
        Instr::I32Const(y),
        Instr::LocalGet(t),
        Instr::I32Const(bytes.len() as i32),
        Instr::Call(DRAW_TEXT_FUNC),
    ]
}

/// The instruction of a binary operator.
pub open spec fn binary_instr(op: Seq<char>) -> Option<Instr> {
    if op == "+"@ {
        Some(Instr::I32Add)
    } else if op == "-"@ {
        Some(Instr::I32Sub)
    } else if op == "*"@ {
        Some(Instr::I32Mul)
    } else if op == "/"@ {
        Some(Instr::I32DivS)
    } else if op == "=="@ {
        Some(Instr::I32Eq)
    } else if op == ">"@ {
        Some(Instr::I32GtS)
    } else if op == "<"@ {
        Some(Instr::I32LtS)
    } else {
        None
    }
}

/// A property value of a semantic map entry, as plain values.
pub enum PropView {
    Int(i32),
    Text(Seq<char>),
}

/// A semantic map entry as plain values.
pub struct EntryView {
    pub kind: Seq<char>,
    pub offset: int,
    pub pointer: Option<i32>,
    pub source: Option<Seq<char>>,
    pub props: Seq<(Seq<char>, PropView)>,
}

/// The state of a body being generated: its code, its semantic map, the
/// names in scope as (name, slot, type), the scratch slot and the next free
/// slot.
pub struct EmView {
    pub instrs: Seq<Instr>,
    pub map: Seq<EntryView>,
    pub locals: Seq<(Seq<char>, u32, Seq<char>)>,
    pub scratch: u32,
    pub next_local: u32,
}

/// The function table as plain values: each entry's dispatch key and result
/// count, in index order.
pub type TableView = Seq<((Seq<char>, Seq<Seq<char>>), usize)>;

pub open spec fn with_code(st: EmView, code: Seq<Instr>) -> EmView {
    EmView { instrs: st.instrs + code, map: st.map, locals: st.locals, scratch: st.scratch, next_local: st.next_local }
}

pub open spec fn with_entry(st: EmView, e: EntryView) -> EmView {
    EmView { instrs: st.instrs, map: st.map.push(e), locals: st.locals, scratch: st.scratch, next_local: st.next_local }
}

pub open spec fn entry(kind: Seq<char>, offset: int, props: Seq<(Seq<char>, PropView)>) -> EntryView {
    EntryView { kind, offset, pointer: None, source: None, props }
}

/// The latest binding of `name`.
pub open spec fn lookup_v(locals: Seq<(Seq<char>, u32, Seq<char>)>, name: Seq<char>) -> Option<int>
    decreases locals.len(),
{
    if locals.len() == 0 {
        None
    } else if locals.last().0 == name {
        Some(locals.len() - 1)
    } else {
        lookup_v(locals.drop_last(), name)
    }
}

/// The dispatch type of an argument.
pub open spec fn infer_v(e: ExprView, locals: Seq<(Seq<char>, u32, Seq<char>)>) -> Seq<char> {
    match e {
        ExprView::StringLiteral(_) => "string"@,
        ExprView::Identifier(n) => match lookup_v(locals, n) {
            Some(i) => locals[i].2,
            None => if n.len() > 0 && n[0] == 's' {
                "string"@
            } else {
                "int"@
            },
        },
        _ => "int"@,
    }
}

/// The first table entry from `i` on whose key is `key`.
pub open spec fn first_match(tv: TableView, key: (Seq<char>, Seq<Seq<char>>), i: int) -> Option<int>
    decreases tv.len() - i,
{
    if i < 0 || i >= tv.len() {
        None
    } else if tv[i].0 == key {
        Some(i)
    } else {
        first_match(tv, key, i + 1)
    }
}

/// The intrinsic (width, height) of a child.
pub open spec fn size_v(n: NodeView) -> (int, int) {
    match n {
        NodeView::Box { width, height, .. } => (width as int, height as int),
        NodeView::Text { value, .. } => match value {
            ExprView::StringLiteral(s) => (encode_utf8(s).len() * CHAR_WIDTH, TEXT_HEIGHT as int),
            _ => (UNKNOWN_TEXT_WIDTH as int, TEXT_HEIGHT as int),
        },
        _ => (FALLBACK_EXTENT as int, FALLBACK_EXTENT as int),
    }
}

/// The (main, cross) extents of the children.
pub open spec fn extents_v(ch: Seq<NodeView>, horizontal: bool) -> Seq<(int, int)> {
    ch.map_values(
        |c: NodeView|
            if horizontal {
                size_v(c)
            } else {
                (size_v(c).1, size_v(c).0)
            },
    )
}

/// The allocation of a group object, rooted and dropped.
pub open spec fn group_head(t: u32) -> Seq<Instr> {
    seq![
        Instr::I32Const(GROUP_PAYLOAD),
        Instr::I32Const(TAG_GROUP),
        Instr::Call(GC_ALLOC_FUNC),
        Instr::LocalTee(t),
        Instr::LocalGet(t),
        Instr::Call(ADD_ROOT_FUNC),
        Instr::Drop,
    ]
}

/// A box at (x, y): its code and its entry.
pub open spec fn box_step(st: EmView, x: i32, y: i32, width: i32, height: i32) -> EmView {
    with_entry(
        with_code(st, box_code(st.scratch, x, y, width, height)),
        entry(
            "box"@,
            st.instrs.len() as int,
            seq![
                ("x"@, PropView::Int(x)),
                ("y"@, PropView::Int(y)),
                ("width"@, PropView::Int(width)),
                ("height"@, PropView::Int(height)),
            ],
        ),
    )
}

/// An expression: the state after it and how many values it leaves.
pub open spec fn gen_expr(e: ExprView, st: EmView, tv: TableView) -> Option<(EmView, usize)>
    decreases e, 0nat,
{
    match e {
        ExprView::Literal(n) => Some((with_code(st, seq![Instr::I32Const(n)]), 1)),
        ExprView::StringLiteral(s) => if encode_utf8(s).len() <= i32::MAX {
            Some((with_code(st, string_code(st.scratch, encode_utf8(s), true)), 1))
        } else {
            None
        },
        ExprView::Identifier(n) => match lookup_v(st.locals, n) {
            Some(i) => Some((with_code(st, seq![Instr::LocalGet(st.locals[i].1)]), 1)),
            None => None,
        },
        ExprView::Binary(l, op, r) => match gen_expr(*l, st, tv) {
            Some((s1, k1)) => if k1 != 1 {
                None
            } else {
                match gen_expr(*r, s1, tv) {
                    Some((s2, k2)) => if k2 != 1 {
                        None
                    } else {
                        match binary_instr(op) {
                            Some(ins) => Some((with_code(s2, seq![ins]), 1)),
                            None => None,
                        }
                    },
                    None => None,
                }
            },
            None => None,
        },
        ExprView::Layout(n) => match gen_node(*n, st, tv) {
            Some(s1) => Some((s1, 0)),
            None => None,
        },
        ExprView::Call(name, args) => {
            let key = (name, args.map_values(|a: ExprView| infer_v(a, st.locals)));
            match first_match(tv, key, 0) {
                None => None,
                Some(i) => match gen_args(args, 0, st, tv) {
                    Some(s1) => Some((with_code(s1, seq![Instr::Call((FIRST_USER_FUNC + i) as u32)]), tv[i].1)),
                    None => None,
                },
            }
        },
    }
}

/// The arguments `args[j..]`, each leaving one value.
pub open spec fn gen_args(args: Seq<ExprView>, j: int, st: EmView, tv: TableView) -> Option<EmView>
    decreases args, args.len() - j,
{
    if j < 0 || j >= args.len() {
        Some(st)
    } else {
        match gen_expr(args[j], st, tv) {
            Some((s1, k)) => if k != 1 {
                None
            } else {
                gen_args(args, j + 1, s1, tv)
            },
            None => None,
        }
    }
}

/// A text at (x, y) with the given value.
pub open spec fn gen_text(x: i32, y: i32, v: ExprView, st: EmView, tv: TableView) -> Option<EmView>
    decreases v, 1nat,
{
    match v {
        ExprView::StringLiteral(s) => if encode_utf8(s).len() <= i32::MAX {
            Some(
                with_entry(
                    with_code(st, text_code(st.scratch, x, y, encode_utf8(s))),
                    entry(
                        "text"@,
                        st.instrs.len() as int,
                        seq![("x"@, PropView::Int(x)), ("y"@, PropView::Int(y)), ("value"@, PropView::Text(s))],
                    ),
                ),
            )
        } else {
            None
        },
        _ => match gen_expr(v, with_code(st, seq![Instr::I32Const(x), Instr::I32Const(y)]), tv) {
            Some((s1, k)) => if k != 1 {
                None
            } else {
                Some(
                    with_entry(
                        with_code(s1, seq![Instr::I32Const(999), Instr::Call(DRAW_TEXT_FUNC)]),
                        entry("text"@, st.instrs.len() as int, seq![("x"@, PropView::Int(x)), ("y"@, PropView::Int(y))]),
                    ),
                )
            },
            None => None,
        },
    }
}

/// A statement.
pub open spec fn gen_node(n: NodeView, st: EmView, tv: TableView) -> Option<EmView>
    decreases n, 0nat,
{
    match n {
        NodeView::Box { x, y, width, height } => Some(box_step(st, x, y, width, height)),
        NodeView::Text { x, y, value } => gen_text(x, y, value, st, tv),
        NodeView::Group { direction, gap, align, justify, padding, children } => {
            let h = direction == "horizontal"@;
            let dims = extents_v(children, h);
            if !placeable(dims, h, gap as int, padding as int, anchor_of(align), anchor_of(justify)) {
                None
            } else {
                match gen_children(
                    children,
                    0,
                    dims,
                    h,
                    gap as int,
                    padding as int,
                    anchor_of(align),
                    anchor_of(justify),
                    with_code(st, group_head(st.scratch)),
                    tv,
                ) {
                    Some(s2) => Some(
                        with_entry(
                            s2,
                            entry(
                                "group"@,
                                st.instrs.len() as int,
                                seq![
                                    ("direction"@, PropView::Text(direction)),
                                    ("gap"@, PropView::Int(gap)),
                                    ("padding"@, PropView::Int(padding)),
                                    ("align"@, PropView::Text(align)),
                                    ("justify"@, PropView::Text(justify)),
                                ],
                            ),
                        ),
                    ),
                    None => None,
                }
            }
        },
        NodeView::List { direction, gap, padding, items } => {
            let h = direction == "horizontal"@;
            match gen_items(items, 0, padding, h, gap, padding, st) {
                Some(s2) => Some(
                    with_entry(
                        s2,
                        entry(
                            "list"@,
                            st.instrs.len() as int,
                            seq![
                                ("direction"@, PropView::Text(direction)),
                                ("gap"@, PropView::Int(gap)),
                                ("padding"@, PropView::Int(padding)),
                            ],
                        ),
                    ),
                ),
                None => None,
            }
        },
        NodeView::Item(_) => None,
        NodeView::If { condition, then_body, else_body } => match gen_expr(condition, st, tv) {
            Some((s1, k)) => if k != 1 {
                None
            } else {
                match gen_stmts(then_body, 0, with_code(s1, seq![Instr::If]), tv) {
                    Some(s2) => match else_body {
                        Some(b) => match gen_stmts(b, 0, with_code(s2, seq![Instr::Else]), tv) {
                            Some(s3) => Some(with_code(s3, seq![Instr::End])),
                            None => None,
                        },
                        None => Some(with_code(s2, seq![Instr::End])),
                    },
                    None => None,
                }
            },
            None => None,
        },
        NodeView::Let(name, value) => match gen_expr(value, st, tv) {
            Some((s1, k)) => if s1.next_local == u32::MAX {
                None
            } else {
                let slot = s1.next_local;
                let code = if k == 0 {
                    seq![Instr::LocalGet(s1.scratch), Instr::LocalSet(slot)]
                } else {
                    seq![Instr::LocalSet(slot)]
                };
                let s2 = with_code(s1, code);
                Some(
                    EmView {
                        instrs: s2.instrs,
                        map: s2.map,
                        locals: s2.locals.push((name, slot, infer_v(value, st.locals))),
                        scratch: s2.scratch,
                        next_local: (slot + 1) as u32,
                    },
                )
            },
            None => None,
        },
        NodeView::Function(..) => None,
        NodeView::Expr(e) => match gen_expr(e, st, tv) {
            Some((s1, k)) => Some(
                if k == 1 {
                    with_code(s1, seq![Instr::Drop])
                } else {
                    s1
                },
            ),
            None => None,
        },
    }
}

/// The children `ch[k..]` of a group, boxes and texts placed at their
/// resolved positions.
pub open spec fn gen_children(
    ch: Seq<NodeView>,
    k: int,
    dims: Seq<(int, int)>,
    h: bool,
    gap: int,
    padding: int,
    al: Anchor,
    ju: Anchor,
    st: EmView,
    tv: TableView,
) -> Option<EmView>
    decreases ch, ch.len() - k,
{
    if k < 0 || k >= ch.len() {
        Some(st)
    } else {
        let p = position(dims, k, h, gap, padding, al, ju);
        let px = p.0 as i32;
        let py = p.1 as i32;
        match ch[k] {
            NodeView::Box { width, height, .. } => gen_children(
                ch,
                k + 1,
                dims,
                h,
                gap,
                padding,
                al,
                ju,
                box_step(st, px, py, width, height),
                tv,
            ),
            NodeView::Text { value, .. } => match gen_text(px, py, value, st, tv) {
                Some(s1) => gen_children(ch, k + 1, dims, h, gap, padding, al, ju, s1, tv),
                None => None,
            },
            c => match gen_node(c, st, tv) {
                Some(s1) => gen_children(ch, k + 1, dims, h, gap, padding, al, ju, s1, tv),
                None => None,
            },
        }
    }
}

/// The items `items[k..]` of a list, the next one placed at `cursor` along
/// the main axis.
pub open spec fn gen_items(
    items: Seq<NodeView>,
    k: int,
    cursor: i32,
    h: bool,
    gap: i32,
    padding: i32,
    st: EmView,
) -> Option<EmView>
    decreases items.len() - k,
{
    if k < 0 || k >= items.len() {
        Some(st)
    } else {
        match items[k] {
            NodeView::Item(v) => {
                let bytes = encode_utf8(v);
                if bytes.len() > i32::MAX {
                    None
                } else {
                    let x = if h {
                        cursor
                    } else {
                        padding
                    };
                    let y = if h {
                        padding
                    } else {
                        cursor
                    };
                    let s1 = with_entry(
                        with_code(st, text_code(st.scratch, x, y, bytes)),
                        entry(
                            "text"@,
                            st.instrs.len() as int,
                            seq![("x"@, PropView::Int(x)), ("y"@, PropView::Int(y)), ("value"@, PropView::Text(v))],
                        ),
                    );
                    let main = if h {
                        bytes.len() * 8
                    } else {
                        16
                    };
                    let next = cursor + main + gap;
                    if !fits_i32(next) {
                        None
                    } else {
                        gen_items(items, k + 1, next as i32, h, gap, padding, s1)
                    }
                }
            },
            _ => None,
        }
    }
}

/// The statements `ns[j..]`.
pub open spec fn gen_stmts(ns: Seq<NodeView>, j: int, st: EmView, tv: TableView) -> Option<EmView>
    decreases ns, ns.len() - j,
{
    if j < 0 || j >= ns.len() {
        Some(st)
    } else {
        match gen_node(ns[j], st, tv) {
            Some(s1) => gen_stmts(ns, j + 1, s1, tv),
            None => None,
        }
    }
}

/// A box child of a group is drawn at its resolved position: generating the
/// children from the `k`th on, with the `k`th a box, is generating its box
/// code at `position(k)` and then the rest.
pub proof fn lemma_box_child_at_position(
    ch: Seq<NodeView>,
    k: int,
    dims: Seq<(int, int)>,
    h: bool,
    gap: int,
    padding: int,
    al: Anchor,
    ju: Anchor,
    st: EmView,
    tv: TableView,
)
    requires
        0 <= k < ch.len(),
        ch[k] is Box,
    ensures
        ({
            let p = position(dims, k, h, gap, padding, al, ju);
            gen_children(ch, k, dims, h, gap, padding, al, ju, st, tv) == gen_children(
                ch,
                k + 1,
                dims,
                h,
                gap,
                padding,
                al,
                ju,
                box_step(st, p.0 as i32, p.1 as i32, ch[k]->Box_width, ch[k]->Box_height),
                tv,
            )
        }),
{
}

/// In a group with `justify = "start"` whose first child is a box, that box
/// is drawn right after the group's allocation, at main-axis offset
/// `padding`: x when the group is horizontal, y otherwise.
pub proof fn lemma_group_start_first_box(
    direction: Seq<char>,
    gap: i32,
    align: Seq<char>,
    padding: i32,
    children: Seq<NodeView>,
    st: EmView,
    tv: TableView,
)
    requires
        children.len() > 0,
        children[0] is Box,
    ensures
        ({
            let h = direction == "horizontal"@;
            let dims = extents_v(children, h);
            let al = anchor_of(align);
            let p = position(dims, 0, h, gap as int, padding as int, al, Anchor::Start);
            let n = NodeView::Group { direction, gap, align, justify: "start"@, padding, children };
            &&& (if h {
                p.0 == padding
            } else {
                p.1 == padding
            })
            &&& placeable(dims, h, gap as int, padding as int, al, Anchor::Start) ==> gen_node(n, st, tv) == match gen_children(
                children,
                1,
                dims,
                h,
                gap as int,
                padding as int,
                al,
                Anchor::Start,
                box_step(
                    with_code(st, group_head(st.scratch)),
                    p.0 as i32,
                    p.1 as i32,
                    children[0]->Box_width,
                    children[0]->Box_height,
                ),
                tv,
            ) {
                Some(s2) => Some(
                    with_entry(
                        s2,
                        entry(
                            "group"@,
                            st.instrs.len() as int,
                            seq![
                                ("direction"@, PropView::Text(direction)),
                                ("gap"@, PropView::Int(gap)),
                                ("padding"@, PropView::Int(padding)),
                                ("align"@, PropView::Text(align)),
                                ("justify"@, PropView::Text("start"@)),
                            ],
                        ),
                    ),
                ),
                None => None,
            }
        }),
{
    let h = direction == "horizontal"@;
    let dims = extents_v(children, h);
    reveal_strlit("start");
    assert(anchor_of("start"@) == Anchor::Start);
    lemma_start_at_padding(dims, h, gap as int, padding as int, anchor_of(align));
    lemma_box_child_at_position(
        children,
        0,
        dims,
        h,
        gap as int,
        padding as int,
        anchor_of(align),
        Anchor::Start,
        with_code(st, group_head(st.scratch)),
        tv,
    );
}

/// In a group (horizontal when `horizontal`) with `justify = "space-between"`
/// of two or more children whose
/// main extents are positive and add up to at most the container size, the
/// boxes `k` and `k + 1`, each drawn at its resolved position (see
/// `lemma_box_child_at_position`), lie in increasing main-axis order.
pub proof fn lemma_group_space_between_boxes(
    horizontal: bool,
    gap: i32,
    align: Seq<char>,
    padding: i32,
    children: Seq<NodeView>,
    k: int,
)
    requires
        children.len() >= 2,
        0 <= k < children.len() - 1,
        forall|j: int| 0 <= j < children.len() ==> #[trigger] extents_v(children, horizontal)[j].0 > 0,
        total_main(extents_v(children, horizontal), gap as int) - gap * (children.len() - 1)
            <= CONTAINER_SIZE,
    ensures
        ({
            let h = horizontal;
            let dims = extents_v(children, h);
            let a = position(dims, k, h, gap as int, padding as int, anchor_of(align), Anchor::SpaceBetween);
            let b = position(dims, k + 1, h, gap as int, padding as int, anchor_of(align), Anchor::SpaceBetween);
            if h {
                a.0 < b.0
            } else {
                a.1 < b.1
            }
        }),
{
    let h = horizontal;
    lemma_space_between_increasing(extents_v(children, h), h, gap as int, padding as int, anchor_of(align), k);
}

} // verus!
