//! The layout resolver: concrete positions for the children of a container.
//!
//! A measure pass gives each child a main-axis and a cross-axis extent; a
//! placement pass anchors the children inside a fixed 300 unit container.
use vstd::prelude::*;
use vstd::utf8::*;
use crate::ast::{Expr, Node};
use crate::parser::is_word;

verus! {

/// The fixed size of a container along both axes.
pub const CONTAINER_SIZE: i32 = 300;

/// Width of one byte of text.
pub const CHAR_WIDTH: i32 = 8;

/// Height of a line of text.
pub const TEXT_HEIGHT: i32 = 16;

/// Width given to a text whose value is not known before it runs.
pub const UNKNOWN_TEXT_WIDTH: i32 = 999;

/// Extent given to an element of another kind, along both axes.
pub const FALLBACK_EXTENT: i32 = 50;

/// Largest extent, child count and position the placement pass accepts.
pub const EXTENT_LIMIT: i128 = 1099511627776;

/// Where a run of children, or one child across the main axis, is anchored.
#[derive(Debug, Clone, Copy, PartialEq, Eq, Structural)]
pub enum Anchor {
    Start,
    Center,
    End,
    SpaceBetween,
    /// Any other word, which anchors as `Start` does.
    Other,
}

/// Errors of the layout resolver.
#[derive(Debug, Clone, Copy, PartialEq, Eq, Structural)]
pub enum LayoutError {
    /// An extent, the child count or a position is beyond what the resolver
    /// or a 32-bit coordinate can hold.
    Overflow,
}

/// The anchor that a word names.
pub open spec fn anchor_of(w: Seq<char>) -> Anchor {
    if w == "start"@ {
        Anchor::Start
    } else if w == "center"@ {
        Anchor::Center
    } else if w == "end"@ {
        Anchor::End
    } else if w == "space-between"@ {
        Anchor::SpaceBetween
    } else {
        Anchor::Other
    }
}

/// Reads an alignment or justification word.
pub fn parse_anchor(w: &String) -> (r: Anchor)
    ensures
        r == anchor_of(w@),
{
    if is_word(w, "start") {
        Anchor::Start
    } else if is_word(w, "center") {
        Anchor::Center
    } else if is_word(w, "end") {
        Anchor::End
    } else if is_word(w, "space-between") {
        Anchor::SpaceBetween
    } else {
        Anchor::Other
    }
}

/// The number of UTF-8 bytes of a text.
pub open spec fn byte_len(s: Seq<char>) -> int {
    encode_utf8(s).len() as int
}

/// The intrinsic (width, height) of a child.
pub open spec fn intrinsic_size(child: Node) -> (int, int) {
    match child {
        Node::Box { width, height, .. } => (width as int, height as int),
        Node::Text { value, .. } => match value {
            Expr::StringLiteral(s) => (byte_len(s@) * CHAR_WIDTH, TEXT_HEIGHT as int),
            _ => (UNKNOWN_TEXT_WIDTH as int, TEXT_HEIGHT as int),
        },
        _ => (FALLBACK_EXTENT as int, FALLBACK_EXTENT as int),
    }
}

/// The (main, cross) extent of a child: width is the main axis of a
/// horizontal container, height of any other.
pub open spec fn extent_of(child: Node, horizontal: bool) -> (int, int) {
    let (w, h) = intrinsic_size(child);
    if horizontal {
        (w, h)
    } else {
        (h, w)
    }
}

/// Measures one child.
pub fn measure(child: &Node, horizontal: bool) -> (r: (i128, i128))
    ensures
        (r.0 as int, r.1 as int) == extent_of(*child, horizontal),
{
    let (w, h): (i128, i128) = match child {
        Node::Box { width, height, .. } => (*width as i128, *height as i128),
        Node::Text { value, .. } => match value {
            Expr::StringLiteral(s) => {
                let n = s.as_str().as_bytes().len();
                (n as i128 * 8, 16)
            },
            _ => (999, 16),
        },
        _ => (50, 50),
    };
    if horizontal {
        (w, h)
    } else {
        (h, w)
    }
}

/// Division that rounds toward zero, as the generated arithmetic does.
pub open spec fn trunc_div(a: int, b: int) -> int {
    if a >= 0 {
        a / b
    } else {
        -((-a) / b)
    }
}

fn div_toward_zero(a: i128, b: i128) -> (r: i128)
    requires
        b > 0,
        a > i128::MIN,
    ensures
        r == trunc_div(a as int, b as int),
{
    if a >= 0 {
        a / b
    } else {
        -((-a) / b)
    }
}

/// The sum of `main + gap` over the children.
pub open spec fn sum_with_gaps(dims: Seq<(int, int)>, gap: int) -> int
    decreases dims.len(),
{
    if dims.len() == 0 {
        0
    } else {
        sum_with_gaps(dims.drop_last(), gap) + dims.last().0 + gap
    }
}

/// The main-axis extent of all children with one gap between neighbours.
pub open spec fn total_main(dims: Seq<(int, int)>, gap: int) -> int {
    if dims.len() == 0 {
        0
    } else {
        sum_with_gaps(dims, gap) - gap
    }
}

/// The main-axis offset of the first child.
pub open spec fn start_offset(dims: Seq<(int, int)>, gap: int, padding: int, justify: Anchor) -> int {
    let total = total_main(dims, gap);
    match justify {
        Anchor::Center => trunc_div(CONTAINER_SIZE - total, 2),
        Anchor::End => CONTAINER_SIZE - total - padding,
        _ => padding,
    }
}

/// The distance between one child's end and the next child's start.
pub open spec fn spacing(dims: Seq<(int, int)>, gap: int, justify: Anchor) -> int {
    let n = dims.len() as int;
    if justify == Anchor::SpaceBetween && n > 1 {
        trunc_div(CONTAINER_SIZE - total_main(dims, gap) + gap * (n - 1), n - 1)
    } else {
        gap
    }
}

/// The main-axis offset of child `k`.
pub open spec fn main_offset(dims: Seq<(int, int)>, k: int, start: int, space: int) -> int
    decreases k,
{
    if k <= 0 {
        start
    } else {
        main_offset(dims, k - 1, start, space) + dims[k - 1].0 + space
    }
}

/// The cross-axis offset of a child of the given cross extent.
pub open spec fn cross_offset(cross: int, padding: int, align: Anchor) -> int {
    match align {
        Anchor::Center => trunc_div(CONTAINER_SIZE - cross, 2),
        Anchor::End => CONTAINER_SIZE - cross - padding,
        _ => padding,
    }
}

/// The (x, y) position of child `k`.
pub open spec fn position(
    dims: Seq<(int, int)>,
    k: int,
    horizontal: bool,
    gap: int,
    padding: int,
    align: Anchor,
    justify: Anchor,
) -> (int, int) {
    let main = main_offset(dims, k, start_offset(dims, gap, padding, justify), spacing(dims, gap, justify));
    let cross = cross_offset(dims[k].1, padding, align);
    if horizontal {
        (main, cross)
    } else {
        (cross, main)
    }
}

/// The extents as integers.
pub open spec fn dims_view(dims: Seq<(i128, i128)>) -> Seq<(int, int)> {
    dims.map_values(|d: (i128, i128)| (d.0 as int, d.1 as int))
}

pub open spec fn fits_i32(v: int) -> bool {
    i32::MIN <= v <= i32::MAX
}

/// The inputs stay within what the resolver computes with, and every
/// resulting coordinate fits in 32 bits.
pub open spec fn placeable(
    dims: Seq<(int, int)>,
    horizontal: bool,
    gap: int,
    padding: int,
    align: Anchor,
    justify: Anchor,
) -> bool {
    &&& dims.len() <= EXTENT_LIMIT
    &&& forall|k: int|
        0 <= k < dims.len() ==> -EXTENT_LIMIT <= #[trigger] dims[k].0 <= EXTENT_LIMIT && -EXTENT_LIMIT
            <= dims[k].1 <= EXTENT_LIMIT
    &&& forall|k: int|
        0 <= k < dims.len() ==> #[trigger] position_fits(dims, k, horizontal, gap, padding, align, justify)
}

/// Both coordinates of child `k` fit in 32 bits.
pub open spec fn position_fits(
    dims: Seq<(int, int)>,
    k: int,
    horizontal: bool,
    gap: int,
    padding: int,
    align: Anchor,
    justify: Anchor,
) -> bool {
    let p = position(dims, k, horizontal, gap, padding, align, justify);
    fits_i32(p.0) && fits_i32(p.1)
}

/// Bound of the step between two neighbours.
pub const STEP_LIMIT: i128 = 9671406556917033397649408;

proof fn lemma_gap_product(gap: int, m: int)
    requires
        -2147483648 <= gap <= 2147483647,
        0 <= m <= EXTENT_LIMIT,
    ensures
        -2147483648 * EXTENT_LIMIT <= gap * m <= 2147483648 * EXTENT_LIMIT,
{
    assert(-2147483648 * m <= gap * m <= 2147483648 * m) by (nonlinear_arith)
        requires
            -2147483648 <= gap <= 2147483647,
            0 <= m,
    ;
}

proof fn lemma_div_bound(a: int, b: int, bound: int)
    requires
        b > 0,
        -bound <= a <= bound,
    ensures
        -bound <= trunc_div(a, b) <= bound,
{
    if a >= 0 {
        assert(a / b <= a) by (nonlinear_arith)
            requires
                a >= 0,
                b > 0,
        ;
        assert(a / b >= 0) by (nonlinear_arith)
            requires
                a >= 0,
                b > 0,
        ;
    } else {
        let c = -a;
        assert(c / b <= c) by (nonlinear_arith)
            requires
                c >= 0,
                b > 0,
        ;
        assert(c / b >= 0) by (nonlinear_arith)
            requires
                c >= 0,
                b > 0,
        ;
    }
}

/// Places children of the given (main, cross) extents: the `k`th result is
/// `position(k)`. Fails exactly when the inputs are beyond the resolver's
/// limits or a coordinate does not fit in 32 bits.
pub fn place(
    dims: &Vec<(i128, i128)>,
    horizontal: bool,
    gap: i32,
    padding: i32,
    align: Anchor,
    justify: Anchor,
) -> (r: Result<Vec<(i32, i32)>, LayoutError>)
    ensures
        r is Ok <==> placeable(dims_view(dims@), horizontal, gap as int, padding as int, align, justify),
        r matches Ok(ps) ==> ps@.len() == dims@.len() && forall|k: int|
            0 <= k < ps@.len() ==> (#[trigger] ps@[k].0 as int, ps@[k].1 as int) == position(
                dims_view(dims@),
                k,
                horizontal,
                gap as int,
                padding as int,
                align,
                justify,
            ),
{
    let ghost d = dims_view(dims@);
    let n = dims.len();
    if n as i128 > EXTENT_LIMIT {
        return Err(LayoutError::Overflow);
    }
    let mut acc: i128 = 0;
    let mut k: usize = 0;
    while k < n
        invariant
            n == dims@.len(),
            d == dims_view(dims@),
            n <= EXTENT_LIMIT,
            k <= n,
            forall|j: int| 0 <= j < k ==> -EXTENT_LIMIT <= #[trigger] d[j].0 <= EXTENT_LIMIT
                && -EXTENT_LIMIT <= d[j].1 <= EXTENT_LIMIT,
            acc == sum_with_gaps(d.subrange(0, k as int), gap as int),
            -(k as int) * 1101659111424 <= acc <= (k as int) * 1101659111424,
        decreases n - k,
    {
        let (m, c) = dims[k];
        assert(d[k as int] == (m as int, c as int));
        if m < -EXTENT_LIMIT || m > EXTENT_LIMIT || c < -EXTENT_LIMIT || c > EXTENT_LIMIT {
            return Err(LayoutError::Overflow);
        }
        assert((k as int) * 1101659111424 <= 1211287002856063997313024) by (nonlinear_arith)
            requires
                k <= 1099511627776,
        ;
        acc = acc + m + gap as i128;
        proof {
            assert(d.subrange(0, k + 1).drop_last() =~= d.subrange(0, k as int));
        }
        k += 1;
    }
    assert(d.subrange(0, n as int) =~= d);
    let total: i128 = if n == 0 {
        0
    } else {
        acc - gap as i128
    };
    assert(total == total_main(d, gap as int));
    let start: i128 = match justify {
        Anchor::Center => div_toward_zero(300 - total, 2),
        Anchor::End => 300 - total - padding as i128,
        _ => padding as i128,
    };
    let space: i128 = if justify == Anchor::SpaceBetween && n > 1 {
        proof {
            lemma_gap_product(gap as int, n - 1);
        }
        div_toward_zero(300 - total + gap as i128 * (n as i128 - 1), n as i128 - 1)
    } else {
        gap as i128
    };
    proof {
        if justify == Anchor::SpaceBetween && n > 1 {
            lemma_gap_product(gap as int, n - 1);
            lemma_div_bound(300 - total + gap * (n - 1), n - 1, STEP_LIMIT as int);
        }
        if justify == Anchor::Center {
            lemma_div_bound(300 - total, 2, STEP_LIMIT as int);
        }
    }
    assert(start == start_offset(d, gap as int, padding as int, justify));
    assert(space == spacing(d, gap as int, justify));
    let mut out: Vec<(i32, i32)> = Vec::new();
    let mut off: i128 = start;
    let mut k: usize = 0;
    while k < n
        invariant
            n == dims@.len(),
            d == dims_view(dims@),
            n <= EXTENT_LIMIT,
            k <= n,
            forall|j: int| 0 <= j < n ==> -EXTENT_LIMIT <= #[trigger] d[j].0 <= EXTENT_LIMIT
                && -EXTENT_LIMIT <= d[j].1 <= EXTENT_LIMIT,
            start == start_offset(d, gap as int, padding as int, justify),
            space == spacing(d, gap as int, justify),
            -STEP_LIMIT <= space <= STEP_LIMIT,
            -STEP_LIMIT <= start <= STEP_LIMIT,
            off == main_offset(d, k as int, start as int, space as int),
            k == 0 || fits_i32(off - d[k - 1].0 - space),
            out@.len() == k,
            forall|j: int|
                0 <= j < k ==> (#[trigger] out@[j].0 as int, out@[j].1 as int) == position(
                    d,
                    j,
                    horizontal,
                    gap as int,
                    padding as int,
                    align,
                    justify,
                ),
        decreases n - k,
    {
        let (m, c) = dims[k];
        assert(d[k as int] == (m as int, c as int));
        let cross: i128 = match align {
            Anchor::Center => div_toward_zero(300 - c, 2),
            Anchor::End => 300 - c - padding as i128,
            _ => padding as i128,
        };
        proof {
            if align == Anchor::Center {
                lemma_div_bound(300 - c, 2, STEP_LIMIT as int);
            }
        }
        assert(cross == cross_offset(d[k as int].1, padding as int, align));
        if off < -2147483648 || off > 2147483647 || cross < -2147483648 || cross > 2147483647 {
            proof {
                assert(!fits_i32(position(d, k as int, horizontal, gap as int, padding as int, align, justify).0)
                    || !fits_i32(position(d, k as int, horizontal, gap as int, padding as int, align, justify).1));
                assert(!position_fits(d, k as int, horizontal, gap as int, padding as int, align, justify));
            }
            return Err(LayoutError::Overflow);
        }
        if horizontal {
            out.push((off as i32, cross as i32));
        } else {
            out.push((cross as i32, off as i32));
        }
        off = off + m + space;
        k += 1;
    }
    proof {
        assert forall|j: int|
            0 <= j < n implies #[trigger] position_fits(d, j, horizontal, gap as int, padding as int, align, justify) by {
            assert((out@[j].0 as int, out@[j].1 as int) == position(d, j, horizontal, gap as int, padding as int, align, justify));
        }
    }
    Ok(out)
}

/// With `justify = "start"` the first child's main-axis offset is the
/// padding.
pub proof fn lemma_start_at_padding(dims: Seq<(int, int)>, horizontal: bool, gap: int, padding: int, align: Anchor)
    requires
        dims.len() > 0,
    ensures
        ({
            let p = position(dims, 0, horizontal, gap, padding, align, Anchor::Start);
            if horizontal {
                p.0 == padding
            } else {
                p.1 == padding
            }
        }),
{
}

/// With `justify = "space-between"` and two or more children whose main
/// extents are positive and add up to at most the container size, the
/// children's main-axis offsets strictly increase.
pub proof fn lemma_space_between_increasing(
    dims: Seq<(int, int)>,
    horizontal: bool,
    gap: int,
    padding: int,
    align: Anchor,
    k: int,
)
    requires
        dims.len() >= 2,
        0 <= k < dims.len() - 1,
        forall|j: int| 0 <= j < dims.len() ==> #[trigger] dims[j].0 > 0,
        total_main(dims, gap) - gap * (dims.len() - 1) <= CONTAINER_SIZE,
    ensures
        ({
            let a = position(dims, k, horizontal, gap, padding, align, Anchor::SpaceBetween);
            let b = position(dims, k + 1, horizontal, gap, padding, align, Anchor::SpaceBetween);
            if horizontal {
                a.0 < b.0
            } else {
                a.1 < b.1
            }
        }),
{
    let n = dims.len() as int;
    let num = CONTAINER_SIZE - total_main(dims, gap) + gap * (n - 1);
    assert(num >= 0);
    assert(num / (n - 1) >= 0) by (nonlinear_arith)
        requires
            num >= 0,
            n - 1 > 0,
    ;
}

} // verus!
