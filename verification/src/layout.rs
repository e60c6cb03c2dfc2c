//! The layout engine: a closed set of node kinds, each able to measure
//! itself under constraints, split across a page boundary, and render into
//! a page. All lengths are fixed-point milli-points; `FX_MAX` stands for an
//! unbounded constraint.
use vstd::prelude::*;
use crate::fx::{fx_ok, fx_clamp, fx_add, fx_sub, fx_sub_floor, fx_max, fx_min, fx_mul_count, fx_frac, FX_MAX};
use crate::font::{Font, measure_of};
use crate::text::{
    words_of, line_count_of, leading_of, leading, calculate_text_lines, split_at_lines_spec,
    split_text_at_lines,
};
use crate::table::{Table, row_height_of, rows_view, cols_width_upto, table_y_after};
use crate::color::Color;
use crate::page::Page;
use crate::chars::{str_to_chars, string_from_chars};
use crate::fx::fx_div_count;

verus! {

/// The page numbers a render runs under: the current page and the total.
#[derive(Clone, Copy)]
pub struct PageContext {
    pub current: usize,
    pub total: usize,
}

impl PageContext {
    /// Page 1 of 1.
    pub fn single() -> (r: PageContext)
        ensures
            r.current == 1,
            r.total == 1,
    {
        PageContext { current: 1, total: 1 }
    }
}

/// A measured extent.
#[derive(Clone, Copy)]
pub struct Size {
    pub width: i64,
    pub height: i64,
}

/// A placement area; `y` is the top edge, layout flows downward.
#[derive(Clone, Copy)]
pub struct Rect {
    pub x: i64,
    pub y: i64,
    pub width: i64,
    pub height: i64,
}

/// Measurement constraints. `FX_MAX` means unbounded.
#[derive(Clone, Copy)]
pub struct Constraints {
    pub min_width: i64,
    pub max_width: i64,
    pub min_height: i64,
    pub max_height: i64,
}

impl Constraints {
    /// All bounds are in the fixed-point range and non-negative.
    pub open spec fn wf(&self) -> bool {
        &&& 0 <= self.min_width <= FX_MAX
        &&& 0 <= self.max_width <= FX_MAX
        &&& 0 <= self.min_height <= FX_MAX
        &&& 0 <= self.max_height <= FX_MAX
    }

    /// No lower bounds, the given upper bounds.
    pub fn loose(width: i64, height: i64) -> (r: Constraints)
        requires
            0 <= width <= FX_MAX,
            0 <= height <= FX_MAX,
        ensures
            r == spec_loose(width as int, height as int),
            r.wf(),
    {
        Constraints { min_width: 0, max_width: width, min_height: 0, max_height: height }
    }
}

/// The loose constraints with the given maxima.
pub open spec fn spec_loose(width: int, height: int) -> Constraints {
    Constraints {
        min_width: 0int as i64,
        max_width: width as i64,
        min_height: 0int as i64,
        max_height: height as i64,
    }
}

/// A node of the layout tree.
pub enum LayoutNode {
    Column { children: Vec<LayoutNode>, spacing: i64 },
    Row { children: Vec<LayoutNode>, spacing: i64 },
    TextNode { text: String, size: i64, color: Option<Color>, background_color: Option<Color> },
    Container { child: Box<LayoutNode>, padding: i64, border_width: i64 },
    ImageNode { image_index: u32, width: i64, height: i64 },
    TableNode { table: Table },
    PageNumberNode { format: String, size: i64, align: String },
}

/// The outcome of asking a node to fit into an available box.
pub enum SplitAction {
    /// The node fits entirely.
    Fit,
    /// The node does not fit and cannot be broken: move it to the next page.
    Push,
    /// A head that fits now and a tail for the next page.
    Split(Box<LayoutNode>, Box<LayoutNode>),
}

impl LayoutNode {
    /// Sizes are in range throughout the tree.
    pub open spec fn wf(&self) -> bool
        decreases self,
    {
        match self {
            LayoutNode::Column { children, spacing } => {
                &&& 0 <= *spacing <= FX_MAX
                &&& forall|k: int| 0 <= k < children@.len() ==> (#[trigger] children@[k]).wf()
            },
            LayoutNode::Row { children, spacing } => {
                &&& 0 <= *spacing <= FX_MAX
                &&& forall|k: int| 0 <= k < children@.len() ==> (#[trigger] children@[k]).wf()
            },
            LayoutNode::TextNode { size, color, background_color, .. } => {
                &&& 0 < *size <= FX_MAX
                &&& (color matches Some(c) ==> c.wf())
                &&& (background_color matches Some(c) ==> c.wf())
            },
            LayoutNode::Container { child, padding, border_width } => {
                &&& 0 <= *padding <= FX_MAX
                &&& 0 <= *border_width <= FX_MAX
                &&& child.wf()
            },
            LayoutNode::ImageNode { width, height, .. } => {
                &&& 0 <= *width <= FX_MAX
                &&& 0 <= *height <= FX_MAX
            },
            LayoutNode::TableNode { table } => table.wf(),
            LayoutNode::PageNumberNode { size, .. } => 0 < *size <= FX_MAX,
        }
    }

}

/// The abstract value of a layout node: the same tree over sequences and
/// unbounded integers, so that contracts can speak of rebuilt trees.
pub enum NodeV {
    ColumnV { children: Seq<NodeV>, spacing: int },
    RowV { children: Seq<NodeV>, spacing: int },
    TextV { text: Seq<char>, size: int, color: Option<Color>, background_color: Option<Color> },
    ContainerV { child: Box<NodeV>, padding: int, border_width: int },
    ImageV { image_index: u32, width: int, height: int },
    TableNodeV { table: crate::table::TableV },
    PageNumberV { format: Seq<char>, size: int, align: Seq<char> },
}

/// The views of a child list.
pub open spec fn children_views(cs: Seq<LayoutNode>) -> Seq<NodeV>
    decreases cs,
{
    if cs.len() == 0 {
        Seq::empty()
    } else {
        children_views(cs.drop_last()).push(node_view(cs.last()))
    }
}

/// Child views line up with the children.
pub proof fn lemma_children_views(cs: Seq<LayoutNode>)
    ensures
        children_views(cs).len() == cs.len(),
        forall|i: int|
            0 <= i < cs.len() ==> children_views(cs)[i] == node_view(#[trigger] cs[i]),
    decreases cs,
{
    if cs.len() > 0 {
        lemma_children_views(cs.drop_last());
        assert forall|i: int|
            0 <= i < cs.len() implies children_views(cs)[i] == node_view(#[trigger] cs[i]) by {
            if i < cs.len() - 1 {
                assert(children_views(cs.drop_last())[i] == node_view(cs.drop_last()[i]));
                assert(cs.drop_last()[i] == cs[i]);
            }
        }
    }
}

/// The abstract value of a node.
pub open spec fn node_view(n: LayoutNode) -> NodeV
    decreases n,
{
    match n {
        LayoutNode::Column { children, spacing } => NodeV::ColumnV {
            children: children_views(children@),
            spacing: spacing as int,
        },
        LayoutNode::Row { children, spacing } => NodeV::RowV {
            children: children_views(children@),
            spacing: spacing as int,
        },
        LayoutNode::TextNode { text, size, color, background_color } => NodeV::TextV {
            text: text@,
            size: size as int,
            color,
            background_color,
        },
        LayoutNode::Container { child, padding, border_width } => NodeV::ContainerV {
            child: Box::new(node_view(*child)),
            padding: padding as int,
            border_width: border_width as int,
        },
        LayoutNode::ImageNode { image_index, width, height } => NodeV::ImageV {
            image_index,
            width: width as int,
            height: height as int,
        },
        LayoutNode::TableNode { table } => NodeV::TableNodeV { table: crate::table::table_v(table) },
        LayoutNode::PageNumberNode { format, size, align } => NodeV::PageNumberV {
            format: format@,
            size: size as int,
            align: align@,
        },
    }
}

/// The termination weight of a node: one for itself plus its words, rows,
/// or children. Splitting always leaves a strictly lighter tail.
pub open spec fn weight_v(n: NodeV) -> nat
    decreases n,
{
    match n {
        NodeV::ColumnV { children, .. } => 1 + weight_sum(children),
        NodeV::RowV { children, .. } => 1 + weight_sum(children),
        NodeV::TextV { text, .. } => 1 + words_of(text).len(),
        NodeV::ContainerV { child, .. } => 1 + weight_v(*child),
        NodeV::ImageV { .. } => 1nat,
        NodeV::TableNodeV { table } => 1 + table.rows.len(),
        NodeV::PageNumberV { .. } => 1nat,
    }
}

/// The summed weight of a child list.
pub open spec fn weight_sum(cs: Seq<NodeV>) -> nat
    decreases cs,
{
    if cs.len() == 0 {
        0
    } else {
        weight_sum(cs.drop_last()) + weight_v(cs.last())
    }
}

/// Substitution of `{page}` and `{total}` placeholders.
pub open spec fn subst_placeholders(s: Seq<char>, page: Seq<char>, total: Seq<char>) -> Seq<char>
    decreases s.len(),
{
    if s.len() == 0 {
        Seq::empty()
    } else if s.len() >= 6 && s.subrange(0, 6) == seq!['{', 'p', 'a', 'g', 'e', '}'] {
        page + subst_placeholders(s.skip(6), page, total)
    } else if s.len() >= 7 && s.subrange(0, 7) == seq!['{', 't', 'o', 't', 'a', 'l', '}'] {
        total + subst_placeholders(s.skip(7), page, total)
    } else {
        seq![s[0]] + subst_placeholders(s.drop_first(), page, total)
    }
}

/// Replace `{page}` and `{total}` in a format string.
pub fn subst_format(format: &str, page: &str, total: &str) -> (r: String)
    ensures
        r@ == subst_placeholders(format@, page@, total@),
{
    let cs = str_to_chars(format);
    let pc = str_to_chars(page);
    let tc = str_to_chars(total);
    let mut out: Vec<char> = Vec::new();
    let mut i: usize = 0;
    proof {
        assert(cs@.skip(0) =~= cs@);
        assert(out@ + subst_placeholders(cs@, page@, total@) =~= subst_placeholders(
            cs@,
            page@,
            total@,
        ));
    }
    while i < cs.len()
        invariant
            0 <= i <= cs@.len(),
            cs@ == format@,
            pc@ == page@,
            tc@ == total@,
            subst_placeholders(format@, page@, total@) == out@ + subst_placeholders(
                cs@.skip(i as int),
                page@,
                total@,
            ),
        decreases cs@.len() - i,
    {
        let ghost rem = cs@.skip(i as int);
        if cs.len() - i >= 6 && cs[i] == '{' && cs[i + 1] == 'p' && cs[i + 2] == 'a' && cs[i + 3]
            == 'g' && cs[i + 4] == 'e' && cs[i + 5] == '}' {
            proof {
                assert(rem.subrange(0, 6) =~= seq!['{', 'p', 'a', 'g', 'e', '}']);
                assert(rem.skip(6) =~= cs@.skip(i as int + 6));
            }
            let mut p2 = crate::writer::clone_bytes_chars(&pc);
            out.append(&mut p2);
            i = i + 6;
        } else if cs.len() - i >= 7 && cs[i] == '{' && cs[i + 1] == 't' && cs[i + 2] == 'o' && cs[i
            + 3] == 't' && cs[i + 4] == 'a' && cs[i + 5] == 'l' && cs[i + 6] == '}' {
            proof {
                assert(rem.subrange(0, 7) =~= seq!['{', 't', 'o', 't', 'a', 'l', '}']);
                assert(rem.skip(7) =~= cs@.skip(i as int + 7));
                if rem.len() >= 6 && rem.subrange(0, 6) == seq!['{', 'p', 'a', 'g', 'e', '}'] {
                    assert(rem.subrange(0, 6)[1] == 'p');
                    assert(rem[1] == 't');
                }
            }
            let mut t2 = crate::writer::clone_bytes_chars(&tc);
            out.append(&mut t2);
            i = i + 7;
        } else {
            proof {
                if rem.len() >= 6 && rem.subrange(0, 6) == seq!['{', 'p', 'a', 'g', 'e', '}'] {
                    assert(rem[0] == '{' && rem[1] == 'p' && rem[2] == 'a' && rem[3] == 'g'
                        && rem[4] == 'e' && rem[5] == '}');
                    assert(cs@[i as int] == '{' && cs@[i as int + 1] == 'p');
                    assert(false);
                }
                if rem.len() >= 7 && rem.subrange(0, 7) == seq!['{', 't', 'o', 't', 'a', 'l', '}'] {
                    assert(rem[0] == '{' && rem[1] == 't' && rem[2] == 'o' && rem[3] == 't'
                        && rem[4] == 'a' && rem[5] == 'l' && rem[6] == '}');
                    assert(false);
                }
                assert(rem.drop_first() =~= cs@.skip(i as int + 1));
            }
            out.push(cs[i]);
            i = i + 1;
        }
    }
    proof {
        assert(cs@.skip(cs@.len() as int) =~= Seq::<char>::empty());
        assert(out@ =~= subst_placeholders(format@, page@, total@));
    }
    string_from_chars(&out)
}

} // verus!

verus! {



/// Spec-level maximum.
pub open spec fn imax(a: int, b: int) -> int {
    if a >= b {
        a
    } else {
        b
    }
}

/// Spec-level minimum.
pub open spec fn imin(a: int, b: int) -> int {
    if a <= b {
        a
    } else {
        b
    }
}

/// Subtraction floored at zero.
pub open spec fn sfloor(a: int, b: int) -> int {
    if a - b > 0 {
        a - b
    } else {
        0
    }
}

/// The widest child of a column prefix.
pub open spec fn col_w(data: Seq<u8>, cs: Seq<NodeV>, c: Constraints) -> int
    decreases cs,
{
    if cs.len() == 0 {
        0
    } else {
        imax(col_w(data, cs.drop_last(), c), measure_spec(data, cs.last(), c).width as int)
    }
}

/// The stacked height of a column prefix: every child plus one spacing.
pub open spec fn col_h(data: Seq<u8>, cs: Seq<NodeV>, spacing: int, c: Constraints) -> int
    decreases cs,
{
    if cs.len() == 0 {
        0
    } else {
        fx_clamp(
            col_h(data, cs.drop_last(), spacing, c) + fx_clamp(
                measure_spec(data, cs.last(), c).height + spacing,
            ),
        )
    }
}

/// The summed width of a row prefix: every child plus one spacing.
pub open spec fn row_w(data: Seq<u8>, cs: Seq<NodeV>, spacing: int, c: Constraints) -> int
    decreases cs,
{
    if cs.len() == 0 {
        0
    } else {
        fx_clamp(
            row_w(data, cs.drop_last(), spacing, c) + fx_clamp(
                measure_spec(data, cs.last(), c).width + spacing,
            ),
        )
    }
}

/// The tallest child of a row prefix.
pub open spec fn row_h(data: Seq<u8>, cs: Seq<NodeV>, c: Constraints) -> int
    decreases cs,
{
    if cs.len() == 0 {
        0
    } else {
        imax(row_h(data, cs.drop_last(), c), measure_spec(data, cs.last(), c).height as int)
    }
}

/// The drawn height of a table prefix: the header band plus each row.
pub open spec fn table_h_upto(data: Seq<u8>, t: crate::table::TableV, k: int) -> int
    decreases k,
{
    if k <= 0 {
        t.settings.header_height as int
    } else {
        fx_clamp(
            table_h_upto(data, t, k - 1) + row_height_of(
                data,
                t.rows[k - 1],
                t.columns,
                t.settings.padding as int,
                t.settings.font_size as int,
            ),
        )
    }
}

/// The measured width of a text under a width bound: its unwrapped width,
/// clipped to the bound when the bound is finite.
pub open spec fn text_width_spec(data: Seq<u8>, text: Seq<char>, size: int, c: Constraints) -> int {
    let raw = crate::font::measure_of(data, text, size);
    if c.max_width < FX_MAX {
        imin(raw, c.max_width as int)
    } else {
        raw
    }
}

/// What `measure` returns: the node's desired size under the constraints.
pub open spec fn measure_spec(data: Seq<u8>, n: NodeV, c: Constraints) -> Size
    decreases n,
{
    match n {
        NodeV::ColumnV { children, spacing } => {
            let h0 = col_h(data, children, spacing, c);
            let h = if children.len() > 0 {
                fx_clamp(h0 - spacing)
            } else {
                h0
            };
            Size {
                width: imax(col_w(data, children, c), c.min_width as int) as i64,
                height: h as i64,
            }
        },
        NodeV::RowV { children, spacing } => {
            let w0 = row_w(data, children, spacing, c);
            let w = if children.len() > 0 {
                fx_clamp(w0 - spacing)
            } else {
                w0
            };
            Size { width: w as i64, height: row_h(data, children, c) as i64 }
        },
        NodeV::TextV { text, size, .. } => {
            let w = text_width_spec(data, text, size, c);
            Size {
                width: w as i64,
                height: fx_clamp(leading_of(size) * line_count_of(data, text, size, w)) as i64,
            }
        },
        NodeV::ContainerV { child, padding, border_width } => {
            let red2 = fx_clamp(fx_clamp(padding + border_width) + fx_clamp(padding + border_width));
            let cc = Constraints {
                min_width: sfloor(c.min_width as int, red2) as i64,
                max_width: sfloor(c.max_width as int, red2) as i64,
                min_height: sfloor(c.min_height as int, red2) as i64,
                max_height: sfloor(c.max_height as int, red2) as i64,
            };
            let s = measure_spec(data, *child, cc);
            Size {
                width: fx_clamp(s.width + red2) as i64,
                height: fx_clamp(s.height + red2) as i64,
            }
        },
        NodeV::ImageV { width, height, .. } => Size {
            width: imin(width, c.max_width as int) as i64,
            height: imin(height, c.max_height as int) as i64,
        },
        NodeV::TableNodeV { table } => Size {
            width: cols_width_upto(table.columns, table.columns.len() as int) as i64,
            height: table_h_upto(data, table, table.rows.len() as int) as i64,
        },
        NodeV::PageNumberV { format, size, .. } => {
            let sample = subst_placeholders(format, seq!['9', '9', '9'], seq!['9', '9', '9']);
            Size {
                width: c.max_width,
                height: fx_clamp(
                    leading_of(size) * line_count_of(data, sample, size, c.max_width as int),
                ) as i64,
            }
        },
    }
}

impl LayoutNode {
    /// Measure this node under the constraints: exactly [`measure_spec`].
    #[verifier::loop_isolation(false)]
    pub fn measure(&self, c: Constraints, font: &mut Font) -> (s: Size)
        requires
            self.wf(),
            c.wf(),
            old(font).wf(),
        ensures
            final(font).wf(),
            final(font).data@ == old(font).data@,
            final(font).name@ == old(font).name@,
            s == measure_spec(old(font).data@, node_view(*self), c),
            0 <= s.width <= FX_MAX,
            0 <= s.height <= FX_MAX,
        decreases *self,
    {
        let ghost data = font.data@;
        match self {
            LayoutNode::Column { children, spacing } => {
                proof {
                    lemma_children_views(children@);
                }
                let mut width: i64 = 0;
                let mut height: i64 = 0;
                let mut i: usize = 0;
                while i < children.len()
                    invariant
                        0 <= i <= children@.len(),
                        forall|k: int| 0 <= k < children@.len() ==> (#[trigger] children@[k]).wf(),
                        0 <= *spacing <= FX_MAX,
                        c.wf(),
                        font.wf(),
                        font.data@ == data,
                        font.name@ == old(font).name@,
                        width == col_w(
                            data,
                            children_views(children@).subrange(0, i as int),
                            c,
                        ),
                        height == col_h(
                            data,
                            children_views(children@).subrange(0, i as int),
                            *spacing as int,
                            c,
                        ),
                        0 <= width <= FX_MAX,
                        0 <= height <= FX_MAX,
                        i > 0 ==> *spacing <= height,
                    decreases children@.len() - i,
                {
                    proof {
                        assert(decreases_to!(*self => self->Column_children@[i as int]));
                    }
                    let s = children[i].measure(c, font);
                    width = fx_max(width, s.width);
                    height = fx_add(height, fx_add(s.height, *spacing));
                    proof {
                        lemma_children_views(children@);
                        let cv = children_views(children@);
                        let pre = cv.subrange(0, i as int);
                        let cur = cv.subrange(0, i as int + 1);
                        assert(cur.drop_last() =~= pre);
                        assert(cur.last() == cv[i as int]);
                        assert(cv[i as int] == node_view(children@[i as int]));
                    }
                    i = i + 1;
                }
                proof {
                    let cv = children_views(children@);
                    assert(cv.subrange(0, cv.len() as int) =~= cv);
                }
                if children.len() > 0 {
                    height = fx_sub(height, *spacing);
                }
                width = fx_max(width, c.min_width);
                Size { width, height }
            },
            LayoutNode::Row { children, spacing } => {
                proof {
                    lemma_children_views(children@);
                }
                let mut width: i64 = 0;
                let mut height: i64 = 0;
                let mut i: usize = 0;
                while i < children.len()
                    invariant
                        0 <= i <= children@.len(),
                        forall|k: int| 0 <= k < children@.len() ==> (#[trigger] children@[k]).wf(),
                        0 <= *spacing <= FX_MAX,
                        c.wf(),
                        font.wf(),
                        font.data@ == data,
                        font.name@ == old(font).name@,
                        width == row_w(
                            data,
                            children_views(children@).subrange(0, i as int),
                            *spacing as int,
                            c,
                        ),
                        height == row_h(data, children_views(children@).subrange(0, i as int), c),
                        0 <= width <= FX_MAX,
                        0 <= height <= FX_MAX,
                        i > 0 ==> *spacing <= width,
                    decreases children@.len() - i,
                {
                    proof {
                        assert(decreases_to!(*self => *children));
                        assert(decreases_to!(*children => children@[i as int]));
                        assert(decreases_to!(*self => children@[i as int]));
                    }
                    let s = children[i].measure(c, font);
                    width = fx_add(width, fx_add(s.width, *spacing));
                    height = fx_max(height, s.height);
                    proof {
                        lemma_children_views(children@);
                        let cv = children_views(children@);
                        let pre = cv.subrange(0, i as int);
                        let cur = cv.subrange(0, i as int + 1);
                        assert(cur.drop_last() =~= pre);
                        assert(cur.last() == cv[i as int]);
                        assert(cv[i as int] == node_view(children@[i as int]));
                    }
                    i = i + 1;
                }
                proof {
                    let cv = children_views(children@);
                    assert(cv.subrange(0, cv.len() as int) =~= cv);
                }
                if children.len() > 0 {
                    width = fx_sub(width, *spacing);
                }
                Size { width, height }
            },
            LayoutNode::TextNode { text, size, .. } => {
                let raw = font.measure_text(text.as_str(), *size);
                let width = if c.max_width < FX_MAX {
                    fx_min(raw, c.max_width)
                } else {
                    raw
                };
                let lines = calculate_text_lines(text.as_str(), width, *size, font);
                let lead = leading(*size);
                let height = fx_mul_count(lead, lines);
                Size { width, height }
            },
            LayoutNode::Container { child, padding, border_width } => {
                let red = fx_add(*padding, *border_width);
                let red2 = fx_add(red, red);
                let cc = Constraints {
                    min_width: fx_sub_floor(c.min_width, red2),
                    max_width: fx_sub_floor(c.max_width, red2),
                    min_height: fx_sub_floor(c.min_height, red2),
                    max_height: fx_sub_floor(c.max_height, red2),
                };
                let s = child.measure(cc, font);
                Size { width: fx_add(s.width, red2), height: fx_add(s.height, red2) }
            },
            LayoutNode::ImageNode { width, height, .. } => {
                Size { width: fx_min(*width, c.max_width), height: fx_min(*height, c.max_height) }
            },
            LayoutNode::TableNode { table } => {
                let width = table.total_width();
                let mut height = table.settings.header_height;
                let mut i: usize = 0;
                while i < table.rows.len()
                    invariant
                        0 <= i <= table.rows@.len(),
                        table.wf(),
                        font.wf(),
                        font.data@ == data,
                        font.name@ == old(font).name@,
                        height == table_h_upto(data, crate::table::table_v(*table), i as int),
                        0 <= height <= FX_MAX,
                    decreases table.rows@.len() - i,
                {
                    let rh = table.row_height(i, font);
                    height = fx_add(height, rh);
                    i = i + 1;
                }
                Size { width, height }
            },
            LayoutNode::PageNumberNode { format, size, .. } => {
                proof {
                    reveal_strlit("999");
                }
                let sample = subst_format(format.as_str(), "999", "999");
                proof {
                    assert("999"@ =~= seq!['9', '9', '9']);
                }
                let lines = calculate_text_lines(sample.as_str(), c.max_width, *size, font);
                let lead = leading(*size);
                let height = fx_mul_count(lead, lines);
                Size { width: c.max_width, height }
            },
        }
    }
}

} // verus!

verus! {

impl LayoutNode {
    /// A node with the same abstract value.
    #[verifier::loop_isolation(false)]
    pub fn duplicate(&self) -> (r: LayoutNode)
        ensures
            node_view(r) == node_view(*self),
            self.wf() ==> r.wf(),
        decreases *self,
    {
        match self {
            LayoutNode::Column { children, spacing } => {
                proof {
                    lemma_children_views(children@);
                }
                let mut cs: Vec<LayoutNode> = Vec::new();
                let mut i: usize = 0;
                while i < children.len()
                    invariant
                        0 <= i <= children@.len(),
                        cs@.len() == i,
                        children_views(cs@) == children_views(children@).subrange(0, i as int),
                        (forall|k: int| 0 <= k < children@.len() ==> (#[trigger] children@[k]).wf())
                            ==> (forall|k: int| 0 <= k < i ==> (#[trigger] cs@[k]).wf()),
                    decreases children@.len() - i,
                {
                    proof {
                        assert(decreases_to!(*self => self->Column_children@[i as int]));
                    }
                    let c = children[i].duplicate();
                    let ghost cspre = cs@;
                    cs.push(c);
                    proof {
                        lemma_children_views(cs@);
                        lemma_children_views(cspre);
                        lemma_children_views(children@);
                        assert forall|k: int| 0 <= k < i + 1 implies children_views(cs@)[k]
                            == children_views(children@).subrange(0, i as int + 1)[k] by {
                            assert(children_views(cs@)[k] == node_view(cs@[k]));
                            if k < i {
                                assert(cs@[k] == cspre[k]);
                                assert(children_views(cspre)[k] == node_view(cspre[k]));
                            } else {
                                assert(cs@[k] == c);
                            }
                            assert(children_views(children@)[k] == node_view(children@[k]));
                        }
                        assert(children_views(cs@) =~= children_views(children@).subrange(
                            0,
                            i as int + 1,
                        ));
                    }
                    i = i + 1;
                }
                proof {
                    lemma_children_views(children@);
                    assert(children_views(children@).subrange(
                        0,
                        children_views(children@).len() as int,
                    ) =~= children_views(children@));
                }
                LayoutNode::Column { children: cs, spacing: *spacing }
            },
            LayoutNode::Row { children, spacing } => {
                proof {
                    lemma_children_views(children@);
                }
                let mut cs: Vec<LayoutNode> = Vec::new();
                let mut i: usize = 0;
                while i < children.len()
                    invariant
                        0 <= i <= children@.len(),
                        cs@.len() == i,
                        children_views(cs@) == children_views(children@).subrange(0, i as int),
                        (forall|k: int| 0 <= k < children@.len() ==> (#[trigger] children@[k]).wf())
                            ==> (forall|k: int| 0 <= k < i ==> (#[trigger] cs@[k]).wf()),
                    decreases children@.len() - i,
                {
                    proof {
                        assert(decreases_to!(*self => self->Row_children@[i as int]));
                    }
                    let c = children[i].duplicate();
                    let ghost cspre = cs@;
                    cs.push(c);
                    proof {
                        lemma_children_views(cs@);
                        lemma_children_views(cspre);
                        lemma_children_views(children@);
                        assert forall|k: int| 0 <= k < i + 1 implies children_views(cs@)[k]
                            == children_views(children@).subrange(0, i as int + 1)[k] by {
                            assert(children_views(cs@)[k] == node_view(cs@[k]));
                            if k < i {
                                assert(cs@[k] == cspre[k]);
                                assert(children_views(cspre)[k] == node_view(cspre[k]));
                            } else {
                                assert(cs@[k] == c);
                            }
                            assert(children_views(children@)[k] == node_view(children@[k]));
                        }
                        assert(children_views(cs@) =~= children_views(children@).subrange(
                            0,
                            i as int + 1,
                        ));
                    }
                    i = i + 1;
                }
                proof {
                    lemma_children_views(children@);
                    assert(children_views(children@).subrange(
                        0,
                        children_views(children@).len() as int,
                    ) =~= children_views(children@));
                }
                LayoutNode::Row { children: cs, spacing: *spacing }
            },
            LayoutNode::TextNode { text, size, color, background_color } => {
                let tc = str_to_chars(text.as_str());
                LayoutNode::TextNode {
                    text: string_from_chars(&tc),
                    size: *size,
                    color: *color,
                    background_color: *background_color,
                }
            },
            LayoutNode::Container { child, padding, border_width } => {
                let c = child.duplicate();
                LayoutNode::Container {
                    child: Box::new(c),
                    padding: *padding,
                    border_width: *border_width,
                }
            },
            LayoutNode::ImageNode { image_index, width, height } => {
                LayoutNode::ImageNode {
                    image_index: *image_index,
                    width: *width,
                    height: *height,
                }
            },
            LayoutNode::TableNode { table } => {
                LayoutNode::TableNode { table: table.duplicate() }
            },
            LayoutNode::PageNumberNode { format, size, align } => {
                let fc = str_to_chars(format.as_str());
                let ac = str_to_chars(align.as_str());
                LayoutNode::PageNumberNode {
                    format: string_from_chars(&fc),
                    size: *size,
                    align: string_from_chars(&ac),
                }
            },
        }
    }
}

} // verus!

use crate::text::{
    lines_nf, join_words, words_wf, lemma_words_wf, lemma_join_words_roundtrip,
    lemma_lines_nf_flatten, lemma_lines_nf_nonempty,
};
use crate::table::{rows_height_upto, ColV, TableV};

verus! {

/// Every node weighs at least one.
pub proof fn lemma_weight_pos(n: NodeV)
    ensures
        weight_v(n) >= 1,
{
}

/// Weight sums split over concatenation.
pub proof fn lemma_weight_sum_concat(a: Seq<NodeV>, b: Seq<NodeV>)
    ensures
        weight_sum(a + b) == weight_sum(a) + weight_sum(b),
    decreases b.len(),
{
    if b.len() == 0 {
        assert(a + b =~= a);
    } else {
        lemma_weight_sum_concat(a, b.drop_last());
        assert((a + b).drop_last() =~= a + b.drop_last());
        assert((a + b).last() == b.last());
    }
}

/// How a node can break into a head and a tail: the head carries a prefix
/// of the content, the tail the rest, and nothing is lost or changed.
/// Text breaks at word boundaries, tables at row boundaries, containers
/// keep their padding and border on both parts, and columns split at a
/// child, possibly splitting that child in turn.
pub open spec fn splits_into(orig: NodeV, head: NodeV, tail: NodeV) -> bool
    decreases orig, 2int,
{
    match orig {
        NodeV::ColumnV { children, spacing } => {
            &&& head is ColumnV
            &&& tail is ColumnV
            &&& head->ColumnV_spacing == spacing
            &&& tail->ColumnV_spacing == spacing
            &&& exists_column_split(
                children,
                head->ColumnV_children,
                tail->ColumnV_children,
            )
        },
        NodeV::TextV { text, size, color, background_color } => {
            &&& head is TextV
            &&& tail is TextV
            &&& head->TextV_size == size
            &&& tail->TextV_size == size
            &&& head->TextV_color == color
            &&& tail->TextV_color == color
            &&& head->TextV_background_color == background_color
            &&& tail->TextV_background_color == background_color
            &&& words_of(head->TextV_text) + words_of(tail->TextV_text) == words_of(text)
            &&& words_of(head->TextV_text).len() >= 1
        },
        NodeV::ContainerV { child, padding, border_width } => {
            &&& head is ContainerV
            &&& tail is ContainerV
            &&& head->ContainerV_padding == padding
            &&& tail->ContainerV_padding == padding
            &&& head->ContainerV_border_width == border_width
            &&& tail->ContainerV_border_width == border_width
            &&& splits_into(*child, *head->ContainerV_child, *tail->ContainerV_child)
        },
        NodeV::TableNodeV { table } => {
            &&& head is TableNodeV
            &&& tail is TableNodeV
            &&& head->TableNodeV_table.columns == table.columns
            &&& tail->TableNodeV_table.columns == table.columns
            &&& head->TableNodeV_table.settings == table.settings
            &&& tail->TableNodeV_table.settings == table.settings
            &&& exists|idx: int|
                1 <= idx < table.rows.len() && head->TableNodeV_table.rows == table.rows.subrange(
                    0,
                    idx,
                ) && tail->TableNodeV_table.rows == #[trigger] table.rows.skip(idx)
        },
        _ => false,
    }
}

/// Some index splits the children into these head and tail child lists.
pub open spec fn exists_column_split(children: Seq<NodeV>, hc: Seq<NodeV>, tc: Seq<NodeV>) -> bool
    decreases children, 1int,
{
    exists|idx: int|
        #![trigger children.subrange(0, idx)]
        0 <= idx < children.len() && column_split_at(children, idx, hc, tc)
}

/// Package the column case of [`splits_into`].
proof fn lemma_column_splits(ov: NodeV, hv2: NodeV, tv2: NodeV, idx: int)
    requires
        ov is ColumnV,
        hv2 is ColumnV,
        tv2 is ColumnV,
        hv2->ColumnV_spacing == ov->ColumnV_spacing,
        tv2->ColumnV_spacing == ov->ColumnV_spacing,
        0 <= idx < ov->ColumnV_children.len(),
        column_split_at(
            ov->ColumnV_children,
            idx,
            hv2->ColumnV_children,
            tv2->ColumnV_children,
        ),
    ensures
        splits_into(ov, hv2, tv2),
{
    let children = ov->ColumnV_children;
    let hc = hv2->ColumnV_children;
    let tc = tv2->ColumnV_children;
    assert(0 <= idx < children.len());
    assert(column_split_at(children, idx, hc, tc));
    assert(children.subrange(0, idx) == children.subrange(0, idx));
    assert(exists_column_split(children, hc, tc));
}

/// A column's children split at index `idx`: either the child there moves
/// whole to the tail, or it splits into a head part and a tail part.
pub open spec fn column_split_at(
    children: Seq<NodeV>,
    idx: int,
    hc: Seq<NodeV>,
    tc: Seq<NodeV>,
) -> bool
    recommends
        0 <= idx < children.len(),
    decreases children, 0int,
{
    ||| (hc == children.subrange(0, idx) && tc == children.skip(idx))
    ||| (0 <= idx < children.len() && hc.len() == idx + 1 && tc.len() == children.len() - idx
        && hc.subrange(0, idx) == children.subrange(0, idx) && tc.skip(1) == children.skip(idx + 1)
        && splits_into(children[idx], hc[idx], tc[0]))
}

} // verus!

verus! {

/// The line budget a text split gets: available height over the leading,
/// saturated at the platform's maximum count, zero when nothing is left.
pub open spec fn text_max_lines(avail_h: int, size: int) -> nat {
    if avail_h <= 0 {
        0
    } else if avail_h / leading_of(size) > usize::MAX {
        usize::MAX as nat
    } else {
        (avail_h / leading_of(size)) as nat
    }
}

/// Whether appending row `k` would overflow the data area of a table box.
pub open spec fn table_row_overflow(data: Seq<u8>, t: crate::table::TableV, da: int, k: int) -> bool {
    fx_clamp(
        rows_height_upto(
            data,
            t.rows,
            t.columns,
            t.settings.padding as int,
            t.settings.font_size as int,
            k,
        ) + row_height_of(
            data,
            t.rows[k],
            t.columns,
            t.settings.padding as int,
            t.settings.font_size as int,
        ),
    ) > da
}

impl LayoutNode {
    /// Ask whether this node fits a box of `available_width` by
    /// `available_height`: it fits whole, must move to the next page, or
    /// breaks into a head that fits and a tail. A split preserves the
    /// content exactly ([`splits_into`]) and the tail is strictly lighter,
    /// so pagination terminates; a split table's head rows moreover fit the
    /// available data area.
    #[verifier::loop_isolation(false)]
    #[verifier::rlimit(100)]
    pub fn split(&self, available_width: i64, available_height: i64, font: &mut Font) -> (r:
        SplitAction)
        requires
            self.wf(),
            old(font).wf(),
            0 <= available_width <= FX_MAX,
            fx_ok(available_height as int),
        ensures
            final(font).wf(),
            final(font).data@ == old(font).data@,
            final(font).name@ == old(font).name@,
            r matches SplitAction::Split(h, t) ==> {
                &&& splits_into(node_view(*self), node_view(*h), node_view(*t))
                &&& h.wf()
                &&& t.wf()
                &&& weight_v(node_view(*t)) < weight_v(node_view(*self))
            },
            r matches SplitAction::Split(h, t) ==> (self is TableNode ==> {
                let ht = node_view(*h)->TableNodeV_table;
                rows_height_upto(
                    old(font).data@,
                    ht.rows,
                    ht.columns,
                    ht.settings.padding as int,
                    ht.settings.font_size as int,
                    ht.rows.len() as int,
                ) <= fx_clamp(available_height - ht.settings.header_height)
            }),
            self is Column && self->Column_children@.len() == 0 ==> r is Fit,
            self is Container ==> {
                let red2 = fx_clamp(
                    fx_clamp(self->Container_padding + self->Container_border_width) + fx_clamp(
                        self->Container_padding + self->Container_border_width,
                    ),
                );
                &&& (fx_clamp(available_height - red2) <= 0 ==> r is Push)
                &&& ((r is Fit || r is Split) ==> fx_clamp(available_height - red2) > 0)
            },
            self is Row ==> !(r is Split) && (r is Fit <==> measure_spec(
                old(font).data@,
                node_view(*self),
                spec_loose(FX_MAX as int, FX_MAX as int),
            ).height <= available_height),
            self is ImageNode ==> !(r is Split) && (r is Fit <==> self->ImageNode_height
                <= available_height),
            self is PageNumberNode ==> !(r is Split) && (r is Fit <==> fx_clamp(
                leading_of(self->PageNumberNode_size as int) * line_count_of(
                    old(font).data@,
                    self->PageNumberNode_format@,
                    self->PageNumberNode_size as int,
                    available_width as int,
                ),
            ) <= available_height),
            self is TextNode ==> {
                let ml = text_max_lines(available_height as int, self->TextNode_size as int);
                let sp = split_at_lines_spec(
                    old(font).data@,
                    self->TextNode_text@,
                    self->TextNode_size as int,
                    available_width as int,
                    ml,
                );
                &&& (r is Push <==> ml == 0)
                &&& (ml > 0 ==> (r is Fit <==> sp.1 is None))
                &&& (ml > 0 ==> (r is Split <==> sp.1 is Some))
                &&& (r matches SplitAction::Split(h, t) ==> node_view(*h)->TextV_text == sp.0
                    && (sp.1 matches Some(tt) && node_view(*t)->TextV_text == tt))
            },
            self is TableNode ==> {
                let tv = crate::table::table_v(self->TableNode_table);
                let da = fx_clamp(available_height - tv.settings.header_height);
                &&& (da <= 0 ==> r is Push)
                &&& (da > 0 ==> (r is Fit <==> forall|k: int|
                    0 <= k < tv.rows.len() ==> !table_row_overflow(old(font).data@, tv, da, k)))
                &&& (da > 0 ==> (r is Push <==> tv.rows.len() > 0 && table_row_overflow(
                    old(font).data@,
                    tv,
                    da,
                    0,
                )))
                &&& (r matches SplitAction::Split(h, t) ==> {
                    let idx = node_view(*h)->TableNodeV_table.rows.len() as int;
                    &&& 1 <= idx < tv.rows.len()
                    &&& table_row_overflow(old(font).data@, tv, da, idx)
                    &&& forall|k: int|
                        0 <= k < idx ==> !table_row_overflow(old(font).data@, tv, da, k)
                })
            },
        decreases *self,
    {
        let ghost data = font.data@;
        match self {
            LayoutNode::Column { children, spacing } => {
                proof {
                    lemma_children_views(children@);
                }
                let c = Constraints::loose(available_width, FX_MAX);
                let mut used_height: i64 = 0;
                let mut split_index: usize = 0;
                let mut done = false;
                let mut parts: Option<(LayoutNode, LayoutNode)> = None;
                let mut i: usize = 0;
                while i < children.len() && !done
                    invariant
                        0 <= i <= children@.len(),
                        font.wf(),
                        font.data@ == data,
                        font.name@ == old(font).name@,
                        0 <= used_height <= FX_MAX,
                        done ==> i < children@.len() && split_index == i,
                        !done ==> parts is None,
                        parts matches Some(p) ==> {
                            &&& done
                            &&& splits_into(
                                node_view(children@[i as int]),
                                node_view(p.0),
                                node_view(p.1),
                            )
                            &&& p.0.wf()
                            &&& p.1.wf()
                            &&& weight_v(node_view(p.1)) < weight_v(
                                node_view(children@[i as int]),
                            )
                        },
                    decreases children@.len() - i, (if done { 0int } else { 1int }),
                {
                    proof {
                        assert(decreases_to!(*self => self->Column_children@[i as int]));
                    }
                    let s = children[i].measure(c, font);
                    let spacing_i: i64 = if i > 0 {
                        *spacing
                    } else {
                        0
                    };
                    let lhs = fx_add(fx_add(used_height, spacing_i), s.height);
                    if fx_add(lhs, 5000) > available_height {
                        let remaining = fx_sub(available_height, fx_add(used_height, spacing_i));
                        if remaining <= 0 {
                            split_index = i;
                            done = true;
                        } else {
                            match children[i].split(available_width, remaining, font) {
                                SplitAction::Fit => {
                                    used_height = lhs;
                                    i = i + 1;
                                },
                                SplitAction::Push => {
                                    split_index = i;
                                    done = true;
                                },
                                SplitAction::Split(h, t) => {
                                    split_index = i;
                                    parts = Some((*h, *t));
                                    done = true;
                                },
                            }
                        }
                    } else {
                        used_height = lhs;
                        i = i + 1;
                    }
                }
                if !done {
                    return SplitAction::Fit;
                }
                let idx = split_index;
                // Rebuild the head and tail columns around the break.
                let mut head_children: Vec<LayoutNode> = Vec::new();
                let mut k: usize = 0;
                while k < idx
                    invariant
                        0 <= k <= idx < children@.len(),
                        head_children@.len() == k,
                        children_views(head_children@) == children_views(children@).subrange(
                            0,
                            k as int,
                        ),
                        forall|m: int| 0 <= m < k ==> (#[trigger] head_children@[m]).wf(),
                    decreases idx - k,
                {
                    let ghost hpre = head_children@;
                    head_children.push(children[k].duplicate());
                    proof {
                        lemma_children_views(head_children@);
                        lemma_children_views(hpre);
                        assert forall|m: int| 0 <= m < k + 1 implies children_views(
                            head_children@,
                        )[m] == children_views(children@).subrange(0, k as int + 1)[m] by {
                            assert(children_views(head_children@)[m] == node_view(
                                head_children@[m],
                            ));
                            if m < k {
                                assert(head_children@[m] == hpre[m]);
                                assert(children_views(hpre)[m] == node_view(hpre[m]));
                            }
                        }
                        assert(children_views(head_children@) =~= children_views(
                            children@,
                        ).subrange(0, k as int + 1));
                    }
                    k = k + 1;
                }
                let mut tail_children: Vec<LayoutNode> = Vec::new();
                match parts {
                    Some((hp, tp)) => {
                        let ghost hpre = head_children@;
                        head_children.push(hp);
                        proof {
                            lemma_children_views(head_children@);
                            lemma_children_views(hpre);
                            assert forall|m: int| 0 <= m <= idx implies #[trigger] children_views(
                                head_children@,
                            )[m] == (if m < idx {
                                children_views(children@)[m]
                            } else {
                                node_view(parts->Some_0.0)
                            }) by {
                                assert(children_views(head_children@)[m] == node_view(
                                    head_children@[m],
                                ));
                                if m < idx {
                                    assert(head_children@[m] == hpre[m]);
                                    assert(children_views(hpre)[m] == node_view(hpre[m]));
                                    assert(children_views(hpre)[m] == children_views(
                                        children@,
                                    ).subrange(0, idx as int)[m]);
                                }
                            }
                        }
                        tail_children.push(tp);
                        proof {
                            lemma_children_views(tail_children@);
                            assert(children_views(tail_children@).len() == 1);
                            assert(children_views(tail_children@)[0] == node_view(
                                parts->Some_0.1,
                            ));
                            assert(children_views(tail_children@).skip(1) =~= children_views(
                                children@,
                            ).subrange(idx + 1, idx + 1));
                        }
                        let mut m: usize = idx + 1;
                        while m < children.len()
                            invariant
                                idx + 1 <= m <= children@.len(),
                                tail_children@.len() == m - idx,
                                children_views(tail_children@).skip(1) == children_views(
                                    children@,
                                ).subrange(idx + 1, m as int),
                                children_views(tail_children@)[0] == node_view(
                                    parts->Some_0.1,
                                ),
                                forall|q: int|
                                    0 <= q < tail_children@.len() ==> (
                                    #[trigger] tail_children@[q]).wf(),
                            decreases children@.len() - m,
                        {
                            let ghost tpre = tail_children@;
                            tail_children.push(children[m].duplicate());
                            proof {
                                lemma_children_views(tail_children@);
                                lemma_children_views(tpre);
                                assert forall|q: int|
                                    0 <= q < tail_children@.len() implies children_views(
                                    tail_children@,
                                )[q] == if q == 0 {
                                    node_view(parts->Some_0.1)
                                } else {
                                    children_views(children@)[idx + q]
                                } by {
                                    assert(children_views(tail_children@)[q] == node_view(
                                        tail_children@[q],
                                    ));
                                    if q < tpre.len() {
                                        assert(tail_children@[q] == tpre[q]);
                                        assert(children_views(tpre)[q] == node_view(tpre[q]));
                                        if q > 0 {
                                            assert(children_views(tpre).skip(1)[q - 1]
                                                == children_views(children@).subrange(
                                                idx + 1,
                                                m as int,
                                            )[q - 1]);
                                        }
                                    }
                                }
                                assert(children_views(tail_children@).skip(1) =~= children_views(
                                    children@,
                                ).subrange(idx + 1, m as int + 1));
                            }
                            m = m + 1;
                        }
                        proof {
                            lemma_children_views(head_children@);
                            lemma_children_views(hpre);
                        }
                    },
                    None => {
                        if idx == 0 {
                            return SplitAction::Push;
                        }
                        proof {
                            assert(children_views(tail_children@) =~= children_views(
                                children@,
                            ).subrange(idx as int, idx as int));
                        }
                        let mut m: usize = idx;
                        while m < children.len()
                            invariant
                                idx <= m <= children@.len(),
                                tail_children@.len() == m - idx,
                                children_views(tail_children@) == children_views(
                                    children@,
                                ).subrange(idx as int, m as int),
                                forall|q: int|
                                    0 <= q < tail_children@.len() ==> (
                                    #[trigger] tail_children@[q]).wf(),
                            decreases children@.len() - m,
                        {
                            let ghost tpre = tail_children@;
                            tail_children.push(children[m].duplicate());
                            proof {
                                lemma_children_views(tail_children@);
                                lemma_children_views(tpre);
                                assert forall|q: int|
                                    0 <= q < tail_children@.len() implies children_views(
                                    tail_children@,
                                )[q] == children_views(children@).subrange(
                                    idx as int,
                                    m as int + 1,
                                )[q] by {
                                    assert(children_views(tail_children@)[q] == node_view(
                                        tail_children@[q],
                                    ));
                                    if q < tpre.len() {
                                        assert(tail_children@[q] == tpre[q]);
                                        assert(children_views(tpre)[q] == node_view(tpre[q]));
                                    }
                                }
                                assert(children_views(tail_children@) =~= children_views(
                                    children@,
                                ).subrange(idx as int, m as int + 1));
                            }
                            m = m + 1;
                        }
                    },
                }
                let head = LayoutNode::Column { children: head_children, spacing: *spacing };
                let tail = LayoutNode::Column { children: tail_children, spacing: *spacing };
                proof {
                    let cv = children_views(children@);
                    let hv = children_views(head->Column_children@);
                    let tv = children_views(tail->Column_children@);
                    lemma_children_views(head->Column_children@);
                    lemma_children_views(tail->Column_children@);
                    if parts is Some {
                        assert(hv.subrange(0, idx as int) =~= cv.subrange(0, idx as int));
                        assert(tv.skip(1) =~= cv.skip(idx + 1));
                        assert(hv[idx as int] == node_view(parts->Some_0.0));
                        assert(column_split_at(cv, idx as int, hv, tv));
                    } else {
                        assert(hv =~= cv.subrange(0, idx as int));
                        assert(tv =~= cv.skip(idx as int));
                        assert(column_split_at(cv, idx as int, hv, tv));
                    }
                    assert(node_view(*self) is ColumnV && node_view(*self)->ColumnV_children
                        == cv);
                    assert(node_view(head) is ColumnV && node_view(head)->ColumnV_children == hv);
                    assert(node_view(tail) is ColumnV && node_view(tail)->ColumnV_children == tv);
                    lemma_column_splits(node_view(*self), node_view(head), node_view(tail), idx as int);
                    // The tail is strictly lighter.
                    lemma_column_tail_weight(cv, idx as int, hv, tv);
                }
                SplitAction::Split(Box::new(head), Box::new(tail))
            },
            LayoutNode::Row { children, spacing } => {
                let c = Constraints::loose(FX_MAX, FX_MAX);
                let s = self.measure(c, font);
                if s.height <= available_height {
                    SplitAction::Fit
                } else {
                    SplitAction::Push
                }
            },
            LayoutNode::TextNode { text, size, color, background_color } => {
                let lead = leading(*size);
                let max_lines: usize = if available_height <= 0 {
                    0
                } else {
                    crate::fx::fx_div_to_count(available_height, lead)
                };
                if max_lines == 0 {
                    return SplitAction::Push;
                }
                let (head, tail_opt) = split_text_at_lines(
                    text.as_str(),
                    available_width,
                    *size,
                    font,
                    max_lines,
                );
                match tail_opt {
                    Some(tail) => {
                        proof {
                            lemma_text_split_parts(
                                data,
                                text@,
                                *size as int,
                                available_width as int,
                                max_lines as nat,
                                head@,
                                tail@,
                            );
                        }
                        let head_node = LayoutNode::TextNode {
                            text: head,
                            size: *size,
                            color: *color,
                            background_color: *background_color,
                        };
                        let tail_node = LayoutNode::TextNode {
                            text: tail,
                            size: *size,
                            color: *color,
                            background_color: *background_color,
                        };
                        SplitAction::Split(Box::new(head_node), Box::new(tail_node))
                    },
                    None => SplitAction::Fit,
                }
            },
            LayoutNode::Container { child, padding, border_width } => {
                let red = fx_add(*padding, *border_width);
                let red2 = fx_add(red, red);
                let child_avail_h = fx_sub(available_height, red2);
                let child_avail_w = fx_sub_floor(available_width, red2);
                if child_avail_h <= 0 {
                    return SplitAction::Push;
                }
                proof {
                    assert(decreases_to!(*self => *self->Container_child));
                }
                match child.split(child_avail_w, child_avail_h, font) {
                    SplitAction::Fit => SplitAction::Fit,
                    SplitAction::Push => SplitAction::Push,
                    SplitAction::Split(h, t) => {
                        let head = LayoutNode::Container {
                            child: h,
                            padding: *padding,
                            border_width: *border_width,
                        };
                        let tail = LayoutNode::Container {
                            child: t,
                            padding: *padding,
                            border_width: *border_width,
                        };
                        SplitAction::Split(Box::new(head), Box::new(tail))
                    },
                }
            },
            LayoutNode::ImageNode { height, .. } => {
                if *height <= available_height {
                    SplitAction::Fit
                } else {
                    SplitAction::Push
                }
            },
            LayoutNode::TableNode { table } => {
                let hh = table.settings.header_height;
                let data_avail = fx_sub(available_height, hh);
                if data_avail <= 0 {
                    return SplitAction::Push;
                }
                let ghost tv = crate::table::table_v(*table);
                let ghost da = fx_clamp(available_height - tv.settings.header_height);
                let mut current: i64 = 0;
                let mut split_idx: usize = 0;
                let mut found = false;
                let mut i: usize = 0;
                while i < table.rows.len() && !found
                    invariant
                        0 <= i <= table.rows@.len(),
                        font.wf(),
                        font.data@ == data,
                        font.name@ == old(font).name@,
                        current == rows_height_upto(
                            data,
                            tv.rows,
                            tv.columns,
                            tv.settings.padding as int,
                            tv.settings.font_size as int,
                            i as int,
                        ),
                        0 <= current <= data_avail,
                        data_avail == da,
                        forall|k: int| 0 <= k < i ==> !table_row_overflow(data, tv, da, k),
                        found ==> 1 <= split_idx < table.rows@.len() && split_idx == i
                            && table_row_overflow(data, tv, da, i as int),
                    decreases table.rows@.len() - i, (if found { 0int } else { 1int }),
                {
                    let rh = table.row_height(i, font);
                    if fx_add(current, rh) > data_avail {
                        proof {
                            assert(table_row_overflow(data, tv, da, i as int));
                        }
                        if i == 0 {
                            return SplitAction::Push;
                        }
                        split_idx = i;
                        found = true;
                    } else {
                        proof {
                            assert(!table_row_overflow(data, tv, da, i as int));
                        }
                        current = fx_add(current, rh);
                        i = i + 1;
                    }
                }
                if !found {
                    proof {
                        assert(i == table.rows@.len());
                        assert(forall|k: int|
                            0 <= k < tv.rows.len() ==> !table_row_overflow(data, tv, da, k));
                    }
                    return SplitAction::Fit;
                }
                proof {
                    assert(table_row_overflow(data, tv, da, split_idx as int));
                }
                let idx = split_idx;
                // Head keeps the first rows, the tail the rest; both repeat
                // the columns and settings so each page shows the header.
                let mut head_table = table.duplicate();
                let mut tail_table = table.duplicate();
                split_rows(&mut head_table, &mut tail_table, table, idx);
                proof {
                    let hv = crate::table::table_v(head_table);
                    let tv2 = crate::table::table_v(tail_table);
                    assert(hv.rows =~= tv.rows.subrange(0, idx as int));
                    assert(tv2.rows =~= tv.rows.skip(idx as int));
                    crate::table::lemma_rows_height_prefix(
                        data,
                        hv.rows,
                        tv.rows,
                        tv.columns,
                        tv.settings.padding as int,
                        tv.settings.font_size as int,
                        idx as int,
                    );
                }
                let head = LayoutNode::TableNode { table: head_table };
                let tail = LayoutNode::TableNode { table: tail_table };
                SplitAction::Split(Box::new(head), Box::new(tail))
            },
            LayoutNode::PageNumberNode { format, size, .. } => {
                let lines = calculate_text_lines(format.as_str(), available_width, *size, font);
                let lead = leading(*size);
                let height = fx_mul_count(lead, lines);
                if height <= available_height {
                    SplitAction::Fit
                } else {
                    SplitAction::Push
                }
            },
        }
    }
}

/// Keep the first `idx` rows in `head` and the rest in `tail`.
#[verifier::loop_isolation(false)]
fn split_rows(head: &mut Table, tail: &mut Table, orig: &Table, idx: usize)
    requires
        idx < orig.rows@.len(),
        1 <= idx,
        crate::table::table_v(*old(head)) == crate::table::table_v(*orig),
        crate::table::table_v(*old(tail)) == crate::table::table_v(*orig),
        orig.wf() ==> old(head).wf() && old(tail).wf(),
    ensures
        crate::table::table_v(*final(head)).columns == crate::table::table_v(*orig).columns,
        crate::table::table_v(*final(tail)).columns == crate::table::table_v(*orig).columns,
        crate::table::table_v(*final(head)).settings == crate::table::table_v(*orig).settings,
        crate::table::table_v(*final(tail)).settings == crate::table::table_v(*orig).settings,
        crate::table::table_v(*final(head)).rows == crate::table::table_v(*orig).rows.subrange(
            0,
            idx as int,
        ),
        crate::table::table_v(*final(tail)).rows == crate::table::table_v(*orig).rows.skip(
            idx as int,
        ),
        orig.wf() ==> final(head).wf() && final(tail).wf(),
{
    head.rows.truncate(idx);
    let mut kept: Vec<Vec<String>> = Vec::new();
    let mut m: usize = idx;
    proof {
        assert(crate::table::rows_view(kept@) =~= crate::table::rows_view(orig.rows@).subrange(
            idx as int,
            idx as int,
        ));
    }
    while m < orig.rows.len()
        invariant
            idx <= m <= orig.rows@.len(),
            kept@.len() == m - idx,
            crate::table::rows_view(kept@) == crate::table::rows_view(orig.rows@).subrange(
                idx as int,
                m as int,
            ),
            forall|k: int|
                0 <= k < kept@.len() ==> (#[trigger] kept@[k])@.len() == orig.rows@[
                    idx + k
                ]@.len(),
        decreases orig.rows@.len() - m,
    {
        let row = crate::table::copy_string_vec(&orig.rows[m]);
        kept.push(row);
        proof {
            assert(crate::table::rows_view(kept@) =~= crate::table::rows_view(orig.rows@).subrange(
                idx as int,
                m as int + 1,
            ));
        }
        m = m + 1;
    }
    tail.rows = kept;
    proof {
        let ov = crate::table::rows_view(orig.rows@);
        assert(crate::table::rows_view(old(head).rows@) == ov);
        assert forall|k: int| 0 <= k < idx implies #[trigger] crate::table::rows_view(
            head.rows@,
        )[k] == ov.subrange(0, idx as int)[k] by {
            assert(head.rows@[k] == old(head).rows@[k]);
            assert(crate::table::rows_view(head.rows@)[k] == crate::table::rows_view(
                old(head).rows@,
            )[k]);
        }
        assert(crate::table::rows_view(head.rows@) =~= ov.subrange(0, idx as int));
        assert(crate::table::rows_view(tail.rows@) =~= ov.skip(idx as int));
        if orig.wf() {
            assert forall|k: int|
                0 <= k < head.rows@.len() implies (#[trigger] head.rows@[k])@.len()
                == head.columns@.len() by {
                assert(head.rows@[k] == old(head).rows@[k]);
                assert(old(head).wf());
            }
            assert forall|k: int|
                0 <= k < tail.rows@.len() implies (#[trigger] tail.rows@[k])@.len()
                == tail.columns@.len() by {
                assert(tail.rows@[k]@.len() == orig.rows@[idx + k]@.len());
                assert(orig.rows@[idx + k]@.len() == orig.columns@.len());
                assert(crate::table::cols_v(tail.columns@).len() == crate::table::cols_v(
                    orig.columns@,
                ).len());
            }
            assert forall|k: int|
                0 <= k < head.columns@.len() implies 0 <= (#[trigger] head.columns@[k]).width
                <= crate::fx::FX_MAX by {
                assert(old(head).wf());
            }
            assert forall|k: int|
                0 <= k < tail.columns@.len() implies 0 <= (#[trigger] tail.columns@[k]).width
                <= crate::fx::FX_MAX by {
                assert(old(tail).wf());
            }
        }
    }
}

/// A non-empty child list has positive weight.
proof fn lemma_weight_sum_pos(cs: Seq<NodeV>)
    requires
        cs.len() >= 1,
    ensures
        weight_sum(cs) >= 1,
{
    lemma_weight_pos(cs.last());
}

/// A column that gives up at least its first child weighs less afterward.
proof fn lemma_column_tail_weight(cv: Seq<NodeV>, idx: int, hv: Seq<NodeV>, tv: Seq<NodeV>)
    requires
        0 <= idx < cv.len(),
        column_split_at(cv, idx, hv, tv),
        hv.len() >= 1,
        !(hv == cv.subrange(0, idx) && tv == cv.skip(idx)) ==> weight_v(tv[0]) < weight_v(cv[idx]),
    ensures
        weight_sum(tv) < weight_sum(cv),
{
    if hv == cv.subrange(0, idx) && tv == cv.skip(idx) {
        // The child at `idx` moved whole: the head kept a non-empty prefix.
        assert(idx >= 1);
        lemma_weight_sum_concat(cv.subrange(0, idx), cv.skip(idx));
        assert(cv.subrange(0, idx) + cv.skip(idx) =~= cv);
        lemma_weight_sum_pos(cv.subrange(0, idx));
    } else {
        // The child at `idx` split: the tail starts with its lighter part.
        assert(weight_v(tv[0]) < weight_v(cv[idx]));
        lemma_weight_sum_concat(seq![tv[0]], cv.skip(idx + 1));
        assert(seq![tv[0]] + cv.skip(idx + 1) =~= tv) by {
            assert(tv.skip(1) == cv.skip(idx + 1));
            assert forall|q: int| 0 <= q < tv.len() implies #[trigger] tv[q] == (seq![tv[0]]
                + cv.skip(idx + 1))[q] by {
                if q > 0 {
                    assert(tv.skip(1)[q - 1] == tv[q]);
                }
            }
        }
        assert(weight_sum(seq![tv[0]]) == weight_v(tv[0])) by {
            assert(seq![tv[0]].drop_last() =~= Seq::<NodeV>::empty());
            assert(weight_sum(Seq::<NodeV>::empty()) == 0);
            assert(seq![tv[0]].last() == tv[0]);
        }
        lemma_weight_sum_concat(cv.subrange(0, idx), seq![cv[idx]] + cv.skip(idx + 1));
        lemma_weight_sum_concat(seq![cv[idx]], cv.skip(idx + 1));
        assert(cv.subrange(0, idx) + (seq![cv[idx]] + cv.skip(idx + 1)) =~= cv);
        assert(weight_sum(seq![cv[idx]]) == weight_v(cv[idx])) by {
            assert(seq![cv[idx]].drop_last() =~= Seq::<NodeV>::empty());
            assert(weight_sum(Seq::<NodeV>::empty()) == 0);
            assert(seq![cv[idx]].last() == cv[idx]);
        }
    }
}

/// A text split's two parts, from the splitter's specification: together
/// they carry exactly the original words, and the head is not empty.
proof fn lemma_text_split_parts(
    data: Seq<u8>,
    text: Seq<char>,
    size: int,
    width: int,
    max_lines: nat,
    head: Seq<char>,
    tail: Seq<char>,
)
    requires
        max_lines >= 1,
        ({
            let sp = crate::text::split_at_lines_spec(data, text, size, width, max_lines);
            head == sp.0 && (sp.1 matches Some(t) && t == tail)
        }),
    ensures
        words_of(head) + words_of(tail) == words_of(text),
        words_of(head).len() >= 1,
{
    let ws = words_of(text);
    assert(ws.len() > 0);
    let ls = lines_nf(data, size, width, ws, Seq::empty());
    assert(ls.len() > max_lines);
    let take = ls.subrange(0, max_lines as int);
    let rest = ls.skip(max_lines as int);
    lemma_lines_nf_flatten(data, size, width, ws, Seq::empty());
    assert(ls.flatten() =~= ws);
    vstd::seq_lib::lemma_flatten_concat(take, rest);
    assert(take + rest =~= ls);
    assert(take.flatten() + rest.flatten() =~= ws);
    lemma_words_wf(text);
    assert(words_wf(ws));
    let ft = take.flatten();
    let fr = rest.flatten();
    assert(words_wf(ft)) by {
        assert forall|k: int|
            0 <= k < ft.len() implies (#[trigger] ft[k]).len() > 0 && (forall|j: int|
            0 <= j < ft[k].len() ==> !crate::text::is_space(ft[k][j])) by {
            assert(ft[k] == ws[k]);
        }
    }
    assert(words_wf(fr)) by {
        assert forall|k: int|
            0 <= k < fr.len() implies (#[trigger] fr[k]).len() > 0 && (forall|j: int|
            0 <= j < fr[k].len() ==> !crate::text::is_space(fr[k][j])) by {
            assert(fr[k] == ws[ft.len() + k]);
        }
    }
    lemma_join_words_roundtrip(ft);
    lemma_join_words_roundtrip(fr);
    assert(head == join_words(ft));
    assert(tail == join_words(fr));
    assert(words_of(head) + words_of(tail) =~= ws);
    // The head holds the first line, which is not empty.
    lemma_lines_nf_nonempty(data, size, width, ws, Seq::empty());
    assert(take[0] == ls[0]);
    take.lemma_flatten_length_ge_single_element_length(0);
    assert(ft.len() >= take[0].len());
}

} // verus!

verus! {

/// The image indices a tree references.
pub open spec fn image_refs(n: NodeV) -> Set<u32>
    decreases n, 1int,
{
    match n {
        NodeV::ColumnV { children, .. } => image_refs_seq(children),
        NodeV::RowV { children, .. } => image_refs_seq(children),
        NodeV::ContainerV { child, .. } => image_refs(*child),
        NodeV::ImageV { image_index, .. } => Set::empty().insert(image_index),
        _ => Set::empty(),
    }
}

/// The image indices a child list references.
pub open spec fn image_refs_seq(cs: Seq<NodeV>) -> Set<u32>
    decreases cs, 0int,
{
    if cs.len() == 0 {
        Set::empty()
    } else {
        image_refs_seq(cs.drop_last()).union(image_refs(cs.last()))
    }
}

/// Decimal digits of a count, as characters.
pub open spec fn dec_chars(n: nat) -> Seq<char>
    decreases n,
{
    if n < 10 {
        seq![(48 + n) as char]
    } else {
        dec_chars(n / 10).push((48 + n % 10) as char)
    }
}

/// A count as a decimal string.
pub fn count_to_string(n: usize) -> (r: String)
    ensures
        r@ == dec_chars(n as nat),
{
    let mut digits: Vec<char> = Vec::new();
    push_dec_chars(&mut digits, n);
    string_from_chars(&digits)
}

fn push_dec_chars(out: &mut Vec<char>, n: usize)
    ensures
        final(out)@ == old(out)@ + dec_chars(n as nat),
    decreases n,
{
    if n >= 10 {
        push_dec_chars(out, n / 10);
    }
    let d = (n % 10) as u8;
    out.push((48 + d) as char);
    proof {
        assert(out@ =~= old(out)@ + dec_chars(n as nat));
    }
}

/// The x position an aligned page-number line starts at: flush right, or
/// centered over the leftover width, or at the area's left edge.
pub open spec fn pagenum_x(align: Seq<char>, x: int, w: int, tw: int) -> int {
    if align == "right"@ {
        fx_clamp(fx_clamp(x + w) - tw)
    } else if align == "center"@ {
        fx_clamp(
            x + fx_clamp(
                (if w - tw > 0 {
                    w - tw
                } else {
                    0
                }) * 1 / 2,
            ),
        )
    } else {
        x
    }
}

/// Every operator a node paints into an area (`x`,`y` the top-left corner,
/// `w`,`h` the box): texts wrap and draw their lines, images place their
/// XObject, tables paint bands, cells and boxes, page numbers resolve and
/// align, containers draw their border and recurse inside the padding, and
/// columns and rows lay their children out by measured sizes.
pub open spec fn render_ops(
    data: Seq<u8>,
    n: NodeV,
    x: int,
    y: int,
    w: int,
    h: int,
    idx: u32,
    ctx: PageContext,
) -> Seq<u8>
    decreases n, 1int,
{
    match n {
        NodeV::ColumnV { children, spacing } => col_children_ops(
            data,
            children,
            0,
            x,
            y,
            w,
            spacing,
            idx,
            ctx,
        ),
        NodeV::RowV { children, spacing } => row_children_ops(
            data,
            children,
            0,
            x,
            y,
            h,
            spacing,
            idx,
            ctx,
        ),
        NodeV::TextV { text, size, color, background_color } => (match background_color {
            Some(bg) => crate::page::op_fill_rect_color(x, fx_clamp(y - h), w, h, bg),
            None => Seq::empty(),
        }) + crate::page::multiline_ops(
            data,
            crate::text::wrap_lines(data, size, w, words_of(text), Seq::empty()),
            x,
            y,
            size,
            idx,
            Some(
                match color {
                    Some(c) => c,
                    None => crate::color::spec_black(),
                },
            ),
        ),
        NodeV::ContainerV { child, padding, border_width } => {
            let red = fx_clamp(padding + border_width);
            let red2 = fx_clamp(red + red);
            (if border_width > 0 {
                crate::page::op_rect(x, fx_clamp(y - h), w, h, border_width)
            } else {
                Seq::empty()
            }) + render_ops(
                data,
                *child,
                fx_clamp(x + red),
                fx_clamp(y - red),
                sfloor(w, red2),
                sfloor(h, red2),
                idx,
                ctx,
            )
        },
        NodeV::ImageV { image_index, .. } => crate::page::op_image(
            image_index,
            x,
            fx_clamp(y - h),
            w,
            h,
        ),
        NodeV::TableNodeV { table } => crate::page::table_ops(data, table, x, y, idx),
        NodeV::PageNumberV { format, size, align } => {
            let resolved = subst_placeholders(
                format,
                dec_chars(ctx.current as nat),
                dec_chars(ctx.total as nat),
            );
            crate::page::multiline_ops(
                data,
                crate::text::wrap_lines(data, size, w, words_of(resolved), Seq::empty()),
                pagenum_x(align, x, w, measure_of(data, resolved, size)),
                y,
                size,
                idx,
                None,
            )
        },
    }
}

/// A column's children from `j` on, each rendered into its measured height
/// at the full width, the y position stepping down by height plus spacing.
pub open spec fn col_children_ops(
    data: Seq<u8>,
    cs: Seq<NodeV>,
    j: int,
    x: int,
    y: int,
    w: int,
    spacing: int,
    idx: u32,
    ctx: PageContext,
) -> Seq<u8>
    decreases cs, (cs.len() - j) as int,
{
    if j < 0 || j >= cs.len() {
        Seq::empty()
    } else {
        let s = measure_spec(data, cs[j], spec_loose(w, FX_MAX as int));
        render_ops(data, cs[j], x, y, w, s.height as int, idx, ctx) + col_children_ops(
            data,
            cs,
            j + 1,
            x,
            fx_clamp(y - fx_clamp(s.height + spacing)),
            w,
            spacing,
            idx,
            ctx,
        )
    }
}

/// A row's children from `j` on, each rendered into its measured width at
/// the full height, the x position stepping right by width plus spacing.
pub open spec fn row_children_ops(
    data: Seq<u8>,
    cs: Seq<NodeV>,
    j: int,
    x: int,
    y: int,
    h: int,
    spacing: int,
    idx: u32,
    ctx: PageContext,
) -> Seq<u8>
    decreases cs, (cs.len() - j) as int,
{
    if j < 0 || j >= cs.len() {
        Seq::empty()
    } else {
        let s = measure_spec(data, cs[j], spec_loose(FX_MAX as int, h));
        render_ops(data, cs[j], x, y, s.width as int, h, idx, ctx) + row_children_ops(
            data,
            cs,
            j + 1,
            fx_clamp(x + fx_clamp(s.width + spacing)),
            y,
            h,
            spacing,
            idx,
            ctx,
        )
    }
}

impl LayoutNode {
    /// Paint this node into the page inside `area`, whose `y` is the top
    /// edge. Content is only appended; every glyph event carries
    /// `font_index`; the page can only gain this tree's image indices.
    #[verifier::loop_isolation(false)]
    #[verifier::rlimit(100)]
    #[verifier::spinoff_prover]
    pub fn render(
        &self,
        page: &mut Page,
        area: Rect,
        font: &mut Font,
        font_index: u32,
        context: &PageContext,
    )
        requires
            self.wf(),
            old(page).wf(),
            old(font).wf(),
            fx_ok(area.x as int),
            fx_ok(area.y as int),
            0 <= area.width <= FX_MAX,
            0 <= area.height <= FX_MAX,
        ensures
            final(page).wf(),
            final(font).wf(),
            final(font).data@ == old(font).data@,
            final(font).name@ == old(font).name@,
            old(page).content@.is_prefix_of(final(page).content@),
            old(page).used_glyphs@.is_prefix_of(final(page).used_glyphs@),
            forall|k: int|
                old(page).used_glyphs@.len() <= k < final(page).used_glyphs@.len() ==> (
                #[trigger] final(page).used_glyphs@[k]).0 == font_index,
            old(page).used_fonts@.to_set().subset_of(final(page).used_fonts@.to_set()),
            final(page).used_fonts@.to_set().subset_of(
                old(page).used_fonts@.to_set().insert(font_index),
            ),
            old(page).used_images@.to_set().subset_of(final(page).used_images@.to_set()),
            final(page).used_images@.to_set().subset_of(
                old(page).used_images@.to_set().union(image_refs(node_view(*self))),
            ),
            final(page).width == old(page).width,
            final(page).height == old(page).height,
            final(page).content@ == old(page).content@ + render_ops(
                old(font).data@,
                node_view(*self),
                area.x as int,
                area.y as int,
                area.width as int,
                area.height as int,
                font_index,
                *context,
            ),
        decreases *self,
    {
        broadcast use vstd::set::group_set_axioms;

        let ghost data = font.data@;
        match self {
            LayoutNode::Column { children, spacing } => {
                proof {
                    lemma_children_views(children@);
                }
                let mut y = area.y;
                let mut i: usize = 0;
                while i < children.len()
                    invariant
                        0 <= i <= children@.len(),
                        font.wf(),
                        font.data@ == data,
                        font.name@ == old(font).name@,
                        page.wf(),
                        fx_ok(y as int),
                        page.content@ + col_children_ops(
                            data,
                            children_views(children@),
                            i as int,
                            area.x as int,
                            y as int,
                            area.width as int,
                            *spacing as int,
                            font_index,
                            *context,
                        ) == old(page).content@ + render_ops(
                            data,
                            node_view(*self),
                            area.x as int,
                            area.y as int,
                            area.width as int,
                            area.height as int,
                            font_index,
                            *context,
                        ),
                        old(page).content@.is_prefix_of(page.content@),
                        old(page).used_glyphs@.is_prefix_of(page.used_glyphs@),
                        forall|k: int|
                            old(page).used_glyphs@.len() <= k < page.used_glyphs@.len() ==> (
                            #[trigger] page.used_glyphs@[k]).0 == font_index,
                        old(page).used_fonts@.to_set().subset_of(page.used_fonts@.to_set()),
                        page.used_fonts@.to_set().subset_of(
                            old(page).used_fonts@.to_set().insert(font_index),
                        ),
                        old(page).used_images@.to_set().subset_of(page.used_images@.to_set()),
                        page.used_images@.to_set().subset_of(
                            old(page).used_images@.to_set().union(
                                image_refs(node_view(*self)),
                            ),
                        ),
                        page.width == old(page).width,
                        page.height == old(page).height,
                    decreases children@.len() - i,
                {
                    proof {
                        assert(decreases_to!(*self => self->Column_children@[i as int]));
                    }
                    let c = Constraints::loose(area.width, FX_MAX);
                    let s = children[i].measure(c, font);
                    let child_area = Rect { x: area.x, y, width: area.width, height: s.height };
                    let ghost gpre = page.used_glyphs@;
                    let ghost cpre = page.content@;
                    let ghost y0 = y as int;
                    children[i].render(page, child_area, font, font_index, context);
                    y = fx_sub(y, fx_add(s.height, *spacing));
                    proof {
                        lemma_children_views(children@);
                        assert(children_views(children@)[i as int] == node_view(
                            children@[i as int],
                        ));
                        assert(page.content@ + col_children_ops(
                            data,
                            children_views(children@),
                            i as int + 1,
                            area.x as int,
                            y as int,
                            area.width as int,
                            *spacing as int,
                            font_index,
                            *context,
                        ) =~= old(page).content@ + render_ops(
                            data,
                            node_view(*self),
                            area.x as int,
                            area.y as int,
                            area.width as int,
                            area.height as int,
                            font_index,
                            *context,
                        ));
                        lemma_prefix_trans_bytes(old(page).content@, cpre, page.content@);
                        lemma_prefix_trans_events(old(page).used_glyphs@, gpre, page.used_glyphs@);
                        assert forall|k: int|
                            old(page).used_glyphs@.len() <= k < page.used_glyphs@.len() implies (
                        #[trigger] page.used_glyphs@[k]).0 == font_index by {
                            if k < gpre.len() {
                                assert(page.used_glyphs@[k] == gpre[k]);
                            }
                        }
                        assert(image_refs(node_view(children@[i as int])).subset_of(
                            image_refs(node_view(*self)),
                        )) by {
                            lemma_image_refs_member(
                                children_views(children@),
                                i as int,
                            );
                        }
                    }
                    i = i + 1;
                }
            },
            LayoutNode::Row { children, spacing } => {
                proof {
                    lemma_children_views(children@);
                }
                let mut x = area.x;
                let mut i: usize = 0;
                while i < children.len()
                    invariant
                        0 <= i <= children@.len(),
                        font.wf(),
                        font.data@ == data,
                        font.name@ == old(font).name@,
                        page.wf(),
                        fx_ok(x as int),
                        page.content@ + row_children_ops(
                            data,
                            children_views(children@),
                            i as int,
                            x as int,
                            area.y as int,
                            area.height as int,
                            *spacing as int,
                            font_index,
                            *context,
                        ) == old(page).content@ + render_ops(
                            data,
                            node_view(*self),
                            area.x as int,
                            area.y as int,
                            area.width as int,
                            area.height as int,
                            font_index,
                            *context,
                        ),
                        old(page).content@.is_prefix_of(page.content@),
                        old(page).used_glyphs@.is_prefix_of(page.used_glyphs@),
                        forall|k: int|
                            old(page).used_glyphs@.len() <= k < page.used_glyphs@.len() ==> (
                            #[trigger] page.used_glyphs@[k]).0 == font_index,
                        old(page).used_fonts@.to_set().subset_of(page.used_fonts@.to_set()),
                        page.used_fonts@.to_set().subset_of(
                            old(page).used_fonts@.to_set().insert(font_index),
                        ),
                        old(page).used_images@.to_set().subset_of(page.used_images@.to_set()),
                        page.used_images@.to_set().subset_of(
                            old(page).used_images@.to_set().union(
                                image_refs(node_view(*self)),
                            ),
                        ),
                        page.width == old(page).width,
                        page.height == old(page).height,
                    decreases children@.len() - i,
                {
                    proof {
                        assert(decreases_to!(*self => self->Row_children@[i as int]));
                    }
                    let c = Constraints::loose(FX_MAX, area.height);
                    let s = children[i].measure(c, font);
                    let child_area = Rect { x, y: area.y, width: s.width, height: area.height };
                    let ghost gpre = page.used_glyphs@;
                    let ghost cpre = page.content@;
                    children[i].render(page, child_area, font, font_index, context);
                    x = fx_add(x, fx_add(s.width, *spacing));
                    proof {
                        lemma_children_views(children@);
                        assert(children_views(children@)[i as int] == node_view(
                            children@[i as int],
                        ));
                        assert(page.content@ + row_children_ops(
                            data,
                            children_views(children@),
                            i as int + 1,
                            x as int,
                            area.y as int,
                            area.height as int,
                            *spacing as int,
                            font_index,
                            *context,
                        ) =~= old(page).content@ + render_ops(
                            data,
                            node_view(*self),
                            area.x as int,
                            area.y as int,
                            area.width as int,
                            area.height as int,
                            font_index,
                            *context,
                        ));
                        lemma_prefix_trans_bytes(old(page).content@, cpre, page.content@);
                        lemma_prefix_trans_events(old(page).used_glyphs@, gpre, page.used_glyphs@);
                        assert forall|k: int|
                            old(page).used_glyphs@.len() <= k < page.used_glyphs@.len() implies (
                        #[trigger] page.used_glyphs@[k]).0 == font_index by {
                            if k < gpre.len() {
                                assert(page.used_glyphs@[k] == gpre[k]);
                            }
                        }
                        assert(image_refs(node_view(children@[i as int])).subset_of(
                            image_refs(node_view(*self)),
                        )) by {
                            lemma_image_refs_member(
                                children_views(children@),
                                i as int,
                            );
                        }
                    }
                    i = i + 1;
                }
            },
            LayoutNode::TextNode { text, size, color, background_color } => {
                render_text_node(page, area, font, font_index, text, *size, *color, *background_color);
            },
            LayoutNode::Container { child, padding, border_width } => {
                if *border_width > 0 {
                    let bottom_y = fx_sub(area.y, area.height);
                    page.draw_rect(area.x, bottom_y, area.width, area.height, *border_width);
                }
                let red = fx_add(*padding, *border_width);
                let child_area = Rect {
                    x: fx_add(area.x, red),
                    y: fx_sub(area.y, red),
                    width: fx_sub_floor(area.width, fx_add(red, red)),
                    height: fx_sub_floor(area.height, fx_add(red, red)),
                };
                proof {
                    assert(decreases_to!(*self => *self->Container_child));
                }
                let ghost gpre = page.used_glyphs@;
                let ghost cpre = page.content@;
                child.render(page, child_area, font, font_index, context);
                proof {
                    lemma_prefix_trans_bytes(old(page).content@, cpre, page.content@);
                    lemma_prefix_trans_events(old(page).used_glyphs@, gpre, page.used_glyphs@);
                    assert forall|k: int|
                        old(page).used_glyphs@.len() <= k < page.used_glyphs@.len() implies (
                    #[trigger] page.used_glyphs@[k]).0 == font_index by {
                        if k < gpre.len() {
                            assert(page.used_glyphs@[k] == gpre[k]);
                        }
                    }
                }
            },
            LayoutNode::ImageNode { image_index, .. } => {
                let bottom_y = fx_sub(area.y, area.height);
                page.draw_image(*image_index, area.x, bottom_y, area.width, area.height);
            },
            LayoutNode::TableNode { table } => {
                let end_y = page.draw_table(table, area.x, area.y, font, font_index);
            },
            LayoutNode::PageNumberNode { format, size, align } => {
                render_page_number(page, area, font, font_index, format, *size, align, context);
            },
        }
    }
}


/// Paint a text block: the optional background rectangle, then the wrapped
/// lines in the given color (black when none is set). The appended bytes
/// are pinned exactly.
#[verifier::rlimit(100)]
#[verifier::spinoff_prover]
fn render_text_node(
    page: &mut Page,
    area: Rect,
    font: &mut Font,
    font_index: u32,
    text: &String,
    size: i64,
    color: Option<Color>,
    background_color: Option<Color>,
)
    requires
        old(page).wf(),
        old(font).wf(),
        fx_ok(area.x as int),
        fx_ok(area.y as int),
        0 <= area.width <= FX_MAX,
        0 <= area.height <= FX_MAX,
        0 < size <= FX_MAX,
        color matches Some(c) ==> c.wf(),
        background_color matches Some(c) ==> c.wf(),
    ensures
        final(page).wf(),
        final(font).wf(),
        final(font).data@ == old(font).data@,
        final(font).name@ == old(font).name@,
        final(page).content@ == old(page).content@ + (match background_color {
            Some(bg) => crate::page::op_fill_rect_color(
                area.x as int,
                fx_clamp(area.y - area.height) as int,
                area.width as int,
                area.height as int,
                bg,
            ),
            None => Seq::empty(),
        }) + crate::page::multiline_ops(
            old(font).data@,
            crate::text::wrap_lines(
                old(font).data@,
                size as int,
                area.width as int,
                words_of(text@),
                Seq::empty(),
            ),
            area.x as int,
            area.y as int,
            size as int,
            font_index,
            Some(
                match color {
                    Some(c) => c,
                    None => crate::color::spec_black(),
                },
            ),
        ),
        old(page).used_glyphs@.is_prefix_of(final(page).used_glyphs@),
        forall|k: int|
            old(page).used_glyphs@.len() <= k < final(page).used_glyphs@.len() ==> (
            #[trigger] final(page).used_glyphs@[k]).0 == font_index,
        old(page).used_fonts@.to_set().subset_of(final(page).used_fonts@.to_set()),
        final(page).used_fonts@.to_set().subset_of(
            old(page).used_fonts@.to_set().insert(font_index),
        ),
        final(page).used_images@ == old(page).used_images@,
        final(page).width == old(page).width,
        final(page).height == old(page).height,
{
    let ghost data = font.data@;
    match background_color {
        Some(bg) => {
            self_text_background(page, area, bg);
        },
        None => {},
    }
    let tc = str_to_chars(text.as_str());
    let owned = string_from_chars(&tc);
    let paint: Color = match color {
        Some(cl) => cl,
        None => Color::black(),
    };
    page.text_multiline_colored(owned, area.x, area.y, area.width, size, font_index, font, paint);
    proof {
        assert(page.content@ =~= old(page).content@ + (match background_color {
            Some(bg) => crate::page::op_fill_rect_color(
                area.x as int,
                fx_clamp(area.y - area.height) as int,
                area.width as int,
                area.height as int,
                bg,
            ),
            None => Seq::empty(),
        }) + crate::page::multiline_ops(
            data,
            crate::text::wrap_lines(
                data,
                size as int,
                area.width as int,
                words_of(text@),
                Seq::empty(),
            ),
            area.x as int,
            area.y as int,
            size as int,
            font_index,
            Some(paint),
        ));
        assert(old(page).used_glyphs@.is_prefix_of(page.used_glyphs@)) by {
            assert(page.used_glyphs@.subrange(0, old(page).used_glyphs@.len() as int)
                =~= old(page).used_glyphs@);
        }
        lemma_multiline_events_keys_pub(
            data,
            crate::text::wrap_lines(
                data,
                size as int,
                area.width as int,
                words_of(text@),
                Seq::empty(),
            ),
            size as int,
            font_index,
        );
    }
}

/// Paint a page-number line: the format's placeholders resolve from the
/// context, the line is measured for right or center alignment, and the
/// appended bytes are pinned exactly.
#[verifier::rlimit(100)]
#[verifier::spinoff_prover]
fn render_page_number(
    page: &mut Page,
    area: Rect,
    font: &mut Font,
    font_index: u32,
    format: &String,
    size: i64,
    align: &String,
    context: &PageContext,
)
    requires
        old(page).wf(),
        old(font).wf(),
        fx_ok(area.x as int),
        fx_ok(area.y as int),
        0 <= area.width <= FX_MAX,
        0 <= area.height <= FX_MAX,
        0 < size <= FX_MAX,
    ensures
        final(page).wf(),
        final(font).wf(),
        final(font).data@ == old(font).data@,
        final(font).name@ == old(font).name@,
        ({
            let resolved = subst_placeholders(
                format@,
                dec_chars(context.current as nat),
                dec_chars(context.total as nat),
            );
            final(page).content@ == old(page).content@ + crate::page::multiline_ops(
                old(font).data@,
                crate::text::wrap_lines(
                    old(font).data@,
                    size as int,
                    area.width as int,
                    words_of(resolved),
                    Seq::empty(),
                ),
                pagenum_x(
                    align@,
                    area.x as int,
                    area.width as int,
                    measure_of(old(font).data@, resolved, size as int),
                ),
                area.y as int,
                size as int,
                font_index,
                None,
            )
        }),
        old(page).used_glyphs@.is_prefix_of(final(page).used_glyphs@),
        forall|k: int|
            old(page).used_glyphs@.len() <= k < final(page).used_glyphs@.len() ==> (
            #[trigger] final(page).used_glyphs@[k]).0 == font_index,
        old(page).used_fonts@.to_set().subset_of(final(page).used_fonts@.to_set()),
        final(page).used_fonts@.to_set().subset_of(
            old(page).used_fonts@.to_set().insert(font_index),
        ),
        final(page).used_images@ == old(page).used_images@,
        final(page).width == old(page).width,
        final(page).height == old(page).height,
{
    let ghost data = font.data@;
    let cur = count_to_string(context.current);
    let tot = count_to_string(context.total);
    let resolved = subst_format(format.as_str(), cur.as_str(), tot.as_str());
    let mut x = area.x;
    let right: String = right_word();
    let center: String = center_word();
    proof {
        reveal_strlit("right");
        reveal_strlit("center");
        assert("right"@ =~= seq!['r', 'i', 'g', 'h', 't']);
        assert("center"@ =~= seq!['c', 'e', 'n', 't', 'e', 'r']);
    }
    if align.eq(&right) {
        let tw = font.measure_text(resolved.as_str(), size);
        x = fx_sub(fx_add(area.x, area.width), tw);
    } else if align.eq(&center) {
        let tw = font.measure_text(resolved.as_str(), size);
        x = fx_add(area.x, fx_frac(fx_sub_floor(area.width, tw), 1, 2));
    }
    proof {
        assert(x as int == pagenum_x(
            align@,
            area.x as int,
            area.width as int,
            measure_of(data, resolved@, size as int),
        ));
    }
    page.text_multiline(resolved, x, area.y, area.width, size, font_index, font);
    proof {
        assert(old(page).used_glyphs@.is_prefix_of(page.used_glyphs@)) by {
            assert(page.used_glyphs@.subrange(0, old(page).used_glyphs@.len() as int)
                =~= old(page).used_glyphs@);
        }
        lemma_multiline_events_keys_pub(
            data,
            crate::text::wrap_lines(
                data,
                size as int,
                area.width as int,
                words_of(
                    subst_placeholders(
                        format@,
                        dec_chars(context.current as nat),
                        dec_chars(context.total as nat),
                    ),
                ),
                Seq::empty(),
            ),
            size as int,
            font_index,
        );
    }
}

/// Draw a text node's background rectangle.
fn self_text_background(page: &mut Page, area: Rect, bg: Color)
    requires
        old(page).wf(),
        fx_ok(area.x as int),
        fx_ok(area.y as int),
        0 <= area.width <= FX_MAX,
        0 <= area.height <= FX_MAX,
        bg.wf(),
    ensures
        final(page).wf(),
        final(page).content@ == old(page).content@ + crate::page::op_fill_rect_color(
            area.x as int,
            fx_clamp(area.y - area.height) as int,
            area.width as int,
            area.height as int,
            bg,
        ),
        old(page).content@.is_prefix_of(final(page).content@),
        final(page).used_glyphs@ == old(page).used_glyphs@,
        final(page).used_fonts@ == old(page).used_fonts@,
        final(page).used_images@ == old(page).used_images@,
        final(page).width == old(page).width,
        final(page).height == old(page).height,
{
    let bottom_y = fx_sub(area.y, area.height);
    page.draw_fill_rect_color(area.x, bottom_y, area.width, area.height, bg);
    proof {
        assert(final(page).content@.subrange(0, old(page).content@.len() as int) =~= old(
            page,
        ).content@);
    }
}

/// The word `right`.
fn right_word() -> (r: String)
    ensures
        r@ == seq!['r', 'i', 'g', 'h', 't'],
{
    proof {
        reveal_strlit("right");
        assert("right"@ =~= seq!['r', 'i', 'g', 'h', 't']);
    }
    let mut v: Vec<char> = Vec::new();
    v.push('r');
    v.push('i');
    v.push('g');
    v.push('h');
    v.push('t');
    proof {
        assert(v@ =~= seq!['r', 'i', 'g', 'h', 't']);
    }
    string_from_chars(&v)
}

/// The word `center`.
fn center_word() -> (r: String)
    ensures
        r@ == seq!['c', 'e', 'n', 't', 'e', 'r'],
{
    let mut v: Vec<char> = Vec::new();
    v.push('c');
    v.push('e');
    v.push('n');
    v.push('t');
    v.push('e');
    v.push('r');
    proof {
        assert(v@ =~= seq!['c', 'e', 'n', 't', 'e', 'r']);
    }
    string_from_chars(&v)
}

/// Prefixes compose across appends.
proof fn lemma_prefix_trans_bytes(a: Seq<u8>, b: Seq<u8>, c: Seq<u8>)
    requires
        a.is_prefix_of(b),
        b.is_prefix_of(c),
    ensures
        a.is_prefix_of(c),
{
    assert(c.subrange(0, a.len() as int) =~= b.subrange(0, a.len() as int));
}

proof fn lemma_prefix_trans_events(a: Seq<(u32, u16)>, b: Seq<(u32, u16)>, c: Seq<(u32, u16)>)
    requires
        a.is_prefix_of(b),
        b.is_prefix_of(c),
    ensures
        a.is_prefix_of(c),
{
    assert(c.subrange(0, a.len() as int) =~= b.subrange(0, a.len() as int));
}

/// A child's image references are among the list's.
proof fn lemma_image_refs_member(cs: Seq<NodeV>, i: int)
    requires
        0 <= i < cs.len(),
    ensures
        image_refs(cs[i]).subset_of(image_refs_seq(cs)),
    decreases cs.len(),
{
    broadcast use vstd::set::group_set_axioms;

    if i == cs.len() - 1 {
        assert(cs[i] == cs.last());
    } else {
        lemma_image_refs_member(cs.drop_last(), i);
        assert(cs.drop_last()[i] == cs[i]);
    }
}

/// All events of a wrapped block carry the block's font index.
pub proof fn lemma_multiline_events_keys_pub(
    data: Seq<u8>,
    lines: Seq<Seq<char>>,
    size: int,
    idx: u32,
)
    ensures
        forall|k: int|
            0 <= k < crate::page::multiline_events(data, lines, size, idx).len() ==> (
            #[trigger] crate::page::multiline_events(data, lines, size, idx)[k]).0 == idx,
    decreases lines.len(),
{
    if lines.len() > 0 {
        lemma_multiline_events_keys_pub(data, lines.drop_first(), size, idx);
        let ev = crate::page::multiline_events(data, lines, size, idx);
        let head = crate::page::run_events(
            crate::font::shaped_glyphs_of(data, lines[0], size),
            idx,
        );
        let rest = crate::page::multiline_events(data, lines.drop_first(), size, idx);
        assert forall|k: int| 0 <= k < ev.len() implies (#[trigger] ev[k]).0 == idx by {
            if k < head.len() {
                assert(ev[k] == head[k]);
            } else {
                assert(ev[k] == rest[k - head.len()]);
            }
        }
    }
}

} // verus!

verus! {

impl LayoutNode {
    /// A vertical stack of children with the given spacing between them.
    pub fn column(children: Vec<LayoutNode>, spacing: i64) -> (r: LayoutNode)
        requires
            0 <= spacing <= FX_MAX,
            forall|k: int| 0 <= k < children@.len() ==> (#[trigger] children@[k]).wf(),
        ensures
            r == (LayoutNode::Column { children, spacing }),
            r.wf(),
    {
        LayoutNode::Column { children, spacing }
    }

    /// A horizontal row of children with the given spacing between them.
    pub fn row(children: Vec<LayoutNode>, spacing: i64) -> (r: LayoutNode)
        requires
            0 <= spacing <= FX_MAX,
            forall|k: int| 0 <= k < children@.len() ==> (#[trigger] children@[k]).wf(),
        ensures
            r == (LayoutNode::Row { children, spacing }),
            r.wf(),
    {
        LayoutNode::Row { children, spacing }
    }

    /// A wrapped text block.
    pub fn text(text: String, size: i64, color: Option<Color>, background_color: Option<Color>) -> (r:
        LayoutNode)
        requires
            0 < size <= FX_MAX,
            color matches Some(c) ==> c.wf(),
            background_color matches Some(c) ==> c.wf(),
        ensures
            r == (LayoutNode::TextNode { text, size, color, background_color }),
            r.wf(),
    {
        LayoutNode::TextNode { text, size, color, background_color }
    }

    /// A padded, optionally bordered box around one child.
    pub fn container(child: LayoutNode, padding: i64, border_width: i64) -> (r: LayoutNode)
        requires
            0 <= padding <= FX_MAX,
            0 <= border_width <= FX_MAX,
            child.wf(),
        ensures
            r.wf(),
            r is Container,
            node_view(r) == (NodeV::ContainerV {
                child: Box::new(node_view(child)),
                padding: padding as int,
                border_width: border_width as int,
            }),
    {
        LayoutNode::Container { child: Box::new(child), padding, border_width }
    }

    /// A placed image, by its registered index.
    pub fn image(image_index: u32, width: i64, height: i64) -> (r: LayoutNode)
        requires
            0 <= width <= FX_MAX,
            0 <= height <= FX_MAX,
        ensures
            r == (LayoutNode::ImageNode { image_index, width, height }),
            r.wf(),
    {
        LayoutNode::ImageNode { image_index, width, height }
    }

    /// A table node.
    pub fn table(table: Table) -> (r: LayoutNode)
        requires
            table.wf(),
        ensures
            r == (LayoutNode::TableNode { table }),
            r.wf(),
    {
        LayoutNode::TableNode { table }
    }

    /// A page-number line: `{page}` and `{total}` in the format resolve at
    /// render time; `align` may be `left`, `center` or `right`.
    pub fn page_number(format: String, size: i64, align: String) -> (r: LayoutNode)
        requires
            0 < size <= FX_MAX,
        ensures
            r == (LayoutNode::PageNumberNode { format, size, align }),
            r.wf(),
    {
        LayoutNode::PageNumberNode { format, size, align }
    }
}

} // verus!

verus! {

/// Measure/render agreement for tables: walking a table down from `y`
/// (the header band, then each row at its computed height, exactly as the
/// drawing routine steps) consumes no more height than the table measures,
/// as long as the measured height stays below the saturation bound.
pub proof fn lemma_table_render_within_measure(data: Seq<u8>, t: TableV, y: int, k: int)
    requires
        0 <= t.settings.header_height <= FX_MAX,
        0 <= t.settings.padding,
        0 < t.settings.font_size,
        fx_ok(y),
        0 <= k <= t.rows.len(),
        table_h_upto(data, t, k) < FX_MAX,
    ensures
        y - crate::table::table_y_after(data, t, y, k) <= table_h_upto(data, t, k),
    decreases k,
{
    let hh = t.settings.header_height as int;
    if k == 0 {
        assert(y - fx_clamp(y - hh) <= hh);
    } else {
        assert(table_h_upto(data, t, k - 1) <= table_h_upto(data, t, k)) by {
            crate::table::lemma_row_height_bounds(
                data,
                t.rows[k - 1],
                t.columns,
                t.settings.padding as int,
                t.settings.font_size as int,
            );
            crate::table::lemma_rows_height_bounds_upto(data, t, k - 1);
        }
        lemma_table_render_within_measure(data, t, y, k - 1);
        let rh = row_height_of(
            data,
            t.rows[k - 1],
            t.columns,
            t.settings.padding as int,
            t.settings.font_size as int,
        );
        crate::table::lemma_row_height_bounds(
            data,
            t.rows[k - 1],
            t.columns,
            t.settings.padding as int,
            t.settings.font_size as int,
        );
        crate::table::lemma_rows_height_bounds_upto(data, t, k - 1);
        let after_prev = crate::table::table_y_after(data, t, y, k - 1);
        assert(after_prev >= -FX_MAX);
        assert(crate::table::table_y_after(data, t, y, k) >= after_prev - rh);
    }
}

} // verus!
